//! Source files, the chunks cut out of them, and what an indexing run reports.

use vstd::prelude::*;
use vstd::string::*;

use crate::error::AtlasError;
use crate::paths;
use crate::tally::{Tally, TallyKey};
use crate::text;
use crate::text_map::TextMap;

verus! {

/// The languages that files are told apart by.
#[derive(Debug, Clone, Copy, PartialEq, Eq, Hash, Structural)]
pub enum FileLanguage {
    /// Rust source files (`.rs`).
    Rust,
    /// JavaScript source files (`.js`).
    JavaScript,
    /// TypeScript source files (`.ts`).
    TypeScript,
    /// JSX files (`.jsx`).
    Jsx,
    /// TSX files (`.tsx`).
    Tsx,
    /// Python source files (`.py`).
    Python,
    /// PHP source files (`.php`).
    Php,
    /// Any other file.
    Unknown,
}

/// The language that an extension stands for.
pub open spec fn language_of_extension(ext: Seq<char>) -> FileLanguage {
    if ext == "rs"@ {
        FileLanguage::Rust
    } else if ext == "js"@ {
        FileLanguage::JavaScript
    } else if ext == "jsx"@ {
        FileLanguage::Jsx
    } else if ext == "ts"@ {
        FileLanguage::TypeScript
    } else if ext == "tsx"@ {
        FileLanguage::Tsx
    } else if ext == "py"@ {
        FileLanguage::Python
    } else if ext == "php"@ {
        FileLanguage::Php
    } else {
        FileLanguage::Unknown
    }
}

/// Each language goes by its own extensions, and a file with any other has none that is known.
pub proof fn law_languages_go_by_their_extensions(ext: Seq<char>)
    ensures
        language_of_extension(ext) == FileLanguage::Rust <==> ext == "rs"@,
        language_of_extension(ext) == FileLanguage::JavaScript <==> ext == "js"@,
        language_of_extension(ext) == FileLanguage::Jsx <==> ext == "jsx"@,
        language_of_extension(ext) == FileLanguage::TypeScript <==> ext == "ts"@,
        language_of_extension(ext) == FileLanguage::Tsx <==> ext == "tsx"@,
        language_of_extension(ext) == FileLanguage::Python <==> ext == "py"@,
        language_of_extension(ext) == FileLanguage::Php <==> ext == "php"@,
{
    reveal_strlit("rs");
    reveal_strlit("js");
    reveal_strlit("jsx");
    reveal_strlit("ts");
    reveal_strlit("tsx");
    reveal_strlit("py");
    reveal_strlit("php");
    assert("rs"@.len() == 2 && "js"@.len() == 2 && "ts"@.len() == 2 && "py"@.len() == 2);
    assert("jsx"@.len() == 3 && "tsx"@.len() == 3 && "php"@.len() == 3);
    assert("rs"@[0] == 'r' && "js"@[0] == 'j' && "ts"@[0] == 't' && "py"@[0] == 'p');
    assert("jsx"@[0] == 'j' && "tsx"@[0] == 't' && "php"@[0] == 'p');
}

/// The language of a file, by its extension.
pub open spec fn language_of_path(path: Seq<char>) -> FileLanguage {
    match paths::extension(path) {
        Some(ext) => language_of_extension(ext),
        None => FileLanguage::Unknown,
    }
}

impl TallyKey for FileLanguage {
    type Model = FileLanguage;

    open spec fn model(&self) -> FileLanguage {
        *self
    }

    fn same(&self, other: &Self) -> (r: bool) {
        *self == *other
    }
}

impl FileLanguage {
    /// The language of a file extension; `Unknown` for one that is not listed.
    pub fn from_extension(extension: &str) -> (r: Self)
        ensures
            r == language_of_extension(extension@),
    {
        if text::same_text(extension, "rs") {
            Self::Rust
        } else if text::same_text(extension, "js") {
            Self::JavaScript
        } else if text::same_text(extension, "jsx") {
            Self::Jsx
        } else if text::same_text(extension, "ts") {
            Self::TypeScript
        } else if text::same_text(extension, "tsx") {
            Self::Tsx
        } else if text::same_text(extension, "py") {
            Self::Python
        } else if text::same_text(extension, "php") {
            Self::Php
        } else {
            Self::Unknown
        }
    }

    /// Every language but `Unknown`.
    pub fn all_supported() -> (r: Vec<FileLanguage>)
        ensures
            r@ == seq![
                FileLanguage::Rust,
                FileLanguage::JavaScript,
                FileLanguage::TypeScript,
                FileLanguage::Jsx,
                FileLanguage::Tsx,
                FileLanguage::Python,
                FileLanguage::Php,
            ],
            forall|l: FileLanguage| r@.contains(l) <==> l != FileLanguage::Unknown,
    {
        let r = vec![
            Self::Rust,
            Self::JavaScript,
            Self::TypeScript,
            Self::Jsx,
            Self::Tsx,
            Self::Python,
            Self::Php,
        ];
        assert(r@[0] == FileLanguage::Rust && r@[1] == FileLanguage::JavaScript && r@[2]
            == FileLanguage::TypeScript && r@[3] == FileLanguage::Jsx && r@[4] == FileLanguage::Tsx
            && r@[5] == FileLanguage::Python && r@[6] == FileLanguage::Php);
        r
    }

    /// The language of a file, by the extension of its path.
    pub fn from_path(path: &str) -> (r: Self)
        ensures
            r == language_of_path(path@),
    {
        match paths::extension_of(path) {
            Some(ext) => Self::from_extension(ext.as_str()),
            None => Self::Unknown,
        }
    }

    /// Whether files of this language are parsed.
    pub fn is_supported(self) -> (r: bool)
        ensures
            r == (self != FileLanguage::Unknown),
    {
        !matches!(self, Self::Unknown)
    }

    /// The name of the language.
    pub open spec fn name(self) -> Seq<char> {
        match self {
            Self::Rust => "rust"@,
            Self::JavaScript => "javascript"@,
            Self::TypeScript => "typescript"@,
            Self::Jsx => "jsx"@,
            Self::Tsx => "tsx"@,
            Self::Python => "python"@,
            Self::Php => "php"@,
            Self::Unknown => "unknown"@,
        }
    }

    /// The name of the language, in lower case.
    pub fn as_str(self) -> (r: &'static str)
        ensures
            r@ == self.name(),
    {
        match self {
            Self::Rust => "rust",
            Self::JavaScript => "javascript",
            Self::TypeScript => "typescript",
            Self::Jsx => "jsx",
            Self::Tsx => "tsx",
            Self::Python => "python",
            Self::Php => "php",
            Self::Unknown => "unknown",
        }
    }
}

/// A source file with its language and its text.
#[derive(Debug)]
pub struct SourceFile {
    /// Path to the source file.
    pub path: String,
    /// The language, by the path's extension.
    pub language: FileLanguage,
    /// The text of the file; of a large file, its first lines.
    pub source_text: String,
    /// Whether the file is larger than the large-file threshold.
    pub is_large: bool,
}

impl Clone for SourceFile {
    fn clone(&self) -> (r: Self)
        ensures
            r == *self,
    {
        SourceFile {
            path: self.path.clone(),
            language: self.language,
            source_text: self.source_text.clone(),
            is_large: self.is_large,
        }
    }
}

impl SourceFile {
    /// A source file whose language is read off its path.
    pub fn new(path: &str, source_text: &str) -> (r: Self)
        ensures
            r.path@ == path@,
            r.source_text@ == source_text@,
            r.language == language_of_path(path@),
            !r.is_large,
    {
        SourceFile {
            path: path.to_owned(),
            language: FileLanguage::from_path(path),
            source_text: source_text.to_owned(),
            is_large: false,
        }
    }
}

/// The bytes and lines that a chunk takes up in its source file; lines count from zero.
#[derive(Debug, Clone, Copy, PartialEq, Eq, Structural)]
pub struct ChunkSpan {
    /// First byte.
    pub start_byte: usize,
    /// The byte after the last.
    pub end_byte: usize,
    /// First line.
    pub start_line: usize,
    /// Last line.
    pub end_line: usize,
}

impl ChunkSpan {
    /// A span.
    pub fn new(start_byte: usize, end_byte: usize, start_line: usize, end_line: usize) -> (r: Self)
        ensures
            r == (ChunkSpan { start_byte, end_byte, start_line, end_line }),
    {
        ChunkSpan { start_byte, end_byte, start_line, end_line }
    }
}

/// What a chunk of code is.
#[derive(Debug, Clone, Copy, PartialEq, Eq, Hash, Structural)]
pub enum ChunkKind {
    /// Function or method definition.
    Function,
    /// Struct definition (Rust).
    Struct,
    /// Enum definition.
    Enum,
    /// Trait definition (Rust).
    Trait,
    /// Impl block (Rust).
    Impl,
    /// Class definition (JS/TS).
    Class,
    /// Interface definition (TS).
    Interface,
    /// Type alias definition.
    TypeAlias,
    /// Module declaration.
    Module,
    /// Constant definition.
    Constant,
    /// Method definition within a class or impl block.
    Method,
    /// Anything else.
    Unknown,
}

impl TallyKey for ChunkKind {
    type Model = ChunkKind;

    open spec fn model(&self) -> ChunkKind {
        *self
    }

    fn same(&self, other: &Self) -> (r: bool) {
        *self == *other
    }
}

impl ChunkKind {
    /// The name of the kind.
    pub open spec fn name(self) -> Seq<char> {
        match self {
            Self::Function => "function"@,
            Self::Struct => "struct"@,
            Self::Enum => "enum"@,
            Self::Trait => "trait"@,
            Self::Impl => "impl"@,
            Self::Class => "class"@,
            Self::Interface => "interface"@,
            Self::TypeAlias => "type_alias"@,
            Self::Module => "module"@,
            Self::Constant => "constant"@,
            Self::Method => "method"@,
            Self::Unknown => "unknown"@,
        }
    }

    /// The name of the kind, in lower case.
    pub fn as_str(self) -> (r: &'static str)
        ensures
            r@ == self.name(),
    {
        match self {
            Self::Function => "function",
            Self::Struct => "struct",
            Self::Enum => "enum",
            Self::Trait => "trait",
            Self::Impl => "impl",
            Self::Class => "class",
            Self::Interface => "interface",
            Self::TypeAlias => "type_alias",
            Self::Module => "module",
            Self::Constant => "constant",
            Self::Method => "method",
            Self::Unknown => "unknown",
        }
    }
}

/// A piece of a source file: one function, type, class or the like.
#[derive(Debug)]
pub struct CodeChunk {
    /// The identifier, made of path, kind, name and line.
    pub id: String,
    /// Path to the source file.
    pub file_path: String,
    /// The language of the source file.
    pub language: FileLanguage,
    /// What the chunk is.
    pub kind: ChunkKind,
    /// The name that the chunk defines, if it has one.
    pub symbol_name: Option<String>,
    /// Where the chunk stands in the source file.
    pub span: ChunkSpan,
    /// The text of the chunk.
    pub source_text: String,
}

impl Clone for CodeChunk {
    fn clone(&self) -> (r: Self)
        ensures
            r == *self,
    {
        CodeChunk {
            id: self.id.clone(),
            file_path: self.file_path.clone(),
            language: self.language,
            kind: self.kind,
            symbol_name: self.symbol_name.clone(),
            span: self.span,
            source_text: self.source_text.clone(),
        }
    }
}

/// The identifier of a chunk: path, kind, name (or `_`) and first line, with colons between.
pub open spec fn chunk_id(
    file_path: Seq<char>,
    kind: ChunkKind,
    symbol: Option<Seq<char>>,
    start_line: nat,
) -> Seq<char> {
    file_path + ":"@ + kind.name() + ":"@ + id_name(symbol) + ":"@ + text::decimal(start_line)
}

/// The name of a chunk as its identifier has it.
pub open spec fn id_name(symbol: Option<Seq<char>>) -> Seq<char> {
    match symbol {
        Some(s) => s,
        None => "_"@,
    }
}

proof fn lemma_kind_names(a: ChunkKind, b: ChunkKind)
    ensures
        !a.name().contains(':'),
        a.name() == b.name() ==> a == b,
{
    reveal_strlit("function");
    reveal_strlit("struct");
    reveal_strlit("enum");
    reveal_strlit("trait");
    reveal_strlit("impl");
    reveal_strlit("class");
    reveal_strlit("interface");
    reveal_strlit("type_alias");
    reveal_strlit("module");
    reveal_strlit("constant");
    reveal_strlit("method");
    reveal_strlit("unknown");
    if a.name() == b.name() {
        assert(a.name().len() == b.name().len());
        assert(a.name()[0] == b.name()[0]);
        assert(a.name()[1] == b.name()[1]);
    }
}

/// Chunks with one identifier are of one kind, bear one name and start on one line, if they lie in
/// one file; if no name holds a colon, they also lie in one file. A chunk without a name is named
/// `_`.
pub proof fn law_identifiers_tell_chunks_apart(
    path: Seq<char>,
    kind: ChunkKind,
    symbol: Option<Seq<char>>,
    line: nat,
    other_path: Seq<char>,
    other_kind: ChunkKind,
    other_symbol: Option<Seq<char>>,
    other_line: nat,
)
    requires
        path == other_path || !id_name(symbol).contains(':') && !id_name(other_symbol).contains(':'),
        chunk_id(path, kind, symbol, line) == chunk_id(
            other_path,
            other_kind,
            other_symbol,
            other_line,
        ),
    ensures
        path == other_path,
        kind == other_kind,
        id_name(symbol) == id_name(other_symbol),
        line == other_line,
{
    reveal_strlit(":");
    assert(":"@ =~= seq![':']);
    text::law_decimal_is_read_back(line, other_line);
    text::law_decimal_is_read_back(other_line, line);
    lemma_kind_names(kind, other_kind);
    lemma_kind_names(other_kind, kind);
    let (n, m) = (id_name(symbol), id_name(other_symbol));
    let a = path + seq![':'] + kind.name() + seq![':'] + n;
    let b = other_path + seq![':'] + other_kind.name() + seq![':'] + m;
    text::lemma_same_behind_last(
        a,
        text::decimal(line),
        b,
        text::decimal(other_line),
        ':',
    );
    if path == other_path {
        let x = kind.name() + seq![':'] + n;
        let y = other_kind.name() + seq![':'] + m;
        assert(a =~= path + seq![':'] + x);
        assert(b =~= path + seq![':'] + y);
        assert(a.skip(path.len() as int + 1) =~= x);
        assert(b.skip(path.len() as int + 1) =~= y);
        text::lemma_same_before_first(kind.name(), n, other_kind.name(), m, ':');
    } else {
        let x = path + seq![':'] + kind.name();
        let y = other_path + seq![':'] + other_kind.name();
        text::lemma_same_behind_last(x, n, y, m, ':');
        text::lemma_same_behind_last(path, kind.name(), other_path, other_kind.name(), ':');
    }
}

/// The view of an optional text.
pub open spec fn opt_str_view(o: Option<&str>) -> Option<Seq<char>> {
    match o {
        Some(s) => Some(s@),
        None => None,
    }
}

impl CodeChunk {
    /// The identifier of a chunk.
    pub fn generate_id(
        file_path: &str,
        kind: ChunkKind,
        symbol_name: Option<&str>,
        start_line: usize,
    ) -> (r: String)
        ensures
            r@ == chunk_id(file_path@, kind, opt_str_view(symbol_name), start_line as nat),
    {
        let mut r = file_path.to_owned();
        r.append(":");
        r.append(kind.as_str());
        r.append(":");
        match symbol_name {
            Some(s) => r.append(s),
            None => r.append("_"),
        }
        r.append(":");
        let line = text::decimal_text(start_line as u64);
        r.append(line.as_str());
        r
    }
}

/// What parsing one file gave.
#[derive(Debug)]
pub struct ParseResult {
    /// The file.
    pub file: SourceFile,
    /// The chunks cut out of it.
    pub chunks: Vec<CodeChunk>,
    /// What went wrong without stopping the parser.
    pub errors: Vec<AtlasError>,
}

impl ParseResult {
    /// A result without errors.
    pub fn success(file: SourceFile, chunks: Vec<CodeChunk>) -> (r: Self)
        ensures
            r.file == file,
            r.chunks == chunks,
            r.errors@.len() == 0,
    {
        ParseResult { file, chunks, errors: Vec::new() }
    }

    /// The same result with other errors.
    pub fn with_errors(self, errors: Vec<AtlasError>) -> (r: Self)
        ensures
            r.file == self.file,
            r.chunks == self.chunks,
            r.errors == errors,
    {
        ParseResult { file: self.file, chunks: self.chunks, errors }
    }
}

/// Every chunk of a list of parsed files, in order.
pub open spec fn all_chunks(files: Seq<ParseResult>) -> Seq<CodeChunk>
    decreases files.len(),
{
    if files.len() == 0 {
        Seq::empty()
    } else {
        all_chunks(files.drop_last()) + files.last().chunks@
    }
}

/// The number of errors that the files carry.
pub open spec fn error_total(files: Seq<ParseResult>) -> nat
    decreases files.len(),
{
    if files.len() == 0 {
        0
    } else {
        error_total(files.drop_last()) + files.last().errors@.len()
    }
}

/// The number of bytes in the texts of the files.
pub open spec fn byte_total(files: Seq<ParseResult>) -> nat
    decreases files.len(),
{
    if files.len() == 0 {
        0
    } else {
        byte_total(files.drop_last()) + vstd::utf8::encode_utf8(files.last().file.source_text@).len()
    }
}

/// The languages of the files.
pub open spec fn file_languages(files: Seq<ParseResult>) -> Seq<FileLanguage> {
    files.map_values(|f: ParseResult| f.file.language)
}

/// The languages of the chunks.
pub open spec fn chunk_languages(chunks: Seq<CodeChunk>) -> Seq<FileLanguage> {
    chunks.map_values(|c: CodeChunk| c.language)
}

/// The kinds of the chunks.
pub open spec fn chunk_kinds(chunks: Seq<CodeChunk>) -> Seq<ChunkKind> {
    chunks.map_values(|c: CodeChunk| c.kind)
}

/// The totals of the first files are no greater than those of all.
pub proof fn lemma_totals_of_prefix(files: Seq<ParseResult>, i: int)
    requires
        0 <= i <= files.len(),
    ensures
        all_chunks(files.take(i)).len() <= all_chunks(files).len(),
        error_total(files.take(i)) <= error_total(files),
        byte_total(files.take(i)) <= byte_total(files),
    decreases files.len(),
{
    if i == files.len() {
        assert(files.take(i) =~= files);
    } else {
        lemma_totals_of_prefix(files.drop_last(), i);
        assert(files.drop_last().take(i) =~= files.take(i));
    }
}

/// A file adds its chunks, its errors and the bytes of its text to those of the files before it.
pub proof fn law_files_add_what_they_hold(files: Seq<ParseResult>, f: ParseResult)
    ensures
        all_chunks(files.push(f)) == all_chunks(files) + f.chunks@,
        error_total(files.push(f)) == error_total(files) + f.errors@.len(),
        byte_total(files.push(f)) == byte_total(files) + vstd::utf8::encode_utf8(
            f.file.source_text@,
        ).len(),
        all_chunks(Seq::empty()) == Seq::<CodeChunk>::empty(),
        error_total(Seq::empty()) == 0,
        byte_total(Seq::empty()) == 0,
{
    assert(files.push(f).drop_last() =~= files);
}

/// Every chunk of every file is among all chunks.
pub proof fn law_no_chunk_is_lost(files: Seq<ParseResult>, i: int, j: int)
    requires
        0 <= i < files.len(),
        0 <= j < files[i].chunks@.len(),
    ensures
        all_chunks(files).contains(files[i].chunks@[j]),
    decreases files.len(),
{
    let front = all_chunks(files.drop_last());
    let all = all_chunks(files);
    if i == files.len() - 1 {
        assert(all[front.len() + j] == files[i].chunks@[j]);
    } else {
        law_no_chunk_is_lost(files.drop_last(), i, j);
        let k = front.index_of(files[i].chunks@[j]);
        assert(all[k] == files[i].chunks@[j]);
    }
}

/// What an indexing run counted.
pub struct IndexStats {
    /// Files parsed and files that failed.
    pub total_files: usize,
    /// Files parsed.
    pub parsed_files: usize,
    /// Files that were not parsed.
    pub skipped_files: usize,
    /// Chunks cut out of the files.
    pub total_chunks: usize,
    /// Errors of the run and of the files.
    pub total_errors: usize,
    /// Files by language.
    pub files_by_language: Tally<FileLanguage>,
    /// Chunks by language.
    pub chunks_by_language: Tally<FileLanguage>,
    /// Chunks by kind.
    pub chunks_by_kind: Tally<ChunkKind>,
    /// Bytes of source text.
    pub total_source_bytes: usize,
    /// How long the run took, in milliseconds.
    pub elapsed_ms: u64,
    /// Chunks that were embedded.
    pub embedded_chunks: usize,
    /// Chunks whose embedding failed.
    pub embedding_errors: usize,
    /// The dimension of the embedding vectors.
    pub embedding_dimension: usize,
}

impl Default for IndexStats {
    fn default() -> (r: Self)
        ensures
            r.total_files == 0,
            r.parsed_files == 0,
            r.skipped_files == 0,
            r.total_chunks == 0,
            r.total_errors == 0,
            r.files_by_language.counts() == Map::<FileLanguage, nat>::empty(),
            r.chunks_by_language.counts() == Map::<FileLanguage, nat>::empty(),
            r.chunks_by_kind.counts() == Map::<ChunkKind, nat>::empty(),
            r.total_source_bytes == 0,
            r.elapsed_ms == 0,
            r.embedded_chunks == 0,
            r.embedding_errors == 0,
            r.embedding_dimension == 0,
    {
        IndexStats {
            total_files: 0,
            parsed_files: 0,
            skipped_files: 0,
            total_chunks: 0,
            total_errors: 0,
            files_by_language: Tally::new(),
            chunks_by_language: Tally::new(),
            chunks_by_kind: Tally::new(),
            total_source_bytes: 0,
            elapsed_ms: 0,
            embedded_chunks: 0,
            embedding_errors: 0,
            embedding_dimension: 0,
        }
    }
}

impl IndexStats {
    /// The statistics count what stands in the files and errors.
    pub open spec fn describes(self, files: Seq<ParseResult>, errors: Seq<AtlasError>) -> bool {
        &&& self.total_files == files.len() + errors.len()
        &&& self.parsed_files == files.len()
        &&& self.skipped_files == errors.len()
        &&& self.total_chunks == all_chunks(files).len()
        &&& self.total_errors == errors.len() + error_total(files)
        &&& self.files_by_language.well_formed()
        &&& self.files_by_language.counts() == crate::tally::tally_of(file_languages(files))
        &&& self.files_by_language.total() == self.parsed_files
        &&& self.chunks_by_language.well_formed()
        &&& self.chunks_by_language.counts() == crate::tally::tally_of(
            chunk_languages(all_chunks(files)),
        )
        &&& self.chunks_by_language.total() == self.total_chunks
        &&& self.chunks_by_kind.well_formed()
        &&& self.chunks_by_kind.counts() == crate::tally::tally_of(chunk_kinds(all_chunks(files)))
        &&& self.chunks_by_kind.total() == self.total_chunks
        &&& self.total_source_bytes == byte_total(files)
    }
}

/// Statistics count every file as parsed or skipped, each language as often as there are files or
/// chunks of it, and each kind as often as there are chunks of it.
pub proof fn law_statistics_count_what_is_there(
    stats: IndexStats,
    files: Seq<ParseResult>,
    errors: Seq<AtlasError>,
    l: FileLanguage,
    k: ChunkKind,
)
    requires
        stats.describes(files, errors),
    ensures
        stats.parsed_files == files.len(),
        stats.skipped_files == errors.len(),
        stats.total_files == stats.parsed_files + stats.skipped_files,
        stats.total_errors >= errors.len(),
        (forall|i: int| 0 <= i < files.len() ==> (#[trigger] files[i]).errors@.len() == 0)
            ==> stats.total_errors == errors.len(),
        ({
            let in_files = files.map_values(|f: ParseResult| f.file.language);
            let in_chunks = all_chunks(files).map_values(|c: CodeChunk| c.language);
            let kinds = all_chunks(files).map_values(|c: CodeChunk| c.kind);
            &&& stats.files_by_language.counts().contains_key(l) == in_files.contains(l)
            &&& in_files.contains(l) ==> stats.files_by_language.counts()[l]
                == in_files.to_multiset().count(l)
            &&& stats.chunks_by_language.counts().contains_key(l) == in_chunks.contains(l)
            &&& in_chunks.contains(l) ==> stats.chunks_by_language.counts()[l]
                == in_chunks.to_multiset().count(l)
            &&& stats.chunks_by_kind.counts().contains_key(k) == kinds.contains(k)
            &&& kinds.contains(k) ==> stats.chunks_by_kind.counts()[k]
                == kinds.to_multiset().count(k)
            &&& stats.total_chunks == kinds.len()
        }),
{
    let in_files = files.map_values(|f: ParseResult| f.file.language);
    let in_chunks = all_chunks(files).map_values(|c: CodeChunk| c.language);
    let kinds = all_chunks(files).map_values(|c: CodeChunk| c.kind);
    assert(in_files =~= file_languages(files));
    assert(in_chunks =~= chunk_languages(all_chunks(files)));
    assert(kinds =~= chunk_kinds(all_chunks(files)));
    crate::tally::law_tally_counts(in_files, l);
    crate::tally::law_tally_counts(in_chunks, l);
    crate::tally::law_tally_counts(kinds, k);
    if forall|i: int| 0 <= i < files.len() ==> (#[trigger] files[i]).errors@.len() == 0 {
        lemma_no_errors(files);
    }
}

proof fn lemma_no_errors(files: Seq<ParseResult>)
    requires
        forall|i: int| 0 <= i < files.len() ==> (#[trigger] files[i]).errors@.len() == 0,
    ensures
        error_total(files) == 0,
    decreases files.len(),
{
    if files.len() > 0 {
        let front = files.drop_last();
        assert forall|i: int| 0 <= i < front.len() implies (#[trigger] front[i]).errors@.len()
            == 0 by {
            assert(files[i] == front[i]);
        }
        lemma_no_errors(front);
        assert(files[files.len() - 1] == files.last());
    }
}

/// What an indexing run gave.
pub struct IndexResult {
    /// The files that were parsed.
    pub files: Vec<ParseResult>,
    /// The errors that belong to no parsed file.
    pub errors: Vec<AtlasError>,
    /// What was counted.
    pub stats: IndexStats,
}

impl IndexResult {
    /// Puts parsed files and errors together and counts them. The elapsed time is set by
    /// [`IndexResult::set_elapsed_ms`].
    pub fn from_parse_results(files: Vec<ParseResult>, errors: Vec<AtlasError>) -> (r: Self)
        requires
            files@.len() + errors@.len() <= usize::MAX,
            all_chunks(files@).len() <= usize::MAX,
            errors@.len() + error_total(files@) <= usize::MAX,
            byte_total(files@) <= usize::MAX,
        ensures
            r.files == files,
            r.errors == errors,
            r.stats.describes(files@, errors@),
            r.stats.elapsed_ms == 0,
            r.stats.embedded_chunks == 0,
            r.stats.embedding_errors == 0,
            r.stats.embedding_dimension == 0,
    {
        let mut total_chunks: usize = 0;
        let mut file_errors: usize = 0;
        let mut total_source_bytes: usize = 0;
        let mut files_by_language: Tally<FileLanguage> = Tally::new();
        let mut chunks_by_language: Tally<FileLanguage> = Tally::new();
        let mut chunks_by_kind: Tally<ChunkKind> = Tally::new();
        let count: usize = files.len();
        let mut i: usize = 0;
        assert(files@.take(0) =~= Seq::empty());
        assert(file_languages(files@.take(0)) =~= Seq::empty());
        assert(chunk_languages(all_chunks(files@.take(0))) =~= Seq::empty());
        assert(chunk_kinds(all_chunks(files@.take(0))) =~= Seq::empty());
        while i < count
            invariant
                i <= count == files@.len(),
                all_chunks(files@).len() <= usize::MAX,
                errors@.len() + error_total(files@) <= usize::MAX,
                byte_total(files@) <= usize::MAX,
                total_chunks == all_chunks(files@.take(i as int)).len(),
                file_errors == error_total(files@.take(i as int)),
                total_source_bytes == byte_total(files@.take(i as int)),
                files_by_language.well_formed(),
                files_by_language.total() == i,
                files_by_language.counts() == crate::tally::tally_of(
                    file_languages(files@.take(i as int)),
                ),
                chunks_by_language.well_formed(),
                chunks_by_language.total() == total_chunks,
                chunks_by_language.counts() == crate::tally::tally_of(
                    chunk_languages(all_chunks(files@.take(i as int))),
                ),
                chunks_by_kind.well_formed(),
                chunks_by_kind.total() == total_chunks,
                chunks_by_kind.counts() == crate::tally::tally_of(
                    chunk_kinds(all_chunks(files@.take(i as int))),
                ),
            decreases count - i,
        {
            let file = &files[i];
            let ghost done = files@.take(i as int);
            let ghost next = files@.take(i + 1);
            proof {
                assert(next.drop_last() =~= done);
                lemma_totals_of_prefix(files@, i + 1);
                assert(file_languages(next).drop_last() =~= file_languages(done));
                if files_by_language.counts().contains_key(file.file.language) {
                    crate::tally::lemma_tally_bound(file_languages(done), file.file.language);
                }
            }
            files_by_language.add(file.file.language);
            total_source_bytes = total_source_bytes + text::byte_len(file.file.source_text.as_str());
            file_errors = file_errors + file.errors.len();
            let ghost before = all_chunks(done);
            let n: usize = file.chunks.len();
            let mut j: usize = 0;
            assert(before + file.chunks@.take(0) =~= before);
            while j < n
                invariant
                    j <= n == file.chunks@.len(),
                    before.len() + n <= usize::MAX,
                    total_chunks == before.len() + j,
                    chunks_by_language.well_formed(),
                    chunks_by_language.total() == total_chunks,
                    chunks_by_language.counts() == crate::tally::tally_of(
                        chunk_languages(before + file.chunks@.take(j as int)),
                    ),
                    chunks_by_kind.well_formed(),
                    chunks_by_kind.total() == total_chunks,
                    chunks_by_kind.counts() == crate::tally::tally_of(
                        chunk_kinds(before + file.chunks@.take(j as int)),
                    ),
                decreases n - j,
            {
                let chunk = &file.chunks[j];
                let ghost seen = before + file.chunks@.take(j as int);
                let ghost more = before + file.chunks@.take(j + 1);
                proof {
                    assert(more =~= seen.push(*chunk));
                    assert(chunk_languages(more).drop_last() =~= chunk_languages(seen));
                    assert(chunk_kinds(more).drop_last() =~= chunk_kinds(seen));
                    if chunks_by_language.counts().contains_key(chunk.language) {
                        crate::tally::lemma_tally_bound(chunk_languages(seen), chunk.language);
                    }
                    if chunks_by_kind.counts().contains_key(chunk.kind) {
                        crate::tally::lemma_tally_bound(chunk_kinds(seen), chunk.kind);
                    }
                }
                chunks_by_language.add(chunk.language);
                chunks_by_kind.add(chunk.kind);
                total_chunks = total_chunks + 1;
                j += 1;
            }
            assert(file.chunks@.take(n as int) =~= file.chunks@);
            i += 1;
        }
        assert(files@.take(count as int) =~= files@);
        let total_files: usize = count + errors.len();
        let total_errors: usize = errors.len() + file_errors;
        let stats = IndexStats {
            total_files,
            parsed_files: count,
            skipped_files: total_files.saturating_sub(count),
            total_chunks,
            total_errors,
            files_by_language,
            chunks_by_language,
            chunks_by_kind,
            total_source_bytes,
            elapsed_ms: 0,
            embedded_chunks: 0,
            embedding_errors: 0,
            embedding_dimension: 0,
        };
        IndexResult { files, errors, stats }
    }

    /// Sets how long the run took, in milliseconds.
    pub fn set_elapsed_ms(&mut self, ms: u64)
        ensures
            final(self).files == old(self).files,
            final(self).errors == old(self).errors,
            final(self).stats == (IndexStats { elapsed_ms: ms, ..old(self).stats }),
    {
        self.stats.elapsed_ms = ms;
    }
}

/// How an embedding model is set up.
#[derive(Debug, Clone)]
pub struct EmbeddingConfig {
    /// Path to the model file.
    pub model_path: String,
    /// The dimension of the vectors.
    pub dimension: usize,
    /// The most tokens that the model takes.
    pub max_length: usize,
}

/// What to do about embeddings in an indexing run.
#[derive(Debug, Clone)]
pub struct EmbeddingOptions {
    /// The model.
    pub config: EmbeddingConfig,
    /// Where to write the vector store.
    pub vector_store_path: String,
    /// How many chunks to embed at once; 0 for the default.
    pub batch_size: usize,
}

/// How to run an indexing pass.
#[derive(Debug, Clone)]
pub struct IndexOptions {
    /// Where the incremental state is kept, if anywhere.
    pub incremental_state_path: Option<String>,
    /// The size in bytes above which a file is large.
    pub large_file_threshold: usize,
    /// How many lines of a large file are read.
    pub large_file_max_lines: usize,
    /// The number of characters above which a chunk is split; 0 to split none.
    pub chunk_split_threshold: usize,
    /// What to do about embeddings, if anything.
    pub embedding: Option<EmbeddingOptions>,
}

impl IndexOptions {
    /// The default options.
    pub fn new() -> (r: Self)
        ensures
            r.incremental_state_path is None,
            r.large_file_threshold == 1024 * 1024,
            r.large_file_max_lines == 500,
            r.chunk_split_threshold == 3000,
            r.embedding is None,
    {
        IndexOptions {
            incremental_state_path: None,
            large_file_threshold: 1024 * 1024,
            large_file_max_lines: 500,
            chunk_split_threshold: 3000,
            embedding: None,
        }
    }
}

impl Default for IndexOptions {
    fn default() -> (r: Self)
        ensures
            r.incremental_state_path is None,
            r.large_file_threshold == 1024 * 1024,
            r.large_file_max_lines == 500,
            r.chunk_split_threshold == 3000,
            r.embedding is None,
    {
        Self::new()
    }
}

/// When a file was last changed, in seconds and nanoseconds since the epoch, and its size.
#[derive(Debug, Clone, Copy, PartialEq, Eq, Structural)]
pub struct FileStamp {
    pub mtime_secs: u64,
    pub mtime_nanos: u32,
    pub size: u64,
}

/// What is remembered of a file that was indexed.
#[derive(Debug, Clone, Copy, PartialEq, Eq, Structural)]
pub struct FileState {
    /// Last change, in seconds since the epoch.
    pub mtime_secs: u64,
    /// The nanoseconds of the last change.
    pub mtime_nanos: u32,
    /// The size in bytes.
    pub size: u64,
    /// How many chunks were cut out of it.
    pub chunk_count: usize,
}

impl FileState {
    /// The stamp that the state remembers.
    pub open spec fn stamp(self) -> FileStamp {
        FileStamp { mtime_secs: self.mtime_secs, mtime_nanos: self.mtime_nanos, size: self.size }
    }
}

/// What is remembered of earlier runs.
pub struct IndexState {
    /// The version of the format.
    pub version: u32,
    /// What is remembered of each file, by its path.
    pub file_states: TextMap<FileState>,
}

impl IndexState {
    /// The version of the format that is written.
    pub const CURRENT_VERSION: u32 = 1;

    /// Nothing remembered.
    pub fn new() -> (r: Self)
        ensures
            r.version == Self::CURRENT_VERSION,
            r.file_states@ == Map::<Seq<char>, FileState>::empty(),
    {
        IndexState { version: Self::CURRENT_VERSION, file_states: TextMap::new() }
    }

    /// A file counts as changed unless it is remembered with the same stamp.
    pub open spec fn changed(self, path: Seq<char>, stamp: FileStamp) -> bool {
        !(self.file_states@.contains_key(path) && self.file_states@[path].stamp() == stamp)
    }

    /// Whether a file has changed since it was last recorded.
    pub fn has_file_changed(&self, path: &str, stamp: FileStamp) -> (r: bool)
        ensures
            r == self.changed(path@, stamp),
    {
        match self.file_states.get(path) {
            Some(prev) => prev.mtime_secs != stamp.mtime_secs || prev.mtime_nanos
                != stamp.mtime_nanos || prev.size != stamp.size,
            None => true,
        }
    }

    /// Remembers a file that was indexed.
    pub fn record_file(&mut self, path: &str, stamp: FileStamp, chunk_count: usize)
        ensures
            final(self).version == old(self).version,
            final(self).file_states@ == old(self).file_states@.insert(
                path@,
                FileState {
                    mtime_secs: stamp.mtime_secs,
                    mtime_nanos: stamp.mtime_nanos,
                    size: stamp.size,
                    chunk_count,
                },
            ),
    {
        self.file_states.insert(
            path.to_owned(),
            FileState {
                mtime_secs: stamp.mtime_secs,
                mtime_nanos: stamp.mtime_nanos,
                size: stamp.size,
                chunk_count,
            },
        );
    }
}

/// A file that was just recorded has not changed, and recording one file says nothing of another.
pub proof fn law_recorded_file_is_unchanged(
    before: IndexState,
    after: IndexState,
    path: Seq<char>,
    stamp: FileStamp,
    chunk_count: usize,
    other: Seq<char>,
    other_stamp: FileStamp,
)
    requires
        after.file_states@ == before.file_states@.insert(
            path,
            FileState {
                mtime_secs: stamp.mtime_secs,
                mtime_nanos: stamp.mtime_nanos,
                size: stamp.size,
                chunk_count,
            },
        ),
    ensures
        !after.changed(path, stamp),
        other_stamp != stamp ==> after.changed(path, other_stamp),
        other != path ==> after.changed(other, other_stamp) == before.changed(other, other_stamp),
{
}

} // verus!
