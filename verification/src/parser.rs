//! Parsing source files.

use vstd::prelude::*;
use vstd::string::*;

use crate::error::{AtlasError, AtlasResult, ErrorContext, ErrorKind};
use crate::model::{ChunkKind, ChunkSpan, CodeChunk, FileLanguage, ParseResult, SourceFile};
use crate::paths;
use crate::text;

verus! {

/// Cuts a chunk out of a file. A span that does not fall on whole characters of the file gives a
/// chunk without text.
pub fn build_chunk(
    file: &SourceFile,
    kind: ChunkKind,
    symbol_name: Option<String>,
    span: ChunkSpan,
) -> (r: CodeChunk)
    ensures
        r.id@ == crate::model::chunk_id(
            file.path@,
            kind,
            paths::opt_view(symbol_name),
            span.start_line as nat,
        ),
        r.file_path == file.path,
        r.language == file.language,
        r.kind == kind,
        r.symbol_name == symbol_name,
        r.span == span,
        text::sliceable(file.source_text@, span.start_byte as int, span.end_byte as int)
            ==> vstd::utf8::encode_utf8(r.source_text@) == vstd::utf8::encode_utf8(
            file.source_text@,
        ).subrange(span.start_byte as int, span.end_byte as int),
        !text::sliceable(file.source_text@, span.start_byte as int, span.end_byte as int)
            ==> r.source_text@.len() == 0,
{
    let source_text = match text::slice_bytes(
        file.source_text.as_str(),
        span.start_byte,
        span.end_byte,
    ) {
        Some(t) => t,
        None => String::new(),
    };
    let symbol: Option<&str> = match &symbol_name {
        Some(s) => Some(s.as_str()),
        None => None,
    };
    let id = CodeChunk::generate_id(file.path.as_str(), kind, symbol, span.start_line);
    CodeChunk {
        id,
        file_path: file.path.clone(),
        language: file.language,
        kind,
        symbol_name,
        span,
        source_text,
    }
}

/// A file is parsed exactly if its language is known, and what comes of it names the file.
pub proof fn law_known_languages_are_parsed(source_file: SourceFile, r: AtlasResult<ParseResult>)
    requires
        is_parsed(source_file, r),
    ensures
        r is Ok <==> source_file.language != FileLanguage::Unknown,
        r matches Ok(p) ==> p.file == source_file && p.errors@.len() == 0,
        r matches Err(e) ==> paths::opt_view(e.context.path) == Some(source_file.path@),
{
}

/// What parsing a source file comes to: a file of a supported language gives no chunks yet, any
/// other is an error that names the operation, the path and the language.
pub open spec fn is_parsed(source_file: SourceFile, r: AtlasResult<ParseResult>) -> bool {
    match r {
        Ok(p) => {
            &&& source_file.language != FileLanguage::Unknown
            &&& p.file == source_file
            &&& p.chunks@.len() == 0
            &&& p.errors@.len() == 0
        },
        Err(e) => {
            &&& source_file.language == FileLanguage::Unknown
            &&& e.kind == ErrorKind::UnsupportedLanguage
            &&& e.message@ == "source file language is not supported yet"@
            &&& e.context.operation == Some("parse_source")
            &&& paths::opt_view(e.context.path) == Some(source_file.path@)
            &&& e.context.language == Some(source_file.language)
        },
    }
}

/// Parses a source file.
pub fn parse_source(source_file: SourceFile) -> (r: AtlasResult<ParseResult>)
    ensures
        is_parsed(source_file, r),
{
    if !source_file.language.is_supported() {
        return Err(
            AtlasError::unsupported_language(
                "source file language is not supported yet",
            ).with_context(
                ErrorContext::default().with_operation("parse_source").with_path(
                    source_file.path.as_str(),
                ).with_language(source_file.language),
            ),
        );
    }
    Ok(ParseResult::success(source_file, Vec::new()))
}

/// The parser for a language, if the language is supported.
pub fn parser_for_language(language: FileLanguage) -> (r: AtlasResult<ParserService>)
    ensures
        match r {
            Ok(_) => language != FileLanguage::Unknown,
            Err(e) => language == FileLanguage::Unknown && e.kind == ErrorKind::UnsupportedLanguage
                && e.message@ == "parser is not available for this language"@
                && e.context.operation == Some("parser_for_language") && e.context.path is None
                && e.context.language == Some(language),
        },
{
    if language.is_supported() {
        Ok(ParserService::new())
    } else {
        Err(
            AtlasError::unsupported_language(
                "parser is not available for this language",
            ).with_context(
                ErrorContext::default().with_operation("parser_for_language").with_language(language),
            ),
        )
    }
}

/// Something that parses source files.
pub trait CodeParser: Send + Sync {
    fn parse_file(&self, source_file: SourceFile) -> AtlasResult<ParseResult>;
}

/// The parser of this library.
#[derive(Debug, Clone)]
pub struct ParserService;

impl ParserService {
    /// The parser.
    pub fn new() -> Self {
        ParserService
    }
}

impl CodeParser for ParserService {
    /// Parses a file as [`parse_source`] does.
    fn parse_file(&self, source_file: SourceFile) -> (r: AtlasResult<ParseResult>)
        ensures
            is_parsed(source_file, r),
    {
        parse_source(source_file)
    }
}

} // verus!
