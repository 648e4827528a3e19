//! Finding the source files under a directory.
//!
//! Reading a directory is left to the caller: [`ScanProgress::next_directory`] says which directory
//! to read next, and [`ScanProgress::directory_read`] takes what was found there.

use vstd::prelude::*;
use vstd::string::*;

use crate::error::{AtlasError, AtlasResult, ErrorKind};
use crate::ignore;
use crate::model::{FileLanguage, SourceFile};
use crate::paths;
use crate::text;

verus! {

/// Where to scan, how deep, and how much of a large file to read.
#[derive(Debug, Clone)]
pub struct ScanOptions {
    /// The directory to start from.
    pub root: String,
    /// How many levels of directories to go down; no limit if `None`.
    pub max_depth: Option<usize>,
    /// The size in bytes above which a file is large; no file is if `None`.
    pub large_file_threshold: Option<usize>,
    /// How many lines of a large file are read; all if `None`.
    pub large_file_max_lines: Option<usize>,
}

impl ScanOptions {
    /// A scan without a limit on depth or size.
    pub fn new(root: &str) -> (r: Self)
        ensures
            r.root@ == root@,
            r.max_depth is None,
            r.large_file_threshold is None,
            r.large_file_max_lines is None,
    {
        ScanOptions {
            root: root.to_owned(),
            max_depth: None,
            large_file_threshold: None,
            large_file_max_lines: None,
        }
    }

    /// The same scan, down to a given depth.
    pub fn with_max_depth(self, depth: usize) -> (r: Self)
        ensures
            r == (ScanOptions { max_depth: Some(depth), ..self }),
    {
        ScanOptions {
            root: self.root,
            max_depth: Some(depth),
            large_file_threshold: self.large_file_threshold,
            large_file_max_lines: self.large_file_max_lines,
        }
    }
}

/// What a scan found: paths of source files, paths passed over, and messages of errors.
#[verifier::ext_equal]
pub struct Scanned {
    pub source: Seq<Seq<char>>,
    pub skipped: Seq<Seq<char>>,
    pub errors: Seq<Seq<char>>,
}

impl Scanned {
    /// One more source file.
    pub open spec fn with_source(self, path: Seq<char>) -> Scanned {
        Scanned { source: self.source.push(path), ..self }
    }

    /// One more file passed over.
    pub open spec fn with_skipped(self, path: Seq<char>) -> Scanned {
        Scanned { skipped: self.skipped.push(path), ..self }
    }

    /// One more error.
    pub open spec fn with_error(self, message: Seq<char>) -> Scanned {
        Scanned { errors: self.errors.push(message), ..self }
    }

    /// Nothing found.
    pub open spec fn nothing() -> Scanned {
        Scanned { source: Seq::empty(), skipped: Seq::empty(), errors: Seq::empty() }
    }
}

/// What a scan found.
#[derive(Debug)]
pub struct ScanResult {
    /// The source files.
    pub source_files: Vec<String>,
    /// The files passed over.
    pub skipped_files: Vec<String>,
    /// What could not be read.
    pub errors: Vec<AtlasError>,
}

/// The messages of a list of errors.
pub open spec fn messages(errors: Seq<AtlasError>) -> Seq<Seq<char>> {
    Seq::new(errors.len(), |i: int| errors[i].message@)
}

impl ScanResult {
    /// Nothing found.
    pub fn new() -> (r: Self)
        ensures
            r@ == Scanned::nothing(),
            r.only_io_errors(),
    {
        let r = ScanResult { source_files: Vec::new(), skipped_files: Vec::new(), errors: Vec::new() };
        assert(r@ =~= Scanned::nothing());
        r
    }

    /// Every error is a plain input error.
    pub open spec fn only_io_errors(&self) -> bool {
        forall|i: int|
            0 <= i < self.errors@.len() ==> (#[trigger] self.errors@[i]).is_plain(
                ErrorKind::Io,
                self.errors@[i].message@,
            )
    }

    fn push_source(&mut self, path: String)
        requires
            old(self).only_io_errors(),
        ensures
            final(self).only_io_errors(),
            final(self)@ == old(self)@.with_source(path@),
    {
        let ghost before = self@;
        self.source_files.push(path);
        assert(self@ =~= before.with_source(path@));
    }

    fn push_skipped(&mut self, path: String)
        requires
            old(self).only_io_errors(),
        ensures
            final(self).only_io_errors(),
            final(self)@ == old(self)@.with_skipped(path@),
    {
        let ghost before = self@;
        self.skipped_files.push(path);
        assert(self@ =~= before.with_skipped(path@));
    }

    fn push_error(&mut self, message: String)
        requires
            old(self).only_io_errors(),
        ensures
            final(self).only_io_errors(),
            final(self)@ == old(self)@.with_error(message@),
    {
        let ghost before = self@;
        self.errors.push(AtlasError::io(message.as_str()));
        assert(self@ =~= before.with_error(message@));
    }
}

impl View for ScanResult {
    type V = Scanned;

    open spec fn view(&self) -> Scanned {
        Scanned {
            source: crate::text::views(self.source_files@),
            skipped: crate::text::views(self.skipped_files@),
            errors: messages(self.errors@),
        }
    }
}

impl Default for ScanResult {
    fn default() -> (r: Self)
        ensures
            r@ == Scanned::nothing(),
            r.only_io_errors(),
    {
        Self::new()
    }
}

/// What kind of thing a directory entry is. A file carries its canonical path, if it has one.
pub enum EntryKind {
    Directory,
    File(Option<String>),
    /// A file whose name is not text.
    Nameless(Option<String>),
    Other,
    Unreadable(String),
}

/// An entry of a directory, or why it could not be read.
pub enum ScanEntry {
    Found(String, EntryKind),
    Failed(String),
}

/// What an [`EntryKind`] says.
pub enum KindModel {
    Directory,
    File(Option<Seq<char>>),
    Nameless(Option<Seq<char>>),
    Other,
    Unreadable(Seq<char>),
}

/// What a [`ScanEntry`] says.
pub enum EntryModel {
    Found(Seq<char>, KindModel),
    Failed(Seq<char>),
}

impl EntryKind {
    /// What the kind says.
    pub open spec fn model(&self) -> KindModel {
        match self {
            EntryKind::Directory => KindModel::Directory,
            EntryKind::File(c) => KindModel::File(paths::opt_view(*c)),
            EntryKind::Nameless(c) => KindModel::Nameless(paths::opt_view(*c)),
            EntryKind::Other => KindModel::Other,
            EntryKind::Unreadable(e) => KindModel::Unreadable(e@),
        }
    }
}

impl ScanEntry {
    /// What the entry says.
    pub open spec fn model(&self) -> EntryModel {
        match self {
            ScanEntry::Found(p, k) => EntryModel::Found(p@, k.model()),
            ScanEntry::Failed(e) => EntryModel::Failed(e@),
        }
    }
}

/// What the root of a scan is.
pub enum RootStatus {
    Missing,
    /// Not a directory; the canonical path, if it has one.
    File(Option<String>),
    Directory,
}

/// The canonical path where there is one, and the cleaned path otherwise.
pub open spec fn normalized(path: Seq<char>, canonical: Option<Seq<char>>) -> Seq<char> {
    match canonical {
        Some(c) => c,
        None => paths::path_of(paths::cleaned(paths::components(path))),
    }
}

/// A path goes by its canonical form where that is known.
pub proof fn law_canonical_form_is_used(path: Seq<char>, canonical: Seq<char>)
    ensures
        normalized(path, Some(canonical)) == canonical,
{
}

/// A file counts as source exactly if its extension is one of those of a language.
pub proof fn law_sources_go_by_their_extensions(path: Seq<char>)
    ensures
        paths::extension(path) is None ==> !is_source(path),
        paths::extension(path) matches Some(ext) ==> (is_source(path) <==> ext == "rs"@ || ext
            == "js"@ || ext == "jsx"@ || ext == "ts"@ || ext == "tsx"@ || ext == "py"@ || ext
            == "php"@),
{
}

/// A file counts as source if its extension stands for a supported language.
pub open spec fn is_source(path: Seq<char>) -> bool {
    crate::model::language_of_path(path) != FileLanguage::Unknown
}

/// What a file in a directory adds to the result.
pub open spec fn file_scanned(
    acc: Scanned,
    path: Seq<char>,
    canonical: Option<Seq<char>>,
) -> Scanned {
    let n = normalized(path, canonical);
    if ignore::ignores_file(n) || !is_source(n) {
        acc.with_skipped(n)
    } else {
        acc.with_source(n)
    }
}

/// The message for an entry that cannot be read.
pub open spec fn entry_failed(dir: Seq<char>, e: Seq<char>) -> Seq<char> {
    "Failed to read entry in "@ + dir + ": "@ + e
}

/// The message for an entry whose kind cannot be found out.
pub open spec fn type_failed(path: Seq<char>, e: Seq<char>) -> Seq<char> {
    "Failed to get file type for "@ + path + ": "@ + e
}

/// The message for a directory that cannot be read.
pub open spec fn directory_failed(dir: Seq<char>, e: Seq<char>) -> Seq<char> {
    "Failed to read directory "@ + dir + ": "@ + e
}

/// The message for a root that does not exist.
pub open spec fn root_missing(root: Seq<char>) -> Seq<char> {
    "Root path does not exist: "@ + root
}

/// The message for a file that cannot be read.
pub open spec fn file_failed(path: Seq<char>, e: Seq<char>) -> Seq<char> {
    "Failed to read file "@ + path + ": "@ + e
}

/// Work that is still to be done: a directory to read, or an entry of a directory at a depth.
pub enum Pending {
    Directory(String, usize),
    Entry(String, usize, ScanEntry),
}

/// What a [`Pending`] says.
pub enum Work {
    Directory(Seq<char>, nat),
    Entry(Seq<char>, nat, EntryModel),
}

impl Pending {
    /// What is still to be done.
    pub open spec fn model(&self) -> Work {
        match self {
            Pending::Directory(d, n) => Work::Directory(d@, *n as nat),
            Pending::Entry(d, n, e) => Work::Entry(d@, *n as nat, e.model()),
        }
    }
}

/// The work that a list stands for.
pub open spec fn works(pending: Seq<Pending>) -> Seq<Work> {
    Seq::new(pending.len(), |i: int| pending[i].model())
}

/// A directory at this depth is not read.
pub open spec fn too_deep(depth: nat, max_depth: Option<usize>) -> bool {
    match max_depth {
        Some(max) => depth > max,
        None => false,
    }
}

/// Where the work at the top of the stack leads: to a directory that has to be read, or to a result
/// with nothing left to do for it.
pub enum Turn {
    Read(Seq<char>, nat),
    Passed(Scanned),
}

/// Deals with one piece of work.
pub open spec fn turn(work: Work, max_depth: Option<usize>, acc: Scanned) -> Turn {
    match work {
        Work::Directory(dir, depth) => if too_deep(depth, max_depth) {
            Turn::Passed(acc)
        } else {
            Turn::Read(dir, depth)
        },
        Work::Entry(dir, depth, entry) => match entry {
            EntryModel::Failed(e) => Turn::Passed(acc.with_error(entry_failed(dir, e))),
            EntryModel::Found(path, kind) => match kind {
                KindModel::Unreadable(e) => Turn::Passed(acc.with_error(type_failed(path, e))),
                KindModel::Other => Turn::Passed(acc),
                KindModel::File(canonical) => Turn::Passed(file_scanned(acc, path, canonical)),
                KindModel::Nameless(canonical) => Turn::Passed(
                    acc.with_skipped(normalized(path, canonical)),
                ),
                KindModel::Directory => if ignore::ignores_dir(path) || too_deep(
                    depth + 1,
                    max_depth,
                ) {
                    Turn::Passed(acc)
                } else {
                    Turn::Read(path, depth + 1)
                },
            },
        },
    }
}

/// The state once every piece of work at the top that needs no reading is done: the directory to
/// read next, if there is one, the work below it, and the result.
pub open spec fn advance(
    stack: Seq<Work>,
    max_depth: Option<usize>,
    acc: Scanned,
) -> (Option<(Seq<char>, nat)>, Seq<Work>, Scanned)
    decreases stack.len(),
{
    if stack.len() == 0 {
        (None, stack, acc)
    } else {
        match turn(stack.last(), max_depth, acc) {
            Turn::Read(dir, depth) => (Some((dir, depth)), stack.drop_last(), acc),
            Turn::Passed(next) => advance(stack.drop_last(), max_depth, next),
        }
    }
}

/// The entries of a directory as work, the first entry on top.
pub open spec fn entry_work(dir: Seq<char>, depth: nat, entries: Seq<EntryModel>) -> Seq<Work> {
    Seq::new(
        entries.len(),
        |i: int| Work::Entry(dir, depth, entries[entries.len() - 1 - i]),
    )
}

/// The entries that a list stands for.
pub open spec fn entry_models(entries: Seq<ScanEntry>) -> Seq<EntryModel> {
    Seq::new(entries.len(), |i: int| entries[i].model())
}

/// A scan under way.
pub struct ScanProgress {
    /// What is still to be done, the next on top.
    pub pending: Vec<Pending>,
    /// How deep to go.
    pub max_depth: Option<usize>,
    /// What was found so far.
    pub result: ScanResult,
}

impl ScanProgress {
    /// Depths leave room to go one level down, and errors are plain input errors.
    pub open spec fn well_formed(&self) -> bool {
        &&& self.result.only_io_errors()
        &&& forall|i: int|
            0 <= i < self.pending@.len() ==> match #[trigger] self.pending@[i] {
                Pending::Directory(_, n) => n < usize::MAX,
                Pending::Entry(_, n, _) => n < usize::MAX,
            }
    }

    /// Deals with files and errors until a directory has to be read. The directory comes with its
    /// depth; `None` means that the scan is over.
    pub fn next_directory(&mut self) -> (r: Option<(String, usize)>)
        requires
            old(self).well_formed(),
        ensures
            final(self).well_formed(),
            final(self).max_depth == old(self).max_depth,
            ({
                let next = advance(works(old(self).pending@), old(self).max_depth, old(self).result@);
                &&& works(final(self).pending@) == next.1
                &&& final(self).result@ == next.2
                &&& match r {
                    Some((dir, depth)) => next.0 == Some((dir@, depth as nat)),
                    None => next.0 is None,
                }
            }),
            r is None ==> final(self).pending@.len() == 0,
    {
        let ghost goal = advance(works(self.pending@), self.max_depth, self.result@);
        while self.pending.len() > 0
            invariant
                self.well_formed(),
                self.max_depth == old(self).max_depth,
                goal == advance(works(old(self).pending@), old(self).max_depth, old(self).result@),
                goal == advance(works(self.pending@), self.max_depth, self.result@),
            decreases self.pending@.len(),
        {
            let ghost stack = works(self.pending@);
            let ghost listed = self.pending@;
            let work = match self.pending.pop() {
                Some(w) => w,
                None => {
                    return None;
                },
            };
            assert(work == listed.last());
            assert(works(self.pending@) =~= stack.drop_last());
            assert(stack.last() == work.model());
            assert(forall|i: int| 0 <= i < self.pending@.len() ==> self.pending@[i] == listed[i]);
            match work {
                Pending::Directory(dir, depth) => {
                    if !Self::beyond(depth, self.max_depth) {
                        return Some((dir, depth));
                    }
                },
                Pending::Entry(dir, depth, entry) => match entry {
                    ScanEntry::Failed(e) => {
                        let mut m = "Failed to read entry in ".to_owned();
                        m.append(dir.as_str());
                        m.append(": ");
                        m.append(e.as_str());
                        self.result.push_error(m);
                    },
                    ScanEntry::Found(path, kind) => match kind {
                        EntryKind::Unreadable(e) => {
                            let mut m = "Failed to get file type for ".to_owned();
                            m.append(path.as_str());
                            m.append(": ");
                            m.append(e.as_str());
                            self.result.push_error(m);
                        },
                        EntryKind::Other => {},
                        EntryKind::File(canonical) => {
                            let n = Scanner::normalize_path(path.as_str(), canonical);
                            if ignore::should_ignore_file(n.as_str()) {
                                self.result.push_skipped(n);
                            } else if Scanner::is_source_file(n.as_str()) {
                                self.result.push_source(n);
                            } else {
                                self.result.push_skipped(n);
                            }
                        },
                        EntryKind::Nameless(canonical) => {
                            let n = Scanner::normalize_path(path.as_str(), canonical);
                            self.result.push_skipped(n);
                        },
                        EntryKind::Directory => {
                            if !ignore::should_ignore_dir(path.as_str()) {
                                if !Self::beyond(depth + 1, self.max_depth) {
                                    return Some((path, depth + 1));
                                }
                            }
                        },
                    },
                },
            }
        }
        None
    }

    fn beyond(depth: usize, max_depth: Option<usize>) -> (r: bool)
        ensures
            r == too_deep(depth as nat, max_depth),
    {
        match max_depth {
            Some(max) => depth > max,
            None => false,
        }
    }

    /// Takes what reading a directory gave: its entries, or why it could not be read.
    pub fn directory_read(
        &mut self,
        dir: &str,
        depth: usize,
        outcome: Result<Vec<ScanEntry>, String>,
    )
        requires
            old(self).well_formed(),
            depth < usize::MAX,
        ensures
            final(self).well_formed(),
            final(self).max_depth == old(self).max_depth,
            match outcome {
                Ok(entries) => works(final(self).pending@) == works(old(self).pending@)
                    + entry_work(dir@, depth as nat, entry_models(entries@)) && final(self).result@
                    == old(self).result@,
                Err(e) => works(final(self).pending@) == works(old(self).pending@)
                    && final(self).result@ == old(self).result@.with_error(
                    directory_failed(dir@, e@),
                ),
            },
    {
        match outcome {
            Err(e) => {
                let mut m = "Failed to read directory ".to_owned();
                m.append(dir);
                m.append(": ");
                m.append(e.as_str());
                self.result.push_error(m);
            },
            Ok(found) => {
                let ghost all = found@;
                let ghost goal = entry_work(dir@, depth as nat, entry_models(all));
                let ghost base = works(self.pending@);
                let mut entries = found;
                assert(works(self.pending@) =~= base + goal.take(0));
                while entries.len() > 0
                    invariant
                        self.well_formed(),
                        depth < usize::MAX,
                        self.max_depth == old(self).max_depth,
                        self.result == old(self).result,
                        entries@.len() <= all.len(),
                        entries@ == all.take(entries@.len() as int),
                        goal == entry_work(dir@, depth as nat, entry_models(all)),
                        works(self.pending@) == base + goal.take(all.len() - entries@.len()),
                    decreases entries@.len(),
                {
                    let ghost done = all.len() - entries@.len();
                    let ghost before = works(self.pending@);
                    match entries.pop() {
                        Some(e) => {
                            let ghost model = e.model();
                            assert(goal[done] == Work::Entry(dir@, depth as nat, model));
                            self.pending.push(Pending::Entry(dir.to_owned(), depth, e));
                            assert(works(self.pending@) =~= before.push(goal[done]));
                            assert(goal.take(done + 1) =~= goal.take(done).push(goal[done]));
                        },
                        None => {},
                    }
                }
                assert(goal.take(all.len() as int) =~= goal);
            },
        }
    }
}

/// The source file that comes of reading a path: its text, or its first `max_lines` lines if it has
/// more than `threshold` bytes.
pub open spec fn is_read_source(
    r: AtlasResult<SourceFile>,
    path: Seq<char>,
    outcome: Result<String, String>,
    threshold: nat,
    max_lines: nat,
) -> bool {
    match outcome {
        Ok(whole) => {
            &&& r is Ok
            &&& r->Ok_0.path@ == path
            &&& r->Ok_0.language == crate::model::language_of_path(path)
            &&& r->Ok_0.is_large == (text::utf8_len(whole@) > threshold)
            &&& r->Ok_0.source_text@ == if text::utf8_len(whole@) > threshold {
                text::head_lines(whole@, max_lines)
            } else {
                whole@
            }
        },
        Err(e) => r is Err && r->Err_0.is_plain(ErrorKind::Io, file_failed(path, e@)),
    }
}

/// A file that was read is taken as large exactly if it has more bytes than the threshold; then it
/// starts with the text that was read, and else it is that text. A file that was not read is an error
/// that names its path and the reason.
pub proof fn law_only_large_files_are_cut(
    r: AtlasResult<SourceFile>,
    path: Seq<char>,
    outcome: Result<String, String>,
    threshold: nat,
    max_lines: nat,
)
    requires
        is_read_source(r, path, outcome, threshold, max_lines),
    ensures
        r is Ok <==> outcome is Ok,
        match (r, outcome) {
            (Ok(f), Ok(whole)) => {
                &&& f.path@ == path
                &&& f.is_large <==> text::utf8_len(whole@) > threshold
                &&& !f.is_large ==> f.source_text@ == whole@
                &&& f.is_large ==> f.source_text@ == text::head_lines(whole@, max_lines)
            },
            (Err(e), Err(reason)) => e.kind == ErrorKind::Io && text::occurs_in(e.message@, path)
                && text::occurs_in(e.message@, reason@),
            _ => false,
        },
{
    if let Err(reason) = outcome {
        let none = Seq::<char>::empty();
        text::lemma_part_occurs("Failed to read file "@, path, ": "@ + reason@);
        assert("Failed to read file "@ + path + (": "@ + reason@) =~= file_failed(path, reason@));
        text::lemma_part_occurs("Failed to read file "@ + path + ": "@, reason@, none);
        assert("Failed to read file "@ + path + ": "@ + reason@ + none =~= file_failed(
            path,
            reason@,
        ));
    }
}

/// Finds source files.
pub struct Scanner;

impl Scanner {
    /// Starts a scan. A missing root is an error, and a root that is a file is the whole scan;
    /// under a directory, [`ScanProgress::next_directory`] goes on.
    pub fn scan(options: &ScanOptions, root: RootStatus) -> (r: ScanProgress)
        ensures
            r.well_formed(),
            r.max_depth == options.max_depth,
            match root {
                RootStatus::Missing => r.pending@.len() == 0 && r.result@
                    == Scanned::nothing().with_error(root_missing(options.root@)),
                RootStatus::File(canonical) => {
                    let n = normalized(options.root@, paths::opt_view(canonical));
                    &&& r.pending@.len() == 0
                    &&& r.result@ == if is_source(n) {
                        Scanned::nothing().with_source(n)
                    } else {
                        Scanned::nothing().with_skipped(n)
                    }
                },
                RootStatus::Directory => works(r.pending@) == seq![Work::Directory(options.root@, 0)]
                    && r.result@ == Scanned::nothing(),
            },
    {
        let mut result = ScanResult::new();
        let mut pending: Vec<Pending> = Vec::new();
        match root {
            RootStatus::Missing => {
                let mut m = "Root path does not exist: ".to_owned();
                m.append(options.root.as_str());
                result.push_error(m);
            },
            RootStatus::File(canonical) => {
                let n = Self::normalize_path(options.root.as_str(), canonical);
                if Self::is_source_file(n.as_str()) {
                    result.push_source(n);
                } else {
                    result.push_skipped(n);
                }
            },
            RootStatus::Directory => {
                pending.push(Pending::Directory(options.root.clone(), 0));
                assert(works(pending@) =~= seq![Work::Directory(options.root@, 0)]);
            },
        }
        ScanProgress { pending, max_depth: options.max_depth, result }
    }

    /// Whether a file is source code, by its extension.
    pub fn is_source_file(path: &str) -> (r: bool)
        ensures
            r == is_source(path@),
    {
        FileLanguage::from_path(path).is_supported()
    }

    /// The canonical path where there is one; otherwise the path with `.` and `..` resolved.
    pub fn normalize_path(path: &str, canonical: Option<String>) -> (r: String)
        ensures
            r@ == normalized(path@, paths::opt_view(canonical)),
    {
        match canonical {
            Some(c) => c,
            None => Self::clean_path(path),
        }
    }

    /// Resolves `.` and `..` in a path that need not exist.
    pub fn clean_path(path: &str) -> (r: String)
        ensures
            r@ == normalized(path@, None),
    {
        let components = paths::path_components(path);
        let clean = paths::clean_components(&components);
        paths::join_components(&clean)
    }

    /// Makes a source file of a path and what reading it gave. Of a file of more than `threshold`
    /// bytes only the first `max_lines` lines are kept.
    pub fn read_source(
        path: &str,
        outcome: Result<String, String>,
        threshold: usize,
        max_lines: usize,
    ) -> (r: AtlasResult<SourceFile>)
        ensures
            is_read_source(r, path@, outcome, threshold as nat, max_lines as nat),
    {
        match outcome {
            Ok(whole) => {
                if text::byte_len(whole.as_str()) > threshold {
                    let kept = text::take_lines(whole.as_str(), max_lines);
                    let mut file = SourceFile::new(path, kept.as_str());
                    file.is_large = true;
                    Ok(file)
                } else {
                    Ok(SourceFile::new(path, whole.as_str()))
                }
            },
            Err(e) => {
                let mut m = "Failed to read file ".to_owned();
                m.append(path);
                m.append(": ");
                m.append(e.as_str());
                Err(AtlasError::io(m.as_str()))
            },
        }
    }
}

/// What reading each directory of a file system gives: its entries, or why it cannot be read.
pub type Listing = spec_fn(Seq<char>) -> Result<Seq<EntryModel>, Seq<char>>;

/// What a directory at `depth` adds to the result when it is walked from top to bottom, each
/// subdirectory in its place. Directories at `height` or deeper are not looked at.
pub open spec fn walk(
    fs: Listing,
    height: nat,
    dir: Seq<char>,
    depth: nat,
    max_depth: Option<usize>,
    acc: Scanned,
) -> Scanned
    decreases height - depth, 1nat, 0nat,
{
    if depth >= height || too_deep(depth, max_depth) {
        acc
    } else {
        match fs(dir) {
            Err(e) => acc.with_error(directory_failed(dir, e)),
            Ok(entries) => walk_entries(fs, height, dir, depth, entries, max_depth, acc),
        }
    }
}

/// What the entries of a directory at `depth` add to the result, in order.
pub open spec fn walk_entries(
    fs: Listing,
    height: nat,
    dir: Seq<char>,
    depth: nat,
    entries: Seq<EntryModel>,
    max_depth: Option<usize>,
    acc: Scanned,
) -> Scanned
    decreases height - depth, 0nat, entries.len(),
{
    if entries.len() == 0 || depth >= height {
        acc
    } else {
        let next = match turn(Work::Entry(dir, depth, entries[0]), max_depth, acc) {
            Turn::Passed(a) => a,
            Turn::Read(sub, _) => walk(fs, height, sub, depth + 1, max_depth, acc),
        };
        walk_entries(fs, height, dir, depth, entries.drop_first(), max_depth, next)
    }
}

/// What the work on a stack adds to the result, from the top down.
pub open spec fn walk_stack(
    fs: Listing,
    height: nat,
    stack: Seq<Work>,
    max_depth: Option<usize>,
    acc: Scanned,
) -> Scanned
    decreases stack.len(),
{
    if stack.len() == 0 {
        acc
    } else {
        let next = match stack.last() {
            Work::Directory(dir, depth) => walk(fs, height, dir, depth, max_depth, acc),
            Work::Entry(dir, depth, e) => walk_entries(
                fs,
                height,
                dir,
                depth,
                seq![e],
                max_depth,
                acc,
            ),
        };
        walk_stack(fs, height, stack.drop_last(), max_depth, next)
    }
}

/// The work on the stack is of directories above `height`.
pub open spec fn within(stack: Seq<Work>, height: nat) -> bool {
    forall|i: int|
        0 <= i < stack.len() ==> match #[trigger] stack[i] {
            Work::Directory(_, depth) => depth < height,
            Work::Entry(_, depth, _) => depth < height,
        }
}

/// A scan of a directory starts out as the walk of that directory.
pub proof fn law_scan_starts_as_walk(
    fs: Listing,
    height: nat,
    root: Seq<char>,
    max_depth: Option<usize>,
)
    ensures
        walk_stack(fs, height, seq![Work::Directory(root, 0)], max_depth, Scanned::nothing())
            == walk(fs, height, root, 0, max_depth, Scanned::nothing()),
{
    let stack = seq![Work::Directory(root, 0)];
    assert(stack.drop_last() =~= Seq::empty());
    reveal_with_fuel(walk_stack, 2);
}

/// Dealing with files and errors up to the next directory keeps what the scan comes to; once no
/// directory is left, what was found is what the scan comes to.
pub proof fn law_advance_keeps_walk(
    fs: Listing,
    height: nat,
    stack: Seq<Work>,
    max_depth: Option<usize>,
    acc: Scanned,
)
    requires
        within(stack, height),
    ensures
        ({
            let (found, rest, next) = advance(stack, max_depth, acc);
            walk_stack(fs, height, stack, max_depth, acc) == match found {
                Some((dir, depth)) => walk_stack(
                    fs,
                    height,
                    rest.push(Work::Directory(dir, depth)),
                    max_depth,
                    next,
                ),
                None => next,
            }
        }),
    decreases stack.len(),
{
    if stack.len() > 0 {
        let rest = stack.drop_last();
        assert(stack[stack.len() - 1] == stack.last());
        match stack.last() {
            Work::Entry(dir, depth, e) => {
                assert(seq![e].drop_first() =~= Seq::empty());
                reveal_with_fuel(walk_entries, 2);
            },
            Work::Directory(dir, depth) => {},
        }
        match turn(stack.last(), max_depth, acc) {
            Turn::Passed(next) => {
                assert forall|i: int| 0 <= i < rest.len() implies match #[trigger] rest[i] {
                    Work::Directory(_, depth) => depth < height,
                    Work::Entry(_, depth, _) => depth < height,
                } by {
                    assert(stack[i] == rest[i]);
                }
                law_advance_keeps_walk(fs, height, rest, max_depth, next);
            },
            Turn::Read(dir, depth) => {
                assert(rest.push(Work::Directory(dir, depth)).drop_last() =~= rest);
            },
        }
    }
}

/// Putting the entries of a directory on the stack in its place keeps what the scan comes to.
pub proof fn law_reading_keeps_walk(
    fs: Listing,
    height: nat,
    rest: Seq<Work>,
    dir: Seq<char>,
    depth: nat,
    max_depth: Option<usize>,
    acc: Scanned,
)
    requires
        depth < height,
        !too_deep(depth, max_depth),
    ensures
        walk_stack(fs, height, rest.push(Work::Directory(dir, depth)), max_depth, acc) == match fs(
            dir,
        ) {
            Ok(entries) => walk_stack(
                fs,
                height,
                rest + entry_work(dir, depth, entries),
                max_depth,
                acc,
            ),
            Err(e) => walk_stack(
                fs,
                height,
                rest,
                max_depth,
                acc.with_error(directory_failed(dir, e)),
            ),
        },
{
    assert(rest.push(Work::Directory(dir, depth)).drop_last() =~= rest);
    match fs(dir) {
        Ok(entries) => {
            lemma_entries_on_stack(fs, height, rest, dir, depth, entries, max_depth, acc);
        },
        Err(e) => {},
    }
}

proof fn lemma_entries_on_stack(
    fs: Listing,
    height: nat,
    rest: Seq<Work>,
    dir: Seq<char>,
    depth: nat,
    entries: Seq<EntryModel>,
    max_depth: Option<usize>,
    acc: Scanned,
)
    requires
        depth < height,
    ensures
        walk_stack(fs, height, rest + entry_work(dir, depth, entries), max_depth, acc)
            == walk_stack(
            fs,
            height,
            rest,
            max_depth,
            walk_entries(fs, height, dir, depth, entries, max_depth, acc),
        ),
    decreases entries.len(),
{
    let stack = rest + entry_work(dir, depth, entries);
    if entries.len() == 0 {
        assert(stack =~= rest);
    } else {
        let e = entries[0];
        let tail = entries.drop_first();
        assert(stack.last() == Work::Entry(dir, depth, e));
        assert(stack.drop_last() =~= rest + entry_work(dir, depth, tail));
        let one = seq![e];
        assert(one.drop_first() =~= Seq::empty());
        let next = walk_entries(fs, height, dir, depth, one, max_depth, acc);
        reveal_with_fuel(walk_entries, 2);
        lemma_entries_on_stack(fs, height, rest, dir, depth, tail, max_depth, next);
    }
}

/// Every source is a source file that is not left out.
pub open spec fn only_sources(s: Scanned) -> bool {
    forall|i: int|
        0 <= i < s.source.len() ==> is_source(#[trigger] s.source[i]) && !ignore::ignores_file(
            s.source[i],
        )
}

/// Walking a directory finds only source files that are not left out.
pub proof fn law_only_sources_are_found(
    fs: Listing,
    height: nat,
    dir: Seq<char>,
    depth: nat,
    max_depth: Option<usize>,
    acc: Scanned,
)
    requires
        only_sources(acc),
    ensures
        only_sources(walk(fs, height, dir, depth, max_depth, acc)),
    decreases height - depth, 1nat, 0nat,
{
    if depth < height && !too_deep(depth, max_depth) {
        match fs(dir) {
            Err(e) => {},
            Ok(entries) => {
                lemma_entries_are_sources(fs, height, dir, depth, entries, max_depth, acc);
            },
        }
    }
}

proof fn lemma_entries_are_sources(
    fs: Listing,
    height: nat,
    dir: Seq<char>,
    depth: nat,
    entries: Seq<EntryModel>,
    max_depth: Option<usize>,
    acc: Scanned,
)
    requires
        only_sources(acc),
    ensures
        only_sources(walk_entries(fs, height, dir, depth, entries, max_depth, acc)),
    decreases height - depth, 0nat, entries.len(),
{
    if entries.len() > 0 && depth < height {
        let rest = entries.drop_first();
        match turn(Work::Entry(dir, depth, entries[0]), max_depth, acc) {
            Turn::Passed(next) => {
                assert(only_sources(next));
                lemma_entries_are_sources(fs, height, dir, depth, rest, max_depth, next);
            },
            Turn::Read(sub, _) => {
                law_only_sources_are_found(fs, height, sub, depth + 1, max_depth, acc);
                let next = walk(fs, height, sub, depth + 1, max_depth, acc);
                lemma_entries_are_sources(fs, height, dir, depth, rest, max_depth, next);
            },
        }
    }
}

/// No directory is read that lies too deep, and none that is left out, unless the scan was asked for
/// that directory.
pub proof fn law_left_out_directories_are_not_read(
    stack: Seq<Work>,
    max_depth: Option<usize>,
    acc: Scanned,
)
    ensures
        match advance(stack, max_depth, acc).0 {
            Some((dir, depth)) => {
                &&& !too_deep(depth, max_depth)
                &&& ignore::ignores_dir(dir) ==> stack.contains(Work::Directory(dir, depth))
            },
            None => true,
        },
    decreases stack.len(),
{
    if stack.len() > 0 {
        assert(stack[stack.len() - 1] == stack.last());
        match turn(stack.last(), max_depth, acc) {
            Turn::Read(dir, depth) => {},
            Turn::Passed(next) => {
                let rest = stack.drop_last();
                law_left_out_directories_are_not_read(rest, max_depth, next);
                match advance(rest, max_depth, next).0 {
                    Some((dir, depth)) => {
                        if rest.contains(Work::Directory(dir, depth)) {
                            let i = choose|i: int|
                                0 <= i < rest.len() && rest[i] == Work::Directory(dir, depth);
                            assert(stack[i] == Work::Directory(dir, depth));
                        }
                    },
                    None => {},
                }
            },
        }
    }
}

/// What was found stays found.
pub open spec fn keeps(before: Scanned, after: Scanned) -> bool {
    &&& before.source.is_prefix_of(after.source)
    &&& before.skipped.is_prefix_of(after.skipped)
    &&& before.errors.is_prefix_of(after.errors)
}

proof fn lemma_keeps_through(a: Scanned, b: Scanned, c: Scanned)
    requires
        keeps(a, b),
        keeps(b, c),
    ensures
        keeps(a, c),
{
    assert(a.source =~= c.source.subrange(0, a.source.len() as int)) by {
        assert forall|k: int| 0 <= k < a.source.len() implies a.source[k] == #[trigger] c.source[k] by {
            assert(a.source[k] == b.source.subrange(0, a.source.len() as int)[k]);
            assert(b.source[k] == c.source.subrange(0, b.source.len() as int)[k]);
        }
    }
    assert(a.skipped =~= c.skipped.subrange(0, a.skipped.len() as int)) by {
        assert forall|k: int|
            0 <= k < a.skipped.len() implies a.skipped[k] == #[trigger] c.skipped[k] by {
            assert(a.skipped[k] == b.skipped.subrange(0, a.skipped.len() as int)[k]);
            assert(b.skipped[k] == c.skipped.subrange(0, b.skipped.len() as int)[k]);
        }
    }
    assert(a.errors =~= c.errors.subrange(0, a.errors.len() as int)) by {
        assert forall|k: int| 0 <= k < a.errors.len() implies a.errors[k] == #[trigger] c.errors[k] by {
            assert(a.errors[k] == b.errors.subrange(0, a.errors.len() as int)[k]);
            assert(b.errors[k] == c.errors.subrange(0, b.errors.len() as int)[k]);
        }
    }
}

proof fn lemma_keeps_same(a: Scanned)
    ensures
        keeps(a, a),
        forall|p: Seq<char>| keeps(a, #[trigger] a.with_source(p)),
        forall|p: Seq<char>| keeps(a, #[trigger] a.with_skipped(p)),
        forall|p: Seq<char>| keeps(a, #[trigger] a.with_error(p)),
{
    assert(a.source =~= a.source.subrange(0, a.source.len() as int));
    assert(a.skipped =~= a.skipped.subrange(0, a.skipped.len() as int));
    assert(a.errors =~= a.errors.subrange(0, a.errors.len() as int));
    assert forall|p: Seq<char>| keeps(a, #[trigger] a.with_source(p)) by {
        assert(a.source =~= a.source.push(p).subrange(0, a.source.len() as int));
    }
    assert forall|p: Seq<char>| keeps(a, #[trigger] a.with_skipped(p)) by {
        assert(a.skipped =~= a.skipped.push(p).subrange(0, a.skipped.len() as int));
    }
    assert forall|p: Seq<char>| keeps(a, #[trigger] a.with_error(p)) by {
        assert(a.errors =~= a.errors.push(p).subrange(0, a.errors.len() as int));
    }
}

proof fn lemma_contained(before: Seq<Seq<char>>, after: Seq<Seq<char>>, p: Seq<char>)
    requires
        before.is_prefix_of(after),
        before.contains(p),
    ensures
        after.contains(p),
{
    let k = choose|k: int| 0 <= k < before.len() && before[k] == p;
    assert(after.subrange(0, before.len() as int)[k] == p);
    assert(after[k] == p);
}

/// Walking a directory keeps everything that was found before.
pub proof fn law_walking_keeps_what_was_found(
    fs: Listing,
    height: nat,
    dir: Seq<char>,
    depth: nat,
    max_depth: Option<usize>,
    acc: Scanned,
)
    ensures
        keeps(acc, walk(fs, height, dir, depth, max_depth, acc)),
    decreases height - depth, 1nat, 0nat,
{
    lemma_keeps_same(acc);
    if depth < height && !too_deep(depth, max_depth) {
        if let Ok(entries) = fs(dir) {
            lemma_entries_keep(fs, height, dir, depth, entries, max_depth, acc);
        }
    }
}

proof fn lemma_entries_keep(
    fs: Listing,
    height: nat,
    dir: Seq<char>,
    depth: nat,
    entries: Seq<EntryModel>,
    max_depth: Option<usize>,
    acc: Scanned,
)
    ensures
        keeps(acc, walk_entries(fs, height, dir, depth, entries, max_depth, acc)),
    decreases height - depth, 0nat, entries.len(),
{
    lemma_keeps_same(acc);
    if entries.len() > 0 && depth < height {
        let rest = entries.drop_first();
        let next = match turn(Work::Entry(dir, depth, entries[0]), max_depth, acc) {
            Turn::Passed(a) => a,
            Turn::Read(sub, _) => walk(fs, height, sub, depth + 1, max_depth, acc),
        };
        if let Turn::Read(sub, _) = turn(Work::Entry(dir, depth, entries[0]), max_depth, acc) {
            law_walking_keeps_what_was_found(fs, height, sub, depth + 1, max_depth, acc);
        }
        assert(keeps(acc, next));
        lemma_entries_keep(fs, height, dir, depth, rest, max_depth, next);
        lemma_keeps_through(
            acc,
            next,
            walk_entries(fs, height, dir, depth, rest, max_depth, next),
        );
    }
}

/// The state of the walk of a directory's entries before entry `i`.
pub open spec fn before_entry(
    fs: Listing,
    height: nat,
    dir: Seq<char>,
    depth: nat,
    entries: Seq<EntryModel>,
    max_depth: Option<usize>,
    acc: Scanned,
    i: int,
) -> Scanned
    decreases i,
{
    if i <= 0 {
        acc
    } else {
        let before = before_entry(fs, height, dir, depth, entries, max_depth, acc, i - 1);
        match turn(Work::Entry(dir, depth, entries[i - 1]), max_depth, before) {
            Turn::Passed(a) => a,
            Turn::Read(sub, _) => walk(fs, height, sub, depth + 1, max_depth, before),
        }
    }
}

proof fn lemma_before_entry(
    fs: Listing,
    height: nat,
    dir: Seq<char>,
    depth: nat,
    entries: Seq<EntryModel>,
    max_depth: Option<usize>,
    acc: Scanned,
    i: int,
)
    requires
        0 <= i <= entries.len(),
        depth < height,
    ensures
        walk_entries(fs, height, dir, depth, entries, max_depth, acc) == walk_entries(
            fs,
            height,
            dir,
            depth,
            entries.skip(i),
            max_depth,
            before_entry(fs, height, dir, depth, entries, max_depth, acc, i),
        ),
    decreases i,
{
    if i > 0 {
        lemma_before_entry(fs, height, dir, depth, entries, max_depth, acc, i - 1);
        let rest = entries.skip(i - 1);
        assert(rest[0] == entries[i - 1]);
        assert(rest.drop_first() =~= entries.skip(i));
    } else {
        assert(entries.skip(0) =~= entries);
    }
}

/// A file of a directory that is walked is listed: as source if its extension stands for a supported
/// language and it is not one to pass over, else as passed over.
pub proof fn law_every_file_is_listed(
    fs: Listing,
    height: nat,
    dir: Seq<char>,
    depth: nat,
    max_depth: Option<usize>,
    acc: Scanned,
    entries: Seq<EntryModel>,
    i: int,
    path: Seq<char>,
    canonical: Option<Seq<char>>,
)
    requires
        depth < height,
        max_depth matches Some(max) ==> depth <= max,
        fs(dir) == Ok::<Seq<EntryModel>, Seq<char>>(entries),
        0 <= i < entries.len(),
        entries[i] == EntryModel::Found(path, KindModel::File(canonical)),
    ensures
        ({
            let n = normalized(path, canonical);
            let found = walk(fs, height, dir, depth, max_depth, acc);
            let wanted = crate::model::language_of_path(n) != FileLanguage::Unknown
                && !ignore::ignores_file(n);
            &&& wanted ==> found.source.contains(n)
            &&& !wanted ==> found.skipped.contains(n)
        }),
{
    let n = normalized(path, canonical);
    let before = before_entry(fs, height, dir, depth, entries, max_depth, acc, i);
    lemma_before_entry(fs, height, dir, depth, entries, max_depth, acc, i);
    let rest = entries.skip(i);
    assert(rest[0] == entries[i]);
    let next = file_scanned(before, path, canonical);
    lemma_entries_keep(fs, height, dir, depth, rest.drop_first(), max_depth, next);
    let found = walk(fs, height, dir, depth, max_depth, acc);
    assert(keeps(next, found));
    if ignore::ignores_file(n) || !is_source(n) {
        assert(next.skipped.last() == n);
        assert(next.skipped.contains(n));
        lemma_contained(next.skipped, found.skipped, n);
    } else {
        assert(next.source.last() == n);
        assert(next.source.contains(n));
        lemma_contained(next.source, found.source, n);
    }
}

/// A directory below one that is walked is walked too, unless its name is one to pass over or it
/// lies too deep: whatever is found there from any start is found.
pub proof fn law_directories_are_walked(
    fs: Listing,
    height: nat,
    dir: Seq<char>,
    depth: nat,
    max_depth: Option<usize>,
    acc: Scanned,
    entries: Seq<EntryModel>,
    i: int,
    sub: Seq<char>,
    p: Seq<char>,
)
    requires
        depth < height,
        max_depth matches Some(max) ==> depth < max,
        fs(dir) == Ok::<Seq<EntryModel>, Seq<char>>(entries),
        0 <= i < entries.len(),
        entries[i] == EntryModel::Found(sub, KindModel::Directory),
        paths::file_name(sub) matches Some(name) ==> !ignore::ignored_dir_name(name),
        forall|a: Scanned|
            (#[trigger] walk(fs, height, sub, depth + 1, max_depth, a)).source.contains(p),
    ensures
        walk(fs, height, dir, depth, max_depth, acc).source.contains(p),
{
    let before = before_entry(fs, height, dir, depth, entries, max_depth, acc, i);
    lemma_before_entry(fs, height, dir, depth, entries, max_depth, acc, i);
    let rest = entries.skip(i);
    assert(rest[0] == entries[i]);
    let next = walk(fs, height, sub, depth + 1, max_depth, before);
    assert(next.source.contains(p));
    lemma_entries_keep(fs, height, dir, depth, rest.drop_first(), max_depth, next);
    let found = walk(fs, height, dir, depth, max_depth, acc);
    assert(keeps(next, found));
    lemma_contained(next.source, found.source, p);
}

/// A directory that cannot be read, an entry that cannot be read and an entry whose kind cannot be
/// found out are each reported, and nothing that was found is lost by it.
pub proof fn law_failures_are_reported(
    fs: Listing,
    height: nat,
    dir: Seq<char>,
    depth: nat,
    max_depth: Option<usize>,
    acc: Scanned,
    path: Seq<char>,
    e: Seq<char>,
)
    requires
        depth < height,
        max_depth matches Some(max) ==> depth <= max,
    ensures
        fs(dir) == Err::<Seq<EntryModel>, Seq<char>>(e) ==> walk(
            fs,
            height,
            dir,
            depth,
            max_depth,
            acc,
        ) == acc.with_error("Failed to read directory "@ + dir + ": "@ + e),
        turn(Work::Entry(dir, depth, EntryModel::Failed(e)), max_depth, acc) == Turn::Passed(
            acc.with_error("Failed to read entry in "@ + dir + ": "@ + e),
        ),
        turn(
            Work::Entry(dir, depth, EntryModel::Found(path, KindModel::Unreadable(e))),
            max_depth,
            acc,
        ) == Turn::Passed(acc.with_error("Failed to get file type for "@ + path + ": "@ + e)),
        acc.with_error(e).source == acc.source,
        acc.with_error(e).skipped == acc.skipped,
{
}

} // verus!
