//! An overview of a project's files.

use vstd::prelude::*;
use vstd::string::*;

use crate::agent::json;
use crate::agent::json::{Fields, Json, JsonValue};
use crate::agent::protocol;
use crate::agent::protocol::{
    AgentResult, DefinitionSpec, ErrorSpec, Outcome, ParameterType, ToolCall, ToolDefinition,
    ToolParameter, ToolResult,
};
use crate::agent::tool;
use crate::agent::tool::BuiltinTool;
use crate::agent::tools::files;
use crate::paths;
use crate::tally;
use crate::tally::Tally;
use crate::text;

verus! {

/// The names of directories whose files are not counted.
pub open spec fn ignored_name(name: Seq<char>) -> bool {
    ||| name == ".git"@
    ||| name == ".svn"@
    ||| name == ".hg"@
    ||| name == "node_modules"@
    ||| name == "target"@
    ||| name == "build"@
    ||| name == "dist"@
    ||| name == "__pycache__"@
    ||| name == ".venv"@
    ||| name == "venv"@
    ||| name == ".cache"@
    ||| name == ".idea"@
    ||| name == ".vscode"@
}

/// A path that runs through a directory that version control, builds, packages or editors leave is
/// left out; these are the names of such directories, and there are no others.
pub proof fn law_left_behind_files_do_not_count(dir: Seq<char>, path: Seq<char>, i: int)
    requires
        0 <= i < text::split(path, '/').len(),
        text::split(path, '/')[i] == dir,
    ensures
        ignored_name(dir) ==> ignored(path),
        ignored_name(dir) <==> ({
            ||| dir == ".git"@
            ||| dir == ".svn"@
            ||| dir == ".hg"@
            ||| dir == "node_modules"@
            ||| dir == "target"@
            ||| dir == "build"@
            ||| dir == "dist"@
            ||| dir == "__pycache__"@
            ||| dir == ".venv"@
            ||| dir == "venv"@
            ||| dir == ".cache"@
            ||| dir == ".idea"@
            ||| dir == ".vscode"@
        }),
{
}

/// A path runs through a directory whose files are not counted.
pub open spec fn ignored(path: Seq<char>) -> bool {
    let parts = text::split(path, '/');
    exists|i: int| 0 <= i < parts.len() && ignored_name(#[trigger] parts[i])
}

/// Tells whether a path runs through a directory whose files are not counted.
pub fn is_ignored_path(path: &str) -> (r: bool)
    ensures
        r == ignored(path@),
{
    let parts = text::split_text(path, '/');
    let ghost all = text::split(path@, '/');
    let mut i: usize = 0;
    while i < parts.len()
        invariant
            i <= parts@.len(),
            all == text::split(path@, '/'),
            all == text::views(parts@),
            forall|k: int| 0 <= k < i ==> !ignored_name(#[trigger] all[k]),
        decreases parts@.len() - i,
    {
        let n = parts[i].as_str();
        assert(all[i as int] == n@);
        if text::same_text(n, ".git") || text::same_text(n, ".svn") || text::same_text(n, ".hg")
            || text::same_text(n, "node_modules") || text::same_text(n, "target")
            || text::same_text(n, "build") || text::same_text(n, "dist")
            || text::same_text(n, "__pycache__") || text::same_text(n, ".venv")
            || text::same_text(n, "venv") || text::same_text(n, ".cache")
            || text::same_text(n, ".idea") || text::same_text(n, ".vscode") {
            assert(ignored_name(all[i as int]));
            return true;
        }
        i += 1;
    }
    false
}

/// The names of files that describe a project.
pub open spec fn manifest_name(name: Seq<char>) -> bool {
    ||| name == "Cargo.toml"@
    ||| name == "package.json"@
    ||| name == "go.mod"@
    ||| name == "pyproject.toml"@
    ||| name == "requirements.txt"@
    ||| name == "pom.xml"@
    ||| name == "build.gradle"@
    ||| name == "build.gradle.kts"@
    ||| name == "CMakeLists.txt"@
    ||| name == "Makefile"@
    ||| name == "Gemfile"@
    ||| name == "mix.exs"@
    ||| name == "composer.json"@
}

/// Tells whether a file describes a project, by its name.
pub fn is_manifest_file(name: &str) -> (r: bool)
    ensures
        r == manifest_name(name@),
{
    text::same_text(name, "Cargo.toml") || text::same_text(name, "package.json")
        || text::same_text(name, "go.mod") || text::same_text(name, "pyproject.toml")
        || text::same_text(name, "requirements.txt") || text::same_text(name, "pom.xml")
        || text::same_text(name, "build.gradle") || text::same_text(name, "build.gradle.kts")
        || text::same_text(name, "CMakeLists.txt") || text::same_text(name, "Makefile")
        || text::same_text(name, "Gemfile") || text::same_text(name, "mix.exs")
        || text::same_text(name, "composer.json")
}

/// The language of files with an extension.
pub open spec fn language_for(ext: Seq<char>) -> Seq<char> {
    if ext == "rs"@ {
        "rust"@
    } else if ext == "ts"@ || ext == "tsx"@ {
        "typescript"@
    } else if ext == "js"@ || ext == "jsx"@ || ext == "mjs"@ || ext == "cjs"@ {
        "javascript"@
    } else if ext == "py"@ {
        "python"@
    } else if ext == "go"@ {
        "go"@
    } else if ext == "java"@ {
        "java"@
    } else if ext == "kt"@ || ext == "kts"@ {
        "kotlin"@
    } else if ext == "c"@ || ext == "h"@ {
        "c"@
    } else if ext == "cpp"@ || ext == "cc"@ || ext == "cxx"@ || ext == "hpp"@ || ext == "hh"@ {
        "cpp"@
    } else if ext == "cs"@ {
        "csharp"@
    } else if ext == "rb"@ {
        "ruby"@
    } else if ext == "php"@ {
        "php"@
    } else if ext == "swift"@ {
        "swift"@
    } else if ext == "scala"@ || ext == "sc"@ {
        "scala"@
    } else if ext == "sh"@ || ext == "bash"@ {
        "shell"@
    } else if ext == "sql"@ {
        "sql"@
    } else if ext == "html"@ || ext == "htm"@ {
        "html"@
    } else if ext == "css"@ || ext == "scss"@ || ext == "sass"@ {
        "css"@
    } else if ext == "json"@ {
        "json"@
    } else if ext == "yaml"@ || ext == "yml"@ {
        "yaml"@
    } else if ext == "toml"@ {
        "toml"@
    } else if ext == "md"@ {
        "markdown"@
    } else if ext == "xml"@ {
        "xml"@
    } else {
        "other"@
    }
}

/// The language of files with an extension.
pub fn extension_to_language(ext: &str) -> (r: &'static str)
    ensures
        r@ == language_for(ext@),
{
    if text::same_text(ext, "rs") {
        "rust"
    } else if text::same_text(ext, "ts") || text::same_text(ext, "tsx") {
        "typescript"
    } else if text::same_text(ext, "js") || text::same_text(ext, "jsx")
        || text::same_text(ext, "mjs") || text::same_text(ext, "cjs") {
        "javascript"
    } else if text::same_text(ext, "py") {
        "python"
    } else if text::same_text(ext, "go") {
        "go"
    } else if text::same_text(ext, "java") {
        "java"
    } else if text::same_text(ext, "kt") || text::same_text(ext, "kts") {
        "kotlin"
    } else if text::same_text(ext, "c") || text::same_text(ext, "h") {
        "c"
    } else if text::same_text(ext, "cpp") || text::same_text(ext, "cc")
        || text::same_text(ext, "cxx") || text::same_text(ext, "hpp")
        || text::same_text(ext, "hh") {
        "cpp"
    } else if text::same_text(ext, "cs") {
        "csharp"
    } else if text::same_text(ext, "rb") {
        "ruby"
    } else if text::same_text(ext, "php") {
        "php"
    } else if text::same_text(ext, "swift") {
        "swift"
    } else if text::same_text(ext, "scala") || text::same_text(ext, "sc") {
        "scala"
    } else if text::same_text(ext, "sh") || text::same_text(ext, "bash") {
        "shell"
    } else if text::same_text(ext, "sql") {
        "sql"
    } else if text::same_text(ext, "html") || text::same_text(ext, "htm") {
        "html"
    } else if text::same_text(ext, "css") || text::same_text(ext, "scss")
        || text::same_text(ext, "sass") {
        "css"
    } else if text::same_text(ext, "json") {
        "json"
    } else if text::same_text(ext, "yaml") || text::same_text(ext, "yml") {
        "yaml"
    } else if text::same_text(ext, "toml") {
        "toml"
    } else if text::same_text(ext, "md") {
        "markdown"
    } else if text::same_text(ext, "xml") {
        "xml"
    } else {
        "other"
    }
}

/// Something in a directory tree.
pub struct TreeEntry {
    pub path: String,
    pub name: String,
    pub is_dir: bool,
    pub is_file: bool,
    /// How far below the directory it lies.
    pub depth: usize,
    /// Its size in bytes, if it is known.
    pub size: Option<u64>,
}

/// The entry's path behind the directory; empty for the directory itself and outside of it.
pub open spec fn inner_path(e: TreeEntry, directory: Seq<char>) -> Seq<char> {
    if files::lies_in(e.path@, directory) {
        files::shown_path(e.path@, directory)
    } else {
        Seq::empty()
    }
}

fn inner_path_of(e: &TreeEntry, directory: &str) -> (r: String)
    ensures
        r@ == inner_path(*e, directory@),
{
    if files::is_within(e.path.as_str(), directory) {
        files::show_path(e.path.as_str(), directory)
    } else {
        let r = String::new();
        assert(r@ =~= Seq::empty());
        r
    }
}

/// A directory as a line of the tree: its name, indented by how deep it lies.
pub open spec fn tree_line(path: Seq<char>) -> Seq<char> {
    let parts = text::split(path, '/');
    text::repeated("  "@, (parts.len() - 1) as nat) + parts.last() + "/"@
}

/// An entry is a line of the tree.
pub open spec fn in_tree(e: TreeEntry, directory: Seq<char>, max_depth: nat) -> bool {
    e.is_dir && e.depth <= max_depth && inner_path(e, directory).len() > 0
}

/// The lines of the tree for the first `n` entries.
pub open spec fn tree_lines(
    entries: Seq<TreeEntry>,
    directory: Seq<char>,
    max_depth: nat,
    n: nat,
) -> Seq<Seq<char>>
    decreases n,
{
    if n == 0 {
        Seq::empty()
    } else {
        let front = tree_lines(entries, directory, max_depth, (n - 1) as nat);
        if in_tree(entries[n - 1], directory, max_depth) {
            front.push(tree_line(inner_path(entries[n - 1], directory)))
        } else {
            front
        }
    }
}

fn tree_line_of(path: &str) -> (r: String)
    ensures
        r@ == tree_line(path@),
{
    let parts = text::split_text(path, '/');
    proof {
        text::lemma_split_nonempty(path@, '/');
        assert(text::views(parts@).len() == parts@.len());
    }
    let n: usize = parts.len();
    let mut r = text::repeat_text("  ", n - 1);
    assert(text::split(path@, '/').last() == parts@[n - 1]@);
    r.append(parts[n - 1].as_str());
    r.append("/");
    r
}

fn directory_tree(entries: &Vec<TreeEntry>, directory: &str, max_depth: usize) -> (r: Vec<String>)
    ensures
        text::views(r@) == tree_lines(
            entries@,
            directory@,
            max_depth as nat,
            entries@.len(),
        ),
{
    let mut r: Vec<String> = Vec::new();
    let mut i: usize = 0;
    assert(text::views(r@) =~= Seq::empty());
    while i < entries.len()
        invariant
            i <= entries@.len(),
            text::views(r@) == tree_lines(entries@, directory@, max_depth as nat, i as nat),
        decreases entries@.len() - i,
    {
        let e = &entries[i];
        let ghost before = text::views(r@);
        if e.is_dir && e.depth <= max_depth {
            let path = inner_path_of(e, directory);
            let chars = text::chars_of(path.as_str());
            if chars.len() > 0 {
                let line = tree_line_of(path.as_str());
                r.push(line);
                assert(text::views(r@) =~= before.push(line@));
            }
        }
        i += 1;
    }
    r
}

/// A file counts unless its path runs through a directory whose files are not counted.
pub open spec fn counts(e: TreeEntry, project: Seq<char>) -> bool {
    e.is_file && !ignored(files::shown_path(e.path@, project))
}

/// The files that count among the first `n` entries.
pub open spec fn counted(entries: Seq<TreeEntry>, project: Seq<char>, n: nat) -> Seq<TreeEntry>
    decreases n,
{
    if n == 0 {
        Seq::empty()
    } else {
        let front = counted(entries, project, (n - 1) as nat);
        if counts(entries[n - 1], project) {
            front.push(entries[n - 1])
        } else {
            front
        }
    }
}

/// The sizes of files, added up, as far as they are known.
pub open spec fn size_of(list: Seq<TreeEntry>) -> nat
    decreases list.len(),
{
    if list.len() == 0 {
        0
    } else {
        size_of(list.drop_last()) + match list.last().size {
            Some(n) => n as nat,
            None => 0,
        }
    }
}

/// The extension of a file, in lower case.
pub open spec fn extension_key(path: Seq<char>) -> Seq<char> {
    match paths::extension(path) {
        Some(ext) => text::lowercase(ext),
        None => "(no ext)"@,
    }
}

/// The extensions of files.
pub open spec fn extension_keys(list: Seq<TreeEntry>) -> Seq<Seq<char>> {
    Seq::new(list.len(), |i: int| extension_key(list[i].path@))
}

/// The languages of files.
pub open spec fn language_keys(list: Seq<TreeEntry>) -> Seq<Seq<char>> {
    Seq::new(list.len(), |i: int| language_for(extension_key(list[i].path@)))
}

/// The fields of a file that describes the project.
pub open spec fn manifest_fields(e: TreeEntry, project: Seq<char>) -> Seq<(Seq<char>, JsonValue)> {
    seq![
        ("file"@, JsonValue::String(files::shown_path(e.path@, project))),
        ("name"@, JsonValue::String(e.name@)),
        (
            "size"@,
            json::natural_value(
                match e.size {
                    Some(n) => n as nat,
                    None => 0,
                },
            ),
        ),
    ]
}

/// The files that describe the project, as JSON values.
pub open spec fn manifest_values(list: Seq<TreeEntry>, project: Seq<char>) -> Seq<JsonValue>
    decreases list.len(),
{
    if list.len() == 0 {
        Seq::empty()
    } else {
        let front = manifest_values(list.drop_last(), project);
        if manifest_name(list.last().name@) {
            front.push(JsonValue::Object(manifest_fields(list.last(), project)))
        } else {
            front
        }
    }
}

/// What is known of the files that count.
struct FileCounts {
    total_files: usize,
    total_size: u64,
    by_extension: Tally<String>,
    by_language: Tally<String>,
    manifests: Vec<Json>,
}

proof fn lemma_sizes_grow(entries: Seq<TreeEntry>, project: Seq<char>, n: nat, m: nat)
    requires
        n <= m <= entries.len(),
    ensures
        size_of(counted(entries, project, n)) <= size_of(counted(entries, project, m)),
    decreases m,
{
    if n < m {
        lemma_sizes_grow(entries, project, n, (m - 1) as nat);
        let front = counted(entries, project, (m - 1) as nat);
        assert(front.push(entries[m - 1]).drop_last() =~= front);
    }
}

fn extension_key_of(path: &str) -> (r: String)
    ensures
        r@ == extension_key(path@),
{
    match paths::extension_of(path) {
        Some(ext) => text::to_lowercase(ext.as_str()),
        None => "(no ext)".to_owned(),
    }
}

fn count_key(t: &mut Tally<String>, key: String, keys: Ghost<Seq<Seq<char>>>, room: usize)
    requires
        old(t).well_formed(),
        old(t).counts() == tally::tally_of(keys@),
        keys@.len() < room,
    ensures
        final(t).well_formed(),
        final(t).counts() == tally::tally_of(keys@.push(key@)),
{
    proof {
        if tally::tally_of(keys@).contains_key(key@) {
            tally::lemma_tally_bound(keys@, key@);
        }
        assert(keys@.push(key@).drop_last() =~= keys@);
    }
    t.add(key);
}

fn count_files(entries: &Vec<TreeEntry>, project: &str) -> (r: FileCounts)
    requires
        size_of(counted(entries@, project@, entries@.len())) <= u64::MAX,
    ensures
        ({
            let list = counted(entries@, project@, entries@.len());
            &&& r.total_files == list.len()
            &&& r.total_size == size_of(list)
            &&& r.by_extension.well_formed()
            &&& r.by_extension.counts() == tally::tally_of(extension_keys(list))
            &&& r.by_language.well_formed()
            &&& r.by_language.counts() == tally::tally_of(language_keys(list))
            &&& json::models(r.manifests@) == manifest_values(list, project@)
        }),
{
    let n: usize = entries.len();
    let mut total_files: usize = 0;
    let mut total_size: u64 = 0;
    let mut by_extension: Tally<String> = Tally::new();
    let mut by_language: Tally<String> = Tally::new();
    let mut manifests: Vec<Json> = Vec::new();
    let mut i: usize = 0;
    proof {
        let none = counted(entries@, project@, 0);
        assert(extension_keys(none) =~= Seq::empty());
        assert(language_keys(none) =~= Seq::empty());
        assert(json::models(manifests@) =~= manifest_values(none, project@));
    }
    while i < n
        invariant
            i <= n == entries@.len(),
            size_of(counted(entries@, project@, n as nat)) <= u64::MAX,
            total_files == counted(entries@, project@, i as nat).len(),
            total_files <= i,
            total_size == size_of(counted(entries@, project@, i as nat)),
            by_extension.well_formed(),
            by_extension.counts() == tally::tally_of(
                extension_keys(counted(entries@, project@, i as nat)),
            ),
            by_language.well_formed(),
            by_language.counts() == tally::tally_of(
                language_keys(counted(entries@, project@, i as nat)),
            ),
            json::models(manifests@) == manifest_values(
                counted(entries@, project@, i as nat),
                project@,
            ),
        decreases n - i,
    {
        let e = &entries[i];
        let ghost list = counted(entries@, project@, i as nat);
        proof {
            lemma_sizes_grow(entries@, project@, (i + 1) as nat, n as nat);
        }
        if e.is_file {
            let shown = files::show_path(e.path.as_str(), project);
            if !is_ignored_path(shown.as_str()) {
                let ghost next = list.push(*e);
                assert(counted(entries@, project@, (i + 1) as nat) == next);
                assert(next.drop_last() =~= list);
                assert(next.last() == *e);
                total_files += 1;
                match e.size {
                    Some(size) => {
                        total_size = total_size + size;
                    },
                    None => {},
                }
                let ext = extension_key_of(e.path.as_str());
                let language = extension_to_language(ext.as_str());
                let ghost exts = extension_keys(list);
                let ghost langs = language_keys(list);
                assert(extension_keys(next) =~= exts.push(ext@));
                assert(language_keys(next) =~= langs.push(language@));
                count_key(&mut by_extension, ext, Ghost(exts), n);
                count_key(&mut by_language, language.to_owned(), Ghost(langs), n);
                if is_manifest_file(e.name.as_str()) {
                    let size: u64 = match e.size {
                        Some(s) => s,
                        None => 0,
                    };
                    let ghost had = json::models(manifests@);
                    let fields = Fields::new().with("file", Json::text(shown.as_str())).with(
                        "name",
                        Json::text(e.name.as_str()),
                    ).with("size", Json::natural(size));
                    assert(fields.model() =~= manifest_fields(*e, project@));
                    let j = fields.object();
                    manifests.push(j);
                    assert(json::models(manifests@) =~= had.push(j.model()));
                }
            }
        }
        i += 1;
    }
    FileCounts { total_files, total_size, by_extension, by_language, manifests }
}

/// An entry counts for the top of the tree.
pub open spec fn counts_at_top(e: TreeEntry, directory: Seq<char>, max_depth: nat) -> bool {
    e.is_file && e.depth <= max_depth && inner_path(e, directory).len() > 0 && !ignored(
        inner_path(e, directory),
    )
}

/// What the paths of the first `n` entries start with.
pub open spec fn top_keys(
    entries: Seq<TreeEntry>,
    directory: Seq<char>,
    max_depth: nat,
    n: nat,
) -> Seq<Seq<char>>
    decreases n,
{
    if n == 0 {
        Seq::empty()
    } else {
        let front = top_keys(entries, directory, max_depth, (n - 1) as nat);
        if counts_at_top(entries[n - 1], directory, max_depth) {
            front.push(text::split(inner_path(entries[n - 1], directory), '/')[0])
        } else {
            front
        }
    }
}

fn count_tops(entries: &Vec<TreeEntry>, directory: &str, max_depth: usize) -> (t: Tally<String>)
    ensures
        t.well_formed(),
        t.counts() == tally::tally_of(
            top_keys(entries@, directory@, max_depth as nat, entries@.len()),
        ),
{
    let n: usize = entries.len();
    let mut t: Tally<String> = Tally::new();
    let mut i: usize = 0;
    while i < n
        invariant
            i <= n == entries@.len(),
            t.well_formed(),
            top_keys(entries@, directory@, max_depth as nat, i as nat).len() <= i,
            t.counts() == tally::tally_of(
                top_keys(entries@, directory@, max_depth as nat, i as nat),
            ),
        decreases n - i,
    {
        let e = &entries[i];
        if e.is_file && e.depth <= max_depth {
            let path = inner_path_of(e, directory);
            let chars = text::chars_of(path.as_str());
            if chars.len() > 0 && !is_ignored_path(path.as_str()) {
                let parts = text::split_text(path.as_str(), '/');
                proof {
                    text::lemma_split_nonempty(path@, '/');
                    assert(text::views(parts@).len() == parts@.len());
                    assert(text::split(path@, '/')[0] == parts@[0]@);
                }
                let key = parts[0].clone();
                count_key(
                    &mut t,
                    key,
                    Ghost(top_keys(entries@, directory@, max_depth as nat, i as nat)),
                    n,
                );
            }
        }
        i += 1;
    }
    t
}

/// A name with its count as a JSON value.
pub open spec fn count_fields(key: Seq<char>, count_key: Seq<char>, p: (Seq<char>, nat)) -> Seq<
    (Seq<char>, JsonValue),
> {
    seq![(key, JsonValue::String(p.0)), (count_key, json::natural_value(p.1))]
}

/// Names with their counts as JSON values.
pub open spec fn count_values(
    key: Seq<char>,
    count_key: Seq<char>,
    list: Seq<(Seq<char>, nat)>,
) -> Seq<JsonValue> {
    Seq::new(list.len(), |i: int| JsonValue::Object(count_fields(key, count_key, list[i])))
}

fn counts_json(list: &Vec<(String, usize)>, key: &str, count_name: &str) -> (r: Json)
    ensures
        r.model() == JsonValue::Array(count_values(key@, count_name@, tally::pairs(list@))),
{
    let ghost all = tally::pairs(list@);
    let ghost values = count_values(key@, count_name@, all);
    let mut v: Vec<Json> = Vec::new();
    let mut i: usize = 0;
    assert(json::models(v@) =~= values.take(0));
    while i < list.len()
        invariant
            i <= list@.len(),
            all == tally::pairs(list@),
            values == count_values(key@, count_name@, all),
            json::models(v@) == values.take(i as int),
        decreases list@.len() - i,
    {
        let ghost before = json::models(v@);
        let fields = Fields::new().with(key, Json::text(list[i].0.as_str())).with(
            count_name,
            Json::natural(list[i].1 as u64),
        );
        assert(fields.model() =~= count_fields(key@, count_name@, all[i as int]));
        let j = fields.object();
        v.push(j);
        i += 1;
        assert(json::models(v@) =~= before.push(j.model()));
        assert(json::models(v@) =~= values.take(i as int));
    }
    assert(values.take(values.len() as int) =~= values);
    Json::array(v)
}

/// The counts of an overview, each list ranked.
pub struct Rankings {
    pub extensions: Seq<(Seq<char>, nat)>,
    pub languages: Seq<(Seq<char>, nat)>,
    pub tops: Seq<(Seq<char>, nat)>,
}

/// What there is to overview.
pub enum OverviewTarget {
    /// No directory.
    NotADirectory,
    /// The project's directory, the directory, and what lies below it.
    Tree { project: String, directory: String, entries: Vec<TreeEntry> },
}

/// The rankings are those of the files of a directory in the project.
pub open spec fn are_rankings(ranks: Rankings, target: OverviewTarget, max_depth: nat) -> bool {
    match target {
        OverviewTarget::NotADirectory => true,
        OverviewTarget::Tree { project, directory, entries } => files::lies_in(
            directory@,
            project@,
        ) ==> {
            let list = counted(entries@, project@, entries@.len());
            &&& tally::is_ranking(ranks.extensions, tally::tally_of(extension_keys(list)))
            &&& tally::is_ranking(ranks.languages, tally::tally_of(language_keys(list)))
            &&& tally::is_ranking(
                ranks.tops,
                tally::tally_of(top_keys(entries@, directory@, max_depth, entries@.len())),
            )
        },
    }
}

/// The counts by extension, and those by language, add up to the number of files that count.
pub proof fn law_every_file_is_counted_once(
    entries: Seq<TreeEntry>,
    project: Seq<char>,
    extensions: Seq<(Seq<char>, nat)>,
    languages: Seq<(Seq<char>, nat)>,
)
    requires
        tally::is_ranking(
            extensions,
            tally::tally_of(extension_keys(counted(entries, project, entries.len()))),
        ),
        tally::is_ranking(
            languages,
            tally::tally_of(language_keys(counted(entries, project, entries.len()))),
        ),
    ensures
        tally::sum(extensions) == counted(entries, project, entries.len()).len(),
        tally::sum(languages) == counted(entries, project, entries.len()).len(),
{
    let list = counted(entries, project, entries.len());
    tally::law_ranking_adds_up(extensions, extension_keys(list));
    tally::law_ranking_adds_up(languages, language_keys(list));
}

/// Exactly the files whose shown path runs through no directory that is left out are counted, in
/// order.
pub proof fn law_files_of_the_project_count(entries: Seq<TreeEntry>, project: Seq<char>, n: nat)
    requires
        n <= entries.len(),
    ensures
        counted(entries, project, n) == entries.take(n as int).filter(
            |e: TreeEntry|
                e.is_file && forall|i: int|
                    0 <= i < text::split(files::shown_path(e.path@, project), '/').len()
                        ==> !ignored_name(
                        #[trigger] text::split(files::shown_path(e.path@, project), '/')[i],
                    ),
        ),
    decreases n,
{
    reveal(Seq::filter);
    let all = entries.take(n as int);
    if n > 0 {
        law_files_of_the_project_count(entries, project, (n - 1) as nat);
        assert(all.drop_last() =~= entries.take(n - 1));
        assert(all.last() == entries[n - 1]);
    } else {
        assert(all =~= Seq::empty());
    }
}

/// A file more adds its size, if it is known, to the size of the others.
pub proof fn law_sizes_add_up(list: Seq<TreeEntry>, e: TreeEntry)
    ensures
        e.size matches Some(n) ==> size_of(list.push(e)) == size_of(list) + n,
        e.size is None ==> size_of(list.push(e)) == size_of(list),
        size_of(Seq::empty()) == 0,
{
    assert(list.push(e).drop_last() =~= list);
}

proof fn lemma_manifest_fields(e: TreeEntry, project: Seq<char>)
    ensures
        ({
            let v = JsonValue::Object(manifest_fields(e, project));
            &&& v.field("file"@) == Some(JsonValue::String(files::shown_path(e.path@, project)))
            &&& v.field("name"@) == Some(JsonValue::String(e.name@))
            &&& e.size matches Some(n) ==> v.field("size"@) == Some(json::natural_value(n as nat))
        }),
{
    reveal_strlit("file");
    reveal_strlit("name");
    reveal_strlit("size");
    assert("file"@.len() == 4);
    assert("name"@.len() == 4);
    assert("size"@.len() == 4);
    assert("file"@[0] != "name"@[0]);
    assert("file"@[0] != "size"@[0]);
    assert("name"@[0] != "size"@[0]);
    let fields = manifest_fields(e, project);
    json::lemma_field(fields, 0);
    json::lemma_field(fields, 1);
    json::lemma_field(fields, 2);
}

/// Every counted file whose name is that of a project description is listed with its path, its name
/// and its size.
pub proof fn law_project_descriptions_are_listed(
    list: Seq<TreeEntry>,
    project: Seq<char>,
    i: int,
)
    requires
        0 <= i < list.len(),
        manifest_name(list[i].name@),
    ensures
        exists|k: int|
            0 <= k < manifest_values(list, project).len() && (#[trigger] manifest_values(
                list,
                project,
            )[k]).field("file"@) == Some(
                JsonValue::String(files::shown_path(list[i].path@, project)),
            ) && manifest_values(list, project)[k].field("name"@) == Some(
                JsonValue::String(list[i].name@),
            ) && (list[i].size matches Some(n) ==> manifest_values(list, project)[k].field("size"@)
                == Some(json::natural_value(n as nat))),
    decreases list.len(),
{
    let front = manifest_values(list.drop_last(), project);
    let all = manifest_values(list, project);
    if i == list.len() - 1 {
        lemma_manifest_fields(list[i], project);
        assert(all[all.len() - 1] == JsonValue::Object(manifest_fields(list[i], project)));
    } else {
        law_project_descriptions_are_listed(list.drop_last(), project, i);
        let k = choose|k: int|
            0 <= k < front.len() && (#[trigger] front[k]).field("file"@) == Some(
                JsonValue::String(files::shown_path(list[i].path@, project)),
            ) && front[k].field("name"@) == Some(JsonValue::String(list[i].name@)) && (
            list[i].size matches Some(n) ==> front[k].field("size"@) == Some(
                json::natural_value(n as nat),
            ));
        assert(all[k] == front[k]);
    }
}

/// Every directory within the depth that lies below the one looked at has a line in the tree: its
/// name and a slash, indented by two blanks for each directory above it.
pub proof fn law_directories_are_in_the_tree(
    entries: Seq<TreeEntry>,
    directory: Seq<char>,
    max_depth: nat,
    n: nat,
    i: int,
)
    requires
        0 <= i < n <= entries.len(),
        entries[i].is_dir,
        entries[i].depth <= max_depth,
        inner_path(entries[i], directory).len() > 0,
    ensures
        ({
            let parts = text::split(inner_path(entries[i], directory), '/');
            tree_lines(entries, directory, max_depth, n).contains(
                text::repeated("  "@, (parts.len() - 1) as nat) + parts[parts.len() - 1] + "/"@,
            )
        }),
        tree_lines(entries, directory, max_depth, n).len() == entries.take(n as int).filter(
            |e: TreeEntry|
                e.is_dir && e.depth <= max_depth && inner_path(e, directory).len() > 0,
        ).len(),
    decreases n,
{
    let parts = text::split(inner_path(entries[i], directory), '/');
    text::lemma_split_nonempty(inner_path(entries[i], directory), '/');
    let line = text::repeated("  "@, (parts.len() - 1) as nat) + parts[parts.len() - 1] + "/"@;
    let front = tree_lines(entries, directory, max_depth, (n - 1) as nat);
    let all = tree_lines(entries, directory, max_depth, n);
    lemma_tree_len(entries, directory, max_depth, n);
    if i == n - 1 {
        assert(all[all.len() - 1] == line);
    } else {
        law_directories_are_in_the_tree(entries, directory, max_depth, (n - 1) as nat, i);
        let k = choose|k: int| 0 <= k < front.len() && front[k] == line;
        assert(all[k] == line);
    }
}

proof fn lemma_tree_len(
    entries: Seq<TreeEntry>,
    directory: Seq<char>,
    max_depth: nat,
    n: nat,
)
    requires
        n <= entries.len(),
    ensures
        tree_lines(entries, directory, max_depth, n).len() == entries.take(n as int).filter(
            |e: TreeEntry|
                e.is_dir && e.depth <= max_depth && inner_path(e, directory).len() > 0,
        ).len(),
    decreases n,
{
    reveal(Seq::filter);
    let all = entries.take(n as int);
    if n > 0 {
        lemma_tree_len(entries, directory, max_depth, (n - 1) as nat);
        assert(all.drop_last() =~= entries.take(n - 1));
        assert(all.last() == entries[n - 1]);
    } else {
        assert(all =~= Seq::empty());
    }
}

/// Every file within the depth whose path runs through no directory that is left out counts for what
/// its path starts with.
pub proof fn law_files_count_at_the_top(
    entries: Seq<TreeEntry>,
    directory: Seq<char>,
    max_depth: nat,
    n: nat,
)
    requires
        n <= entries.len(),
    ensures
        top_keys(entries, directory, max_depth, n) == entries.take(n as int).filter(
            |e: TreeEntry|
                e.is_file && e.depth <= max_depth && inner_path(e, directory).len() > 0 && forall|
                    i: int,
                |
                    0 <= i < text::split(inner_path(e, directory), '/').len() ==> !ignored_name(
                        #[trigger] text::split(inner_path(e, directory), '/')[i],
                    ),
        ).map_values(|e: TreeEntry| text::split(inner_path(e, directory), '/')[0]),
    decreases n,
{
    reveal(Seq::filter);
    let all = entries.take(n as int);
    let wanted = |e: TreeEntry|
        e.is_file && e.depth <= max_depth && inner_path(e, directory).len() > 0 && forall|i: int|
            0 <= i < text::split(inner_path(e, directory), '/').len() ==> !ignored_name(
                #[trigger] text::split(inner_path(e, directory), '/')[i],
            );
    let top = |e: TreeEntry| text::split(inner_path(e, directory), '/')[0];
    if n > 0 {
        law_files_count_at_the_top(entries, directory, max_depth, (n - 1) as nat);
        assert(all.drop_last() =~= entries.take(n - 1));
        assert(all.last() == entries[n - 1]);
        let front = all.drop_last().filter(wanted);
        assert(front.push(all.last()).map_values(top) =~= front.map_values(top).push(
            top(all.last()),
        ));
        assert(counts_at_top(entries[n - 1], directory, max_depth) == wanted(all.last()));
    } else {
        assert(all =~= Seq::empty());
        assert(all.filter(wanted).map_values(top) =~= Seq::empty());
    }
}

/// The fields of what is answered.
pub open spec fn overview_fields(
    sub_path: Seq<char>,
    max_depth: nat,
    project: Seq<char>,
    directory: Seq<char>,
    entries: Seq<TreeEntry>,
    ranks: Rankings,
) -> Seq<(Seq<char>, JsonValue)> {
    let list = counted(entries, project, entries.len());
    seq![
        ("path"@, JsonValue::String(sub_path)),
        ("total_files"@, json::natural_value(list.len())),
        ("total_size_bytes"@, json::natural_value(size_of(list))),
        (
            "by_extension"@,
            JsonValue::Array(count_values("extension"@, "count"@, ranks.extensions)),
        ),
        (
            "by_language"@,
            JsonValue::Array(count_values("language"@, "count"@, ranks.languages)),
        ),
        (
            "top_directories"@,
            JsonValue::Array(count_values("name"@, "file_count"@, ranks.tops)),
        ),
        ("manifest_files"@, JsonValue::Array(manifest_values(list, project))),
        (
            "directory_tree"@,
            JsonValue::Array(
                json::text_values(tree_lines(entries, directory, max_depth, entries.len())),
            ),
        ),
        ("max_depth"@, json::natural_value(max_depth)),
    ]
}

/// The directory that a call names.
pub open spec fn sub_path_of(call: ToolCall) -> Seq<char> {
    match call.text_argument("path"@) {
        Some(p) => p,
        None => "."@,
    }
}

/// How deep a call looks: 3 unless it says otherwise, at least 1.
pub open spec fn max_depth_of(call: ToolCall) -> nat {
    match call.integer_argument("max_depth"@) {
        Some(n) => if n < 1 {
            1
        } else {
            (n as usize) as nat
        },
        None => 3,
    }
}

/// What comes of a call, given the rankings.
pub open spec fn overview_outcome(
    call: ToolCall,
    target: OverviewTarget,
    ranks: Rankings,
) -> Outcome {
    let sub_path = sub_path_of(call);
    match target {
        OverviewTarget::NotADirectory => Outcome::Answers(
            protocol::failed("Not a directory: "@ + sub_path),
        ),
        OverviewTarget::Tree { project, directory, entries } => if !files::lies_in(
            directory@,
            project@,
        ) {
            Outcome::Answers(protocol::failed(files::outside_message(sub_path)))
        } else {
            Outcome::Answers(
                protocol::succeeded(
                    JsonValue::Object(
                        overview_fields(
                            sub_path,
                            max_depth_of(call),
                            project@,
                            directory@,
                            entries@,
                            ranks,
                        ),
                    ),
                ),
            )
        },
    }
}

/// A name in a list of counts tells its count.
pub proof fn law_counts_name_their_keys(key: Seq<char>, count_key: Seq<char>, p: (Seq<char>, nat))
    requires
        key != count_key,
    ensures
        ({
            let v = JsonValue::Object(count_fields(key, count_key, p));
            &&& v.field(key) == Some(JsonValue::String(p.0))
            &&& v.field(count_key) == Some(json::natural_value(p.1))
        }),
{
    let fields = count_fields(key, count_key, p);
    json::lemma_field(fields, 0);
    json::lemma_field(fields, 1);
}

/// The answer for a directory of the project tells the path, how many files count and how large they
/// are, the rankings, the project descriptions, the tree and how deep it goes: three directories
/// unless the call says otherwise, and at least one. Anything else than a directory of the project
/// fails.
pub proof fn law_overview_answer_tells_the_project(
    call: ToolCall,
    project: String,
    directory: String,
    entries: Vec<TreeEntry>,
    ranks: Rankings,
    max_depth: nat,
)
    requires
        match call.integer_argument("max_depth"@) {
            Some(n) => n <= usize::MAX && if n < 1 {
                max_depth == 1
            } else {
                max_depth == n
            },
            None => max_depth == 3,
        },
    ensures
        files::lies_in(directory@, project@) ==> (overview_outcome(
            call,
            OverviewTarget::Tree { project, directory, entries },
            ranks,
        ) matches Outcome::Answers(r) && r.success && ({
            let list = counted(entries@, project@, entries@.len());
            let v = r.value;
            &&& v.field("path"@) == Some(
                JsonValue::String(
                    match call.text_argument("path"@) {
                        Some(p) => p,
                        None => "."@,
                    },
                ),
            )
            &&& v.field("total_files"@) == Some(json::natural_value(list.len()))
            &&& v.field("total_size_bytes"@) == Some(json::natural_value(size_of(list)))
            &&& v.field("by_extension"@) == Some(
                JsonValue::Array(count_values("extension"@, "count"@, ranks.extensions)),
            )
            &&& v.field("by_language"@) == Some(
                JsonValue::Array(count_values("language"@, "count"@, ranks.languages)),
            )
            &&& v.field("top_directories"@) == Some(
                JsonValue::Array(count_values("name"@, "file_count"@, ranks.tops)),
            )
            &&& v.field("manifest_files"@) == Some(
                JsonValue::Array(manifest_values(list, project@)),
            )
            &&& v.field("directory_tree"@) == Some(
                JsonValue::Array(
                    json::text_values(
                        tree_lines(entries@, directory@, max_depth, entries@.len()),
                    ),
                ),
            )
            &&& v.field("max_depth"@) == Some(json::natural_value(max_depth))
        })),
        !files::lies_in(directory@, project@) ==> (overview_outcome(
            call,
            OverviewTarget::Tree { project, directory, entries },
            ranks,
        ) matches Outcome::Answers(r) && !r.success),
        overview_outcome(
            call,
            OverviewTarget::NotADirectory,
            ranks,
        ) matches Outcome::Answers(r) && !r.success,
{
    assert(max_depth_of(call) == max_depth);
    reveal_strlit("path");
    reveal_strlit("total_files");
    reveal_strlit("total_size_bytes");
    reveal_strlit("by_extension");
    reveal_strlit("by_language");
    reveal_strlit("top_directories");
    reveal_strlit("manifest_files");
    reveal_strlit("directory_tree");
    reveal_strlit("max_depth");
    assert("path"@.len() == 4);
    assert("total_files"@.len() == 11);
    assert("total_size_bytes"@.len() == 16);
    assert("by_extension"@.len() == 12);
    assert("by_language"@.len() == 11);
    assert("top_directories"@.len() == 15);
    assert("manifest_files"@.len() == 14);
    assert("directory_tree"@.len() == 14);
    assert("max_depth"@.len() == 9);
    assert("total_files"@[0] != "by_language"@[0]);
    assert("manifest_files"@[0] != "directory_tree"@[0]);
    let fields = overview_fields(
        sub_path_of(call),
        max_depth,
        project@,
        directory@,
        entries@,
        ranks,
    );
    json::lemma_field(fields, 0);
    json::lemma_field(fields, 1);
    json::lemma_field(fields, 2);
    json::lemma_field(fields, 3);
    json::lemma_field(fields, 4);
    json::lemma_field(fields, 5);
    json::lemma_field(fields, 6);
    json::lemma_field(fields, 7);
    json::lemma_field(fields, 8);
}

/// The sizes of the files add up to a number that fits.
pub open spec fn sizes_fit(target: OverviewTarget) -> bool {
    match target {
        OverviewTarget::NotADirectory => true,
        OverviewTarget::Tree { project, directory, entries } => size_of(
            counted(entries@, project@, entries@.len()),
        ) <= u64::MAX,
    }
}

/// Gives an overview of a project's files.
pub struct GetProjectOverviewTool;

/// What the definition of the tool says.
pub open spec fn overview_definition() -> DefinitionSpec {
    DefinitionSpec {
        name: "get_project_overview"@,
        description: "Generate an overview of the project structure: file counts by language, top-level directories, and key manifest files (Cargo.toml, package.json, go.mod, etc.). Useful for quickly understanding a project's layout and tech stack."@,
        parameters: seq![
            protocol::parameter(
                "path"@,
                ParameterType::Text,
                "Directory to overview (relative to project root, default: \".\")"@,
                false,
            ),
            protocol::parameter(
                "max_depth"@,
                ParameterType::Integer,
                "Maximum directory depth to traverse (default: 3)"@,
                false,
            ),
        ],
    }
}

/// A language as it is shown in a summary, if the item names one and its count.
pub open spec fn language_note(v: JsonValue) -> Option<Seq<char>> {
    match (v.field("language"@), v.field("count"@)) {
        (Some(l), Some(c)) => match (l.as_text(), c.as_natural()) {
            (Some(name), Some(n)) => Some(name + "("@ + text::decimal(n as nat) + ")"@),
            _ => None,
        },
        _ => None,
    }
}

/// The first `n` items as they are shown in a summary.
pub open spec fn language_notes(items: Seq<JsonValue>, n: nat) -> Seq<Seq<char>>
    decreases n,
{
    if n == 0 {
        Seq::empty()
    } else {
        let front = language_notes(items, (n - 1) as nat);
        match language_note(items[n - 1]) {
            Some(note) => front.push(note),
            None => front,
        }
    }
}

/// A summary of an answer.
pub open spec fn overview_summary(success: bool, value: JsonValue) -> Seq<char> {
    let notes = match value.field("by_language"@) {
        Some(v) => match v.items() {
            Some(items) => text::join(
                language_notes(
                    items,
                    if items.len() < 3 {
                        items.len()
                    } else {
                        3
                    },
                ),
                ", "@,
            ),
            None => Seq::empty(),
        },
        None => Seq::empty(),
    };
    if !success {
        "Error: "@ + json::json_text(value)
    } else {
        "Project: "@ + text::decimal(json::natural_of(value, "total_files"@) as nat)
            + " files (top languages: "@ + notes + ")"@
    }
}

/// A language is noted with its count, and what names no language or no count is left out.
pub proof fn law_languages_are_noted_with_their_counts(
    item: JsonValue,
    name: Seq<char>,
    n: u64,
)
    ensures
        item.field("language"@) == Some(JsonValue::String(name)) && item.field("count"@) == Some(
            json::natural_value(n as nat),
        ) ==> language_note(item) == Some(name + "("@ + text::decimal(n as nat) + ")"@),
        item.field("language"@) is None || item.field("count"@) is None ==> language_note(
            item,
        ) is None,
        language_note(item) is Some ==> language_notes(seq![item], 1) == seq![
            language_note(item)->0,
        ],
{
    reveal_with_fuel(language_notes, 2);
    if language_note(item) is Some {
        assert(language_notes(seq![item], 1) =~= seq![language_note(item)->0]);
    }
}

/// A summary tells how many files the project has, and the first three of its languages; one of a
/// failure tells the failure.
pub proof fn law_overview_summary_counts_the_files(
    value: JsonValue,
    n: u64,
    items: Seq<JsonValue>,
)
    requires
        value.field("total_files"@) == Some(json::natural_value(n as nat)),
        value.field("by_language"@) == Some(JsonValue::Array(items)),
    ensures
        overview_summary(true, value) == "Project: "@ + text::decimal(n as nat)
            + " files (top languages: "@ + text::join(
            language_notes(
                items,
                if items.len() < 3 {
                    items.len()
                } else {
                    3
                },
            ),
            ", "@,
        ) + ")"@,
        overview_summary(false, value) == "Error: "@ + json::json_text(value),
{
}

impl BuiltinTool for GetProjectOverviewTool {
    open spec fn defined(&self) -> DefinitionSpec {
        overview_definition()
    }

    fn definition(&self) -> (r: ToolDefinition) {
        let r = ToolDefinition::new("get_project_overview").description(
            "Generate an overview of the project structure: file counts by language, top-level directories, and key manifest files (Cargo.toml, package.json, go.mod, etc.). Useful for quickly understanding a project's layout and tech stack.",
        ).parameter(
            ToolParameter::string("path").description(
                "Directory to overview (relative to project root, default: \".\")",
            ),
        ).parameter(
            ToolParameter::integer("max_depth").description(
                "Maximum directory depth to traverse (default: 3)",
            ),
        );
        assert(r.spec().parameters =~= overview_definition().parameters);
        r
    }

    open spec fn cacheable(&self) -> bool {
        true
    }

    fn is_cacheable(&self) -> (r: bool) {
        true
    }

    open spec fn key_of(&self, call: ToolCall) -> Seq<char> {
        tool::call_key(call)
    }

    fn cache_key(&self, call: &ToolCall) -> (r: String) {
        tool::cache_key(call)
    }

    open spec fn objection(&self, call: ToolCall) -> Option<ErrorSpec> {
        protocol::parameter_objection(self.defined(), call)
    }

    fn validate_arguments(&self, call: &ToolCall) -> (r: AgentResult<()>) {
        let definition = self.definition();
        protocol::validate_arguments(&definition, call)
    }
}

impl GetProjectOverviewTool {
    /// Answers a call, given what lies below the directory that it names.
    pub fn execute(&self, call: &ToolCall, target: &OverviewTarget) -> (r: AgentResult<ToolResult>)
        requires
            sizes_fit(*target),
        ensures
            exists|ranks: Rankings|
                are_rankings(ranks, *target, max_depth_of(*call)) && protocol::is_outcome(
                    r,
                    #[trigger] overview_outcome(*call, *target, ranks),
                ),
    {
        let sub_path: &str = match call.get_string("path") {
            Some(p) => p,
            None => ".",
        };
        let max_depth: usize = match call.get_i64("max_depth") {
            Some(n) => if n < 1 {
                1
            } else {
                n as usize
            },
            None => 3,
        };
        let ghost none = Rankings {
            extensions: Seq::empty(),
            languages: Seq::empty(),
            tops: Seq::empty(),
        };
        match target {
            OverviewTarget::NotADirectory => {
                let mut m = "Not a directory: ".to_owned();
                m.append(sub_path);
                let r: AgentResult<ToolResult> = Ok(ToolResult::error(m.as_str()));
                assert(protocol::is_outcome(r, overview_outcome(*call, *target, none)));
                r
            },
            OverviewTarget::Tree { project, directory, entries } => {
                if !files::is_within(directory.as_str(), project.as_str()) {
                    let mut m = "Path '".to_owned();
                    m.append(sub_path);
                    m.append("' is outside the project directory");
                    let r: AgentResult<ToolResult> = Ok(ToolResult::error(m.as_str()));
                    assert(protocol::is_outcome(r, overview_outcome(*call, *target, none)));
                    return r;
                }
                let found = count_files(entries, project.as_str());
                let tree = directory_tree(entries, directory.as_str(), max_depth);
                let tops = count_tops(entries, directory.as_str(), max_depth);
                let extensions = found.by_extension.ranked();
                let languages = found.by_language.ranked();
                let top_list = tops.ranked();
                let ghost ranks = Rankings {
                    extensions: tally::pairs(extensions@),
                    languages: tally::pairs(languages@),
                    tops: tally::pairs(top_list@),
                };
                let fields = Fields::new().with("path", Json::text(sub_path)).with(
                    "total_files",
                    Json::natural(found.total_files as u64),
                ).with("total_size_bytes", Json::natural(found.total_size)).with(
                    "by_extension",
                    counts_json(&extensions, "extension", "count"),
                ).with("by_language", counts_json(&languages, "language", "count")).with(
                    "top_directories",
                    counts_json(&top_list, "name", "file_count"),
                ).with("manifest_files", Json::array(found.manifests)).with(
                    "directory_tree",
                    Json::texts(&tree),
                ).with("max_depth", Json::natural(max_depth as u64));
                assert(fields.model() =~= overview_fields(
                    sub_path@,
                    max_depth as nat,
                    project@,
                    directory@,
                    entries@,
                    ranks,
                ));
                let r: AgentResult<ToolResult> = Ok(ToolResult::success(fields.object()));
                assert(are_rankings(ranks, *target, max_depth_of(*call)));
                assert(protocol::is_outcome(r, overview_outcome(*call, *target, ranks)));
                r
            },
        }
    }

    /// Sums an answer up.
    pub fn summarize_result(&self, result: &ToolResult) -> (r: String)
        ensures
            r@ == overview_summary(result.success, result.value.model()),
    {
        if !result.success {
            let mut r = "Error: ".to_owned();
            let m = json::compact(&result.value);
            r.append(m.as_str());
            return r;
        }
        let total: u64 = json::natural_field(&result.value, "total_files");
        let mut r = "Project: ".to_owned();
        let n = text::decimal_text(total);
        r.append(n.as_str());
        r.append(" files (top languages: ");
        let ghost head = r@;
        match result.value.field("by_language") {
            Some(j) => match j.as_array() {
                Some(items) => {
                    let notes = notes_of(items);
                    let joined = text::join_texts(&notes, ", ");
                    r.append(joined.as_str());
                },
                None => {
                    assert(r@ =~= head + Seq::<char>::empty());
                },
            },
            None => {
                assert(r@ =~= head + Seq::<char>::empty());
            },
        }
        r.append(")");
        r
    }
}

fn notes_of(items: &Vec<Json>) -> (v: Vec<String>)
    ensures
        text::views(v@) == language_notes(
            json::models(items@),
            if items@.len() < 3 {
                items@.len()
            } else {
                3
            },
        ),
{
    let ghost all = json::models(items@);
    let n: usize = if items.len() < 3 {
        items.len()
    } else {
        3
    };
    let mut v: Vec<String> = Vec::new();
    let mut i: usize = 0;
    assert(text::views(v@) =~= Seq::empty());
    while i < n
        invariant
            i <= n <= items@.len(),
            all == json::models(items@),
            text::views(v@) == language_notes(all, i as nat),
        decreases n - i,
    {
        let ghost before = text::views(v@);
        assert(all[i as int] == items@[i as int].model());
        match (items[i].field("language"), items[i].field("count")) {
            (Some(l), Some(c)) => match (l.as_str(), c.as_u64()) {
                (Some(name), Some(count)) => {
                    let mut note = name.to_owned();
                    note.append("(");
                    let t = text::decimal_text(count);
                    note.append(t.as_str());
                    note.append(")");
                    v.push(note);
                    assert(text::views(v@) =~= before.push(note@));
                },
                _ => {},
            },
            _ => {},
        }
        i += 1;
    }
    v
}

} // verus!
