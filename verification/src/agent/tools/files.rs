//! Which files a tool may touch, and what came of reading one.

use vstd::prelude::*;
use vstd::string::*;

use crate::agent::protocol::{AgentError, AgentResult};
use crate::paths;
use crate::paths::{Part, PathComponent};
use crate::text;

verus! {

/// What came of reading a file that a call names.
pub enum FileAccess {
    /// The path leads out of the project.
    Outside,
    /// There is no file at the path.
    NotAFile,
    /// The file could not be read, for this reason.
    Unreadable(String),
    /// The file's text.
    Text(String),
}

/// The message for a path that leads out of the project.
pub open spec fn outside_message(path: Seq<char>) -> Seq<char> {
    "Path '"@ + path + "' is outside the project directory"@
}

/// The error for a path that leads out of the project.
pub fn outside_error(path: &str) -> (e: AgentError)
    ensures
        e.is_tool_error("path_check"@, outside_message(path@)),
{
    let mut m = "Path '".to_owned();
    m.append(path);
    m.append("' is outside the project directory");
    AgentError::tool_error("path_check", m.as_str())
}

/// The message for a file that cannot be read.
pub open spec fn unreadable_message(path: Seq<char>, reason: Seq<char>) -> Seq<char> {
    "Failed to read '"@ + path + "': "@ + reason
}

/// Writes the message for a file that cannot be read.
pub fn unreadable_text(path: &str, reason: &str) -> (m: String)
    ensures
        m@ == unreadable_message(path@, reason@),
{
    let mut m = "Failed to read '".to_owned();
    m.append(path);
    m.append("': ");
    m.append(reason);
    m
}

/// The message for a path at which there is no file.
pub open spec fn not_a_file_message(path: Seq<char>) -> Seq<char> {
    "Not a file: "@ + path
}

/// Writes the message for a path at which there is no file.
pub fn not_a_file_text(path: &str) -> (m: String)
    ensures
        m@ == not_a_file_message(path@),
{
    let mut m = "Not a file: ".to_owned();
    m.append(path);
    m
}

/// The path under which a file's new content is written before it takes the file's place.
pub fn temp_path(path: &str) -> (r: String)
    ensures
        r@ == path@ + ".tmp"@,
{
    let mut r = path.to_owned();
    r.append(".tmp");
    r
}

/// A path read from a directory: an absolute path stands for itself.
pub open spec fn joined(base: Seq<char>, path: Seq<char>) -> Seq<char> {
    if path.len() > 0 && path[0] == '/' {
        path
    } else if base.len() > 0 && base.last() != '/' {
        base + "/"@ + path
    } else {
        base + path
    }
}

/// Reads a path from a directory.
pub fn join_path(base: &str, path: &str) -> (r: String)
    ensures
        r@ == joined(base@, path@),
{
    let chars = text::chars_of(path);
    if chars.len() > 0 && chars[0] == '/' {
        return path.to_owned();
    }
    let base_chars = text::chars_of(base);
    let mut r = base.to_owned();
    if base_chars.len() > 0 && base_chars[base_chars.len() - 1] != '/' {
        r.append("/");
    }
    r.append(path);
    r
}

/// What the file system says of the paths of a call: the canonical form of each, where it has one.
pub struct CanonicalPaths {
    /// The project's directory.
    pub project: Option<String>,
    /// The path that the call names.
    pub target: Option<String>,
    /// The directory that holds it.
    pub parent: Option<String>,
}

/// The project's directory as it is compared.
pub open spec fn project_form(project: Seq<char>, found: CanonicalPaths) -> Seq<char> {
    match found.project {
        Some(p) => p@,
        None => project,
    }
}

/// The path as it is compared and used: its canonical form; else its name in the canonical form of
/// its directory; else the path as it stands.
pub open spec fn target_form(target: Seq<char>, found: CanonicalPaths) -> Seq<char> {
    match found.target {
        Some(t) => t@,
        None => match found.parent {
            Some(p) => match paths::file_name(target) {
                Some(name) => joined(p@, name),
                None => target,
            },
            None => target,
        },
    }
}

/// A path lies in a directory: its components start with the directory's.
pub open spec fn lies_in(path: Seq<char>, directory: Seq<char>) -> bool {
    paths::components(directory).is_prefix_of(paths::components(path))
}

fn same_component(a: &PathComponent, b: &PathComponent) -> (r: bool)
    ensures
        r <==> a.part() == b.part(),
{
    match (a, b) {
        (PathComponent::RootDir, PathComponent::RootDir) => true,
        (PathComponent::CurDir, PathComponent::CurDir) => true,
        (PathComponent::ParentDir, PathComponent::ParentDir) => true,
        (PathComponent::Normal(x), PathComponent::Normal(y)) => text::same_text(
            x.as_str(),
            y.as_str(),
        ),
        _ => false,
    }
}

/// Tells whether a path lies in a directory.
pub fn is_within(path: &str, directory: &str) -> (r: bool)
    ensures
        r == lies_in(path@, directory@),
{
    let whole = paths::path_components(path);
    let start = paths::path_components(directory);
    let ghost w: Seq<Part> = paths::parts_of(whole@);
    let ghost s: Seq<Part> = paths::parts_of(start@);
    if start.len() > whole.len() {
        return false;
    }
    let mut i: usize = 0;
    while i < start.len()
        invariant
            i <= start@.len() <= whole@.len(),
            w == paths::parts_of(whole@),
            s == paths::parts_of(start@),
            w == paths::components(path@),
            s == paths::components(directory@),
            forall|k: int| 0 <= k < i ==> s[k] == w[k],
        decreases start@.len() - i,
    {
        assert(s[i as int] == start@[i as int].part());
        assert(w[i as int] == whole@[i as int].part());
        if !same_component(&start[i], &whole[i]) {
            assert(s[i as int] != w.subrange(0, s.len() as int)[i as int]);
            return false;
        }
        i += 1;
    }
    assert(s =~= w.subrange(0, s.len() as int));
    true
}

/// A path as it is shown: what is left of it behind a directory that it lies in, else the path
/// itself, with `/` for every backslash.
pub open spec fn shown_path(path: Seq<char>, directory: Seq<char>) -> Seq<char> {
    text::replaced(
        if lies_in(path, directory) {
            paths::path_of(paths::components(path).skip(paths::components(directory).len() as int))
        } else {
            path
        },
        '\\',
        '/',
    )
}

/// A path below a directory lies in it and is shown by what is left of it; a path that lies
/// elsewhere is shown as it is. Backslashes are shown as `/`.
pub proof fn law_paths_are_shown_from_their_directory(dir: Seq<char>, name: Seq<char>)
    requires
        dir.len() > 0,
        name.len() > 0,
        !name.contains('/'),
        name != "."@,
        name != ".."@,
    ensures
        lies_in(dir + seq!['/'] + name, dir),
        shown_path(dir + seq!['/'] + name, dir) == text::replaced(name, '\\', '/'),
        !name.contains('\\') ==> shown_path(dir + seq!['/'] + name, dir) == name,
        !lies_in(name, dir) && !name.contains('\\') ==> shown_path(name, dir) == name,
        lies_in(dir, dir),
{
    let whole = dir + seq!['/'] + name;
    paths::law_name_is_the_last_component(dir, name);
    let up = paths::components(dir);
    let all = paths::components(whole);
    assert(all =~= up.push(paths::Part::Name(name)));
    assert(up =~= all.subrange(0, up.len() as int));
    assert(up =~= up.subrange(0, up.len() as int));
    let rest = all.skip(up.len() as int);
    assert(rest =~= seq![paths::Part::Name(name)]);
    assert(rest.drop_last() =~= Seq::empty());
    assert(Seq::<char>::empty() + name =~= name);
    assert(paths::path_of(rest.drop_last()) =~= Seq::<char>::empty());
    assert(rest.last() == paths::Part::Name(name));
    assert(paths::path_of(rest) == paths::pushed(Seq::empty(), paths::Part::Name(name)));
    if !name.contains('\\') {
        assert forall|k: int| 0 <= k < name.len() implies name[k] != '\\' by {}
        assert(text::replaced(name, '\\', '/') =~= name);
    }
}

/// Shows a path as it lies in a directory.
pub fn show_path(path: &str, directory: &str) -> (r: String)
    ensures
        r@ == shown_path(path@, directory@),
{
    if is_within(path, directory) {
        let whole = paths::path_components(path);
        let start = paths::path_components(directory);
        let ghost all = paths::parts_of(whole@);
        let skipped: usize = start.len();
        assert(paths::parts_of(start@).len() == skipped);
        let mut rest: Vec<PathComponent> = Vec::new();
        let mut i: usize = skipped;
        assert(all.len() == whole@.len());
        assert(paths::parts_of(rest@) =~= all.subrange(skipped as int, skipped as int));
        while i < whole.len()
            invariant
                skipped <= i <= whole@.len(),
                all == paths::parts_of(whole@),
                paths::parts_of(rest@) == all.subrange(skipped as int, i as int),
            decreases whole@.len() - i,
        {
            let ghost before = paths::parts_of(rest@);
            let c = whole[i].duplicate();
            rest.push(c);
            i += 1;
            assert(paths::parts_of(rest@) =~= before.push(all[i - 1]));
            assert(paths::parts_of(rest@) =~= all.subrange(skipped as int, i as int));
        }
        assert(all.subrange(skipped as int, all.len() as int) =~= all.skip(skipped as int));
        let r = paths::join_components(&rest);
        text::replace_char(r.as_str(), '\\', '/')
    } else {
        text::replace_char(path, '\\', '/')
    }
}

/// Finds the path that a call means, and refuses one that leads out of the project.
pub fn resolve_safe_path(project_path: &str, file_path: &str, found: &CanonicalPaths) -> (r:
    AgentResult<String>)
    ensures
        match r {
            Ok(p) => p@ == target_form(joined(project_path@, file_path@), *found) && lies_in(
                p@,
                project_form(project_path@, *found),
            ),
            Err(e) => e.is_tool_error("path_check"@, outside_message(file_path@)) && !lies_in(
                target_form(joined(project_path@, file_path@), *found),
                project_form(project_path@, *found),
            ),
        },
{
    let target = join_path(project_path, file_path);
    let project = match &found.project {
        Some(p) => p.clone(),
        None => project_path.to_owned(),
    };
    let resolved = match &found.target {
        Some(t) => t.clone(),
        None => match &found.parent {
            Some(p) => match paths::file_name_of(target.as_str()) {
                Some(name) => join_path(p.as_str(), name.as_str()),
                None => target,
            },
            None => target,
        },
    };
    if is_within(resolved.as_str(), project.as_str()) {
        Ok(resolved)
    } else {
        Err(outside_error(file_path))
    }
}

} // verus!
