//! Paths, written with `/` between their components.

use vstd::prelude::*;
use vstd::string::*;

use crate::text;

verus! {

/// One component of a path.
pub enum PathComponent {
    /// The `/` that an absolute path starts with.
    RootDir,
    /// A leading `.`.
    CurDir,
    /// A `..`.
    ParentDir,
    /// Any other name.
    Normal(String),
}

/// What a component stands for.
pub enum Part {
    Root,
    Current,
    Parent,
    Name(Seq<char>),
}

impl PathComponent {
    /// What the component is.
    pub open spec fn part(&self) -> Part {
        match self {
            PathComponent::RootDir => Part::Root,
            PathComponent::CurDir => Part::Current,
            PathComponent::ParentDir => Part::Parent,
            PathComponent::Normal(s) => Part::Name(s@),
        }
    }

    /// A second component with the same meaning.
    pub fn duplicate(&self) -> (c: PathComponent)
        ensures
            c.part() == self.part(),
    {
        match self {
            PathComponent::RootDir => PathComponent::RootDir,
            PathComponent::CurDir => PathComponent::CurDir,
            PathComponent::ParentDir => PathComponent::ParentDir,
            PathComponent::Normal(s) => PathComponent::Normal(s.clone()),
        }
    }
}

/// The parts that a list of components stands for.
pub open spec fn parts_of(v: Seq<PathComponent>) -> Seq<Part> {
    Seq::new(v.len(), |i: int| v[i].part())
}

/// The component for one piece between separators: empty pieces and every `.` but a leading one
/// are left out.
pub open spec fn piece_parts(piece: Seq<char>, leading: bool) -> Seq<Part> {
    if piece.len() == 0 {
        Seq::empty()
    } else if piece == "."@ {
        if leading {
            seq![Part::Current]
        } else {
            Seq::empty()
        }
    } else if piece == ".."@ {
        seq![Part::Parent]
    } else {
        seq![Part::Name(piece)]
    }
}

/// The components of the first `n` pieces.
pub open spec fn pieces_parts(pieces: Seq<Seq<char>>, n: nat) -> Seq<Part>
    decreases n,
{
    if n == 0 {
        Seq::empty()
    } else {
        pieces_parts(pieces, (n - 1) as nat) + piece_parts(pieces[n - 1], n == 1)
    }
}

/// The components of a path.
pub open spec fn components(path: Seq<char>) -> Seq<Part> {
    let pieces = text::split(path, '/');
    let rest = pieces_parts(pieces, pieces.len());
    if path.len() > 0 && path[0] == '/' {
        seq![Part::Root] + rest
    } else {
        rest
    }
}

/// Cuts a path into its components.
pub fn path_components(path: &str) -> (v: Vec<PathComponent>)
    ensures
        parts_of(v@) == components(path@),
{
    let pieces = text::split_text(path, '/');
    let chars = text::chars_of(path);
    let mut v: Vec<PathComponent> = Vec::new();
    let ghost mut head: Seq<Part> = Seq::empty();
    if chars.len() > 0 && chars[0] == '/' {
        v.push(PathComponent::RootDir);
        proof {
            head = seq![Part::Root];
        }
    }
    let ghost all = text::views(pieces@);
    assert(parts_of(v@) =~= head + pieces_parts(all, 0));
    let mut i: usize = 0;
    while i < pieces.len()
        invariant
            i <= pieces@.len(),
            all == text::views(pieces@),
            parts_of(v@) == head + pieces_parts(all, i as nat),
        decreases pieces@.len() - i,
    {
        let piece = &pieces[i];
        let ghost before = parts_of(v@);
        assert(all[i as int] == piece@);
        if text::same_text(piece.as_str(), "") {
            assert(piece@ =~= ""@ <==> piece@.len() == 0) by {
                reveal_strlit("");
            }
        } else if text::same_text(piece.as_str(), ".") {
            if i == 0 {
                v.push(PathComponent::CurDir);
                assert(parts_of(v@) =~= before.push(Part::Current));
            }
        } else if text::same_text(piece.as_str(), "..") {
            v.push(PathComponent::ParentDir);
            assert(parts_of(v@) =~= before.push(Part::Parent));
        } else {
            v.push(PathComponent::Normal(piece.clone()));
            assert(parts_of(v@) =~= before.push(Part::Name(piece@)));
        }
        proof {
            reveal_strlit("");
            if piece@.len() == 0 {
                assert(piece@ =~= ""@);
            }
            assert(parts_of(v@) =~= before + piece_parts(all[i as int], i == 0));
            assert(parts_of(v@) =~= head + pieces_parts(all, (i + 1) as nat));
        }
        i += 1;
    }
    v
}

/// The last component of a path, if it is an ordinary name.
pub open spec fn file_name(path: Seq<char>) -> Option<Seq<char>> {
    let c = components(path);
    if c.len() > 0 {
        match c.last() {
            Part::Name(s) => Some(s),
            _ => None,
        }
    } else {
        None
    }
}

/// The view of an optional text.
pub open spec fn opt_view(o: Option<String>) -> Option<Seq<char>> {
    match o {
        Some(s) => Some(s@),
        None => None,
    }
}

/// Gives the file name of a path.
pub fn file_name_of(path: &str) -> (r: Option<String>)
    ensures
        opt_view(r) == file_name(path@),
{
    let v = path_components(path);
    if v.len() == 0 {
        return None;
    }
    let n: usize = v.len();
    assert(parts_of(v@).last() == v@[n - 1].part());
    match &v[n - 1] {
        PathComponent::Normal(s) => Some(s.clone()),
        _ => None,
    }
}

/// What follows the last dot of a file name that does not start with that dot.
pub open spec fn name_extension(name: Seq<char>) -> Option<Seq<char>>
    decreases name.len(),
{
    extension_before(name, name.len() as int)
}

/// The extension of `name`, given that no dot stands at `end` or later.
pub open spec fn extension_before(name: Seq<char>, end: int) -> Option<Seq<char>>
    decreases end,
{
    if end <= 1 {
        None
    } else if name[end - 1] == '.' {
        Some(name.skip(end))
    } else {
        extension_before(name, end - 1)
    }
}

/// The extension of a path's file name.
pub open spec fn extension(path: Seq<char>) -> Option<Seq<char>> {
    match file_name(path) {
        Some(name) => name_extension(name),
        None => None,
    }
}

/// Gives the extension of a path.
pub fn extension_of(path: &str) -> (r: Option<String>)
    ensures
        opt_view(r) == extension(path@),
{
    let name = match file_name_of(path) {
        Some(name) => name,
        None => {
            return None;
        },
    };
    let chars = text::chars_of(name.as_str());
    let mut end: usize = chars.len();
    while end > 1
        invariant
            end <= chars@.len(),
            chars@ == name@,
            extension_before(name@, end as int) == name_extension(name@),
            file_name(path@) == Some(name@),
        decreases end,
    {
        if chars[end - 1] == '.' {
            assert(name@.skip(end as int) =~= chars@.subrange(end as int, chars@.len() as int));
            return Some(text::text_between(&chars, end, chars.len()));
        }
        end -= 1;
    }
    None
}

/// Folds `.` and `..` into the cleaned components `done`.
pub open spec fn clean_step(done: Seq<Part>, part: Part) -> Seq<Part> {
    match part {
        Part::Current => done,
        Part::Parent => if done.len() > 0 && done.last() is Name {
            done.drop_last()
        } else {
            done.push(part)
        },
        _ => done.push(part),
    }
}

/// The components of a path with `.` left out and each `..` taking the name before it away; a `..`
/// with no name to take away stays.
pub open spec fn cleaned(parts: Seq<Part>) -> Seq<Part>
    decreases parts.len(),
{
    if parts.len() == 0 {
        Seq::empty()
    } else {
        clean_step(cleaned(parts.drop_last()), parts.last())
    }
}

/// What a component adds to a path that holds `done`: a root starts over, and a separator
/// stands before any other unless the path is empty or ends with one.
pub open spec fn pushed(done: Seq<char>, part: Part) -> Seq<char> {
    let name = match part {
        Part::Root => "/"@,
        Part::Current => "."@,
        Part::Parent => ".."@,
        Part::Name(s) => s,
    };
    if part == Part::Root {
        name
    } else if done.len() == 0 || done.last() == '/' {
        done + name
    } else {
        done.push('/') + name
    }
}

/// The path made of components.
pub open spec fn path_of(parts: Seq<Part>) -> Seq<char>
    decreases parts.len(),
{
    if parts.len() == 0 {
        Seq::empty()
    } else {
        pushed(path_of(parts.drop_last()), parts.last())
    }
}

/// Writes a path from its components.
pub fn join_components(v: &Vec<PathComponent>) -> (r: String)
    ensures
        r@ == path_of(parts_of(v@)),
{
    let mut r = String::new();
    let mut open_end: bool = true;
    let mut i: usize = 0;
    assert(r@ =~= path_of(parts_of(v@).take(0)));
    while i < v.len()
        invariant
            i <= v@.len(),
            r@ == path_of(parts_of(v@).take(i as int)),
            open_end == (r@.len() == 0 || r@.last() == '/'),
        decreases v@.len() - i,
    {
        assert(parts_of(v@).take(i + 1).drop_last() =~= parts_of(v@).take(i as int));
        let ghost done = r@;
        let ghost part = v@[i as int].part();
        assert(parts_of(v@).take(i + 1).last() == part);
        match &v[i] {
            PathComponent::RootDir => {
                r = String::new();
                r.append("/");
                assert(r@ =~= "/"@);
            },
            PathComponent::CurDir => {
                if !open_end {
                    text::push_char(&mut r, '/');
                }
                r.append(".");
            },
            PathComponent::ParentDir => {
                if !open_end {
                    text::push_char(&mut r, '/');
                }
                r.append("..");
            },
            PathComponent::Normal(s) => {
                if !open_end {
                    text::push_char(&mut r, '/');
                }
                r.append(s.as_str());
            },
        }
        assert(r@ == pushed(done, part));
        let chars = text::chars_of(r.as_str());
        open_end = chars.len() == 0 || chars[chars.len() - 1] == '/';
        i += 1;
    }
    assert(parts_of(v@).take(v@.len() as int) =~= parts_of(v@));
    r
}

/// Resolves `.` and `..` in a list of components.
pub fn clean_components(v: &Vec<PathComponent>) -> (r: Vec<PathComponent>)
    ensures
        parts_of(r@) == cleaned(parts_of(v@)),
{
    let mut r: Vec<PathComponent> = Vec::new();
    let mut i: usize = 0;
    assert(parts_of(r@) =~= cleaned(parts_of(v@).take(0)));
    while i < v.len()
        invariant
            i <= v@.len(),
            parts_of(r@) == cleaned(parts_of(v@).take(i as int)),
        decreases v@.len() - i,
    {
        assert(parts_of(v@).take(i + 1).drop_last() =~= parts_of(v@).take(i as int));
        let ghost done = parts_of(r@);
        let ghost part = v@[i as int].part();
        assert(parts_of(v@).take(i + 1).last() == part);
        match &v[i] {
            PathComponent::CurDir => {},
            PathComponent::ParentDir => {
                let n: usize = r.len();
                let should_pop = if n > 0 {
                    assert(done.last() == r@[n - 1].part());
                    match &r[n - 1] {
                        PathComponent::Normal(_) => true,
                        _ => false,
                    }
                } else {
                    false
                };
                if should_pop {
                    r.pop();
                    assert(parts_of(r@) =~= done.drop_last());
                } else {
                    r.push(PathComponent::ParentDir);
                    assert(parts_of(r@) =~= done.push(part));
                }
            },
            other => {
                r.push(other.duplicate());
                assert(parts_of(r@) =~= done.push(part));
            },
        }
        i += 1;
    }
    assert(parts_of(v@).take(v@.len() as int) =~= parts_of(v@));
    r
}

/// No `.` is left, and no `..` follows a name.
pub open spec fn is_clean(parts: Seq<Part>) -> bool {
    &&& forall|i: int| 0 <= i < parts.len() ==> parts[i] != Part::Current
    &&& forall|i: int|
        0 < i < parts.len() && #[trigger] parts[i] == Part::Parent ==> parts[i - 1] !is Name
}

/// Cleaning gives clean components.
pub proof fn law_cleaned_is_clean(parts: Seq<Part>)
    ensures
        is_clean(cleaned(parts)),
    decreases parts.len(),
{
    if parts.len() > 0 {
        law_cleaned_is_clean(parts.drop_last());
    }
}

/// Cleaning keeps clean components as they are, so that cleaning twice is cleaning once.
pub proof fn law_clean_keeps_clean(parts: Seq<Part>)
    requires
        is_clean(parts),
    ensures
        cleaned(parts) == parts,
    decreases parts.len(),
{
    if parts.len() > 0 {
        let front = parts.drop_last();
        assert forall|i: int| 0 < i < front.len() && #[trigger] front[i] == Part::Parent implies front[i
            - 1] !is Name by {
            assert(parts[i] == Part::Parent);
        }
        law_clean_keeps_clean(front);
        if parts.last() == Part::Parent && front.len() > 0 {
            assert(parts[parts.len() - 1] == Part::Parent);
            assert(front.last() !is Name);
        }
        assert(cleaned(parts) =~= parts);
    }
}

/// A `.` changes nothing, a name stays, and a `..` takes the name before it away.
pub proof fn law_parent_takes_a_name_away(parts: Seq<Part>, name: Seq<char>)
    ensures
        cleaned(parts.push(Part::Current)) == cleaned(parts),
        cleaned(parts.push(Part::Name(name))) == cleaned(parts).push(Part::Name(name)),
        cleaned(parts.push(Part::Name(name)).push(Part::Parent)) == cleaned(parts),
{
    assert(parts.push(Part::Current).drop_last() =~= parts);
    let with_name = parts.push(Part::Name(name));
    assert(with_name.drop_last() =~= parts);
    assert(with_name.push(Part::Parent).drop_last() =~= with_name);
    let clean = cleaned(parts).push(Part::Name(name));
    assert(cleaned(with_name) == clean);
    assert(clean.last() is Name);
    assert(clean.drop_last() =~= cleaned(parts));
    assert(cleaned(with_name.push(Part::Parent)) == clean_step(clean, Part::Parent));
}

proof fn lemma_extension_before(name: Seq<char>, end: int, dot: int)
    requires
        0 < dot < end <= name.len(),
        name[dot] == '.',
        forall|k: int| dot < k < end ==> #[trigger] name[k] != '.',
    ensures
        extension_before(name, end) == Some(name.skip(dot + 1)),
    decreases end,
{
    if dot < end - 1 {
        assert(name[end - 1] != '.');
        lemma_extension_before(name, end - 1, dot);
    }
}

proof fn lemma_no_extension(name: Seq<char>, end: int)
    requires
        end <= name.len(),
        forall|k: int| 0 < k < end ==> #[trigger] name[k] != '.',
    ensures
        extension_before(name, end) is None,
    decreases end,
{
    if end > 1 {
        assert(name[end - 1] != '.');
        lemma_no_extension(name, end - 1);
    }
}

/// The extension of a name is what stands behind its last dot, as long as something stands before
/// that dot; a name without a dot, or with none but at its start, has no extension.
pub proof fn law_extension_stands_behind_the_last_dot(stem: Seq<char>, ext: Seq<char>)
    requires
        !ext.contains('.'),
    ensures
        stem.len() > 0 ==> name_extension(stem + seq!['.'] + ext) == Some(ext),
        name_extension(ext) is None,
        name_extension(seq!['.'] + ext) is None,
{
    let name = stem + seq!['.'] + ext;
    if stem.len() > 0 {
        assert forall|k: int| stem.len() < k < name.len() implies #[trigger] name[k] != '.' by {
            assert(name[k] == ext[k - stem.len() - 1]);
        }
        lemma_extension_before(name, name.len() as int, stem.len() as int);
        assert(name.skip(stem.len() as int + 1) =~= ext);
    }
    assert forall|k: int| 0 < k < ext.len() implies #[trigger] ext[k] != '.' by {}
    lemma_no_extension(ext, ext.len() as int);
    let hidden = seq!['.'] + ext;
    assert forall|k: int| 0 < k < hidden.len() implies #[trigger] hidden[k] != '.' by {
        assert(hidden[k] == ext[k - 1]);
    }
    lemma_no_extension(hidden, hidden.len() as int);
}

proof fn lemma_split_last(a: Seq<char>, b: Seq<char>)
    requires
        !b.contains('/'),
    ensures
        text::split(a + seq!['/'] + b, '/') == text::split(a, '/').push(b),
    decreases b.len(),
{
    let whole = a + seq!['/'] + b;
    if b.len() == 0 {
        assert(whole.drop_last() =~= a);
        assert(b =~= Seq::empty());
    } else {
        let front = b.drop_last();
        assert forall|k: int| 0 <= k < front.len() implies front[k] != '/' by {
            assert(b[k] == front[k]);
        }
        lemma_split_last(a, front);
        assert(whole.drop_last() =~= a + seq!['/'] + front);
        assert(b[b.len() - 1] != '/');
        let parts = text::split(a, '/').push(front);
        assert(parts.drop_last() =~= text::split(a, '/'));
        assert(front.push(b.last()) =~= b);
    }
}

proof fn lemma_pieces_prefix(a: Seq<Seq<char>>, piece: Seq<char>, n: nat)
    requires
        n <= a.len(),
    ensures
        pieces_parts(a.push(piece), n) == pieces_parts(a, n),
    decreases n,
{
    if n > 0 {
        lemma_pieces_prefix(a, piece, (n - 1) as nat);
    }
}

/// An ordinary name behind a directory and a separator is one component more, and the file name of
/// the path.
pub proof fn law_name_is_the_last_component(dir: Seq<char>, name: Seq<char>)
    requires
        dir.len() > 0,
        name.len() > 0,
        !name.contains('/'),
        name != "."@,
        name != ".."@,
    ensures
        components(dir + seq!['/'] + name) == components(dir).push(Part::Name(name)),
        file_name(dir + seq!['/'] + name) == Some(name),
{
    let whole = dir + seq!['/'] + name;
    lemma_split_last(dir, name);
    text::lemma_split_nonempty(dir, '/');
    let pieces = text::split(dir, '/');
    lemma_pieces_prefix(pieces, name, pieces.len());
    assert(whole[0] == dir[0]);
    let all = pieces.push(name);
    assert(pieces_parts(all, all.len()) == pieces_parts(all, pieces.len()) + seq![Part::Name(name)]);
    assert(components(whole) =~= components(dir).push(Part::Name(name)));
}

} // verus!
