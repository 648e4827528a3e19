//! Turning source files into an index.

use vstd::prelude::*;
use vstd::string::*;

use crate::error::{AtlasError, AtlasResult, ErrorKind};
use crate::model::{
    ChunkSpan, CodeChunk, FileStamp, FileState, IndexOptions, IndexResult, IndexState, IndexStats,
    ParseResult, SourceFile,
};
use crate::paths;
use crate::scanner;
use crate::scanner::Scanner;
use crate::text;

verus! {

/// The groups of lines closed so far, and the first line of the group that is open: a blank line
/// ends the open group unless that group is empty.
pub open spec fn cut(blank: Seq<bool>) -> (Seq<(nat, nat)>, nat)
    decreases blank.len(),
{
    if blank.len() == 0 {
        (Seq::empty(), 0)
    } else {
        let (groups, start) = cut(blank.drop_last());
        let i = (blank.len() - 1) as nat;
        if blank.last() && i > start {
            (groups.push((start, i)), i + 1)
        } else {
            (groups, start)
        }
    }
}

/// The groups of lines, each from its first line up to the line after its last.
pub open spec fn groups(blank: Seq<bool>) -> Seq<(nat, nat)> {
    let (closed, start) = cut(blank);
    if start < blank.len() {
        closed.push((start, blank.len()))
    } else {
        closed
    }
}

/// Which lines hold nothing but white space.
pub open spec fn blanks(lines: Seq<Seq<char>>) -> Seq<bool> {
    lines.map_values(|l: Seq<char>| text::trim(l).len() == 0)
}

/// The text of a group of lines.
pub open spec fn group_text(lines: Seq<Seq<char>>, group: (nat, nat)) -> Seq<char> {
    text::join(lines.subrange(group.0 as int, group.1 as int), "\n"@)
}

/// The groups that hold any text.
pub open spec fn with_text(lines: Seq<Seq<char>>, all: Seq<(nat, nat)>) -> Seq<(nat, nat)>
    decreases all.len(),
{
    if all.len() == 0 {
        Seq::empty()
    } else {
        let front = with_text(lines, all.drop_last());
        if group_text(lines, all.last()).len() > 0 {
            front.push(all.last())
        } else {
            front
        }
    }
}

/// The span of a group of lines of a chunk, in the source file.
pub open spec fn group_span(parent: CodeChunk, group: (nat, nat)) -> ChunkSpan {
    let lines = text::lines(parent.source_text@);
    let starts = text::line_starts(parent.source_text@);
    ChunkSpan {
        start_byte: (parent.span.start_byte + starts[group.0 as int]) as usize,
        end_byte: (parent.span.start_byte + starts[group.1 - 1] + text::utf8_len(
            lines[group.1 - 1],
        )) as usize,
        start_line: (parent.span.start_line + group.0) as usize,
        end_line: (parent.span.start_line + group.1 - 1) as usize,
    }
}

/// `c` is the piece of `parent` that holds a group of its lines.
pub open spec fn is_piece(c: CodeChunk, parent: CodeChunk, group: (nat, nat)) -> bool {
    let lines = text::lines(parent.source_text@);
    &&& c.span == group_span(parent, group)
    &&& c.id@ == crate::model::chunk_id(
        parent.file_path@,
        parent.kind,
        paths::opt_view(parent.symbol_name),
        c.span.start_line as nat,
    )
    &&& c.file_path == parent.file_path
    &&& c.language == parent.language
    &&& c.kind == parent.kind
    &&& c.symbol_name == parent.symbol_name
    &&& c.source_text@ == group_text(lines, group)
}

/// The bytes and lines of a chunk can be counted from the start of its file.
pub open spec fn span_fits(chunk: CodeChunk) -> bool {
    &&& chunk.span.start_byte + text::utf8_len(chunk.source_text@) <= usize::MAX
    &&& chunk.span.start_line + text::lines(chunk.source_text@).len() <= usize::MAX
}

/// The chunks that a chunk is split into: one for each group of lines that holds text. A chunk of
/// one line, without a blank line or without any text in its groups stays as it is.
pub open spec fn is_split(pieces: Seq<CodeChunk>, chunk: CodeChunk) -> bool {
    let lines = text::lines(chunk.source_text@);
    let kept = with_text(lines, groups(blanks(lines)));
    if lines.len() <= 1 || !blanks(lines).contains(true) || kept.len() == 0 {
        pieces == seq![chunk]
    } else {
        &&& pieces.len() == kept.len()
        &&& forall|i: int| 0 <= i < kept.len() ==> is_piece(#[trigger] pieces[i], chunk, kept[i])
    }
}

/// Groups are not empty, stand in order, and have a line between them.
pub proof fn law_groups_in_order(blank: Seq<bool>)
    ensures
        ({
            let g = groups(blank);
            &&& forall|i: int| 0 <= i < g.len() ==> (#[trigger] g[i]).0 < g[i].1 <= blank.len()
            &&& forall|i: int, j: int|
                0 <= i < j < g.len() ==> (#[trigger] g[i]).1 < (#[trigger] g[j]).0
        }),
{
    lemma_cut_in_order(blank);
}

proof fn lemma_cut_in_order(blank: Seq<bool>)
    ensures
        ({
            let (g, start) = cut(blank);
            &&& start <= blank.len()
            &&& forall|i: int| 0 <= i < g.len() ==> (#[trigger] g[i]).0 < g[i].1 < start
            &&& forall|i: int, j: int|
                0 <= i < j < g.len() ==> (#[trigger] g[i]).1 < (#[trigger] g[j]).0
        }),
    decreases blank.len(),
{
    if blank.len() > 0 {
        lemma_cut_in_order(blank.drop_last());
    }
}

/// Every line that is not blank stands in a group, and a group holds no blank line but perhaps
/// its first.
pub proof fn law_groups_hold_the_text(blank: Seq<bool>, k: nat)
    requires
        k < blank.len(),
    ensures
        !blank[k as int] ==> exists|i: int|
            0 <= i < groups(blank).len() && (#[trigger] groups(blank)[i]).0 <= k < groups(blank)[i].1,
        forall|i: int|
            0 <= i < groups(blank).len() && (#[trigger] groups(blank)[i]).0 < k < groups(
                blank,
            )[i].1 ==> !blank[k as int],
{
    lemma_cut_holds_the_text(blank, k);
    let (closed, start) = cut(blank);
    let g = groups(blank);
    if start <= k {
        assert(g[closed.len() as int] == (start, blank.len()));
    } else if !blank[k as int] {
        let i = choose|i: int| 0 <= i < closed.len() && (#[trigger] closed[i]).0 <= k < closed[i].1;
        assert(g[i] == closed[i]);
    }
    assert forall|i: int| 0 <= i < g.len() && (#[trigger] g[i]).0 < k < g[i].1 implies !blank[k as int] by {
        if i < closed.len() {
            assert(g[i] == closed[i]);
        }
    }
}

proof fn lemma_cut_holds_the_text(blank: Seq<bool>, k: nat)
    requires
        k < blank.len(),
    ensures
        ({
            let (g, start) = cut(blank);
            &&& !blank[k as int] && k < start ==> exists|i: int|
                0 <= i < g.len() && (#[trigger] g[i]).0 <= k < g[i].1
            &&& forall|i: int|
                0 <= i < g.len() && (#[trigger] g[i]).0 < k < g[i].1 ==> !blank[k as int]
            &&& start < k ==> !blank[k as int]
        }),
    decreases blank.len(),
{
    let front = blank.drop_last();
    let n = (blank.len() - 1) as nat;
    let (g, start) = cut(front);
    let (g2, start2) = cut(blank);
    lemma_cut_in_order(front);
    if k < n {
        lemma_cut_holds_the_text(front, k);
        if !blank[k as int] && k < start2 {
            if k < start {
                let i = choose|i: int| 0 <= i < g.len() && (#[trigger] g[i]).0 <= k < g[i].1;
                assert(g2[i] == g[i]);
            } else {
                assert(g2[g.len() as int] == (start, n));
            }
        }
        assert forall|i: int| 0 <= i < g2.len() && (#[trigger] g2[i]).0 < k < g2[i].1 implies !blank[k as int] by {
            if i < g.len() {
                assert(g2[i] == g[i]);
            }
        }
    } else {
        assert forall|i: int| 0 <= i < g2.len() && (#[trigger] g2[i]).0 < k < g2[i].1 implies !blank[k as int] by {
            if i < g.len() {
                assert(g2[i] == g[i]);
            }
        }
    }
}

proof fn lemma_with_text(lines: Seq<Seq<char>>, all: Seq<(nat, nat)>)
    ensures
        ({
            let kept = with_text(lines, all);
            &&& kept.len() <= all.len()
            &&& forall|i: int| 0 <= i < kept.len() ==> all.contains(#[trigger] kept[i])
            &&& forall|i: int|
                0 <= i < all.len() && group_text(lines, #[trigger] all[i]).len() > 0
                    ==> kept.contains(all[i])
        }),
    decreases all.len(),
{
    if all.len() > 0 {
        let front = with_text(lines, all.drop_last());
        let kept = with_text(lines, all);
        lemma_with_text(lines, all.drop_last());
        assert forall|i: int| 0 <= i < kept.len() implies all.contains(#[trigger] kept[i]) by {
            if i < front.len() {
                assert(all.drop_last().contains(front[i]));
                let j = choose|j: int|
                    0 <= j < all.len() - 1 && all.drop_last()[j] == front[i];
                assert(all[j] == kept[i]);
            } else {
                assert(all[all.len() - 1] == kept[i]);
            }
        }
        assert forall|i: int|
            0 <= i < all.len() && group_text(lines, #[trigger] all[i]).len() > 0 implies kept.contains(all[i]) by {
            if i < all.len() - 1 {
                assert(all.drop_last()[i] == all[i]);
                let j = choose|j: int| 0 <= j < front.len() && front[j] == all[i];
                assert(kept[j] == all[i]);
            } else {
                assert(kept[kept.len() - 1] == all[i]);
            }
        }
    }
}

/// A line holds more than white space.
pub open spec fn has_text(line: Seq<char>) -> bool {
    exists|m: int| 0 <= m < line.len() && !text::is_white_space(#[trigger] line[m])
}

proof fn lemma_blank(lines: Seq<Seq<char>>, k: int)
    requires
        0 <= k < lines.len(),
    ensures
        blanks(lines).len() == lines.len(),
        blanks(lines)[k] == !has_text(lines[k]),
{
    text::law_trim_takes_off_white_space(lines[k]);
}

/// Every piece of a chunk that is split holds some of its lines, as they stand and from the line and
/// the byte that its span names on, and belongs to the same symbol of the same file.
pub proof fn law_pieces_hold_the_lines_they_span(pieces: Seq<CodeChunk>, chunk: CodeChunk, i: int)
    requires
        is_split(pieces, chunk),
        span_fits(chunk),
        pieces != seq![chunk],
        0 <= i < pieces.len(),
    ensures
        pieces[i].file_path == chunk.file_path,
        pieces[i].language == chunk.language,
        pieces[i].kind == chunk.kind,
        pieces[i].symbol_name == chunk.symbol_name,
        ({
            let lines = text::lines(chunk.source_text@);
            let a = pieces[i].span.start_line - chunk.span.start_line;
            let b = pieces[i].span.end_line - chunk.span.start_line;
            &&& 0 <= a <= b < lines.len()
            &&& pieces[i].source_text@ == text::join(lines.subrange(a, b + 1), "\n"@)
            &&& pieces[i].span.start_byte == chunk.span.start_byte + text::utf8_len(
                text::flat(text::raw_lines(chunk.source_text@).take(a)),
            )
            &&& pieces[i].span.end_byte == chunk.span.start_byte + text::utf8_len(
                text::flat(text::raw_lines(chunk.source_text@).take(b)),
            ) + text::utf8_len(lines[b])
        }),
{
    let s = chunk.source_text@;
    let lines = text::lines(s);
    let all = groups(blanks(lines));
    let kept = with_text(lines, all);
    lemma_with_text(lines, all);
    law_groups_in_order(blanks(lines));
    assert(is_piece(pieces[i], chunk, kept[i]));
    assert(all.contains(kept[i]));
    let g = kept[i];
    let raw = text::raw_lines(s);
    text::lemma_line_starts(s);
    text::law_lines_start_behind_those_before(s, g.0 as int);
    text::law_lines_start_behind_those_before(s, g.1 - 1);
    text::lemma_without_terminator_len(raw[g.1 - 1]);
    let starts = text::line_starts(s);
    assert(starts[g.0 as int] + text::utf8_len(raw[g.0 as int]) <= text::utf8_len(s));
    assert(starts[g.1 - 1] + text::utf8_len(raw[g.1 - 1]) <= text::utf8_len(s));
}

proof fn lemma_with_text_in_order(lines: Seq<Seq<char>>, all: Seq<(nat, nat)>)
    requires
        forall|i: int, j: int|
            0 <= i < j < all.len() ==> (#[trigger] all[i]).1 < (#[trigger] all[j]).0,
    ensures
        forall|i: int, j: int|
            0 <= i < j < with_text(lines, all).len() ==> (#[trigger] with_text(lines, all)[i]).1 < (
            #[trigger] with_text(lines, all)[j]).0,
    decreases all.len(),
{
    if all.len() > 0 {
        let front = with_text(lines, all.drop_last());
        let kept = with_text(lines, all);
        lemma_with_text_in_order(lines, all.drop_last());
        lemma_with_text(lines, all.drop_last());
        assert forall|i: int, j: int| 0 <= i < j < kept.len() implies (#[trigger] kept[i]).1 < (
        #[trigger] kept[j]).0 by {
            assert(kept[i] == front[i]);
            if j < front.len() {
                assert(kept[j] == front[j]);
            } else {
                assert(all.drop_last().contains(front[i]));
                let k = choose|k: int| 0 <= k < all.len() - 1 && all.drop_last()[k] == front[i];
                assert(all[k] == front[i]);
                assert(all[all.len() - 1] == kept[j]);
            }
        }
    }
}

/// The pieces of a chunk follow one another through it, with a line left out between two of them,
/// and each has an identifier of its own.
pub proof fn law_pieces_follow_one_another(
    pieces: Seq<CodeChunk>,
    chunk: CodeChunk,
    i: int,
    j: int,
)
    requires
        is_split(pieces, chunk),
        span_fits(chunk),
        0 <= i < j < pieces.len(),
    ensures
        pieces[i].span.end_line + 1 < pieces[j].span.start_line,
        pieces[i].id@ != pieces[j].id@,
{
    let lines = text::lines(chunk.source_text@);
    let all = groups(blanks(lines));
    let kept = with_text(lines, all);
    law_groups_in_order(blanks(lines));
    lemma_with_text(lines, all);
    lemma_with_text_in_order(lines, all);
    assert(is_piece(pieces[i], chunk, kept[i]));
    assert(is_piece(pieces[j], chunk, kept[j]));
    assert(all.contains(kept[i]) && all.contains(kept[j]));
    if pieces[i].id@ == pieces[j].id@ {
        crate::model::law_identifiers_tell_chunks_apart(
            chunk.file_path@,
            chunk.kind,
            paths::opt_view(chunk.symbol_name),
            pieces[i].span.start_line as nat,
            chunk.file_path@,
            chunk.kind,
            paths::opt_view(chunk.symbol_name),
            pieces[j].span.start_line as nat,
        );
    }
}

/// Splitting loses no text: every line of a chunk that holds more than white space stands in one of
/// its pieces.
pub proof fn law_splitting_loses_no_text(pieces: Seq<CodeChunk>, chunk: CodeChunk, k: nat)
    requires
        is_split(pieces, chunk),
        span_fits(chunk),
        pieces != seq![chunk],
        k < text::lines(chunk.source_text@).len(),
        has_text(text::lines(chunk.source_text@)[k as int]),
    ensures
        exists|i: int|
            0 <= i < pieces.len() && (#[trigger] pieces[i]).span.start_line <= chunk.span.start_line
                + k <= pieces[i].span.end_line,
{
    let lines = text::lines(chunk.source_text@);
    let all = groups(blanks(lines));
    let kept = with_text(lines, all);
    let i = lemma_kept_group(lines, k);
    law_pieces_hold_the_lines_they_span(pieces, chunk, i);
    assert(is_piece(pieces[i], chunk, kept[i]));
}

proof fn lemma_kept_group(lines: Seq<Seq<char>>, k: nat) -> (i: int)
    requires
        k < lines.len(),
        has_text(lines[k as int]),
    ensures
        ({
            let all = groups(blanks(lines));
            let kept = with_text(lines, all);
            &&& 0 <= i < kept.len()
            &&& kept[i].0 <= k < kept[i].1 <= lines.len()
            &&& forall|m: int| kept[i].0 < m < kept[i].1 ==> has_text(#[trigger] lines[m])
        }),
{
    let blank = blanks(lines);
    let all = groups(blank);
    let kept = with_text(lines, all);
    lemma_blank(lines, k as int);
    law_groups_in_order(blank);
    law_groups_hold_the_text(blank, k);
    let j = choose|j: int| 0 <= j < all.len() && (#[trigger] all[j]).0 <= k < all[j].1;
    let part = lines.subrange(all[j].0 as int, all[j].1 as int);
    assert(part[k - all[j].0] == lines[k as int]);
    text::lemma_join_nonempty(part, "\n"@, k - all[j].0);
    lemma_with_text(lines, all);
    assert(kept.contains(all[j]));
    let i = choose|i: int| 0 <= i < kept.len() && kept[i] == all[j];
    assert forall|m: int| kept[i].0 < m < kept[i].1 implies has_text(#[trigger] lines[m]) by {
        lemma_blank(lines, m);
        law_groups_hold_the_text(blank, m as nat);
    }
    i
}

/// A chunk with a blank line between two lines of text is cut there.
pub proof fn law_blank_line_splits(
    pieces: Seq<CodeChunk>,
    chunk: CodeChunk,
    a: nat,
    b: nat,
    c: nat,
)
    requires
        is_split(pieces, chunk),
        a < b < c < text::lines(chunk.source_text@).len(),
        has_text(text::lines(chunk.source_text@)[a as int]),
        !has_text(text::lines(chunk.source_text@)[b as int]),
        has_text(text::lines(chunk.source_text@)[c as int]),
    ensures
        pieces.len() >= 2,
{
    let lines = text::lines(chunk.source_text@);
    let i = lemma_kept_group(lines, a);
    let j = lemma_kept_group(lines, c);
    lemma_blank(lines, b as int);
    assert(blanks(lines)[b as int]);
    assert(blanks(lines).contains(true));
    if i == j {
        assert(has_text(lines[b as int]));
    }
}

/// No piece of a chunk with a blank line below a line of text spans as many lines as the chunk.
pub proof fn law_blank_lines_are_left_out(
    pieces: Seq<CodeChunk>,
    chunk: CodeChunk,
    a: nat,
    b: nat,
    i: int,
)
    requires
        is_split(pieces, chunk),
        span_fits(chunk),
        a < b < text::lines(chunk.source_text@).len(),
        has_text(text::lines(chunk.source_text@)[a as int]),
        !has_text(text::lines(chunk.source_text@)[b as int]),
        0 <= i < pieces.len(),
    ensures
        pieces[i].span.end_line - pieces[i].span.start_line + 1 < text::lines(
            chunk.source_text@,
        ).len(),
{
    let lines = text::lines(chunk.source_text@);
    let blank = blanks(lines);
    let all = groups(blank);
    let kept = with_text(lines, all);
    let held = lemma_kept_group(lines, a);
    lemma_blank(lines, b as int);
    assert(blank[b as int]);
    lemma_with_text(lines, all);
    law_groups_in_order(blank);
    law_groups_hold_the_text(blank, b);
    assert(is_piece(pieces[i], chunk, kept[i]));
    let j = choose|j: int| 0 <= j < all.len() && all[j] == kept[i];
    assert(!(all[j].0 < b < all[j].1));
}

/// A chunk is left whole where it is no longer than the threshold or where there is none.
pub proof fn law_small_chunks_stay_whole(out: Seq<CodeChunk>, chunk: CodeChunk, threshold: nat)
    requires
        is_resized_one(out, chunk, threshold),
        threshold == 0 || chunk.source_text@.len() <= threshold,
    ensures
        out == seq![chunk],
{
}

/// A chunk that is longer than the threshold is cut at a blank line between two lines of text.
pub proof fn law_large_chunks_are_split(
    out: Seq<CodeChunk>,
    chunk: CodeChunk,
    threshold: nat,
    a: nat,
    b: nat,
    c: nat,
)
    requires
        is_resized_one(out, chunk, threshold),
        0 < threshold < chunk.source_text@.len(),
        a < b < c < text::lines(chunk.source_text@).len(),
        has_text(text::lines(chunk.source_text@)[a as int]),
        !has_text(text::lines(chunk.source_text@)[b as int]),
        has_text(text::lines(chunk.source_text@)[c as int]),
    ensures
        out.len() >= 2,
{
    law_blank_line_splits(out, chunk, a, b, c);
}

/// Makes the piece of a chunk that holds some of its lines.
fn make_sub_chunk(parent: &CodeChunk, span: ChunkSpan, source_text: String) -> (r: CodeChunk)
    ensures
        r.span == span,
        r.id@ == crate::model::chunk_id(
            parent.file_path@,
            parent.kind,
            paths::opt_view(parent.symbol_name),
            span.start_line as nat,
        ),
        r.file_path == parent.file_path,
        r.language == parent.language,
        r.kind == parent.kind,
        r.symbol_name == parent.symbol_name,
        r.source_text == source_text,
{
    let symbol: Option<&str> = match &parent.symbol_name {
        Some(s) => Some(s.as_str()),
        None => None,
    };
    let id = CodeChunk::generate_id(parent.file_path.as_str(), parent.kind, symbol, span.start_line);
    CodeChunk {
        id,
        file_path: parent.file_path.clone(),
        language: parent.language,
        kind: parent.kind,
        symbol_name: parent.symbol_name.clone(),
        span,
        source_text,
    }
}

/// Joins the lines of a group.
fn group_text_of(lines: &Vec<String>, from: usize, to: usize) -> (r: String)
    requires
        from <= to <= lines@.len(),
    ensures
        r@ == group_text(text::views(lines@), (from as nat, to as nat)),
{
    let mut part: Vec<String> = Vec::new();
    let mut i: usize = from;
    while i < to
        invariant
            from <= i <= to <= lines@.len(),
            text::views(part@) == text::views(lines@).subrange(from as int, i as int),
        decreases to - i,
    {
        let ghost before = text::views(part@);
        part.push(lines[i].clone());
        i += 1;
        assert(text::views(part@) =~= before.push(lines@[i - 1]@));
        assert(text::views(part@) =~= text::views(lines@).subrange(from as int, i as int));
    }
    text::join_texts(&part, "\n")
}

/// Adds the piece for a group of lines, unless the group holds no text.
fn add_group(
    pieces: &mut Vec<CodeChunk>,
    chunk: &CodeChunk,
    lines: &Vec<String>,
    starts: &Vec<usize>,
    from: usize,
    to: usize,
    closed: Ghost<Seq<(nat, nat)>>,
)
    requires
        span_fits(*chunk),
        text::views(lines@) == text::lines(chunk.source_text@),
        text::offsets_of(starts@) == text::line_starts(chunk.source_text@),
        from < to <= lines@.len(),
        pieces_match(old(pieces)@, *chunk, closed@),
    ensures
        pieces_match(final(pieces)@, *chunk, closed@.push((from as nat, to as nat))),
{
    let ghost all = text::lines(chunk.source_text@);
    let ghost next = closed@.push((from as nat, to as nat));
    assert(next.drop_last() =~= closed@);
    let t = group_text_of(lines, from, to);
    if !t.as_str().is_empty() {
        proof {
            text::lemma_line_starts(chunk.source_text@);
            let raw = text::raw_lines(chunk.source_text@);
            text::lemma_without_terminator_len(raw[to - 1]);
            assert(all[to - 1] == text::without_terminator(raw[to - 1]));
            assert(all[to - 1] == lines@[to - 1]@);
            let s = text::line_starts(chunk.source_text@);
            assert(s[to - 1] + text::utf8_len(raw[to - 1]) <= text::utf8_len(chunk.source_text@));
            assert(s[from as int] + text::utf8_len(raw[from as int]) <= text::utf8_len(
                chunk.source_text@,
            ));
            assert(text::offsets_of(starts@)[to - 1] == starts@[to - 1]);
            assert(text::offsets_of(starts@)[from as int] == starts@[from as int]);
        }
        let start_byte: usize = chunk.span.start_byte + starts[from];
        let end_byte: usize = chunk.span.start_byte + starts[to - 1] + text::byte_len(
            lines[to - 1].as_str(),
        );
        let span = ChunkSpan::new(
            start_byte,
            end_byte,
            chunk.span.start_line + from,
            chunk.span.start_line + (to - 1),
        );
        let ghost before = pieces@;
        let piece = make_sub_chunk(chunk, span, t);
        assert(is_piece(piece, *chunk, (from as nat, to as nat)));
        pieces.push(piece);
        assert(forall|i: int| 0 <= i < before.len() ==> pieces@[i] == before[i]);
    }
}

/// The pieces are those of the groups that hold text.
spec fn pieces_match(pieces: Seq<CodeChunk>, chunk: CodeChunk, closed: Seq<(nat, nat)>) -> bool {
    let kept = with_text(text::lines(chunk.source_text@), closed);
    &&& pieces.len() == kept.len()
    &&& forall|i: int| 0 <= i < kept.len() ==> is_piece(#[trigger] pieces[i], chunk, kept[i])
}

/// Splits a chunk at its blank lines. A chunk that has none is kept as it is.
pub fn split_large_chunk(chunk: &CodeChunk) -> (r: Vec<CodeChunk>)
    requires
        span_fits(*chunk),
    ensures
        is_split(r@, *chunk),
{
    let lines = text::lines_of(chunk.source_text.as_str());
    let n: usize = lines.len();
    let ghost all = text::lines(chunk.source_text@);
    let ghost blank = blanks(all);
    if n <= 1 {
        let r = vec![chunk.clone()];
        assert(r@ =~= seq![*chunk]);
        return r;
    }
    let starts = text::line_byte_offsets(chunk.source_text.as_str());
    let mut pieces: Vec<CodeChunk> = Vec::new();
    let mut start: usize = 0;
    let mut has_blank: bool = false;
    let mut i: usize = 0;
    while i < n
        invariant
            i <= n == lines@.len(),
            start <= i,
            all == text::lines(chunk.source_text@),
            all == text::views(lines@),
            text::offsets_of(starts@) == text::line_starts(chunk.source_text@),
            blank == blanks(all),
            span_fits(*chunk),
            start == cut(blank.take(i as int)).1,
            pieces_match(pieces@, *chunk, cut(blank.take(i as int)).0),
            has_blank == blank.take(i as int).contains(true),
        decreases n - i,
    {
        assert(blank.take(i + 1).drop_last() =~= blank.take(i as int));
        assert(all[i as int] == lines@[i as int]@);
        let is_blank = text::is_blank(lines[i].as_str());
        assert(blank[i as int] == is_blank);
        proof {
            let b = blank.take(i + 1);
            if is_blank {
                assert(b[i as int]);
            } else if blank.take(i as int).contains(true) {
                let k = blank.take(i as int).index_of(true);
                assert(b[k]);
            } else if b.contains(true) {
                let k = b.index_of(true);
                assert(blank.take(i as int)[k]);
            }
        }
        if is_blank {
            has_blank = true;
        }
        if is_blank && i > start {
            let ghost closed = cut(blank.take(i as int)).0;
            add_group(&mut pieces, chunk, &lines, &starts, start, i, Ghost(closed));
            start = i + 1;
        }
        i += 1;
    }
    assert(blank.take(n as int) =~= blank);
    if !has_blank {
        let r = vec![chunk.clone()];
        assert(r@ =~= seq![*chunk]);
        return r;
    }
    if start < n {
        let ghost closed = cut(blank).0;
        add_group(&mut pieces, chunk, &lines, &starts, start, n, Ghost(closed));
    }
    if pieces.len() == 0 {
        let r = vec![chunk.clone()];
        assert(r@ =~= seq![*chunk]);
        r
    } else {
        pieces
    }
}

/// Something that parses source files for the index.
pub trait ParseSource: Send + Sync {
    /// Parses one source file.
    fn parse(&self, source_file: SourceFile) -> AtlasResult<ParseResult>;
}

impl ParseSource for crate::parser::ParserService {
    /// Parses a file as [`crate::parser::parse_source`] does.
    fn parse(&self, source_file: SourceFile) -> (r: AtlasResult<ParseResult>)
        ensures
            crate::parser::is_parsed(source_file, r),
    {
        crate::parser::parse_source(source_file)
    }
}

/// A source file that a scan found: its path, its text or why it could not be read, and its stamp
/// where known.
pub struct Discovered {
    pub path: String,
    pub outcome: Result<String, String>,
    pub stamp: Option<FileStamp>,
}

/// A discovered file is parsed unless the earlier state remembers it with the stamp that it has.
pub open spec fn needs_parse(d: Discovered, state: Option<&IndexState>) -> bool {
    match state {
        None => true,
        Some(s) => match (d.outcome, d.stamp) {
            (Ok(_), Some(stamp)) => s.changed(d.path@, stamp),
            _ => true,
        },
    }
}

/// The files that are parsed, in order.
pub open spec fn to_parse(found: Seq<Discovered>, state: Option<&IndexState>) -> Seq<Discovered>
    decreases found.len(),
{
    if found.len() == 0 {
        Seq::empty()
    } else {
        let front = to_parse(found.drop_last(), state);
        if needs_parse(found.last(), state) {
            front.push(found.last())
        } else {
            front
        }
    }
}

/// A discovered file is parsed, in its turn, if there is no earlier state, if it could not be read
/// or has no stamp, if the earlier state knows nothing of its path, or if it remembers another time
/// of change or another size; no other file is.
pub proof fn law_exactly_new_and_changed_files_are_parsed(
    found: Seq<Discovered>,
    state: Option<&IndexState>,
)
    ensures
        to_parse(found, state) == found.filter(
            |d: Discovered|
                state is None || d.outcome is Err || d.stamp is None
                    || !state->0.file_states@.contains_key(d.path@)
                    || state->0.file_states@[d.path@].mtime_secs != d.stamp->0.mtime_secs
                    || state->0.file_states@[d.path@].mtime_nanos != d.stamp->0.mtime_nanos
                    || state->0.file_states@[d.path@].size != d.stamp->0.size,
        ),
    decreases found.len(),
{
    reveal(Seq::filter);
    if found.len() > 0 {
        law_exactly_new_and_changed_files_are_parsed(found.drop_last(), state);
    }
}

/// A file that the earlier state does not know is parsed.
pub proof fn law_unknown_file_is_parsed(found: Seq<Discovered>, state: &IndexState, i: int)
    requires
        0 <= i < found.len(),
        !state.file_states@.contains_key(found[i].path@),
    ensures
        to_parse(found, Some(state)).contains(found[i]),
    decreases found.len(),
{
    let all = to_parse(found, Some(state));
    let front = to_parse(found.drop_last(), Some(state));
    if i == found.len() - 1 {
        assert(all.last() == found[i]);
    } else {
        law_unknown_file_is_parsed(found.drop_last(), state, i);
        let k = choose|k: int| 0 <= k < front.len() && front[k] == found[i];
        assert(all[k] == found[i]);
    }
}

/// A file whose time of change or size is not what the earlier state remembers is parsed.
pub proof fn law_changed_file_is_parsed(
    found: Seq<Discovered>,
    state: &IndexState,
    i: int,
    stamp: FileStamp,
)
    requires
        0 <= i < found.len(),
        found[i].stamp == Some(stamp),
        state.file_states@.contains_key(found[i].path@),
        ({
            let known = state.file_states@[found[i].path@];
            known.mtime_secs != stamp.mtime_secs || known.mtime_nanos != stamp.mtime_nanos
                || known.size != stamp.size
        }),
    ensures
        to_parse(found, Some(state)).contains(found[i]),
    decreases found.len(),
{
    let all = to_parse(found, Some(state));
    let front = to_parse(found.drop_last(), Some(state));
    if i == found.len() - 1 {
        assert(all.last() == found[i]);
    } else {
        law_changed_file_is_parsed(found.drop_last(), state, i, stamp);
        let k = choose|k: int| 0 <= k < front.len() && front[k] == found[i];
        assert(all[k] == found[i]);
    }
}

/// The sources of files, one by one: of a large file only the first lines.
pub open spec fn are_sources(
    sources: Seq<AtlasResult<SourceFile>>,
    files: Seq<Discovered>,
    threshold: nat,
    max_lines: nat,
) -> bool {
    &&& sources.len() == files.len()
    &&& forall|i: int|
        0 <= i < sources.len() ==> scanner::is_read_source(
            #[trigger] sources[i],
            files[i].path@,
            files[i].outcome,
            threshold,
            max_lines,
        )
}

/// A file that could be read comes to a source of its own: its whole text if it is not large, else
/// its first lines as they stand.
pub proof fn law_sources_hold_the_text_that_was_read(
    sources: Seq<AtlasResult<SourceFile>>,
    files: Seq<Discovered>,
    threshold: nat,
    max_lines: nat,
    i: int,
)
    requires
        are_sources(sources, files, threshold, max_lines),
        0 <= i < files.len(),
        files[i].outcome is Ok,
    ensures
        sources[i] is Ok,
        sources[i]->Ok_0.path@ == files[i].path@,
        ({
            let read = files[i].outcome->Ok_0@;
            let got = sources[i]->Ok_0.source_text@;
            &&& got.is_prefix_of(read)
            &&& text::utf8_len(read) <= threshold ==> got == read && !sources[i]->Ok_0.is_large
            &&& text::raw_lines(read).len() <= max_lines ==> got == read
            &&& text::utf8_len(read) > threshold ==> sources[i]->Ok_0.is_large
            &&& text::utf8_len(read) > threshold && text::raw_lines(read).len() > max_lines ==> got
                == text::flat(text::raw_lines(read).take(max_lines as int))
        }),
{
    assert(scanner::is_read_source(
        sources[i],
        files[i].path@,
        files[i].outcome,
        threshold,
        max_lines,
    ));
    text::law_first_lines_begin_the_text(files[i].outcome->Ok_0@, max_lines);
}

/// The sources of the files that have changed since the earlier state.
pub fn select_changed(
    found: Vec<Discovered>,
    options: &IndexOptions,
    state: Option<&IndexState>,
) -> (r: Vec<AtlasResult<SourceFile>>)
    ensures
        are_sources(
            r@,
            to_parse(found@, state),
            options.large_file_threshold as nat,
            options.large_file_max_lines as nat,
        ),
{
    let ghost all = found@;
    let mut r: Vec<AtlasResult<SourceFile>> = Vec::new();
    assert(all.take(0) =~= Seq::empty());
    for d in it: found
        invariant
            it.seq() == all,
            are_sources(
                r@,
                to_parse(all.take(it.index() as int), state),
                options.large_file_threshold as nat,
                options.large_file_max_lines as nat,
            ),
    {
        let ghost i = it.index() as int;
        let ghost before = r@;
        assert(all.take(i + 1).drop_last() =~= all.take(i));
        assert(all.take(i + 1).last() == d);
        let keep = match state {
            None => true,
            Some(s) => match (&d.outcome, d.stamp) {
                (Ok(_), Some(stamp)) => s.has_file_changed(d.path.as_str(), stamp),
                _ => true,
            },
        };
        assert(keep == needs_parse(d, state));
        if keep {
            r.push(
                Scanner::read_source(
                    d.path.as_str(),
                    d.outcome,
                    options.large_file_threshold,
                    options.large_file_max_lines,
                ),
            );
            assert forall|j: int| 0 <= j < r@.len() implies scanner::is_read_source(
                #[trigger] r@[j],
                to_parse(all.take(i + 1), state)[j].path@,
                to_parse(all.take(i + 1), state)[j].outcome,
                options.large_file_threshold as nat,
                options.large_file_max_lines as nat,
            ) by {
                if j < before.len() {
                    assert(r@[j] == before[j]);
                }
            }
        }
    }
    assert(all.take(all.len() as int) =~= all);
    r
}

/// Parses every source that could be read, in order.
pub fn parse_all<P: ParseSource>(parser: &P, sources: Vec<AtlasResult<SourceFile>>) -> (r: Vec<
    AtlasResult<ParseResult>,
>)
    ensures
        parsed(parser, sources@, r@),
{
    let ghost all = sources@;
    let mut r: Vec<AtlasResult<ParseResult>> = Vec::new();
    for source in it: sources
        invariant
            it.seq() == all,
            parsed(parser, all.take(it.index() as int), r@),
    {
        let ghost i = it.index() as int;
        assert(all.take(i + 1)[i] == source);
        let outcome = match source {
            Ok(file) => parser.parse(file),
            Err(e) => Err(e),
        };
        let ghost before = r@;
        r.push(outcome);
        assert forall|j: int| 0 <= j < r@.len() implies parsed_one(
            parser,
            all.take(i + 1)[j],
            #[trigger] r@[j],
        ) by {
            if j < i {
                assert(r@[j] == before[j]);
                assert(all.take(i + 1)[j] == all.take(i)[j]);
            }
        }
    }
    assert(all.take(all.len() as int) =~= all);
    r
}

/// The outcome for one source: that of the parser, or the error that the source came with.
pub open spec fn parsed_one<P: ParseSource>(
    parser: &P,
    source: AtlasResult<SourceFile>,
    outcome: AtlasResult<ParseResult>,
) -> bool {
    match source {
        Ok(file) => call_ensures(P::parse, (parser, file), outcome),
        Err(e) => outcome == Err::<ParseResult, AtlasError>(e),
    }
}

/// The outcomes for sources, one by one.
pub open spec fn parsed<P: ParseSource>(
    parser: &P,
    sources: Seq<AtlasResult<SourceFile>>,
    outcomes: Seq<AtlasResult<ParseResult>>,
) -> bool {
    &&& outcomes.len() == sources.len()
    &&& forall|i: int|
        0 <= i < outcomes.len() ==> parsed_one(parser, sources[i], #[trigger] outcomes[i])
}

/// The files among the outcomes.
pub open spec fn successes(outcomes: Seq<AtlasResult<ParseResult>>) -> Seq<ParseResult>
    decreases outcomes.len(),
{
    if outcomes.len() == 0 {
        Seq::empty()
    } else {
        let front = successes(outcomes.drop_last());
        match outcomes.last() {
            Ok(p) => front.push(p),
            Err(_) => front,
        }
    }
}

/// The errors among the outcomes.
pub open spec fn failures(outcomes: Seq<AtlasResult<ParseResult>>) -> Seq<AtlasError>
    decreases outcomes.len(),
{
    if outcomes.len() == 0 {
        Seq::empty()
    } else {
        let front = failures(outcomes.drop_last());
        match outcomes.last() {
            Ok(_) => front,
            Err(e) => front.push(e),
        }
    }
}

/// Files are taken out of the outcomes in order, and so are errors, and none is left out.
pub proof fn law_outcomes_are_kept_in_order(outcomes: Seq<AtlasResult<ParseResult>>)
    ensures
        successes(outcomes) == outcomes.filter(|o: AtlasResult<ParseResult>| o is Ok).map_values(
            |o: AtlasResult<ParseResult>| o->Ok_0,
        ),
        failures(outcomes) == outcomes.filter(|o: AtlasResult<ParseResult>| o is Err).map_values(
            |o: AtlasResult<ParseResult>| o->Err_0,
        ),
    decreases outcomes.len(),
{
    reveal(Seq::filter);
    let parsed = |o: AtlasResult<ParseResult>| o is Ok;
    let failed = |o: AtlasResult<ParseResult>| o is Err;
    let file = |o: AtlasResult<ParseResult>| o->Ok_0;
    let error = |o: AtlasResult<ParseResult>| o->Err_0;
    if outcomes.len() > 0 {
        let front = outcomes.drop_last();
        let last = outcomes.last();
        law_outcomes_are_kept_in_order(front);
        assert(front.filter(parsed).push(last).map_values(file) =~= front.filter(parsed).map_values(
            file,
        ).push(file(last)));
        assert(front.filter(failed).push(last).map_values(error) =~= front.filter(
            failed,
        ).map_values(error).push(error(last)));
    } else {
        assert(outcomes.filter(parsed).map_values(file) =~= Seq::empty());
        assert(outcomes.filter(failed).map_values(error) =~= Seq::empty());
    }
}

/// An index counts every outcome, holds every error, and holds every file that was parsed with its
/// text and its errors.
pub proof fn law_index_holds_every_outcome(
    index: IndexResult,
    outcomes: Seq<AtlasResult<ParseResult>>,
    threshold: nat,
    i: int,
)
    requires
        is_index_of(Some(index), outcomes, threshold),
        0 <= i < outcomes.len(),
    ensures
        index.stats.total_files == outcomes.len(),
        index.files@.len() + index.errors@.len() == outcomes.len(),
        match outcomes[i] {
            Ok(p) => exists|k: int|
                0 <= k < index.files@.len() && (#[trigger] index.files@[k]).file == p.file
                    && index.files@[k].errors == p.errors,
            Err(e) => index.errors@.contains(e),
        },
{
    law_outcomes_are_split(outcomes);
    lemma_outcome_is_kept(outcomes, i);
    if let Ok(p) = outcomes[i] {
        let k = successes(outcomes).index_of(p);
        assert(index.files@[k].file == p.file);
    }
}

proof fn lemma_outcome_is_kept(outcomes: Seq<AtlasResult<ParseResult>>, i: int)
    requires
        0 <= i < outcomes.len(),
    ensures
        outcomes[i] matches Ok(p) ==> successes(outcomes).contains(p),
        outcomes[i] matches Err(e) ==> failures(outcomes).contains(e),
    decreases outcomes.len(),
{
    let front = outcomes.drop_last();
    let files = successes(front);
    let errors = failures(front);
    if i < front.len() {
        lemma_outcome_is_kept(front, i);
        assert(front[i] == outcomes[i]);
        match outcomes[i] {
            Ok(p) => {
                let k = files.index_of(p);
                assert(successes(outcomes)[k] == p);
            },
            Err(e) => {
                let k = errors.index_of(e);
                assert(failures(outcomes)[k] == e);
            },
        }
    } else {
        match outcomes[i] {
            Ok(p) => {
                assert(successes(outcomes)[files.len() as int] == p);
            },
            Err(e) => {
                assert(failures(outcomes)[errors.len() as int] == e);
            },
        }
    }
}

/// Chunks that are no longer than the threshold stay what they are, and all do if there is none.
pub proof fn law_short_chunks_are_indexed_as_they_are(
    out: Seq<CodeChunk>,
    chunks: Seq<CodeChunk>,
    threshold: nat,
)
    requires
        is_resized(out, chunks, threshold),
        threshold == 0 || forall|i: int|
            0 <= i < chunks.len() ==> (#[trigger] chunks[i]).source_text@.len() <= threshold,
    ensures
        out == chunks,
{
    let parts = choose|parts: Seq<Seq<CodeChunk>>| #[trigger]
        parts_resized(parts, chunks, threshold) && out == concatenated(parts);
    lemma_single_parts(parts, chunks, threshold);
}

proof fn lemma_single_parts(parts: Seq<Seq<CodeChunk>>, chunks: Seq<CodeChunk>, threshold: nat)
    requires
        parts_resized(parts, chunks, threshold),
        threshold == 0 || forall|i: int|
            0 <= i < chunks.len() ==> (#[trigger] chunks[i]).source_text@.len() <= threshold,
    ensures
        concatenated(parts) == chunks,
    decreases parts.len(),
{
    if parts.len() > 0 {
        let front = parts.drop_last();
        let kept = chunks.drop_last();
        assert forall|i: int| 0 <= i < front.len() implies is_resized_one(
            #[trigger] front[i],
            kept[i],
            threshold,
        ) by {
            assert(front[i] == parts[i]);
        }
        assert forall|i: int| threshold > 0 && 0 <= i < kept.len() implies (
        #[trigger] kept[i]).source_text@.len() <= threshold by {
            assert(kept[i] == chunks[i]);
        }
        lemma_single_parts(front, kept, threshold);
        assert(is_resized_one(parts[parts.len() - 1], chunks[parts.len() - 1], threshold));
        assert(concatenated(parts) =~= chunks);
    } else {
        assert(concatenated(parts) =~= chunks);
    }
}

/// What a chunk is split into stands among the chunks of its file.
pub proof fn law_what_a_chunk_becomes_is_indexed(
    out: Seq<CodeChunk>,
    chunks: Seq<CodeChunk>,
    threshold: nat,
    i: int,
)
    requires
        is_resized(out, chunks, threshold),
        0 <= i < chunks.len(),
    ensures
        exists|part: Seq<CodeChunk>| #[trigger]
            is_resized_one(part, chunks[i], threshold) && forall|k: int|
                0 <= k < part.len() ==> out.contains(#[trigger] part[k]),
{
    let parts = choose|parts: Seq<Seq<CodeChunk>>| #[trigger]
        parts_resized(parts, chunks, threshold) && out == concatenated(parts);
    assert(is_resized_one(parts[i], chunks[i], threshold));
    assert forall|k: int| 0 <= k < parts[i].len() implies out.contains(
        #[trigger] parts[i][k],
    ) by {
        lemma_part_is_there(parts, i, k);
    }
}

proof fn lemma_part_is_there(parts: Seq<Seq<CodeChunk>>, i: int, k: int)
    requires
        0 <= i < parts.len(),
        0 <= k < parts[i].len(),
    ensures
        concatenated(parts).contains(parts[i][k]),
    decreases parts.len(),
{
    let front = concatenated(parts.drop_last());
    let all = concatenated(parts);
    if i == parts.len() - 1 {
        assert(all[front.len() + k] == parts[i][k]);
    } else {
        lemma_part_is_there(parts.drop_last(), i, k);
        let at = front.index_of(parts[i][k]);
        assert(all[at] == parts[i][k]);
    }
}

/// Parsed files and failures are all there is: a file counts once.
pub proof fn law_outcomes_are_split(outcomes: Seq<AtlasResult<ParseResult>>)
    ensures
        successes(outcomes).len() + failures(outcomes).len() == outcomes.len(),
    decreases outcomes.len(),
{
    if outcomes.len() > 0 {
        law_outcomes_are_split(outcomes.drop_last());
    }
}

/// A chunk stands for itself, or for its pieces if it has more characters than the threshold.
pub open spec fn is_resized_one(out: Seq<CodeChunk>, chunk: CodeChunk, threshold: nat) -> bool {
    if threshold > 0 && chunk.source_text@.len() > threshold {
        is_split(out, chunk)
    } else {
        out == seq![chunk]
    }
}

/// Lists of chunks, one after the other.
pub open spec fn concatenated(parts: Seq<Seq<CodeChunk>>) -> Seq<CodeChunk>
    decreases parts.len(),
{
    if parts.len() == 0 {
        Seq::empty()
    } else {
        concatenated(parts.drop_last()) + parts.last()
    }
}

/// Each part is what the chunk at its place stands for.
pub open spec fn parts_resized(
    parts: Seq<Seq<CodeChunk>>,
    chunks: Seq<CodeChunk>,
    threshold: nat,
) -> bool {
    &&& parts.len() == chunks.len()
    &&& forall|i: int|
        0 <= i < parts.len() ==> is_resized_one(#[trigger] parts[i], chunks[i], threshold)
}

/// `out` holds, in order, what each of the chunks stands for.
pub open spec fn is_resized(out: Seq<CodeChunk>, chunks: Seq<CodeChunk>, threshold: nat) -> bool {
    exists|parts: Seq<Seq<CodeChunk>>| #[trigger]
        parts_resized(parts, chunks, threshold) && out == concatenated(parts)
}

/// Every chunk that is split can be counted from the start of its file.
pub open spec fn spans_fit(chunks: Seq<CodeChunk>, threshold: nat) -> bool {
    forall|i: int|
        0 <= i < chunks.len() && threshold > 0 && (#[trigger] chunks[i]).source_text@.len()
            > threshold ==> span_fits(chunks[i])
}

/// Whether the bytes and lines of a chunk can be counted from the start of its file.
fn check_span(chunk: &CodeChunk) -> (r: bool)
    ensures
        r == span_fits(*chunk),
{
    let bytes: usize = text::byte_len(chunk.source_text.as_str());
    let lines: usize = text::line_count(chunk.source_text.as_str());
    bytes <= usize::MAX - chunk.span.start_byte && lines <= usize::MAX - chunk.span.start_line
}

/// Splits the chunks that are larger than a threshold; none if the threshold is 0. `None` if the
/// span of a chunk that has to be split reaches beyond what can be counted.
pub fn resize_chunks(chunks: Vec<CodeChunk>, threshold: usize) -> (r: Option<Vec<CodeChunk>>)
    ensures
        match r {
            Some(out) => spans_fit(chunks@, threshold as nat) && is_resized(
                out@,
                chunks@,
                threshold as nat,
            ),
            None => !spans_fit(chunks@, threshold as nat),
        },
{
    let ghost all = chunks@;
    let ghost mut parts: Seq<Seq<CodeChunk>> = Seq::empty();
    let mut out: Vec<CodeChunk> = Vec::new();
    for chunk in it: chunks
        invariant
            it.seq() == all,
            spans_fit(all.take(it.index() as int), threshold as nat),
            parts_resized(parts, all.take(it.index() as int), threshold as nat),
            out@ == concatenated(parts),
    {
        let ghost i = it.index() as int;
        let ghost before = out@;
        assert(all.take(i + 1).drop_last() =~= all.take(i));
        assert(all[i] == chunk);
        if threshold > 0 && text::chars_of(chunk.source_text.as_str()).len() > threshold {
            if !check_span(&chunk) {
                return None;
            }
            let mut pieces = split_large_chunk(&chunk);
            let ghost found = pieces@;
            out.append(&mut pieces);
            assert(out@.skip(before.len() as int) =~= found);
        } else {
            out.push(chunk);
            assert(out@.skip(before.len() as int) =~= seq![chunk]);
        }
        proof {
            let part = out@.skip(before.len() as int);
            assert(is_resized_one(part, chunk, threshold as nat));
            let more = parts.push(part);
            assert(more.drop_last() =~= parts);
            assert(out@ =~= before + part);
            assert forall|j: int| 0 <= j < more.len() implies is_resized_one(
                #[trigger] more[j],
                all.take(i + 1)[j],
                threshold as nat,
            ) by {
                if j < i {
                    assert(more[j] == parts[j]);
                    assert(all.take(i + 1)[j] == all.take(i)[j]);
                }
            }
            parts = more;
            assert forall|j: int|
                0 <= j < i + 1 && threshold > 0 && (#[trigger] all.take(i + 1)[j]).source_text@.len()
                    > threshold implies span_fits(all.take(i + 1)[j]) by {
                if j < i {
                    assert(all.take(i)[j] == all.take(i + 1)[j]);
                }
            }
        }
    }
    assert(all.take(all.len() as int) =~= all);
    Some(out)
}

/// Each file is one of `before` with its chunks resized.
pub open spec fn files_resized(
    after: Seq<ParseResult>,
    before: Seq<ParseResult>,
    threshold: nat,
) -> bool {
    &&& after.len() == before.len()
    &&& forall|i: int|
        0 <= i < after.len() ==> {
            &&& (#[trigger] after[i]).file == before[i].file
            &&& after[i].errors == before[i].errors
            &&& is_resized(after[i].chunks@, before[i].chunks@, threshold)
        }
}

/// The counts of an index fit the machine.
pub open spec fn countable(files: Seq<ParseResult>, errors: Seq<AtlasError>) -> bool {
    &&& files.len() + errors.len() <= usize::MAX
    &&& crate::model::all_chunks(files).len() <= usize::MAX
    &&& errors.len() + crate::model::error_total(files) <= usize::MAX
    &&& crate::model::byte_total(files) <= usize::MAX
}

/// Whether the counts of an index fit the machine.
pub fn check_countable(files: &Vec<ParseResult>, errors: &Vec<AtlasError>) -> (r: bool)
    ensures
        r == countable(files@, errors@),
{
    let mut chunk_count: usize = 0;
    let mut error_count: usize = errors.len();
    let mut bytes: usize = 0;
    if errors.len() > usize::MAX - files.len() {
        return false;
    }
    let mut i: usize = 0;
    assert(files@.take(0) =~= Seq::empty());
    while i < files.len()
        invariant
            i <= files@.len(),
            files@.len() + errors@.len() <= usize::MAX,
            chunk_count == crate::model::all_chunks(files@.take(i as int)).len(),
            error_count == errors@.len() + crate::model::error_total(files@.take(i as int)),
            bytes == crate::model::byte_total(files@.take(i as int)),
        decreases files@.len() - i,
    {
        let f = &files[i];
        proof {
            assert(files@.take(i + 1).drop_last() =~= files@.take(i as int));
            crate::model::lemma_totals_of_prefix(files@, i + 1);
        }
        let b: usize = text::byte_len(f.file.source_text.as_str());
        if f.chunks.len() > usize::MAX - chunk_count || f.errors.len() > usize::MAX - error_count
            || b > usize::MAX - bytes {
            return false;
        }
        chunk_count = chunk_count + f.chunks.len();
        error_count = error_count + f.errors.len();
        bytes = bytes + b;
        i += 1;
    }
    assert(files@.take(files@.len() as int) =~= files@);
    true
}

/// What indexing comes to: the outcomes of parsing the sources, split and counted, or nothing where
/// a span or a count is beyond what the machine can count.
pub open spec fn is_index_of(
    r: Option<IndexResult>,
    outcomes: Seq<AtlasResult<ParseResult>>,
    threshold: nat,
) -> bool {
    match r {
        Some(index) => {
            &&& files_resized(index.files@, successes(outcomes), threshold)
            &&& index.errors@ == failures(outcomes)
            &&& index.stats.describes(index.files@, index.errors@)
            &&& index.stats.elapsed_ms == 0
            &&& index.stats.embedded_chunks == 0
            &&& index.stats.embedding_errors == 0
            &&& index.stats.embedding_dimension == 0
        },
        None => {
            ||| exists|i: int|
                0 <= i < successes(outcomes).len() && !spans_fit(
                    (#[trigger] successes(outcomes)[i]).chunks@,
                    threshold,
                )
            ||| exists|files: Seq<ParseResult>| #[trigger]
                files_resized(files, successes(outcomes), threshold) && !countable(
                    files,
                    failures(outcomes),
                )
        },
    }
}

/// Puts the outcomes of parsing together: the files with their large chunks split, the errors, and
/// the statistics. `None` if a span or a count is beyond what the machine can count.
pub fn assemble(outcomes: Vec<AtlasResult<ParseResult>>, threshold: usize) -> (r: Option<
    IndexResult,
>)
    ensures
        is_index_of(r, outcomes@, threshold as nat),
{
    let ghost all = outcomes@;
    let ghost good = successes(all);
    let mut files: Vec<ParseResult> = Vec::new();
    let mut errors: Vec<AtlasError> = Vec::new();
    assert(all.take(0) =~= Seq::empty());
    for outcome in it: outcomes
        invariant
            it.seq() == all,
            good == successes(all),
            files_resized(files@, successes(all.take(it.index() as int)), threshold as nat),
            errors@ == failures(all.take(it.index() as int)),
    {
        let ghost i = it.index() as int;
        let ghost done = successes(all.take(i));
        let ghost before = files@;
        assert(all.take(i + 1).drop_last() =~= all.take(i));
        assert(all.take(i + 1).last() == outcome);
        match outcome {
            Err(e) => {
                errors.push(e);
            },
            Ok(p) => {
                let ghost given = p;
                match resize_chunks(p.chunks, threshold) {
                    None => {
                        proof {
                            lemma_successes_prefix(all, i + 1);
                            let k = successes(all.take(i + 1)).len() - 1;
                            assert(successes(all.take(i + 1))[k] == given);
                            assert(successes(all)[k] == given);
                        }
                        return None;
                    },
                    Some(chunks) => {
                        files.push(ParseResult { file: p.file, chunks, errors: p.errors });
                        assert forall|j: int| 0 <= j < files@.len() implies ({
                            &&& (#[trigger] files@[j]).file == done.push(given)[j].file
                            &&& files@[j].errors == done.push(given)[j].errors
                            &&& is_resized(
                                files@[j].chunks@,
                                done.push(given)[j].chunks@,
                                threshold as nat,
                            )
                        }) by {
                            if j < before.len() {
                                assert(files@[j] == before[j]);
                            }
                        }
                    },
                }
            },
        }
    }
    assert(all.take(all.len() as int) =~= all);
    if !check_countable(&files, &errors) {
        return None;
    }
    Some(IndexResult::from_parse_results(files, errors))
}

proof fn lemma_successes_prefix(outcomes: Seq<AtlasResult<ParseResult>>, i: int)
    requires
        0 <= i <= outcomes.len(),
    ensures
        successes(outcomes.take(i)).is_prefix_of(successes(outcomes)),
    decreases outcomes.len(),
{
    if i == outcomes.len() {
        assert(outcomes.take(i) =~= outcomes);
        assert(successes(outcomes).is_prefix_of(successes(outcomes)));
    } else {
        lemma_successes_prefix(outcomes.drop_last(), i);
        assert(outcomes.drop_last().take(i) =~= outcomes.take(i));
        let a = successes(outcomes.take(i));
        let b = successes(outcomes.drop_last());
        let c = successes(outcomes);
        assert(a =~= c.subrange(0, a.len() as int));
    }
}

/// The message for a path under which there is nothing.
pub open spec fn path_missing(path: Seq<char>) -> Seq<char> {
    "Path does not exist: "@ + path
}

/// Indexes what was found under a path: leaves out unchanged files, parses the rest, of large files
/// only the first lines, splits large chunks and counts. A path under which nothing could be looked for (`found` is `None`) is an
/// error; `Ok(None)` means that a span or a count is beyond what the machine can count.
pub fn index_path_with_options<P: ParseSource>(
    path: &str,
    found: Option<Vec<Discovered>>,
    parser: &P,
    options: &IndexOptions,
    state: Option<&IndexState>,
) -> (r: AtlasResult<Option<IndexResult>>)
    ensures
        match found {
            None => r is Err && r->Err_0.is_plain(ErrorKind::InvalidInput, path_missing(path@)),
            Some(all) => r is Ok && exists|
                sources: Seq<AtlasResult<SourceFile>>,
                outcomes: Seq<AtlasResult<ParseResult>>,
            |
                {
                    &&& are_sources(
                        sources,
                        to_parse(all@, state),
                        options.large_file_threshold as nat,
                        options.large_file_max_lines as nat,
                    )
                    &&& #[trigger] parsed(parser, sources, outcomes)
                    &&& is_index_of(r->Ok_0, outcomes, options.chunk_split_threshold as nat)
                },
        },
{
    match found {
        None => {
            let mut m = "Path does not exist: ".to_owned();
            m.append(path);
            Err(AtlasError::invalid_input(m.as_str()))
        },
        Some(all) => {
            let sources = select_changed(all, options, state);
            let ghost selected = sources@;
            let outcomes = parse_all(parser, sources);
            assert(parsed(parser, selected, outcomes@));
            Ok(assemble(outcomes, options.chunk_split_threshold))
        },
    }
}

/// Indexes what was found under a path with the default options.
pub fn index_path<P: ParseSource>(path: &str, found: Option<Vec<Discovered>>, parser: &P) -> (r:
    AtlasResult<Option<IndexResult>>)
    ensures
        match found {
            None => r is Err && r->Err_0.is_plain(ErrorKind::InvalidInput, path_missing(path@)),
            Some(all) => r is Ok && exists|
                sources: Seq<AtlasResult<SourceFile>>,
                outcomes: Seq<AtlasResult<ParseResult>>,
            |
                {
                    &&& are_sources(sources, to_parse(all@, None), 1024 * 1024, 500)
                    &&& #[trigger] parsed(parser, sources, outcomes)
                    &&& is_index_of(r->Ok_0, outcomes, 3000)
                },
        },
{
    index_path_with_options(path, found, parser, &IndexOptions::default(), None)
}

/// The remembered files once the first `n` parsed files are recorded with their stamps.
pub open spec fn recorded(
    states: Map<Seq<char>, FileState>,
    files: Seq<ParseResult>,
    stamps: Seq<Option<FileStamp>>,
    n: nat,
) -> Map<Seq<char>, FileState>
    decreases n,
{
    if n == 0 {
        states
    } else {
        let before = recorded(states, files, stamps, (n - 1) as nat);
        match stamps[n - 1] {
            Some(stamp) => before.insert(
                files[n - 1].file.path@,
                FileState {
                    mtime_secs: stamp.mtime_secs,
                    mtime_nanos: stamp.mtime_nanos,
                    size: stamp.size,
                    chunk_count: files[n - 1].chunks.len(),
                },
            ),
            None => before,
        }
    }
}

/// Remembers the parsed files, each with the stamp that it has now, on top of the earlier state.
pub fn record_files(
    state: Option<IndexState>,
    files: &Vec<ParseResult>,
    stamps: &Vec<Option<FileStamp>>,
) -> (r: IndexState)
    requires
        stamps@.len() == files@.len(),
    ensures
        match state {
            Some(s) => r.version == s.version && r.file_states@ == recorded(
                s.file_states@,
                files@,
                stamps@,
                files@.len(),
            ),
            None => r.version == IndexState::CURRENT_VERSION && r.file_states@ == recorded(
                Map::empty(),
                files@,
                stamps@,
                files@.len(),
            ),
        },
{
    let mut r = match state {
        Some(s) => s,
        None => IndexState::new(),
    };
    let ghost start = r.file_states@;
    let ghost version = r.version;
    let mut i: usize = 0;
    while i < files.len()
        invariant
            i <= files@.len(),
            stamps@.len() == files@.len(),
            r.version == version,
            r.file_states@ == recorded(start, files@, stamps@, i as nat),
        decreases files@.len() - i,
    {
        if let Some(stamp) = stamps[i] {
            r.record_file(files[i].file.path.as_str(), stamp, files[i].chunks.len());
        }
        i += 1;
    }
    r
}

/// Notes in an index what embedding its chunks gave.
pub fn note_embedding(index: &mut IndexResult, embedded: usize, errors: usize, dimension: usize)
    ensures
        final(index).files == old(index).files,
        final(index).errors == old(index).errors,
        final(index).stats == (IndexStats {
            embedded_chunks: embedded,
            embedding_errors: errors,
            embedding_dimension: dimension,
            ..old(index).stats
        }),
{
    index.stats.embedded_chunks = embedded;
    index.stats.embedding_errors = errors;
    index.stats.embedding_dimension = dimension;
}

proof fn lemma_recorded(
    states: Map<Seq<char>, FileState>,
    files: Seq<ParseResult>,
    stamps: Seq<Option<FileStamp>>,
    n: nat,
    i: int,
)
    requires
        0 <= i < n <= files.len(),
        stamps[i] is Some,
        forall|k: int|
            i < k < n && stamps[k] is Some ==> (#[trigger] files[k]).file.path@
                != files[i].file.path@,
    ensures
        recorded(states, files, stamps, n).contains_key(files[i].file.path@),
        recorded(states, files, stamps, n)[files[i].file.path@].stamp() == stamps[i]->0,
    decreases n,
{
    if i < n - 1 {
        lemma_recorded(states, files, stamps, (n - 1) as nat, i);
        assert(stamps[n - 1] is Some ==> files[n - 1].file.path@ != files[i].file.path@);
    }
}

/// A file that was recorded is left out of the next run as long as its stamp is the same. Of files
/// with one path, the last is recorded.
pub proof fn law_recorded_files_are_left_out(
    states: Map<Seq<char>, FileState>,
    files: Seq<ParseResult>,
    stamps: Seq<Option<FileStamp>>,
    state: IndexState,
    i: int,
    again: Discovered,
)
    requires
        state.file_states@ == recorded(states, files, stamps, files.len()),
        0 <= i < files.len(),
        stamps[i] is Some,
        forall|k: int|
            i < k < files.len() && stamps[k] is Some ==> (#[trigger] files[k]).file.path@
                != files[i].file.path@,
        again.stamp == stamps[i],
        again.outcome is Ok,
        again.path@ == files[i].file.path@,
    ensures
        !needs_parse(again, Some(&state)),
{
    lemma_recorded(states, files, stamps, files.len(), i);
}

} // verus!
