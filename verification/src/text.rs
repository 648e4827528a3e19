//! Text as sequences of characters.

use vstd::prelude::*;
use vstd::string::*;

verus! {

/// The texts that a sequence of strings holds.
pub open spec fn views(v: Seq<String>) -> Seq<Seq<char>> {
    Seq::new(v.len(), |i: int| v[i]@)
}

/// `String::push` adds the character at the end of the string.
#[verifier::external_body]
pub(crate) fn push_char(s: &mut String, c: char)
    ensures
        final(s)@ == old(s)@.push(c),
{
    s.push(c)
}

/// A second list of the same texts.
pub fn copy_texts(v: &Vec<String>) -> (r: Vec<String>)
    ensures
        views(r@) == views(v@),
        r@.len() == v@.len(),
{
    let mut r: Vec<String> = Vec::new();
    let mut i: usize = 0;
    while i < v.len()
        invariant
            i <= v@.len(),
            r@.len() == i,
            views(r@) == views(v@).take(i as int),
        decreases v@.len() - i,
    {
        let ghost before = views(r@);
        r.push(v[i].clone());
        i += 1;
        assert(views(r@) =~= before.push(v@[i - 1]@));
        assert(views(r@) =~= views(v@).take(i as int));
    }
    assert(views(v@).take(v@.len() as int) =~= views(v@));
    r
}

/// Whether two texts hold the same characters.
pub fn same_text(a: &str, b: &str) -> (r: bool)
    ensures
        r == (a@ == b@),
{
    let x = a.as_bytes();
    let y = b.as_bytes();
    proof {
        vstd::utf8::encode_utf8_decode_utf8(a@);
        vstd::utf8::encode_utf8_decode_utf8(b@);
    }
    if x.len() != y.len() {
        return false;
    }
    let mut i: usize = 0;
    while i < x.len()
        invariant
            x@.len() == y@.len(),
            x@ == a.spec_bytes(),
            y@ == b.spec_bytes(),
            i <= x@.len(),
            forall|j: int| 0 <= j < i ==> x@[j] == y@[j],
        decreases x@.len() - i,
    {
        if x[i] != y[i] {
            return false;
        }
        i += 1;
    }
    assert(x@ =~= y@);
    true
}

/// The characters of a text.
pub fn chars_of(s: &str) -> (v: Vec<char>)
    ensures
        v@ == s@,
{
    let mut v: Vec<char> = Vec::new();
    for c in it: s.chars()
        invariant
            it.seq() == s@,
            v@ == s@.take(it.index() as int),
    {
        v.push(c);
    }
    assert(s@.take(s@.len() as int) =~= s@);
    v
}

/// The text that holds the characters of `v` from `from` up to `to`.
pub fn text_between(v: &Vec<char>, from: usize, to: usize) -> (s: String)
    requires
        from <= to <= v@.len(),
    ensures
        s@ == v@.subrange(from as int, to as int),
{
    let mut s = String::new();
    let mut i: usize = from;
    while i < to
        invariant
            from <= i <= to <= v@.len(),
            s@ == v@.subrange(from as int, i as int),
        decreases to - i,
    {
        push_char(&mut s, v[i]);
        i += 1;
        assert(v@.subrange(from as int, i as int) =~= v@.subrange(from as int, i - 1).push(v@[i - 1]));
    }
    s
}

/// The number of bytes that a text takes in UTF-8.
pub fn byte_len(s: &str) -> (n: usize)
    ensures
        n == s.spec_bytes().len(),
{
    s.as_bytes().len()
}

/// The number of bytes of a text in UTF-8.
pub open spec fn utf8_len(s: Seq<char>) -> nat {
    vstd::utf8::encode_utf8(s).len()
}

/// The bytes of two texts put together are the bytes of each put together.
pub proof fn lemma_encode_concat(a: Seq<char>, b: Seq<char>)
    ensures
        vstd::utf8::encode_utf8(a + b) == vstd::utf8::encode_utf8(a) + vstd::utf8::encode_utf8(b),
        utf8_len(a + b) == utf8_len(a) + utf8_len(b),
    decreases a.len(),
{
    if a.len() == 0 {
        assert(a + b =~= b);
        assert(vstd::utf8::encode_utf8(a) + vstd::utf8::encode_utf8(b) =~= vstd::utf8::encode_utf8(
            b,
        ));
    } else {
        lemma_encode_concat(a.drop_first(), b);
        assert((a + b).drop_first() =~= a.drop_first() + b);
        assert(vstd::utf8::encode_utf8(a + b) =~= vstd::utf8::encode_utf8(a)
            + vstd::utf8::encode_utf8(b));
    }
}

/// The number of bytes of a character in UTF-8.
pub open spec fn char_width(c: char) -> nat {
    if (c as u32) < 0x80 {
        1
    } else if (c as u32) < 0x800 {
        2
    } else if (c as u32) < 0x10000 {
        3
    } else {
        4
    }
}

/// A character more adds its bytes.
pub proof fn lemma_utf8_len_push(s: Seq<char>, c: char)
    ensures
        utf8_len(s.push(c)) == utf8_len(s) + char_width(c),
{
    let one = seq![c];
    lemma_encode_concat(s, one);
    assert(s.push(c) =~= s + one);
    assert(one.drop_first() =~= Seq::empty());
    vstd::utf8::char_is_scalar(c);
    reveal_with_fuel(vstd::utf8::encode_utf8, 2);
    assert(vstd::utf8::encode_utf8(one) =~= vstd::utf8::encode_scalar(c as u32));
}

/// A text has at least as many bytes as characters.
pub proof fn lemma_utf8_len_bound(s: Seq<char>)
    ensures
        s.len() <= utf8_len(s),
    decreases s.len(),
{
    if s.len() > 0 {
        lemma_utf8_len_bound(s.drop_last());
        lemma_utf8_len_push(s.drop_last(), s.last());
        assert(s =~= s.drop_last().push(s.last()));
    }
}

/// The number of bytes of a character in UTF-8.
pub fn width_of(c: char) -> (n: usize)
    ensures
        n == char_width(c),
{
    let u: u32 = c as u32;
    if u < 0x80 {
        1
    } else if u < 0x800 {
        2
    } else if u < 0x10000 {
        3
    } else {
        4
    }
}

/// The bytes from `from` up to `to` are whole characters of `s`.
pub open spec fn sliceable(s: Seq<char>, from: int, to: int) -> bool {
    &&& 0 <= from <= to <= utf8_len(s)
    &&& vstd::utf8::is_char_boundary(vstd::utf8::encode_utf8(s), from)
    &&& vstd::utf8::is_char_boundary(vstd::utf8::encode_utf8(s), to)
}

/// The part of a text between two byte offsets, if both stand between characters.
pub fn slice_bytes(s: &str, from: usize, to: usize) -> (r: Option<String>)
    ensures
        match r {
            Some(t) => sliceable(s@, from as int, to as int) && vstd::utf8::encode_utf8(t@)
                == vstd::utf8::encode_utf8(s@).subrange(from as int, to as int),
            None => !sliceable(s@, from as int, to as int),
        },
{
    proof {
        vstd::utf8::encode_utf8_valid_utf8(s@);
    }
    if from > to || to > byte_len(s) || !s.is_char_boundary(from) || !s.is_char_boundary(to) {
        return None;
    }
    let (left, _) = s.split_at(to);
    proof {
        let bytes = s.spec_bytes();
        let prefix = bytes.subrange(0, to as int);
        vstd::utf8::valid_utf8_split(bytes, to as int);
        if from == to {
            vstd::utf8::is_char_boundary_start_end_of_seq(prefix);
        } else {
            vstd::utf8::is_char_boundary_iff_not_is_continuation_byte(bytes, from as int);
            vstd::utf8::is_char_boundary_iff_not_is_continuation_byte(prefix, from as int);
        }
    }
    let (_, middle) = left.split_at(from);
    assert(middle.spec_bytes() =~= s.spec_bytes().subrange(from as int, to as int));
    Some(middle.to_owned())
}

/// The byte offsets at which lines start: 0, and the offset after each line feed.
pub open spec fn line_starts(s: Seq<char>) -> Seq<nat>
    decreases s.len(),
{
    if s.len() == 0 {
        seq![0]
    } else {
        let front = line_starts(s.drop_last());
        if s.last() == '\n' {
            front.push(utf8_len(s))
        } else {
            front
        }
    }
}

/// The offsets of a list, as numbers.
pub open spec fn offsets_of(v: Seq<usize>) -> Seq<nat> {
    Seq::new(v.len(), |i: int| v[i] as nat)
}

/// The byte offsets at which the lines of a text start.
pub fn line_byte_offsets(s: &str) -> (v: Vec<usize>)
    ensures
        offsets_of(v@) == line_starts(s@),
{
    let total: usize = byte_len(s);
    let chars = chars_of(s);
    let mut v: Vec<usize> = Vec::new();
    v.push(0);
    let mut at: usize = 0;
    let mut i: usize = 0;
    assert(offsets_of(v@) =~= line_starts(chars@.take(0)));
    while i < chars.len()
        invariant
            i <= chars@.len(),
            total == utf8_len(chars@),
            at == utf8_len(chars@.take(i as int)),
            offsets_of(v@) == line_starts(chars@.take(i as int)),
        decreases chars@.len() - i,
    {
        let c = chars[i];
        let ghost before = offsets_of(v@);
        proof {
            assert(chars@.take(i + 1) =~= chars@.take(i as int).push(c));
            assert(chars@.take(i + 1).drop_last() =~= chars@.take(i as int));
            lemma_utf8_len_push(chars@.take(i as int), c);
            lemma_encode_concat(chars@.take(i + 1), chars@.skip(i + 1));
            assert(chars@.take(i + 1) + chars@.skip(i + 1) =~= chars@);
        }
        at = at + width_of(c);
        if c == '\n' {
            v.push(at);
            assert(offsets_of(v@) =~= before.push(at as nat));
        }
        i += 1;
    }
    assert(chars@.take(chars@.len() as int) =~= s@);
    v
}

/// Where each line starts and ends: the line after `k` line feeds starts at offset `k`, and the
/// last line reaches the end of the text.
pub proof fn lemma_line_starts(s: Seq<char>)
    ensures
        ({
            let raw = raw_lines(s);
            let starts = line_starts(s);
            &&& (s.len() == 0 || s.last() == '\n') ==> starts.len() == raw.len() + 1
                && starts.last() == utf8_len(s)
            &&& !(s.len() == 0 || s.last() == '\n') ==> starts.len() == raw.len()
            &&& raw.len() > 0 ==> starts[raw.len() - 1] + utf8_len(raw.last()) == utf8_len(s)
            &&& forall|k: int|
                0 <= k < raw.len() ==> #[trigger] starts[k] + utf8_len(raw[k]) <= utf8_len(s)
        }),
    decreases s.len(),
{
    if s.len() == 0 {
        assert(s =~= Seq::empty());
        assert(utf8_len(s) == 0);
    } else {
        let t = s.drop_last();
        let c = s.last();
        lemma_line_starts(t);
        lemma_utf8_len_push(t, c);
        assert(s =~= t.push(c));
        let raw = raw_lines(t);
        let starts = line_starts(t);
        if t.len() > 0 {
            lemma_raw_lines_nonempty(t);
        }
        if t.len() == 0 || t.last() == '\n' {
            lemma_utf8_len_push(Seq::empty(), c);
            assert(Seq::empty().push(c) =~= seq![c]);
            assert(raw_lines(s) =~= raw.push(seq![c]));
            if t.len() == 0 {
                assert(t =~= Seq::empty());
            }
        } else {
            lemma_utf8_len_push(raw.last(), c);
            assert(raw_lines(s) =~= raw.drop_last().push(raw.last().push(c)));
        }
        assert forall|k: int| 0 <= k < raw_lines(s).len() implies #[trigger] line_starts(s)[k]
            + utf8_len(raw_lines(s)[k]) <= utf8_len(s) by {
            if k < raw_lines(s).len() - 1 {
                assert(raw_lines(s)[k] == raw[k]);
                assert(starts[k] + utf8_len(raw[k]) <= utf8_len(t));
            }
        }
    }
}

/// A line starts behind the bytes of all the lines before it.
pub proof fn law_lines_start_behind_those_before(s: Seq<char>, k: int)
    requires
        0 <= k < line_starts(s).len(),
    ensures
        k <= raw_lines(s).len(),
        line_starts(s)[k] == utf8_len(flat(raw_lines(s).take(k))),
    decreases s.len(),
{
    lemma_line_starts(s);
    let raw = raw_lines(s);
    if s.len() == 0 {
        assert(s =~= Seq::empty());
        assert(raw.take(k) =~= Seq::empty());
    } else {
        let t = s.drop_last();
        lemma_line_starts(t);
        if k < line_starts(t).len() {
            law_lines_start_behind_those_before(t, k);
            if t.len() > 0 {
                lemma_raw_lines_nonempty(t);
            }
            assert(raw.take(k) =~= raw_lines(t).take(k));
        } else {
            law_lines_make_the_text(s);
            assert(raw.take(k) =~= raw);
        }
    }
}

/// A line without its terminator is no longer than with it.
pub proof fn lemma_without_terminator_len(line: Seq<char>)
    ensures
        utf8_len(without_terminator(line)) <= utf8_len(line),
{
    if line.len() > 0 && line.last() == '\n' {
        let l = line.drop_last();
        lemma_utf8_len_push(l, line.last());
        assert(line =~= l.push(line.last()));
        if l.len() > 0 && l.last() == '\r' {
            lemma_utf8_len_push(l.drop_last(), l.last());
            assert(l =~= l.drop_last().push(l.last()));
        }
    }
}

/// The character for a digit below ten.
pub open spec fn digit(d: nat) -> char {
    (48 + d) as char
}

/// A number written in decimal.
pub open spec fn decimal(n: nat) -> Seq<char>
    decreases n,
{
    if n < 10 {
        seq![digit(n)]
    } else {
        decimal(n / 10).push(digit(n % 10))
    }
}

/// A number written in decimal is made of digits, and no other number is written so.
pub proof fn law_decimal_is_read_back(a: nat, b: nat)
    ensures
        forall|i: int| 0 <= i < decimal(a).len() ==> '0' <= #[trigger] decimal(a)[i] <= '9',
        decimal(a) == decimal(b) ==> a == b,
    decreases a + b,
{
    lemma_decimal(a);
    lemma_decimal(b);
    if decimal(a) == decimal(b) {
        assert(decimal(a).last() == decimal(b).last());
        if a >= 10 && b >= 10 {
            law_decimal_is_read_back(a / 10, b / 10);
            assert(decimal(a).drop_last() =~= decimal(a / 10));
            assert(decimal(b).drop_last() =~= decimal(b / 10));
        }
    }
}

proof fn lemma_decimal(n: nat)
    ensures
        decimal(n).len() >= 1,
        n >= 10 ==> decimal(n).len() >= 2,
        decimal(n).last() == digit(n % 10),
        forall|i: int| 0 <= i < decimal(n).len() ==> '0' <= #[trigger] decimal(n)[i] <= '9',
    decreases n,
{
    if n >= 10 {
        lemma_decimal(n / 10);
    }
}

/// Two texts that are each cut in two by a separator which the second part does not hold have the
/// same parts if they are the same.
pub proof fn lemma_same_behind_last(a: Seq<char>, b: Seq<char>, x: Seq<char>, y: Seq<char>, c: char)
    requires
        a + seq![c] + b == x + seq![c] + y,
        !b.contains(c),
        !y.contains(c),
    ensures
        a == x,
        b == y,
{
    let s = a + seq![c] + b;
    let t = x + seq![c] + y;
    if b.len() < y.len() {
        let k = t.len() - b.len() - 1;
        assert(s[k] == c);
        assert(t[k] == y[k - x.len() - 1]);
    } else if y.len() < b.len() {
        let k = s.len() - y.len() - 1;
        assert(t[k] == c);
        assert(s[k] == b[k - a.len() - 1]);
    }
    assert(s.take(a.len() as int) =~= a);
    assert(t.take(x.len() as int) =~= x);
    assert(s.skip(a.len() as int + 1) =~= b);
    assert(t.skip(x.len() as int + 1) =~= y);
}

/// The same for a separator which the first part does not hold.
pub proof fn lemma_same_before_first(
    a: Seq<char>,
    b: Seq<char>,
    x: Seq<char>,
    y: Seq<char>,
    c: char,
)
    requires
        a + seq![c] + b == x + seq![c] + y,
        !a.contains(c),
        !x.contains(c),
    ensures
        a == x,
        b == y,
{
    let s = a + seq![c] + b;
    let t = x + seq![c] + y;
    if a.len() < x.len() {
        assert(s[a.len() as int] == c);
        assert(t[a.len() as int] == x[a.len() as int]);
    } else if x.len() < a.len() {
        assert(t[x.len() as int] == c);
        assert(s[x.len() as int] == a[x.len() as int]);
    }
    assert(s.take(a.len() as int) =~= a);
    assert(t.take(x.len() as int) =~= x);
    assert(s.skip(a.len() as int + 1) =~= b);
    assert(t.skip(x.len() as int + 1) =~= y);
}

/// An integer written in decimal.
pub open spec fn decimal_int(n: int) -> Seq<char> {
    if n < 0 {
        seq!['-'] + decimal((-n) as nat)
    } else {
        decimal(n as nat)
    }
}

/// Writes a number in decimal.
pub fn decimal_text(n: u64) -> (s: String)
    ensures
        s@ == decimal(n as nat),
    decreases n,
{
    let d: u8 = (n % 10) as u8;
    let c: char = (48u8 + d) as char;
    if n < 10 {
        let mut s = String::new();
        push_char(&mut s, c);
        assert(s@ =~= seq![digit(n as nat)]);
        s
    } else {
        let mut s = decimal_text(n / 10);
        push_char(&mut s, c);
        s
    }
}

/// A number below zero is written as its opposite behind a sign, any other without one.
pub proof fn law_only_negative_numbers_have_a_sign(n: nat)
    ensures
        n > 0 ==> decimal_int(-n) == seq!['-'] + decimal(n),
        decimal_int(n as int) == decimal(n),
{
}

/// Writes an integer in decimal.
pub fn decimal_int_text(n: i64) -> (s: String)
    ensures
        s@ == decimal_int(n as int),
{
    if n < 0 {
        let magnitude: u64 = if n == i64::MIN {
            9223372036854775808
        } else {
            (-n) as u64
        };
        let mut s = String::new();
        push_char(&mut s, '-');
        let digits = decimal_text(magnitude);
        s.append(digits.as_str());
        assert(s@ =~= seq!['-'] + decimal((-n) as nat));
        s
    } else {
        decimal_text(n as u64)
    }
}

/// The pieces of `s` between occurrences of `sep`: each `sep` ends one piece and starts the next.
pub open spec fn split(s: Seq<char>, sep: char) -> Seq<Seq<char>>
    decreases s.len(),
{
    if s.len() == 0 {
        seq![Seq::<char>::empty()]
    } else {
        let front = split(s.drop_last(), sep);
        if s.last() == sep {
            front.push(Seq::<char>::empty())
        } else {
            front.drop_last().push(front.last().push(s.last()))
        }
    }
}

/// Splitting a text gives at least one part.
pub proof fn lemma_split_nonempty(s: Seq<char>, sep: char)
    ensures
        split(s, sep).len() >= 1,
    decreases s.len(),
{
    if s.len() > 0 {
        lemma_split_nonempty(s.drop_last(), sep);
    }
}

/// Cuts a text at every `sep`.
pub fn split_text(s: &str, sep: char) -> (pieces: Vec<String>)
    ensures
        views(pieces@) == split(s@, sep),
        pieces@.len() >= 1,
{
    let chars = chars_of(s);
    let mut pieces: Vec<String> = Vec::new();
    let mut current = String::new();
    let mut i: usize = 0;
    assert(views(pieces@).push(current@) =~= split(chars@.take(0), sep));
    while i < chars.len()
        invariant
            i <= chars@.len(),
            views(pieces@).push(current@) == split(chars@.take(i as int), sep),
        decreases chars@.len() - i,
    {
        let c = chars[i];
        let ghost before = views(pieces@);
        let ghost piece = current@;
        assert(chars@.take(i + 1).drop_last() =~= chars@.take(i as int));
        assert(before.push(piece).drop_last() =~= before);
        if c == sep {
            pieces.push(current);
            current = String::new();
            assert(views(pieces@) =~= before.push(piece));
        } else {
            push_char(&mut current, c);
        }
        i += 1;
    }
    assert(chars@.take(chars@.len() as int) =~= s@);
    let ghost before = views(pieces@);
    let ghost piece = current@;
    pieces.push(current);
    assert(views(pieces@) =~= before.push(piece));
    pieces
}

/// The texts of `parts`, one after the other, with `sep` between two of them.
pub open spec fn join(parts: Seq<Seq<char>>, sep: Seq<char>) -> Seq<char>
    decreases parts.len(),
{
    if parts.len() == 0 {
        Seq::empty()
    } else if parts.len() == 1 {
        parts[0]
    } else {
        join(parts.drop_last(), sep) + sep + parts.last()
    }
}

/// Joins texts with a separator.
pub fn join_texts(parts: &Vec<String>, sep: &str) -> (s: String)
    ensures
        s@ == join(views(parts@), sep@),
{
    let mut s = String::new();
    let mut i: usize = 0;
    while i < parts.len()
        invariant
            i <= parts@.len(),
            s@ == join(views(parts@).take(i as int), sep@),
        decreases parts@.len() - i,
    {
        assert(views(parts@).take(i + 1).drop_last() =~= views(parts@).take(i as int));
        if i > 0 {
            s.append(sep);
        }
        s.append(parts[i].as_str());
        assert(i == 0 ==> s@ =~= parts@[0]@);
        i += 1;
    }
    assert(views(parts@).take(parts@.len() as int) =~= views(parts@));
    s
}

/// Texts that are put together leave something unless all of them are empty.
pub proof fn lemma_join_nonempty(parts: Seq<Seq<char>>, sep: Seq<char>, i: int)
    requires
        0 <= i < parts.len(),
        parts[i].len() > 0,
    ensures
        join(parts, sep).len() > 0,
    decreases parts.len(),
{
    if parts.len() > 1 && i < parts.len() - 1 {
        lemma_join_nonempty(parts.drop_last(), sep, i);
    }
}

/// Splitting a text and joining the pieces again gives back the text.
pub proof fn law_join_undoes_split(s: Seq<char>, sep: char)
    ensures
        join(split(s, sep), seq![sep]) == s,
    decreases s.len(),
{
    if s.len() > 0 {
        let t = s.drop_last();
        law_join_undoes_split(t, sep);
        lemma_split_nonempty(t, sep);
        let front = split(t, sep);
        assert(s =~= t.push(s.last()));
        if s.last() == sep {
            assert(split(s, sep).drop_last() =~= front);
            assert(join(split(s, sep), seq![sep]) =~= t + seq![sep]);
        } else {
            assert(split(s, sep).drop_last() =~= front.drop_last());
            assert(join(split(s, sep), seq![sep]) =~= join(front, seq![sep]).push(s.last()));
        }
    }
}

/// The pieces of a text hold no separator, so it is cut at every one; there is one piece more than
/// there are separators.
pub proof fn law_pieces_hold_no_separator(s: Seq<char>, sep: char)
    ensures
        forall|i: int, k: int|
            0 <= i < split(s, sep).len() && 0 <= k < split(s, sep)[i].len() ==> #[trigger] split(
                s,
                sep,
            )[i][k] != sep,
        split(s, sep).len() == s.filter(|c: char| c == sep).len() + 1,
    decreases s.len(),
{
    reveal(Seq::filter);
    let is_sep = |c: char| c == sep;
    if s.len() > 0 {
        let t = s.drop_last();
        let front = split(t, sep);
        law_pieces_hold_no_separator(t, sep);
        lemma_split_nonempty(t, sep);
        let all = split(s, sep);
        assert forall|i: int, k: int|
            0 <= i < all.len() && 0 <= k < all[i].len() implies #[trigger] all[i][k] != sep by {
            if i < front.len() - 1 || s.last() == sep && i < front.len() {
                assert(all[i] == front[i]);
                assert(front[i][k] == all[i][k]);
            } else if s.last() != sep && k < front.last().len() {
                assert(front[i][k] == all[i][k]);
            }
        }
        assert(s.filter(is_sep).len() == t.filter(is_sep).len() + if s.last() == sep { 1int } else {
            0
        });
    } else {
        assert(s.filter(is_sep) =~= Seq::empty());
    }
}

/// The lines of `s`, each with the line feed that ends it.
pub open spec fn raw_lines(s: Seq<char>) -> Seq<Seq<char>>
    decreases s.len(),
{
    if s.len() == 0 {
        Seq::empty()
    } else {
        let front = raw_lines(s.drop_last());
        if s.len() == 1 || s[s.len() - 2] == '\n' {
            front.push(seq![s.last()])
        } else {
            front.drop_last().push(front.last().push(s.last()))
        }
    }
}

/// A line without the line feed, or the carriage return and line feed, that ends it.
pub open spec fn without_terminator(line: Seq<char>) -> Seq<char> {
    if line.len() > 0 && line.last() == '\n' {
        let l = line.drop_last();
        if l.len() > 0 && l.last() == '\r' {
            l.drop_last()
        } else {
            l
        }
    } else {
        line
    }
}

/// The lines of `s` without their terminators.
pub open spec fn lines(s: Seq<char>) -> Seq<Seq<char>> {
    raw_lines(s).map_values(|l: Seq<char>| without_terminator(l))
}

/// A text that is not empty has a line.
pub proof fn lemma_raw_lines_nonempty(s: Seq<char>)
    requires
        s.len() > 0,
    ensures
        raw_lines(s).len() >= 1,
    decreases s.len(),
{
    if s.len() > 1 {
        lemma_raw_lines_nonempty(s.drop_last());
    }
}

/// Cuts a text after every line feed.
pub fn raw_lines_of(s: &str) -> (v: Vec<String>)
    ensures
        views(v@) == raw_lines(s@),
{
    let chars = chars_of(s);
    let mut v: Vec<String> = Vec::new();
    let mut current = String::new();
    let mut i: usize = 0;
    while i < chars.len()
        invariant
            i <= chars@.len(),
            i == 0 ==> v@.len() == 0 && current@.len() == 0,
            i > 0 ==> views(v@).push(current@) == raw_lines(chars@.take(i as int)),
        decreases chars@.len() - i,
    {
        let c = chars[i];
        let ghost before = views(v@);
        let ghost piece = current@;
        assert(chars@.take(i + 1).drop_last() =~= chars@.take(i as int));
        assert(before.push(piece).drop_last() =~= before);
        if i > 0 && chars[i - 1] == '\n' {
            v.push(current);
            current = String::new();
            push_char(&mut current, c);
            assert(current@ =~= seq![c]);
            assert(views(v@) =~= before.push(piece));
        } else {
            push_char(&mut current, c);
            assert(i == 0 ==> current@ =~= seq![c]);
            if i == 0 {
                assert(raw_lines(chars@.take(0)) =~= Seq::empty());
                assert(views(v@) =~= Seq::empty());
            }
        }
        i += 1;
    }
    assert(chars@.take(chars@.len() as int) =~= s@);
    if i > 0 {
        let ghost before = views(v@);
        let ghost piece = current@;
        v.push(current);
        assert(views(v@) =~= before.push(piece));
    } else {
        assert(views(v@) =~= raw_lines(s@));
    }
    v
}

/// Takes the terminator off a line.
pub fn strip_terminator(line: &str) -> (r: String)
    ensures
        r@ == without_terminator(line@),
{
    let chars = chars_of(line);
    let n: usize = chars.len();
    if n > 0 && chars[n - 1] == '\n' {
        if n > 1 && chars[n - 2] == '\r' {
            text_between(&chars, 0, n - 2)
        } else {
            text_between(&chars, 0, n - 1)
        }
    } else {
        text_between(&chars, 0, n)
    }
}

/// The lines of a text, without terminators.
pub fn lines_of(s: &str) -> (v: Vec<String>)
    ensures
        views(v@) == lines(s@),
{
    let raw = raw_lines_of(s);
    let mut v: Vec<String> = Vec::new();
    let mut i: usize = 0;
    while i < raw.len()
        invariant
            i <= raw@.len(),
            v@.len() == i,
            forall|j: int| 0 <= j < i ==> (#[trigger] v@[j])@ == without_terminator(raw@[j]@),
        decreases raw@.len() - i,
    {
        v.push(strip_terminator(raw[i].as_str()));
        i += 1;
    }
    proof {
        assert forall|j: int| 0 <= j < v@.len() implies views(v@)[j] == lines(s@)[j] by {
            assert(views(raw@)[j] == raw@[j]@);
        }
        assert(views(v@) =~= lines(s@));
    }
    v
}

/// The number of lines of a text.
pub fn line_count(s: &str) -> (n: usize)
    ensures
        n == lines(s@).len(),
{
    raw_lines_of(s).len()
}

/// The characters with Unicode's `White_Space` property.
pub open spec fn is_white_space(c: char) -> bool {
    ||| '\u{9}' <= c <= '\u{d}'
    ||| c == '\u{20}'
    ||| c == '\u{85}'
    ||| c == '\u{a0}'
    ||| c == '\u{1680}'
    ||| '\u{2000}' <= c <= '\u{200a}'
    ||| c == '\u{2028}'
    ||| c == '\u{2029}'
    ||| c == '\u{202f}'
    ||| c == '\u{205f}'
    ||| c == '\u{3000}'
}

/// Whether a character is white space.
pub fn white_space(c: char) -> (r: bool)
    ensures
        r == is_white_space(c),
{
    ('\u{9}' <= c && c <= '\u{d}') || c == '\u{20}' || c == '\u{85}' || c == '\u{a0}' || c == '\u{1680}' || (
    '\u{2000}' <= c && c <= '\u{200a}') || c == '\u{2028}' || c == '\u{2029}' || c == '\u{202f}' || c
        == '\u{205f}' || c == '\u{3000}'
}

/// `s` without the white space that it starts with.
pub open spec fn trim_start(s: Seq<char>) -> Seq<char>
    decreases s.len(),
{
    if s.len() > 0 && is_white_space(s[0]) {
        trim_start(s.drop_first())
    } else {
        s
    }
}

/// `s` without the white space that it ends with.
pub open spec fn trim_end(s: Seq<char>) -> Seq<char>
    decreases s.len(),
{
    if s.len() > 0 && is_white_space(s.last()) {
        trim_end(s.drop_last())
    } else {
        s
    }
}

/// `s` without the white space on either side.
pub open spec fn trim(s: Seq<char>) -> Seq<char> {
    trim_end(trim_start(s))
}

/// Trimming takes white space off the two sides of a text and nothing else: what is left is a
/// stretch of the text that neither starts nor ends with white space, and around it there is only
/// white space.
pub proof fn law_trim_takes_off_white_space(s: Seq<char>)
    ensures
        exists|i: int, j: int|
            0 <= i <= j <= s.len() && trim(s) == #[trigger] s.subrange(i, j) && (forall|k: int|
                0 <= k < s.len() && (k < i || j <= k) ==> is_white_space(#[trigger] s[k])),
        trim(s).len() > 0 ==> !is_white_space(trim(s)[0]) && !is_white_space(trim(s).last()),
        trim(s).len() == 0 <==> forall|k: int|
            0 <= k < s.len() ==> is_white_space(#[trigger] s[k]),
{
    let t = trim_start(s);
    lemma_trim_start(s);
    lemma_trim_end(t);
    let i = s.len() - t.len();
    let j = i + trim(s).len();
    assert(s.subrange(i, j) =~= trim(s));
    assert forall|k: int| 0 <= k < s.len() && (k < i || j <= k) implies is_white_space(
        #[trigger] s[k],
    ) by {
        if j <= k {
            assert(s[k] == t[k - i]);
        }
    }
    if trim(s).len() > 0 {
        assert(trim(s)[0] == t[0]);
        assert(s[i] == trim(s)[0]);
    }
}

proof fn lemma_trim_start(s: Seq<char>)
    ensures
        trim_start(s).len() <= s.len(),
        trim_start(s) == s.skip(s.len() - trim_start(s).len()),
        forall|k: int|
            0 <= k < s.len() - trim_start(s).len() ==> is_white_space(#[trigger] s[k]),
        trim_start(s).len() > 0 ==> !is_white_space(trim_start(s)[0]),
    decreases s.len(),
{
    if s.len() > 0 && is_white_space(s[0]) {
        let t = s.drop_first();
        lemma_trim_start(t);
        assert(trim_start(s) =~= s.skip(s.len() - trim_start(s).len()));
        assert forall|k: int|
            0 <= k < s.len() - trim_start(s).len() implies is_white_space(#[trigger] s[k]) by {
            if k > 0 {
                assert(s[k] == t[k - 1]);
            }
        }
    } else {
        assert(s.skip(0) =~= s);
    }
}

proof fn lemma_trim_end(s: Seq<char>)
    ensures
        trim_end(s).len() <= s.len(),
        trim_end(s) == s.take(trim_end(s).len() as int),
        forall|k: int| trim_end(s).len() <= k < s.len() ==> is_white_space(#[trigger] s[k]),
        trim_end(s).len() > 0 ==> !is_white_space(trim_end(s).last()),
    decreases s.len(),
{
    if s.len() > 0 && is_white_space(s.last()) {
        let t = s.drop_last();
        lemma_trim_end(t);
        assert(trim_end(s) =~= s.take(trim_end(s).len() as int));
        assert forall|k: int| trim_end(s).len() <= k < s.len() implies is_white_space(
            #[trigger] s[k],
        ) by {
            if k < t.len() {
                assert(s[k] == t[k]);
            }
        }
    } else {
        assert(s.take(s.len() as int) =~= s);
    }
}

/// Takes the white space off both sides of a text.
pub fn trim_text(s: &str) -> (r: String)
    ensures
        r@ == trim(s@),
{
    let chars = chars_of(s);
    let n: usize = chars.len();
    let mut i: usize = 0;
    assert(chars@.subrange(0, n as int) =~= s@);
    while i < n && white_space(chars[i])
        invariant
            i <= n,
            n == chars@.len(),
            trim_start(s@) == trim_start(chars@.subrange(i as int, n as int)),
        decreases n - i,
    {
        assert(chars@.subrange(i as int, n as int).drop_first() =~= chars@.subrange(i + 1, n as int));
        i += 1;
    }
    assert(trim_start(s@) == chars@.subrange(i as int, n as int));
    let mut j: usize = n;
    while j > i && white_space(chars[j - 1])
        invariant
            i <= j <= n,
            n == chars@.len(),
            trim(s@) == trim_end(chars@.subrange(i as int, j as int)),
        decreases j,
    {
        assert(chars@.subrange(i as int, j as int).drop_last() =~= chars@.subrange(i as int, j - 1));
        j -= 1;
    }
    text_between(&chars, i, j)
}

/// Whether a text holds nothing but white space.
pub fn is_blank(s: &str) -> (r: bool)
    ensures
        r == (trim(s@).len() == 0),
{
    let t = trim_text(s);
    t.as_str().is_empty()
}

/// `needle` stands in `hay` at position `i`.
pub open spec fn occurs_at(hay: Seq<char>, needle: Seq<char>, i: int) -> bool {
    0 <= i && i + needle.len() <= hay.len() && hay.subrange(i, i + needle.len()) == needle
}

/// `needle` stands somewhere in `hay`.
pub open spec fn occurs_in(hay: Seq<char>, needle: Seq<char>) -> bool {
    exists|i: int| #[trigger] occurs_at(hay, needle, i)
}

/// Whether `needle` stands in `hay` at `i`.
pub fn matches_at(hay: &Vec<char>, needle: &Vec<char>, i: usize) -> (r: bool)
    requires
        i + needle@.len() <= hay@.len(),
    ensures
        r == occurs_at(hay@, needle@, i as int),
{
    let total: usize = hay.len();
    let mut k: usize = 0;
    while k < needle.len()
        invariant
            k <= needle@.len(),
            total == hay@.len(),
            i + needle@.len() <= hay@.len(),
            forall|j: int| 0 <= j < k ==> hay@[i + j] == needle@[j],
        decreases needle@.len() - k,
    {
        if hay[i + k] != needle[k] {
            assert(hay@.subrange(i as int, i + needle@.len())[k as int] != needle@[k as int]);
            return false;
        }
        k += 1;
    }
    assert(hay@.subrange(i as int, i + needle@.len()) =~= needle@);
    true
}

/// The first place in `hay` where `needle` stands.
pub fn find_chars(hay: &Vec<char>, needle: &Vec<char>) -> (r: Option<usize>)
    ensures
        match r {
            Some(i) => occurs_at(hay@, needle@, i as int) && forall|j: int|
                j < i ==> !#[trigger] occurs_at(hay@, needle@, j),
            None => !occurs_in(hay@, needle@),
        },
{
    if needle.len() > hay.len() {
        return None;
    }
    let last: usize = hay.len() - needle.len();
    let mut i: usize = 0;
    while i <= last
        invariant
            last + needle@.len() == hay@.len(),
            i <= last + 1,
            forall|j: int| j < i ==> !#[trigger] occurs_at(hay@, needle@, j),
        decreases last + 1 - i,
    {
        if matches_at(hay, needle, i) {
            return Some(i);
        }
        if i == last {
            return None;
        }
        i += 1;
    }
    None
}

/// A text stands in whatever it is a part of.
pub proof fn lemma_part_occurs(before: Seq<char>, part: Seq<char>, behind: Seq<char>)
    ensures
        occurs_in(before + part + behind, part),
{
    let whole = before + part + behind;
    assert(whole.subrange(before.len() as int, (before.len() + part.len()) as int) =~= part);
    assert(occurs_at(whole, part, before.len() as int));
}

/// What stands in a part of a text stands in the text.
pub proof fn lemma_occurs_through(whole: Seq<char>, part: Seq<char>, needle: Seq<char>)
    requires
        occurs_in(whole, part),
        occurs_in(part, needle),
    ensures
        occurs_in(whole, needle),
{
    let i = choose|i: int| #[trigger] occurs_at(whole, part, i);
    let j = choose|j: int| #[trigger] occurs_at(part, needle, j);
    assert(whole.subrange(i + j, i + j + needle.len()) =~= part.subrange(j, j + needle.len())) by {
        assert(whole.subrange(i, i + part.len()) == part);
        assert forall|k: int| 0 <= k < needle.len() implies #[trigger] whole.subrange(
            i + j,
            i + j + needle.len(),
        )[k] == part.subrange(j, j + needle.len())[k] by {
            assert(whole.subrange(i, i + part.len())[j + k] == part[j + k]);
        }
    }
    assert(occurs_at(whole, needle, i + j));
}

/// The first place in `hay`, from `from` on, where `needle` stands.
pub open spec fn first_place(hay: Seq<char>, needle: Seq<char>, from: nat) -> Option<nat>
    decreases hay.len() - from,
{
    if from + needle.len() > hay.len() {
        None
    } else if occurs_at(hay, needle, from as int) {
        Some(from)
    } else if from < hay.len() {
        first_place(hay, needle, from + 1)
    } else {
        None
    }
}

/// The first place is a place, and none stands before it; there is one wherever the text occurs.
pub proof fn lemma_first_place(hay: Seq<char>, needle: Seq<char>, from: nat)
    ensures
        match first_place(hay, needle, from) {
            Some(i) => from <= i && occurs_at(hay, needle, i as int) && forall|j: int|
                from <= j < i ==> !#[trigger] occurs_at(hay, needle, j),
            None => forall|j: int| from <= j ==> !#[trigger] occurs_at(hay, needle, j),
        },
    decreases hay.len() - from,
{
    if from + needle.len() <= hay.len() && !occurs_at(hay, needle, from as int) && from
        < hay.len() {
        lemma_first_place(hay, needle, from + 1);
    }
}

/// Finds the first place, counted in characters, where `needle` stands in `hay`.
pub fn find_text(hay: &str, needle: &str) -> (r: Option<usize>)
    ensures
        match r {
            Some(i) => first_place(hay@, needle@, 0) == Some(i as nat),
            None => first_place(hay@, needle@, 0) is None,
        },
{
    let h = chars_of(hay);
    let n = chars_of(needle);
    proof {
        lemma_first_place(hay@, needle@, 0);
    }
    find_chars(&h, &n)
}

/// The texts of `parts`, one after the other.
pub open spec fn flat(parts: Seq<Seq<char>>) -> Seq<char>
    decreases parts.len(),
{
    if parts.len() == 0 {
        Seq::empty()
    } else {
        flat(parts.drop_last()) + parts.last()
    }
}

/// Joining two lists is joining each.
pub proof fn lemma_flat_concat(a: Seq<Seq<char>>, b: Seq<Seq<char>>)
    ensures
        flat(a + b) == flat(a) + flat(b),
    decreases b.len(),
{
    if b.len() == 0 {
        assert(a + b =~= a);
        assert(flat(a) + flat(b) =~= flat(a));
    } else {
        lemma_flat_concat(a, b.drop_last());
        assert((a + b).drop_last() =~= a + b.drop_last());
        assert((a + b).last() == b.last());
        assert(flat(a + b) =~= flat(a) + flat(b));
    }
}

/// Appends the texts from `from` on, up to `to`.
pub fn append_range(out: &mut String, parts: &Vec<String>, from: usize, to: usize)
    requires
        from <= to <= parts@.len(),
    ensures
        final(out)@ == old(out)@ + flat(views(parts@).subrange(from as int, to as int)),
{
    let ghost all = views(parts@);
    let ghost before = out@;
    let mut i: usize = from;
    assert(all.subrange(from as int, from as int) =~= Seq::empty());
    assert(before + flat(all.subrange(from as int, from as int)) =~= before);
    while i < to
        invariant
            from <= i <= to <= parts@.len(),
            all == views(parts@),
            out@ == before + flat(all.subrange(from as int, i as int)),
        decreases to - i,
    {
        out.append(parts[i].as_str());
        assert(all.subrange(from as int, i + 1).drop_last() =~= all.subrange(
            from as int,
            i as int,
        ));
        assert(all.subrange(from as int, i + 1).last() == parts@[i as int]@);
        i += 1;
        assert(out@ =~= before + flat(all.subrange(from as int, i as int)));
    }
}

/// The first `n` lines of `s`, with the line feeds that end them.
pub open spec fn head_lines(s: Seq<char>, n: nat) -> Seq<char> {
    let all = raw_lines(s);
    flat(
        all.take(
            if n < all.len() {
                n as int
            } else {
                all.len() as int
            },
        ),
    )
}

/// Cuts a text behind its first `n` lines.
pub fn take_lines(s: &str, n: usize) -> (r: String)
    ensures
        r@ == head_lines(s@, n as nat),
{
    let parts = raw_lines_of(s);
    let to: usize = if n < parts.len() {
        n
    } else {
        parts.len()
    };
    let mut r = String::new();
    append_range(&mut r, &parts, 0, to);
    assert(views(parts@).subrange(0, to as int) =~= raw_lines(s@).take(to as int));
    assert(r@ =~= head_lines(s@, n as nat));
    r
}

/// The first lines of a text begin it, and are all of it if it has no more lines.
pub proof fn law_first_lines_begin_the_text(s: Seq<char>, n: nat)
    ensures
        head_lines(s, n).is_prefix_of(s),
        n >= raw_lines(s).len() ==> head_lines(s, n) == s,
{
    let all = raw_lines(s);
    let to = if n < all.len() {
        n as int
    } else {
        all.len() as int
    };
    law_lines_make_the_text(s);
    lemma_flat_concat(all.take(to), all.skip(to));
    assert(all.take(to) + all.skip(to) =~= all);
    if n >= all.len() {
        assert(all.take(to) =~= all);
    }
}

/// A text is its lines, one after the other.
pub proof fn law_lines_make_the_text(s: Seq<char>)
    ensures
        flat(raw_lines(s)) == s,
    decreases s.len(),
{
    if s.len() > 0 {
        let front = raw_lines(s.drop_last());
        law_lines_make_the_text(s.drop_last());
        let all = raw_lines(s);
        if s.len() == 1 || s[s.len() - 2] == '\n' {
            assert(all.drop_last() =~= front);
            assert(flat(all) =~= s);
        } else {
            lemma_raw_lines_nonempty(s.drop_last());
            assert(all.drop_last() =~= front.drop_last());
            assert(flat(all) =~= flat(front).push(s.last()));
            assert(flat(all) =~= s);
        }
    }
}

/// A text is cut into lines behind its line feeds and nowhere else: no line is empty, every line
/// but perhaps the last ends with a line feed, and no line holds another.
pub proof fn law_lines_end_at_line_feeds(s: Seq<char>)
    ensures
        ({
            let all = raw_lines(s);
            &&& forall|i: int| 0 <= i < all.len() ==> (#[trigger] all[i]).len() > 0
            &&& forall|i: int| 0 <= i < all.len() - 1 ==> (#[trigger] all[i]).last() == '\n'
            &&& forall|i: int, k: int|
                0 <= i < all.len() && 0 <= k < all[i].len() - 1 ==> #[trigger] all[i][k] != '\n'
            &&& all.len() > 0 ==> all.last().last() == s.last()
        }),
    decreases s.len(),
{
    if s.len() > 0 {
        let t = s.drop_last();
        let front = raw_lines(t);
        law_lines_end_at_line_feeds(t);
        if s.len() > 1 {
            lemma_raw_lines_nonempty(t);
            assert(t.last() == s[s.len() - 2]);
        }
        let all = raw_lines(s);
        if s.len() == 1 || s[s.len() - 2] == '\n' {
            assert forall|i: int| 0 <= i < all.len() - 1 implies (#[trigger] all[i]).last()
                == '\n' by {
                assert(all[i] == front[i]);
                if i == front.len() - 1 {
                    assert(front.last() == front[i]);
                }
            }
        } else {
            assert(front.last() == front[front.len() - 1]);
            assert forall|i: int, k: int|
                0 <= i < all.len() && 0 <= k < all[i].len() - 1 implies #[trigger] all[i][k]
                != '\n' by {
                if i < all.len() - 1 {
                    assert(all[i] == front[i]);
                    assert(front[i][k] == all[i][k]);
                } else if k < front.last().len() - 1 {
                    assert(front[i][k] == all[i][k]);
                }
            }
        }
    }
}

/// Whether `needle` stands somewhere in `hay`.
pub fn contains_text(hay: &str, needle: &str) -> (r: bool)
    ensures
        r == occurs_in(hay@, needle@),
{
    let h = chars_of(hay);
    let n = chars_of(needle);
    match find_chars(&h, &n) {
        Some(i) => {
            assert(occurs_at(hay@, needle@, i as int));
            true
        },
        None => false,
    }
}

/// Whether `s` starts with `prefix`.
pub fn starts_with(s: &str, prefix: &str) -> (r: bool)
    ensures
        r == prefix@.is_prefix_of(s@),
{
    let h = chars_of(s);
    let n = chars_of(prefix);
    if n.len() > h.len() {
        return false;
    }
    matches_at(&h, &n, 0)
}

/// Whether `s` ends with `suffix`.
pub fn ends_with(s: &str, suffix: &str) -> (r: bool)
    ensures
        r == suffix@.is_suffix_of(s@),
{
    let h = chars_of(s);
    let n = chars_of(suffix);
    if n.len() > h.len() {
        return false;
    }
    matches_at(&h, &n, h.len() - n.len())
}

/// One character is turned into the other wherever it stands, and all others stay.
pub proof fn law_only_the_character_is_replaced(s: Seq<char>, from: char, to: char, i: int)
    requires
        0 <= i < s.len(),
    ensures
        replaced(s, from, to).len() == s.len(),
        s[i] == from ==> replaced(s, from, to)[i] == to,
        s[i] != from ==> replaced(s, from, to)[i] == s[i],
{
}

/// `s` with every `from` turned into `to`.
pub open spec fn replaced(s: Seq<char>, from: char, to: char) -> Seq<char> {
    s.map_values(|c: char| if c == from { to } else { c })
}

/// Turns every `from` in a text into `to`.
pub fn replace_char(s: &str, from: char, to: char) -> (r: String)
    ensures
        r@ == replaced(s@, from, to),
{
    let chars = chars_of(s);
    let mut r = String::new();
    let mut i: usize = 0;
    while i < chars.len()
        invariant
            i <= chars@.len(),
            r@ == replaced(chars@.take(i as int), from, to),
        decreases chars@.len() - i,
    {
        let c = chars[i];
        push_char(&mut r, if c == from { to } else { c });
        i += 1;
        assert(r@ =~= replaced(chars@.take(i as int), from, to));
    }
    assert(chars@.take(chars@.len() as int) =~= s@);
    r
}

/// `s` written `n` times.
pub open spec fn repeated(s: Seq<char>, n: nat) -> Seq<char>
    decreases n,
{
    if n == 0 {
        Seq::empty()
    } else {
        repeated(s, (n - 1) as nat) + s
    }
}

/// Writes a text `n` times.
pub fn repeat_text(s: &str, n: usize) -> (r: String)
    ensures
        r@ == repeated(s@, n as nat),
{
    let mut r = String::new();
    let mut i: usize = 0;
    while i < n
        invariant
            i <= n,
            r@ == repeated(s@, i as nat),
        decreases n - i,
    {
        r.append(s);
        i += 1;
    }
    r
}

/// What `FromUtf8Error` says of bytes that are not UTF-8.
pub uninterp spec fn utf8_error_text(bytes: Seq<u8>) -> Seq<char>;

/// `String::from_utf8` gives the text that the bytes encode, or, if they are not UTF-8, an error
/// whose message depends on the bytes alone.
#[verifier::external_body]
pub(crate) fn text_from_utf8(bytes: Vec<u8>) -> (r: Result<String, String>)
    ensures
        match r {
            Ok(s) => vstd::utf8::valid_utf8(bytes@) && vstd::utf8::encode_utf8(s@) == bytes@,
            Err(e) => !vstd::utf8::valid_utf8(bytes@) && e@ == utf8_error_text(bytes@),
        },
{
    String::from_utf8(bytes).map_err(|e| e.to_string())
}

/// The text that `String::from_utf8_lossy` reads from bytes.
pub uninterp spec fn lossy_text(bytes: Seq<u8>) -> Seq<char>;

/// `String::from_utf8_lossy`: valid UTF-8 is read as the text that it encodes; what each run of
/// other bytes is read as is left open.
#[verifier::external_body]
pub(crate) fn text_from_utf8_lossy(bytes: &Vec<u8>) -> (r: String)
    ensures
        r@ == lossy_text(bytes@),
        vstd::utf8::valid_utf8(bytes@) ==> vstd::utf8::encode_utf8(r@) == bytes@,
{
    String::from_utf8_lossy(bytes).into_owned()
}

/// Tells whether a text is in a list.
pub fn lists(list: &Vec<String>, text: &str) -> (r: bool)
    ensures
        r == views(list@).contains(text@),
{
    let ghost all = views(list@);
    let mut i: usize = 0;
    while i < list.len()
        invariant
            i <= list@.len(),
            all == views(list@),
            forall|k: int| 0 <= k < i ==> #[trigger] all[k] != text@,
        decreases list@.len() - i,
    {
        assert(all[i as int] == list@[i as int]@);
        if same_text(list[i].as_str(), text) {
            assert(all.contains(text@));
            return true;
        }
        i += 1;
    }
    false
}

/// A text that is not too long stays as it is; of any other as many characters as may stand are kept,
/// and three dots say that there were more.
pub proof fn law_only_long_texts_are_shortened(s: Seq<char>, n: nat)
    ensures
        s.len() <= n ==> shortened(s, n) == s,
        s.len() > n ==> shortened(s, n) == s.take(n as int) + seq!['.', '.', '.'],
{
    reveal_strlit("...");
    assert("..."@ =~= seq!['.', '.', '.']);
}

/// A text cut to `n` characters, with `...` behind it where something was cut off.
pub open spec fn shortened(s: Seq<char>, n: nat) -> Seq<char> {
    if s.len() <= n {
        s
    } else {
        s.take(n as int) + "..."@
    }
}

/// Cuts a text to `n` characters.
pub fn shorten(s: &str, n: usize) -> (r: String)
    ensures
        r@ == shortened(s@, n as nat),
{
    let chars = chars_of(s);
    if chars.len() <= n {
        s.to_owned()
    } else {
        let mut r = text_between(&chars, 0, n);
        assert(r@ =~= s@.take(n as int));
        r.append("...");
        r
    }
}

/// Two texts are the same but for the case of the letters `A` to `Z`.
pub open spec fn same_but_case(a: Seq<char>, b: Seq<char>) -> bool {
    a.len() == b.len() && forall|i: int|
        0 <= i < a.len() ==> ascii_lower(#[trigger] a[i]) == ascii_lower(b[i])
}

/// The code of a character, taken in lower case if it is a letter `A` to `Z`.
fn lower_code(c: char) -> (n: u32)
    ensures
        n == ascii_lower(c) as u32,
{
    if 'A' <= c && c <= 'Z' {
        c as u32 + 32
    } else {
        c as u32
    }
}

/// Tells whether two texts are the same but for the case of the letters `A` to `Z`.
pub fn eq_ignoring_case(a: &str, b: &str) -> (r: bool)
    ensures
        r == same_but_case(a@, b@),
{
    let x = chars_of(a);
    let y = chars_of(b);
    if x.len() != y.len() {
        return false;
    }
    let mut i: usize = 0;
    while i < x.len()
        invariant
            i <= x@.len() == y@.len(),
            x@ == a@,
            y@ == b@,
            forall|k: int| 0 <= k < i ==> ascii_lower(#[trigger] x@[k]) == ascii_lower(y@[k]),
        decreases x@.len() - i,
    {
        if lower_code(x[i]) != lower_code(y[i]) {
            assert(ascii_lower(x@[i as int]) != ascii_lower(y@[i as int]));
            return false;
        }
        i += 1;
    }
    true
}

/// What formatting a text with `{:?}` gives.
pub uninterp spec fn debug_text(s: Seq<char>) -> Seq<char>;

/// `format!` with `{:?}` writes a text in quotes, with the characters escaped that have to be; the
/// result depends on the text alone.
#[verifier::external_body]
pub(crate) fn debug_of(s: &str) -> (r: String)
    ensures
        r@ == debug_text(s@),
{
    format!("{:?}", s)
}

/// What `str::to_lowercase` returns.
pub uninterp spec fn lowercase(s: Seq<char>) -> Seq<char>;

/// The lower case of an ASCII character.
pub open spec fn ascii_lower(c: char) -> char {
    if 'A' <= c <= 'Z' {
        (c as u32 + 32) as char
    } else {
        c
    }
}

/// `str::to_lowercase` depends on the text alone. On ASCII text it turns the letters `A` to `Z`
/// into `a` to `z` and keeps everything else; what it does to other characters follows the Unicode
/// tables and is not stated.
#[verifier::external_body]
pub(crate) fn to_lowercase(s: &str) -> (r: String)
    ensures
        r@ == lowercase(s@),
        vstd::utf8::is_ascii_chars(s@) ==> r@ == s@.map_values(|c: char| ascii_lower(c)),
{
    s.to_lowercase()
}

} // verus!
