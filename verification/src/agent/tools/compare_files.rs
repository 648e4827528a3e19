//! Comparing two texts line by line.

use vstd::prelude::*;
use vstd::string::*;

use crate::agent::json;
use crate::agent::json::{Fields, Json, JsonValue};
use crate::agent::protocol;
use crate::agent::protocol::{
    AgentError, AgentResult, DefinitionSpec, ErrorSpec, Outcome, ParameterType, ToolCall,
    ToolDefinition, ToolParameter, ToolResult,
};
use crate::agent::tool;
use crate::agent::tool::BuiltinTool;
use crate::agent::tools::files;
use crate::agent::tools::files::FileAccess;
use crate::text;

verus! {

/// The length of the longest common subsequence of the first `i` lines of `a` and the first `j`
/// lines of `b`.
pub open spec fn common(a: Seq<Seq<char>>, b: Seq<Seq<char>>, i: nat, j: nat) -> nat
    decreases i + j,
{
    if i == 0 || j == 0 {
        0
    } else if a[i - 1] == b[j - 1] {
        common(a, b, (i - 1) as nat, (j - 1) as nat) + 1
    } else {
        let up = common(a, b, (i - 1) as nat, j);
        let left = common(a, b, i, (j - 1) as nat);
        if up >= left {
            up
        } else {
            left
        }
    }
}

/// `p` and `q` pick, in order, places of the first `i` lines of `a` and the first `j` lines of `b`
/// that hold the same lines.
pub open spec fn common_places(
    a: Seq<Seq<char>>,
    b: Seq<Seq<char>>,
    p: Seq<int>,
    q: Seq<int>,
    i: nat,
    j: nat,
) -> bool {
    &&& p.len() == q.len()
    &&& forall|k: int|
        0 <= k < p.len() ==> 0 <= #[trigger] p[k] < i && 0 <= q[k] < j && a[p[k]] == b[q[k]]
    &&& forall|k: int, l: int|
        0 <= k < l < p.len() ==> (#[trigger] p[k]) < (#[trigger] p[l]) && q[k] < q[l]
}

/// No common subsequence is longer than the length computed.
pub proof fn law_common_is_longest(
    a: Seq<Seq<char>>,
    b: Seq<Seq<char>>,
    p: Seq<int>,
    q: Seq<int>,
    i: nat,
    j: nat,
)
    requires
        i <= a.len(),
        j <= b.len(),
        common_places(a, b, p, q, i, j),
    ensures
        p.len() <= common(a, b, i, j),
    decreases i + j,
{
    if p.len() == 0 {
    } else {
        let n = p.len() as int;
        assert(0 <= p[n - 1] < i && 0 <= q[n - 1] < j);
        lemma_common_monotone(a, b, i, j);
        if a[i - 1] == b[j - 1] {
            let p2 = p.drop_last();
            let q2 = q.drop_last();
            assert forall|k: int| 0 <= k < p2.len() implies 0 <= #[trigger] p2[k] < i - 1 && 0
                <= q2[k] < j - 1 && a[p2[k]] == b[q2[k]] by {
                assert(p[k] < p[n - 1]);
            }
            assert forall|k: int, l: int| 0 <= k < l < p2.len() implies (#[trigger] p2[k]) < (
            #[trigger] p2[l]) && q2[k] < q2[l] by {
                assert(p[k] < p[l]);
            }
            law_common_is_longest(a, b, p2, q2, (i - 1) as nat, (j - 1) as nat);
        } else if p[n - 1] < i - 1 {
            assert forall|k: int| 0 <= k < n implies 0 <= #[trigger] p[k] < i - 1 && 0 <= q[k] < j
                && a[p[k]] == b[q[k]] by {
                if k < n - 1 {
                    assert(p[k] < p[n - 1]);
                }
            }
            law_common_is_longest(a, b, p, q, (i - 1) as nat, j);
        } else {
            assert(q[n - 1] < j - 1);
            assert forall|k: int| 0 <= k < n implies 0 <= #[trigger] p[k] < i && 0 <= q[k] < j - 1
                && a[p[k]] == b[q[k]] by {
                if k < n - 1 {
                    assert(p[k] < p[n - 1]);
                }
            }
            law_common_is_longest(a, b, p, q, i, (j - 1) as nat);
        }
    }
}

proof fn lemma_common_monotone(a: Seq<Seq<char>>, b: Seq<Seq<char>>, i: nat, j: nat)
    ensures
        i > 0 ==> common(a, b, (i - 1) as nat, j) <= common(a, b, i, j) <= common(
            a,
            b,
            (i - 1) as nat,
            j,
        ) + 1,
        j > 0 ==> common(a, b, i, (j - 1) as nat) <= common(a, b, i, j) <= common(
            a,
            b,
            i,
            (j - 1) as nat,
        ) + 1,
    decreases i + j,
{
    if i > 0 && j > 0 {
        lemma_common_monotone(a, b, (i - 1) as nat, j);
        lemma_common_monotone(a, b, i, (j - 1) as nat);
        lemma_common_monotone(a, b, (i - 1) as nat, (j - 1) as nat);
    }
}

/// What happens to a line: it stays, it is added, or it is removed.
#[derive(Debug, Clone, Copy, PartialEq, Eq, Structural)]
pub enum DiffKind {
    Context,
    Added,
    Removed,
}

impl DiffKind {
    /// The name of the kind.
    pub open spec fn name(self) -> Seq<char> {
        match self {
            DiffKind::Context => "context"@,
            DiffKind::Added => "added"@,
            DiffKind::Removed => "removed"@,
        }
    }

    /// The name of the kind.
    pub fn as_str(self) -> (r: &'static str)
        ensures
            r@ == self.name(),
    {
        match self {
            DiffKind::Context => "context",
            DiffKind::Added => "added",
            DiffKind::Removed => "removed",
        }
    }
}

/// The steps that lead from the first `i` lines of `a` to the first `j` lines of `b`: a line that
/// both end with stays; otherwise a line is added if that keeps as many common lines as removing
/// one.
pub open spec fn steps(a: Seq<Seq<char>>, b: Seq<Seq<char>>, i: nat, j: nat) -> Seq<DiffKind>
    decreases i + j,
{
    if i == 0 && j == 0 {
        Seq::empty()
    } else if i > 0 && j > 0 && a[i - 1] == b[j - 1] {
        steps(a, b, (i - 1) as nat, (j - 1) as nat).push(DiffKind::Context)
    } else if j > 0 && (i == 0 || common(a, b, i, (j - 1) as nat) >= common(
        a,
        b,
        (i - 1) as nat,
        j,
    )) {
        steps(a, b, i, (j - 1) as nat).push(DiffKind::Added)
    } else {
        steps(a, b, (i - 1) as nat, j).push(DiffKind::Removed)
    }
}

/// How many of the steps take a line of the first text.
pub open spec fn taken_a(ops: Seq<DiffKind>) -> nat
    decreases ops.len(),
{
    if ops.len() == 0 {
        0
    } else {
        taken_a(ops.drop_last()) + if ops.last() == DiffKind::Added {
            0nat
        } else {
            1nat
        }
    }
}

/// How many of the steps take a line of the second text.
pub open spec fn taken_b(ops: Seq<DiffKind>) -> nat
    decreases ops.len(),
{
    if ops.len() == 0 {
        0
    } else {
        taken_b(ops.drop_last()) + if ops.last() == DiffKind::Removed {
            0nat
        } else {
            1nat
        }
    }
}

/// How many of the steps keep a line.
pub open spec fn kept(ops: Seq<DiffKind>) -> nat
    decreases ops.len(),
{
    if ops.len() == 0 {
        0
    } else {
        kept(ops.drop_last()) + if ops.last() == DiffKind::Context {
            1nat
        } else {
            0nat
        }
    }
}

/// The lines that the steps give, taking lines from `a` and `b` in order: kept and added lines.
pub open spec fn outcome(a: Seq<Seq<char>>, b: Seq<Seq<char>>, ops: Seq<DiffKind>) -> Seq<Seq<char>>
    decreases ops.len(),
{
    if ops.len() == 0 {
        Seq::empty()
    } else {
        let front = ops.drop_last();
        match ops.last() {
            DiffKind::Context => outcome(a, b, front).push(a[taken_a(front) as int]),
            DiffKind::Added => outcome(a, b, front).push(b[taken_b(front) as int]),
            DiffKind::Removed => outcome(a, b, front),
        }
    }
}

/// The steps use up both texts, turn the first into the second, and keep as many lines as any way
/// of turning one into the other can.
pub proof fn law_steps_are_a_shortest_edit(a: Seq<Seq<char>>, b: Seq<Seq<char>>, i: nat, j: nat)
    requires
        i <= a.len(),
        j <= b.len(),
    ensures
        taken_a(steps(a, b, i, j)) == i,
        taken_b(steps(a, b, i, j)) == j,
        kept(steps(a, b, i, j)) == common(a, b, i, j),
        outcome(a, b, steps(a, b, i, j)) == b.take(j as int),
    decreases i + j,
{
    let ops = steps(a, b, i, j);
    if i == 0 && j == 0 {
        assert(outcome(a, b, ops) =~= b.take(0));
    } else if i > 0 && j > 0 && a[i - 1] == b[j - 1] {
        law_steps_are_a_shortest_edit(a, b, (i - 1) as nat, (j - 1) as nat);
        assert(ops.drop_last() =~= steps(a, b, (i - 1) as nat, (j - 1) as nat));
        assert(outcome(a, b, ops) =~= b.take(j as int));
    } else if j > 0 && (i == 0 || common(a, b, i, (j - 1) as nat) >= common(
        a,
        b,
        (i - 1) as nat,
        j,
    )) {
        law_steps_are_a_shortest_edit(a, b, i, (j - 1) as nat);
        assert(ops.drop_last() =~= steps(a, b, i, (j - 1) as nat));
        assert(outcome(a, b, ops) =~= b.take(j as int));
    } else {
        law_steps_are_a_shortest_edit(a, b, (i - 1) as nat, j);
        assert(ops.drop_last() =~= steps(a, b, (i - 1) as nat, j));
    }
}

/// A run of lines to which the same thing happens.
#[derive(Debug)]
pub struct DiffBlock {
    /// What happens to the lines.
    pub kind: DiffKind,
    /// Where the lines start in the first text, counting from 1; 0 for added lines.
    pub line_a_start: usize,
    /// Where the lines start in the second text, counting from 1; 0 for removed lines.
    pub line_b_start: usize,
    /// How many lines there are.
    pub count: usize,
    /// The lines.
    pub lines: Vec<String>,
}

/// What a block says.
#[verifier::ext_equal]
pub struct Block {
    pub kind: DiffKind,
    pub a: nat,
    pub b: nat,
    pub lines: Seq<Seq<char>>,
}

impl DiffBlock {
    /// What the block says.
    pub open spec fn model(&self) -> Block {
        Block {
            kind: self.kind,
            a: self.line_a_start as nat,
            b: self.line_b_start as nat,
            lines: text::views(self.lines@),
        }
    }

    /// The count is the number of lines.
    pub open spec fn counted(&self) -> bool {
        self.count == self.lines@.len()
    }
}

/// What blocks say.
pub open spec fn block_models(v: Seq<DiffBlock>) -> Seq<Block> {
    Seq::new(v.len(), |i: int| v[i].model())
}

/// Every block counts its lines.
pub open spec fn all_counted(v: Seq<DiffBlock>) -> bool {
    forall|i: int| 0 <= i < v.len() ==> (#[trigger] v[i]).counted()
}

/// The blocks once one more line is dealt with: it joins the last block if that is of its kind.
pub open spec fn extended(
    blocks: Seq<Block>,
    kind: DiffKind,
    a: nat,
    b: nat,
    line: Seq<char>,
) -> Seq<Block> {
    if blocks.len() > 0 && blocks.last().kind == kind {
        let last = blocks.last();
        blocks.drop_last().push(Block { lines: last.lines.push(line), ..last })
    } else {
        blocks.push(Block { kind, a, b, lines: seq![line] })
    }
}

/// The steps as blocks of lines.
pub open spec fn raw_blocks(
    a: Seq<Seq<char>>,
    b: Seq<Seq<char>>,
    ops: Seq<DiffKind>,
) -> Seq<Block>
    decreases ops.len(),
{
    if ops.len() == 0 {
        Seq::empty()
    } else {
        let front = ops.drop_last();
        let blocks = raw_blocks(a, b, front);
        let ia = taken_a(front);
        let ib = taken_b(front);
        match ops.last() {
            DiffKind::Context => extended(blocks, DiffKind::Context, ia + 1, ib + 1, a[ia as int]),
            DiffKind::Added => extended(blocks, DiffKind::Added, 0, ib + 1, b[ib as int]),
            DiffKind::Removed => extended(blocks, DiffKind::Removed, ia + 1, 0, a[ia as int]),
        }
    }
}

/// How many unchanged lines stand between block `i` and the last change before it, if there is one.
pub open spec fn since_change(blocks: Seq<Block>, i: int) -> Option<nat>
    decreases i,
{
    if i <= 0 {
        None
    } else if blocks[i - 1].kind != DiffKind::Context {
        Some(0)
    } else {
        match since_change(blocks, i - 1) {
            Some(gap) => Some(gap + blocks[i - 1].lines.len()),
            None => None,
        }
    }
}

/// How many unchanged lines stand between block `i` and the first change behind it, if there is one.
pub open spec fn until_change(blocks: Seq<Block>, i: int) -> Option<nat>
    decreases blocks.len() - i,
{
    if i + 1 >= blocks.len() {
        None
    } else if blocks[i + 1].kind != DiffKind::Context {
        Some(0)
    } else {
        match until_change(blocks, i + 1) {
            Some(gap) => Some(gap + blocks[i + 1].lines.len()),
            None => None,
        }
    }
}

/// How many lines beyond a gap lie within `limit` lines of a change.
pub open spec fn near_lines(gap: Option<nat>, limit: nat) -> nat {
    match gap {
        Some(g) => if g < limit {
            (limit - g) as nat
        } else {
            0
        },
        None => 0,
    }
}

/// Lines are near a change as far as the limit reaches from it; without a change none are.
pub proof fn law_nearness_is_counted_from_the_change(gap: nat, limit: nat)
    ensures
        gap <= limit ==> gap + near_lines(Some(gap), limit) == limit,
        gap > limit ==> near_lines(Some(gap), limit) == 0,
        near_lines(None, limit) == 0,
{
}

/// A block as it is shown: changed lines as they are; of unchanged lines the first `head` and the
/// last `tail`.
pub open spec fn pieces(block: Block, head: nat, tail: nat) -> Seq<Block> {
    let n = block.lines.len();
    if block.kind != DiffKind::Context {
        seq![block]
    } else if n <= head + tail {
        if n == 0 {
            Seq::empty()
        } else {
            seq![block]
        }
    } else {
        let front = if head > 0 {
            seq![Block { lines: block.lines.take(head as int), ..block }]
        } else {
            Seq::empty()
        };
        if tail > 0 {
            front.push(
                Block {
                    kind: block.kind,
                    a: (block.a + n - tail) as nat,
                    b: (block.b + n - tail) as nat,
                    lines: block.lines.skip(n - tail),
                },
            )
        } else {
            front
        }
    }
}

/// The first `n` blocks as they are shown: the changes, and the unchanged lines that lie within
/// `limit` lines of one.
pub open spec fn filtered(blocks: Seq<Block>, limit: nat, n: nat) -> Seq<Block>
    decreases n,
{
    if n == 0 {
        Seq::empty()
    } else {
        filtered(blocks, limit, (n - 1) as nat) + pieces(
            blocks[n - 1],
            near_lines(since_change(blocks, n - 1), limit),
            near_lines(until_change(blocks, n - 1), limit),
        )
    }
}

/// The last line of every block of unchanged lines has a number that a machine word can hold.
pub open spec fn starts_fit(v: Seq<DiffBlock>) -> bool {
    forall|i: int|
        0 <= i < v.len() && (#[trigger] v[i]).kind == DiffKind::Context ==> v[i].line_a_start
            + v[i].lines@.len() <= usize::MAX && v[i].line_b_start + v[i].lines@.len()
            <= usize::MAX
}

/// How many blocks are of a kind.
pub open spec fn count_kind(blocks: Seq<Block>, kind: DiffKind) -> nat
    decreases blocks.len(),
{
    if blocks.len() == 0 {
        0
    } else {
        count_kind(blocks.drop_last(), kind) + if blocks.last().kind == kind {
            1nat
        } else {
            0nat
        }
    }
}

/// The differences between two texts.
pub open spec fn diff_blocks(a: Seq<Seq<char>>, b: Seq<Seq<char>>, context: nat) -> Seq<Block> {
    let all = raw_blocks(a, b, steps(a, b, a.len(), b.len()));
    filtered(all, context, all.len())
}

/// The differences between two texts.
#[derive(Debug)]
pub struct DiffResult {
    pub blocks: Vec<DiffBlock>,
    pub blocks_added: usize,
    pub blocks_removed: usize,
    pub blocks_unchanged: usize,
}

/// The table of the lengths of longest common subsequences.
spec fn table_ok(
    table: Seq<Vec<usize>>,
    a: Seq<Seq<char>>,
    b: Seq<Seq<char>>,
    rows: int,
) -> bool {
    &&& table.len() == rows
    &&& forall|i: int|
        0 <= i < rows ==> row_ok(#[trigger] table[i], a, b, i as nat)
}

spec fn row_ok(row: Vec<usize>, a: Seq<Seq<char>>, b: Seq<Seq<char>>, i: nat) -> bool {
    &&& row@.len() == b.len() + 1
    &&& forall|j: int| 0 <= j < row@.len() ==> #[trigger] row@[j] == common(a, b, i, j as nat)
}

/// Builds the table of the lengths of longest common subsequences.
fn build_table(lines_a: &Vec<String>, lines_b: &Vec<String>) -> (table: Vec<Vec<usize>>)
    requires
        lines_a@.len() < usize::MAX,
        lines_b@.len() < usize::MAX,
    ensures
        table_ok(
            table@,
            text::views(lines_a@),
            text::views(lines_b@),
            lines_a@.len() as int + 1,
        ),
{
    let ghost a = text::views(lines_a@);
    let ghost b = text::views(lines_b@);
    let n: usize = lines_a.len();
    let m: usize = lines_b.len();
    let mut table: Vec<Vec<usize>> = Vec::new();
    let mut i: usize = 0;
    while i <= n
        invariant
            n == lines_a@.len(),
            m == lines_b@.len(),
            n < usize::MAX,
            m < usize::MAX,
            a == text::views(lines_a@),
            b == text::views(lines_b@),
            i <= n + 1,
            table_ok(table@, a, b, i as int),
        decreases n + 1 - i,
    {
        let mut row: Vec<usize> = Vec::new();
        let mut j: usize = 0;
        while j <= m
            invariant
                n == lines_a@.len(),
                m == lines_b@.len(),
                n < usize::MAX,
                m < usize::MAX,
                a == text::views(lines_a@),
                b == text::views(lines_b@),
                i <= n,
                j <= m + 1,
                table_ok(table@, a, b, i as int),
                row@.len() == j,
                forall|k: int| 0 <= k < j ==> #[trigger] row@[k] == common(a, b, i as nat, k as nat),
            decreases m + 1 - j,
        {
            proof {
                lemma_common_bound(a, b, i as nat, j as nat);
            }
            let value: usize = if i == 0 || j == 0 {
                0
            } else {
                assert(a[i - 1] == lines_a@[i - 1]@);
                assert(b[j - 1] == lines_b@[j - 1]@);
                assert(row_ok(table@[i - 1], a, b, (i - 1) as nat));
                let up: usize = table[i - 1][j];
                let left: usize = row[j - 1];
                if text::same_text(lines_a[i - 1].as_str(), lines_b[j - 1].as_str()) {
                    let diagonal: usize = table[i - 1][j - 1];
                    diagonal + 1
                } else if up >= left {
                    up
                } else {
                    left
                }
            };
            row.push(value);
            j += 1;
        }
        let ghost had = table@;
        table.push(row);
        assert forall|k: int| 0 <= k < i + 1 implies row_ok(#[trigger] table@[k], a, b, k as nat) by {
            if k < i {
                assert(table@[k] == had[k]);
            }
        }
        i += 1;
    }
    table
}

proof fn lemma_common_bound(a: Seq<Seq<char>>, b: Seq<Seq<char>>, i: nat, j: nat)
    ensures
        common(a, b, i, j) <= i,
        common(a, b, i, j) <= j,
    decreases i + j,
{
    if i > 0 && j > 0 {
        lemma_common_bound(a, b, (i - 1) as nat, j);
        lemma_common_bound(a, b, i, (j - 1) as nat);
        lemma_common_bound(a, b, (i - 1) as nat, (j - 1) as nat);
    }
}

/// Finds the steps that lead from one text to the other.
fn find_steps(lines_a: &Vec<String>, lines_b: &Vec<String>) -> (ops: Vec<DiffKind>)
    requires
        lines_a@.len() < usize::MAX,
        lines_b@.len() < usize::MAX,
    ensures
        ops@ == steps(
            text::views(lines_a@),
            text::views(lines_b@),
            lines_a@.len(),
            lines_b@.len(),
        ),
{
    let ghost a = text::views(lines_a@);
    let ghost b = text::views(lines_b@);
    let table = build_table(lines_a, lines_b);
    let mut reversed: Vec<DiffKind> = Vec::new();
    let mut i: usize = lines_a.len();
    let mut j: usize = lines_b.len();
    let ghost goal = steps(a, b, i as nat, j as nat);
    assert(reversed@.reverse() =~= Seq::empty());
    assert(goal =~= goal + Seq::empty());
    while i > 0 || j > 0
        invariant
            i <= lines_a@.len(),
            j <= lines_b@.len(),
            a == text::views(lines_a@),
            b == text::views(lines_b@),
            table_ok(table@, a, b, lines_a@.len() as int + 1),
            goal == steps(a, b, i as nat, j as nat) + reversed@.reverse(),
        decreases i + j,
    {
        let ghost had = reversed@;
        let same = if i > 0 && j > 0 {
            assert(a[i - 1] == lines_a@[i - 1]@);
            assert(b[j - 1] == lines_b@[j - 1]@);
            text::same_text(lines_a[i - 1].as_str(), lines_b[j - 1].as_str())
        } else {
            false
        };
        if same {
            reversed.push(DiffKind::Context);
            i -= 1;
            j -= 1;
        } else {
            let add = if j == 0 {
                false
            } else if i == 0 {
                true
            } else {
                assert(row_ok(table@[i as int], a, b, i as nat));
                assert(row_ok(table@[i - 1], a, b, (i - 1) as nat));
                table[i][j - 1] >= table[i - 1][j]
            };
            if add {
                reversed.push(DiffKind::Added);
                j -= 1;
            } else {
                reversed.push(DiffKind::Removed);
                i -= 1;
            }
        }
        proof {
            let op = reversed@.last();
            assert(reversed@ =~= had.push(op));
            assert(reversed@.reverse() =~= seq![op] + had.reverse());
            assert(steps(a, b, i as nat, j as nat).push(op) + had.reverse() =~= steps(
                a,
                b,
                i as nat,
                j as nat,
            ) + reversed@.reverse());
        }
    }
    let mut ops: Vec<DiffKind> = Vec::new();
    let mut k: usize = reversed.len();
    while k > 0
        invariant
            k <= reversed@.len(),
            ops@ == reversed@.reverse().take(reversed@.len() - k),
        decreases k,
    {
        ops.push(reversed[k - 1]);
        k -= 1;
        assert(ops@ =~= reversed@.reverse().take(reversed@.len() - k));
    }
    assert(ops@ =~= reversed@.reverse());
    assert(Seq::<DiffKind>::empty() + reversed@.reverse() =~= reversed@.reverse());
    ops
}

/// Adds a line to the blocks.
fn extend_blocks(
    blocks: &mut Vec<DiffBlock>,
    kind: DiffKind,
    line_a: usize,
    line_b: usize,
    line: String,
)
    requires
        all_counted(old(blocks)@),
    ensures
        all_counted(final(blocks)@),
        block_models(final(blocks)@) == extended(
            block_models(old(blocks)@),
            kind,
            line_a as nat,
            line_b as nat,
            line@,
        ),
{
    let ghost before = block_models(blocks@);
    let ghost had = blocks@;
    let n: usize = blocks.len();
    if n > 0 && blocks[n - 1].kind == kind {
        assert(before.last() == had[n - 1].model());
        match blocks.pop() {
            Some(last) => {
                assert(last == had[n - 1]);
                let ghost old_lines = text::views(last.lines@);
                let mut lines = last.lines;
                lines.push(line);
                assert(text::views(lines@) =~= old_lines.push(line@));
                let block = DiffBlock {
                    kind: last.kind,
                    line_a_start: last.line_a_start,
                    line_b_start: last.line_b_start,
                    count: lines.len(),
                    lines,
                };
                assert(block_models(blocks@) =~= before.drop_last());
                blocks.push(block);
                assert(block_models(blocks@) =~= before.drop_last().push(block.model()));
                assert forall|i: int| 0 <= i < blocks@.len() implies (#[trigger] blocks@[i]).counted() by {
                    if i < n - 1 {
                        assert(blocks@[i] == had[i]);
                    }
                }
            },
            None => {},
        }
    } else {
        let mut lines: Vec<String> = Vec::new();
        lines.push(line);
        assert(text::views(lines@) =~= seq![line@]);
        let block = DiffBlock { kind, line_a_start: line_a, line_b_start: line_b, count: 1, lines };
        blocks.push(block);
        assert(block_models(blocks@) =~= before.push(block.model()));
        assert forall|i: int| 0 <= i < blocks@.len() implies (#[trigger] blocks@[i]).counted() by {
            if i < n {
                assert(blocks@[i] == had[i]);
            }
        }
    }
}

proof fn lemma_taken_prefix(ops: Seq<DiffKind>, k: int)
    requires
        0 <= k <= ops.len(),
    ensures
        taken_a(ops.take(k)) <= taken_a(ops),
        taken_b(ops.take(k)) <= taken_b(ops),
    decreases ops.len(),
{
    if k == ops.len() {
        assert(ops.take(k) =~= ops);
    } else {
        lemma_taken_prefix(ops.drop_last(), k);
        assert(ops.drop_last().take(k) =~= ops.take(k));
    }
}

/// Gathers the steps into blocks of lines.
fn gather_blocks(lines_a: &Vec<String>, lines_b: &Vec<String>, ops: &Vec<DiffKind>) -> (blocks: Vec<
    DiffBlock,
>)
    requires
        lines_a@.len() < usize::MAX,
        lines_b@.len() < usize::MAX,
        taken_a(ops@) == lines_a@.len(),
        taken_b(ops@) == lines_b@.len(),
    ensures
        all_counted(blocks@),
        block_models(blocks@) == raw_blocks(text::views(lines_a@), text::views(lines_b@), ops@),
{
    let ghost a = text::views(lines_a@);
    let ghost b = text::views(lines_b@);
    let mut blocks: Vec<DiffBlock> = Vec::new();
    let mut ia: usize = 0;
    let mut ib: usize = 0;
    let mut k: usize = 0;
    assert(block_models(blocks@) =~= raw_blocks(a, b, ops@.take(0)));
    while k < ops.len()
        invariant
            k <= ops@.len(),
            lines_a@.len() < usize::MAX,
            lines_b@.len() < usize::MAX,
            taken_a(ops@) == lines_a@.len(),
            taken_b(ops@) == lines_b@.len(),
            a == text::views(lines_a@),
            b == text::views(lines_b@),
            ia == taken_a(ops@.take(k as int)),
            ib == taken_b(ops@.take(k as int)),
            all_counted(blocks@),
            block_models(blocks@) == raw_blocks(a, b, ops@.take(k as int)),
        decreases ops@.len() - k,
    {
        proof {
            assert(ops@.take(k + 1).drop_last() =~= ops@.take(k as int));
            assert(ops@.take(k + 1).last() == ops@[k as int]);
            lemma_taken_prefix(ops@, k + 1);
        }
        match ops[k] {
            DiffKind::Context => {
                assert(a[ia as int] == lines_a@[ia as int]@);
                extend_blocks(&mut blocks, DiffKind::Context, ia + 1, ib + 1, lines_a[ia].clone());
                ia += 1;
                ib += 1;
            },
            DiffKind::Added => {
                assert(b[ib as int] == lines_b@[ib as int]@);
                extend_blocks(&mut blocks, DiffKind::Added, 0, ib + 1, lines_b[ib].clone());
                ib += 1;
            },
            DiffKind::Removed => {
                assert(a[ia as int] == lines_a@[ia as int]@);
                extend_blocks(&mut blocks, DiffKind::Removed, ia + 1, 0, lines_a[ia].clone());
                ia += 1;
            },
        }
        k += 1;
    }
    assert(ops@.take(ops@.len() as int) =~= ops@);
    blocks
}

/// For each block, how many of its first lines lie near a change before it.
fn heads_of(blocks: &Vec<DiffBlock>, limit: usize) -> (r: Vec<usize>)
    requires
        all_counted(blocks@),
    ensures
        r@.len() == blocks@.len(),
        forall|i: int|
            0 <= i < r@.len() ==> #[trigger] r@[i] == near_lines(
                since_change(block_models(blocks@), i),
                limit as nat,
            ),
{
    let ghost all = block_models(blocks@);
    let mut r: Vec<usize> = Vec::new();
    let mut left: usize = 0;
    let mut i: usize = 0;
    while i < blocks.len()
        invariant
            i <= blocks@.len(),
            all == block_models(blocks@),
            all_counted(blocks@),
            r@.len() == i,
            left == near_lines(since_change(all, i as int), limit as nat),
            forall|k: int|
                0 <= k < i ==> #[trigger] r@[k] == near_lines(
                    since_change(all, k),
                    limit as nat,
                ),
        decreases blocks@.len() - i,
    {
        assert(all[i as int] == blocks@[i as int].model());
        assert(blocks@[i as int].counted());
        r.push(left);
        left = if blocks[i].kind != DiffKind::Context {
            limit
        } else if blocks[i].count < left {
            left - blocks[i].count
        } else {
            0
        };
        i += 1;
    }
    r
}

/// For each block, from the last to the first, how many of its last lines lie near a change behind
/// it.
fn tails_of(blocks: &Vec<DiffBlock>, limit: usize) -> (r: Vec<usize>)
    requires
        all_counted(blocks@),
    ensures
        r@.len() == blocks@.len(),
        forall|i: int|
            0 <= i < r@.len() ==> #[trigger] r@[i] == near_lines(
                until_change(block_models(blocks@), r@.len() - 1 - i),
                limit as nat,
            ),
{
    let ghost all = block_models(blocks@);
    let n: usize = blocks.len();
    let mut r: Vec<usize> = Vec::new();
    let mut left: usize = 0;
    let mut i: usize = 0;
    while i < n
        invariant
            i <= n == blocks@.len(),
            all == block_models(blocks@),
            all_counted(blocks@),
            r@.len() == i,
            i < n ==> left == near_lines(until_change(all, n - 1 - i), limit as nat),
            forall|k: int|
                0 <= k < i ==> #[trigger] r@[k] == near_lines(
                    until_change(all, n - 1 - k),
                    limit as nat,
                ),
        decreases n - i,
    {
        let at: usize = n - 1 - i;
        assert(all[at as int] == blocks@[at as int].model());
        assert(blocks@[at as int].counted());
        r.push(left);
        left = if blocks[at].kind != DiffKind::Context {
            limit
        } else if blocks[at].count < left {
            left - blocks[at].count
        } else {
            0
        };
        i += 1;
    }
    r
}

/// The lines from `from` up to `to`.
fn lines_between(lines: &Vec<String>, from: usize, to: usize) -> (r: Vec<String>)
    requires
        from <= to <= lines@.len(),
    ensures
        text::views(r@) == text::views(lines@).subrange(from as int, to as int),
        r@.len() == to - from,
{
    let mut r: Vec<String> = Vec::new();
    let mut i: usize = from;
    while i < to
        invariant
            from <= i <= to <= lines@.len(),
            r@.len() == i - from,
            text::views(r@) == text::views(lines@).subrange(from as int, i as int),
        decreases to - i,
    {
        let ghost had = text::views(r@);
        r.push(lines[i].clone());
        i += 1;
        assert(text::views(r@) =~= had.push(lines@[i - 1]@));
        assert(text::views(r@) =~= text::views(lines@).subrange(from as int, i as int));
    }
    r
}

/// Adds a block.
fn push_block(r: &mut Vec<DiffBlock>, block: DiffBlock)
    requires
        all_counted(old(r)@),
        block.counted(),
    ensures
        all_counted(final(r)@),
        block_models(final(r)@) == block_models(old(r)@).push(block.model()),
{
    let ghost had = r@;
    r.push(block);
    assert(block_models(r@) =~= block_models(had).push(block.model()));
    assert forall|i: int| 0 <= i < r@.len() implies (#[trigger] r@[i]).counted() by {
        if i < had.len() {
            assert(r@[i] == had[i]);
        }
    }
}

/// Adds what is shown of a block.
fn push_pieces(r: &mut Vec<DiffBlock>, block: DiffBlock, head: usize, tail: usize)
    requires
        all_counted(old(r)@),
        block.counted(),
        block.kind == DiffKind::Context ==> block.line_a_start + block.lines@.len() <= usize::MAX
            && block.line_b_start + block.lines@.len() <= usize::MAX,
    ensures
        all_counted(final(r)@),
        block_models(final(r)@) == block_models(old(r)@) + pieces(
            block.model(),
            head as nat,
            tail as nat,
        ),
{
    let ghost had = block_models(r@);
    let ghost m = block.model();
    let n: usize = block.lines.len();
    if block.kind != DiffKind::Context {
        push_block(r, block);
    } else if n <= head || n - head <= tail {
        if n > 0 {
            push_block(r, block);
        }
    } else {
        if head > 0 {
            let lines = lines_between(&block.lines, 0, head);
            assert(m.lines.subrange(0, head as int) =~= m.lines.take(head as int));
            push_block(
                r,
                DiffBlock {
                    kind: block.kind,
                    line_a_start: block.line_a_start,
                    line_b_start: block.line_b_start,
                    count: head,
                    lines,
                },
            );
        }
        if tail > 0 {
            let skipped: usize = n - tail;
            let lines = lines_between(&block.lines, skipped, n);
            assert(m.lines.subrange(skipped as int, n as int) =~= m.lines.skip(skipped as int));
            push_block(
                r,
                DiffBlock {
                    kind: block.kind,
                    line_a_start: block.line_a_start + skipped,
                    line_b_start: block.line_b_start + skipped,
                    count: tail,
                    lines,
                },
            );
        }
    }
    assert(block_models(r@) =~= had + pieces(m, head as nat, tail as nat));
}

/// Keeps the changes, and the unchanged lines that lie within `context_lines` lines before or behind
/// one. A long block between two changes becomes two.
pub fn apply_context_filter(blocks: Vec<DiffBlock>, context_lines: usize) -> (r: Vec<DiffBlock>)
    requires
        all_counted(blocks@),
        starts_fit(blocks@),
    ensures
        all_counted(r@),
        block_models(r@) == filtered(
            block_models(blocks@),
            context_lines as nat,
            blocks@.len(),
        ),
{
    let ghost given = blocks@;
    let ghost all = block_models(given);
    let n: usize = blocks.len();
    let heads = heads_of(&blocks, context_lines);
    let tails = tails_of(&blocks, context_lines);
    let mut r: Vec<DiffBlock> = Vec::new();
    let mut at: usize = 0;
    assert(block_models(r@) =~= filtered(all, context_lines as nat, 0));
    for block in it: blocks
        invariant
            it.seq() == given,
            n == given.len(),
            at == it.index(),
            all == block_models(given),
            all_counted(given),
            starts_fit(given),
            all_counted(r@),
            heads@.len() == n,
            tails@.len() == n,
            forall|i: int|
                0 <= i < n ==> #[trigger] heads@[i] == near_lines(
                    since_change(all, i),
                    context_lines as nat,
                ),
            forall|i: int|
                0 <= i < n ==> #[trigger] tails@[i] == near_lines(
                    until_change(all, n - 1 - i),
                    context_lines as nat,
                ),
            block_models(r@) == filtered(all, context_lines as nat, at as nat),
    {
        assert(block == given[at as int]);
        assert(all[at as int] == block.model());
        assert(block.counted());
        let tail: usize = tails[n - 1 - at];
        assert(n - 1 - (n - 1 - at) == at);
        push_pieces(&mut r, block, heads[at], tail);
        at += 1;
    }
    r
}

/// The number of blocks of a kind.
fn count_of(blocks: &Vec<DiffBlock>, kind: DiffKind) -> (n: usize)
    ensures
        n == count_kind(block_models(blocks@), kind),
{
    let ghost all = block_models(blocks@);
    let mut n: usize = 0;
    let mut i: usize = 0;
    assert(all.take(0) =~= Seq::empty());
    while i < blocks.len()
        invariant
            i <= blocks@.len(),
            all == block_models(blocks@),
            n <= i,
            n == count_kind(all.take(i as int), kind),
        decreases blocks@.len() - i,
    {
        assert(all.take(i + 1).drop_last() =~= all.take(i as int));
        assert(all.take(i + 1).last() == blocks@[i as int].model());
        if blocks[i].kind == kind {
            n += 1;
        }
        i += 1;
    }
    assert(all.take(all.len() as int) =~= all);
    n
}

/// Finds the differences between two texts, given by their lines.
pub fn compute_diff(
    lines_a: &Vec<String>,
    lines_b: &Vec<String>,
    context_lines: usize,
) -> (r: DiffResult)
    requires
        lines_a@.len() < usize::MAX,
        lines_b@.len() < usize::MAX,
    ensures
        all_counted(r.blocks@),
        block_models(r.blocks@) == diff_blocks(
            text::views(lines_a@),
            text::views(lines_b@),
            context_lines as nat,
        ),
        r.blocks_added == count_kind(block_models(r.blocks@), DiffKind::Added),
        r.blocks_removed == count_kind(block_models(r.blocks@), DiffKind::Removed),
        r.blocks_unchanged == count_kind(block_models(r.blocks@), DiffKind::Context),
{
    proof {
        law_steps_are_a_shortest_edit(
            text::views(lines_a@),
            text::views(lines_b@),
            lines_a@.len(),
            lines_b@.len(),
        );
    }
    let ops = find_steps(lines_a, lines_b);
    let all = gather_blocks(lines_a, lines_b, &ops);
    proof {
        let (a, b) = (text::views(lines_a@), text::views(lines_b@));
        lemma_block_starts(a, b, ops@);
        assert forall|i: int|
            0 <= i < all@.len() && (#[trigger] all@[i]).kind == DiffKind::Context implies all@[i].line_a_start
            + all@[i].lines@.len() <= usize::MAX && all@[i].line_b_start + all@[i].lines@.len()
            <= usize::MAX by {
            assert(raw_blocks(a, b, ops@)[i] == all@[i].model());
        }
    }
    let blocks = apply_context_filter(all, context_lines);
    let blocks_added: usize = count_of(&blocks, DiffKind::Added);
    let blocks_removed: usize = count_of(&blocks, DiffKind::Removed);
    let blocks_unchanged: usize = count_of(&blocks, DiffKind::Context);
    DiffResult { blocks, blocks_added, blocks_removed, blocks_unchanged }
}

/// Blocks of unchanged lines end where their lines do.
proof fn lemma_block_starts(a: Seq<Seq<char>>, b: Seq<Seq<char>>, ops: Seq<DiffKind>)
    ensures
        ({
            let blocks = raw_blocks(a, b, ops);
            &&& forall|k: int|
                0 <= k < blocks.len() && (#[trigger] blocks[k]).kind == DiffKind::Context
                    ==> blocks[k].a + blocks[k].lines.len() <= taken_a(ops) + 1 && blocks[k].b
                    + blocks[k].lines.len() <= taken_b(ops) + 1
            &&& blocks.len() > 0 && blocks.last().kind == DiffKind::Context ==> blocks.last().a
                + blocks.last().lines.len() == taken_a(ops) + 1 && blocks.last().b
                + blocks.last().lines.len() == taken_b(ops) + 1
        }),
    decreases ops.len(),
{
    if ops.len() > 0 {
        let front = ops.drop_last();
        lemma_block_starts(a, b, front);
        let before = raw_blocks(a, b, front);
        let blocks = raw_blocks(a, b, ops);
        assert forall|k: int|
            0 <= k < blocks.len() && (#[trigger] blocks[k]).kind == DiffKind::Context implies blocks[k].a
            + blocks[k].lines.len() <= taken_a(ops) + 1 && blocks[k].b + blocks[k].lines.len()
            <= taken_b(ops) + 1 by {
            if k < before.len() && blocks[k] == before[k] {
                assert(before[k].kind == DiffKind::Context);
            }
        }
    }
}

proof fn lemma_steps_of_equal(a: Seq<Seq<char>>, i: nat)
    requires
        i <= a.len(),
    ensures
        forall|k: int|
            0 <= k < steps(a, a, i, i).len() ==> #[trigger] steps(a, a, i, i)[k]
                == DiffKind::Context,
    decreases i,
{
    if i > 0 {
        lemma_steps_of_equal(a, (i - 1) as nat);
    }
}

proof fn lemma_kept_lines(a: Seq<Seq<char>>, b: Seq<Seq<char>>, ops: Seq<DiffKind>)
    requires
        forall|k: int| 0 <= k < ops.len() ==> #[trigger] ops[k] == DiffKind::Context,
        ops.len() <= a.len(),
    ensures
        taken_a(ops) == ops.len(),
        outcome(a, b, ops) == a.take(ops.len() as int),
    decreases ops.len(),
{
    if ops.len() > 0 {
        assert(ops.last() == ops[ops.len() - 1]);
        assert forall|k: int| 0 <= k < ops.drop_last().len() implies #[trigger] ops.drop_last()[k]
            == DiffKind::Context by {
            assert(ops.drop_last()[k] == ops[k]);
        }
        lemma_kept_lines(a, b, ops.drop_last());
        assert(outcome(a, b, ops) =~= a.take(ops.len() as int));
    } else {
        assert(outcome(a, b, ops) =~= a.take(0));
    }
}

proof fn lemma_taken_a_of_kept(ops: Seq<DiffKind>)
    requires
        forall|k: int| 0 <= k < ops.len() ==> #[trigger] ops[k] == DiffKind::Context,
    ensures
        taken_a(ops) == ops.len(),
    decreases ops.len(),
{
    if ops.len() > 0 {
        assert(ops.last() == ops[ops.len() - 1]);
        assert forall|k: int| 0 <= k < ops.drop_last().len() implies #[trigger] ops.drop_last()[k]
            == DiffKind::Context by {
            assert(ops.drop_last()[k] == ops[k]);
        }
        lemma_taken_a_of_kept(ops.drop_last());
    }
}

/// A block of a kind counts.
proof fn lemma_count_kind(blocks: Seq<Block>, kind: DiffKind)
    ensures
        count_kind(blocks, kind) == 0 <==> forall|i: int|
            0 <= i < blocks.len() ==> (#[trigger] blocks[i]).kind != kind,
    decreases blocks.len(),
{
    if blocks.len() > 0 {
        let front = blocks.drop_last();
        lemma_count_kind(front, kind);
        assert(blocks[blocks.len() - 1] == blocks.last());
        if count_kind(blocks, kind) == 0 {
            assert forall|i: int| 0 <= i < blocks.len() implies (#[trigger] blocks[i]).kind
                != kind by {
                if i < front.len() {
                    assert(front[i] == blocks[i]);
                }
            }
        }
        if forall|i: int| 0 <= i < blocks.len() ==> (#[trigger] blocks[i]).kind != kind {
            assert forall|i: int| 0 <= i < front.len() implies (#[trigger] front[i]).kind
                != kind by {
                assert(front[i] == blocks[i]);
            }
        }
    }
}

/// A kind of block occurs where a step of that kind does.
proof fn lemma_block_kinds(a: Seq<Seq<char>>, b: Seq<Seq<char>>, ops: Seq<DiffKind>, kind: DiffKind)
    ensures
        (count_kind(raw_blocks(a, b, ops), kind) == 0) <==> forall|k: int|
            0 <= k < ops.len() ==> #[trigger] ops[k] != kind,
    decreases ops.len(),
{
    if ops.len() > 0 {
        let front = ops.drop_last();
        lemma_block_kinds(a, b, front, kind);
        let blocks = raw_blocks(a, b, front);
        let all = raw_blocks(a, b, ops);
        assert(ops[ops.len() - 1] == ops.last());
        if blocks.len() > 0 && blocks.last().kind == ops.last() {
            assert(all.drop_last() =~= blocks.drop_last());
        } else {
            assert(all.drop_last() =~= blocks);
        }
        assert(all.last().kind == ops.last());
        if forall|k: int| 0 <= k < ops.len() ==> #[trigger] ops[k] != kind {
            assert forall|k: int| 0 <= k < front.len() implies #[trigger] front[k] != kind by {
                assert(front[k] == ops[k]);
            }
        }
        if count_kind(all, kind) == 0 {
            assert forall|k: int| 0 <= k < ops.len() implies #[trigger] ops[k] != kind by {
                if k < front.len() {
                    assert(front[k] == ops[k]);
                }
            }
        }
    }
}

proof fn lemma_count_kind_concat(x: Seq<Block>, y: Seq<Block>, kind: DiffKind)
    ensures
        count_kind(x + y, kind) == count_kind(x, kind) + count_kind(y, kind),
    decreases y.len(),
{
    if y.len() == 0 {
        assert(x + y =~= x);
    } else {
        lemma_count_kind_concat(x, y.drop_last(), kind);
        assert((x + y).drop_last() =~= x + y.drop_last());
    }
}

/// Every block of changed lines is shown.
proof fn lemma_changes_are_shown(blocks: Seq<Block>, limit: nat, n: nat, kind: DiffKind)
    requires
        n <= blocks.len(),
        kind != DiffKind::Context,
    ensures
        count_kind(filtered(blocks, limit, n), kind) == count_kind(blocks.take(n as int), kind),
    decreases n,
{
    if n > 0 {
        lemma_changes_are_shown(blocks, limit, (n - 1) as nat, kind);
        assert(blocks.take(n as int).drop_last() =~= blocks.take(n - 1));
        assert(blocks.take(n as int).last() == blocks[n - 1]);
        let front = filtered(blocks, limit, (n - 1) as nat);
        let more = pieces(
            blocks[n - 1],
            near_lines(since_change(blocks, n - 1), limit),
            near_lines(until_change(blocks, n - 1), limit),
        );
        lemma_count_kind_concat(front, more, kind);
        if blocks[n - 1].kind != DiffKind::Context {
            assert(more.drop_last() =~= Seq::empty());
            reveal_with_fuel(count_kind, 2);
        } else {
            lemma_count_kind(more, kind);
        }
    } else {
        assert(blocks.take(0) =~= Seq::empty());
    }
}

/// Two texts are the same if and only if their differences show no added and no removed lines,
/// however few unchanged lines are asked for.
pub proof fn law_no_changes_means_identical(
    a: Seq<Seq<char>>,
    b: Seq<Seq<char>>,
    context: nat,
)
    ensures
        a == b <==> count_kind(diff_blocks(a, b, context), DiffKind::Added) == 0 && count_kind(
            diff_blocks(a, b, context),
            DiffKind::Removed,
        ) == 0,
{
    let ops = steps(a, b, a.len(), b.len());
    let all = raw_blocks(a, b, ops);
    assert(all.take(all.len() as int) =~= all);
    lemma_changes_are_shown(all, context, all.len(), DiffKind::Added);
    lemma_changes_are_shown(all, context, all.len(), DiffKind::Removed);
    lemma_block_kinds(a, b, ops, DiffKind::Added);
    lemma_block_kinds(a, b, ops, DiffKind::Removed);
    if a == b {
        lemma_steps_of_equal(a, a.len());
    }
    if count_kind(all, DiffKind::Added) == 0 && count_kind(all, DiffKind::Removed) == 0 {
        assert forall|k: int| 0 <= k < ops.len() implies #[trigger] ops[k]
            == DiffKind::Context by {
            assert(ops[k] != DiffKind::Added);
            assert(ops[k] != DiffKind::Removed);
        }
        law_steps_are_a_shortest_edit(a, b, a.len(), b.len());
        lemma_taken_a_of_kept(ops);
        lemma_kept_lines(a, b, ops);
        assert(a.take(a.len() as int) =~= a);
        assert(b.take(b.len() as int) =~= b);
    }
}

/// Identical texts have no differences to show.
pub proof fn law_identical_texts_show_nothing(a: Seq<Seq<char>>, context: nat)
    ensures
        diff_blocks(a, a, context).len() == 0,
{
    let ops = steps(a, a, a.len(), a.len());
    let all = raw_blocks(a, a, ops);
    lemma_steps_of_equal(a, a.len());
    lemma_block_kinds(a, a, ops, DiffKind::Added);
    lemma_block_kinds(a, a, ops, DiffKind::Removed);
    lemma_count_kind(all, DiffKind::Added);
    lemma_count_kind(all, DiffKind::Removed);
    lemma_no_change_shows_nothing(all, context, all.len());
}

proof fn lemma_no_change_shows_nothing(blocks: Seq<Block>, limit: nat, n: nat)
    requires
        n <= blocks.len(),
        forall|i: int| 0 <= i < blocks.len() ==> (#[trigger] blocks[i]).kind != DiffKind::Added,
        forall|i: int| 0 <= i < blocks.len() ==> (#[trigger] blocks[i]).kind != DiffKind::Removed,
    ensures
        filtered(blocks, limit, n).len() == 0,
    decreases n,
{
    if n > 0 {
        lemma_no_change_shows_nothing(blocks, limit, (n - 1) as nat);
        lemma_no_change_near(blocks, n - 1);
    }
}

proof fn lemma_no_change_near(blocks: Seq<Block>, i: int)
    requires
        0 <= i < blocks.len(),
        forall|k: int| 0 <= k < blocks.len() ==> (#[trigger] blocks[k]).kind != DiffKind::Added,
        forall|k: int| 0 <= k < blocks.len() ==> (#[trigger] blocks[k]).kind != DiffKind::Removed,
    ensures
        blocks[i].kind == DiffKind::Context,
        since_change(blocks, i) is None,
        until_change(blocks, i) is None,
{
    lemma_no_change_before(blocks, i);
    lemma_no_change_behind(blocks, i);
    assert(blocks[i].kind != DiffKind::Added && blocks[i].kind != DiffKind::Removed);
}

proof fn lemma_no_change_before(blocks: Seq<Block>, i: int)
    requires
        0 <= i < blocks.len(),
        forall|k: int| 0 <= k < blocks.len() ==> (#[trigger] blocks[k]).kind != DiffKind::Added,
        forall|k: int| 0 <= k < blocks.len() ==> (#[trigger] blocks[k]).kind != DiffKind::Removed,
    ensures
        since_change(blocks, i) is None,
    decreases i,
{
    if i > 0 {
        lemma_no_change_before(blocks, i - 1);
        assert(blocks[i - 1].kind != DiffKind::Added && blocks[i - 1].kind != DiffKind::Removed);
    }
}

proof fn lemma_no_change_behind(blocks: Seq<Block>, i: int)
    requires
        0 <= i < blocks.len(),
        forall|k: int| 0 <= k < blocks.len() ==> (#[trigger] blocks[k]).kind != DiffKind::Added,
        forall|k: int| 0 <= k < blocks.len() ==> (#[trigger] blocks[k]).kind != DiffKind::Removed,
    ensures
        until_change(blocks, i) is None,
    decreases blocks.len() - i,
{
    if i + 1 < blocks.len() {
        lemma_no_change_behind(blocks, i + 1);
        assert(blocks[i + 1].kind != DiffKind::Added && blocks[i + 1].kind != DiffKind::Removed);
    }
}

/// A block shows lines that stand where it says: added lines in the second text, removed lines in
/// the first, and unchanged lines in both. Lines are counted from 1, and 0 says that a text does not
/// have them.
pub open spec fn stands_where_it_says(a: Seq<Seq<char>>, b: Seq<Seq<char>>, block: Block) -> bool {
    let n = block.lines.len();
    &&& n > 0
    &&& block.kind == DiffKind::Added ==> block.a == 0
    &&& block.kind == DiffKind::Removed ==> block.b == 0
    &&& block.kind != DiffKind::Added ==> 1 <= block.a && block.a - 1 + n <= a.len() && block.lines
        == a.subrange(block.a - 1, block.a - 1 + n)
    &&& block.kind != DiffKind::Removed ==> 1 <= block.b && block.b - 1 + n <= b.len() && block.lines
        == b.subrange(block.b - 1, block.b - 1 + n)
}

proof fn lemma_raw_blocks_stand(a: Seq<Seq<char>>, b: Seq<Seq<char>>, i: nat, j: nat)
    requires
        i <= a.len(),
        j <= b.len(),
    ensures
        ({
            let blocks = raw_blocks(a, b, steps(a, b, i, j));
            &&& forall|k: int|
                0 <= k < blocks.len() ==> stands_where_it_says(a, b, #[trigger] blocks[k])
            &&& blocks.len() > 0 && blocks.last().kind != DiffKind::Added ==> blocks.last().a - 1
                + blocks.last().lines.len() == i
            &&& blocks.len() > 0 && blocks.last().kind != DiffKind::Removed ==> blocks.last().b - 1
                + blocks.last().lines.len() == j
        }),
    decreases i + j,
{
    law_steps_are_a_shortest_edit(a, b, i, j);
    let ops = steps(a, b, i, j);
    let blocks = raw_blocks(a, b, ops);
    if i == 0 && j == 0 {
    } else {
        let (x, y) = if i > 0 && j > 0 && a[i - 1] == b[j - 1] {
            ((i - 1) as nat, (j - 1) as nat)
        } else if j > 0 && (i == 0 || common(a, b, i, (j - 1) as nat) >= common(
            a,
            b,
            (i - 1) as nat,
            j,
        )) {
            (i, (j - 1) as nat)
        } else {
            ((i - 1) as nat, j)
        };
        lemma_raw_blocks_stand(a, b, x, y);
        law_steps_are_a_shortest_edit(a, b, x, y);
        assert(ops.drop_last() =~= steps(a, b, x, y));
        let before = raw_blocks(a, b, steps(a, b, x, y));
        let last = blocks.last();
        let n = last.lines.len();
        assert(stands_where_it_says(a, b, last)) by {
            if before.len() > 0 && before.last().kind == ops.last() {
                let old_last = before[before.len() - 1];
                assert(stands_where_it_says(a, b, old_last));
                if ops.last() != DiffKind::Added {
                    assert(last.lines =~= a.subrange(last.a - 1, last.a - 1 + n));
                }
                if ops.last() != DiffKind::Removed {
                    assert(last.lines =~= b.subrange(last.b - 1, last.b - 1 + n));
                }
            } else {
                if ops.last() != DiffKind::Added {
                    assert(last.lines =~= a.subrange(last.a - 1, last.a - 1 + n));
                }
                if ops.last() != DiffKind::Removed {
                    assert(last.lines =~= b.subrange(last.b - 1, last.b - 1 + n));
                }
            }
        }
        assert forall|k: int| 0 <= k < blocks.len() implies stands_where_it_says(
            a,
            b,
            #[trigger] blocks[k],
        ) by {
            if k < blocks.len() - 1 {
                assert(blocks[k] == before[k]);
            }
        }
    }
}

proof fn lemma_pieces_stand(
    a: Seq<Seq<char>>,
    b: Seq<Seq<char>>,
    block: Block,
    head: nat,
    tail: nat,
    k: int,
)
    requires
        stands_where_it_says(a, b, block),
        0 <= k < pieces(block, head, tail).len(),
    ensures
        stands_where_it_says(a, b, pieces(block, head, tail)[k]),
{
    let n = block.lines.len();
    let piece = pieces(block, head, tail)[k];
    if block.kind == DiffKind::Context && n > head + tail {
        if head > 0 && k == 0 {
            assert(piece.lines =~= a.subrange(piece.a - 1, piece.a - 1 + head));
            assert(piece.lines =~= b.subrange(piece.b - 1, piece.b - 1 + head));
        } else {
            assert(piece.lines =~= a.subrange(piece.a - 1, piece.a - 1 + tail));
            assert(piece.lines =~= b.subrange(piece.b - 1, piece.b - 1 + tail));
        }
    }
}

proof fn lemma_filtered_stand(
    a: Seq<Seq<char>>,
    b: Seq<Seq<char>>,
    blocks: Seq<Block>,
    limit: nat,
    n: nat,
    k: int,
)
    requires
        n <= blocks.len(),
        forall|m: int|
            0 <= m < blocks.len() ==> stands_where_it_says(a, b, #[trigger] blocks[m]),
        0 <= k < filtered(blocks, limit, n).len(),
    ensures
        stands_where_it_says(a, b, filtered(blocks, limit, n)[k]),
    decreases n,
{
    if n > 0 {
        let front = filtered(blocks, limit, (n - 1) as nat);
        let head = near_lines(since_change(blocks, n - 1), limit);
        let tail = near_lines(until_change(blocks, n - 1), limit);
        if k < front.len() {
            lemma_filtered_stand(a, b, blocks, limit, (n - 1) as nat, k);
        } else {
            lemma_pieces_stand(a, b, blocks[n - 1], head, tail, k - front.len());
        }
    }
}

/// Every block of the differences shows lines of the texts, and says where they stand.
pub proof fn law_blocks_stand_where_they_say(
    a: Seq<Seq<char>>,
    b: Seq<Seq<char>>,
    context: nat,
    k: int,
)
    requires
        0 <= k < diff_blocks(a, b, context).len(),
    ensures
        stands_where_it_says(a, b, diff_blocks(a, b, context)[k]),
{
    let all = raw_blocks(a, b, steps(a, b, a.len(), b.len()));
    lemma_raw_blocks_stand(a, b, a.len(), b.len());
    lemma_filtered_stand(a, b, all, context, all.len(), k);
}

/// How many lines the blocks of a kind hold.
pub open spec fn lines_of_kind(blocks: Seq<Block>, kind: DiffKind) -> nat
    decreases blocks.len(),
{
    if blocks.len() == 0 {
        0
    } else {
        lines_of_kind(blocks.drop_last(), kind) + if blocks.last().kind == kind {
            blocks.last().lines.len()
        } else {
            0
        }
    }
}

proof fn lemma_lines_of_kind_concat(x: Seq<Block>, y: Seq<Block>, kind: DiffKind)
    ensures
        lines_of_kind(x + y, kind) == lines_of_kind(x, kind) + lines_of_kind(y, kind),
    decreases y.len(),
{
    if y.len() == 0 {
        assert(x + y =~= x);
    } else {
        lemma_lines_of_kind_concat(x, y.drop_last(), kind);
        assert((x + y).drop_last() =~= x + y.drop_last());
    }
}

proof fn lemma_raw_lines_of_kind(a: Seq<Seq<char>>, b: Seq<Seq<char>>, ops: Seq<DiffKind>)
    ensures
        ({
            let blocks = raw_blocks(a, b, ops);
            &&& lines_of_kind(blocks, DiffKind::Added) + kept(ops) == taken_b(ops)
            &&& lines_of_kind(blocks, DiffKind::Removed) + kept(ops) == taken_a(ops)
            &&& lines_of_kind(blocks, DiffKind::Context) == kept(ops)
        }),
    decreases ops.len(),
{
    if ops.len() > 0 {
        let front = ops.drop_last();
        lemma_raw_lines_of_kind(a, b, front);
        let before = raw_blocks(a, b, front);
        let blocks = raw_blocks(a, b, ops);
        if before.len() > 0 && before.last().kind == ops.last() {
            assert(blocks.drop_last() =~= before.drop_last());
        } else {
            assert(blocks.drop_last() =~= before);
        }
    }
}

proof fn lemma_shown_lines_of_kind(blocks: Seq<Block>, limit: nat, n: nat, kind: DiffKind)
    requires
        n <= blocks.len(),
        kind != DiffKind::Context,
    ensures
        lines_of_kind(filtered(blocks, limit, n), kind) == lines_of_kind(
            blocks.take(n as int),
            kind,
        ),
    decreases n,
{
    if n > 0 {
        lemma_shown_lines_of_kind(blocks, limit, (n - 1) as nat, kind);
        assert(blocks.take(n as int).drop_last() =~= blocks.take(n - 1));
        assert(blocks.take(n as int).last() == blocks[n - 1]);
        let front = filtered(blocks, limit, (n - 1) as nat);
        let more = pieces(
            blocks[n - 1],
            near_lines(since_change(blocks, n - 1), limit),
            near_lines(until_change(blocks, n - 1), limit),
        );
        lemma_lines_of_kind_concat(front, more, kind);
        reveal_with_fuel(lines_of_kind, 3);
        if blocks[n - 1].kind != DiffKind::Context {
            assert(more.drop_last() =~= Seq::empty());
        } else if more.len() == 1 {
            assert(more.drop_last() =~= Seq::empty());
        } else if more.len() == 2 {
            assert(more.drop_last().drop_last() =~= Seq::empty());
        }
    } else {
        assert(blocks.take(0) =~= Seq::empty());
    }
}

/// Every line that is not common to both texts is shown, whatever context is asked for: as many
/// added lines as the second text has beyond the common ones, and as many removed lines as the
/// first.
pub proof fn law_every_change_is_shown(a: Seq<Seq<char>>, b: Seq<Seq<char>>, context: nat)
    ensures
        ({
            let shown = diff_blocks(a, b, context);
            let common_lines = common(a, b, a.len(), b.len());
            &&& lines_of_kind(shown, DiffKind::Added) + common_lines == b.len()
            &&& lines_of_kind(shown, DiffKind::Removed) + common_lines == a.len()
        }),
{
    let ops = steps(a, b, a.len(), b.len());
    let all = raw_blocks(a, b, ops);
    law_steps_are_a_shortest_edit(a, b, a.len(), b.len());
    lemma_raw_lines_of_kind(a, b, ops);
    lemma_shown_lines_of_kind(all, context, all.len(), DiffKind::Added);
    lemma_shown_lines_of_kind(all, context, all.len(), DiffKind::Removed);
    assert(all.take(all.len() as int) =~= all);
}

proof fn lemma_blocks_alternate(a: Seq<Seq<char>>, b: Seq<Seq<char>>, ops: Seq<DiffKind>)
    ensures
        forall|j: int, k: int|
            0 <= j < k < raw_blocks(a, b, ops).len() && k == j + 1 ==> (#[trigger] raw_blocks(
                a,
                b,
                ops,
            )[j]).kind != (#[trigger] raw_blocks(a, b, ops)[k]).kind,
    decreases ops.len(),
{
    if ops.len() > 0 {
        let front = ops.drop_last();
        lemma_blocks_alternate(a, b, front);
        let before = raw_blocks(a, b, front);
        let blocks = raw_blocks(a, b, ops);
        assert forall|j: int, k: int| 0 <= j < k < blocks.len() && k == j + 1 implies (
        #[trigger] blocks[j]).kind != (#[trigger] blocks[k]).kind by {
            if k < before.len() {
                assert(before[j].kind != before[k].kind);
            }
        }
    }
}

proof fn lemma_piece_is_shown(blocks: Seq<Block>, limit: nat, n: nat, i: int, k: int)
    requires
        0 <= i < n <= blocks.len(),
        0 <= k < pieces(
            blocks[i],
            near_lines(since_change(blocks, i), limit),
            near_lines(until_change(blocks, i), limit),
        ).len(),
    ensures
        filtered(blocks, limit, n).contains(
            pieces(
                blocks[i],
                near_lines(since_change(blocks, i), limit),
                near_lines(until_change(blocks, i), limit),
            )[k],
        ),
    decreases n,
{
    let front = filtered(blocks, limit, (n - 1) as nat);
    let all = filtered(blocks, limit, n);
    let more = pieces(
        blocks[i],
        near_lines(since_change(blocks, i), limit),
        near_lines(until_change(blocks, i), limit),
    );
    if i == n - 1 {
        assert(all[front.len() + k] == more[k]);
    } else {
        lemma_piece_is_shown(blocks, limit, (n - 1) as nat, i, k);
        let m = choose|m: int| 0 <= m < front.len() && front[m] == more[k];
        assert(all[m] == more[k]);
    }
}

/// An unchanged line is shown with its number in the first text if it is one of the `context` lines
/// behind a change or before one.
pub proof fn law_lines_near_changes_are_shown(
    a: Seq<Seq<char>>,
    b: Seq<Seq<char>>,
    context: nat,
    i: int,
    m: int,
)
    requires
        ({
            let all = raw_blocks(a, b, steps(a, b, a.len(), b.len()));
            &&& 0 <= i < all.len()
            &&& all[i].kind == DiffKind::Context
            &&& 0 <= m < all[i].lines.len()
            &&& i > 0 && m < context || i + 1 < all.len() && all[i].lines.len() - m <= context
        }),
    ensures
        ({
            let all = raw_blocks(a, b, steps(a, b, a.len(), b.len()));
            exists|k: int|
                0 <= k < diff_blocks(a, b, context).len() && (#[trigger] diff_blocks(
                    a,
                    b,
                    context,
                )[k]).kind == DiffKind::Context && diff_blocks(a, b, context)[k].a <= all[i].a + m
                    < diff_blocks(a, b, context)[k].a + diff_blocks(a, b, context)[k].lines.len()
        }),
{
    let ops = steps(a, b, a.len(), b.len());
    let all = raw_blocks(a, b, ops);
    lemma_blocks_alternate(a, b, ops);
    let head = near_lines(since_change(all, i), context);
    let tail = near_lines(until_change(all, i), context);
    if i > 0 {
        assert(all[i - 1].kind != all[i].kind);
        assert(head == context);
    }
    if i + 1 < all.len() {
        assert(all[i].kind != all[i + 1].kind);
        assert(tail == context);
    }
    let more = pieces(all[i], head, tail);
    let n = all[i].lines.len();
    let k: int = if n <= head + tail || head > 0 && m < head {
        0
    } else {
        more.len() - 1
    };
    assert(0 <= k < more.len());
    assert(more[k].kind == DiffKind::Context);
    assert(more[k].a <= all[i].a + m < more[k].a + more[k].lines.len());
    lemma_piece_is_shown(all, context, all.len(), i, k);
    let shown = diff_blocks(a, b, context);
    let at = choose|at: int| 0 <= at < shown.len() && shown[at] == more[k];
    assert(shown[at].kind == DiffKind::Context);
}

proof fn lemma_shown_context(blocks: Seq<Block>, limit: nat, n: nat, k: int)
    requires
        n <= blocks.len(),
        forall|j: int, m: int|
            0 <= j < m < blocks.len() && m == j + 1 ==> (#[trigger] blocks[j]).kind != (
            #[trigger] blocks[m]).kind,
        0 <= k < filtered(blocks, limit, n).len(),
        filtered(blocks, limit, n)[k].kind == DiffKind::Context,
    ensures
        filtered(blocks, limit, n)[k].lines.len() <= 2 * limit,
    decreases n,
{
    if n > 0 {
        let front = filtered(blocks, limit, (n - 1) as nat);
        if k < front.len() {
            lemma_shown_context(blocks, limit, (n - 1) as nat, k);
        } else {
            let block = blocks[n - 1];
            let head = near_lines(since_change(blocks, n - 1), limit);
            let tail = near_lines(until_change(blocks, n - 1), limit);
            assert(filtered(blocks, limit, n)[k] == pieces(block, head, tail)[k - front.len()]);
        }
    }
}

/// No more unchanged lines are shown in one place than twice the context that is asked for: those
/// behind one change and those before the next.
pub proof fn law_context_is_bounded(
    a: Seq<Seq<char>>,
    b: Seq<Seq<char>>,
    context: nat,
    k: int,
)
    requires
        0 <= k < diff_blocks(a, b, context).len(),
        diff_blocks(a, b, context)[k].kind == DiffKind::Context,
    ensures
        diff_blocks(a, b, context)[k].lines.len() <= 2 * context,
{
    let ops = steps(a, b, a.len(), b.len());
    let all = raw_blocks(a, b, ops);
    lemma_blocks_alternate(a, b, ops);
    lemma_shown_context(all, context, all.len(), k);
}

/// The fields of a block as a JSON value.
pub open spec fn block_fields(block: Block) -> Seq<(Seq<char>, JsonValue)> {
    seq![
        ("kind"@, JsonValue::String(block.kind.name())),
        ("line_a_start"@, json::natural_value(block.a)),
        ("line_b_start"@, json::natural_value(block.b)),
        ("count"@, json::natural_value(block.lines.len())),
        ("lines"@, JsonValue::Array(json::text_values(block.lines))),
    ]
}

/// A block as a JSON value.
pub open spec fn block_value(block: Block) -> JsonValue {
    JsonValue::Object(block_fields(block))
}

/// Blocks as JSON values.
pub open spec fn block_values(blocks: Seq<Block>) -> Seq<JsonValue> {
    Seq::new(blocks.len(), |i: int| block_value(blocks[i]))
}

fn block_json(block: &DiffBlock) -> (r: Json)
    requires
        block.counted(),
    ensures
        r.model() == block_value(block.model()),
{
    let fields = Fields::new().with("kind", Json::text(block.kind.as_str())).with(
        "line_a_start",
        Json::natural(block.line_a_start as u64),
    ).with("line_b_start", Json::natural(block.line_b_start as u64)).with(
        "count",
        Json::natural(block.count as u64),
    ).with("lines", Json::texts(&block.lines));
    assert(fields.model() =~= block_fields(block.model()));
    fields.object()
}

fn blocks_json(blocks: &Vec<DiffBlock>) -> (r: Json)
    requires
        all_counted(blocks@),
    ensures
        r.model() == JsonValue::Array(block_values(block_models(blocks@))),
{
    let ghost all = block_models(blocks@);
    let mut v: Vec<Json> = Vec::new();
    let mut i: usize = 0;
    while i < blocks.len()
        invariant
            i <= blocks@.len(),
            all == block_models(blocks@),
            all_counted(blocks@),
            json::models(v@) == block_values(all).take(i as int),
        decreases blocks@.len() - i,
    {
        let ghost before = json::models(v@);
        assert(blocks@[i as int].counted());
        v.push(block_json(&blocks[i]));
        i += 1;
        assert(json::models(v@) =~= before.push(block_value(all[i - 1])));
        assert(json::models(v@) =~= block_values(all).take(i as int));
    }
    assert(block_values(all).take(all.len() as int) =~= block_values(all));
    Json::array(v)
}

/// Compares two text files line by line.
pub struct CompareFilesTool;

/// What the definition of the tool says.
pub open spec fn compare_definition() -> DefinitionSpec {
    DefinitionSpec {
        name: "compare_files"@,
        description: "Compare two text files line by line and return the differences. Useful for understanding changes between file versions or comparing similar files. Returns added, removed, and unchanged line blocks."@,
        parameters: seq![
            protocol::parameter(
                "path_a"@,
                ParameterType::Text,
                "Path to the first file (relative to project root)"@,
                true,
            ),
            protocol::parameter(
                "path_b"@,
                ParameterType::Text,
                "Path to the second file (relative to project root)"@,
                true,
            ),
            protocol::parameter(
                "context_lines"@,
                ParameterType::Integer,
                "Number of unchanged context lines to show around each diff block (default: 3)"@,
                false,
            ),
        ],
    }
}

/// How many unchanged lines a call asks for: 3 unless it says otherwise, none below 0.
pub open spec fn context_of(call: ToolCall) -> nat {
    match call.integer_argument("context_lines"@) {
        Some(n) => if n < 0 {
            0
        } else {
            (n as usize) as nat
        },
        None => 3,
    }
}

/// The fields of what is answered for two texts.
pub open spec fn compare_fields(
    path_a: Seq<char>,
    path_b: Seq<char>,
    a: Seq<Seq<char>>,
    b: Seq<Seq<char>>,
    context: nat,
) -> Seq<(Seq<char>, JsonValue)> {
    let blocks = diff_blocks(a, b, context);
    seq![
        ("path_a"@, JsonValue::String(path_a)),
        ("path_b"@, JsonValue::String(path_b)),
        ("lines_a"@, json::natural_value(a.len())),
        ("lines_b"@, json::natural_value(b.len())),
        ("blocks_added"@, json::natural_value(count_kind(blocks, DiffKind::Added))),
        ("blocks_removed"@, json::natural_value(count_kind(blocks, DiffKind::Removed))),
        ("blocks_unchanged"@, json::natural_value(count_kind(blocks, DiffKind::Context))),
        ("identical"@, JsonValue::Bool(a == b)),
        ("diff"@, JsonValue::Array(block_values(blocks))),
    ]
}

/// What comes of a call, given what came of reading its two files.
pub open spec fn compare_outcome(call: ToolCall, a: FileAccess, b: FileAccess) -> Outcome {
    match protocol::first_missing(compare_definition().parameters, call.arguments@.dom()) {
        Some(name) => Outcome::Fails("compare_files"@, protocol::missing_parameter(name)),
        None => {
            let path_a = call.text_argument("path_a"@)->0;
            let path_b = call.text_argument("path_b"@)->0;
            if a is Outside {
                Outcome::Fails("path_check"@, files::outside_message(path_a))
            } else if b is Outside {
                Outcome::Fails("path_check"@, files::outside_message(path_b))
            } else if a is NotAFile {
                Outcome::Answers(protocol::failed(files::not_a_file_message(path_a)))
            } else if b is NotAFile {
                Outcome::Answers(protocol::failed(files::not_a_file_message(path_b)))
            } else if a is Unreadable {
                Outcome::Fails(
                    "compare_files"@,
                    files::unreadable_message(path_a, a->Unreadable_0@),
                )
            } else if b is Unreadable {
                Outcome::Fails(
                    "compare_files"@,
                    files::unreadable_message(path_b, b->Unreadable_0@),
                )
            } else {
                Outcome::Answers(
                    protocol::succeeded(
                        JsonValue::Object(
                            compare_fields(
                                path_a,
                                path_b,
                                text::lines(a->Text_0@),
                                text::lines(b->Text_0@),
                                context_of(call),
                            ),
                        ),
                    ),
                )
            }
        },
    }
}

/// A block in an answer tells its kind, where it starts in each text, how many lines it has, and the
/// lines.
pub proof fn law_block_value_tells_the_block(block: Block)
    ensures
        ({
            let v = block_value(block);
            &&& v.field("kind"@) == Some(
                JsonValue::String(
                    match block.kind {
                        DiffKind::Context => "context"@,
                        DiffKind::Added => "added"@,
                        DiffKind::Removed => "removed"@,
                    },
                ),
            )
            &&& v.field("line_a_start"@) == Some(json::natural_value(block.a))
            &&& v.field("line_b_start"@) == Some(json::natural_value(block.b))
            &&& v.field("count"@) == Some(json::natural_value(block.lines.len()))
            &&& v.field("lines"@) matches Some(JsonValue::Array(items)) && items.len()
                == block.lines.len() && forall|i: int|
                0 <= i < items.len() ==> #[trigger] items[i] == JsonValue::String(block.lines[i])
        }),
{
    reveal_strlit("kind");
    reveal_strlit("line_a_start");
    reveal_strlit("line_b_start");
    reveal_strlit("count");
    reveal_strlit("lines");
    assert("kind"@.len() == 4);
    assert("line_a_start"@.len() == 12);
    assert("line_b_start"@.len() == 12);
    assert("count"@.len() == 5);
    assert("lines"@.len() == 5);
    assert("line_a_start"@[5] != "line_b_start"@[5]);
    assert("count"@[0] != "lines"@[0]);
    let fields = block_fields(block);
    json::lemma_field(fields, 0);
    json::lemma_field(fields, 1);
    json::lemma_field(fields, 2);
    json::lemma_field(fields, 3);
    json::lemma_field(fields, 4);
}

/// The answer for two texts names both files, counts their lines and the blocks that are added,
/// removed and unchanged, says whether they are identical, and shows the differences; with three
/// lines of context unless the call asks for another number, and none for a negative one.
pub proof fn law_compare_answer_tells_the_differences(
    call: ToolCall,
    a: String,
    b: String,
    path_a: Seq<char>,
    path_b: Seq<char>,
    context: nat,
)
    requires
        call.text_argument("path_a"@) == Some(path_a),
        call.text_argument("path_b"@) == Some(path_b),
        match call.integer_argument("context_lines"@) {
            Some(n) => n <= usize::MAX && if n < 0 {
                context == 0
            } else {
                context == n
            },
            None => context == 3,
        },
    ensures
        compare_outcome(
            call,
            FileAccess::Text(a),
            FileAccess::Text(b),
        ) matches Outcome::Answers(r) && r.success && ({
            let blocks = diff_blocks(text::lines(a@), text::lines(b@), context);
            &&& r.value.field("path_a"@) == Some(JsonValue::String(path_a))
            &&& r.value.field("path_b"@) == Some(JsonValue::String(path_b))
            &&& r.value.field("lines_a"@) == Some(json::natural_value(text::lines(a@).len()))
            &&& r.value.field("lines_b"@) == Some(json::natural_value(text::lines(b@).len()))
            &&& r.value.field("blocks_added"@) == Some(
                json::natural_value(blocks.filter(|x: Block| x.kind == DiffKind::Added).len()),
            )
            &&& r.value.field("blocks_removed"@) == Some(
                json::natural_value(blocks.filter(|x: Block| x.kind == DiffKind::Removed).len()),
            )
            &&& r.value.field("blocks_unchanged"@) == Some(
                json::natural_value(blocks.filter(|x: Block| x.kind == DiffKind::Context).len()),
            )
            &&& r.value.field("identical"@) == Some(
                JsonValue::Bool(text::lines(a@) == text::lines(b@)),
            )
            &&& r.value.field("diff"@) matches Some(JsonValue::Array(items)) && items.len()
                == blocks.len() && forall|i: int|
                0 <= i < items.len() ==> #[trigger] items[i] == block_value(blocks[i])
        }),
{
    let ps = compare_definition().parameters;
    let given = call.arguments@.dom();
    assert(given.contains("path_a"@) && given.contains("path_b"@));
    protocol::law_valid_call_gives_required(ps, given);
    let blocks = diff_blocks(text::lines(a@), text::lines(b@), context);
    assert(context_of(call) == context);
    lemma_count_is_filter(blocks, DiffKind::Added);
    lemma_count_is_filter(blocks, DiffKind::Removed);
    lemma_count_is_filter(blocks, DiffKind::Context);
    reveal_strlit("path_a");
    reveal_strlit("path_b");
    reveal_strlit("lines_a");
    reveal_strlit("lines_b");
    reveal_strlit("blocks_added");
    reveal_strlit("blocks_removed");
    reveal_strlit("blocks_unchanged");
    reveal_strlit("identical");
    reveal_strlit("diff");
    assert("path_a"@.len() == 6);
    assert("path_b"@.len() == 6);
    assert("lines_a"@.len() == 7);
    assert("lines_b"@.len() == 7);
    assert("blocks_added"@.len() == 12);
    assert("blocks_removed"@.len() == 14);
    assert("blocks_unchanged"@.len() == 16);
    assert("identical"@.len() == 9);
    assert("diff"@.len() == 4);
    assert("path_a"@[5] != "path_b"@[5]);
    assert("lines_a"@[6] != "lines_b"@[6]);
    let fields = compare_fields(
        path_a,
        path_b,
        text::lines(a@),
        text::lines(b@),
        context,
    );
    json::lemma_field(fields, 0);
    json::lemma_field(fields, 1);
    json::lemma_field(fields, 2);
    json::lemma_field(fields, 3);
    json::lemma_field(fields, 4);
    json::lemma_field(fields, 5);
    json::lemma_field(fields, 6);
    json::lemma_field(fields, 7);
    json::lemma_field(fields, 8);
}

proof fn lemma_count_is_filter(blocks: Seq<Block>, kind: DiffKind)
    ensures
        count_kind(blocks, kind) == blocks.filter(|x: Block| x.kind == kind).len(),
    decreases blocks.len(),
{
    reveal(Seq::filter);
    if blocks.len() > 0 {
        lemma_count_is_filter(blocks.drop_last(), kind);
    } else {
        assert(blocks.filter(|x: Block| x.kind == kind) =~= Seq::empty());
    }
}

/// The file's text, if there is one, has fewer lines than a machine word can count.
pub open spec fn countable(a: FileAccess) -> bool {
    match a {
        FileAccess::Text(s) => text::lines(s@).len() < usize::MAX,
        _ => true,
    }
}

/// A summary of an answer.
pub open spec fn compare_summary(success: bool, value: JsonValue) -> Seq<char> {
    let identical = json::truth_of(value, "identical"@);
    if !success {
        "Error: "@ + json::json_text(value)
    } else if identical {
        "Files are identical"@
    } else {
        "Files differ: "@ + text::decimal(json::natural_of(value, "blocks_added"@) as nat) + " added block(s), "@
            + text::decimal(json::natural_of(value, "blocks_removed"@) as nat) + " removed block(s)"@
    }
}

/// A summary of a comparison tells whether the files are the same, and if not how many blocks came
/// and went; one of a failure tells the failure.
pub proof fn law_compare_summary_tells_the_changes(
    value: JsonValue,
    identical: bool,
    added: u64,
    removed: u64,
)
    requires
        value.field("identical"@) == Some(JsonValue::Bool(identical)),
        value.field("blocks_added"@) == Some(json::natural_value(added as nat)),
        value.field("blocks_removed"@) == Some(json::natural_value(removed as nat)),
    ensures
        identical ==> compare_summary(true, value) == "Files are identical"@,
        !identical ==> compare_summary(true, value) == "Files differ: "@ + text::decimal(
            added as nat,
        ) + " added block(s), "@ + text::decimal(removed as nat) + " removed block(s)"@,
        compare_summary(false, value) == "Error: "@ + json::json_text(value),
{
}

impl BuiltinTool for CompareFilesTool {
    open spec fn defined(&self) -> DefinitionSpec {
        compare_definition()
    }

    fn definition(&self) -> (r: ToolDefinition) {
        let r = ToolDefinition::new("compare_files").description(
            "Compare two text files line by line and return the differences. Useful for understanding changes between file versions or comparing similar files. Returns added, removed, and unchanged line blocks.",
        ).parameter(
            ToolParameter::string("path_a").description(
                "Path to the first file (relative to project root)",
            ).required(true),
        ).parameter(
            ToolParameter::string("path_b").description(
                "Path to the second file (relative to project root)",
            ).required(true),
        ).parameter(
            ToolParameter::integer("context_lines").description(
                "Number of unchanged context lines to show around each diff block (default: 3)",
            ),
        );
        assert(r.spec().parameters =~= compare_definition().parameters);
        r
    }

    open spec fn cacheable(&self) -> bool {
        true
    }

    fn is_cacheable(&self) -> (r: bool) {
        true
    }

    open spec fn key_of(&self, call: ToolCall) -> Seq<char> {
        tool::call_key(call)
    }

    fn cache_key(&self, call: &ToolCall) -> (r: String) {
        tool::cache_key(call)
    }

    open spec fn objection(&self, call: ToolCall) -> Option<ErrorSpec> {
        protocol::parameter_objection(self.defined(), call)
    }

    fn validate_arguments(&self, call: &ToolCall) -> (r: AgentResult<()>) {
        let definition = self.definition();
        protocol::validate_arguments(&definition, call)
    }
}

impl CompareFilesTool {
    /// Answers a call, given what came of reading its two files.
    pub fn execute(&self, call: &ToolCall, file_a: &FileAccess, file_b: &FileAccess) -> (r:
        AgentResult<ToolResult>)
        requires
            call.arguments@.contains_key("path_a"@) ==> call.text_argument("path_a"@) is Some,
            call.arguments@.contains_key("path_b"@) ==> call.text_argument("path_b"@) is Some,
            countable(*file_a),
            countable(*file_b),
        ensures
            protocol::is_outcome(r, compare_outcome(*call, *file_a, *file_b)),
    {
        let definition = self.definition();
        match protocol::validate_arguments(&definition, call) {
            Ok(_) => {},
            Err(e) => {
                return Err(e);
            },
        }
        proof {
            let ps = compare_definition().parameters;
            protocol::law_valid_call_gives_required(ps, call.arguments@.dom());
            assert(ps[0].required && ps[1].required);
        }
        let path_a: &str = call.get_string("path_a").unwrap();
        let path_b: &str = call.get_string("path_b").unwrap();
        let asked: i64 = match call.get_i64("context_lines") {
            Some(n) => n,
            None => 3,
        };
        let context_lines: usize = if asked < 0 {
            0
        } else {
            asked as usize
        };
        match file_a {
            FileAccess::Outside => {
                return Err(files::outside_error(path_a));
            },
            _ => {},
        }
        match file_b {
            FileAccess::Outside => {
                return Err(files::outside_error(path_b));
            },
            _ => {},
        }
        match file_a {
            FileAccess::NotAFile => {
                let m = files::not_a_file_text(path_a);
                return Ok(ToolResult::error(m.as_str()));
            },
            _ => {},
        }
        match file_b {
            FileAccess::NotAFile => {
                let m = files::not_a_file_text(path_b);
                return Ok(ToolResult::error(m.as_str()));
            },
            _ => {},
        }
        let text_a: &String = match file_a {
            FileAccess::Text(s) => s,
            FileAccess::Unreadable(e) => {
                let m = files::unreadable_text(path_a, e.as_str());
                return Err(AgentError::tool_error("compare_files", m.as_str()));
            },
            _ => {
                return Err(files::outside_error(path_a));
            },
        };
        let text_b: &String = match file_b {
            FileAccess::Text(s) => s,
            FileAccess::Unreadable(e) => {
                let m = files::unreadable_text(path_b, e.as_str());
                return Err(AgentError::tool_error("compare_files", m.as_str()));
            },
            _ => {
                return Err(files::outside_error(path_b));
            },
        };
        let lines_a = text::lines_of(text_a.as_str());
        let lines_b = text::lines_of(text_b.as_str());
        let diff = compute_diff(&lines_a, &lines_b, context_lines);
        let identical = same_lines(&lines_a, &lines_b);
        let fields = Fields::new().with("path_a", Json::text(path_a)).with(
            "path_b",
            Json::text(path_b),
        ).with("lines_a", Json::natural(lines_a.len() as u64)).with(
            "lines_b",
            Json::natural(lines_b.len() as u64),
        ).with("blocks_added", Json::natural(diff.blocks_added as u64)).with(
            "blocks_removed",
            Json::natural(diff.blocks_removed as u64),
        ).with("blocks_unchanged", Json::natural(diff.blocks_unchanged as u64)).with(
            "identical",
            Json::truth(identical),
        ).with("diff", blocks_json(&diff.blocks));
        assert(fields.model() =~= compare_fields(
            path_a@,
            path_b@,
            text::lines(text_a@),
            text::lines(text_b@),
            context_of(*call),
        ));
        Ok(ToolResult::success(fields.object()))
    }

    /// Sums an answer up.
    pub fn summarize_result(&self, result: &ToolResult) -> (r: String)
        ensures
            r@ == compare_summary(result.success, result.value.model()),
    {
        if !result.success {
            let mut r = "Error: ".to_owned();
            let m = json::compact(&result.value);
            r.append(m.as_str());
            return r;
        }
        if json::truth_field(&result.value, "identical") {
            return "Files are identical".to_owned();
        }
        let added: u64 = json::natural_field(&result.value, "blocks_added");
        let removed: u64 = json::natural_field(&result.value, "blocks_removed");
        let mut r = "Files differ: ".to_owned();
        let n = text::decimal_text(added);
        r.append(n.as_str());
        r.append(" added block(s), ");
        let n = text::decimal_text(removed);
        r.append(n.as_str());
        r.append(" removed block(s)");
        r
    }
}

/// Tells whether two lists hold the same lines.
fn same_lines(a: &Vec<String>, b: &Vec<String>) -> (r: bool)
    ensures
        r == (text::views(a@) == text::views(b@)),
{
    let ghost x = text::views(a@);
    let ghost y = text::views(b@);
    if a.len() != b.len() {
        assert(x.len() != y.len());
        return false;
    }
    let mut i: usize = 0;
    while i < a.len()
        invariant
            i <= a@.len() == b@.len(),
            x == text::views(a@),
            y == text::views(b@),
            forall|k: int| 0 <= k < i ==> x[k] == y[k],
        decreases a@.len() - i,
    {
        assert(x[i as int] == a@[i as int]@);
        assert(y[i as int] == b@[i as int]@);
        if !text::same_text(a[i].as_str(), b[i].as_str()) {
            return false;
        }
        i += 1;
    }
    assert(x =~= y);
    true
}

} // verus!
