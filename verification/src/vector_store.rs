//! A store of embedding vectors and its file format.
//!
//! The components of a vector are kept as the bits of 32-bit floating-point numbers.

use vstd::hash_map::StringHashMap;
use vstd::prelude::*;
use vstd::string::*;

use crate::paths;
use crate::text;

verus! {

/// What kind of failure a store error reports.
#[derive(Debug, Clone, Copy, PartialEq, Eq, Structural)]
pub enum VdbErrorKind {
    Io,
    InvalidInput,
    Storage,
}

/// Where a store error happened.
#[derive(Debug)]
pub struct VdbContext {
    pub path: Option<String>,
    pub operation: Option<&'static str>,
}

/// A failure of the vector store.
#[derive(Debug)]
pub struct VdbError {
    pub kind: VdbErrorKind,
    pub message: String,
    pub context: VdbContext,
    /// What the system said of it.
    pub source: Option<String>,
}

/// The result of an operation of the vector store.
pub type VdbResult<T> = Result<T, VdbError>;

impl VdbError {
    /// The error has a kind and a message, and neither context nor cause.
    pub open spec fn is_plain(self, kind: VdbErrorKind, message: Seq<char>) -> bool {
        &&& self.kind == kind
        &&& self.message@ == message
        &&& self.context.path is None
        &&& self.context.operation is None
        &&& self.source is None
    }

    /// The error comes from reading or writing the file at a path, for a cause if there is one.
    pub open spec fn is_at(
        self,
        kind: VdbErrorKind,
        message: Seq<char>,
        path: Seq<char>,
        operation: &'static str,
        source: Option<Seq<char>>,
    ) -> bool {
        &&& self.kind == kind
        &&& self.message@ == message
        &&& paths::opt_view(self.context.path) == Some(path)
        &&& self.context.operation == Some(operation)
        &&& paths::opt_view(self.source) == source
    }

    /// An argument that cannot be used.
    pub fn invalid_input(message: &str) -> (r: Self)
        ensures
            r.is_plain(VdbErrorKind::InvalidInput, message@),
    {
        VdbError {
            kind: VdbErrorKind::InvalidInput,
            message: message.to_owned(),
            context: VdbContext { path: None, operation: None },
            source: None,
        }
    }

    /// A failed read or write of a file.
    pub fn io(message: &str, path: &str, operation: &'static str) -> (r: Self)
        ensures
            r.is_at(VdbErrorKind::Io, message@, path@, operation, None),
    {
        VdbError {
            kind: VdbErrorKind::Io,
            message: message.to_owned(),
            context: VdbContext { path: Some(path.to_owned()), operation: Some(operation) },
            source: None,
        }
    }

    /// A failed write to a file that was opened.
    pub fn write_failed(message: &str) -> (r: Self)
        ensures
            r.is_plain(VdbErrorKind::Io, message@),
    {
        VdbError {
            kind: VdbErrorKind::Io,
            message: message.to_owned(),
            context: VdbContext { path: None, operation: None },
            source: None,
        }
    }

    /// A file that does not hold a vector store.
    pub fn storage(message: &str, path: &str, operation: &'static str) -> (r: Self)
        ensures
            r.is_at(VdbErrorKind::Storage, message@, path@, operation, None),
    {
        VdbError {
            kind: VdbErrorKind::Storage,
            message: message.to_owned(),
            context: VdbContext { path: Some(path.to_owned()), operation: Some(operation) },
            source: None,
        }
    }

    /// Names the cause.
    pub fn with_source(self, source: &str) -> (r: Self)
        ensures
            r.kind == self.kind,
            r.message == self.message,
            r.context == self.context,
            paths::opt_view(r.source) == Some(source@),
    {
        VdbError {
            kind: self.kind,
            message: self.message,
            context: self.context,
            source: Some(source.to_owned()),
        }
    }
}

/// The embedding of a chunk.
#[derive(Debug)]
pub struct EmbeddingVector {
    /// The chunk that was embedded.
    pub chunk_id: String,
    /// The bits of the components.
    pub vector: Vec<u32>,
    /// How many components the vector is said to have.
    pub dimension: usize,
}

impl EmbeddingVector {
    /// A vector whose dimension is the number of its components.
    pub fn new(chunk_id: &str, vector: Vec<u32>) -> (r: Self)
        ensures
            r.chunk_id@ == chunk_id@,
            r.vector == vector,
            r.dimension == vector@.len(),
    {
        let dimension: usize = vector.len();
        EmbeddingVector { chunk_id: chunk_id.to_owned(), vector, dimension }
    }

    /// The vector has as many components as it says.
    pub open spec fn sound(self) -> bool {
        self.vector@.len() == self.dimension
    }
}

impl Clone for EmbeddingVector {
    fn clone(&self) -> (r: Self)
        ensures
            r.chunk_id == self.chunk_id,
            r.vector@ == self.vector@,
            r.dimension == self.dimension,
    {
        let vector = self.vector.clone();
        assert(vector@ =~= self.vector@);
        EmbeddingVector { chunk_id: self.chunk_id.clone(), vector, dimension: self.dimension }
    }
}

/// The last place at which a vector for `id` stands, or -1.
pub open spec fn last_position(vectors: Seq<EmbeddingVector>, id: Seq<char>) -> int
    decreases vectors.len(),
{
    if vectors.len() == 0 {
        -1
    } else if vectors.last().chunk_id@ == id {
        vectors.len() - 1
    } else {
        last_position(vectors.drop_last(), id)
    }
}

/// What a store holds.
pub struct StoreModel {
    pub vectors: Seq<EmbeddingVector>,
    pub dimension: nat,
}

impl StoreModel {
    /// Every vector has as many components as it says, and they are as many as the store's
    /// dimension says. Vectors without components may stand in a store that got its dimension
    /// later.
    pub open spec fn fits(self) -> bool {
        forall|i: int|
            0 <= i < self.vectors.len() ==> (#[trigger] self.vectors[i]).sound() && (
            self.vectors[i].dimension == self.dimension || self.vectors[i].dimension == 0)
    }

    /// Every vector has the store's dimension.
    pub open spec fn uniform(self) -> bool {
        forall|i: int|
            0 <= i < self.vectors.len() ==> (#[trigger] self.vectors[i]).dimension
                == self.dimension
    }
}

/// The vectors once `v` is put in: in the place of the vector that its chunk has, or at the end.
pub open spec fn placed(vectors: Seq<EmbeddingVector>, v: EmbeddingVector) -> Seq<EmbeddingVector> {
    let i = last_position(vectors, v.chunk_id@);
    if i >= 0 {
        vectors.update(i, v)
    } else {
        vectors.push(v)
    }
}

/// The message for a vector of another dimension than the store has.
pub open spec fn dimension_mismatch(expected: nat, got: nat) -> Seq<char> {
    "Dimension mismatch: expected "@ + text::decimal(expected) + ", got "@ + text::decimal(got)
}

/// The message for a vector whose length is not its dimension.
pub open spec fn length_mismatch(length: nat, dimension: nat) -> Seq<char> {
    "Vector length "@ + text::decimal(length) + " does not match declared dimension "@
        + text::decimal(dimension)
}

/// A refusal of a query tells the dimension of the store and that of the query.
pub proof fn law_refused_query_is_told_both_dimensions(expected: nat, got: nat)
    ensures
        query_mismatch(expected, got) == "Query dimension mismatch: expected "@ + text::decimal(
            expected,
        ) + ", got "@ + text::decimal(got),
{
}

/// The message for a query of another dimension than the store has.
pub open spec fn query_mismatch(expected: nat, got: nat) -> Seq<char> {
    "Query dimension mismatch: expected "@ + text::decimal(expected) + ", got "@ + text::decimal(
        got,
    )
}

/// Adding one vector: what the store holds afterwards, and why the vector was refused, if it was.
/// The first dimension that is not 0 becomes that of the store, even if the vector is refused for
/// its length.
pub open spec fn added_one(m: StoreModel, v: EmbeddingVector) -> (StoreModel, Option<Seq<char>>) {
    let dimension = if m.dimension == 0 {
        v.dimension as nat
    } else {
        m.dimension
    };
    if v.dimension != dimension {
        (m, Some(dimension_mismatch(m.dimension, v.dimension as nat)))
    } else if v.vector@.len() != v.dimension {
        (
            StoreModel { vectors: m.vectors, dimension },
            Some(length_mismatch(v.vector@.len(), v.dimension as nat)),
        )
    } else {
        (StoreModel { vectors: placed(m.vectors, v), dimension }, None)
    }
}

/// Adding vectors in order, up to the first that is refused.
pub open spec fn added(m: StoreModel, incoming: Seq<EmbeddingVector>) -> (
    StoreModel,
    Option<Seq<char>>,
)
    decreases incoming.len(),
{
    if incoming.len() == 0 {
        (m, None)
    } else {
        let (front, refused) = added(m, incoming.drop_last());
        match refused {
            Some(_) => (front, refused),
            None => added_one(front, incoming.last()),
        }
    }
}

proof fn lemma_added_stops(m: StoreModel, incoming: Seq<EmbeddingVector>, i: int)
    requires
        0 <= i <= incoming.len(),
        added(m, incoming.take(i)).1 is Some,
    ensures
        added(m, incoming) == added(m, incoming.take(i)),
    decreases incoming.len(),
{
    if i == incoming.len() {
        assert(incoming.take(i) =~= incoming);
    } else {
        assert(incoming.drop_last().take(i) =~= incoming.take(i));
        lemma_added_stops(m, incoming.drop_last(), i);
    }
}

proof fn lemma_last_position(vectors: Seq<EmbeddingVector>, id: Seq<char>)
    ensures
        ({
            let i = last_position(vectors, id);
            &&& -1 <= i < vectors.len()
            &&& i >= 0 ==> vectors[i].chunk_id@ == id
            &&& forall|j: int| i < j < vectors.len() ==> (#[trigger] vectors[j]).chunk_id@ != id
        }),
    decreases vectors.len(),
{
    if vectors.len() > 0 {
        let front = vectors.drop_last();
        lemma_last_position(front, id);
        assert forall|j: int|
            last_position(vectors, id) < j < vectors.len() implies (#[trigger] vectors[j]).chunk_id@
            != id by {
            if j < front.len() {
                assert(front[j] == vectors[j]);
            }
        }
    }
}

/// The index gives, for each chunk that has a vector, the last place of one.
pub open spec fn indexes(index: Map<Seq<char>, usize>, vectors: Seq<EmbeddingVector>) -> bool {
    forall|id: Seq<char>| #[trigger]
        index.contains_key(id) == (last_position(vectors, id) >= 0) && (index.contains_key(id)
            ==> index[id] == last_position(vectors, id))
}

proof fn lemma_same_ids(a: Seq<EmbeddingVector>, b: Seq<EmbeddingVector>, id: Seq<char>)
    requires
        a.len() == b.len(),
        forall|i: int| 0 <= i < a.len() ==> (#[trigger] a[i]).chunk_id@ == b[i].chunk_id@,
    ensures
        last_position(a, id) == last_position(b, id),
    decreases a.len(),
{
    if a.len() > 0 {
        assert(a[a.len() - 1].chunk_id@ == b[a.len() - 1].chunk_id@);
        lemma_same_ids(a.drop_last(), b.drop_last(), id);
    }
}

/// No chunk has two vectors.
pub open spec fn distinct_ids(vectors: Seq<EmbeddingVector>) -> bool {
    forall|i: int, j: int|
        0 <= i < vectors.len() && 0 <= j < vectors.len() && (#[trigger] vectors[i]).chunk_id@ == (
        #[trigger] vectors[j]).chunk_id@ ==> i == j
}

/// Adding a vector to a store in which no chunk has two keeps it so.
pub proof fn law_placed_keeps_ids_distinct(vectors: Seq<EmbeddingVector>, v: EmbeddingVector)
    requires
        distinct_ids(vectors),
    ensures
        distinct_ids(placed(vectors, v)),
{
    lemma_last_position(vectors, v.chunk_id@);
    let after = placed(vectors, v);
    let i = last_position(vectors, v.chunk_id@);
    assert forall|a: int, b: int|
        0 <= a < after.len() && 0 <= b < after.len() && (#[trigger] after[a]).chunk_id@ == (
        #[trigger] after[b]).chunk_id@ implies a == b by {
        if a < vectors.len() && b < vectors.len() {
            assert(vectors[a].chunk_id@ == after[a].chunk_id@);
            assert(vectors[b].chunk_id@ == after[b].chunk_id@);
        }
    }
}

/// Adding vectors keeps a store in order: each chunk that had one vector has one still, and the
/// vectors still fit the dimension. Once a store has a dimension other than 0, all vectors that it
/// takes have it.
pub proof fn law_adding_keeps_the_store_in_order(m: StoreModel, incoming: Seq<EmbeddingVector>)
    requires
        m.fits(),
    ensures
        added(m, incoming).0.fits(),
        distinct_ids(m.vectors) ==> distinct_ids(added(m, incoming).0.vectors),
        m.dimension != 0 ==> added(m, incoming).0.dimension == m.dimension,
        m.dimension != 0 && m.uniform() ==> added(m, incoming).0.uniform(),
    decreases incoming.len(),
{
    if incoming.len() > 0 {
        law_adding_keeps_the_store_in_order(m, incoming.drop_last());
        let (front, refused) = added(m, incoming.drop_last());
        let v = incoming.last();
        lemma_last_position(front.vectors, v.chunk_id@);
        if refused is None && distinct_ids(front.vectors) {
            law_placed_keeps_ids_distinct(front.vectors, v);
        }
        let after = added(m, incoming).0;
        assert forall|i: int| 0 <= i < after.vectors.len() implies (#[trigger] after.vectors[i]).sound()
            && (after.vectors[i].dimension == after.dimension || after.vectors[i].dimension
            == 0) && (m.dimension != 0 && m.uniform() ==> after.vectors[i].dimension
            == after.dimension) by {
            if i < front.vectors.len() {
                assert(front.vectors[i].sound());
            }
        }
    }
}

/// A vector that was put in is found again under its chunk, and the vectors of other chunks are
/// found as before.
pub proof fn law_placed_is_found(vectors: Seq<EmbeddingVector>, v: EmbeddingVector, other: Seq<char>)
    ensures
        ({
            let after = placed(vectors, v);
            let i = last_position(after, v.chunk_id@);
            let j = last_position(vectors, other);
            &&& i >= 0 && after[i] == v
            &&& other != v.chunk_id@ ==> last_position(after, other) == j && (j >= 0 ==> after[j]
                == vectors[j])
        }),
{
    let after = placed(vectors, v);
    let i = last_position(vectors, v.chunk_id@);
    lemma_last_position(vectors, v.chunk_id@);
    lemma_last_position(vectors, other);
    if i >= 0 {
        assert forall|k: int| 0 <= k < vectors.len() implies (#[trigger] after[k]).chunk_id@
            == vectors[k].chunk_id@ by {}
        lemma_same_ids(after, vectors, v.chunk_id@);
        lemma_same_ids(after, vectors, other);
    } else {
        assert(after.drop_last() =~= vectors);
    }
}

/// Vectors that have as many components as they say, and as many as the store has or, if it is
/// empty, as the first of them, are all taken; each chunk is then found with the last vector that
/// came for it.
pub proof fn law_fitting_vectors_are_taken(
    m: StoreModel,
    incoming: Seq<EmbeddingVector>,
    dimension: nat,
    i: int,
)
    requires
        m.dimension == dimension || m.dimension == 0,
        forall|k: int|
            0 <= k < incoming.len() ==> (#[trigger] incoming[k]).dimension == dimension
                && incoming[k].vector@.len() == dimension,
        0 <= i < incoming.len(),
        forall|k: int|
            i < k < incoming.len() ==> (#[trigger] incoming[k]).chunk_id@ != incoming[i].chunk_id@,
    ensures
        added(m, incoming).1 is None,
        added(m, incoming).0.dimension == dimension,
        ({
            let after = added(m, incoming).0.vectors;
            let at = last_position(after, incoming[i].chunk_id@);
            0 <= at < after.len() && after[at] == incoming[i]
        }),
    decreases incoming.len(),
{
    let front = incoming.drop_last();
    let v = incoming.last();
    assert(incoming[incoming.len() - 1] == v);
    if front.len() > 0 {
        if i < front.len() {
            law_fitting_vectors_are_taken(m, front, dimension, i);
        } else {
            law_fitting_vectors_are_taken(m, front, dimension, front.len() - 1);
        }
    } else {
        assert(front =~= Seq::empty());
    }
    let before = added(m, front).0.vectors;
    law_placed_is_found(before, v, incoming[i].chunk_id@);
    lemma_last_position(placed(before, v), v.chunk_id@);
    lemma_last_position(placed(before, v), incoming[i].chunk_id@);
}

/// A vector that does not have the dimension of the store, or not as many components as it says, is
/// refused, and the vectors of the store stay as they were when it came.
pub proof fn law_misfits_are_refused(m: StoreModel, incoming: Seq<EmbeddingVector>, i: int)
    requires
        0 <= i < incoming.len(),
        incoming[i].vector@.len() != incoming[i].dimension || m.dimension != 0
            && incoming[i].dimension != m.dimension,
    ensures
        added(m, incoming).1 is Some,
        exists|k: int|
            0 <= k <= i && added(m, incoming).0.vectors == (#[trigger] added(
                m,
                incoming.take(k),
            )).0.vectors && added(m, incoming.take(k)).1 is None,
    decreases incoming.len(),
{
    let front = incoming.drop_last();
    if i < front.len() {
        law_misfits_are_refused(m, front, i);
        let k = choose|k: int|
            0 <= k <= i && added(m, front).0.vectors == (#[trigger] added(
                m,
                front.take(k),
            )).0.vectors && added(m, front.take(k)).1 is None;
        assert(front.take(k) =~= incoming.take(k));
    } else {
        if added(m, front).1 is Some {
            lemma_refused_at(m, front);
            let k = choose|k: int|
                0 <= k < front.len() && added(m, front).0.vectors == (#[trigger] added(
                    m,
                    front.take(k),
                )).0.vectors && added(m, front.take(k)).1 is None;
            assert(front.take(k) =~= incoming.take(k));
        } else {
            lemma_dimension_stays(m, front);
            assert(incoming.take(i) =~= front);
            assert(added(m, incoming).0.vectors == added(m, incoming.take(i)).0.vectors);
        }
    }
}

proof fn lemma_dimension_stays(m: StoreModel, incoming: Seq<EmbeddingVector>)
    ensures
        m.dimension != 0 ==> added(m, incoming).0.dimension == m.dimension,
    decreases incoming.len(),
{
    if incoming.len() > 0 {
        lemma_dimension_stays(m, incoming.drop_last());
    }
}

proof fn lemma_refused_at(m: StoreModel, incoming: Seq<EmbeddingVector>)
    requires
        added(m, incoming).1 is Some,
    ensures
        exists|k: int|
            0 <= k < incoming.len() && added(m, incoming).0.vectors == (#[trigger] added(
                m,
                incoming.take(k),
            )).0.vectors && added(m, incoming.take(k)).1 is None,
    decreases incoming.len(),
{
    let front = incoming.drop_last();
    if added(m, front).1 is Some {
        lemma_refused_at(m, front);
        let k = choose|k: int|
            0 <= k < front.len() && added(m, front).0.vectors == (#[trigger] added(
                m,
                front.take(k),
            )).0.vectors && added(m, front.take(k)).1 is None;
        assert(front.take(k) =~= incoming.take(k));
    } else {
        assert(incoming.take(front.len() as int) =~= front);
        assert(added(m, incoming).0.vectors == added(
            m,
            incoming.take(front.len() as int),
        ).0.vectors);
    }
}

/// The bits of a score stand for a floating-point number that is no number at all.
pub open spec fn is_nan(bits: u32) -> bool {
    bits % 0x8000_0000 > 0x7f80_0000
}

/// An integer that orders the bits of floating-point numbers as the numbers are ordered.
pub open spec fn rank(bits: u32) -> int {
    if bits < 0x8000_0000 {
        bits as int
    } else {
        -(bits - 0x8000_0000)
    }
}

/// `a >= b` as floating-point numbers.
pub open spec fn at_least(a: u32, b: u32) -> bool {
    !is_nan(a) && !is_nan(b) && rank(a) >= rank(b)
}

/// A score is let through: it is a number, and no smaller than the least score asked for.
pub open spec fn passes(score: u32, min_score: Option<u32>) -> bool {
    match min_score {
        Some(min) => at_least(score, min),
        None => !is_nan(score),
    }
}

/// A chunk with its score.
pub struct Hit {
    pub id: Seq<char>,
    pub score: u32,
}

/// The vectors that pass, in the order of the store.
pub open spec fn passing(
    vectors: Seq<EmbeddingVector>,
    scores: Seq<u32>,
    min_score: Option<u32>,
) -> Seq<Hit>
    decreases vectors.len(),
{
    if vectors.len() == 0 || scores.len() != vectors.len() {
        Seq::empty()
    } else {
        let front = passing(vectors.drop_last(), scores.drop_last(), min_score);
        if passes(scores.last(), min_score) {
            front.push(Hit { id: vectors.last().chunk_id@, score: scores.last() })
        } else {
            front
        }
    }
}

/// `hits` with `h` put behind every hit that scores at least as much.
pub open spec fn inserted(hits: Seq<Hit>, h: Hit) -> Seq<Hit>
    decreases hits.len(),
{
    if hits.len() == 0 || rank(hits.last().score) >= rank(h.score) {
        hits.push(h)
    } else {
        inserted(hits.drop_last(), h).push(hits.last())
    }
}

/// The hits by falling score; hits of the same score stay in order.
pub open spec fn ranked(hits: Seq<Hit>) -> Seq<Hit>
    decreases hits.len(),
{
    if hits.len() == 0 {
        Seq::empty()
    } else {
        inserted(ranked(hits.drop_last()), hits.last())
    }
}

/// The first `n` of the hits.
pub open spec fn first_hits(hits: Seq<Hit>, n: nat) -> Seq<Hit> {
    if n < hits.len() {
        hits.take(n as int)
    } else {
        hits
    }
}

/// Scores fall from one hit to the next.
pub open spec fn falling(hits: Seq<Hit>) -> bool {
    forall|i: int, j: int|
        0 <= i < j < hits.len() ==> rank((#[trigger] hits[i]).score) >= rank(
            (#[trigger] hits[j]).score,
        )
}

proof fn lemma_inserted(hits: Seq<Hit>, h: Hit)
    requires
        falling(hits),
    ensures
        falling(inserted(hits, h)),
        inserted(hits, h).len() == hits.len() + 1,
        inserted(hits, h).to_multiset() == hits.to_multiset().insert(h),
        forall|i: int|
            0 <= i < inserted(hits, h).len() ==> rank((#[trigger] inserted(hits, h)[i]).score)
                >= rank(h.score) || rank(inserted(hits, h)[i].score) >= rank(hits.last().score),
    decreases hits.len(),
{
    broadcast use vstd::seq_lib::group_to_multiset_ensures;

    if hits.len() == 0 || rank(hits.last().score) >= rank(h.score) {
    } else {
        let front = hits.drop_last();
        lemma_inserted(front, h);
        let f = inserted(front, h);
        assert(hits =~= front.push(hits.last()));
        assert(inserted(hits, h).to_multiset() =~= hits.to_multiset().insert(h));
        assert forall|i: int, j: int|
            0 <= i < j < inserted(hits, h).len() implies rank(
            (#[trigger] inserted(hits, h)[i]).score,
        ) >= rank((#[trigger] inserted(hits, h)[j]).score) by {
            if j == f.len() {
                assert(inserted(hits, h)[i] == f[i]);
                if front.len() > 0 {
                    assert(hits[front.len() - 1] == front.last());
                    assert(hits[front.len() as int] == hits.last());
                }
            }
        }
    }
}

/// Ranking puts the hits by falling score, and neither loses nor invents any.
pub proof fn law_ranked_is_sorted(hits: Seq<Hit>)
    ensures
        falling(ranked(hits)),
        ranked(hits).len() == hits.len(),
        ranked(hits).to_multiset() == hits.to_multiset(),
    decreases hits.len(),
{
    broadcast use vstd::seq_lib::group_to_multiset_ensures;

    if hits.len() > 0 {
        law_ranked_is_sorted(hits.drop_last());
        lemma_inserted(ranked(hits.drop_last()), hits.last());
        assert(hits =~= hits.drop_last().push(hits.last()));
        assert(ranked(hits).to_multiset() =~= hits.to_multiset());
    } else {
        assert(ranked(hits) =~= hits);
    }
}

/// Hits of one score stay in the order of the store.
pub proof fn law_ties_stay_in_order(hits: Seq<Hit>, score: u32)
    ensures
        ranked(hits).filter(|h: Hit| rank(h.score) == rank(score)) == hits.filter(
            |h: Hit| rank(h.score) == rank(score),
        ),
    decreases hits.len(),
{
    let tied = |h: Hit| rank(h.score) == rank(score);
    reveal(Seq::filter);
    if hits.len() > 0 {
        law_ties_stay_in_order(hits.drop_last(), score);
        lemma_inserted_filter(ranked(hits.drop_last()), hits.last(), score);
    } else {
        assert(ranked(hits).filter(tied) =~= Seq::empty());
        assert(hits.filter(tied) =~= Seq::empty());
    }
}

proof fn lemma_inserted_filter(hits: Seq<Hit>, h: Hit, score: u32)
    ensures
        ({
            let tied = |x: Hit| rank(x.score) == rank(score);
            inserted(hits, h).filter(tied) == if tied(h) {
                hits.filter(tied).push(h)
            } else {
                hits.filter(tied)
            }
        }),
    decreases hits.len(),
{
    let tied = |x: Hit| rank(x.score) == rank(score);
    reveal(Seq::filter);
    if hits.len() == 0 || rank(hits.last().score) >= rank(h.score) {
        assert(hits.push(h).drop_last() =~= hits);
        assert(hits.push(h).last() == h);
    } else {
        let f = inserted(hits.drop_last(), h);
        lemma_inserted_filter(hits.drop_last(), h, score);
        assert(f.push(hits.last()).drop_last() =~= f);
        assert(f.push(hits.last()).last() == hits.last());
    }
}

/// What a search finds.
pub open spec fn found_hits(
    m: StoreModel,
    query_is_zero: bool,
    scores: Seq<u32>,
    top_k: nat,
    min_score: Option<u32>,
) -> Seq<Hit> {
    if m.vectors.len() == 0 || top_k == 0 || query_is_zero {
        Seq::empty()
    } else {
        first_hits(ranked(passing(m.vectors, scores, min_score)), top_k)
    }
}

/// The bits stand for a number and not for the lack of one: without the sign, they are no more than
/// those of infinity.
pub open spec fn is_number(bits: u32) -> bool {
    bits <= 0x7f80_0000 || 0x8000_0000 <= bits <= 0xff80_0000
}

/// `a` is no smaller than `b`, for the bits of two floating-point numbers: of two without a sign the
/// larger bits are the larger number, of two with a sign the smaller ones, a number without a sign
/// is no smaller than one with it, and the two zeros are equal.
pub open spec fn is_no_smaller(a: u32, b: u32) -> bool {
    ||| a < 0x8000_0000 && b < 0x8000_0000 && b <= a
    ||| a < 0x8000_0000 && b >= 0x8000_0000
    ||| a >= 0x8000_0000 && b >= 0x8000_0000 && a <= b
    ||| a == 0x8000_0000 && b == 0
}

proof fn lemma_passing(
    vectors: Seq<EmbeddingVector>,
    scores: Seq<u32>,
    min_score: Option<u32>,
    i: int,
)
    requires
        scores.len() == vectors.len(),
        0 <= i < vectors.len(),
        is_number(scores[i]),
        min_score matches Some(min) ==> is_number(min) && is_no_smaller(scores[i], min),
    ensures
        passing(vectors, scores, min_score).contains(
            Hit { id: vectors[i].chunk_id@, score: scores[i] },
        ),
    decreases vectors.len(),
{
    let h = Hit { id: vectors[i].chunk_id@, score: scores[i] };
    let all = passing(vectors, scores, min_score);
    let front = passing(vectors.drop_last(), scores.drop_last(), min_score);
    if i == vectors.len() - 1 {
        assert(all.last() == h);
    } else {
        lemma_passing(vectors.drop_last(), scores.drop_last(), min_score, i);
        let k = choose|k: int| 0 <= k < front.len() && front[k] == h;
        assert(all[k] == h);
    }
}

proof fn lemma_only_passing(
    vectors: Seq<EmbeddingVector>,
    scores: Seq<u32>,
    min_score: Option<u32>,
    k: int,
)
    requires
        scores.len() == vectors.len(),
        0 <= k < passing(vectors, scores, min_score).len(),
    ensures
        exists|i: int|
            0 <= i < vectors.len() && passing(vectors, scores, min_score)[k].id == (
            #[trigger] vectors[i]).chunk_id@ && passing(vectors, scores, min_score)[k].score
                == scores[i] && is_number(scores[i]) && (min_score matches Some(min)
                ==> is_number(min) && is_no_smaller(scores[i], min)),
    decreases vectors.len(),
{
    let all = passing(vectors, scores, min_score);
    let n = vectors.len() - 1;
    let front = passing(vectors.drop_last(), scores.drop_last(), min_score);
    if k < front.len() {
        lemma_only_passing(vectors.drop_last(), scores.drop_last(), min_score, k);
        let i = choose|i: int|
            0 <= i < n && front[k].id == (#[trigger] vectors.drop_last()[i]).chunk_id@
                && front[k].score == scores.drop_last()[i] && is_number(scores.drop_last()[i]) && (
            min_score matches Some(min) ==> is_number(min) && is_no_smaller(
                scores.drop_last()[i],
                min,
            ));
        assert(vectors[i].chunk_id@ == all[k].id);
    } else {
        assert(vectors[n].chunk_id@ == all[k].id);
    }
}

/// Every vector whose score is a number and, where a least score is asked for, no smaller than it is
/// found, as long as no more vectors are let through than may be found.
pub proof fn law_every_score_that_reaches_the_least_is_found(
    m: StoreModel,
    scores: Seq<u32>,
    top_k: nat,
    min_score: Option<u32>,
    i: int,
)
    requires
        scores.len() == m.vectors.len(),
        0 <= i < m.vectors.len(),
        is_number(scores[i]),
        min_score matches Some(min) ==> is_number(min) && is_no_smaller(scores[i], min),
        top_k >= passing(m.vectors, scores, min_score).len(),
    ensures
        passing(m.vectors, scores, min_score).contains(
            Hit { id: m.vectors[i].chunk_id@, score: scores[i] },
        ),
        found_hits(m, false, scores, top_k, min_score).contains(
            Hit { id: m.vectors[i].chunk_id@, score: scores[i] },
        ),
{
    broadcast use vstd::seq_lib::group_to_multiset_ensures;

    let h = Hit { id: m.vectors[i].chunk_id@, score: scores[i] };
    let all = passing(m.vectors, scores, min_score);
    lemma_passing(m.vectors, scores, min_score, i);
    law_ranked_is_sorted(all);
    assert(all.to_multiset().contains(h));
    assert(ranked(all).to_multiset().contains(h));
    assert(ranked(all).contains(h));
    assert(all.len() > 0);
}

/// What is found is a vector of the store with its score, the score is a number, and it is no
/// smaller than the least score asked for.
pub proof fn law_found_scores_reach_the_least(
    m: StoreModel,
    query_is_zero: bool,
    scores: Seq<u32>,
    top_k: nat,
    min_score: Option<u32>,
    k: int,
)
    requires
        scores.len() == m.vectors.len(),
        0 <= k < found_hits(m, query_is_zero, scores, top_k, min_score).len(),
    ensures
        ({
            let h = found_hits(m, query_is_zero, scores, top_k, min_score)[k];
            exists|i: int|
                0 <= i < m.vectors.len() && h.id == (#[trigger] m.vectors[i]).chunk_id@ && h.score
                    == scores[i] && is_number(scores[i]) && (min_score matches Some(min)
                    ==> is_number(min) && is_no_smaller(scores[i], min))
        }),
{
    broadcast use vstd::seq_lib::group_to_multiset_ensures;

    let h = found_hits(m, query_is_zero, scores, top_k, min_score)[k];
    let all = passing(m.vectors, scores, min_score);
    law_ranked_is_sorted(all);
    assert(ranked(all)[k] == h);
    assert(ranked(all).to_multiset().contains(h));
    assert(all.to_multiset().contains(h));
    assert(all.contains(h));
    let j = choose|j: int| 0 <= j < all.len() && all[j] == h;
    lemma_only_passing(m.vectors, scores, min_score, j);
}

/// A search finds no more than it may and the best first; and what it leaves out, though it reaches
/// the least score, scores no more than anything that it finds.
pub proof fn law_the_best_are_found(
    m: StoreModel,
    scores: Seq<u32>,
    top_k: nat,
    min_score: Option<u32>,
    i: int,
    j: int,
    k: int,
)
    requires
        scores.len() == m.vectors.len(),
        0 <= i < m.vectors.len(),
        is_number(scores[i]),
        min_score matches Some(min) ==> is_number(min) && is_no_smaller(scores[i], min),
        0 <= j <= k < found_hits(m, false, scores, top_k, min_score).len(),
    ensures
        ({
            let found = found_hits(m, false, scores, top_k, min_score);
            &&& found.len() <= top_k
            &&& is_no_smaller(found[j].score, found[k].score)
            &&& found.contains(Hit { id: m.vectors[i].chunk_id@, score: scores[i] }) || (
            found.len() == top_k && is_no_smaller(found[k].score, scores[i]))
        }),
{
    broadcast use vstd::seq_lib::group_to_multiset_ensures;

    let h = Hit { id: m.vectors[i].chunk_id@, score: scores[i] };
    let all = passing(m.vectors, scores, min_score);
    let found = found_hits(m, false, scores, top_k, min_score);
    lemma_passing(m.vectors, scores, min_score, i);
    law_ranked_is_sorted(all);
    assert(all.to_multiset().contains(h));
    assert(ranked(all).to_multiset().contains(h));
    assert(ranked(all).contains(h));
    let at = choose|at: int| 0 <= at < ranked(all).len() && ranked(all)[at] == h;
    assert(found[j] == ranked(all)[j]);
    assert(found[k] == ranked(all)[k]);
    if at < found.len() {
        assert(found[at] == h);
    } else {
        assert(rank(ranked(all)[k].score) >= rank(ranked(all)[at].score));
    }
    law_found_scores_reach_the_least(m, false, scores, top_k, min_score, j);
    law_found_scores_reach_the_least(m, false, scores, top_k, min_score, k);
    assert(j < k ==> rank(ranked(all)[j].score) >= rank(ranked(all)[k].score));
}

/// The hits that a list of results stands for.
pub open spec fn hits_of(v: Seq<(String, u32)>) -> Seq<Hit> {
    Seq::new(v.len(), |i: int| Hit { id: v[i].0@, score: v[i].1 })
}

fn nan(bits: u32) -> (r: bool)
    ensures
        r == is_nan(bits),
{
    bits % 0x8000_0000 > 0x7f80_0000
}

pub(crate) fn rank_of(bits: u32) -> (r: i64)
    ensures
        r == rank(bits),
{
    if bits < 0x8000_0000 {
        bits as i64
    } else {
        -((bits - 0x8000_0000) as i64)
    }
}

fn score_passes(score: u32, min_score: Option<u32>) -> (r: bool)
    ensures
        r == passes(score, min_score),
{
    match min_score {
        Some(min) => !nan(score) && !nan(min) && rank_of(score) >= rank_of(min),
        None => !nan(score),
    }
}

/// Puts a hit behind every hit that scores at least as much.
fn insert_hit(hits: &mut Vec<(String, u32)>, hit: (String, u32))
    ensures
        hits_of(final(hits)@) == inserted(hits_of(old(hits)@), Hit { id: hit.0@, score: hit.1 }),
{
    let ghost before = hits_of(hits@);
    let ghost h = Hit { id: hit.0@, score: hit.1 };
    let mut i: usize = hits.len();
    assert(before.take(before.len() as int) =~= before);
    assert(before.skip(before.len() as int) =~= Seq::empty());
    assert(inserted(before, h) =~= inserted(before.take(i as int), h) + before.skip(i as int));
    while i > 0 && rank_of(hits[i - 1].1) < rank_of(hit.1)
        invariant
            i <= hits@.len(),
            hits_of(hits@) == before,
            h == (Hit { id: hit.0@, score: hit.1 }),
            inserted(before, h) == inserted(before.take(i as int), h) + before.skip(i as int),
        decreases i,
    {
        assert(before[i - 1].score == hits@[i - 1].1);
        assert(before.take(i as int).drop_last() =~= before.take(i - 1));
        assert(before.take(i as int).last() == before[i - 1]);
        assert(inserted(before.take(i as int), h) =~= inserted(before.take(i - 1), h).push(
            before[i - 1],
        ));
        assert(inserted(before.take(i - 1), h).push(before[i - 1]) + before.skip(i as int)
            =~= inserted(before.take(i - 1), h) + before.skip(i - 1));
        i -= 1;
    }
    proof {
        if i > 0 {
            assert(before[i - 1].score == hits@[i - 1].1);
            assert(before.take(i as int).last() == before[i - 1]);
        }
        assert(inserted(before.take(i as int), h) =~= before.take(i as int).push(h));
    }
    hits.insert(i, hit);
    assert(hits_of(hits@) =~= before.take(i as int).push(h) + before.skip(i as int));
}

/// Vectors by chunk.
pub struct InMemoryVectorStore {
    vectors: Vec<EmbeddingVector>,
    index: StringHashMap<usize>,
    dimension: usize,
}

impl View for InMemoryVectorStore {
    type V = StoreModel;

    closed spec fn view(&self) -> StoreModel {
        StoreModel { vectors: self.vectors@, dimension: self.dimension as nat }
    }
}

impl InMemoryVectorStore {
    #[verifier::type_invariant]
    spec fn well_formed(self) -> bool {
        &&& indexes(self.index@, self.vectors@)
        &&& self@.fits()
    }

    /// An empty store.
    pub fn new() -> (r: Self)
        ensures
            r@.vectors.len() == 0,
            r@.dimension == 0,
    {
        InMemoryVectorStore { vectors: Vec::new(), index: StringHashMap::new(), dimension: 0 }
    }

    /// An empty store with room for some vectors.
    pub fn with_capacity(capacity: usize) -> (r: Self)
        ensures
            r@.vectors.len() == 0,
            r@.dimension == 0,
    {
        InMemoryVectorStore {
            vectors: Vec::with_capacity(capacity),
            index: StringHashMap::with_capacity(capacity),
            dimension: 0,
        }
    }

    /// A store of given vectors; of two vectors for one chunk, the later one is found.
    pub(crate) fn from_vectors(vectors: Vec<EmbeddingVector>, dimension: usize) -> (r: Self)
        requires
            (StoreModel { vectors: vectors@, dimension: dimension as nat }).fits(),
        ensures
            r@.vectors == vectors@,
            r@.dimension == dimension,
    {
        let mut index: StringHashMap<usize> = StringHashMap::new();
        let mut i: usize = 0;
        while i < vectors.len()
            invariant
                i <= vectors@.len(),
                indexes(index@, vectors@.take(i as int)),
            decreases vectors@.len() - i,
        {
            index.insert(vectors[i].chunk_id.clone(), i);
            i += 1;
            assert(vectors@.take(i as int).drop_last() =~= vectors@.take(i - 1));
        }
        assert(vectors@.take(vectors@.len() as int) =~= vectors@);
        InMemoryVectorStore { vectors, index, dimension }
    }

    /// The dimension of the vectors; 0 as long as none was added.
    pub fn dimension(&self) -> (r: usize)
        ensures
            r == self@.dimension,
    {
        self.dimension
    }

    /// How many vectors there are.
    pub fn len(&self) -> (r: usize)
        ensures
            r == self@.vectors.len(),
            self@.fits(),
    {
        proof {
            use_type_invariant(self);
        }
        self.vectors.len()
    }

    /// Whether there are no vectors.
    pub fn is_empty(&self) -> (r: bool)
        ensures
            r == (self@.vectors.len() == 0),
    {
        self.vectors.len() == 0
    }

    /// Takes everything out.
    pub fn clear(&mut self)
        ensures
            final(self)@.vectors.len() == 0,
            final(self)@.dimension == 0,
    {
        *self = InMemoryVectorStore::new();
    }

    /// The vectors, in order.
    pub fn vectors(&self) -> (r: &Vec<EmbeddingVector>)
        ensures
            r@ == self@.vectors,
            self@.fits(),
    {
        proof {
            use_type_invariant(self);
        }
        &self.vectors
    }

    /// The vector of a chunk.
    pub fn find(&self, chunk_id: &str) -> (r: Option<&EmbeddingVector>)
        ensures
            ({
                let i = last_position(self@.vectors, chunk_id@);
                match r {
                    Some(v) => i >= 0 && *v == self@.vectors[i],
                    None => i < 0,
                }
            }),
    {
        proof {
            use_type_invariant(self);
            lemma_last_position(self.vectors@, chunk_id@);
        }
        match self.index.get(chunk_id) {
            Some(i) => {
                assert(self.index@.contains_key(chunk_id@));
                Some(&self.vectors[*i])
            },
            None => {
                assert(!self.index@.contains_key(chunk_id@));
                None
            },
        }
    }

    /// Puts one vector in the place of the vector that its chunk has, or at the end.
    fn place(&mut self, dimension: usize, v: EmbeddingVector)
        requires
            v.sound(),
            v.dimension == dimension,
            old(self)@.dimension == dimension || old(self)@.dimension == 0,
        ensures
            final(self)@.vectors == placed(old(self)@.vectors, v),
            final(self)@.dimension == dimension,
    {
        let mut whole = InMemoryVectorStore::new();
        std::mem::swap(self, &mut whole);
        proof {
            use_type_invariant(&whole);
            lemma_last_position(whole.vectors@, v.chunk_id@);
        }
        let ghost given = whole@;
        assert(given.fits());
        let InMemoryVectorStore { vectors, index, dimension: _ } = whole;
        let mut vectors = vectors;
        let mut index = index;
        let ghost before = vectors@;
        let ghost id = v.chunk_id@;
        assert(index@.contains_key(id) == (last_position(before, id) >= 0));
        let at: Option<usize> = match index.get(v.chunk_id.as_str()) {
            Some(i) => Some(*i),
            None => None,
        };
        match at {
            Some(i) => {
                vectors.set(i, v);
                proof {
                    assert forall|k: Seq<char>| #[trigger]
                        index@.contains_key(k) == (last_position(vectors@, k) >= 0)
                            && (index@.contains_key(k) ==> index@[k] == last_position(
                            vectors@,
                            k,
                        )) by {
                        lemma_same_ids(vectors@, before, k);
                    }
                }
            },
            None => {
                index.insert(v.chunk_id.clone(), vectors.len());
                vectors.push(v);
                assert(vectors@.drop_last() =~= before);
                assert(indexes(index@, vectors@));
            },
        }
        proof {
            assert forall|i: int| 0 <= i < vectors@.len() implies (#[trigger] vectors@[i]).sound() && (
            vectors@[i].dimension == dimension || vectors@[i].dimension == 0) by {
                if i < before.len() {
                    assert(given.vectors[i].sound());
                }
            }
        }
        *self = InMemoryVectorStore { vectors, index, dimension };
    }

    /// Adds vectors in order, up to the first whose dimension differs from that of the store or
    /// from the number of its components.
    pub fn add(&mut self, vectors: Vec<EmbeddingVector>) -> (r: VdbResult<()>)
        ensures
            final(self)@ == added(old(self)@, vectors@).0,
            match r {
                Ok(_) => added(old(self)@, vectors@).1 is None,
                Err(e) => added(old(self)@, vectors@).1 is Some && e.is_plain(
                    VdbErrorKind::InvalidInput,
                    added(old(self)@, vectors@).1->0,
                ),
            },
            final(self)@.fits(),
            distinct_ids(old(self)@.vectors) ==> distinct_ids(final(self)@.vectors),
            old(self)@.dimension != 0 ==> final(self)@.dimension == old(self)@.dimension,
            old(self)@.dimension != 0 && old(self)@.uniform() ==> final(self)@.uniform(),
    {
        let ghost start = self@;
        let ghost all = vectors@;
        proof {
            use_type_invariant(&*self);
            law_adding_keeps_the_store_in_order(start, all);
        }
        assert(all.take(0) =~= Seq::empty());
        for vector in it: vectors
            invariant
                it.seq() == all,
                added(start, all.take(it.index() as int)) == (self@, None::<Seq<char>>),
                start == old(self)@,
                start.fits(),
                all == vectors@,
        {
            proof {
                law_adding_keeps_the_store_in_order(start, all);
            }
            let ghost i = it.index() as int;
            assert(vector == all[i]);
            assert(all.take(i + 1).drop_last() =~= all.take(i));
            assert(all.take(i + 1).last() == vector);
            let expected: usize = if self.dimension == 0 {
                vector.dimension
            } else {
                self.dimension
            };
            if vector.dimension != expected {
                let mut m = "Dimension mismatch: expected ".to_owned();
                let a = text::decimal_text(self.dimension as u64);
                m.append(a.as_str());
                m.append(", got ");
                let b = text::decimal_text(vector.dimension as u64);
                m.append(b.as_str());
                proof {
                    lemma_added_stops(start, all, i + 1);
                }
                return Err(VdbError::invalid_input(m.as_str()));
            }
            if vector.vector.len() != vector.dimension {
                let mut m = "Vector length ".to_owned();
                let a = text::decimal_text(vector.vector.len() as u64);
                m.append(a.as_str());
                m.append(" does not match declared dimension ");
                let b = text::decimal_text(vector.dimension as u64);
                m.append(b.as_str());
                proof {
                    use_type_invariant(&*self);
                    lemma_added_stops(start, all, i + 1);
                }
                self.dimension = expected;
                return Err(VdbError::invalid_input(m.as_str()));
            }
            self.place(expected, vector);
        }
        assert(all.take(all.len() as int) =~= all);
        Ok(())
    }

    /// Whether a search has anything to compare with a query of this length: `Ok(false)` if the
    /// store is empty or nothing is asked for.
    pub fn check_query(&self, query_len: usize, top_k: usize) -> (r: VdbResult<bool>)
        ensures
            match r {
                Ok(b) => b == (self@.vectors.len() > 0 && top_k > 0) && (b ==> query_len
                    == self@.dimension),
                Err(e) => self@.vectors.len() > 0 && top_k > 0 && query_len != self@.dimension
                    && e.is_plain(
                    VdbErrorKind::InvalidInput,
                    query_mismatch(self@.dimension, query_len as nat),
                ),
            },
    {
        if self.vectors.len() == 0 || top_k == 0 {
            return Ok(false);
        }
        if query_len != self.dimension {
            let mut m = "Query dimension mismatch: expected ".to_owned();
            let a = text::decimal_text(self.dimension as u64);
            m.append(a.as_str());
            m.append(", got ");
            let b = text::decimal_text(query_len as u64);
            m.append(b.as_str());
            return Err(VdbError::invalid_input(m.as_str()));
        }
        Ok(true)
    }

    /// The best hits for a query, given whether its norm is 0 and the score of each vector, in the
    /// order of the store: those that reach the least score, by falling score, at most `top_k`.
    pub fn search(
        &self,
        query_len: usize,
        query_is_zero: bool,
        scores: &Vec<u32>,
        top_k: usize,
        min_score: Option<u32>,
    ) -> (r: VdbResult<Vec<(String, u32)>>)
        requires
            self@.vectors.len() > 0 && top_k > 0 && query_len == self@.dimension && !query_is_zero
                ==> scores@.len() == self@.vectors.len(),
        ensures
            match r {
                Ok(hits) => {
                    &&& self@.vectors.len() > 0 && top_k > 0 ==> query_len == self@.dimension
                    &&& hits_of(hits@) == found_hits(
                        self@,
                        query_is_zero,
                        scores@,
                        top_k as nat,
                        min_score,
                    )
                },
                Err(e) => self@.vectors.len() > 0 && top_k > 0 && query_len != self@.dimension
                    && e.is_plain(
                    VdbErrorKind::InvalidInput,
                    query_mismatch(self@.dimension, query_len as nat),
                ),
            },
    {
        let mut hits: Vec<(String, u32)> = Vec::new();
        assert(hits_of(hits@) =~= Seq::empty());
        match self.check_query(query_len, top_k) {
            Err(e) => {
                return Err(e);
            },
            Ok(false) => {
                return Ok(hits);
            },
            Ok(true) => {},
        }
        if query_is_zero {
            return Ok(hits);
        }
        let n: usize = self.vectors.len();
        let mut i: usize = 0;
        while i < n
            invariant
                i <= n == self.vectors@.len(),
                scores@.len() == n,
                self@.vectors == self.vectors@,
                hits_of(hits@) == ranked(
                    passing(self.vectors@.take(i as int), scores@.take(i as int), min_score),
                ),
            decreases n - i,
        {
            assert(self.vectors@.take(i + 1).drop_last() =~= self.vectors@.take(i as int));
            assert(scores@.take(i + 1).drop_last() =~= scores@.take(i as int));
            let ghost seen = passing(
                self.vectors@.take(i as int),
                scores@.take(i as int),
                min_score,
            );
            if score_passes(scores[i], min_score) {
                let ghost h = Hit { id: self.vectors@[i as int].chunk_id@, score: scores@[i as int] };
                assert(seen.push(h).drop_last() =~= seen);
                insert_hit(&mut hits, (self.vectors[i].chunk_id.clone(), scores[i]));
            }
            i += 1;
        }
        assert(self.vectors@.take(n as int) =~= self.vectors@);
        assert(scores@.take(n as int) =~= scores@);
        let ghost full = hits_of(hits@);
        hits.truncate(top_k);
        assert(hits_of(hits@) =~= first_hits(full, top_k as nat));
        Ok(hits)
    }
}

} // verus!
