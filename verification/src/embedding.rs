//! Embedding the chunks of an index, batch by batch.

use vstd::prelude::*;
use vstd::string::*;

use crate::model::{CodeChunk, ParseResult};
use crate::text;
use crate::vector_store::{EmbeddingVector, InMemoryVectorStore, StoreModel, VdbResult};

verus! {

/// Something that turns texts into vectors, given as the bits of their components.
pub trait EmbeddingService: Send + Sync {
    fn embed(&self, texts: &Vec<String>) -> VdbResult<Vec<Vec<u32>>>;

    fn dimension(&self) -> usize;
}

/// A stand-in for an embedding model, with vectors of a fixed dimension.
pub struct MockEmbeddingService {
    dimension: usize,
}

impl MockEmbeddingService {
    /// The dimension of the vectors.
    pub closed spec fn spec_dimension(&self) -> usize {
        self.dimension
    }

    /// A service of a given dimension.
    pub fn new(dimension: usize) -> (r: Self)
        ensures
            r.spec_dimension() == dimension,
    {
        MockEmbeddingService { dimension }
    }

    /// The dimension of the vectors.
    pub fn dimension(&self) -> (r: usize)
        ensures
            r == self.spec_dimension(),
    {
        self.dimension
    }
}

/// What embedding a batch of texts gave.
pub type Outcome = VdbResult<Vec<Vec<u32>>>;

/// `incoming` pairs the chunks of a batch with their vectors, as far as both reach.
pub open spec fn paired(
    incoming: Seq<EmbeddingVector>,
    batch: Seq<CodeChunk>,
    vectors: Seq<Vec<u32>>,
) -> bool {
    &&& incoming.len() == if batch.len() <= vectors.len() {
        batch.len()
    } else {
        vectors.len()
    }
    &&& forall|i: int|
        0 <= i < incoming.len() ==> {
            &&& (#[trigger] incoming[i]).chunk_id@ == batch[i].id@
            &&& incoming[i].vector == vectors[i]
            &&& incoming[i].dimension == vectors[i]@.len()
        }
}

/// Puts the vectors of a batch into the store, and says whether the whole batch is embedded: the
/// embedding has to succeed and the store has to take every vector.
pub fn embed_batch(
    store: &mut InMemoryVectorStore,
    batch: &Vec<CodeChunk>,
    outcome: Outcome,
) -> (r: (bool, Ghost<Seq<EmbeddingVector>>))
    ensures
        match outcome {
            Ok(vectors) => {
                &&& paired(r.1@, batch@, vectors@)
                &&& final(store)@ == crate::vector_store::added(old(store)@, r.1@).0
                &&& r.0 == (crate::vector_store::added(old(store)@, r.1@).1 is None)
            },
            Err(_) => !r.0 && final(store)@ == old(store)@,
        },
{
    match outcome {
        Err(_) => (false, Ghost(Seq::empty())),
        Ok(vectors) => {
            let ghost all = vectors@;
            let mut incoming: Vec<EmbeddingVector> = Vec::new();
            let limit: usize = batch.len();
            for vector in it: vectors
                invariant
                    it.seq() == all,
                    limit == batch@.len(),
                    incoming@.len() == if it.index() <= limit {
                        it.index() as int
                    } else {
                        limit as int
                    },
                    forall|i: int|
                        0 <= i < incoming@.len() ==> {
                            &&& (#[trigger] incoming@[i]).chunk_id@ == batch@[i].id@
                            &&& incoming@[i].vector == all[i]
                            &&& incoming@[i].dimension == all[i]@.len()
                        },
            {
                let i: usize = incoming.len();
                if i < limit {
                    incoming.push(EmbeddingVector::new(batch[i].id.as_str(), vector));
                }
            }
            let ghost given = incoming@;
            let done = match store.add(incoming) {
                Ok(_) => true,
                Err(_) => false,
            };
            (done, Ghost(given))
        },
    }
}

/// How many chunks the first `k` batches hold.
pub open spec fn consumed(total: nat, size: nat, k: nat) -> nat
    decreases k,
{
    if k == 0 {
        0
    } else {
        let before = consumed(total, size, (k - 1) as nat);
        if before + size <= total {
            before + size
        } else {
            total
        }
    }
}

/// How far embedding has come.
pub struct Progress {
    pub store: StoreModel,
    pub embedded: nat,
    pub errors: nat,
}

/// The progress after some batches, given what embedding each gave and the vectors that were put
/// into the store for it. A batch counts as embedded or as failed as a whole.
pub open spec fn progress(
    total: nat,
    size: nat,
    outcomes: Seq<Outcome>,
    puts: Seq<Seq<EmbeddingVector>>,
) -> Progress
    decreases outcomes.len(),
{
    if outcomes.len() == 0 {
        Progress {
            store: StoreModel { vectors: Seq::empty(), dimension: 0 },
            embedded: 0,
            errors: 0,
        }
    } else {
        let k = (outcomes.len() - 1) as nat;
        let before = progress(total, size, outcomes.drop_last(), puts.drop_last());
        let count = (consumed(total, size, k + 1) - consumed(total, size, k)) as nat;
        match outcomes.last() {
            Err(_) => Progress { errors: before.errors + count, ..before },
            Ok(_) => {
                let (store, refused) = crate::vector_store::added(before.store, puts.last());
                if refused is None {
                    Progress { store, embedded: before.embedded + count, errors: before.errors }
                } else {
                    Progress { store, embedded: before.embedded, errors: before.errors + count }
                }
            },
        }
    }
}

/// The service gave this outcome for these texts.
pub open spec fn answered<E: EmbeddingService>(
    service: &E,
    texts: Seq<Seq<char>>,
    outcome: Outcome,
) -> bool {
    exists|t: Vec<String>|
        text::views(t@) == texts && #[trigger] call_ensures(E::embed, (service, &t), outcome)
}

/// A batch is as large as was asked for, and never empty.
pub proof fn law_batches_are_as_large_as_asked(batch_size: usize)
    ensures
        effective_size(batch_size) > 0,
        batch_size > 0 ==> effective_size(batch_size) == batch_size,
{
}

/// Each chunk is embedded by its own text.
pub proof fn law_chunks_are_embedded_by_their_text(chunks: Seq<CodeChunk>, i: int)
    requires
        0 <= i < chunks.len(),
    ensures
        source_texts(chunks).len() == chunks.len(),
        source_texts(chunks)[i] == chunks[i].source_text@,
{
}

/// The source texts of chunks.
pub open spec fn source_texts(chunks: Seq<CodeChunk>) -> Seq<Seq<char>> {
    Seq::new(chunks.len(), |i: int| chunks[i].source_text@)
}

/// The `k`-th batch of chunks.
pub open spec fn batch_of(chunks: Seq<CodeChunk>, size: nat, k: nat) -> Seq<CodeChunk> {
    chunks.subrange(
        consumed(chunks.len(), size, k) as int,
        consumed(chunks.len(), size, k + 1) as int,
    )
}

/// Each outcome is the answer for its batch, and the vectors put into the store are those of the
/// batch.
pub open spec fn faithful<E: EmbeddingService>(
    service: &E,
    chunks: Seq<CodeChunk>,
    size: nat,
    outcomes: Seq<Outcome>,
    puts: Seq<Seq<EmbeddingVector>>,
) -> bool {
    &&& puts.len() == outcomes.len()
    &&& forall|k: int|
        0 <= k < outcomes.len() ==> {
            &&& answered(
                service,
                source_texts(batch_of(chunks, size, k as nat)),
                #[trigger] outcomes[k],
            )
            &&& outcomes[k] is Ok ==> paired(
                puts[k],
                batch_of(chunks, size, k as nat),
                outcomes[k]->Ok_0@,
            )
        }
}

/// What an embedding run gave.
pub struct EmbeddingRun {
    /// Chunks embedded.
    pub embedded: usize,
    /// Chunks whose batch failed.
    pub errors: usize,
    /// The dimension of the vectors.
    pub dimension: usize,
    /// The vectors.
    pub store: InMemoryVectorStore,
}

impl EmbeddingRun {
    /// Whether there is anything to write to disk.
    pub fn worth_saving(&self) -> (r: bool)
        ensures
            r == (self.embedded > 0),
    {
        self.embedded > 0
    }
}

/// The batch size to use: 32 if none is given.
pub open spec fn effective_size(batch_size: usize) -> nat {
    if batch_size == 0 {
        32
    } else {
        batch_size as nat
    }
}

proof fn lemma_consumed(total: nat, size: nat, k: nat)
    ensures
        consumed(total, size, k) <= total,
        k > 0 ==> consumed(total, size, (k - 1) as nat) <= consumed(total, size, k),
    decreases k,
{
    if k > 0 {
        lemma_consumed(total, size, (k - 1) as nat);
    }
}

/// Every chunk of the batches done counts as embedded or as failed.
pub proof fn law_every_chunk_counts(
    total: nat,
    size: nat,
    outcomes: Seq<Outcome>,
    puts: Seq<Seq<EmbeddingVector>>,
)
    ensures
        progress(total, size, outcomes, puts).embedded + progress(
            total,
            size,
            outcomes,
            puts,
        ).errors == consumed(total, size, outcomes.len()),
    decreases outcomes.len(),
{
    if outcomes.len() > 0 {
        law_every_chunk_counts(total, size, outcomes.drop_last(), puts.drop_last());
        lemma_consumed(total, size, outcomes.len());
    }
}

/// The batches cover the chunks in order, each as large as is asked for, but for what is left at the
/// end.
pub proof fn law_batches_cover_the_chunks(chunks: Seq<CodeChunk>, size: nat, k: nat)
    ensures
        consumed(chunks.len(), size, k) == if k * size <= chunks.len() {
            k * size
        } else {
            chunks.len()
        },
        batch_of(chunks, size, k).len() <= size,
        (k + 1) * size <= chunks.len() ==> batch_of(chunks, size, k) == chunks.subrange(
            (k * size) as int,
            ((k + 1) * size) as int,
        ),
        k * size <= chunks.len() < (k + 1) * size ==> batch_of(chunks, size, k) == chunks.skip(
            (k * size) as int,
        ),
{
    lemma_consumed_by_size(chunks.len(), size, k);
    lemma_consumed_by_size(chunks.len(), size, k + 1);
    lemma_consumed(chunks.len(), size, k + 1);
    assert((k + 1) * size == k * size + size) by (nonlinear_arith);
    if k * size <= chunks.len() < (k + 1) * size {
        assert(batch_of(chunks, size, k) =~= chunks.skip((k * size) as int));
    }
}

proof fn lemma_consumed_by_size(total: nat, size: nat, k: nat)
    ensures
        consumed(total, size, k) == if k * size <= total {
            k * size
        } else {
            total
        },
    decreases k,
{
    if k > 0 {
        lemma_consumed_by_size(total, size, (k - 1) as nat);
        let before = (k - 1) * size;
        assert(k * size == before + size) by (nonlinear_arith)
            requires
                k > 0,
                before == (k - 1) * size,
        ;
    } else {
        assert(k * size == 0) by (nonlinear_arith)
            requires
                k == 0,
        ;
    }
}

/// A batch that could not be embedded counts as failed and leaves the store as it is; one whose
/// vectors are all taken counts as embedded; one of whose vectors is refused counts as failed.
pub proof fn law_batches_count_as_a_whole(
    total: nat,
    size: nat,
    outcomes: Seq<Outcome>,
    puts: Seq<Seq<EmbeddingVector>>,
    outcome: Outcome,
    put: Seq<EmbeddingVector>,
)
    requires
        outcomes.len() == puts.len(),
    ensures
        ({
            let before = progress(total, size, outcomes, puts);
            let after = progress(total, size, outcomes.push(outcome), puts.push(put));
            let count = consumed(total, size, outcomes.len() + 1) - consumed(
                total,
                size,
                outcomes.len(),
            );
            let refused = crate::vector_store::added(before.store, put).1 is Some;
            &&& outcome is Err ==> after.store == before.store
            &&& outcome is Ok ==> after.store == crate::vector_store::added(before.store, put).0
            &&& outcome is Err || refused ==> after.errors == before.errors + count
                && after.embedded == before.embedded
            &&& outcome is Ok && !refused ==> after.embedded == before.embedded + count
                && after.errors == before.errors
        }),
{
    lemma_consumed(total, size, outcomes.len() + 1);
    assert(outcomes.push(outcome).drop_last() =~= outcomes);
    assert(puts.push(put).drop_last() =~= puts);
}

/// Once a batch is embedded with vectors of the store's dimension, each of its chunks is found with
/// the vector that was made of it, as long as no later chunk of the batch has its identifier.
pub proof fn law_chunks_are_found_with_their_vectors(
    store: StoreModel,
    batch: Seq<CodeChunk>,
    vectors: Seq<Vec<u32>>,
    incoming: Seq<EmbeddingVector>,
    dimension: nat,
    i: int,
)
    requires
        paired(incoming, batch, vectors),
        batch.len() == vectors.len(),
        store.dimension == dimension || store.dimension == 0,
        forall|k: int| 0 <= k < vectors.len() ==> (#[trigger] vectors[k])@.len() == dimension,
        0 <= i < batch.len(),
        forall|k: int| i < k < batch.len() ==> (#[trigger] batch[k]).id@ != batch[i].id@,
    ensures
        ({
            let (after, refused) = crate::vector_store::added(store, incoming);
            let at = crate::vector_store::last_position(after.vectors, batch[i].id@);
            &&& refused is None
            &&& 0 <= at < after.vectors.len()
            &&& after.vectors[at].chunk_id@ == batch[i].id@
            &&& after.vectors[at].vector == vectors[i]
        }),
{
    assert forall|k: int| 0 <= k < incoming.len() implies (#[trigger] incoming[k]).dimension
        == dimension && incoming[k].vector@.len() == dimension by {
        assert(incoming[k].vector == vectors[k]);
    }
    assert(incoming[i].chunk_id@ == batch[i].id@);
    assert forall|k: int| i < k < incoming.len() implies (#[trigger] incoming[k]).chunk_id@
        != incoming[i].chunk_id@ by {
        assert(incoming[k].chunk_id@ == batch[k].id@);
    }
    crate::vector_store::law_fitting_vectors_are_taken(store, incoming, dimension, i);
}

/// Lists the chunks of parsed files.
fn collect_chunks(files: &Vec<ParseResult>) -> (r: Vec<CodeChunk>)
    ensures
        r@ == crate::model::all_chunks(files@),
{
    let mut r: Vec<CodeChunk> = Vec::new();
    let mut i: usize = 0;
    assert(files@.take(0) =~= Seq::empty());
    while i < files.len()
        invariant
            i <= files@.len(),
            r@ == crate::model::all_chunks(files@.take(i as int)),
        decreases files@.len() - i,
    {
        let ghost before = r@;
        let chunks = &files[i].chunks;
        assert(files@.take(i + 1).drop_last() =~= files@.take(i as int));
        let mut j: usize = 0;
        assert(r@ =~= before + chunks@.take(0));
        while j < chunks.len()
            invariant
                j <= chunks@.len(),
                r@ == before + chunks@.take(j as int),
            decreases chunks@.len() - j,
        {
            r.push(chunks[j].clone());
            j += 1;
            assert(r@ =~= before + chunks@.take(j as int));
        }
        assert(chunks@.take(chunks@.len() as int) =~= chunks@);
        i += 1;
    }
    assert(files@.take(files@.len() as int) =~= files@);
    r
}

/// Copies the texts and the chunks of a batch.
fn take_batch(chunks: &Vec<CodeChunk>, from: usize, to: usize) -> (r: (Vec<String>, Vec<CodeChunk>))
    requires
        from <= to <= chunks@.len(),
    ensures
        r.1@ == chunks@.subrange(from as int, to as int),
        text::views(r.0@) == source_texts(r.1@),
{
    let mut texts: Vec<String> = Vec::new();
    let mut batch: Vec<CodeChunk> = Vec::new();
    let mut i: usize = from;
    assert(text::views(texts@) =~= source_texts(batch@));
    while i < to
        invariant
            from <= i <= to <= chunks@.len(),
            batch@ == chunks@.subrange(from as int, i as int),
            text::views(texts@) == source_texts(batch@),
        decreases to - i,
    {
        let ghost before = text::views(texts@);
        let ghost had = batch@;
        texts.push(chunks[i].source_text.clone());
        batch.push(chunks[i].clone());
        i += 1;
        assert(batch@ =~= chunks@.subrange(from as int, i as int));
        assert(text::views(texts@) =~= before.push(chunks@[i - 1].source_text@));
        assert(source_texts(batch@) =~= source_texts(had).push(chunks@[i - 1].source_text@));
    }
    (texts, batch)
}

/// Embeds every chunk of the parsed files. Without a service every chunk counts as failed.
pub fn run_embedding<E: EmbeddingService>(
    service: Option<&E>,
    files: &Vec<ParseResult>,
    total_chunks: usize,
    batch_size: usize,
) -> (r: EmbeddingRun)
    requires
        total_chunks == crate::model::all_chunks(files@).len(),
    ensures
        r.embedded + r.errors == total_chunks,
        match service {
            None => r.embedded == 0 && r.dimension == 0 && r.store@.vectors.len() == 0,
            Some(s) => {
                let chunks = crate::model::all_chunks(files@);
                if chunks.len() == 0 {
                    r.embedded == 0 && r.dimension == 0 && r.store@.vectors.len() == 0
                } else {
                    &&& call_ensures(E::dimension, (s,), r.dimension)
                    &&& exists|outcomes: Seq<Outcome>, puts: Seq<Seq<EmbeddingVector>>|
                        {
                            &&& #[trigger] faithful(
                                s,
                                chunks,
                                effective_size(batch_size),
                                outcomes,
                                puts,
                            )
                            &&& consumed(
                                chunks.len(),
                                effective_size(batch_size),
                                outcomes.len(),
                            ) == chunks.len()
                            &&& progress(
                                chunks.len(),
                                effective_size(batch_size),
                                outcomes,
                                puts,
                            ) == (Progress {
                                store: r.store@,
                                embedded: r.embedded as nat,
                                errors: r.errors as nat,
                            })
                        }
                }
            },
        },
{
    let s = match service {
        None => {
            return EmbeddingRun {
                embedded: 0,
                errors: total_chunks,
                dimension: 0,
                store: InMemoryVectorStore::new(),
            };
        },
        Some(s) => s,
    };
    let chunks = collect_chunks(files);
    if chunks.len() == 0 {
        return EmbeddingRun {
            embedded: 0,
            errors: 0,
            dimension: 0,
            store: InMemoryVectorStore::new(),
        };
    }
    let total: usize = chunks.len();
    let size: usize = if batch_size == 0 {
        32
    } else {
        batch_size
    };
    let mut store = InMemoryVectorStore::new();
    let mut embedded: usize = 0;
    let mut errors: usize = 0;
    let mut at: usize = 0;
    let ghost mut outcomes: Seq<Outcome> = Seq::empty();
    let ghost mut puts: Seq<Seq<EmbeddingVector>> = Seq::empty();
    assert(store@.vectors =~= Seq::empty());
    while at < total
        invariant
            total == chunks@.len(),
            size > 0,
            size == effective_size(batch_size),
            at <= total,
            at == consumed(total as nat, size as nat, outcomes.len()),
            faithful(s, chunks@, size as nat, outcomes, puts),
            progress(total as nat, size as nat, outcomes, puts) == (Progress {
                store: store@,
                embedded: embedded as nat,
                errors: errors as nat,
            }),
            embedded + errors == at,
        decreases total - at,
    {
        let to: usize = if total - at <= size {
            total
        } else {
            at + size
        };
        let ghost k = outcomes.len();
        assert(to == consumed(total as nat, size as nat, (k + 1) as nat));
        let (texts, batch) = take_batch(&chunks, at, to);
        assert(batch@ == batch_of(chunks@, size as nat, k as nat));
        let outcome = s.embed(&texts);
        let ghost given = outcome;
        assert(answered(s, source_texts(batch@), outcome));
        let count: usize = to - at;
        let (done, put) = embed_batch(&mut store, &batch, outcome);
        if done {
            embedded = embedded + count;
        } else {
            errors = errors + count;
        }
        proof {
            let more = outcomes.push(given);
            let more_puts = puts.push(put@);
            assert(more.drop_last() =~= outcomes);
            assert(more_puts.drop_last() =~= puts);
            assert forall|j: int| 0 <= j < more.len() implies ({
                &&& answered(
                    s,
                    source_texts(batch_of(chunks@, size as nat, j as nat)),
                    #[trigger] more[j],
                )
                &&& more[j] is Ok ==> paired(
                    more_puts[j],
                    batch_of(chunks@, size as nat, j as nat),
                    more[j]->Ok_0@,
                )
            }) by {
                if j < k {
                    assert(more[j] == outcomes[j]);
                    assert(more_puts[j] == puts[j]);
                }
            }
            outcomes = more;
            puts = more_puts;
        }
        at = to;
    }
    let dimension: usize = s.dimension();
    EmbeddingRun { embedded, errors, dimension, store }
}

} // verus!
