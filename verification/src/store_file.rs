//! The file format of the vector store.
//!
//! A file holds the bytes `ATVS`, then the version, the number of vectors and their dimension, then
//! the vectors. A vector is the length of its chunk's identifier, the identifier in UTF-8 and its
//! components. All numbers are 32 bits wide, the lowest byte first.

use vstd::prelude::*;
use vstd::string::*;

use crate::text;
use crate::vector_store::{
    EmbeddingVector, InMemoryVectorStore, StoreModel, VdbError, VdbErrorKind, VdbResult,
};

verus! {

/// The version of the format.
pub const VERSION: u32 = 1;

/// The four bytes of a number, the lowest first; of a larger number, those of its last 32 bits.
pub open spec fn le_bytes(n: nat) -> Seq<u8> {
    seq![
        (n % 256) as u8,
        (n / 256 % 256) as u8,
        (n / 65536 % 256) as u8,
        (n / 16777216 % 256) as u8,
    ]
}

/// The number in the four bytes at `at`.
pub open spec fn le_number(bytes: Seq<u8>, at: int) -> nat {
    (bytes[at] + 256 * bytes[at + 1] + 65536 * bytes[at + 2] + 16777216 * bytes[at + 3]) as nat
}

/// The bytes that a file starts with.
pub open spec fn magic() -> Seq<u8> {
    seq![65u8, 84u8, 86u8, 83u8]
}

/// What a file says of a vector.
pub struct VectorModel {
    pub id: Seq<char>,
    pub components: Seq<u32>,
}

/// What a file says of a stored vector.
pub open spec fn vector_model(v: EmbeddingVector) -> VectorModel {
    VectorModel { id: v.chunk_id@, components: v.vector@ }
}

/// What a file says of stored vectors.
pub open spec fn vector_models(vectors: Seq<EmbeddingVector>) -> Seq<VectorModel> {
    Seq::new(vectors.len(), |i: int| vector_model(vectors[i]))
}

/// The bytes of components.
pub open spec fn component_bytes(components: Seq<u32>) -> Seq<u8>
    decreases components.len(),
{
    if components.len() == 0 {
        Seq::empty()
    } else {
        component_bytes(components.drop_last()) + le_bytes(components.last() as nat)
    }
}

/// The bytes of a vector.
pub open spec fn vector_bytes(v: VectorModel) -> Seq<u8> {
    let id = vstd::utf8::encode_utf8(v.id);
    le_bytes(id.len()) + id + component_bytes(v.components)
}

/// The bytes of vectors.
pub open spec fn vectors_bytes(vectors: Seq<VectorModel>) -> Seq<u8>
    decreases vectors.len(),
{
    if vectors.len() == 0 {
        Seq::empty()
    } else {
        vectors_bytes(vectors.drop_last()) + vector_bytes(vectors.last())
    }
}

/// The bytes before the vectors.
pub open spec fn header_bytes(count: nat, dimension: nat) -> Seq<u8> {
    magic() + le_bytes(VERSION as nat) + le_bytes(count) + le_bytes(dimension)
}

/// The bytes of a file.
pub open spec fn file_bytes(vectors: Seq<VectorModel>, dimension: nat) -> Seq<u8> {
    header_bytes(vectors.len(), dimension) + vectors_bytes(vectors)
}

/// What is wrong with a file, and whether it is that the file ends too early.
pub struct Fault {
    pub message: Seq<char>,
    pub cut_off: bool,
}

/// The file ends where something should stand.
pub open spec fn ends_early(message: Seq<char>) -> Fault {
    Fault { message, cut_off: true }
}

/// The file holds something that it should not.
pub open spec fn holds_wrong(message: Seq<char>) -> Fault {
    Fault { message, cut_off: false }
}

/// A store that is read from what a store wrote holds what that one held; one cut off anywhere is
/// refused for what the system says of it, and the error names the path.
pub proof fn law_saved_store_is_loaded(
    r: VdbResult<InMemoryVectorStore>,
    m: StoreModel,
    n: int,
    path: Seq<char>,
    reason: Seq<char>,
)
    requires
        saveable(m),
        ({
            let bytes = file_bytes(vector_models(m.vectors), m.dimension);
            0 <= n <= bytes.len() && is_loaded(r, bytes.take(n), path, reason)
        }),
    ensures
        ({
            let bytes = file_bytes(vector_models(m.vectors), m.dimension);
            &&& n == bytes.len() ==> (match r {
                Ok(store) => vector_models(store@.vectors) == vector_models(m.vectors)
                    && store@.dimension == m.dimension,
                Err(_) => false,
            })
            &&& n < bytes.len() ==> r is Err
        }),
{
    let bytes = file_bytes(vector_models(m.vectors), m.dimension);
    law_load_undoes_save(m);
    assert(bytes.take(bytes.len() as int) =~= bytes);
}

/// The cause that comes with a fault: what the system says of a read that ends too early.
pub open spec fn cause_of(fault: Fault, reason: Seq<char>) -> Option<Seq<char>> {
    if fault.cut_off {
        Some(reason)
    } else {
        None
    }
}

/// What the system says of a read beyond the end of a file.
pub open spec fn end_of_file() -> Seq<char> {
    "failed to fill whole buffer"@
}

/// What comes of reading a store from bytes behind which no more can be read, for a reason.
pub open spec fn is_loaded(
    r: VdbResult<InMemoryVectorStore>,
    bytes: Seq<u8>,
    path: Seq<char>,
    reason: Seq<char>,
) -> bool {
    match r {
        Ok(store) => read_file(bytes) == Ok::<(Seq<VectorModel>, nat), Fault>(
            (vector_models(store@.vectors), store@.dimension),
        ) && store@.fits() && store@.uniform(),
        Err(e) => read_file(bytes) is Err && e.is_at(
            VdbErrorKind::Storage,
            read_file(bytes)->Err_0.message,
            path,
            "load",
            cause_of(read_file(bytes)->Err_0, reason),
        ),
    }
}

/// The vector at `at`, and where the next one starts; or what is wrong with it.
pub open spec fn read_vector(bytes: Seq<u8>, at: int, dimension: nat) -> Result<
    (VectorModel, int),
    Fault,
> {
    if at + 4 > bytes.len() {
        Err(ends_early("Failed to read chunk_id length"@))
    } else {
        let n = le_number(bytes, at);
        if at + 4 + n > bytes.len() {
            Err(ends_early("Failed to read chunk_id"@))
        } else {
            let id = bytes.subrange(at + 4, at + 4 + n);
            let data = at + 4 + n;
            if !vstd::utf8::valid_utf8(id) {
                Err(holds_wrong("Invalid chunk_id UTF-8: "@ + text::utf8_error_text(id)))
            } else if data + 4 * dimension > bytes.len() {
                Err(ends_early("Failed to read vector data"@))
            } else {
                Ok(
                    (
                        VectorModel {
                            id: vstd::utf8::decode_utf8(id),
                            components: Seq::new(
                                dimension,
                                |k: int| le_number(bytes, data + 4 * k) as u32,
                            ),
                        },
                        data + 4 * dimension,
                    ),
                )
            }
        }
    }
}

/// The next `count` vectors from `at` on; or what is wrong with the first that cannot be read.
pub open spec fn read_vectors(bytes: Seq<u8>, at: int, count: nat, dimension: nat) -> Result<
    Seq<VectorModel>,
    Fault,
>
    decreases count,
{
    if count == 0 {
        Ok(Seq::empty())
    } else {
        match read_vector(bytes, at, dimension) {
            Err(e) => Err(e),
            Ok((v, next)) => match read_vectors(bytes, next, (count - 1) as nat, dimension) {
                Err(e) => Err(e),
                Ok(rest) => Ok(seq![v] + rest),
            },
        }
    }
}

/// The text in the first four bytes, or question marks.
pub open spec fn magic_text(bytes: Seq<u8>) -> Seq<char> {
    if vstd::utf8::valid_utf8(bytes) {
        vstd::utf8::decode_utf8(bytes)
    } else {
        "????"@
    }
}

/// What a file holds: the vectors and their dimension; or what is wrong with it.
pub open spec fn read_file(bytes: Seq<u8>) -> Result<(Seq<VectorModel>, nat), Fault> {
    if bytes.len() < 4 {
        Err(ends_early("Failed to read magic bytes"@))
    } else if bytes.take(4) != magic() {
        Err(
            holds_wrong(
                "Invalid file format: expected magic "@ + text::debug_text("ATVS"@) + ", got "@
                    + text::debug_text(magic_text(bytes.take(4))),
            ),
        )
    } else if bytes.len() < 8 {
        Err(ends_early("Failed to read version"@))
    } else if le_number(bytes, 4) != VERSION {
        Err(
            holds_wrong(
                "Unsupported version: expected "@ + text::decimal(VERSION as nat) + ", got "@
                    + text::decimal(le_number(bytes, 4)),
            ),
        )
    } else if bytes.len() < 12 {
        Err(ends_early("Failed to read count"@))
    } else if bytes.len() < 16 {
        Err(ends_early("Failed to read dimension"@))
    } else {
        match read_vectors(bytes, 16, le_number(bytes, 8), le_number(bytes, 12)) {
            Ok(vectors) => Ok((vectors, le_number(bytes, 12))),
            Err(e) => Err(e),
        }
    }
}

/// The vectors fit the format: their number, their dimension and the lengths of their identifiers
/// take 32 bits, and each has as many components as the dimension says.
pub open spec fn storable(vectors: Seq<VectorModel>, dimension: nat) -> bool {
    &&& vectors.len() < 0x1_0000_0000
    &&& dimension < 0x1_0000_0000
    &&& forall|i: int|
        0 <= i < vectors.len() ==> (#[trigger] vectors[i]).components.len() == dimension
            && vstd::utf8::encode_utf8(vectors[i].id).len() < 0x1_0000_0000
}

proof fn lemma_le_roundtrip(n: nat, bytes: Seq<u8>, at: int)
    requires
        n < 0x1_0000_0000,
        0 <= at,
        at + 4 <= bytes.len(),
        bytes.subrange(at, at + 4) == le_bytes(n),
    ensures
        le_number(bytes, at) == n,
{
    let b = bytes.subrange(at, at + 4);
    assert(b[0] == bytes[at] && b[1] == bytes[at + 1] && b[2] == bytes[at + 2] && b[3] == bytes[at
        + 3]);
    assert(b[0] as nat == n % 256);
    assert(b[1] as nat == n / 256 % 256);
    assert(b[2] as nat == n / 65536 % 256);
    assert(b[3] as nat == n / 16777216 % 256);
    assert(n == n % 256 + 256 * (n / 256 % 256) + 65536 * (n / 65536 % 256) + 16777216 * (n
        / 16777216 % 256)) by (nonlinear_arith)
        requires
            n < 0x1_0000_0000,
    ;
}

proof fn lemma_component_bytes(components: Seq<u32>)
    ensures
        component_bytes(components).len() == 4 * components.len(),
        forall|k: int|
            0 <= k < components.len() ==> #[trigger] component_bytes(components).subrange(
                4 * k,
                4 * k + 4,
            ) == le_bytes(components[k] as nat),
    decreases components.len(),
{
    if components.len() > 0 {
        let front = components.drop_last();
        lemma_component_bytes(front);
        let all = component_bytes(components);
        assert forall|k: int| 0 <= k < components.len() implies #[trigger] all.subrange(
            4 * k,
            4 * k + 4,
        ) == le_bytes(components[k] as nat) by {
            if k < front.len() {
                assert(all.subrange(4 * k, 4 * k + 4) =~= component_bytes(front).subrange(
                    4 * k,
                    4 * k + 4,
                ));
            } else {
                assert(all.subrange(4 * k, 4 * k + 4) =~= le_bytes(components[k] as nat));
            }
        }
    }
}

proof fn lemma_read_vector(bytes: Seq<u8>, at: int, v: VectorModel, dimension: nat)
    requires
        0 <= at,
        at + vector_bytes(v).len() <= bytes.len(),
        bytes.subrange(at, at + vector_bytes(v).len()) == vector_bytes(v),
        v.components.len() == dimension,
        vstd::utf8::encode_utf8(v.id).len() < 0x1_0000_0000,
    ensures
        read_vector(bytes, at, dimension) == Ok::<(VectorModel, int), Fault>(
            (v, at + vector_bytes(v).len()),
        ),
{
    let id = vstd::utf8::encode_utf8(v.id);
    let n = id.len();
    let own = vector_bytes(v);
    let data = component_bytes(v.components);
    lemma_component_bytes(v.components);
    assert(own =~= le_bytes(n) + id + data);
    assert(bytes.subrange(at, at + 4) =~= le_bytes(n)) by {
        assert(bytes.subrange(at, at + 4) =~= own.subrange(0, 4));
    }
    lemma_le_roundtrip(n, bytes, at);
    assert(bytes.subrange(at + 4, at + 4 + n) =~= id) by {
        assert(bytes.subrange(at + 4, at + 4 + n) =~= own.subrange(4, 4 + n as int));
    }
    vstd::utf8::encode_utf8_valid_utf8(v.id);
    vstd::utf8::encode_utf8_decode_utf8(v.id);
    let read = Seq::new(dimension, |k: int| le_number(bytes, at + 4 + n + 4 * k) as u32);
    assert forall|k: int| 0 <= k < dimension implies read[k] == v.components[k] by {
        let here = at + 4 + n + 4 * k;
        assert(bytes.subrange(here, here + 4) =~= data.subrange(4 * k, 4 * k + 4)) by {
            assert(bytes.subrange(here, here + 4) =~= own.subrange(
                4 + n + 4 * k,
                4 + n + 4 * k + 4,
            ));
            assert(own.subrange(4 + n + 4 * k, 4 + n + 4 * k + 4) =~= data.subrange(
                4 * k,
                4 * k + 4,
            ));
        }
        lemma_le_roundtrip(v.components[k] as nat, bytes, here);
    }
    assert(read =~= v.components);
}

proof fn lemma_vectors_bytes_first(vectors: Seq<VectorModel>)
    requires
        vectors.len() > 0,
    ensures
        vectors_bytes(vectors) == vector_bytes(vectors[0]) + vectors_bytes(vectors.drop_first()),
    decreases vectors.len(),
{
    if vectors.len() == 1 {
        assert(vectors.drop_last() =~= Seq::empty());
        assert(vectors.drop_first() =~= Seq::empty());
        assert(vectors_bytes(vectors) =~= vector_bytes(vectors[0]) + vectors_bytes(
            vectors.drop_first(),
        ));
    } else {
        let front = vectors.drop_last();
        lemma_vectors_bytes_first(front);
        assert(front.drop_first() =~= vectors.drop_first().drop_last());
        assert(vectors_bytes(vectors) =~= vector_bytes(vectors[0]) + vectors_bytes(
            vectors.drop_first(),
        ));
    }
}

proof fn lemma_read_vectors(bytes: Seq<u8>, at: int, vectors: Seq<VectorModel>, dimension: nat)
    requires
        0 <= at,
        at + vectors_bytes(vectors).len() <= bytes.len(),
        bytes.subrange(at, at + vectors_bytes(vectors).len()) == vectors_bytes(vectors),
        forall|i: int|
            0 <= i < vectors.len() ==> (#[trigger] vectors[i]).components.len() == dimension
                && vstd::utf8::encode_utf8(vectors[i].id).len() < 0x1_0000_0000,
    ensures
        read_vectors(bytes, at, vectors.len(), dimension) == Ok::<Seq<VectorModel>, Fault>(
            vectors,
        ),
    decreases vectors.len(),
{
    if vectors.len() == 0 {
        assert(vectors =~= Seq::empty());
    } else {
        let v = vectors[0];
        let rest = vectors.drop_first();
        lemma_vectors_bytes_first(vectors);
        let own = vectors_bytes(vectors);
        let n = vector_bytes(v).len();
        assert(bytes.subrange(at, at + n) =~= own.subrange(0, n as int));
        assert(own.subrange(0, n as int) =~= vector_bytes(v));
        lemma_read_vector(bytes, at, v, dimension);
        assert(bytes.subrange(at + n, at + n + vectors_bytes(rest).len()) =~= own.subrange(
            n as int,
            own.len() as int,
        ));
        assert(own.subrange(n as int, own.len() as int) =~= vectors_bytes(rest));
        lemma_read_vectors(bytes, at + n, rest, dimension);
        assert(seq![v] + rest =~= vectors);
    }
}

/// Reading the bytes that were written gives back the vectors and the dimension.
pub proof fn law_read_undoes_write(vectors: Seq<VectorModel>, dimension: nat)
    requires
        storable(vectors, dimension),
    ensures
        read_file(file_bytes(vectors, dimension)) == Ok::<(Seq<VectorModel>, nat), Fault>(
            (vectors, dimension),
        ),
{
    let bytes = file_bytes(vectors, dimension);
    let n = vectors.len();
    assert(bytes.take(4) =~= magic());
    assert(bytes.subrange(4, 8) =~= le_bytes(VERSION as nat));
    lemma_le_roundtrip(VERSION as nat, bytes, 4);
    assert(bytes.subrange(8, 12) =~= le_bytes(n));
    lemma_le_roundtrip(n, bytes, 8);
    assert(bytes.subrange(12, 16) =~= le_bytes(dimension));
    lemma_le_roundtrip(dimension, bytes, 12);
    assert(bytes.subrange(16, 16 + vectors_bytes(vectors).len() as int) =~= vectors_bytes(vectors));
    lemma_read_vectors(bytes, 16, vectors, dimension);
}

proof fn lemma_read_vector_cut(bytes: Seq<u8>, at: int, dimension: nat, n: int)
    requires
        0 <= at <= n <= bytes.len(),
        read_vector(bytes, at, dimension) is Ok,
    ensures
        ({
            let (v, next) = read_vector(bytes, at, dimension)->Ok_0;
            let cut = read_vector(bytes.take(n), at, dimension);
            if next <= n {
                cut == Ok::<(VectorModel, int), Fault>((v, next))
            } else {
                cut is Err && cut->Err_0.cut_off
            }
        }),
{
    let short = bytes.take(n);
    if at + 4 <= n {
        let len = le_number(bytes, at);
        assert(le_number(short, at) == len);
        if at + 4 + len <= n {
            assert(short.subrange(at + 4, at + 4 + len) =~= bytes.subrange(at + 4, at + 4 + len));
            let data = at + 4 + len;
            if data + 4 * dimension <= n {
                assert(Seq::new(dimension, |k: int| le_number(short, data + 4 * k) as u32)
                    =~= Seq::new(dimension, |k: int| le_number(bytes, data + 4 * k) as u32));
            }
        }
    }
}

proof fn lemma_read_vectors_cut(
    bytes: Seq<u8>,
    at: int,
    vectors: Seq<VectorModel>,
    dimension: nat,
    n: int,
)
    requires
        0 <= at <= n < at + vectors_bytes(vectors).len() <= bytes.len(),
        bytes.subrange(at, at + vectors_bytes(vectors).len()) == vectors_bytes(vectors),
        forall|i: int|
            0 <= i < vectors.len() ==> (#[trigger] vectors[i]).components.len() == dimension
                && vstd::utf8::encode_utf8(vectors[i].id).len() < 0x1_0000_0000,
    ensures
        ({
            let cut = read_vectors(bytes.take(n), at, vectors.len(), dimension);
            cut is Err && cut->Err_0.cut_off
        }),
    decreases vectors.len(),
{
    let v = vectors[0];
    let rest = vectors.drop_first();
    lemma_vectors_bytes_first(vectors);
    let own = vectors_bytes(vectors);
    let len = vector_bytes(v).len();
    assert(bytes.subrange(at, at + len) =~= own.subrange(0, len as int));
    assert(own.subrange(0, len as int) =~= vector_bytes(v));
    lemma_read_vector(bytes, at, v, dimension);
    lemma_read_vector_cut(bytes, at, dimension, n);
    if at + len <= n {
        assert(bytes.subrange(at + len, at + len + vectors_bytes(rest).len()) =~= own.subrange(
            len as int,
            own.len() as int,
        ));
        assert(own.subrange(len as int, own.len() as int) =~= vectors_bytes(rest));
        lemma_read_vectors_cut(bytes, at + len, rest, dimension, n);
    }
}

/// A file that was cut off anywhere is refused, and for that reason.
pub proof fn law_cut_off_files_are_refused(vectors: Seq<VectorModel>, dimension: nat, n: int)
    requires
        storable(vectors, dimension),
        0 <= n < file_bytes(vectors, dimension).len(),
    ensures
        ({
            let cut = read_file(file_bytes(vectors, dimension).take(n));
            cut is Err && cut->Err_0.cut_off
        }),
{
    let bytes = file_bytes(vectors, dimension);
    let short = bytes.take(n);
    if n >= 4 {
        assert(short.take(4) =~= magic());
    }
    if n >= 8 {
        assert(bytes.subrange(4, 8) =~= le_bytes(VERSION as nat));
        lemma_le_roundtrip(VERSION as nat, bytes, 4);
        assert(le_number(short, 4) == le_number(bytes, 4));
    }
    if n >= 16 {
        assert(bytes.subrange(8, 12) =~= le_bytes(vectors.len()));
        lemma_le_roundtrip(vectors.len(), bytes, 8);
        assert(le_number(short, 8) == le_number(bytes, 8));
        assert(bytes.subrange(12, 16) =~= le_bytes(dimension));
        lemma_le_roundtrip(dimension, bytes, 12);
        assert(le_number(short, 12) == le_number(bytes, 12));
        assert(bytes.subrange(16, 16 + vectors_bytes(vectors).len() as int) =~= vectors_bytes(
            vectors,
        ));
        lemma_read_vectors_cut(bytes, 16, vectors, dimension, n);
    }
}

/// A store fits the format: every vector has its dimension, and the number of vectors, the dimension
/// and the lengths of the identifiers take 32 bits.
pub open spec fn saveable(m: StoreModel) -> bool {
    &&& m.fits()
    &&& m.uniform()
    &&& m.vectors.len() < 0x1_0000_0000
    &&& m.dimension < 0x1_0000_0000
    &&& forall|i: int|
        0 <= i < m.vectors.len() ==> vstd::utf8::encode_utf8(
            (#[trigger] m.vectors[i]).chunk_id@,
        ).len() < 0x1_0000_0000
}

/// What a store wrote is read back as it was, and a part of it that ends early is refused.
pub proof fn law_load_undoes_save(m: StoreModel)
    requires
        saveable(m),
    ensures
        ({
            let bytes = file_bytes(vector_models(m.vectors), m.dimension);
            &&& read_file(bytes) == Ok::<(Seq<VectorModel>, nat), Fault>(
                (vector_models(m.vectors), m.dimension),
            )
            &&& forall|n: int|
                0 <= n < bytes.len() ==> read_file(#[trigger] bytes.take(n)) is Err
        }),
{
    let models = vector_models(m.vectors);
    assert forall|i: int| 0 <= i < models.len() implies (#[trigger] models[i]).components.len()
        == m.dimension && vstd::utf8::encode_utf8(models[i].id).len() < 0x1_0000_0000 by {
        assert(m.vectors[i].sound());
        assert(m.vectors[i].dimension == m.dimension);
    }
    law_read_undoes_write(models, m.dimension);
    let bytes = file_bytes(models, m.dimension);
    assert forall|n: int| 0 <= n < bytes.len() implies read_file(#[trigger] bytes.take(n)) is Err by {
        law_cut_off_files_are_refused(models, m.dimension, n);
    }
}

/// A file that starts with other bytes is refused as one of another format, and a file of another
/// version is refused.
pub proof fn law_foreign_files_are_refused(bytes: Seq<u8>)
    ensures
        bytes.len() >= 4 && bytes.take(4) != magic() ==> read_file(bytes) is Err
            && !read_file(bytes)->Err_0.cut_off && "Invalid file format"@.is_prefix_of(
            read_file(bytes)->Err_0.message,
        ),
        bytes.len() >= 8 && bytes.take(4) == magic() && le_number(bytes, 4) != VERSION
            ==> read_file(bytes) is Err && !read_file(bytes)->Err_0.cut_off
            && "Unsupported version"@.is_prefix_of(read_file(bytes)->Err_0.message),
{
    reveal_strlit("Invalid file format");
    reveal_strlit("Invalid file format: expected magic ");
    reveal_strlit("Unsupported version");
    reveal_strlit("Unsupported version: expected ");
}

/// Writes the last 32 bits of a number, the lowest byte first.
fn push_number(out: &mut Vec<u8>, n: u64)
    ensures
        final(out)@ == old(out)@ + le_bytes(n as nat),
{
    out.push((n % 256) as u8);
    out.push((n / 256 % 256) as u8);
    out.push((n / 65536 % 256) as u8);
    out.push((n / 16777216 % 256) as u8);
    assert(out@ =~= old(out)@ + le_bytes(n as nat));
}

/// Reads the number at a position.
fn number_at(bytes: &Vec<u8>, at: usize) -> (n: u32)
    requires
        at + 4 <= bytes@.len(),
    ensures
        n == le_number(bytes@, at as int),
{
    let total: usize = bytes.len();
    (bytes[at] as u32) + 256 * (bytes[at + 1] as u32) + 65536 * (bytes[at + 2] as u32) + 16777216 * (
    bytes[at + 3] as u32)
}

/// A part of a byte sequence.
fn bytes_between(bytes: &Vec<u8>, from: usize, to: usize) -> (r: Vec<u8>)
    requires
        from <= to <= bytes@.len(),
    ensures
        r@ == bytes@.subrange(from as int, to as int),
{
    let mut r: Vec<u8> = Vec::new();
    let mut i: usize = from;
    while i < to
        invariant
            from <= i <= to <= bytes@.len(),
            r@ == bytes@.subrange(from as int, i as int),
        decreases to - i,
    {
        r.push(bytes[i]);
        i += 1;
        assert(r@ =~= bytes@.subrange(from as int, i as int));
    }
    r
}

/// Adds the bytes of a text.
fn push_text(out: &mut Vec<u8>, s: &str)
    ensures
        final(out)@ == old(out)@ + s.spec_bytes(),
{
    let b = s.as_bytes();
    let n: usize = b.len();
    let ghost before = out@;
    let mut i: usize = 0;
    assert(out@ =~= before + b@.take(0));
    while i < n
        invariant
            i <= n == b@.len(),
            out@ == before + b@.take(i as int),
        decreases n - i,
    {
        out.push(b[i]);
        i += 1;
        assert(out@ =~= before + b@.take(i as int));
    }
    assert(b@.take(n as int) =~= b@);
}

/// What was found at a path: nothing, a file that cannot be opened, with the reason, the bytes of a
/// file, or the bytes up to where it could not be read any more, with the reason.
pub enum FileContent {
    Missing,
    Unreadable(String),
    Bytes(Vec<u8>),
    Broken(Vec<u8>, String),
}

/// The failure to read from a file that ends too early.
fn cut_off(message: &str, path: &str, reason: &str) -> (r: VdbError)
    ensures
        r.is_at(
            VdbErrorKind::Storage,
            message@,
            path@,
            "load",
            cause_of(ends_early(message@), reason@),
        ),
{
    VdbError::storage(message, path, "load").with_source(reason)
}

impl InMemoryVectorStore {
    /// The bytes of the file that holds this store.
    pub fn encode(&self) -> (out: Vec<u8>)
        ensures
            out@ == file_bytes(vector_models(self@.vectors), self@.dimension),
    {
        let vectors = self.vectors();
        let ghost models = vector_models(vectors@);
        let mut out: Vec<u8> = Vec::new();
        out.push(65);
        out.push(84);
        out.push(86);
        out.push(83);
        assert(out@ =~= magic());
        push_number(&mut out, VERSION as u64);
        push_number(&mut out, vectors.len() as u64);
        push_number(&mut out, self.dimension() as u64);
        let ghost head = out@;
        let mut i: usize = 0;
        assert(out@ =~= head + vectors_bytes(models.take(0)));
        while i < vectors.len()
            invariant
                i <= vectors@.len(),
                models == vector_models(vectors@),
                out@ == head + vectors_bytes(models.take(i as int)),
            decreases vectors@.len() - i,
        {
            let v = &vectors[i];
            let ghost before = out@;
            let ghost id = vstd::utf8::encode_utf8(v.chunk_id@);
            assert(models.take(i + 1).drop_last() =~= models.take(i as int));
            push_number(&mut out, text::byte_len(v.chunk_id.as_str()) as u64);
            push_text(&mut out, v.chunk_id.as_str());
            let ghost so_far = out@;
            assert(so_far =~= before + (le_bytes(id.len()) + id));
            let mut k: usize = 0;
            assert(out@ =~= so_far + component_bytes(v.vector@.take(0)));
            while k < v.vector.len()
                invariant
                    k <= v.vector@.len(),
                    out@ == so_far + component_bytes(v.vector@.take(k as int)),
                decreases v.vector@.len() - k,
            {
                assert(v.vector@.take(k + 1).drop_last() =~= v.vector@.take(k as int));
                let ghost mid = out@;
                push_number(&mut out, v.vector[k] as u64);
                k += 1;
                assert(out@ =~= so_far + component_bytes(v.vector@.take(k as int)));
            }
            assert(v.vector@.take(v.vector@.len() as int) =~= v.vector@);
            assert(models[i as int] == vector_model(*v));
            assert(out@ =~= before + vector_bytes(models[i as int]));
            assert(models.take(i + 1).last() == models[i as int]);
            i += 1;
            assert(out@ =~= head + vectors_bytes(models.take(i as int)));
        }
        assert(models.take(models.len() as int) =~= models);
        out
    }

    /// Makes a store of what was found at a path: nothing, a file that cannot be opened, or the
    /// bytes of a file.
    pub fn load(path: &str, file: FileContent) -> (r: VdbResult<Self>)
        ensures
            match file {
                FileContent::Missing => r is Err && r->Err_0.is_at(
                    VdbErrorKind::Io,
                    "File not found: "@ + path@,
                    path@,
                    "load",
                    None,
                ),
                FileContent::Unreadable(reason) => r is Err && r->Err_0.is_at(
                    VdbErrorKind::Io,
                    "Failed to open file: "@ + path@,
                    path@,
                    "load",
                    Some(reason@),
                ),
                FileContent::Bytes(bytes) => is_loaded(r, bytes@, path@, end_of_file()),
                FileContent::Broken(bytes, reason) => is_loaded(r, bytes@, path@, reason@),
            },
    {
        match file {
            FileContent::Missing => {
                let mut m = "File not found: ".to_owned();
                m.append(path);
                Err(VdbError::io(m.as_str(), path, "load"))
            },
            FileContent::Unreadable(reason) => {
                let mut m = "Failed to open file: ".to_owned();
                m.append(path);
                Err(VdbError::io(m.as_str(), path, "load").with_source(reason.as_str()))
            },
            FileContent::Bytes(bytes) => Self::decode(&bytes, path),
            FileContent::Broken(bytes, reason) => Self::read_store(
                &bytes,
                path,
                reason.as_str(),
            ),
        }
    }

    /// Reads a store from the bytes of the file at `path`.
    pub fn decode(bytes: &Vec<u8>, path: &str) -> (r: VdbResult<Self>)
        ensures
            is_loaded(r, bytes@, path@, end_of_file()),
    {
        Self::read_store(bytes, path, "failed to fill whole buffer")
    }

    /// Reads a store from bytes behind which no more can be read, for a reason.
    fn read_store(bytes: &Vec<u8>, path: &str, reason: &str) -> (r: VdbResult<Self>)
        ensures
            is_loaded(r, bytes@, path@, reason@),
    {
        let total: usize = bytes.len();
        if total < 4 {
            return Err(cut_off("Failed to read magic bytes", path, reason));
        }
        let head = bytes_between(bytes, 0, 4);
        assert(head@ =~= bytes@.take(4));
        if !(head[0] == 65 && head[1] == 84 && head[2] == 86 && head[3] == 83) {
            let mut m = "Invalid file format: expected magic ".to_owned();
            let expected = text::debug_of("ATVS");
            m.append(expected.as_str());
            m.append(", got ");
            assert(head@[0] != magic()[0] || head@[1] != magic()[1] || head@[2] != magic()[2]
                || head@[3] != magic()[3]);
            let ghost given = head@;
            let got = match text::text_from_utf8(head) {
                Ok(s) => {
                    proof {
                        vstd::utf8::encode_utf8_decode_utf8(s@);
                    }
                    s
                },
                Err(_) => "????".to_owned(),
            };
            let shown = text::debug_of(got.as_str());
            m.append(shown.as_str());
            return Err(VdbError::storage(m.as_str(), path, "load"));
        }
        assert(bytes@.take(4) =~= magic());
        if total < 8 {
            return Err(cut_off("Failed to read version", path, reason));
        }
        let version: u32 = number_at(bytes, 4);
        if version != VERSION {
            let mut m = "Unsupported version: expected ".to_owned();
            let expected = text::decimal_text(VERSION as u64);
            m.append(expected.as_str());
            m.append(", got ");
            let got = text::decimal_text(version as u64);
            m.append(got.as_str());
            return Err(VdbError::storage(m.as_str(), path, "load"));
        }
        if total < 12 {
            return Err(cut_off("Failed to read count", path, reason));
        }
        let count: u32 = number_at(bytes, 8);
        if total < 16 {
            return Err(cut_off("Failed to read dimension", path, reason));
        }
        let dimension: u32 = number_at(bytes, 12);
        let ghost goal = read_vectors(bytes@, 16, count as nat, dimension as nat);
        let mut vectors: Vec<EmbeddingVector> = Vec::new();
        let mut at: usize = 16;
        let mut left: u32 = count;
        assert(vector_models(vectors@) =~= Seq::empty());
        proof {
            if goal is Ok {
                assert(Seq::<VectorModel>::empty() + goal->Ok_0 =~= goal->Ok_0);
            }
        }
        while left > 0
            invariant
                total == bytes@.len(),
                at <= total,
                goal == read_vectors(bytes@, 16, count as nat, dimension as nat),
                goal == match read_vectors(bytes@, at as int, left as nat, dimension as nat) {
                    Ok(rest) => Ok::<Seq<VectorModel>, Fault>(vector_models(vectors@) + rest),
                    Err(e) => Err(e),
                },
                read_file(bytes@) == match goal {
                    Ok(all) => Ok::<(Seq<VectorModel>, nat), Fault>((all, dimension as nat)),
                    Err(e) => Err(e),
                },
                forall|i: int|
                    0 <= i < vectors@.len() ==> (#[trigger] vectors@[i]).sound()
                        && vectors@[i].dimension == dimension,
            decreases left,
        {
            let ghost step = read_vector(bytes@, at as int, dimension as nat);
            let ghost done = vector_models(vectors@);
            match Self::decode_vector(bytes, at, dimension) {
                Err((m, true)) => {
                    return Err(cut_off(m.as_str(), path, reason));
                },
                Err((m, false)) => {
                    return Err(VdbError::storage(m.as_str(), path, "load"));
                },
                Ok((v, next)) => {
                    let ghost model = vector_model(v);
                    proof {
                        let rest = read_vectors(
                            bytes@,
                            next as int,
                            (left - 1) as nat,
                            dimension as nat,
                        );
                        if rest is Ok {
                            assert(done + (seq![model] + rest->Ok_0) =~= done.push(model)
                                + rest->Ok_0);
                        }
                    }
                    vectors.push(v);
                    assert(vector_models(vectors@) =~= done.push(model));
                    at = next;
                },
            }
            left -= 1;
        }
        assert(vector_models(vectors@) + Seq::<VectorModel>::empty() =~= vector_models(vectors@));
        Ok(InMemoryVectorStore::from_vectors(vectors, dimension as usize))
    }

    /// Reads the vector at a position, and says where the next one starts; or what is wrong with it,
    /// and whether the bytes end too early.
    fn decode_vector(bytes: &Vec<u8>, at: usize, dimension: u32) -> (r: Result<
        (EmbeddingVector, usize),
        (String, bool),
    >)
        requires
            at <= bytes@.len(),
        ensures
            match r {
                Ok((v, next)) => v.sound() && v.dimension == dimension && next <= bytes@.len() && read_vector(
                    bytes@,
                    at as int,
                    dimension as nat,
                ) == Ok::<(VectorModel, int), Fault>((vector_model(v), next as int)),
                Err((m, early)) => read_vector(bytes@, at as int, dimension as nat) == Err::<
                    (VectorModel, int),
                    Fault,
                >(Fault { message: m@, cut_off: early }),
            },
    {
        let total: usize = bytes.len();
        if total - at < 4 {
            return Err(("Failed to read chunk_id length".to_owned(), true));
        }
        let n: u32 = number_at(bytes, at);
        if ((total - at - 4) as u64) < n as u64 {
            return Err(("Failed to read chunk_id".to_owned(), true));
        }
        let data: usize = at + 4 + n as usize;
        let id_bytes = bytes_between(bytes, at + 4, data);
        let ghost given = id_bytes@;
        let id = match text::text_from_utf8(id_bytes) {
            Ok(s) => s,
            Err(e) => {
                let mut m = "Invalid chunk_id UTF-8: ".to_owned();
                m.append(e.as_str());
                return Err((m, false));
            },
        };
        proof {
            vstd::utf8::encode_utf8_decode_utf8(id@);
        }
        if ((total - data) as u64) < 4 * (dimension as u64) {
            return Err(("Failed to read vector data".to_owned(), true));
        }
        let ghost components = Seq::new(
            dimension as nat,
            |k: int| le_number(bytes@, data + 4 * k) as u32,
        );
        let mut vector: Vec<u32> = Vec::new();
        let mut k: usize = 0;
        let m: usize = dimension as usize;
        while k < m
            invariant
                k <= m == dimension,
                total == bytes@.len(),
                data + 4 * m <= total,
                components == Seq::new(
                    dimension as nat,
                    |k: int| le_number(bytes@, data + 4 * k) as u32,
                ),
                vector@ == components.take(k as int),
            decreases m - k,
        {
            vector.push(number_at(bytes, data + 4 * k));
            k += 1;
            assert(vector@ =~= components.take(k as int));
        }
        assert(vector@ =~= components);
        let next: usize = data + 4 * m;
        let v = EmbeddingVector::new(id.as_str(), vector);
        Ok((v, next))
    }
}

} // verus!
