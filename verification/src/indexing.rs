use vstd::prelude::*;

verus! {

/// `width` little-endian bytes of `n` (the low `8 * width` bits).
pub open spec fn le_bytes(n: nat, width: nat) -> Seq<u8>
    decreases width,
{
    if width == 0 {
        Seq::empty()
    } else {
        seq![(n % 256) as u8] + le_bytes(n / 256, (width - 1) as nat)
    }
}

/// The values one after another, four little-endian bytes each.
pub open spec fn u32s_le(values: Seq<u32>) -> Seq<u8>
    decreases values.len(),
{
    if values.len() == 0 {
        Seq::empty()
    } else {
        le_bytes(values[0] as nat, 4) + u32s_le(values.drop_first())
    }
}

/// The stored form of an embedding vector whose components have the given
/// bit patterns: the component count as eight little-endian bytes, then each
/// component's four bytes, little-endian.
pub open spec fn embedding_blob(components: Seq<u32>) -> Seq<u8> {
    le_bytes(components.len(), 8) + u32s_le(components)
}

/// The error of `bincode`'s serializer.
#[verifier::external_type_specification]
#[verifier::external_body]
pub struct ExBincodeErrorKind(bincode::ErrorKind);

/// Calls `bincode::serialize` on a slice of `u32`. Claimed: it succeeds and
/// gives `embedding_blob(values)`. `bincode::serialize` uses the fixed-width,
/// little-endian encoding with no size limit and writes into a `Vec`; a slice
/// is a sequence of known length, written as its `u64` length and then each
/// element. None of its error paths (a sequence without length, a size limit,
/// a failing writer, an error of the value's `Serialize`) is open to a slice
/// of `u32`. A component `f32` is written as the little-endian bytes of its
/// bit pattern, so the bytes equal those of the `f32` slice with these bit patterns.
#[verifier::external_body]
fn bincode_serialize_u32s(values: &[u32]) -> (bytes: Result<Vec<u8>, Box<bincode::ErrorKind>>)
    ensures
        bytes is Ok,
        bytes matches Ok(b) ==> b@ == embedding_blob(values@),
{
    bincode::serialize(values)
}

proof fn lemma_le_bytes_len(n: nat, width: nat)
    ensures
        le_bytes(n, width).len() == width,
    decreases width,
{
    if width > 0 {
        lemma_le_bytes_len(n / 256, (width - 1) as nat);
    }
}

proof fn lemma_u32s_le_len(values: Seq<u32>)
    ensures
        u32s_le(values).len() == 4 * values.len(),
    decreases values.len(),
{
    if values.len() > 0 {
        lemma_le_bytes_len(values[0] as nat, 4);
        lemma_u32s_le_len(values.drop_first());
    }
}

/// Serializes an embedding vector, given by the bit patterns of its
/// components, into the blob stored beside its frame.
pub fn encode_embedding(components: &Vec<u32>) -> (blob: Vec<u8>)
    ensures
        blob@ == embedding_blob(components@),
        blob@.len() == 8 + 4 * components@.len(),
{
    proof {
        lemma_le_bytes_len(components@.len(), 8);
        lemma_u32s_le_len(components@);
    }
    match bincode_serialize_u32s(components.as_slice()) {
        Ok(bytes) => bytes,
        Err(_) => {
            assert(false);
            Vec::new()
        },
    }
}

/// The number that `bytes` spell in little-endian order.
pub open spec fn le_value(bytes: Seq<u8>) -> nat
    decreases bytes.len(),
{
    if bytes.len() == 0 {
        0
    } else {
        bytes[0] as nat + 256 * le_value(bytes.drop_first())
    }
}

/// The component count a blob announces in its first eight bytes.
pub open spec fn blob_count(blob: Seq<u8>) -> nat {
    le_value(blob.take(8))
}

/// Whether a blob holds its announced count of components.
pub open spec fn blob_decodes(blob: Seq<u8>) -> bool {
    blob.len() >= 8 && 8 + 4 * blob_count(blob) <= blob.len()
}

/// The components a blob holds: the announced count of four-byte
/// little-endian values after the count (bytes beyond them are ignored).
pub open spec fn blob_components(blob: Seq<u8>) -> Seq<u32> {
    Seq::new(
        blob_count(blob),
        |i: int| le_value(blob.subrange(8 + 4 * i, 12 + 4 * i)) as u32,
    )
}

/// Calls `bincode::deserialize` for a `Vec<u32>`. Claimed: it succeeds
/// exactly when the blob holds the count its first eight bytes announce, and
/// then gives those values. `bincode::deserialize` uses the fixed-width,
/// little-endian encoding with no size limit and allows trailing bytes; a
/// vector is read as its `u64` length and then that many elements, each
/// four bytes, and a read past the end is an error.
#[verifier::external_body]
fn bincode_deserialize_u32s(blob: &[u8]) -> (values: Result<Vec<u32>, Box<bincode::ErrorKind>>)
    ensures
        values is Ok <==> blob_decodes(blob@),
        values matches Ok(v) ==> v@ == blob_components(blob@),
{
    bincode::deserialize::<Vec<u32>>(blob)
}

/// Reads the component bit patterns back from a stored embedding blob; `None`
/// when the blob is shorter than its announced count requires.
pub fn decode_embedding(blob: &Vec<u8>) -> (components: Option<Vec<u32>>)
    ensures
        components is Some <==> blob_decodes(blob@),
        components matches Some(v) ==> v@ == blob_components(blob@),
{
    match bincode_deserialize_u32s(blob.as_slice()) {
        Ok(values) => Some(values),
        Err(_) => None,
    }
}

/// 256 to the power `width`.
pub open spec fn byte_range(width: nat) -> nat
    decreases width,
{
    if width == 0 {
        1
    } else {
        256 * byte_range((width - 1) as nat)
    }
}

proof fn lemma_le_round_trip(n: nat, width: nat)
    requires
        n < byte_range(width),
    ensures
        le_value(le_bytes(n, width)) == n,
    decreases width,
{
    if width > 0 {
        let rest = le_bytes(n / 256, (width - 1) as nat);
        let p = byte_range((width - 1) as nat);
        assert(n / 256 < p) by (nonlinear_arith)
            requires
                n < 256 * p,
        ;
        lemma_le_round_trip(n / 256, (width - 1) as nat);
        assert((seq![(n % 256) as u8] + rest).drop_first() =~= rest);
    }
}

proof fn lemma_u32s_le_chunk(values: Seq<u32>, i: int)
    requires
        0 <= i < values.len(),
    ensures
        u32s_le(values).subrange(4 * i, 4 * i + 4) == le_bytes(values[i] as nat, 4),
    decreases values.len(),
{
    lemma_le_bytes_len(values[0] as nat, 4);
    lemma_u32s_le_len(values.drop_first());
    let head = le_bytes(values[0] as nat, 4);
    let tail = u32s_le(values.drop_first());
    if i == 0 {
        assert((head + tail).subrange(0, 4) =~= head);
    } else {
        lemma_u32s_le_chunk(values.drop_first(), i - 1);
        assert((head + tail).subrange(4 * i, 4 * i + 4) =~= tail.subrange(4 * (i - 1), 4 * (i - 1) + 4));
    }
}

/// Round-trip law: reading back a stored embedding blob gives exactly the
/// components it was written from.
pub proof fn lemma_embedding_round_trip(components: Seq<u32>)
    requires
        components.len() < 0x1_0000_0000_0000_0000,
    ensures
        blob_decodes(embedding_blob(components)),
        blob_components(embedding_blob(components)) == components,
{
    let n = components.len();
    let blob = embedding_blob(components);
    lemma_le_bytes_len(n, 8);
    lemma_u32s_le_len(components);
    assert(byte_range(0) == 1);
    assert(byte_range(1) == 0x100);
    assert(byte_range(2) == 0x1_0000);
    assert(byte_range(3) == 0x100_0000);
    assert(byte_range(4) == 0x1_0000_0000);
    assert(byte_range(5) == 0x100_0000_0000);
    assert(byte_range(6) == 0x1_0000_0000_0000);
    assert(byte_range(7) == 0x100_0000_0000_0000);
    assert(byte_range(8) == 0x1_0000_0000_0000_0000);
    lemma_le_round_trip(n, 8);
    assert(blob.take(8) =~= le_bytes(n, 8));
    assert forall|i: int| 0 <= i < n implies #[trigger] blob_components(blob)[i] == components[i] by {
        lemma_u32s_le_chunk(components, i);
        assert(blob.subrange(8 + 4 * i, 12 + 4 * i) =~= u32s_le(components).subrange(4 * i, 4 * i + 4));
        lemma_le_round_trip(components[i] as nat, 4);
    }
    assert(blob_components(blob) =~= components);
}

/// What becomes of the text read off a newly recorded frame.
#[derive(Debug, Clone, Copy, PartialEq, Eq)]
pub struct IndexingPlan {
    /// Store the text beside the frame.
    pub store_text: bool,
    /// Compute and store an embedding of the text.
    pub embed_text: bool,
}

/// Text is stored when there is any; it is embedded when there is any and
/// the embedding model is loaded.
pub fn plan_indexing(text: &str, model_loaded: bool) -> (plan: IndexingPlan)
    ensures
        plan.store_text == (text@.len() > 0),
        plan.embed_text == (text@.len() > 0 && model_loaded),
{
    let has_text = !text.is_empty();
    IndexingPlan { store_text: has_text, embed_text: has_text && model_loaded }
}

/// How a request to embed a text is answered.
#[derive(Debug, Clone, Copy, PartialEq, Eq)]
pub enum EmbeddingRequest {
    /// The text is empty: its embedding is the empty vector.
    EmptyText,
    /// No model is loaded: the request fails.
    ModelMissing,
    /// Run the model on the text.
    Embed,
}

/// Decides how a request to embed `text` is answered.
pub fn plan_embedding(text: &str, model_loaded: bool) -> (request: EmbeddingRequest)
    ensures
        request == if text@.len() == 0 {
            EmbeddingRequest::EmptyText
        } else if !model_loaded {
            EmbeddingRequest::ModelMissing
        } else {
            EmbeddingRequest::Embed
        },
{
    if text.is_empty() {
        EmbeddingRequest::EmptyText
    } else if !model_loaded {
        EmbeddingRequest::ModelMissing
    } else {
        EmbeddingRequest::Embed
    }
}

} // verus!
