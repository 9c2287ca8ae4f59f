use vstd::prelude::*;
use crate::frame::RgbaFrame;

verus! {

/// Number of one bits of `x`.
pub open spec fn bit_count(x: u8) -> nat
    decreases x,
{
    if x == 0 {
        0
    } else {
        (x % 2) as nat + bit_count(x / 2)
    }
}

/// Hamming distance of two perceptual hashes: the one bits of the byte-wise
/// XOR, over the bytes that both hashes have.
pub open spec fn hamming_distance(a: Seq<u8>, b: Seq<u8>) -> nat
    decreases a.len(),
{
    if a.len() == 0 || b.len() == 0 {
        0
    } else {
        bit_count(a[0] ^ b[0]) + hamming_distance(a.drop_first(), b.drop_first())
    }
}

proof fn lemma_bit_count_zero(x: u8)
    ensures
        bit_count(x) == 0 <==> x == 0,
    decreases x,
{
    if x != 0 {
        if x % 2 == 0 {
            lemma_bit_count_zero(x / 2);
        }
    }
}

proof fn lemma_xor_zero(x: u8, y: u8)
    ensures
        (x ^ y == 0) <==> x == y,
{
    assert((x ^ y == 0) <==> x == y) by (bit_vector);
}

/// Whether two hashes differ in at least one bit over the bytes they share
/// (a Hamming distance of at least one).
pub fn hashes_differ(a: &Vec<u8>, b: &Vec<u8>) -> (differ: bool)
    ensures
        differ == (hamming_distance(a@, b@) >= 1),
{
    let n = if a.len() < b.len() { a.len() } else { b.len() };
    let mut i: usize = 0;
    assert(a@.skip(0) =~= a@);
    assert(b@.skip(0) =~= b@);
    while i < n
        invariant
            n <= a@.len(),
            n <= b@.len(),
            n == a@.len() || n == b@.len(),
            i <= n,
            hamming_distance(a@, b@) == hamming_distance(a@.skip(i as int), b@.skip(i as int)),
        decreases n - i,
    {
        let x = a[i];
        let y = b[i];
        assert(a@.skip(i as int).drop_first() =~= a@.skip(i + 1));
        assert(b@.skip(i as int).drop_first() =~= b@.skip(i + 1));
        proof {
            lemma_bit_count_zero(x ^ y);
            lemma_xor_zero(x, y);
        }
        if x != y {
            return true;
        }
        i = i + 1;
    }
    false
}

/// The frame-deduplication law's base case: a hash is at distance zero from
/// itself.
pub proof fn lemma_hamming_self(h: Seq<u8>)
    ensures
        hamming_distance(h, h) == 0,
    decreases h.len(),
{
    if h.len() > 0 {
        lemma_xor_zero(h[0], h[0]);
        lemma_bit_count_zero(h[0] ^ h[0]);
        lemma_hamming_self(h.drop_first());
    }
}

/// The character of the standard Base64 alphabet for a six-bit value.
pub open spec fn base64_digit(v: int) -> char {
    if v < 26 {
        (65 + v) as char
    } else if v < 52 {
        (97 + (v - 26)) as char
    } else if v < 62 {
        (48 + (v - 52)) as char
    } else if v == 62 {
        '+'
    } else {
        '/'
    }
}

/// Standard Base64 encoding of `bytes` without padding: each group of three
/// bytes gives four characters, a final group of one or two bytes gives two
/// or three.
pub open spec fn base64_no_pad(bytes: Seq<u8>) -> Seq<char>
    decreases bytes.len(),
{
    let b0 = bytes[0] as int;
    let b1 = bytes[1] as int;
    let b2 = bytes[2] as int;
    if bytes.len() == 0 {
        Seq::empty()
    } else if bytes.len() == 1 {
        seq![base64_digit(b0 / 4), base64_digit((b0 % 4) * 16)]
    } else if bytes.len() == 2 {
        seq![
            base64_digit(b0 / 4),
            base64_digit((b0 % 4) * 16 + b1 / 16),
            base64_digit((b1 % 16) * 4),
        ]
    } else {
        seq![
            base64_digit(b0 / 4),
            base64_digit((b0 % 4) * 16 + b1 / 16),
            base64_digit((b1 % 16) * 4 + b2 / 64),
            base64_digit(b2 % 64),
        ] + base64_no_pad(bytes.skip(3))
    }
}

/// Calls `image_hasher::ImageHash::from_bytes` and then `ImageHash::to_base64`
/// on the hash bytes. Claimed: the text is the standard, unpadded Base64
/// encoding of the bytes (the crate encodes the hash bytes with
/// `base64::engine::general_purpose::STANDARD_NO_PAD`). `from_bytes` refuses
/// only an empty slice for this hash type, which `requires` leaves out.
#[verifier::external_body]
fn hash_to_base64(hash: &Vec<u8>) -> (text: String)
    requires
        hash@.len() > 0,
    ensures
        text@ == base64_no_pad(hash@),
{
    match image_hasher::ImageHash::<Box<[u8]>>::from_bytes(hash.as_slice()) {
        Ok(h) => h.to_base64(),
        Err(_) => String::new(),
    }
}

/// Whether a frame with perceptual hash `hash` is a repeat of the last
/// recorded frame: there is one, and the two hashes are at distance zero.
pub open spec fn is_repeat(last: Option<Seq<u8>>, hash: Seq<u8>) -> bool {
    match last {
        Some(prev) => hamming_distance(prev, hash) < 1,
        None => false,
    }
}

/// The last recorded hash after observing `hash`.
pub open spec fn next_last_hash(last: Option<Seq<u8>>, hash: Seq<u8>) -> Option<Seq<u8>> {
    if is_repeat(last, hash) {
        last
    } else {
        Some(hash)
    }
}

/// What to do with a freshly captured frame.
pub enum FrameVerdict {
    /// The screen has not changed since the last recorded frame: drop it.
    Unchanged,
    /// A new frame: store it under this textual perceptual hash.
    Changed { perceptual_hash: String },
}

/// Side, in hash cells, of the perceptual hash of a frame.
pub const PERCEPTUAL_HASH_SIZE: u32 = 16;

/// Calls `image_hasher`: a hasher from `HasherConfig::new()` with
/// `hash_size(hash_width, hash_height)` and `preproc_dct()`, applied with
/// `Hasher::hash_image` to the frame as a `DynamicImage`, and the hash bytes
/// from `ImageHash::as_bytes`. Claimed: the hash has one bit per cell,
/// packed eight to a byte. Which bits are set is left unstated: the DCT runs
/// in floating point through an FFT library that picks its code path by the
/// processor it runs on.
#[verifier::external_body]
fn dct_gradient_hash(frame: &RgbaFrame, hash_width: u32, hash_height: u32) -> (hash: Vec<u8>)
    requires
        frame.well_formed(),
        0 < hash_width < u32::MAX,
        0 < hash_height,
        hash_width * hash_height <= u32::MAX,
        (hash_width * hash_height) % 8 == 0,
    ensures
        hash@.len() == hash_width * hash_height / 8,
{
    let config = image_hasher::HasherConfig::new().hash_size(hash_width, hash_height);
    let hasher = config.preproc_dct().to_hasher();
    match image::RgbaImage::from_raw(frame.width, frame.height, frame.pixels.clone()) {
        Some(img) => hasher.hash_image(&image::DynamicImage::ImageRgba8(img)).as_bytes().to_vec(),
        None => Vec::new(),
    }
}

/// `verdict` and the state `after` are what observing `hash` in state
/// `before` gives.
pub open spec fn observed(
    before: Option<Seq<u8>>,
    hash: Seq<u8>,
    after: Option<Seq<u8>>,
    verdict: FrameVerdict,
) -> bool {
    &&& after == next_last_hash(before, hash)
    &&& match verdict {
        FrameVerdict::Unchanged => is_repeat(before, hash),
        FrameVerdict::Changed { perceptual_hash } => {
            &&& !is_repeat(before, hash)
            &&& perceptual_hash@ == base64_no_pad(hash)
        },
    }
}

/// Decides which captured frames are kept: a frame is recorded unless its
/// perceptual hash is at distance zero from the hash of the last recorded
/// frame.
pub struct FrameDeduplicator {
    last_hash: Option<Vec<u8>>,
}

impl View for FrameDeduplicator {
    type V = Option<Seq<u8>>;

    closed spec fn view(&self) -> Option<Seq<u8>> {
        match self.last_hash {
            Some(h) => Some(h@),
            None => None,
        }
    }
}

impl FrameDeduplicator {
    /// A deduplicator that has recorded nothing yet.
    pub fn new() -> (d: Self)
        ensures
            d@ == None::<Seq<u8>>,
    {
        FrameDeduplicator { last_hash: None }
    }

    /// The hash of the last recorded frame.
    pub fn last_hash(&self) -> (h: Option<&Vec<u8>>)
        ensures
            match h {
                Some(v) => self@ == Some(v@),
                None => self@ is None,
            },
    {
        match &self.last_hash {
            Some(v) => Some(v),
            None => None,
        }
    }

    /// Hashes a captured frame (a 16 by 16 DCT-preprocessed gradient hash,
    /// 32 bytes) and observes the hash.
    pub fn observe_image(&mut self, frame: &RgbaFrame) -> (verdict: FrameVerdict)
        requires
            frame.well_formed(),
        ensures
            exists|hash: Seq<u8>|
                hash.len() == 32 && #[trigger] observed(old(self)@, hash, final(self)@, verdict),
    {
        let hash = dct_gradient_hash(frame, PERCEPTUAL_HASH_SIZE, PERCEPTUAL_HASH_SIZE);
        let ghost h = hash@;
        let verdict = self.observe(hash);
        assert(observed(old(self)@, h, self@, verdict));
        verdict
    }

    /// Observes the perceptual hash of a captured frame and says whether the
    /// frame is new. A new frame becomes the last recorded one and gets its
    /// hash as Base64 text.
    pub fn observe(&mut self, hash: Vec<u8>) -> (verdict: FrameVerdict)
        ensures
            final(self)@ == next_last_hash(old(self)@, hash@),
            match verdict {
                FrameVerdict::Unchanged => is_repeat(old(self)@, hash@),
                FrameVerdict::Changed { perceptual_hash } => {
                    &&& !is_repeat(old(self)@, hash@)
                    &&& perceptual_hash@ == base64_no_pad(hash@)
                },
            },
    {
        let repeat = match &self.last_hash {
            Some(prev) => !hashes_differ(prev, &hash),
            None => false,
        };
        if repeat {
            FrameVerdict::Unchanged
        } else {
            let text = if hash.len() == 0 {
                String::new()
            } else {
                hash_to_base64(&hash)
            };
            self.last_hash = Some(hash);
            FrameVerdict::Changed { perceptual_hash: text }
        }
    }
}

/// Deduplication law: once a frame has been observed, observing the same
/// hash again finds it unchanged, whatever was recorded before.
pub proof fn lemma_repeated_frame_is_unchanged(last: Option<Seq<u8>>, hash: Seq<u8>)
    ensures
        is_repeat(next_last_hash(last, hash), hash),
{
    lemma_hamming_self(hash);
}

/// Deduplication law: the first frame is always recorded, and so is any frame
/// whose hash differs in some bit from the last recorded one.
pub proof fn lemma_changed_frame_is_recorded(last: Option<Seq<u8>>, hash: Seq<u8>)
    requires
        last is None || hamming_distance(last->0, hash) >= 1,
    ensures
        !is_repeat(last, hash),
        next_last_hash(last, hash) == Some(hash),
{
}

} // verus!
