use vstd::prelude::*;
use vstd::utf8::encode_utf8;
use crate::text::{trim_spec, trim_whitespace};
use crate::ranking::{rank_by_score, sort_by_score, top_by_score, descending};

verus! {

/// Largest number of frames the timeline view may request at once.
pub const MAX_RECENT_FRAMES: usize = 1000;

/// Longest accepted search query, in UTF-8 bytes after trimming.
pub const MAX_QUERY_BYTES: usize = 1000;

/// Number of best matches a search returns at most.
pub const MAX_SEARCH_RESULTS: usize = 20;

/// The number of recent frames actually fetched for a timeline request of
/// `limit` frames: the request, capped at `MAX_RECENT_FRAMES`.
pub fn recent_frames_limit(limit: usize) -> (capped: usize)
    ensures
        capped == if limit < MAX_RECENT_FRAMES { limit } else { MAX_RECENT_FRAMES },
{
    if limit < MAX_RECENT_FRAMES {
        limit
    } else {
        MAX_RECENT_FRAMES
    }
}

/// Verdict on a raw search query.
pub enum QueryCheck {
    /// Nothing but white space: the search has no results.
    Blank,
    /// Longer than `MAX_QUERY_BYTES` once trimmed: the search is refused.
    TooLong,
    /// The trimmed query, to be embedded and searched for.
    Accepted(String),
}

/// Checks a raw query: trims it, then sorts it into blank, too long, or
/// accepted.
pub fn validate_query(query: &str) -> (check: QueryCheck)
    ensures
        check is Blank <==> trim_spec(query@).len() == 0,
        check is TooLong <==> trim_spec(query@).len() > 0 && encode_utf8(trim_spec(query@)).len()
            > MAX_QUERY_BYTES,
        check matches QueryCheck::Accepted(q) ==> q@ == trim_spec(query@),
{
    let trimmed = trim_whitespace(query);
    let t: &str = trimmed.as_str();
    let empty: bool = t.is_empty();
    assert(empty == (t@.len() == 0));
    if empty {
        QueryCheck::Blank
    } else if t.as_bytes().len() > MAX_QUERY_BYTES {
        QueryCheck::TooLong
    } else {
        QueryCheck::Accepted(trimmed)
    }
}

/// The value order of an IEEE-754 single-precision bit pattern that is not a
/// NaN: the magnitude bits, negated when the sign bit is set (so that both
/// zeros compare equal).
pub open spec fn signed_magnitude(bits: u32) -> int {
    if bits >= 0x8000_0000 {
        -((bits - 0x8000_0000) as int)
    } else {
        bits as int
    }
}

/// Order key of a similarity score of zero (the key of both zero bit
/// patterns).
pub const ZERO_SIMILARITY_KEY: u32 = 0x8000_0000;

/// Maps the bit pattern of a similarity score to an unsigned key that ranks
/// scores as their values do: for patterns that are not NaN, a higher key
/// means a higher score and equal keys mean equal scores.
pub fn similarity_key(bits: u32) -> (key: u32)
    ensures
        key as int == ZERO_SIMILARITY_KEY + signed_magnitude(bits),
        key > 0,
{
    if bits >= 0x8000_0000 {
        ZERO_SIMILARITY_KEY - (bits - 0x8000_0000)
    } else {
        ZERO_SIMILARITY_KEY + bits
    }
}

/// The bit pattern a score key stands for: the non-negative pattern for keys
/// from `ZERO_SIMILARITY_KEY` up, the negative one below it.
pub open spec fn bits_of_key(key: u32) -> u32 {
    if key >= ZERO_SIMILARITY_KEY {
        (key - ZERO_SIMILARITY_KEY) as u32
    } else {
        (0x8000_0000 + (ZERO_SIMILARITY_KEY - key)) as u32
    }
}

/// The bit pattern of the similarity score that a key stands for: the
/// inverse of `similarity_key`, with a zero score given back as positive
/// zero.
pub fn similarity_bits(key: u32) -> (bits: u32)
    requires
        key > 0,
    ensures
        bits == bits_of_key(key),
        ZERO_SIMILARITY_KEY + signed_magnitude(bits) == key,
{
    if key >= ZERO_SIMILARITY_KEY {
        key - ZERO_SIMILARITY_KEY
    } else {
        0x8000_0000 + (ZERO_SIMILARITY_KEY - key)
    }
}

/// Order law: keys rank scores as their IEEE-754 values do. Among patterns
/// with the sign bit clear, a larger pattern is a larger value; among those
/// with it set, a larger pattern is a more negative value; every negative
/// pattern ranks at or below every positive one, equal only for the two zeros.
pub proof fn lemma_similarity_key_order(a: u32, b: u32)
    ensures
        a < b < 0x8000_0000 ==> signed_magnitude(a) < signed_magnitude(b),
        0x8000_0000 <= a < b ==> signed_magnitude(a) > signed_magnitude(b),
        a < 0x8000_0000 <= b ==> signed_magnitude(b) <= signed_magnitude(a),
        a < 0x8000_0000 <= b ==> (signed_magnitude(b) == signed_magnitude(a) <==> (a == 0 && b
            == 0x8000_0000)),
{
}

/// Round-trip law: a score's bit pattern comes back from its key, except
/// that negative zero comes back as positive zero.
pub proof fn lemma_similarity_round_trip(bits: u32)
    ensures
        bits != 0x8000_0000 ==> bits_of_key(
            (ZERO_SIMILARITY_KEY + signed_magnitude(bits)) as u32,
        ) == bits,
        bits == 0x8000_0000 ==> bits_of_key(
            (ZERO_SIMILARITY_KEY + signed_magnitude(bits)) as u32,
        ) == 0,
{
}

/// The stored embeddings most similar to the query, best first: at most
/// `MAX_SEARCH_RESULTS` of the `(frame id, score key)` pairs, ties in the
/// order the store listed them.
pub fn top_matches(scores: &Vec<(i64, u32)>) -> (top: Vec<(i64, u32)>)
    ensures
        top@ == top_by_score(scores@, MAX_SEARCH_RESULTS as nat),
        top@.len() == if MAX_SEARCH_RESULTS < scores@.len() {
            MAX_SEARCH_RESULTS as nat
        } else {
            scores@.len()
        },
        descending(top@),
{
    rank_by_score(scores, MAX_SEARCH_RESULTS)
}

/// The score key that the first match for `frame_id` in `top` carries, or
/// the key of a zero score when no match names that frame.
pub open spec fn score_of(top: Seq<(i64, u32)>, frame_id: i64) -> u32
    decreases top.len(),
{
    if top.len() == 0 {
        ZERO_SIMILARITY_KEY
    } else if top[0].0 == frame_id {
        top[0].1
    } else {
        score_of(top.drop_first(), frame_id)
    }
}

/// Lookup law: a frame gets the score of the first top match that names it
/// (same frame id), and the key of a zero score when no match names it.
pub proof fn lemma_score_of_first_match(top: Seq<(i64, u32)>, frame_id: i64)
    ensures
        (forall|i: int| 0 <= i < top.len() ==> #[trigger] top[i].0 != frame_id) ==> score_of(
            top,
            frame_id,
        ) == ZERO_SIMILARITY_KEY,
        forall|i: int|
            0 <= i < top.len() && #[trigger] top[i].0 == frame_id && (forall|j: int|
                0 <= j < i ==> top[j].0 != frame_id) ==> score_of(top, frame_id) == top[i].1,
    decreases top.len(),
{
    if top.len() > 0 {
        let rest = top.drop_first();
        lemma_score_of_first_match(rest, frame_id);
        assert forall|i: int| 0 <= i < rest.len() implies rest[i] == top[i + 1] by {}
        if top[0].0 != frame_id {
            assert forall|i: int|
                0 <= i < top.len() && #[trigger] top[i].0 == frame_id && (forall|j: int|
                    0 <= j < i ==> top[j].0 != frame_id) implies score_of(top, frame_id)
                == top[i].1 by {
                assert(i > 0);
                assert(rest[i - 1] == top[i]);
                assert forall|j: int| 0 <= j < i - 1 implies rest[j].0 != frame_id by {
                    assert(rest[j] == top[j + 1]);
                }
            }
            if forall|i: int| 0 <= i < top.len() ==> #[trigger] top[i].0 != frame_id {
                assert forall|i: int| 0 <= i < rest.len() implies #[trigger] rest[i].0
                    != frame_id by {
                    assert(rest[i] == top[i + 1]);
                }
            }
        } else {
            assert forall|i: int|
                0 <= i < top.len() && #[trigger] top[i].0 == frame_id && (forall|j: int|
                    0 <= j < i ==> top[j].0 != frame_id) implies score_of(top, frame_id)
                == top[i].1 by {
                if i > 0 {
                    assert(top[0].0 != frame_id);
                }
            }
        }
    }
}

/// Looks up the score of a frame among the top matches.
pub fn lookup_score(top: &Vec<(i64, u32)>, frame_id: i64) -> (score: u32)
    ensures
        score == score_of(top@, frame_id),
{
    let n = top.len();
    let mut i: usize = 0;
    assert(top@.skip(0) =~= top@);
    while i < n
        invariant
            n == top@.len(),
            i <= n,
            score_of(top@, frame_id) == score_of(top@.skip(i as int), frame_id),
        decreases n - i,
    {
        if top[i].0 == frame_id {
            return top[i].1;
        }
        assert(top@.skip(i as int).drop_first() =~= top@.skip(i + 1));
        i = i + 1;
    }
    ZERO_SIMILARITY_KEY
}

/// Each fetched frame, by its position in `fetched`, with the score of its
/// first match in `top`.
pub open spec fn fetched_scores(top: Seq<(i64, u32)>, fetched: Seq<i64>) -> Seq<(usize, u32)> {
    Seq::new(fetched.len(), |i: int| (i as usize, score_of(top, fetched[i])))
}

/// Orders the frames fetched for the top matches by descending score: the
/// result lists positions into `fetched` with their score keys, ties in
/// fetch order.
pub fn order_fetched_frames(top: &Vec<(i64, u32)>, fetched: &Vec<i64>) -> (order: Vec<(usize, u32)>)
    ensures
        order@ == sort_by_score(fetched_scores(top@, fetched@)),
        order@.len() == fetched@.len(),
        descending(order@),
{
    let n = fetched.len();
    let mut scored: Vec<(usize, u32)> = Vec::new();
    for i in 0..n
        invariant
            n == fetched@.len(),
            scored@ =~= fetched_scores(top@, fetched@).take(i as int),
    {
        let score = lookup_score(top, fetched[i]);
        scored.push((i, score));
    }
    assert(scored@ =~= fetched_scores(top@, fetched@));
    let order = rank_by_score(&scored, n);
    order
}

} // verus!
