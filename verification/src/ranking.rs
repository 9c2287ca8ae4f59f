use vstd::prelude::*;

verus! {

/// `ranked` with `entry` placed after every element whose score is at least
/// the entry's score: one step of a stable sort by descending score.
pub open spec fn insert_by_score<T>(entry: (T, u32), ranked: Seq<(T, u32)>) -> Seq<(T, u32)>
    decreases ranked.len(),
{
    if ranked.len() == 0 {
        seq![entry]
    } else if ranked[0].1 < entry.1 {
        seq![entry] + ranked
    } else {
        seq![ranked[0]] + insert_by_score(entry, ranked.drop_first())
    }
}

/// `entries` stably sorted by descending score: higher scores first, and
/// entries with equal scores in their input order.
pub open spec fn sort_by_score<T>(entries: Seq<(T, u32)>) -> Seq<(T, u32)>
    decreases entries.len(),
{
    if entries.len() == 0 {
        Seq::empty()
    } else {
        insert_by_score(entries.last(), sort_by_score(entries.drop_last()))
    }
}

/// The first `limit` elements of `s` (all of `s` when it is shorter).
pub open spec fn at_most<T>(s: Seq<T>, limit: nat) -> Seq<T> {
    if limit < s.len() {
        s.take(limit as int)
    } else {
        s
    }
}

/// The `limit` best entries, best first, ties in input order.
pub open spec fn top_by_score<T>(entries: Seq<(T, u32)>, limit: nat) -> Seq<(T, u32)> {
    at_most(sort_by_score(entries), limit)
}

/// Scores never increase along `s`.
pub open spec fn descending<T>(s: Seq<(T, u32)>) -> bool {
    forall|i: int, j: int| 0 <= i < j < s.len() ==> s[i].1 >= s[j].1
}

proof fn lemma_insert_len<T>(entry: (T, u32), ranked: Seq<(T, u32)>)
    ensures
        insert_by_score(entry, ranked).len() == ranked.len() + 1,
    decreases ranked.len(),
{
    if ranked.len() > 0 && ranked[0].1 >= entry.1 {
        lemma_insert_len(entry, ranked.drop_first());
    }
}

proof fn lemma_sort_len<T>(entries: Seq<(T, u32)>)
    ensures
        sort_by_score(entries).len() == entries.len(),
    decreases entries.len(),
{
    if entries.len() > 0 {
        lemma_sort_len(entries.drop_last());
        lemma_insert_len(entries.last(), sort_by_score(entries.drop_last()));
    }
}

/// Where the entry lands: after the first `p` elements, all of which score
/// at least as high, and before an element that scores lower.
proof fn lemma_insert_at<T>(entry: (T, u32), ranked: Seq<(T, u32)>, p: int)
    requires
        0 <= p <= ranked.len(),
        forall|q: int| 0 <= q < p ==> ranked[q].1 >= entry.1,
        p < ranked.len() ==> ranked[p].1 < entry.1,
    ensures
        insert_by_score(entry, ranked) == ranked.take(p) + seq![entry] + ranked.skip(p),
    decreases ranked.len(),
{
    if p == 0 {
        if ranked.len() == 0 {
            assert(ranked.take(0) + seq![entry] + ranked.skip(0) =~= seq![entry]);
        } else {
            assert(ranked.take(0) + seq![entry] + ranked.skip(0) =~= seq![entry] + ranked);
        }
    } else {
        let rest = ranked.drop_first();
        assert forall|q: int| 0 <= q < p - 1 implies rest[q].1 >= entry.1 by {
            assert(rest[q] == ranked[q + 1]);
        }
        lemma_insert_at(entry, rest, p - 1);
        assert(seq![ranked[0]] + (rest.take(p - 1) + seq![entry] + rest.skip(p - 1))
            =~= ranked.take(p) + seq![entry] + ranked.skip(p));
    }
}

/// Only the first `k` ranked elements matter for the first `k` places after
/// an insertion.
proof fn lemma_insert_take<T>(entry: (T, u32), ranked: Seq<(T, u32)>, k: int)
    requires
        0 <= k <= ranked.len(),
    ensures
        insert_by_score(entry, ranked).take(k) == insert_by_score(entry, ranked.take(k)).take(k),
    decreases ranked.len(),
{
    lemma_insert_len(entry, ranked);
    lemma_insert_len(entry, ranked.take(k));
    if k == 0 {
        assert(insert_by_score(entry, ranked).take(k) =~= Seq::<(T, u32)>::empty());
        assert(insert_by_score(entry, ranked.take(k)).take(k) =~= Seq::<(T, u32)>::empty());
    } else if ranked[0].1 < entry.1 {
        assert(ranked.take(k)[0] == ranked[0]);
        assert((seq![entry] + ranked).take(k) =~= (seq![entry] + ranked.take(k)).take(k));
    } else {
        let rest = ranked.drop_first();
        assert(ranked.take(k)[0] == ranked[0]);
        assert(ranked.take(k).drop_first() =~= rest.take(k - 1));
        lemma_insert_take(entry, rest, k - 1);
        lemma_insert_len(entry, rest);
        lemma_insert_len(entry, rest.take(k - 1));
        assert((seq![ranked[0]] + insert_by_score(entry, rest)).take(k) =~= seq![ranked[0]]
            + insert_by_score(entry, rest).take(k - 1));
        assert((seq![ranked[0]] + insert_by_score(entry, rest.take(k - 1))).take(k) =~= seq![
            ranked[0],
        ] + insert_by_score(entry, rest.take(k - 1)).take(k - 1));
    }
}

/// Keeping only the best `limit` while inserting gives the same best `limit`.
proof fn lemma_insert_at_most<T>(entry: (T, u32), ranked: Seq<(T, u32)>, limit: nat)
    ensures
        at_most(insert_by_score(entry, ranked), limit) == at_most(
            insert_by_score(entry, at_most(ranked, limit)),
            limit,
        ),
{
    lemma_insert_len(entry, ranked);
    if limit < ranked.len() {
        lemma_insert_take(entry, ranked, limit as int);
        lemma_insert_len(entry, ranked.take(limit as int));
    }
}

/// An insertion adds nothing scoring above a bound that the entry and every
/// ranked element respect.
proof fn lemma_insert_bounded<T>(entry: (T, u32), ranked: Seq<(T, u32)>, bound: u32)
    requires
        entry.1 <= bound,
        forall|i: int| 0 <= i < ranked.len() ==> ranked[i].1 <= bound,
    ensures
        forall|i: int|
            0 <= i < insert_by_score(entry, ranked).len() ==> insert_by_score(entry, ranked)[i].1
                <= bound,
    decreases ranked.len(),
{
    let ins = insert_by_score(entry, ranked);
    if ranked.len() == 0 {
    } else if ranked[0].1 < entry.1 {
        assert forall|i: int| 0 <= i < ins.len() implies ins[i].1 <= bound by {
            if i > 0 {
                assert(ins[i] == ranked[i - 1]);
            }
        }
    } else {
        let rest = ranked.drop_first();
        lemma_insert_bounded(entry, rest, bound);
        let tail = insert_by_score(entry, rest);
        assert forall|i: int| 0 <= i < ins.len() implies ins[i].1 <= bound by {
            if i > 0 {
                assert(ins[i] == tail[i - 1]);
            }
        }
    }
}

proof fn lemma_insert_descending<T>(entry: (T, u32), ranked: Seq<(T, u32)>)
    requires
        descending(ranked),
    ensures
        descending(insert_by_score(entry, ranked)),
    decreases ranked.len(),
{
    if ranked.len() > 0 && ranked[0].1 >= entry.1 {
        let rest = ranked.drop_first();
        lemma_insert_descending(entry, rest);
        lemma_insert_bounded(entry, rest, ranked[0].1);
        let ins = insert_by_score(entry, rest);
        assert(insert_by_score(entry, ranked) == seq![ranked[0]] + ins);
        assert forall|i: int, j: int|
            0 <= i < j < insert_by_score(entry, ranked).len() implies insert_by_score(
            entry,
            ranked,
        )[i].1 >= insert_by_score(entry, ranked)[j].1 by {
            if i > 0 {
                assert(insert_by_score(entry, ranked)[i] == ins[i - 1]);
            }
            assert(insert_by_score(entry, ranked)[j] == ins[j - 1]);
        }
    }
}

proof fn lemma_insert_multiset<T>(entry: (T, u32), ranked: Seq<(T, u32)>)
    ensures
        insert_by_score(entry, ranked).to_multiset() =~= ranked.to_multiset().insert(entry),
    decreases ranked.len(),
{
    broadcast use vstd::seq_lib::group_to_multiset_ensures;
    broadcast use vstd::multiset::group_multiset_axioms;

    if ranked.len() == 0 {
        assert(seq![entry] =~= Seq::<(T, u32)>::empty().push(entry));
    } else if ranked[0].1 < entry.1 {
        vstd::seq_lib::lemma_multiset_commutative(seq![entry], ranked);
        assert(seq![entry] =~= Seq::<(T, u32)>::empty().push(entry));
    } else {
        let rest = ranked.drop_first();
        lemma_insert_multiset(entry, rest);
        vstd::seq_lib::lemma_multiset_commutative(seq![ranked[0]], insert_by_score(entry, rest));
        vstd::seq_lib::lemma_multiset_commutative(seq![ranked[0]], rest);
        assert(seq![ranked[0]] + rest =~= ranked);
    }
}

proof fn lemma_sort_properties<T>(entries: Seq<(T, u32)>)
    ensures
        sort_by_score(entries).len() == entries.len(),
        descending(sort_by_score(entries)),
        sort_by_score(entries).to_multiset() =~= entries.to_multiset(),
    decreases entries.len(),
{
    broadcast use vstd::seq_lib::group_to_multiset_ensures;

    lemma_sort_len(entries);
    if entries.len() > 0 {
        let front = entries.drop_last();
        lemma_sort_properties(front);
        lemma_insert_descending(entries.last(), sort_by_score(front));
        lemma_insert_multiset(entries.last(), sort_by_score(front));
        assert(front.push(entries.last()) =~= entries);
    }
}

/// The kept matches are the best ones: ranked best first, as many as the
/// limit allows, and together with the left-out entries exactly the input,
/// none of which scores higher than any kept match.
pub proof fn lemma_top_are_best<T>(entries: Seq<(T, u32)>, limit: nat)
    ensures
        ({
            let sorted = sort_by_score(entries);
            let kept = top_by_score(entries, limit);
            let dropped = sorted.skip(kept.len() as int);
            &&& kept.len() == if limit < entries.len() { limit } else { entries.len() }
            &&& descending(kept)
            &&& (kept + dropped).to_multiset() =~= entries.to_multiset()
            &&& forall|i: int, j: int|
                0 <= i < kept.len() && 0 <= j < dropped.len() ==> kept[i].1 >= dropped[j].1
        }),
{
    let sorted = sort_by_score(entries);
    lemma_sort_properties(entries);
    let kept = top_by_score(entries, limit);
    let dropped = sorted.skip(kept.len() as int);
    assert(kept + dropped =~= sorted);
    assert forall|i: int, j: int|
        0 <= i < kept.len() && 0 <= j < dropped.len() implies kept[i].1 >= dropped[j].1 by {
        assert(kept[i] == sorted[i]);
        assert(dropped[j] == sorted[kept.len() + j]);
    }
}

/// Returns the best `limit` entries by descending score, ties kept in input
/// order.
pub fn rank_by_score<T: Copy>(entries: &Vec<(T, u32)>, limit: usize) -> (ranked: Vec<(T, u32)>)
    ensures
        ranked@ == top_by_score(entries@, limit as nat),
        ranked@.len() == if limit < entries@.len() { limit as nat } else { entries@.len() },
        descending(ranked@),
        limit >= entries@.len() ==> ranked@ == sort_by_score(entries@),
{
    let n = entries.len();
    let mut ranked: Vec<(T, u32)> = Vec::new();
    for i in 0..n
        invariant
            n == entries@.len(),
            ranked@ == top_by_score(entries@.take(i as int), limit as nat),
            ranked@.len() <= limit,
    {
        let entry = entries[i];
        let ghost before = sort_by_score(entries@.take(i as int));
        assert(entries@.take(i + 1).drop_last() =~= entries@.take(i as int));
        assert(sort_by_score(entries@.take(i + 1)) == insert_by_score(entry, before));
        proof {
            lemma_insert_at_most(entry, before, limit as nat);
        }
        let ghost old_ranked = ranked@;
        let mut p: usize = 0;
        while p < ranked.len() && ranked[p].1 >= entry.1
            invariant
                ranked@ == old_ranked,
                p <= ranked@.len(),
                forall|q: int| 0 <= q < p ==> ranked@[q].1 >= entry.1,
            decreases ranked@.len() - p,
        {
            p = p + 1;
        }
        proof {
            lemma_insert_at(entry, old_ranked, p as int);
            lemma_insert_len(entry, old_ranked);
        }
        if p < limit {
            ranked.insert(p, entry);
            assert(ranked@ =~= old_ranked.take(p as int) + seq![entry] + old_ranked.skip(p as int));
            if ranked.len() > limit {
                ranked.pop();
                assert(ranked@ =~= insert_by_score(entry, old_ranked).take(limit as int));
            }
        } else {
            assert(insert_by_score(entry, old_ranked).take(limit as int) =~= old_ranked);
        }
    }
    assert(entries@.take(n as int) =~= entries@);
    proof {
        lemma_top_are_best(entries@, limit as nat);
        lemma_sort_len(entries@);
    }
    ranked
}

} // verus!
