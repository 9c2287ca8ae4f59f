use vstd::prelude::*;

verus! {

/// Days for which recorded frames are kept.
pub const RETENTION_DAYS: u64 = 14;

/// Seconds in a day.
pub const SECONDS_PER_DAY: u64 = 86400;

/// A frame captured at `timestamp` is past retention at time `now` (both in
/// seconds since the Unix epoch) when it is more than `days` days old.
pub open spec fn is_expired(timestamp: u64, now: u64, days: u64) -> bool {
    timestamp + days * SECONDS_PER_DAY < now
}

/// The ids of the frames among `frames` (id, capture time) that are past
/// retention, in their order.
pub open spec fn expired_ids(frames: Seq<(i64, u64)>, now: u64, days: u64) -> Seq<i64>
    decreases frames.len(),
{
    if frames.len() == 0 {
        Seq::empty()
    } else {
        let rest = expired_ids(frames.drop_last(), now, days);
        if is_expired(frames.last().1, now, days) {
            rest.push(frames.last().0)
        } else {
            rest
        }
    }
}

/// Selects the frames to prune at time `now`: those more than `days` days
/// old.
pub fn select_expired(frames: &Vec<(i64, u64)>, now: u64, days: u64) -> (ids: Vec<i64>)
    ensures
        ids@ == expired_ids(frames@, now, days),
{
    let n = frames.len();
    let mut ids: Vec<i64> = Vec::new();
    let window: Option<u64> = days.checked_mul(SECONDS_PER_DAY);
    for i in 0..n
        invariant
            n == frames@.len(),
            ids@ == expired_ids(frames@.take(i as int), now, days),
            window matches Some(w) ==> w == days * SECONDS_PER_DAY,
            window is None ==> days * SECONDS_PER_DAY > u64::MAX,
    {
        let (id, timestamp) = frames[i];
        assert(frames@.take(i + 1).drop_last() =~= frames@.take(i as int));
        assert(frames@.take(i + 1).last() == frames@[i as int]);
        let expired = match window {
            Some(w) => w < now && timestamp < now - w,
            None => false,
        };
        if expired {
            ids.push(id);
        }
    }
    assert(frames@.take(n as int) =~= frames@);
    ids
}

/// Some frame past retention has the id `id`.
pub open spec fn names_expired_frame(frames: Seq<(i64, u64)>, id: i64, now: u64, days: u64) -> bool {
    exists|i: int|
        0 <= i < frames.len() && (#[trigger] frames[i]).0 == id && is_expired(frames[i].1, now, days)
}

/// Pruning law: every frame past retention is selected, and every selected id
/// belongs to a frame past retention.
pub proof fn lemma_expired_frames_are_pruned(frames: Seq<(i64, u64)>, now: u64, days: u64)
    ensures
        forall|i: int|
            0 <= i < frames.len() && is_expired(#[trigger] frames[i].1, now, days)
                ==> expired_ids(frames, now, days).contains(frames[i].0),
        forall|k: int|
            0 <= k < expired_ids(frames, now, days).len() ==> names_expired_frame(
                frames,
                #[trigger] expired_ids(frames, now, days)[k],
                now,
                days,
            ),
    decreases frames.len(),
{
    if frames.len() > 0 {
        let front = frames.drop_last();
        let rest = expired_ids(front, now, days);
        lemma_expired_frames_are_pruned(front, now, days);
        let last = frames.last();
        assert forall|i: int|
            0 <= i < frames.len() && is_expired(#[trigger] frames[i].1, now, days)
                implies expired_ids(frames, now, days).contains(frames[i].0) by {
            if i < frames.len() - 1 {
                assert(front[i] == frames[i]);
                let k = choose|k: int| 0 <= k < rest.len() && rest[k] == front[i].0;
                if is_expired(last.1, now, days) {
                    assert(rest.push(last.0)[k] == rest[k]);
                }
            } else {
                assert(rest.push(last.0)[rest.len() as int] == last.0);
            }
        }
        assert forall|k: int|
            0 <= k < expired_ids(frames, now, days).len() implies names_expired_frame(
                frames,
                #[trigger] expired_ids(frames, now, days)[k],
                now,
                days,
            ) by {
            if k < rest.len() {
                assert(rest[k] == rest[k]);
                assert(names_expired_frame(front, rest[k], now, days));
                let i = choose|i: int|
                    0 <= i < front.len() && (#[trigger] front[i]).0 == rest[k] && is_expired(
                        front[i].1,
                        now,
                        days,
                    );
                assert(front[i] == frames[i]);
                if is_expired(last.1, now, days) {
                    assert(rest.push(last.0)[k] == rest[k]);
                }
                assert(frames[i].0 == expired_ids(frames, now, days)[k]);
            } else {
                assert(is_expired(last.1, now, days));
                assert(expired_ids(frames, now, days)[k] == last.0);
                assert(frames[frames.len() - 1] == last);
            }
        }
    }
}

/// Retention law: a frame captured no more than `days` days before `now` is
/// never selected for pruning.
pub proof fn lemma_recent_frames_are_kept(
    frames: Seq<(i64, u64)>,
    now: u64,
    days: u64,
    id: i64,
)
    requires
        forall|i: int|
            0 <= i < frames.len() && #[trigger] frames[i].0 == id ==> frames[i].1 + days
                * SECONDS_PER_DAY >= now,
    ensures
        !expired_ids(frames, now, days).contains(id),
    decreases frames.len(),
{
    if frames.len() > 0 {
        let front = frames.drop_last();
        assert forall|i: int|
            0 <= i < front.len() && #[trigger] front[i].0 == id implies front[i].1 + days
            * SECONDS_PER_DAY >= now by {
            assert(front[i] == frames[i]);
        }
        lemma_recent_frames_are_kept(front, now, days, id);
        if frames.last().0 == id {
            assert(frames[frames.len() - 1].0 == id);
        }
    }
}

} // verus!
