use vstd::prelude::*;
use crate::record::RecordView;
use crate::record::fresh_record;
use crate::record::updated_record;
use crate::record::BIOMETRIC_WEIGHT;
use crate::record::DEMOGRAPHIC_WEIGHT;

verus! {

/// The two kinds of accepted update events.
#[derive(Clone, Copy, Debug)]
pub enum UpdateKind {
    Biometric,
    Demographic,
}

/// The fixed weight each update kind adds to the lifecycle score.
pub open spec fn weight_of(k: UpdateKind) -> nat {
    match k {
        UpdateKind::Biometric => BIOMETRIC_WEIGHT as nat,
        UpdateKind::Demographic => DEMOGRAPHIC_WEIGHT as nat,
    }
}

/// How many events of kind `k` a sequence of updates holds.
pub open spec fn count_of(ks: Seq<UpdateKind>, k: UpdateKind) -> nat
    decreases ks.len(),
{
    if ks.len() == 0 {
        0
    } else {
        count_of(ks.drop_last(), k) + if ks.last() == k {
            1nat
        } else {
            0nat
        }
    }
}

/// The record after a whole sequence of accepted updates, the event at
/// position `i` stamped with time `times[i]`.
pub open spec fn apply_updates(r: RecordView, ks: Seq<UpdateKind>, times: Seq<int>) -> RecordView
    decreases ks.len(),
{
    if ks.len() == 0 {
        r
    } else {
        updated_record(
            apply_updates(r, ks.drop_last(), times.drop_last()),
            weight_of(ks.last()),
            times.last(),
        )
    }
}

/// Accumulation is commutative: after any interleaving of `N` biometric and
/// `M` demographic updates, the count grows by exactly `N + M` and the score
/// by exactly `10 * N + 5 * M` — only the numbers of each kind matter, never
/// their order. The owner and the creation time never change, and both
/// counters are non-decreasing.
pub proof fn lemma_interleaved_updates_accumulate(
    r: RecordView,
    ks: Seq<UpdateKind>,
    times: Seq<int>,
)
    requires
        times.len() == ks.len(),
    ensures
        count_of(ks, UpdateKind::Biometric) + count_of(ks, UpdateKind::Demographic) == ks.len(),
        apply_updates(r, ks, times).update_count == r.update_count + ks.len(),
        apply_updates(r, ks, times).lifecycle_score == r.lifecycle_score + BIOMETRIC_WEIGHT
            * count_of(ks, UpdateKind::Biometric) + DEMOGRAPHIC_WEIGHT * count_of(
            ks,
            UpdateKind::Demographic,
        ),
        apply_updates(r, ks, times).owner == r.owner,
        apply_updates(r, ks, times).created_at == r.created_at,
    decreases ks.len(),
{
    if ks.len() > 0 {
        lemma_interleaved_updates_accumulate(r, ks.drop_last(), times.drop_last());
    }
}

/// Starting from enrollment, the counters are exactly the accumulated
/// weights: `update_count == N + M` and `lifecycle_score == 10 * N + 5 * M`
/// after `N` biometric and `M` demographic updates in any order.
pub proof fn lemma_counters_from_enrollment(
    owner: Seq<u8>,
    created: int,
    ks: Seq<UpdateKind>,
    times: Seq<int>,
)
    requires
        times.len() == ks.len(),
    ensures
        apply_updates(fresh_record(owner, created), ks, times).update_count == count_of(
            ks,
            UpdateKind::Biometric,
        ) + count_of(ks, UpdateKind::Demographic),
        apply_updates(fresh_record(owner, created), ks, times).lifecycle_score == BIOMETRIC_WEIGHT
            * count_of(ks, UpdateKind::Biometric) + DEMOGRAPHIC_WEIGHT * count_of(
            ks,
            UpdateKind::Demographic,
        ),
{
    lemma_interleaved_updates_accumulate(fresh_record(owner, created), ks, times);
}

/// Closing a record and then re-initializing the same owner yields exactly
/// the fresh zeroed record, whatever the store held before: no residual
/// state survives a closure.
pub proof fn lemma_reinitialize_is_fresh(m: Map<Seq<u8>, RecordView>, owner: Seq<u8>, now: int)
    ensures
        !m.remove(owner).contains_key(owner),
        m.remove(owner).insert(owner, fresh_record(owner, now)) == m.insert(
            owner,
            fresh_record(owner, now),
        ),
        m.remove(owner).insert(owner, fresh_record(owner, now))[owner] == fresh_record(owner, now),
        fresh_record(owner, now).update_count == 0,
        fresh_record(owner, now).lifecycle_score == 0,
{
    assert(m.remove(owner).insert(owner, fresh_record(owner, now)) =~= m.insert(
        owner,
        fresh_record(owner, now),
    ));
}

} // verus!
