use vstd::prelude::*;

verus! {

/// Weight added to the lifecycle score by one biometric update.
pub const BIOMETRIC_WEIGHT: u64 = 10;

/// Weight added to the lifecycle score by one demographic update.
pub const DEMOGRAPHIC_WEIGHT: u64 = 5;

/// An identity public key: a 32-byte value, set once at enrollment and the
/// sole authorization credential for every later operation on the record.
#[derive(Clone, Copy, Debug)]
pub struct OwnerId {
    pub bytes: [u8; 32],
}

impl View for OwnerId {
    type V = Seq<u8>;

    open spec fn view(&self) -> Seq<u8> {
        self.bytes@
    }
}

/// Exact byte-for-byte equality of two identity keys. Authorization must be
/// exact equality, never a prefix or partial match.
pub fn owner_eq(a: &OwnerId, b: &OwnerId) -> (r: bool)
    ensures
        r == (a@ == b@),
{
    let mut i: usize = 0;
    while i < 32
        invariant
            i <= 32,
            forall|j: int| 0 <= j < i ==> a.bytes@[j] == b.bytes@[j],
        decreases 32 - i,
    {
        if a.bytes[i] != b.bytes[i] {
            assert(a@[i as int] != b@[i as int]);
            return false;
        }
        i += 1;
    }
    proof {
        assert(a@ =~= b@);
    }
    true
}

/// Mathematical model of one identity vault record.
pub struct RecordView {
    pub owner: Seq<u8>,
    pub created_at: int,
    pub last_update: int,
    pub update_count: nat,
    pub lifecycle_score: nat,
}

/// The record produced by enrollment at time `now`: zeroed counters and both
/// timestamps equal to `now`.
pub open spec fn fresh_record(owner: Seq<u8>, now: int) -> RecordView {
    RecordView {
        owner: owner,
        created_at: now,
        last_update: now,
        update_count: 0,
        lifecycle_score: 0,
    }
}

/// The record after one accepted update of the given weight at time `now`:
/// the owner and the creation time never change, the counters only grow.
pub open spec fn updated_record(r: RecordView, weight: nat, now: int) -> RecordView {
    RecordView {
        owner: r.owner,
        created_at: r.created_at,
        last_update: now,
        update_count: r.update_count + 1,
        lifecycle_score: r.lifecycle_score + weight,
    }
}

/// One per-owner vault record, as stored.
#[derive(Clone, Copy, Debug)]
pub struct IdentityVault {
    pub owner: OwnerId,
    pub created_at: i64,
    pub last_update: i64,
    pub update_count: u64,
    pub lifecycle_score: u64,
}

impl View for IdentityVault {
    type V = RecordView;

    open spec fn view(&self) -> RecordView {
        RecordView {
            owner: self.owner@,
            created_at: self.created_at as int,
            last_update: self.last_update as int,
            update_count: self.update_count as nat,
            lifecycle_score: self.lifecycle_score as nat,
        }
    }
}

impl IdentityVault {
    /// A well-formed record never saw an update earlier than its creation.
    pub open spec fn wf(&self) -> bool {
        self@.last_update >= self@.created_at
    }

    /// Enrollment: a fresh record owned by `owner`, created at time `now`,
    /// with both counters zeroed.
    pub fn new(owner: &OwnerId, now: i64) -> (r: IdentityVault)
        ensures
            r@ == fresh_record(owner@, now as int),
            r.wf(),
    {
        IdentityVault {
            owner: *owner,
            created_at: now,
            last_update: now,
            update_count: 0,
            lifecycle_score: 0,
        }
    }

    /// The single authorization gate of the whole system: the caller may
    /// operate on this record exactly when its identity equals the stored
    /// owner, byte for byte.
    pub fn authorized_by(&self, caller: &OwnerId) -> (r: bool)
        ensures
            r == (self@.owner == caller@),
    {
        owner_eq(&self.owner, caller)
    }

    /// Apply one accepted update of weight `weight` at time `now`.
    pub fn record_update(&mut self, weight: u64, now: i64)
        requires
            old(self).wf(),
            now >= old(self)@.created_at,
            old(self)@.update_count + 1 <= u64::MAX,
            old(self)@.lifecycle_score + weight <= u64::MAX,
        ensures
            final(self)@ == updated_record(old(self)@, weight as nat, now as int),
            final(self).wf(),
    {
        self.update_count = self.update_count + 1;
        self.lifecycle_score = self.lifecycle_score + weight;
        self.last_update = now;
    }
}

} // verus!
