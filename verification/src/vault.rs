use vstd::prelude::*;
use vstd::map::*;
use crate::record::IdentityVault;
use crate::record::OwnerId;
use crate::record::RecordView;
use crate::record::fresh_record;
use crate::record::updated_record;
use crate::record::BIOMETRIC_WEIGHT;
use crate::record::DEMOGRAPHIC_WEIGHT;
use crate::record::owner_eq;

verus! {

/// Why a request was rejected. Every rejection is terminal for the request
/// and leaves the store exactly as it was.
#[derive(Clone, Copy, Debug, PartialEq, Eq, Structural)]
pub enum ErrorCode {
    /// The authenticated caller's identity does not equal the record's
    /// stored owner.
    Unauthorized,
    /// An initialize request targeted an owner that already has a record.
    AlreadyExists,
    /// An update or close request targeted an owner with no record.
    NotFound,
}

/// Whether the map `m` lets `caller` mutate or close the record filed under
/// `owner`: the record must exist and its stored owner must equal the caller.
pub open spec fn update_allowed(m: Map<Seq<u8>, RecordView>, owner: Seq<u8>, caller: Seq<u8>) -> bool {
    m.contains_key(owner) && m[owner].owner == caller
}

/// The store of identity vault records: an explicit mapping from owner
/// identity to record, at most one record per owner.
pub struct VaultStore {
    records: Vec<IdentityVault>,
}

impl View for VaultStore {
    type V = Map<Seq<u8>, RecordView>;

    closed spec fn view(&self) -> Map<Seq<u8>, RecordView> {
        Map::new(
            |k: Seq<u8>| self.has_record(k),
            |k: Seq<u8>| self.records@[self.slot_of(k)]@,
        )
    }
}

impl VaultStore {
    /// Whether some stored record is owned by key `k`.
    pub closed spec fn has_record(&self, k: Seq<u8>) -> bool {
        exists|i: int|
            0 <= i < self.records@.len() && (#[trigger] self.records@[i])@.owner == k
    }

    /// The index of the record owned by `k`; meaningful only when owners are
    /// unique and some record is owned by `k`.
    spec fn slot_of(&self, k: Seq<u8>) -> int {
        choose|i: int|
            0 <= i < self.records@.len() && (#[trigger] self.records@[i])@.owner == k
    }

    /// Well-formedness: every stored record is well formed, and no two
    /// stored records share an owner.
    pub closed spec fn wf(&self) -> bool {
        &&& forall|i: int|
            0 <= i < self.records@.len() ==> (#[trigger] self.records@[i]).wf()
        &&& forall|i: int, j: int|
            0 <= i < j < self.records@.len()
                ==> (#[trigger] self.records@[i])@.owner != (#[trigger] self.records@[j])@.owner
    }

    /// The store's map contains a key exactly when some stored record is
    /// owned by it.
    proof fn lemma_contains_iff(&self, k: Seq<u8>)
        ensures
            self@.contains_key(k) <==> self.has_record(k),
    {
    }

    /// With unique owners, the record at index `i` is the one the store's
    /// map files under its owner key.
    proof fn lemma_slot_is(&self, i: int, k: Seq<u8>)
        requires
            self.wf(),
            0 <= i < self.records@.len(),
            self.records@[i]@.owner == k,
        ensures
            self.has_record(k),
            self.slot_of(k) == i,
            self@.contains_key(k),
            self@[k] == self.records@[i]@,
    {
        assert(self.has_record(k));
        let j = self.slot_of(k);
        assert(0 <= j < self.records@.len() && self.records@[j]@.owner == k);
        if i < j {
            assert(self.records@[i]@.owner != self.records@[j]@.owner);
        } else if j < i {
            assert(self.records@[j]@.owner != self.records@[i]@.owner);
        }
        self.lemma_contains_iff(k);
    }

    /// If no stored record is owned by `k`, the store's map has no entry
    /// for `k`.
    proof fn lemma_absent(&self, k: Seq<u8>)
        requires
            forall|i: int|
                0 <= i < self.records@.len() ==> (#[trigger] self.records@[i])@.owner != k,
        ensures
            !self@.contains_key(k),
    {
        self.lemma_contains_iff(k);
    }

    /// Locate the record owned by `owner`, if any: the explicit-map stand-in
    /// for the host's derived-address lookup.
    fn find_record(&self, owner: &OwnerId) -> (r: Option<usize>)
        requires
            self.wf(),
        ensures
            match r {
                Some(i) => {
                    &&& i < self.records@.len()
                    &&& self.records@[i as int]@.owner == owner@
                    &&& self@.contains_key(owner@)
                    &&& self@[owner@] == self.records@[i as int]@
                },
                None => !self@.contains_key(owner@),
            },
    {
        let n = self.records.len();
        let mut i: usize = 0;
        while i < n
            invariant
                self.wf(),
                n == self.records@.len(),
                i <= n,
                forall|j: int|
                    0 <= j < i ==> (#[trigger] self.records@[j])@.owner != owner@,
            decreases n - i,
        {
            if owner_eq(&self.records[i].owner, owner) {
                proof {
                    self.lemma_slot_is(i as int, owner@);
                }
                return Some(i);
            }
            i += 1;
        }
        proof {
            self.lemma_absent(owner@);
        }
        None
    }

    /// An empty store: no owner has a record.
    pub fn new() -> (r: VaultStore)
        ensures
            r.wf(),
            r@ == Map::<Seq<u8>, RecordView>::empty(),
    {
        let r = VaultStore { records: Vec::new() };
        proof {
            assert(r@ =~= Map::<Seq<u8>, RecordView>::empty());
        }
        r
    }

    /// Enroll `owner`: create its record with zeroed counters and both
    /// timestamps at `now`. Fails with `AlreadyExists`, changing nothing,
    /// exactly when a record for `owner` already occupies the store.
    pub fn initialize_identity(&mut self, owner: &OwnerId, now: i64) -> (r: Result<(), ErrorCode>)
        requires
            old(self).wf(),
        ensures
            final(self).wf(),
            match r {
                Ok(_) => {
                    &&& !old(self)@.contains_key(owner@)
                    &&& final(self)@ == old(self)@.insert(owner@, fresh_record(owner@, now as int))
                },
                Err(e) => {
                    &&& e == ErrorCode::AlreadyExists
                    &&& old(self)@.contains_key(owner@)
                    &&& final(self)@ == old(self)@
                },
            },
    {
        if self.find_record(owner).is_some() {
            return Err(ErrorCode::AlreadyExists);
        }
        let ghost olds = *self;
        let rec = IdentityVault::new(owner, now);
        self.records.push(rec);
        proof {
            let ghost n = olds.records@.len() as int;
            assert forall|i: int| 0 <= i < n implies (#[trigger] olds.records@[i])@.owner != owner@ by {
                if olds.records@[i]@.owner == owner@ {
                    olds.lemma_slot_is(i, owner@);
                }
            }
            assert(self.records@ == olds.records@.push(rec));
            assert(self.wf());
            let m1 = self@;
            let m2 = olds@.insert(owner@, fresh_record(owner@, now as int));
            assert_maps_equal!(m1, m2, kk => {
                self.lemma_contains_iff(kk);
                olds.lemma_contains_iff(kk);
                if self.has_record(kk) {
                    let i = choose|i: int|
                        0 <= i < self.records@.len() && (#[trigger] self.records@[i])@.owner == kk;
                    self.lemma_slot_is(i, kk);
                    if i < n {
                        olds.lemma_slot_is(i, kk);
                    }
                }
                if olds.has_record(kk) {
                    let i = choose|i: int|
                        0 <= i < olds.records@.len() && (#[trigger] olds.records@[i])@.owner == kk;
                    olds.lemma_slot_is(i, kk);
                    self.lemma_slot_is(i, kk);
                }
                if kk == owner@ {
                    self.lemma_slot_is(n, kk);
                }
            });
        }
        Ok(())
    }

    /// Apply one accepted update of weight `weight` at time `now` to the
    /// record filed under `owner`, on behalf of `caller`. The shared body of
    /// the two public update operations: checks existence, then the
    /// authorization gate, and only then mutates.
    fn apply_update(&mut self, owner: &OwnerId, caller: &OwnerId, weight: u64, now: i64) -> (r: Result<
        (),
        ErrorCode,
    >)
        requires
            old(self).wf(),
            update_allowed(old(self)@, owner@, caller@) ==> {
                &&& now >= old(self)@[owner@].created_at
                &&& old(self)@[owner@].update_count + 1 <= u64::MAX
                &&& old(self)@[owner@].lifecycle_score + weight <= u64::MAX
            },
        ensures
            final(self).wf(),
            match r {
                Ok(_) => {
                    &&& update_allowed(old(self)@, owner@, caller@)
                    &&& final(self)@ == old(self)@.insert(
                        owner@,
                        updated_record(old(self)@[owner@], weight as nat, now as int),
                    )
                },
                Err(e) => final(self)@ == old(self)@ && match e {
                    ErrorCode::NotFound => !old(self)@.contains_key(owner@),
                    ErrorCode::Unauthorized => old(self)@.contains_key(owner@)
                        && old(self)@[owner@].owner != caller@,
                    ErrorCode::AlreadyExists => false,
                },
            },
    {
        let i = match self.find_record(owner) {
            None => {
                return Err(ErrorCode::NotFound);
            },
            Some(i) => i,
        };
        let rec = self.records[i];
        if !rec.authorized_by(caller) {
            return Err(ErrorCode::Unauthorized);
        }
        let ghost olds = *self;
        let mut newrec = rec;
        newrec.record_update(weight, now);
        self.records[i] = newrec;
        proof {
            assert(self.records@ == olds.records@.update(i as int, newrec));
            assert(self.wf());
            let m1 = self@;
            let m2 = olds@.insert(owner@, updated_record(olds@[owner@], weight as nat, now as int));
            assert_maps_equal!(m1, m2, kk => {
                self.lemma_contains_iff(kk);
                olds.lemma_contains_iff(kk);
                if self.has_record(kk) {
                    let j = choose|j: int|
                        0 <= j < self.records@.len() && (#[trigger] self.records@[j])@.owner == kk;
                    self.lemma_slot_is(j, kk);
                    olds.lemma_slot_is(j, kk);
                }
                if olds.has_record(kk) {
                    let j = choose|j: int|
                        0 <= j < olds.records@.len() && (#[trigger] olds.records@[j])@.owner == kk;
                    olds.lemma_slot_is(j, kk);
                    self.lemma_slot_is(j, kk);
                }
            });
        }
        Ok(())
    }

    /// Record one biometric update: `update_count` grows by one,
    /// `lifecycle_score` by `BIOMETRIC_WEIGHT`, and `last_update` becomes
    /// `now`. Fails with `NotFound` when `owner` has no record and with
    /// `Unauthorized` when `caller` is not the stored owner; every failure
    /// leaves the store unchanged.
    pub fn biometric_update(&mut self, owner: &OwnerId, caller: &OwnerId, now: i64) -> (r: Result<
        (),
        ErrorCode,
    >)
        requires
            old(self).wf(),
            update_allowed(old(self)@, owner@, caller@) ==> {
                &&& now >= old(self)@[owner@].created_at
                &&& old(self)@[owner@].update_count + 1 <= u64::MAX
                &&& old(self)@[owner@].lifecycle_score + BIOMETRIC_WEIGHT <= u64::MAX
            },
        ensures
            final(self).wf(),
            match r {
                Ok(_) => {
                    &&& update_allowed(old(self)@, owner@, caller@)
                    &&& final(self)@ == old(self)@.insert(
                        owner@,
                        updated_record(old(self)@[owner@], BIOMETRIC_WEIGHT as nat, now as int),
                    )
                },
                Err(e) => final(self)@ == old(self)@ && match e {
                    ErrorCode::NotFound => !old(self)@.contains_key(owner@),
                    ErrorCode::Unauthorized => old(self)@.contains_key(owner@)
                        && old(self)@[owner@].owner != caller@,
                    ErrorCode::AlreadyExists => false,
                },
            },
    {
        self.apply_update(owner, caller, BIOMETRIC_WEIGHT, now)
    }

    /// Record one demographic update: identical to a biometric update except
    /// that the score grows by `DEMOGRAPHIC_WEIGHT`.
    pub fn demographic_update(&mut self, owner: &OwnerId, caller: &OwnerId, now: i64) -> (r: Result<
        (),
        ErrorCode,
    >)
        requires
            old(self).wf(),
            update_allowed(old(self)@, owner@, caller@) ==> {
                &&& now >= old(self)@[owner@].created_at
                &&& old(self)@[owner@].update_count + 1 <= u64::MAX
                &&& old(self)@[owner@].lifecycle_score + DEMOGRAPHIC_WEIGHT <= u64::MAX
            },
        ensures
            final(self).wf(),
            match r {
                Ok(_) => {
                    &&& update_allowed(old(self)@, owner@, caller@)
                    &&& final(self)@ == old(self)@.insert(
                        owner@,
                        updated_record(old(self)@[owner@], DEMOGRAPHIC_WEIGHT as nat, now as int),
                    )
                },
                Err(e) => final(self)@ == old(self)@ && match e {
                    ErrorCode::NotFound => !old(self)@.contains_key(owner@),
                    ErrorCode::Unauthorized => old(self)@.contains_key(owner@)
                        && old(self)@[owner@].owner != caller@,
                    ErrorCode::AlreadyExists => false,
                },
            },
    {
        self.apply_update(owner, caller, DEMOGRAPHIC_WEIGHT, now)
    }

    /// Close `owner`'s record: the record leaves the store and no history
    /// survives. Fails with `NotFound` when `owner` has no record and with
    /// `Unauthorized` when `caller` is not the stored owner; every failure
    /// leaves the store unchanged.
    pub fn close_identity(&mut self, owner: &OwnerId, caller: &OwnerId) -> (r: Result<
        (),
        ErrorCode,
    >)
        requires
            old(self).wf(),
        ensures
            final(self).wf(),
            match r {
                Ok(_) => {
                    &&& update_allowed(old(self)@, owner@, caller@)
                    &&& final(self)@ == old(self)@.remove(owner@)
                },
                Err(e) => final(self)@ == old(self)@ && match e {
                    ErrorCode::NotFound => !old(self)@.contains_key(owner@),
                    ErrorCode::Unauthorized => old(self)@.contains_key(owner@)
                        && old(self)@[owner@].owner != caller@,
                    ErrorCode::AlreadyExists => false,
                },
            },
    {
        let i = match self.find_record(owner) {
            None => {
                return Err(ErrorCode::NotFound);
            },
            Some(i) => i,
        };
        let rec = self.records[i];
        if !rec.authorized_by(caller) {
            return Err(ErrorCode::Unauthorized);
        }
        let ghost olds = *self;
        self.records.remove(i);
        proof {
            assert(self.records@ == olds.records@.remove(i as int));
            assert forall|j: int| 0 <= j < self.records@.len() implies (#[trigger] self.records@[j])
                == olds.records@[if j < i as int { j } else { j + 1 }] by {}
            assert(self.wf());
            let m1 = self@;
            let m2 = olds@.remove(owner@);
            assert_maps_equal!(m1, m2, kk => {
                self.lemma_contains_iff(kk);
                olds.lemma_contains_iff(kk);
                if self.has_record(kk) {
                    let j = choose|j: int|
                        0 <= j < self.records@.len() && (#[trigger] self.records@[j])@.owner == kk;
                    self.lemma_slot_is(j, kk);
                    let oj = if j < i as int { j } else { j + 1 };
                    olds.lemma_slot_is(oj, kk);
                    if kk == owner@ {
                        olds.lemma_slot_is(i as int, kk);
                    }
                }
                if olds.has_record(kk) && kk != owner@ {
                    let oj = choose|j: int|
                        0 <= j < olds.records@.len() && (#[trigger] olds.records@[j])@.owner == kk;
                    olds.lemma_slot_is(oj, kk);
                    olds.lemma_slot_is(i as int, owner@);
                    let j = if oj < i as int { oj } else { oj - 1 };
                    assert(self.records@[j]@.owner == kk);
                    self.lemma_slot_is(j, kk);
                }
            });
        }
        Ok(())
    }

    /// Look up the record stored for `owner`, if any. A read-only probe: the
    /// host's load of the account at the derived address.
    pub fn get_record(&self, owner: &OwnerId) -> (r: Option<IdentityVault>)
        requires
            self.wf(),
        ensures
            match r {
                Some(rec) => {
                    &&& self@.contains_key(owner@)
                    &&& rec@ == self@[owner@]
                    &&& rec.wf()
                },
                None => !self@.contains_key(owner@),
            },
    {
        match self.find_record(owner) {
            None => None,
            Some(i) => Some(self.records[i]),
        }
    }
}

} // verus!
