//! Agent-passport and agent-memory operations.
//!
//! Passports are owner-only records indexed by owner, created through the
//! passport allocator under the same capacity guard as notes.  Memories are
//! owner-only records attached to an existing passport of the same owner;
//! their importance score is clamped to `[0, 100]`, never rejected.

use crate::entities::{AgentMemory, AgentPassport, MemoryView, PassportIds, PassportView};
use crate::errors::CoreError;
use crate::kvmap::KvMap;
use crate::notes::bucket_of;
use crate::store::{
    counters_nondecreasing, jobs_unchanged, memories_unchanged, notes_unchanged,
    owned_passport_ids, Store, StoreView,
};
use crate::util::{clone_string_vec, lemma_seq_push_unique, string_eq};
use crate::{MAX_ITEMS_PER_OWNER, MAX_PAYLOAD_CHARS, MAX_USERS};
use vstd::prelude::*;
use vstd::string::StrSliceExecFns;

verus! {

/// Whether the capacity guard admits one more passport for `o`.
pub open spec fn passport_create_allowed(s: StoreView, o: Seq<char>) -> bool {
    if s.passport_owners.contains_key(o) {
        s.passport_owners[o].len() < MAX_ITEMS_PER_OWNER
    } else {
        s.passport_owners.dom().len() < MAX_USERS
    }
}

/// The committed transition of `create_agent_passport`.
pub open spec fn passport_insert_ok(
    pre: StoreView,
    post: StoreView,
    p: PassportView,
    id: u128,
) -> bool {
    &&& id == pre.next_passport_id
    &&& post.next_passport_id == pre.next_passport_id + 1
    &&& !pre.passports.contains_key(id)
    &&& p.id == id
    &&& post.passports == pre.passports.insert(id, p)
    &&& post.passport_owners == pre.passport_owners.insert(
        p.owner,
        bucket_of(pre.passport_owners, p.owner).push(id),
    )
    &&& notes_unchanged(pre, post)
    &&& memories_unchanged(pre, post)
    &&& jobs_unchanged(pre, post)
}

/// The committed transition of `update_agent_specifications`: only the
/// specification payload and the activity timestamp of passport `id` move.
pub open spec fn passport_update_ok(
    pre: StoreView,
    post: StoreView,
    id: u128,
    spec_text: Seq<char>,
    now: u64,
) -> bool {
    &&& pre.passports.contains_key(id)
    &&& post.passports == pre.passports.insert(
        id,
        PassportView { encrypted_specifications: spec_text, last_active: now, ..pre.passports[id] },
    )
    &&& post.passport_owners == pre.passport_owners
    &&& post.next_passport_id == pre.next_passport_id
    &&& notes_unchanged(pre, post)
    &&& memories_unchanged(pre, post)
    &&& jobs_unchanged(pre, post)
}

/// The committed transition of `add_agent_memory`: the score is clamped,
/// never rejected.
pub open spec fn memory_insert_ok(
    pre: StoreView,
    post: StoreView,
    m: MemoryView,
    id: u128,
) -> bool {
    &&& id == pre.next_memory_id
    &&& post.next_memory_id == pre.next_memory_id + 1
    &&& !pre.memories.contains_key(id)
    &&& m.id == id
    &&& post.memories == pre.memories.insert(id, m)
    &&& notes_unchanged(pre, post)
    &&& post.passports == pre.passports
    &&& post.passport_owners == pre.passport_owners
    &&& post.next_passport_id == pre.next_passport_id
    &&& jobs_unchanged(pre, post)
}

/// Whether a memory belongs to passport `pid` and passes the optional
/// memory-type filter.
pub open spec fn memory_matches(m: MemoryView, pid: u128, f: Option<Seq<char>>) -> bool {
    &&& m.passport_id == pid
    &&& match f {
        None => true,
        Some(t) => m.memory_type == t,
    }
}

/// The IDs of a sequence of memory records, in order.
pub open spec fn mem_ids(s: Seq<AgentMemory>) -> Seq<u128> {
    s.map_values(|m: AgentMemory| m.id)
}

/// The keys of `ks` whose memory matches passport `pid` and filter `f`, in
/// order.
pub open spec fn matching_ids(
    m: Map<u128, MemoryView>,
    ks: Seq<u128>,
    pid: u128,
    f: Option<Seq<char>>,
) -> Seq<u128> {
    ks.filter(|k: u128| m.contains_key(k) && memory_matches(m[k], pid, f))
}

/// Filtering a duplicate-free key sequence keeps it duplicate-free and keeps
/// exactly the matching keys.
pub proof fn lemma_matching_ids(
    m: Map<u128, MemoryView>,
    ks: Seq<u128>,
    pid: u128,
    f: Option<Seq<char>>,
)
    requires
        ks.no_duplicates(),
    ensures
        matching_ids(m, ks, pid, f).no_duplicates(),
        forall|k: u128| #[trigger]
            matching_ids(m, ks, pid, f).contains(k) <==> (ks.contains(k) && m.contains_key(k)
                && memory_matches(m[k], pid, f)),
    decreases ks.len(),
{
    reveal_with_fuel(Seq::filter, 2);
    let fs = matching_ids(m, ks, pid, f);
    if ks.len() == 0 {
        assert(forall|k: u128| !ks.contains(k));
    } else {
        let d = ks.drop_last();
        let last = ks.last();
        assert(d.no_duplicates());
        lemma_matching_ids(m, d, pid, f);
        let fd = matching_ids(m, d, pid, f);
        assert(!d.contains(last));
        assert forall|x: u128| #[trigger] ks.contains(x) <==> (d.contains(x) || x == last) by {
            if ks.contains(x) {
                let i = choose|i: int| 0 <= i < ks.len() && ks[i] == x;
                if i < ks.len() - 1 {
                    assert(d[i] == x);
                    assert(d.contains(x));
                }
            }
            if d.contains(x) {
                let i = choose|i: int| 0 <= i < d.len() && d[i] == x;
                assert(ks[i] == x);
                assert(ks.contains(x));
            }
            if x == last {
                assert(ks[ks.len() - 1] == x);
                assert(ks.contains(x));
            }
        }
        if m.contains_key(last) && memory_matches(m[last], pid, f) {
            assert(fs == fd.push(last));
            assert(!fd.contains(last));
            crate::util::lemma_seq_push_unique(fd, last);
        } else {
            assert(fs == fd);
        }
    }
}

impl Store {
    /// Creates a new agent passport for `owner`, stamped with `now`, active,
    /// with no API endpoints yet, and returns its fresh ID.
    ///
    /// Fails with `PayloadTooLarge` exactly when the specification payload
    /// exceeds the size ceiling, `CapacityExceeded` exactly when the
    /// capacity guard refuses one more passport for `owner`, and
    /// `AllocatorExhausted` exactly when the passport counter cannot
    /// advance; a failed call leaves the store untouched.
    pub fn create_agent_passport(
        &mut self,
        owner: &String,
        now: u64,
        agent_name: String,
        agent_type: String,
        capabilities: Vec<String>,
        encrypted_specifications: String,
    ) -> (r: Result<u128, CoreError>)
        requires
            old(self).wf(),
        ensures
            final(self).wf(),
            counters_nondecreasing(old(self)@, final(self)@),
            match r {
                Ok(id) => {
                    &&& encrypted_specifications@.len() <= MAX_PAYLOAD_CHARS
                    &&& passport_create_allowed(old(self)@, owner@)
                    &&& old(self)@.next_passport_id < u128::MAX
                    &&& passport_insert_ok(
                        old(self)@,
                        final(self)@,
                        PassportView {
                            id,
                            agent_name: agent_name@,
                            agent_type: agent_type@,
                            owner: owner@,
                            capabilities: capabilities.deep_view(),
                            encrypted_specifications: encrypted_specifications@,
                            api_endpoints: Seq::empty(),
                            created_at: now,
                            last_active: now,
                            is_active: true,
                        },
                        id,
                    )
                },
                Err(e) => {
                    &&& final(self)@ == old(self)@
                    &&& (e == CoreError::PayloadTooLarge <==> encrypted_specifications@.len()
                        > MAX_PAYLOAD_CHARS)
                    &&& (e == CoreError::CapacityExceeded <==> encrypted_specifications@.len()
                        <= MAX_PAYLOAD_CHARS && !passport_create_allowed(old(self)@, owner@))
                    &&& (e == CoreError::AllocatorExhausted <==> encrypted_specifications@.len()
                        <= MAX_PAYLOAD_CHARS && passport_create_allowed(old(self)@, owner@)
                        && old(self)@.next_passport_id == u128::MAX)
                    &&& (e == CoreError::PayloadTooLarge || e == CoreError::CapacityExceeded || e
                        == CoreError::AllocatorExhausted)
                },
            },
    {
        let ghost pre = self@;
        let ghost o = owner@;

        if encrypted_specifications.as_str().unicode_len() > MAX_PAYLOAD_CHARS {
            return Err(CoreError::PayloadTooLarge);
        }
        let cap_ok: bool = match self.passport_owners.get(owner) {
            Some(b) => b.ids.len() < MAX_ITEMS_PER_OWNER,
            None => self.passport_owners.len() < MAX_USERS,
        };
        if !cap_ok {
            return Err(CoreError::CapacityExceeded);
        }
        if self.next_passport_id == u128::MAX {
            return Err(CoreError::AllocatorExhausted);
        }

        let id = self.next_passport_id;
        proof {
            assert(!pre.passports.contains_key(id));
        }
        let new_passport = AgentPassport {
            id,
            agent_name,
            agent_type,
            owner: owner.clone(),
            capabilities,
            encrypted_specifications,
            api_endpoints: Vec::new(),
            created_at: now,
            last_active: now,
            is_active: true,
        };
        let ghost pv = new_passport@;
        proof {
            assert(pv.api_endpoints =~= Seq::<Seq<char>>::empty());
        }
        let new_bucket: PassportIds = match self.passport_owners.get(owner) {
            Some(b) => {
                let mut ids = crate::entities::clone_id_vec(&b.ids);
                ids.push(id);
                PassportIds { ids }
            },
            None => {
                let mut ids: Vec<u128> = Vec::new();
                ids.push(id);
                PassportIds { ids }
            },
        };
        proof {
            let pb = bucket_of(pre.passport_owners, o);
            assert(!pb.contains(id)) by {
                if pre.passport_owners.contains_key(o) {
                    assert(pb.to_set() == owned_passport_ids(pre.passports, o));
                    if pb.contains(id) {
                        assert(pb.to_set().contains(id));
                        assert(pre.passports.contains_key(id));
                    }
                }
            }
            if pre.passport_owners.contains_key(o) {
                assert(pb.no_duplicates());
            }
            lemma_seq_push_unique(pb, id);
            assert(new_bucket@ == pb.push(id));
        }
        self.passport_owners.insert(owner.clone(), new_bucket);
        self.passports.insert(id, new_passport);
        self.next_passport_id = id + 1;

        proof {
            let post = self@;
            let pb = bucket_of(pre.passport_owners, o);
            let nb = pb.push(id);

            assert(owned_passport_ids(post.passports, o) =~= owned_passport_ids(
                pre.passports,
                o,
            ).insert(id));
            assert forall|o2: Seq<char>| o2 != o implies owned_passport_ids(post.passports, o2)
                == owned_passport_ids(pre.passports, o2) by {
                assert(owned_passport_ids(post.passports, o2) =~= owned_passport_ids(
                    pre.passports,
                    o2,
                ));
            }

            if pre.passport_owners.contains_key(o) {
                assert(post.passport_owners.dom() =~= pre.passport_owners.dom());
            } else {
                assert(post.passport_owners.dom() =~= pre.passport_owners.dom().insert(o));
                assert(owned_passport_ids(pre.passports, o) =~= Set::<u128>::empty()) by {
                    assert forall|nid: u128|
                        !owned_passport_ids(pre.passports, o).contains(nid) by {
                        if pre.passports.contains_key(nid) && pre.passports[nid].owner == o {
                            assert(pre.passport_owners.contains_key(o));
                        }
                    }
                }
                assert(pb.to_set() =~= Set::<u128>::empty());
            }
            assert(nb.to_set() == pb.to_set().insert(id));
            assert forall|o2: Seq<char>| #[trigger]
                post.passport_owners.contains_key(o2) implies {
                let b = post.passport_owners[o2];
                &&& b.len() >= 1
                &&& b.len() <= MAX_ITEMS_PER_OWNER
                &&& b.no_duplicates()
                &&& b.to_set() == owned_passport_ids(post.passports, o2)
            } by {
                if o2 == o {
                    assert(pb.to_set().insert(id) =~= owned_passport_ids(pre.passports, o).insert(
                        id,
                    ));
                } else {
                    assert(pre.passport_owners.contains_key(o2));
                }
            }
            assert forall|nid: u128| #[trigger]
                post.passports.contains_key(nid) implies post.passport_owners.contains_key(
                post.passports[nid].owner,
            ) by {
                if nid != id {
                    assert(pre.passports.contains_key(nid));
                }
            }
            assert(post.passports_inv());
            assert(post.memories_inv());
        }
        Ok(id)
    }

    /// Retrieves passport `passport_id` for its owner: an absent passport is
    /// reported as `Ok(None)`, a foreign one as `Unauthorized`.
    pub fn get_agent_passport(&self, caller: &String, passport_id: u128) -> (r: Result<
        Option<AgentPassport>,
        CoreError,
    >)
        requires
            self.wf(),
        ensures
            match r {
                Ok(Some(p)) => self@.passports.contains_key(passport_id) && caller@
                    == self@.passports[passport_id].owner && p@ == self@.passports[passport_id],
                Ok(None) => !self@.passports.contains_key(passport_id),
                Err(e) => e == CoreError::Unauthorized && self@.passports.contains_key(passport_id)
                    && caller@ != self@.passports[passport_id].owner,
            },
    {
        match self.passports.get(&passport_id) {
            None => Ok(None),
            Some(p) => {
                if p.is_authorized(caller) {
                    Ok(Some(p.clone()))
                } else {
                    Err(CoreError::Unauthorized)
                }
            },
        }
    }

    /// Returns the caller's passports, in index order.
    pub fn get_my_passports(&self, caller: &String) -> (r: Vec<AgentPassport>)
        requires
            self.wf(),
        ensures
            ({
                let ob = bucket_of(self@.passport_owners, caller@);
                &&& r@.len() == ob.len()
                &&& forall|i: int|
                    0 <= i < ob.len() ==> #[trigger] r@[i]@ == self@.passports[ob[i]]
            }),
    {
        let ghost ob = bucket_of(self@.passport_owners, caller@);
        let mut out: Vec<AgentPassport> = Vec::new();
        match self.passport_owners.get(caller) {
            Some(b) => {
                let mut i: usize = 0;
                while i < b.ids.len()
                    invariant
                        self.wf(),
                        b.ids@ == ob,
                        ob == bucket_of(self@.passport_owners, caller@),
                        self@.passport_owners.contains_key(caller@),
                        ob.to_set() == owned_passport_ids(self@.passports, caller@),
                        0 <= i <= ob.len(),
                        out@.len() == i,
                        forall|j: int|
                            0 <= j < i ==> #[trigger] out@[j]@ == self@.passports[ob[j]],
                    decreases ob.len() - i,
                {
                    let id = b.ids[i];
                    proof {
                        assert(ob.contains(ob[i as int]));
                        assert(ob.to_set().contains(id));
                        assert(owned_passport_ids(self@.passports, caller@).contains(id));
                    }
                    let p = self.passports.get(&id).unwrap();
                    out.push(p.clone());
                    i = i + 1;
                }
            },
            None => {
                proof {
                    assert(ob.len() == 0);
                }
            },
        }
        out
    }

    /// Replaces the encrypted specifications of passport `passport_id` and
    /// stamps its activity time with `now`.
    ///
    /// Only the owner may write.  Fails with `NotFound` exactly when the
    /// passport does not exist, `Unauthorized` exactly when the caller is
    /// not the owner, and `PayloadTooLarge` exactly when the payload exceeds
    /// the size ceiling; a failed call leaves the store untouched.
    pub fn update_agent_specifications(
        &mut self,
        caller: &String,
        passport_id: u128,
        encrypted_specifications: String,
        now: u64,
    ) -> (r: Result<(), CoreError>)
        requires
            old(self).wf(),
        ensures
            final(self).wf(),
            counters_nondecreasing(old(self)@, final(self)@),
            match r {
                Ok(()) => {
                    &&& old(self)@.passports.contains_key(passport_id)
                    &&& caller@ == old(self)@.passports[passport_id].owner
                    &&& encrypted_specifications@.len() <= MAX_PAYLOAD_CHARS
                    &&& passport_update_ok(
                        old(self)@,
                        final(self)@,
                        passport_id,
                        encrypted_specifications@,
                        now,
                    )
                },
                Err(e) => {
                    &&& final(self)@ == old(self)@
                    &&& (e == CoreError::NotFound <==> !old(self)@.passports.contains_key(
                        passport_id,
                    ))
                    &&& (e == CoreError::Unauthorized <==> old(self)@.passports.contains_key(
                        passport_id,
                    ) && caller@ != old(self)@.passports[passport_id].owner)
                    &&& (e == CoreError::PayloadTooLarge <==> old(self)@.passports.contains_key(
                        passport_id,
                    ) && caller@ == old(self)@.passports[passport_id].owner
                        && encrypted_specifications@.len() > MAX_PAYLOAD_CHARS)
                    &&& (e == CoreError::NotFound || e == CoreError::Unauthorized || e
                        == CoreError::PayloadTooLarge)
                },
            },
    {
        let ghost pre = self@;
        let ghost t = encrypted_specifications@;
        let p = match self.passports.get(&passport_id) {
            None => {
                return Err(CoreError::NotFound);
            },
            Some(p) => p,
        };
        if !string_eq(caller, &p.owner) {
            return Err(CoreError::Unauthorized);
        }
        if encrypted_specifications.as_str().unicode_len() > MAX_PAYLOAD_CHARS {
            return Err(CoreError::PayloadTooLarge);
        }
        let updated = AgentPassport {
            id: p.id,
            agent_name: p.agent_name.clone(),
            agent_type: p.agent_type.clone(),
            owner: p.owner.clone(),
            capabilities: clone_string_vec(&p.capabilities),
            encrypted_specifications,
            api_endpoints: clone_string_vec(&p.api_endpoints),
            created_at: p.created_at,
            last_active: now,
            is_active: p.is_active,
        };
        proof {
            assert(updated@ =~= (PassportView {
                encrypted_specifications: t,
                last_active: now,
                ..pre.passports[passport_id]
            }));
        }
        self.passports.insert(passport_id, updated);
        proof {
            let post = self@;
            assert forall|o2: Seq<char>|
                owned_passport_ids(post.passports, o2) == owned_passport_ids(
                    pre.passports,
                    o2,
                ) by {
                assert(owned_passport_ids(post.passports, o2) =~= owned_passport_ids(
                    pre.passports,
                    o2,
                ));
            }
            assert forall|o2: Seq<char>| #[trigger]
                post.passport_owners.contains_key(o2) implies {
                let b = post.passport_owners[o2];
                &&& b.len() >= 1
                &&& b.len() <= MAX_ITEMS_PER_OWNER
                &&& b.no_duplicates()
                &&& b.to_set() == owned_passport_ids(post.passports, o2)
            } by {
                assert(pre.passport_owners.contains_key(o2));
            }
            assert forall|nid: u128| #[trigger]
                post.passports.contains_key(nid) implies post.passport_owners.contains_key(
                post.passports[nid].owner,
            ) by {
                assert(pre.passports.contains_key(nid));
                assert(post.passports[nid].owner == pre.passports[nid].owner);
            }
            assert(post.passports_inv());
            assert forall|mid2: u128| #[trigger]
                post.memories.contains_key(mid2) implies {
                let m = post.memories[mid2];
                &&& m.id == mid2
                &&& 1 <= mid2 < post.next_memory_id
                &&& m.importance_score <= 100
                &&& m.encrypted_content.len() <= MAX_PAYLOAD_CHARS
                &&& post.passports.contains_key(m.passport_id)
                &&& post.passports[m.passport_id].owner == m.owner
            } by {
                assert(pre.memories.contains_key(mid2));
                assert(pre.passports.contains_key(pre.memories[mid2].passport_id));
            }
            assert(post.memories_inv());
        }
        Ok(())
    }

    /// Adds a memory entry under passport `passport_id` and returns its
    /// fresh ID.  An importance score above 100 is silently clamped to 100,
    /// never rejected.
    ///
    /// Fails with `NotFound` exactly when the passport does not exist,
    /// `Unauthorized` exactly when the caller does not own it,
    /// `PayloadTooLarge` exactly when the content exceeds the size ceiling,
    /// and `AllocatorExhausted` exactly when the memory counter cannot
    /// advance; a failed call leaves the store untouched.
    pub fn add_agent_memory(
        &mut self,
        caller: &String,
        passport_id: u128,
        memory_type: String,
        encrypted_content: String,
        importance_score: u8,
        now: u64,
    ) -> (r: Result<u128, CoreError>)
        requires
            old(self).wf(),
        ensures
            final(self).wf(),
            counters_nondecreasing(old(self)@, final(self)@),
            match r {
                Ok(id) => {
                    &&& old(self)@.passports.contains_key(passport_id)
                    &&& caller@ == old(self)@.passports[passport_id].owner
                    &&& encrypted_content@.len() <= MAX_PAYLOAD_CHARS
                    &&& old(self)@.next_memory_id < u128::MAX
                    &&& memory_insert_ok(
                        old(self)@,
                        final(self)@,
                        MemoryView {
                            id,
                            passport_id,
                            memory_type: memory_type@,
                            encrypted_content: encrypted_content@,
                            importance_score: if importance_score <= 100 {
                                importance_score
                            } else {
                                100
                            },
                            created_at: now,
                            owner: caller@,
                        },
                        id,
                    )
                },
                Err(e) => {
                    &&& final(self)@ == old(self)@
                    &&& (e == CoreError::NotFound <==> !old(self)@.passports.contains_key(
                        passport_id,
                    ))
                    &&& (e == CoreError::Unauthorized <==> old(self)@.passports.contains_key(
                        passport_id,
                    ) && caller@ != old(self)@.passports[passport_id].owner)
                    &&& (e == CoreError::PayloadTooLarge <==> old(self)@.passports.contains_key(
                        passport_id,
                    ) && caller@ == old(self)@.passports[passport_id].owner
                        && encrypted_content@.len() > MAX_PAYLOAD_CHARS)
                    &&& (e == CoreError::AllocatorExhausted <==> old(self)@.passports.contains_key(
                        passport_id,
                    ) && caller@ == old(self)@.passports[passport_id].owner
                        && encrypted_content@.len() <= MAX_PAYLOAD_CHARS
                        && old(self)@.next_memory_id == u128::MAX)
                    &&& (e == CoreError::NotFound || e == CoreError::Unauthorized || e
                        == CoreError::PayloadTooLarge || e == CoreError::AllocatorExhausted)
                },
            },
    {
        let ghost pre = self@;
        match self.passports.get(&passport_id) {
            None => {
                return Err(CoreError::NotFound);
            },
            Some(p) => {
                if !string_eq(caller, &p.owner) {
                    return Err(CoreError::Unauthorized);
                }
            },
        };
        if encrypted_content.as_str().unicode_len() > MAX_PAYLOAD_CHARS {
            return Err(CoreError::PayloadTooLarge);
        }
        if self.next_memory_id == u128::MAX {
            return Err(CoreError::AllocatorExhausted);
        }

        let id = self.next_memory_id;
        proof {
            assert(!pre.memories.contains_key(id));
        }
        let score: u8 = if importance_score <= 100 {
            importance_score
        } else {
            100
        };
        let new_memory = AgentMemory {
            id,
            passport_id,
            memory_type,
            encrypted_content,
            importance_score: score,
            created_at: now,
            owner: caller.clone(),
        };
        self.memories.insert(id, new_memory);
        self.next_memory_id = id + 1;
        proof {
            let post = self@;
            assert(post.memories_inv());
            assert(post.notes_inv());
            assert(post.passports_inv());
        }
        Ok(id)
    }

    /// Returns the memories attached to passport `passport_id`, optionally
    /// narrowed to one memory type.  Exactly the matching entries of the
    /// memory store come back, one each.
    ///
    /// Fails with `NotFound` exactly when the passport does not exist and
    /// `Unauthorized` exactly when the caller does not own it.
    pub fn get_agent_memories(
        &self,
        caller: &String,
        passport_id: u128,
        memory_type: Option<String>,
    ) -> (r: Result<Vec<AgentMemory>, CoreError>)
        requires
            self.wf(),
        ensures
            ({
                let f = crate::entities::opt_str_view(memory_type);
                match r {
                    Ok(v) => {
                        &&& self@.passports.contains_key(passport_id)
                        &&& caller@ == self@.passports[passport_id].owner
                        &&& forall|t: int|
                            0 <= t < v@.len() ==> {
                                let m = #[trigger] v@[t]@;
                                &&& memory_matches(m, passport_id, f)
                                &&& self@.memories.contains_key(m.id)
                                &&& m == self@.memories[m.id]
                            }
                        &&& forall|t1: int, t2: int|
                            0 <= t1 < t2 < v@.len() ==> v@[t1]@.id != v@[t2]@.id
                        &&& forall|k: u128| #[trigger]
                            self@.memories.contains_key(k) && memory_matches(
                                self@.memories[k],
                                passport_id,
                                f,
                            ) ==> exists|t: int| 0 <= t < v@.len() && v@[t]@.id == k
                    },
                    Err(e) => {
                        &&& (e == CoreError::NotFound <==> !self@.passports.contains_key(
                            passport_id,
                        ))
                        &&& (e == CoreError::Unauthorized <==> self@.passports.contains_key(
                            passport_id,
                        ) && caller@ != self@.passports[passport_id].owner)
                        &&& (e == CoreError::NotFound || e == CoreError::Unauthorized)
                    },
                }
            }),
    {
        match self.passports.get(&passport_id) {
            None => {
                return Err(CoreError::NotFound);
            },
            Some(p) => {
                if !string_eq(caller, &p.owner) {
                    return Err(CoreError::Unauthorized);
                }
            },
        };
        let out = collect_matching_memories(&self.memories, passport_id, &memory_type);
        Ok(out)
    }
}

/// Collects the memories of `mems` that match passport `pid` and the
/// optional memory-type filter: exactly the matching entries, one each.
fn collect_matching_memories(
    mems: &KvMap<u128, AgentMemory>,
    passport_id: u128,
    memory_type: &Option<String>,
) -> (out: Vec<AgentMemory>)
    requires
        mems.wf(),
        forall|k: u128| #[trigger] mems@.contains_key(k) ==> mems@[k].id == k,
    ensures
        ({
            let f = crate::entities::opt_str_view(*memory_type);
            &&& forall|t: int|
                0 <= t < out@.len() ==> {
                    let m = #[trigger] out@[t]@;
                    &&& memory_matches(m, passport_id, f)
                    &&& mems@.contains_key(m.id)
                    &&& m == mems@[m.id]
                }
            &&& forall|t1: int, t2: int|
                0 <= t1 < t2 < out@.len() ==> out@[t1]@.id != out@[t2]@.id
            &&& forall|k: u128| #[trigger]
                mems@.contains_key(k) && memory_matches(mems@[k], passport_id, f) ==> exists|
                    t: int,
                | 0 <= t < out@.len() && out@[t]@.id == k
        }),
{
    let ghost f = crate::entities::opt_str_view(*memory_type);
    let ks = mems.id_keys();
        let mut out: Vec<AgentMemory> = Vec::new();
        let mut i: usize = 0;
        let ghost memsv = mems@;
        while i < ks.len()
            invariant
                mems.wf(),
                memsv == mems@,
                forall|k2: u128| #[trigger] memsv.contains_key(k2) ==> memsv[k2].id == k2,
                f == crate::entities::opt_str_view(*memory_type),
                ks@.len() == memsv.dom().len(),
                forall|j: int| 0 <= j < ks@.len() ==> memsv.contains_key(#[trigger] ks@[j]),
                forall|j1: int, j2: int| 0 <= j1 < j2 < ks@.len() ==> ks@[j1] != ks@[j2],
                forall|k: u128| #[trigger]
                    memsv.contains_key(k) ==> exists|j: int| 0 <= j < ks@.len() && ks@[j] == k,
                0 <= i <= ks@.len(),
                mem_ids(out@) == matching_ids(memsv, ks@.take(i as int), passport_id, f),
                forall|t: int|
                    0 <= t < out@.len() ==> {
                        let m = #[trigger] out@[t]@;
                        &&& memory_matches(m, passport_id, f)
                        &&& memsv.contains_key(m.id)
                        &&& m == memsv[m.id]
                    },
            decreases ks@.len() - i,
        {
            let k = ks[i];
            let m = mems.get(&k).unwrap();
            proof {
                assert(m@.id == k);
            }
            let keep: bool = if m.passport_id == passport_id {
                match memory_type {
                    None => true,
                    Some(t) => string_eq(&m.memory_type, t),
                }
            } else {
                false
            };
            proof {
                reveal_with_fuel(Seq::filter, 2);
                assert(ks@.take(i + 1).drop_last() =~= ks@.take(i as int));
                assert(ks@.take(i + 1).last() == ks@[i as int]);
                assert(keep == (memsv.contains_key(k) && memory_matches(memsv[k], passport_id, f)));
            }
            let ghost pre_out = out@;
            if keep {
                out.push(m.clone());
                proof {
                    assert(mem_ids(out@) =~= mem_ids(pre_out).push(k));
                }
            }
            i = i + 1;
        }
        proof {
            assert(ks@.take(ks@.len() as int) =~= ks@);
            lemma_matching_ids(memsv, ks@, passport_id, f);
            let ms = matching_ids(memsv, ks@, passport_id, f);
            assert(mem_ids(out@).len() == out@.len());
            assert(forall|t: int|
                0 <= t < out@.len() ==> #[trigger] mem_ids(out@)[t] == out@[t].id);
            assert forall|t1: int, t2: int|
                0 <= t1 < t2 < out@.len() implies out@[t1]@.id != out@[t2]@.id by {
                assert(mem_ids(out@)[t1] == out@[t1].id);
                assert(mem_ids(out@)[t2] == out@[t2].id);
            }
            assert forall|k: u128|
                #[trigger] memsv.contains_key(k) && memory_matches(
                    memsv[k],
                    passport_id,
                    f,
                ) implies exists|t: int| 0 <= t < out@.len() && out@[t]@.id == k by {
                let j = choose|j: int| 0 <= j < ks@.len() && #[trigger] ks@[j] == k;
                assert(ks@.contains(k));
                assert(ms.contains(k));
                assert(mem_ids(out@).contains(k));
                let t = choose|t: int|
                    0 <= t < mem_ids(out@).len() && #[trigger] mem_ids(out@)[t] == k;
                assert(out@[t]@.id == k);
            }
        }
    out
}



} // verus!
