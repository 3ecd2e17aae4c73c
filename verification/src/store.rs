//! The explicit store context: every entity map, every index and every ID
//! counter, constructed once and passed by reference into each operation.
//!
//! [`StoreView::inv`] is the cross-map invariant that every committed
//! operation preserves: owner and share indices are exactly symmetric with
//! the entity maps, no index entry dangles, no bucket is empty, every
//! capacity ceiling holds, and every allocator-issued ID lies below its
//! counter.

use crate::entities::{
    AgentMemory, AgentPassport, EncryptedNote, JobStatus, JobView, MemoryView, NoteIds, NoteView,
    PassportIds, PassportView, SyntheticDataJob,
};
use crate::kvmap::KvMap;
use crate::{MAX_ITEMS_PER_OWNER, MAX_PAYLOAD_CHARS, MAX_SHARES_PER_NOTE, MAX_USERS};
use vstd::prelude::*;

verus! {

/// Spec-level image of the whole store.
#[verifier::ext_equal]
pub ghost struct StoreView {
    pub next_note_id: u128,
    pub next_passport_id: u128,
    pub next_memory_id: u128,
    pub notes: Map<u128, NoteView>,
    pub note_owners: Map<Seq<char>, Seq<u128>>,
    pub note_shares: Map<Seq<char>, Seq<u128>>,
    pub passports: Map<u128, PassportView>,
    pub passport_owners: Map<Seq<char>, Seq<u128>>,
    pub memories: Map<u128, MemoryView>,
    pub jobs: Map<Seq<char>, JobView>,
}

/// The IDs of the notes owned by `o`.
pub open spec fn owned_note_ids(notes: Map<u128, NoteView>, o: Seq<char>) -> Set<u128> {
    Set::new(|id: u128| notes.contains_key(id) && notes[id].owner == o)
}

/// The IDs of the notes shared with grantee `u`.
pub open spec fn shared_note_ids(notes: Map<u128, NoteView>, u: Seq<char>) -> Set<u128> {
    Set::new(|id: u128| notes.contains_key(id) && notes[id].users.contains(u))
}

/// The IDs of the passports owned by `o`.
pub open spec fn owned_passport_ids(passports: Map<u128, PassportView>, o: Seq<char>) -> Set<
    u128,
> {
    Set::new(|id: u128| passports.contains_key(id) && passports[id].owner == o)
}

impl StoreView {
    /// Per-note record invariant: the key matches the ID, the ID was issued
    /// by the counter, the grantee list is duplicate-free, never contains the
    /// owner and respects the share ceiling, and the payload respects the
    /// size ceiling.
    pub open spec fn notes_inv(self) -> bool {
        &&& self.next_note_id >= 1
        &&& self.notes.dom().finite()
        &&& forall|id: u128| #[trigger]
            self.notes.contains_key(id) ==> {
                let n = self.notes[id];
                &&& n.id == id
                &&& 1 <= id < self.next_note_id
                &&& n.users.no_duplicates()
                &&& !n.users.contains(n.owner)
                &&& n.users.len() <= MAX_SHARES_PER_NOTE
                &&& n.text.len() <= MAX_PAYLOAD_CHARS
            }
    }

    /// Owner-index symmetry for notes: every bucket is non-empty,
    /// duplicate-free, within the per-owner ceiling and holds exactly the
    /// IDs of the notes its owner owns; every note is indexed; the number of
    /// distinct owners respects the global ceiling.
    pub open spec fn note_owner_index_inv(self) -> bool {
        &&& self.note_owners.dom().finite()
        &&& self.note_owners.dom().len() <= MAX_USERS
        &&& forall|o: Seq<char>| #[trigger]
            self.note_owners.contains_key(o) ==> {
                let b = self.note_owners[o];
                &&& b.len() >= 1
                &&& b.len() <= MAX_ITEMS_PER_OWNER
                &&& b.no_duplicates()
                &&& b.to_set() == owned_note_ids(self.notes, o)
            }
        &&& forall|id: u128| #[trigger]
            self.notes.contains_key(id) ==> self.note_owners.contains_key(self.notes[id].owner)
    }

    /// Share-index symmetry: every bucket is non-empty, duplicate-free and
    /// holds exactly the IDs of the notes shared with its grantee; every
    /// grantee of every note is indexed.
    pub open spec fn note_share_index_inv(self) -> bool {
        &&& self.note_shares.dom().finite()
        &&& forall|u: Seq<char>| #[trigger]
            self.note_shares.contains_key(u) ==> {
                let b = self.note_shares[u];
                &&& b.len() >= 1
                &&& b.no_duplicates()
                &&& b.to_set() == shared_note_ids(self.notes, u)
            }
        &&& forall|id: u128, u: Seq<char>|
            self.notes.contains_key(id) && #[trigger] self.notes[id].users.contains(u)
                ==> self.note_shares.contains_key(u)
    }

    /// Per-passport record invariant and owner-index symmetry for passports.
    pub open spec fn passports_inv(self) -> bool {
        &&& self.next_passport_id >= 1
        &&& self.passports.dom().finite()
        &&& forall|id: u128| #[trigger]
            self.passports.contains_key(id) ==> {
                let p = self.passports[id];
                &&& p.id == id
                &&& 1 <= id < self.next_passport_id
                &&& p.encrypted_specifications.len() <= MAX_PAYLOAD_CHARS
            }
        &&& self.passport_owners.dom().finite()
        &&& self.passport_owners.dom().len() <= MAX_USERS
        &&& forall|o: Seq<char>| #[trigger]
            self.passport_owners.contains_key(o) ==> {
                let b = self.passport_owners[o];
                &&& b.len() >= 1
                &&& b.len() <= MAX_ITEMS_PER_OWNER
                &&& b.no_duplicates()
                &&& b.to_set() == owned_passport_ids(self.passports, o)
            }
        &&& forall|id: u128| #[trigger]
            self.passports.contains_key(id) ==> self.passport_owners.contains_key(
                self.passports[id].owner,
            )
    }

    /// Per-memory record invariant: the key matches the ID, the ID was
    /// issued by the counter, the importance score is clamped to `[0, 100]`,
    /// the payload respects the size ceiling, and the memory's passport
    /// exists and belongs to the memory's owner.
    pub open spec fn memories_inv(self) -> bool {
        &&& self.next_memory_id >= 1
        &&& self.memories.dom().finite()
        &&& forall|id: u128| #[trigger]
            self.memories.contains_key(id) ==> {
                let m = self.memories[id];
                &&& m.id == id
                &&& 1 <= id < self.next_memory_id
                &&& m.importance_score <= 100
                &&& m.encrypted_content.len() <= MAX_PAYLOAD_CHARS
                &&& self.passports.contains_key(m.passport_id)
                &&& self.passports[m.passport_id].owner == m.owner
            }
    }

    /// Per-job record invariant: the key matches the job ID, progress is
    /// clamped to `[0, 100]`, a job is completed exactly when its progress
    /// reached 100, exactly the completed jobs carry a completion timestamp,
    /// every completed job records a result identifier, and a pending job
    /// has made no progress.
    pub open spec fn jobs_inv(self) -> bool {
        &&& self.jobs.dom().finite()
        &&& forall|k: Seq<char>| #[trigger]
            self.jobs.contains_key(k) ==> {
                let j = self.jobs[k];
                &&& j.job_id == k
                &&& j.progress <= 100
                &&& (j.status == JobStatus::Completed <==> j.progress == 100)
                &&& (j.status == JobStatus::Completed <==> j.completed_at is Some)
                &&& (j.status == JobStatus::Completed ==> j.result_dataset_id is Some)
                &&& (j.status == JobStatus::Pending ==> j.progress == 0)
            }
    }

    /// The cross-map invariant of the whole store.
    pub open spec fn inv(self) -> bool {
        &&& self.notes_inv()
        &&& self.note_owner_index_inv()
        &&& self.note_share_index_inv()
        &&& self.passports_inv()
        &&& self.memories_inv()
        &&& self.jobs_inv()
    }
}

/// No operation ever lowers an ID counter.
pub open spec fn counters_nondecreasing(pre: StoreView, post: StoreView) -> bool {
    &&& post.next_note_id >= pre.next_note_id
    &&& post.next_passport_id >= pre.next_passport_id
    &&& post.next_memory_id >= pre.next_memory_id
}

/// The note maps (entities, both indices and the counter) are untouched.
pub open spec fn notes_unchanged(pre: StoreView, post: StoreView) -> bool {
    &&& post.next_note_id == pre.next_note_id
    &&& post.notes == pre.notes
    &&& post.note_owners == pre.note_owners
    &&& post.note_shares == pre.note_shares
}

/// The passport maps and their counter are untouched.
pub open spec fn passports_unchanged(pre: StoreView, post: StoreView) -> bool {
    &&& post.next_passport_id == pre.next_passport_id
    &&& post.passports == pre.passports
    &&& post.passport_owners == pre.passport_owners
}

/// The memory map and its counter are untouched.
pub open spec fn memories_unchanged(pre: StoreView, post: StoreView) -> bool {
    &&& post.next_memory_id == pre.next_memory_id
    &&& post.memories == pre.memories
}

/// The job map is untouched.
pub open spec fn jobs_unchanged(pre: StoreView, post: StoreView) -> bool {
    post.jobs == pre.jobs
}

/// The process-wide store: one counter per allocator-backed entity kind, one
/// map per entity kind, and the owner/share indices.
///
/// Construct it through [`Store::new`], which establishes [`Store::wf`];
/// every operation requires and preserves it.  The counters are initialized
/// before the maps that hold the IDs they issue.
pub struct Store {
    pub next_note_id: u128,
    pub next_passport_id: u128,
    pub next_memory_id: u128,
    pub notes: KvMap<u128, EncryptedNote>,
    pub note_owners: KvMap<String, NoteIds>,
    pub note_shares: KvMap<String, NoteIds>,
    pub passports: KvMap<u128, AgentPassport>,
    pub passport_owners: KvMap<String, PassportIds>,
    pub memories: KvMap<u128, AgentMemory>,
    pub jobs: KvMap<String, SyntheticDataJob>,
}

impl View for Store {
    type V = StoreView;

    open spec fn view(&self) -> StoreView {
        StoreView {
            next_note_id: self.next_note_id,
            next_passport_id: self.next_passport_id,
            next_memory_id: self.next_memory_id,
            notes: self.notes@,
            note_owners: self.note_owners@,
            note_shares: self.note_shares@,
            passports: self.passports@,
            passport_owners: self.passport_owners@,
            memories: self.memories@,
            jobs: self.jobs@,
        }
    }
}

impl Store {
    /// Structural well-formedness of the backing maps.
    pub open spec fn maps_wf(&self) -> bool {
        &&& self.notes.wf()
        &&& self.note_owners.wf()
        &&& self.note_shares.wf()
        &&& self.passports.wf()
        &&& self.passport_owners.wf()
        &&& self.memories.wf()
        &&& self.jobs.wf()
    }

    /// Well-formedness: the backing maps are sound and the cross-map
    /// invariant holds of the view.
    pub open spec fn wf(&self) -> bool {
        &&& self.maps_wf()
        &&& self@.inv()
    }

    /// A fresh, empty store.  Counters start at 1.
    pub fn new() -> (r: Store)
        ensures
            r.wf(),
            r@.next_note_id == 1,
            r@.next_passport_id == 1,
            r@.next_memory_id == 1,
            r@.notes == Map::<u128, NoteView>::empty(),
            r@.note_owners == Map::<Seq<char>, Seq<u128>>::empty(),
            r@.note_shares == Map::<Seq<char>, Seq<u128>>::empty(),
            r@.passports == Map::<u128, PassportView>::empty(),
            r@.passport_owners == Map::<Seq<char>, Seq<u128>>::empty(),
            r@.memories == Map::<u128, MemoryView>::empty(),
            r@.jobs == Map::<Seq<char>, JobView>::empty(),
    {
        let r = Store {
            next_note_id: 1,
            next_passport_id: 1,
            next_memory_id: 1,
            notes: KvMap::new(),
            note_owners: KvMap::new(),
            note_shares: KvMap::new(),
            passports: KvMap::new(),
            passport_owners: KvMap::new(),
            memories: KvMap::new(),
            jobs: KvMap::new(),
        };
        proof {
            assert(r@.notes.dom() =~= Set::empty());
            assert(r@.note_owners.dom() =~= Set::empty());
            assert(r@.note_shares.dom() =~= Set::empty());
            assert(r@.passports.dom() =~= Set::empty());
            assert(r@.passport_owners.dom() =~= Set::empty());
            assert(r@.memories.dom() =~= Set::empty());
            assert(r@.jobs.dom() =~= Set::empty());
        }
        r
    }
}

} // verus!
