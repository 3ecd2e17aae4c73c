//! Note operations: create, read, update payload, delete, share, unshare.
//!
//! Every mutating operation is all-or-nothing: it either commits the full
//! transition its contract describes, or returns an error and leaves the
//! store exactly as it was.

use crate::entities::{EncryptedNote, NoteIds, NoteView};
use crate::errors::CoreError;
use crate::store::{
    counters_nondecreasing, jobs_unchanged, memories_unchanged, owned_note_ids,
    passports_unchanged, shared_note_ids, Store, StoreView,
};
use crate::util::{
    clone_string_vec, lemma_seq_push_unique, lemma_seq_remove_val, seq_remove_val, string_eq,
    vec_contains_string,
};
use crate::{MAX_ITEMS_PER_OWNER, MAX_PAYLOAD_CHARS, MAX_USERS};
use vstd::prelude::*;
use vstd::string::StrSliceExecFns;

verus! {

/// The bucket held by key `k`, or the empty sequence when `k` is unindexed.
pub open spec fn bucket_of(m: Map<Seq<char>, Seq<u128>>, k: Seq<char>) -> Seq<u128> {
    if m.contains_key(k) {
        m[k]
    } else {
        Seq::empty()
    }
}

/// Whether the capacity guard admits one more note for `o`: an indexed owner
/// must be below the per-owner ceiling, a new owner must fit under the
/// distinct-owner ceiling.
pub open spec fn note_create_allowed(s: StoreView, o: Seq<char>) -> bool {
    if s.note_owners.contains_key(o) {
        s.note_owners[o].len() < MAX_ITEMS_PER_OWNER
    } else {
        s.note_owners.dom().len() < MAX_USERS
    }
}

/// The committed transition of inserting a fresh note for `o` with payload
/// `text`: the allocator hands out exactly `pre.next_note_id` and advances,
/// the note map and the owner bucket grow together, and nothing else moves.
pub open spec fn note_insert_ok(
    pre: StoreView,
    post: StoreView,
    o: Seq<char>,
    text: Seq<char>,
    id: u128,
) -> bool {
    &&& id == pre.next_note_id
    &&& post.next_note_id == pre.next_note_id + 1
    &&& !pre.notes.contains_key(id)
    &&& post.notes == pre.notes.insert(
        id,
        NoteView { id, owner: o, text, users: Seq::empty() },
    )
    &&& post.note_owners == pre.note_owners.insert(o, bucket_of(pre.note_owners, o).push(id))
    &&& post.note_shares == pre.note_shares
    &&& passports_unchanged(pre, post)
    &&& memories_unchanged(pre, post)
    &&& jobs_unchanged(pre, post)
}

/// The committed transition of `create_note`: a fresh, empty note.
pub open spec fn create_note_ok(pre: StoreView, post: StoreView, o: Seq<char>, id: u128) -> bool {
    note_insert_ok(pre, post, o, Seq::empty(), id)
}

/// The committed transition of `update_note`: only the payload of note `id`
/// changes, and nothing else moves.
pub open spec fn update_note_ok(pre: StoreView, post: StoreView, id: u128, text: Seq<char>) -> bool {
    &&& pre.notes.contains_key(id)
    &&& post.notes == pre.notes.insert(id, NoteView { text, ..pre.notes[id] })
    &&& post.note_owners == pre.note_owners
    &&& post.note_shares == pre.note_shares
    &&& post.next_note_id == pre.next_note_id
    &&& passports_unchanged(pre, post)
    &&& memories_unchanged(pre, post)
    &&& jobs_unchanged(pre, post)
}

/// The committed transition of `add_user`: sharing with the owner or with an
/// existing grantee changes nothing; otherwise the grantee joins the note's
/// list and the note joins the grantee's share bucket, together.
pub open spec fn add_user_ok(pre: StoreView, post: StoreView, id: u128, u: Seq<char>) -> bool {
    &&& pre.notes.contains_key(id)
    &&& if u == pre.notes[id].owner || pre.notes[id].users.contains(u) {
        post == pre
    } else {
        &&& post.notes == pre.notes.insert(
            id,
            NoteView { users: pre.notes[id].users.push(u), ..pre.notes[id] },
        )
        &&& post.note_shares == pre.note_shares.insert(u, bucket_of(pre.note_shares, u).push(id))
        &&& post.note_owners == pre.note_owners
        &&& post.next_note_id == pre.next_note_id
        &&& passports_unchanged(pre, post)
        &&& memories_unchanged(pre, post)
        &&& jobs_unchanged(pre, post)
    }
}

/// The committed transition of `remove_user`: unsharing from a non-grantee
/// changes nothing; otherwise the grantee leaves the note's list and the
/// note leaves the grantee's share bucket, which is dropped when it empties.
pub open spec fn remove_user_ok(pre: StoreView, post: StoreView, id: u128, u: Seq<char>) -> bool {
    &&& pre.notes.contains_key(id)
    &&& if !pre.notes[id].users.contains(u) {
        post == pre
    } else {
        let fb = seq_remove_val(bucket_of(pre.note_shares, u), id);
        &&& post.notes == pre.notes.insert(
            id,
            NoteView { users: seq_remove_val(pre.notes[id].users, u), ..pre.notes[id] },
        )
        &&& post.note_shares == if fb.len() == 0 {
            pre.note_shares.remove(u)
        } else {
            pre.note_shares.insert(u, fb)
        }
        &&& post.note_owners == pre.note_owners
        &&& post.next_note_id == pre.next_note_id
        &&& passports_unchanged(pre, post)
        &&& memories_unchanged(pre, post)
        &&& jobs_unchanged(pre, post)
    }
}

/// The committed transition of `delete_note`: the note, its entry in the
/// owner's bucket and its entry in every grantee's bucket disappear
/// together; a bucket that empties is dropped entirely.
pub open spec fn delete_note_ok(pre: StoreView, post: StoreView, id: u128) -> bool {
    let o = pre.notes[id].owner;
    let fb = seq_remove_val(bucket_of(pre.note_owners, o), id);
    &&& pre.notes.contains_key(id)
    &&& post.notes == pre.notes.remove(id)
    &&& post.note_owners == if fb.len() == 0 {
        pre.note_owners.remove(o)
    } else {
        pre.note_owners.insert(o, fb)
    }
    &&& forall|u: Seq<char>|
        #[trigger] bucket_of(post.note_shares, u) == if pre.notes[id].users.contains(u) {
            seq_remove_val(bucket_of(pre.note_shares, u), id)
        } else {
            bucket_of(pre.note_shares, u)
        }
    &&& forall|u: Seq<char>| #[trigger]
        post.note_shares.contains_key(u) ==> bucket_of(post.note_shares, u).len() > 0
    &&& post.next_note_id == pre.next_note_id
    &&& passports_unchanged(pre, post)
    &&& memories_unchanged(pre, post)
    &&& jobs_unchanged(pre, post)
}

impl Store {
    /// Inserts a fresh note owned by `owner` with the given payload, through
    /// the allocator and the capacity guard.  This is the single creation
    /// path for notes: `create_note` uses it with an empty payload, and a
    /// completed generation job uses it for its result dataset.
    pub fn insert_note_for_owner(&mut self, owner: &String, encrypted_text: String) -> (r: Result<
        u128,
        CoreError,
    >)
        requires
            old(self).wf(),
            encrypted_text@.len() <= MAX_PAYLOAD_CHARS,
        ensures
            final(self).wf(),
            counters_nondecreasing(old(self)@, final(self)@),
            match r {
                Ok(id) => {
                    &&& note_create_allowed(old(self)@, owner@)
                    &&& old(self)@.next_note_id < u128::MAX
                    &&& note_insert_ok(old(self)@, final(self)@, owner@, encrypted_text@, id)
                },
                Err(e) => {
                    &&& final(self)@ == old(self)@
                    &&& (e == CoreError::CapacityExceeded <==> !note_create_allowed(
                        old(self)@,
                        owner@,
                    ))
                    &&& (e == CoreError::AllocatorExhausted <==> note_create_allowed(
                        old(self)@,
                        owner@,
                    ) && old(self)@.next_note_id == u128::MAX)
                    &&& (e == CoreError::CapacityExceeded || e == CoreError::AllocatorExhausted)
                },
            },
    {
        let ghost pre = self@;
        let ghost o = owner@;
        let ghost t = encrypted_text@;

        // Capacity guard, before any mutation.
        let cap_ok: bool = match self.note_owners.get(owner) {
            Some(b) => b.ids.len() < MAX_ITEMS_PER_OWNER,
            None => self.note_owners.len() < MAX_USERS,
        };
        if !cap_ok {
            return Err(CoreError::CapacityExceeded);
        }
        if self.next_note_id == u128::MAX {
            return Err(CoreError::AllocatorExhausted);
        }

        let id = self.next_note_id;
        proof {
            assert(!pre.notes.contains_key(id));
        }
        let new_note = EncryptedNote {
            id,
            encrypted_text,
            owner: owner.clone(),
            users: Vec::new(),
        };
        proof {
            assert(new_note@.users =~= Seq::<Seq<char>>::empty());
            assert(new_note@ =~= (NoteView { id, owner: o, text: t, users: Seq::empty() }));
        }
        let new_bucket: NoteIds = match self.note_owners.get(owner) {
            Some(b) => {
                let mut ids = crate::entities::clone_id_vec(&b.ids);
                ids.push(id);
                NoteIds { ids }
            },
            None => {
                let mut ids: Vec<u128> = Vec::new();
                ids.push(id);
                NoteIds { ids }
            },
        };
        proof {
            let pb = bucket_of(pre.note_owners, o);
            assert(!pb.contains(id)) by {
                if pre.note_owners.contains_key(o) {
                    assert(pb.to_set() == owned_note_ids(pre.notes, o));
                    if pb.contains(id) {
                        assert(pb.to_set().contains(id));
                        assert(pre.notes.contains_key(id));
                    }
                }
            }
            if pre.note_owners.contains_key(o) {
                assert(pb.no_duplicates());
            }
            lemma_seq_push_unique(pb, id);
            assert(new_bucket@ == pb.push(id));
        }
        self.note_owners.insert(owner.clone(), new_bucket);
        self.notes.insert(id, new_note);
        self.next_note_id = id + 1;

        proof {
            let post = self@;
            let nv = NoteView { id, owner: o, text: t, users: Seq::empty() };
            let pb = bucket_of(pre.note_owners, o);
            let nb = pb.push(id);

            // How the ownership sets moved.
            assert(owned_note_ids(post.notes, o) =~= owned_note_ids(pre.notes, o).insert(id));
            assert forall|o2: Seq<char>| o2 != o implies owned_note_ids(post.notes, o2)
                == owned_note_ids(pre.notes, o2) by {
                assert(owned_note_ids(post.notes, o2) =~= owned_note_ids(pre.notes, o2));
            }
            assert forall|u: Seq<char>|
                shared_note_ids(post.notes, u) == shared_note_ids(pre.notes, u) by {
                assert(!nv.users.contains(u));
                assert(shared_note_ids(post.notes, u) =~= shared_note_ids(pre.notes, u));
            }

            // Notes and their records.
            assert(post.notes_inv());

            // Owner index.
            if pre.note_owners.contains_key(o) {
                assert(post.note_owners.dom() =~= pre.note_owners.dom());
            } else {
                assert(post.note_owners.dom() =~= pre.note_owners.dom().insert(o));
                assert(owned_note_ids(pre.notes, o) =~= Set::<u128>::empty()) by {
                    assert forall|nid: u128|
                        !owned_note_ids(pre.notes, o).contains(nid) by {
                        if pre.notes.contains_key(nid) && pre.notes[nid].owner == o {
                            assert(pre.note_owners.contains_key(o));
                        }
                    }
                }
                assert(pb.to_set() =~= Set::<u128>::empty());
            }
            assert(nb.to_set() == pb.to_set().insert(id));
            assert forall|o2: Seq<char>| #[trigger]
                post.note_owners.contains_key(o2) implies {
                let b = post.note_owners[o2];
                &&& b.len() >= 1
                &&& b.len() <= MAX_ITEMS_PER_OWNER
                &&& b.no_duplicates()
                &&& b.to_set() == owned_note_ids(post.notes, o2)
            } by {
                if o2 == o {
                    if pre.note_owners.contains_key(o) {
                        assert(pb.to_set().insert(id) =~= owned_note_ids(pre.notes, o).insert(
                            id,
                        ));
                    } else {
                        assert(pb.to_set().insert(id) =~= owned_note_ids(pre.notes, o).insert(
                            id,
                        ));
                    }
                } else {
                    assert(pre.note_owners.contains_key(o2));
                }
            }
            assert(post.note_owner_index_inv());

            // Share index: untouched, and the new note shares with nobody.
            assert forall|u: Seq<char>| #[trigger]
                post.note_shares.contains_key(u) implies {
                let b = post.note_shares[u];
                &&& b.len() >= 1
                &&& b.no_duplicates()
                &&& b.to_set() == shared_note_ids(post.notes, u)
            } by {
                assert(pre.note_shares.contains_key(u));
            }
            assert forall|nid: u128, u: Seq<char>|
                post.notes.contains_key(nid) && #[trigger] post.notes[nid].users.contains(u)
                    implies post.note_shares.contains_key(u) by {
                if nid == id {
                    assert(!nv.users.contains(u));
                } else {
                    assert(pre.notes.contains_key(nid));
                }
            }
            assert(post.note_share_index_inv());

            assert(post.passports_inv());
            assert(post.memories_inv());
            assert(post.jobs_inv());
        }
        Ok(id)
    }

    /// Adds a new empty note for `owner` and returns its fresh ID.
    ///
    /// Fails with `CapacityExceeded` exactly when the capacity guard refuses
    /// one more note for `owner`, and with `AllocatorExhausted` exactly when
    /// the note counter cannot advance; a failed call leaves the store
    /// untouched.
    pub fn create_note(&mut self, owner: &String) -> (r: Result<u128, CoreError>)
        requires
            old(self).wf(),
        ensures
            final(self).wf(),
            counters_nondecreasing(old(self)@, final(self)@),
            match r {
                Ok(id) => {
                    &&& note_create_allowed(old(self)@, owner@)
                    &&& old(self)@.next_note_id < u128::MAX
                    &&& create_note_ok(old(self)@, final(self)@, owner@, id)
                },
                Err(e) => {
                    &&& final(self)@ == old(self)@
                    &&& (e == CoreError::CapacityExceeded <==> !note_create_allowed(
                        old(self)@,
                        owner@,
                    ))
                    &&& (e == CoreError::AllocatorExhausted <==> note_create_allowed(
                        old(self)@,
                        owner@,
                    ) && old(self)@.next_note_id == u128::MAX)
                    &&& (e == CoreError::CapacityExceeded || e == CoreError::AllocatorExhausted)
                },
            },
    {
        let text = String::new();
        let r = self.insert_note_for_owner(owner, text);
        r
    }

    /// Replaces the payload of note `id` with `encrypted_text`.
    ///
    /// Only the owner may write.  Fails with `NotFound` exactly when the
    /// note does not exist, `Unauthorized` exactly when the caller is not
    /// the owner, and `PayloadTooLarge` exactly when the new payload
    /// exceeds the size ceiling; a failed call leaves the store untouched.
    pub fn update_note(&mut self, caller: &String, id: u128, encrypted_text: String) -> (r: Result<
        (),
        CoreError,
    >)
        requires
            old(self).wf(),
        ensures
            final(self).wf(),
            counters_nondecreasing(old(self)@, final(self)@),
            match r {
                Ok(()) => {
                    &&& old(self)@.notes.contains_key(id)
                    &&& caller@ == old(self)@.notes[id].owner
                    &&& encrypted_text@.len() <= MAX_PAYLOAD_CHARS
                    &&& update_note_ok(old(self)@, final(self)@, id, encrypted_text@)
                },
                Err(e) => {
                    &&& final(self)@ == old(self)@
                    &&& (e == CoreError::NotFound <==> !old(self)@.notes.contains_key(id))
                    &&& (e == CoreError::Unauthorized <==> old(self)@.notes.contains_key(id)
                        && caller@ != old(self)@.notes[id].owner)
                    &&& (e == CoreError::PayloadTooLarge <==> old(self)@.notes.contains_key(id)
                        && caller@ == old(self)@.notes[id].owner && encrypted_text@.len()
                        > MAX_PAYLOAD_CHARS)
                    &&& (e == CoreError::NotFound || e == CoreError::Unauthorized || e
                        == CoreError::PayloadTooLarge)
                },
            },
    {
        let ghost pre = self@;
        let ghost t = encrypted_text@;
        let n = match self.notes.get(&id) {
            None => {
                return Err(CoreError::NotFound);
            },
            Some(n) => n,
        };
        if !string_eq(caller, &n.owner) {
            return Err(CoreError::Unauthorized);
        }
        if encrypted_text.as_str().unicode_len() > MAX_PAYLOAD_CHARS {
            return Err(CoreError::PayloadTooLarge);
        }
        let updated = EncryptedNote {
            id: n.id,
            encrypted_text,
            owner: n.owner.clone(),
            users: clone_string_vec(&n.users),
        };
        proof {
            assert(updated@ =~= (NoteView { text: t, ..pre.notes[id] }));
        }
        self.notes.insert(id, updated);
        proof {
            let post = self@;
            assert forall|o2: Seq<char>|
                owned_note_ids(post.notes, o2) == owned_note_ids(pre.notes, o2) by {
                assert(owned_note_ids(post.notes, o2) =~= owned_note_ids(pre.notes, o2));
            }
            assert forall|u: Seq<char>|
                shared_note_ids(post.notes, u) == shared_note_ids(pre.notes, u) by {
                assert(shared_note_ids(post.notes, u) =~= shared_note_ids(pre.notes, u));
            }
            assert(post.notes_inv());
            assert forall|o2: Seq<char>| #[trigger]
                post.note_owners.contains_key(o2) implies {
                let b = post.note_owners[o2];
                &&& b.len() >= 1
                &&& b.len() <= MAX_ITEMS_PER_OWNER
                &&& b.no_duplicates()
                &&& b.to_set() == owned_note_ids(post.notes, o2)
            } by {
                assert(pre.note_owners.contains_key(o2));
            }
            assert forall|nid: u128| #[trigger]
                post.notes.contains_key(nid) implies post.note_owners.contains_key(
                post.notes[nid].owner,
            ) by {
                assert(pre.notes.contains_key(nid));
                assert(post.notes[nid].owner == pre.notes[nid].owner);
            }
            assert(post.note_owner_index_inv());
            assert forall|u: Seq<char>| #[trigger]
                post.note_shares.contains_key(u) implies {
                let b = post.note_shares[u];
                &&& b.len() >= 1
                &&& b.no_duplicates()
                &&& b.to_set() == shared_note_ids(post.notes, u)
            } by {
                assert(pre.note_shares.contains_key(u));
            }
            assert forall|nid: u128, u: Seq<char>|
                post.notes.contains_key(nid) && #[trigger] post.notes[nid].users.contains(u)
                    implies post.note_shares.contains_key(u) by {
                assert(pre.notes.contains_key(nid));
                assert(pre.notes[nid].users.contains(u));
            }
            assert(post.note_share_index_inv());
        }
        Ok(())
    }

    /// Shares note `note_id` with `user`.  Sharing with the owner or with an
    /// existing grantee has no effect.
    ///
    /// Only the owner may share.  Fails with `NotFound` exactly when the
    /// note does not exist, `Unauthorized` exactly when the caller is not
    /// the owner, and `CapacityExceeded` exactly when a new grantee would
    /// push the note past the share ceiling; a failed call leaves the store
    /// untouched.
    pub fn add_user(&mut self, caller: &String, note_id: u128, user: String) -> (r: Result<
        (),
        CoreError,
    >)
        requires
            old(self).wf(),
        ensures
            final(self).wf(),
            counters_nondecreasing(old(self)@, final(self)@),
            match r {
                Ok(()) => {
                    &&& old(self)@.notes.contains_key(note_id)
                    &&& caller@ == old(self)@.notes[note_id].owner
                    &&& add_user_ok(old(self)@, final(self)@, note_id, user@)
                },
                Err(e) => {
                    &&& final(self)@ == old(self)@
                    &&& (e == CoreError::NotFound <==> !old(self)@.notes.contains_key(note_id))
                    &&& (e == CoreError::Unauthorized <==> old(self)@.notes.contains_key(note_id)
                        && caller@ != old(self)@.notes[note_id].owner)
                    &&& (e == CoreError::CapacityExceeded <==> {
                        let n = old(self)@.notes[note_id];
                        &&& old(self)@.notes.contains_key(note_id)
                        &&& caller@ == n.owner
                        &&& user@ != n.owner
                        &&& !n.users.contains(user@)
                        &&& n.users.len() >= crate::MAX_SHARES_PER_NOTE
                    })
                    &&& (e == CoreError::NotFound || e == CoreError::Unauthorized || e
                        == CoreError::CapacityExceeded)
                },
            },
    {
        let ghost pre = self@;
        let ghost u = user@;
        let n = match self.notes.get(&note_id) {
            None => {
                return Err(CoreError::NotFound);
            },
            Some(n) => n,
        };
        if !string_eq(caller, &n.owner) {
            return Err(CoreError::Unauthorized);
        }
        if string_eq(&user, &n.owner) {
            return Ok(());
        }
        if vec_contains_string(&n.users, &user) {
            return Ok(());
        }
        if n.users.len() >= crate::MAX_SHARES_PER_NOTE {
            return Err(CoreError::CapacityExceeded);
        }

        let mut users = clone_string_vec(&n.users);
        users.push(user.clone());
        let updated = EncryptedNote {
            id: n.id,
            encrypted_text: n.encrypted_text.clone(),
            owner: n.owner.clone(),
            users,
        };
        proof {
            assert(updated@.users =~= pre.notes[note_id].users.push(u));
            assert(updated@ =~= (NoteView {
                users: pre.notes[note_id].users.push(u),
                ..pre.notes[note_id]
            }));
            lemma_seq_push_unique(pre.notes[note_id].users, u);
        }
        let new_bucket: NoteIds = match self.note_shares.get(&user) {
            Some(b) => {
                let mut ids = crate::entities::clone_id_vec(&b.ids);
                ids.push(note_id);
                NoteIds { ids }
            },
            None => {
                let mut ids: Vec<u128> = Vec::new();
                ids.push(note_id);
                NoteIds { ids }
            },
        };
        proof {
            let sb = bucket_of(pre.note_shares, u);
            assert(!sb.contains(note_id)) by {
                if pre.note_shares.contains_key(u) {
                    if sb.contains(note_id) {
                        assert(sb.to_set().contains(note_id));
                        assert(shared_note_ids(pre.notes, u).contains(note_id));
                    }
                }
            }
            if pre.note_shares.contains_key(u) {
                assert(sb.no_duplicates());
            }
            lemma_seq_push_unique(sb, note_id);
            assert(new_bucket@ == sb.push(note_id));
        }
        self.notes.insert(note_id, updated);
        self.note_shares.insert(user, new_bucket);

        proof {
            let post = self@;
            let nv = NoteView { users: pre.notes[note_id].users.push(u), ..pre.notes[note_id] };
            let sb = bucket_of(pre.note_shares, u);
            let nb = sb.push(note_id);

            assert forall|o2: Seq<char>|
                owned_note_ids(post.notes, o2) == owned_note_ids(pre.notes, o2) by {
                assert(owned_note_ids(post.notes, o2) =~= owned_note_ids(pre.notes, o2));
            }
            assert(shared_note_ids(post.notes, u) =~= shared_note_ids(pre.notes, u).insert(
                note_id,
            ));
            assert forall|u2: Seq<char>| u2 != u implies shared_note_ids(post.notes, u2)
                == shared_note_ids(pre.notes, u2) by {
                assert(shared_note_ids(post.notes, u2) =~= shared_note_ids(pre.notes, u2));
            }

            assert(post.notes_inv());

            assert forall|o2: Seq<char>| #[trigger]
                post.note_owners.contains_key(o2) implies {
                let b = post.note_owners[o2];
                &&& b.len() >= 1
                &&& b.len() <= MAX_ITEMS_PER_OWNER
                &&& b.no_duplicates()
                &&& b.to_set() == owned_note_ids(post.notes, o2)
            } by {
                assert(pre.note_owners.contains_key(o2));
            }
            assert forall|nid: u128| #[trigger]
                post.notes.contains_key(nid) implies post.note_owners.contains_key(
                post.notes[nid].owner,
            ) by {
                assert(pre.notes.contains_key(nid));
                assert(post.notes[nid].owner == pre.notes[nid].owner);
            }
            assert(post.note_owner_index_inv());

            if !pre.note_shares.contains_key(u) {
                assert(shared_note_ids(pre.notes, u) =~= Set::<u128>::empty()) by {
                    assert forall|nid: u128|
                        !shared_note_ids(pre.notes, u).contains(nid) by {
                        if pre.notes.contains_key(nid) && pre.notes[nid].users.contains(u) {
                            assert(pre.note_shares.contains_key(u));
                        }
                    }
                }
                assert(sb.to_set() =~= Set::<u128>::empty());
            }
            assert(nb.to_set() == sb.to_set().insert(note_id));
            assert forall|u2: Seq<char>| #[trigger]
                post.note_shares.contains_key(u2) implies {
                let b = post.note_shares[u2];
                &&& b.len() >= 1
                &&& b.no_duplicates()
                &&& b.to_set() == shared_note_ids(post.notes, u2)
            } by {
                if u2 == u {
                    assert(nb.to_set() =~= shared_note_ids(pre.notes, u).insert(note_id));
                } else {
                    assert(pre.note_shares.contains_key(u2));
                }
            }
            assert forall|nid: u128, u2: Seq<char>|
                post.notes.contains_key(nid) && #[trigger] post.notes[nid].users.contains(u2)
                    implies post.note_shares.contains_key(u2) by {
                if nid == note_id {
                    if u2 != u {
                        assert(pre.notes[nid].users.contains(u2));
                        assert(pre.note_shares.contains_key(u2));
                    }
                } else {
                    assert(pre.notes.contains_key(nid));
                    assert(pre.notes[nid].users.contains(u2));
                }
            }
            assert(post.note_share_index_inv());
        }
        Ok(())
    }

    /// Unshares note `note_id` from `user`.  Unsharing from a principal the
    /// note is not shared with has no effect.
    ///
    /// Only the owner may unshare.  Fails with `NotFound` exactly when the
    /// note does not exist and `Unauthorized` exactly when the caller is not
    /// the owner; a failed call leaves the store untouched.
    pub fn remove_user(&mut self, caller: &String, note_id: u128, user: String) -> (r: Result<
        (),
        CoreError,
    >)
        requires
            old(self).wf(),
        ensures
            final(self).wf(),
            counters_nondecreasing(old(self)@, final(self)@),
            match r {
                Ok(()) => {
                    &&& old(self)@.notes.contains_key(note_id)
                    &&& caller@ == old(self)@.notes[note_id].owner
                    &&& remove_user_ok(old(self)@, final(self)@, note_id, user@)
                },
                Err(e) => {
                    &&& final(self)@ == old(self)@
                    &&& (e == CoreError::NotFound <==> !old(self)@.notes.contains_key(note_id))
                    &&& (e == CoreError::Unauthorized <==> old(self)@.notes.contains_key(note_id)
                        && caller@ != old(self)@.notes[note_id].owner)
                    &&& (e == CoreError::NotFound || e == CoreError::Unauthorized)
                },
            },
    {
        let ghost pre = self@;
        let ghost u = user@;
        let n = match self.notes.get(&note_id) {
            None => {
                return Err(CoreError::NotFound);
            },
            Some(n) => n,
        };
        if !string_eq(caller, &n.owner) {
            return Err(CoreError::Unauthorized);
        }
        if !vec_contains_string(&n.users, &user) {
            return Ok(());
        }

        let users = crate::util::strings_remove(&n.users, &user);
        let updated = EncryptedNote {
            id: n.id,
            encrypted_text: n.encrypted_text.clone(),
            owner: n.owner.clone(),
            users,
        };
        proof {
            lemma_seq_remove_val(pre.notes[note_id].users, u);
            assert(updated@ =~= (NoteView {
                users: seq_remove_val(pre.notes[note_id].users, u),
                ..pre.notes[note_id]
            }));
        }

        // The grantee is indexed, because the note names it.
        proof {
            assert(pre.notes[note_id].users.contains(u));
            assert(pre.note_shares.contains_key(u));
        }
        let b = self.note_shares.get(&user).unwrap();
        let mut ids = crate::entities::clone_id_vec(&b.ids);
        crate::entities::ids_remove(&mut ids, note_id);
        proof {
            lemma_seq_remove_val(bucket_of(pre.note_shares, u), note_id);
        }

        self.notes.insert(note_id, updated);
        if ids.len() == 0 {
            self.note_shares.remove(&user);
        } else {
            self.note_shares.insert(user, NoteIds { ids });
        }

        proof {
            let post = self@;
            let pn = pre.notes[note_id];
            let nusers = seq_remove_val(pn.users, u);
            let fb = seq_remove_val(bucket_of(pre.note_shares, u), note_id);

            assert forall|o2: Seq<char>|
                owned_note_ids(post.notes, o2) == owned_note_ids(pre.notes, o2) by {
                assert(owned_note_ids(post.notes, o2) =~= owned_note_ids(pre.notes, o2));
            }
            assert(shared_note_ids(post.notes, u) =~= shared_note_ids(pre.notes, u).remove(
                note_id,
            ));
            assert forall|u2: Seq<char>| u2 != u implies shared_note_ids(post.notes, u2)
                == shared_note_ids(pre.notes, u2) by {
                assert(shared_note_ids(post.notes, u2) =~= shared_note_ids(pre.notes, u2));
            }

            assert(post.notes_inv());

            assert forall|o2: Seq<char>| #[trigger]
                post.note_owners.contains_key(o2) implies {
                let b2 = post.note_owners[o2];
                &&& b2.len() >= 1
                &&& b2.len() <= MAX_ITEMS_PER_OWNER
                &&& b2.no_duplicates()
                &&& b2.to_set() == owned_note_ids(post.notes, o2)
            } by {
                assert(pre.note_owners.contains_key(o2));
            }
            assert forall|nid: u128| #[trigger]
                post.notes.contains_key(nid) implies post.note_owners.contains_key(
                post.notes[nid].owner,
            ) by {
                assert(pre.notes.contains_key(nid));
                assert(post.notes[nid].owner == pre.notes[nid].owner);
            }
            assert(post.note_owner_index_inv());

            assert(fb.to_set() == shared_note_ids(pre.notes, u).remove(note_id));
            assert forall|u2: Seq<char>| #[trigger]
                post.note_shares.contains_key(u2) implies {
                let b2 = post.note_shares[u2];
                &&& b2.len() >= 1
                &&& b2.no_duplicates()
                &&& b2.to_set() == shared_note_ids(post.notes, u2)
            } by {
                if u2 == u {
                    assert(fb.len() > 0);
                } else {
                    assert(pre.note_shares.contains_key(u2));
                }
            }
            assert forall|nid: u128, u2: Seq<char>|
                post.notes.contains_key(nid) && #[trigger] post.notes[nid].users.contains(u2)
                    implies post.note_shares.contains_key(u2) by {
                if u2 == u {
                    if nid == note_id {
                        assert(!nusers.contains(u));
                    } else {
                        assert(shared_note_ids(post.notes, u).contains(nid));
                        assert(fb.to_set().contains(nid));
                        assert(fb.len() > 0);
                    }
                } else {
                    if nid == note_id {
                        assert(pn.users.contains(u2));
                    } else {
                        assert(pre.notes[nid].users.contains(u2));
                    }
                    assert(pre.note_shares.contains_key(u2));
                }
            }
            assert(post.note_share_index_inv());
        }
        Ok(())
    }

    /// Deletes note `note_id`: the note itself, its entry in the owner's
    /// index bucket and its entry in every grantee's share bucket go
    /// together, and a bucket that empties is dropped entirely.
    ///
    /// Only the owner may delete.  Fails with `NotFound` exactly when the
    /// note does not exist and `Unauthorized` exactly when the caller is not
    /// the owner; a failed call leaves the store untouched.
    pub fn delete_note(&mut self, caller: &String, note_id: u128) -> (r: Result<(), CoreError>)
        requires
            old(self).wf(),
        ensures
            final(self).wf(),
            counters_nondecreasing(old(self)@, final(self)@),
            match r {
                Ok(()) => {
                    &&& old(self)@.notes.contains_key(note_id)
                    &&& caller@ == old(self)@.notes[note_id].owner
                    &&& delete_note_ok(old(self)@, final(self)@, note_id)
                },
                Err(e) => {
                    &&& final(self)@ == old(self)@
                    &&& (e == CoreError::NotFound <==> !old(self)@.notes.contains_key(note_id))
                    &&& (e == CoreError::Unauthorized <==> old(self)@.notes.contains_key(note_id)
                        && caller@ != old(self)@.notes[note_id].owner)
                    &&& (e == CoreError::NotFound || e == CoreError::Unauthorized)
                },
            },
    {
        let ghost pre = self@;
        let n = match self.notes.get(&note_id) {
            None => {
                return Err(CoreError::NotFound);
            },
            Some(n) => n,
        };
        if !string_eq(caller, &n.owner) {
            return Err(CoreError::Unauthorized);
        }
        let owner_s = n.owner.clone();
        let users = clone_string_vec(&n.users);
        let ghost o = owner_s@;
        let ghost uv = pre.notes[note_id].users;

        // Scrub the owner's bucket; the owner is indexed because the note
        // exists.
        let ob = self.note_owners.get(&owner_s).unwrap();
        let mut ids = crate::entities::clone_id_vec(&ob.ids);
        crate::entities::ids_remove(&mut ids, note_id);
        proof {
            lemma_seq_remove_val(bucket_of(pre.note_owners, o), note_id);
        }
        self.notes.remove(&note_id);
        if ids.len() == 0 {
            self.note_owners.remove(&owner_s);
        } else {
            self.note_owners.insert(owner_s, NoteIds { ids });
        }

        let ghost mid = self@;

        // Scrub every grantee's bucket.  The note's grantee list is
        // duplicate-free, so each bucket is visited once.
        let mut k: usize = 0;
        while k < users.len()
            invariant
                self.maps_wf(),
                users.deep_view() == uv,
                users@.len() == uv.len(),
                forall|j: int| 0 <= j < uv.len() ==> uv[j] == #[trigger] users@[j]@,
                uv.no_duplicates(),
                0 <= k <= uv.len(),
                self@.notes == mid.notes,
                self@.note_owners == mid.note_owners,
                self@.next_note_id == mid.next_note_id,
                self@.next_passport_id == mid.next_passport_id,
                self@.next_memory_id == mid.next_memory_id,
                self@.passports == mid.passports,
                self@.passport_owners == mid.passport_owners,
                self@.memories == mid.memories,
                self@.jobs == mid.jobs,
                forall|u2: Seq<char>|
                    #[trigger] bucket_of(self@.note_shares, u2) == if uv.take(k as int).contains(
                        u2,
                    ) {
                        seq_remove_val(bucket_of(pre.note_shares, u2), note_id)
                    } else {
                        bucket_of(pre.note_shares, u2)
                    },
                forall|u2: Seq<char>| #[trigger]
                    self@.note_shares.contains_key(u2) <==> if uv.take(k as int).contains(u2) {
                        seq_remove_val(bucket_of(pre.note_shares, u2), note_id).len() > 0
                    } else {
                        pre.note_shares.contains_key(u2)
                    },
            decreases uv.len() - k,
        {
            let usr = &users[k];
            let ghost u2 = usr@;
            proof {
                assert(uv[k as int] == u2);
                assert(!uv.take(k as int).contains(u2)) by {
                    if uv.take(k as int).contains(u2) {
                        let j = choose|j: int|
                            0 <= j < k as int && #[trigger] uv.take(k as int)[j] == u2;
                        assert(uv[j] == uv[k as int]);
                    }
                }
                assert(uv.take(k + 1).drop_last() =~= uv.take(k as int));
                assert(uv.take(k + 1).last() == uv[k as int]);
                assert forall|x: Seq<char>| #[trigger]
                    uv.take(k + 1).contains(x) <==> (uv.take(k as int).contains(x) || x == u2) by {
                    if uv.take(k + 1).contains(x) {
                        let j = choose|j: int| 0 <= j < k + 1 && #[trigger] uv.take(k + 1)[j] == x;
                        if j < k as int {
                            assert(uv.take(k as int)[j] == x);
                        }
                    }
                    if uv.take(k as int).contains(x) {
                        let j = choose|j: int| 0 <= j < k as int && #[trigger] uv.take(k as int)[j] == x;
                        assert(uv.take(k + 1)[j] == x);
                    }
                    if x == u2 {
                        assert(uv.take(k + 1)[k as int] == x);
                    }
                }
            }
            let ghost fbu = seq_remove_val(bucket_of(pre.note_shares, u2), note_id);
            let ghost before = self@.note_shares;
            match self.note_shares.get(usr) {
                Some(b) => {
                    let mut bids = crate::entities::clone_id_vec(&b.ids);
                    crate::entities::ids_remove(&mut bids, note_id);
                    proof {
                        assert(b@ == before[u2]);
                        assert(bucket_of(before, u2) == before[u2]);
                        assert(bids@ == fbu);
                    }
                    if bids.len() == 0 {
                        self.note_shares.remove(usr);
                        proof {
                            assert(!self@.note_shares.contains_key(u2));
                        }
                    } else {
                        self.note_shares.insert(usr.clone(), NoteIds { ids: bids });
                        proof {
                            assert(self@.note_shares[u2] == fbu);
                        }
                    }
                },
                None => {
                    proof {
                        assert(bucket_of(pre.note_shares, u2) =~= Seq::<u128>::empty());
                        assert(fbu =~= Seq::<u128>::empty()) by {
                            reveal_with_fuel(Seq::filter, 2);
                        }
                    }
                },
            }
            k = k + 1;
            proof {
                if fbu.len() == 0 {
                    assert(fbu =~= Seq::<u128>::empty());
                }
                assert forall|x: Seq<char>|
                    #[trigger] bucket_of(self@.note_shares, x) == if uv.take(k as int).contains(
                        x,
                    ) {
                        seq_remove_val(bucket_of(pre.note_shares, x), note_id)
                    } else {
                        bucket_of(pre.note_shares, x)
                    } by {
                    if x == u2 {
                        if self@.note_shares.contains_key(u2) {
                            assert(bucket_of(self@.note_shares, u2) == fbu);
                        } else {
                            assert(bucket_of(self@.note_shares, u2) =~= fbu);
                        }
                    } else {
                        assert(self@.note_shares.contains_key(x) <==> before.contains_key(x));
                        assert(bucket_of(self@.note_shares, x) == bucket_of(before, x));
                    }
                }
                assert forall|x: Seq<char>| #[trigger]
                    self@.note_shares.contains_key(x) <==> if uv.take(k as int).contains(x) {
                        seq_remove_val(bucket_of(pre.note_shares, x), note_id).len() > 0
                    } else {
                        pre.note_shares.contains_key(x)
                    } by {
                    if x != u2 {
                        assert(self@.note_shares.contains_key(x) <==> before.contains_key(x));
                    }
                }
            }
        }
        proof {
            assert(uv.take(uv.len() as int) =~= uv);
            self.note_shares.lemma_dom_finite();

            let post = self@;
            let fb = seq_remove_val(bucket_of(pre.note_owners, o), note_id);

            // Ownership and share sets after the removal.
            assert(owned_note_ids(post.notes, o) =~= owned_note_ids(pre.notes, o).remove(
                note_id,
            ));
            assert forall|o2: Seq<char>| o2 != o implies owned_note_ids(post.notes, o2)
                == owned_note_ids(pre.notes, o2) by {
                assert(owned_note_ids(post.notes, o2) =~= owned_note_ids(pre.notes, o2));
            }
            assert forall|x: Seq<char>|
                shared_note_ids(post.notes, x) == if uv.contains(x) {
                    shared_note_ids(pre.notes, x).remove(note_id)
                } else {
                    shared_note_ids(pre.notes, x)
                } by {
                if uv.contains(x) {
                    assert(shared_note_ids(post.notes, x) =~= shared_note_ids(pre.notes, x).remove(
                        note_id,
                    ));
                } else {
                    assert(shared_note_ids(post.notes, x) =~= shared_note_ids(pre.notes, x));
                }
            }

            assert(post.notes_inv());

            // Owner index.
            assert(fb.to_set() == owned_note_ids(pre.notes, o).remove(note_id));
            assert forall|o2: Seq<char>| #[trigger]
                post.note_owners.contains_key(o2) implies {
                let b2 = post.note_owners[o2];
                &&& b2.len() >= 1
                &&& b2.len() <= MAX_ITEMS_PER_OWNER
                &&& b2.no_duplicates()
                &&& b2.to_set() == owned_note_ids(post.notes, o2)
            } by {
                if o2 == o {
                    assert(fb.len() > 0);
                } else {
                    assert(pre.note_owners.contains_key(o2));
                }
            }
            assert forall|nid: u128| #[trigger]
                post.notes.contains_key(nid) implies post.note_owners.contains_key(
                post.notes[nid].owner,
            ) by {
                assert(pre.notes.contains_key(nid));
                let o2 = post.notes[nid].owner;
                if o2 == o {
                    assert(owned_note_ids(post.notes, o).contains(nid));
                    assert(fb.to_set().contains(nid));
                    assert(fb.len() > 0);
                }
            }
            if post.note_owners.contains_key(o) {
                assert(post.note_owners.dom() =~= pre.note_owners.dom());
            }
            assert(post.note_owners.dom().len() <= MAX_USERS) by {
                if !post.note_owners.contains_key(o) {
                    assert(post.note_owners.dom().subset_of(pre.note_owners.dom()));
                    vstd::set_lib::lemma_len_subset(
                        post.note_owners.dom(),
                        pre.note_owners.dom(),
                    );
                }
            }
            assert(post.note_owner_index_inv());

            // Share index.
            assert forall|x: Seq<char>| #[trigger]
                post.note_shares.contains_key(x) implies {
                let b2 = post.note_shares[x];
                &&& b2.len() >= 1
                &&& b2.no_duplicates()
                &&& b2.to_set() == shared_note_ids(post.notes, x)
            } by {
                assert(bucket_of(post.note_shares, x) == post.note_shares[x]);
                if uv.contains(x) {
                    lemma_seq_remove_val(bucket_of(pre.note_shares, x), note_id);
                    assert(pre.note_shares.contains_key(x));
                    assert(post.note_shares[x].to_set() =~= shared_note_ids(post.notes, x));
                } else {
                    assert(bucket_of(post.note_shares, x) == bucket_of(pre.note_shares, x));
                    assert(pre.note_shares.contains_key(x)) by {
                        if !pre.note_shares.contains_key(x) {
                            assert(bucket_of(pre.note_shares, x).len() == 0);
                        }
                    }
                }
            }
            assert forall|nid: u128, x: Seq<char>|
                post.notes.contains_key(nid) && #[trigger] post.notes[nid].users.contains(x)
                    implies post.note_shares.contains_key(x) by {
                assert(pre.notes.contains_key(nid));
                assert(pre.notes[nid].users.contains(x));
                assert(pre.note_shares.contains_key(x));
                if uv.contains(x) {
                    assert(shared_note_ids(post.notes, x).contains(nid));
                    assert(shared_note_ids(pre.notes, x).remove(note_id).contains(nid));
                    lemma_seq_remove_val(bucket_of(pre.note_shares, x), note_id);
                    let fbx = seq_remove_val(bucket_of(pre.note_shares, x), note_id);
                    assert(fbx.to_set().contains(nid));
                    assert(fbx.len() > 0);
                }
            }
            assert(post.note_share_index_inv());
        }
        Ok(())
    }

    /// Returns the caller's notes: first the notes they own, in index
    /// order, then the notes shared with them.
    pub fn get_notes(&self, caller: &String) -> (r: Vec<EncryptedNote>)
        requires
            self.wf(),
        ensures
            ({
                let ob = bucket_of(self@.note_owners, caller@);
                let sb = bucket_of(self@.note_shares, caller@);
                &&& r@.len() == ob.len() + sb.len()
                &&& forall|i: int|
                    0 <= i < ob.len() ==> #[trigger] r@[i]@ == self@.notes[ob[i]]
                &&& forall|i: int|
                    0 <= i < sb.len() ==> #[trigger] r@[ob.len() + i]@ == self@.notes[sb[i]]
            }),
    {
        let ghost ob = bucket_of(self@.note_owners, caller@);
        let ghost sb = bucket_of(self@.note_shares, caller@);
        let mut out: Vec<EncryptedNote> = Vec::new();

        match self.note_owners.get(caller) {
            Some(b) => {
                let mut i: usize = 0;
                while i < b.ids.len()
                    invariant
                        self.wf(),
                        b.ids@ == ob,
                        ob == bucket_of(self@.note_owners, caller@),
                        self@.note_owners.contains_key(caller@),
                        ob.to_set() == owned_note_ids(self@.notes, caller@),
                        0 <= i <= ob.len(),
                        out@.len() == i,
                        forall|j: int| 0 <= j < i ==> #[trigger] out@[j]@ == self@.notes[ob[j]],
                    decreases ob.len() - i,
                {
                    let id = b.ids[i];
                    proof {
                        assert(ob.contains(ob[i as int]));
                        assert(ob.to_set().contains(id));
                        assert(owned_note_ids(self@.notes, caller@).contains(id));
                    }
                    let n = self.notes.get(&id).unwrap();
                    out.push(n.clone());
                    i = i + 1;
                }
            },
            None => {
                proof {
                    assert(ob.len() == 0);
                }
            },
        }
        proof {
            assert(out@.len() == ob.len());
        }
        match self.note_shares.get(caller) {
            Some(b) => {
                let mut i: usize = 0;
                while i < b.ids.len()
                    invariant
                        self.wf(),
                        b.ids@ == sb,
                        sb == bucket_of(self@.note_shares, caller@),
                        self@.note_shares.contains_key(caller@),
                        sb.to_set() == shared_note_ids(self@.notes, caller@),
                        0 <= i <= sb.len(),
                        out@.len() == ob.len() + i,
                        forall|j: int|
                            0 <= j < ob.len() ==> #[trigger] out@[j]@ == self@.notes[ob[j]],
                        forall|j: int|
                            0 <= j < i ==> #[trigger] out@[ob.len() + j]@ == self@.notes[sb[j]],
                    decreases sb.len() - i,
                {
                    let id = b.ids[i];
                    proof {
                        assert(sb.contains(sb[i as int]));
                        assert(sb.to_set().contains(id));
                        assert(shared_note_ids(self@.notes, caller@).contains(id));
                    }
                    let n = self.notes.get(&id).unwrap();
                    out.push(n.clone());
                    i = i + 1;
                }
            },
            None => {
                proof {
                    assert(sb.len() == 0);
                }
            },
        }
        out
    }
}

} // verus!
