//! The laws of the store, stated and proved once over the spec-level
//! transitions that the operations' contracts commit to.

use crate::entities::{can_read_note, can_write_note, JobStatus};
use crate::jobs::{advance_invalid, job_complete_ok};
use crate::notes::{add_user_ok, create_note_ok, note_create_allowed, remove_user_ok};
use crate::numfmt::dec_str;
use crate::store::{owned_note_ids, owned_passport_ids, shared_note_ids, StoreView};
use crate::util::{lemma_seq_push_unique, lemma_seq_remove_val, seq_remove_val};
use crate::MAX_ITEMS_PER_OWNER;
use vstd::prelude::*;

verus! {

/// Index symmetry: in every well-formed store, each owner bucket holds
/// exactly the IDs of the notes (or passports) its owner owns, and each
/// share bucket exactly the IDs of the notes shared with its grantee.
pub proof fn lemma_index_symmetry(s: StoreView)
    requires
        s.inv(),
    ensures
        forall|o: Seq<char>| #[trigger]
            s.note_owners.contains_key(o) ==> s.note_owners[o].to_set() == owned_note_ids(
                s.notes,
                o,
            ),
        forall|u: Seq<char>| #[trigger]
            s.note_shares.contains_key(u) ==> s.note_shares[u].to_set() == shared_note_ids(
                s.notes,
                u,
            ),
        forall|o: Seq<char>| #[trigger]
            s.passport_owners.contains_key(o) ==> s.passport_owners[o].to_set()
                == owned_passport_ids(s.passports, o),
{
}

/// No dangling index: in every well-formed store, every ID held by any
/// owner or share bucket resolves to a stored entity.
pub proof fn lemma_no_dangling_index(s: StoreView)
    requires
        s.inv(),
    ensures
        forall|o: Seq<char>, id: u128|
            s.note_owners.contains_key(o) && #[trigger] s.note_owners[o].contains(id)
                ==> s.notes.contains_key(id),
        forall|u: Seq<char>, id: u128|
            s.note_shares.contains_key(u) && #[trigger] s.note_shares[u].contains(id)
                ==> s.notes.contains_key(id),
        forall|o: Seq<char>, id: u128|
            s.passport_owners.contains_key(o) && #[trigger] s.passport_owners[o].contains(id)
                ==> s.passports.contains_key(id),
{
    assert forall|o: Seq<char>, id: u128|
        s.note_owners.contains_key(o) && #[trigger] s.note_owners[o].contains(id)
            implies s.notes.contains_key(id) by {
        assert(s.note_owners[o].to_set().contains(id));
        assert(owned_note_ids(s.notes, o).contains(id));
    }
    assert forall|u: Seq<char>, id: u128|
        s.note_shares.contains_key(u) && #[trigger] s.note_shares[u].contains(id)
            implies s.notes.contains_key(id) by {
        assert(s.note_shares[u].to_set().contains(id));
        assert(shared_note_ids(s.notes, u).contains(id));
    }
    assert forall|o: Seq<char>, id: u128|
        s.passport_owners.contains_key(o) && #[trigger] s.passport_owners[o].contains(id)
            implies s.passports.contains_key(id) by {
        assert(s.passport_owners[o].to_set().contains(id));
        assert(owned_passport_ids(s.passports, o).contains(id));
    }
}

/// ID uniqueness and monotonicity: two note creations, however many other
/// operations run in between, return strictly increasing IDs, and a fresh
/// ID never names an existing note.  Every operation's contract keeps the
/// counters non-decreasing, which supplies the middle hypothesis for any
/// interleaving.
pub proof fn lemma_note_ids_strictly_increase(
    pre0: StoreView,
    post0: StoreView,
    o1: Seq<char>,
    id1: u128,
    pre1: StoreView,
    post1: StoreView,
    o2: Seq<char>,
    id2: u128,
)
    requires
        create_note_ok(pre0, post0, o1, id1),
        pre1.next_note_id >= post0.next_note_id,
        create_note_ok(pre1, post1, o2, id2),
    ensures
        id2 > id1,
        !pre0.notes.contains_key(id1),
        !pre1.notes.contains_key(id2),
{
}

/// Authorization round-trip for note sharing: granting a non-owner lets
/// them read but not write; revoking the grant takes reading away again.
/// The owner can always do both.
pub proof fn lemma_share_round_trip(
    pre: StoreView,
    mid: StoreView,
    post: StoreView,
    id: u128,
    u: Seq<char>,
)
    requires
        pre.inv(),
        pre.notes.contains_key(id),
        u != pre.notes[id].owner,
        add_user_ok(pre, mid, id, u),
        remove_user_ok(mid, post, id, u),
    ensures
        can_read_note(mid.notes[id], u),
        !can_write_note(mid.notes[id], u),
        can_read_note(mid.notes[id], pre.notes[id].owner),
        can_write_note(mid.notes[id], pre.notes[id].owner),
        !can_read_note(post.notes[id], u),
{
    let n = pre.notes[id];
    if n.users.contains(u) {
        assert(mid == pre);
    } else {
        assert(!n.users.contains(u));
        lemma_seq_push_unique(n.users, u);
        assert(mid.notes[id].users.contains(u));
    }
    assert(mid.notes[id].owner == n.owner);
    assert(mid.notes[id].users.no_duplicates()) by {
        if !n.users.contains(u) {
            lemma_seq_push_unique(n.users, u);
        }
    }
    assert(!mid.notes[id].users.contains(mid.notes[id].owner)) by {
        if !n.users.contains(u) {
            lemma_seq_push_unique(n.users, u);
        }
    }
    assert(mid.notes[id].users.contains(u));
    lemma_seq_remove_val(mid.notes[id].users, u);
    assert(post.notes[id].users == seq_remove_val(mid.notes[id].users, u));
    assert(!post.notes[id].users.contains(u));
    assert(post.notes[id].owner == n.owner);
}

/// Capacity boundary: an owner holding the per-owner ceiling of notes is
/// refused one more.  Together with `create_note`'s contract — which
/// returns `CapacityExceeded` exactly when the guard refuses and leaves the
/// store untouched on every error — this is the boundary behaviour of the
/// guard.
pub proof fn lemma_capacity_boundary(s: StoreView, o: Seq<char>)
    requires
        s.inv(),
        s.note_owners.contains_key(o),
        s.note_owners[o].len() >= MAX_ITEMS_PER_OWNER,
    ensures
        !note_create_allowed(s, o),
{
}

/// Job completion happens exactly once: completing a job stamps its
/// completion time, records the fresh result note's ID, creates exactly one
/// new note, and leaves the job terminal, where every further advance is
/// refused.
pub proof fn lemma_job_completion(
    pre: StoreView,
    post: StoreView,
    k: Seq<char>,
    now: u64,
    payload: Seq<char>,
    nid: u128,
)
    requires
        pre.inv(),
        pre.jobs.contains_key(k),
        job_complete_ok(pre, post, k, now, payload, nid),
    ensures
        post.jobs[k].status == JobStatus::Completed,
        post.jobs[k].progress == 100,
        post.jobs[k].completed_at == Some(now),
        post.jobs[k].result_dataset_id == Some(dec_str(nid as nat)),
        !pre.notes.contains_key(nid),
        post.notes.dom() == pre.notes.dom().insert(nid),
        forall|p2: u8, st2: JobStatus| advance_invalid(post.jobs[k], p2, st2),
{
    assert(post.notes.dom() =~= pre.notes.dom().insert(nid));
    assert(post.jobs[k].status.is_terminal_spec());
}

/// A terminal job never moves: every advance request against it is invalid,
/// so the operation's contract forces `InvalidState` and an untouched store.
pub proof fn lemma_terminal_jobs_stay(s: StoreView, k: Seq<char>, p: u8, st: JobStatus)
    requires
        s.jobs.contains_key(k),
        s.jobs[k].status.is_terminal_spec(),
    ensures
        advance_invalid(s.jobs[k], p, st),
{
}

} // verus!
