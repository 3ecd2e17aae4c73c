//! Synthetic-data job operations: the asynchronous-generation lifecycle
//! `pending -> processing -> {completed | failed}`.
//!
//! A job's key is a caller-formed string built from the creation time and a
//! prefix of the owner's principal.  Progress is clamped to `[0, 100]` and
//! never decreases; reaching 100 forces the `completed` status, stamps the
//! completion time once, creates exactly one result note through the
//! store's single note-creation path, and records that note's ID on the job.
//! `completed` and `failed` are terminal: no operation leaves them.

use crate::entities::{
    can_read_note, EncryptedNote, JobStatus, JobView, NoteView, SyntheticDataJob,
    SyntheticDataRequest,
};
use crate::errors::CoreError;
use crate::kvmap::KvMap;
use crate::notes::{bucket_of, note_create_allowed};
use crate::numfmt::{dec_str, u128_to_dec_string};
use crate::store::{
    counters_nondecreasing, memories_unchanged, notes_unchanged, passports_unchanged, Store,
    StoreView,
};
use crate::util::string_eq;
use crate::MAX_PAYLOAD_CHARS;
use vstd::prelude::*;
use vstd::string::{StrSliceExecFns, StringExecFns};

verus! {

/// The caller-formed key of a job created at `now` by `owner`: the creation
/// time and a short owner-derived fragment.
pub open spec fn job_key_spec(now: u64, owner: Seq<char>) -> Seq<char> {
    "job_"@ + dec_str(now as nat) + "_"@ + owner.take(
        if owner.len() < 8 {
            owner.len() as int
        } else {
            8
        },
    )
}

/// Builds the job key for `owner` at time `now`.
pub fn build_job_key(now: u64, owner: &String) -> (r: String)
    ensures
        r@ == job_key_spec(now, owner@),
{
    let mut s = String::new();
    s.append("job_");
    crate::numfmt::push_dec(&mut s, now as u128);
    s.append("_");
    let ul = owner.as_str().unicode_len();
    let k: usize = if ul < 8 {
        ul
    } else {
        8
    };
    let prefix = owner.as_str().substring_char(0, k);
    s.append(prefix);
    proof {
        assert(s@ =~= job_key_spec(now, owner@));
    }
    s
}

/// Whether `dataset_id` names a note readable by `caller`: some note's
/// decimal ID equals it and the caller passes that note's read policy.
pub open spec fn dataset_accessible(
    notes: Map<u128, NoteView>,
    dataset_id: Seq<char>,
    caller: Seq<char>,
) -> bool {
    exists|id: u128|
        #[trigger] notes.contains_key(id) && dec_str(id as nat) == dataset_id && can_read_note(
            notes[id],
            caller,
        )
}

/// Scans the note store for a note whose decimal ID is `dataset_id` and
/// which `caller` may read.
fn dataset_exists(notes: &KvMap<u128, EncryptedNote>, dataset_id: &String, caller: &String) -> (r:
    bool)
    requires
        notes.wf(),
        forall|id: u128| #[trigger] notes@.contains_key(id) ==> notes@[id].id == id,
    ensures
        r == dataset_accessible(notes@, dataset_id@, caller@),
{
    let ks = notes.id_keys();
    let mut i: usize = 0;
    while i < ks.len()
        invariant
            notes.wf(),
            forall|id: u128| #[trigger] notes@.contains_key(id) ==> notes@[id].id == id,
            forall|j: int| 0 <= j < ks@.len() ==> notes@.contains_key(#[trigger] ks@[j]),
            forall|k: u128| #[trigger]
                notes@.contains_key(k) ==> exists|j: int| 0 <= j < ks@.len() && ks@[j] == k,
            0 <= i <= ks@.len(),
            forall|j: int|
                0 <= j < i ==> !(dec_str((#[trigger] ks@[j]) as nat) == dataset_id@
                    && can_read_note(notes@[ks@[j]], caller@)),
        decreases ks@.len() - i,
    {
        let k = ks[i];
        let n = notes.get(&k).unwrap();
        let ds = u128_to_dec_string(n.id);
        if string_eq(&ds, dataset_id) && n.is_authorized(caller) {
            proof {
                assert(n@.id == k);
                assert(notes@.contains_key(k) && dec_str(k as nat) == dataset_id@
                    && can_read_note(notes@[k], caller@));
            }
            return true;
        }
        i = i + 1;
    }
    proof {
        if dataset_accessible(notes@, dataset_id@, caller@) {
            let id = choose|id: u128|
                #[trigger] notes@.contains_key(id) && dec_str(id as nat) == dataset_id@
                    && can_read_note(notes@[id], caller@);
            let j = choose|j: int| 0 <= j < ks@.len() && #[trigger] ks@[j] == id;
            assert(!(dec_str(ks@[j] as nat) == dataset_id@ && can_read_note(
                notes@[ks@[j]],
                caller@,
            )));
        }
    }
    false
}

/// The committed transition of `create_synthetic_job`: a fresh pending job
/// with no progress, and nothing else moves.
pub open spec fn job_create_ok(
    pre: StoreView,
    post: StoreView,
    owner: Seq<char>,
    req: crate::entities::RequestView,
    now: u64,
) -> bool {
    let k = job_key_spec(now, owner);
    &&& post.jobs == pre.jobs.insert(
        k,
        JobView {
            job_id: k,
            dataset_id: req.dataset_id,
            owner,
            status: JobStatus::Pending,
            progress: 0,
            created_at: now,
            completed_at: None,
            result_dataset_id: None,
            error_message: None,
            settings: req,
        },
    )
    &&& notes_unchanged(pre, post)
    &&& passports_unchanged(pre, post)
    &&& memories_unchanged(pre, post)
}

/// Progress clamped to the valid range.
pub open spec fn clamp100(p: u8) -> u8 {
    if p <= 100 {
        p
    } else {
        100
    }
}

/// Why an advance request is refused outright: the job already ended, the
/// progress would move backwards, or the requested status is unreachable
/// (back to `pending`, or `completed` before progress 100).
pub open spec fn advance_invalid(j: JobView, p: u8, st: JobStatus) -> bool {
    ||| j.status.is_terminal_spec()
    ||| p < j.progress
    ||| st == JobStatus::Pending
    ||| (st == JobStatus::Completed && p < 100)
}

/// The committed transition of completing job `k`: the job turns
/// `completed` with progress 100, the completion time is stamped, exactly
/// one result note is created for the job's owner through the allocator,
/// and the note's decimal ID is recorded on the job.
pub open spec fn job_complete_ok(
    pre: StoreView,
    post: StoreView,
    k: Seq<char>,
    now: u64,
    payload: Seq<char>,
    nid: u128,
) -> bool {
    let j = pre.jobs[k];
    &&& nid == pre.next_note_id
    &&& post.next_note_id == nid + 1
    &&& !pre.notes.contains_key(nid)
    &&& post.notes == pre.notes.insert(
        nid,
        NoteView { id: nid, owner: j.owner, text: payload, users: Seq::empty() },
    )
    &&& post.note_owners == pre.note_owners.insert(
        j.owner,
        bucket_of(pre.note_owners, j.owner).push(nid),
    )
    &&& post.note_shares == pre.note_shares
    &&& post.jobs == pre.jobs.insert(
        k,
        JobView {
            status: JobStatus::Completed,
            progress: 100,
            completed_at: Some(now),
            result_dataset_id: Some(dec_str(nid as nat)),
            ..j
        },
    )
    &&& passports_unchanged(pre, post)
    &&& memories_unchanged(pre, post)
}

/// The committed transition of a plain progress update: only the status and
/// progress of job `k` move.
pub open spec fn job_progress_ok(
    pre: StoreView,
    post: StoreView,
    k: Seq<char>,
    p: u8,
    st: JobStatus,
) -> bool {
    &&& post.jobs == pre.jobs.insert(k, JobView { status: st, progress: p, ..pre.jobs[k] })
    &&& notes_unchanged(pre, post)
    &&& passports_unchanged(pre, post)
    &&& memories_unchanged(pre, post)
}

impl Store {
    /// Creates a pending synthetic-data job for `caller` over the dataset
    /// that `request` names, keyed by time and owner fragment.
    ///
    /// Fails with `NotFound` exactly when no note readable by the caller
    /// carries the requested dataset ID, and with `InvalidState` exactly
    /// when a job under the same key already exists; a failed call leaves
    /// the store untouched.
    pub fn create_synthetic_job(
        &mut self,
        caller: &String,
        request: SyntheticDataRequest,
        now: u64,
    ) -> (r: Result<String, CoreError>)
        requires
            old(self).wf(),
        ensures
            final(self).wf(),
            counters_nondecreasing(old(self)@, final(self)@),
            match r {
                Ok(key) => {
                    &&& key@ == job_key_spec(now, caller@)
                    &&& dataset_accessible(old(self)@.notes, request.dataset_id@, caller@)
                    &&& !old(self)@.jobs.contains_key(key@)
                    &&& job_create_ok(old(self)@, final(self)@, caller@, request@, now)
                },
                Err(e) => {
                    &&& final(self)@ == old(self)@
                    &&& (e == CoreError::NotFound <==> !dataset_accessible(
                        old(self)@.notes,
                        request.dataset_id@,
                        caller@,
                    ))
                    &&& (e == CoreError::InvalidState <==> dataset_accessible(
                        old(self)@.notes,
                        request.dataset_id@,
                        caller@,
                    ) && old(self)@.jobs.contains_key(job_key_spec(now, caller@)))
                    &&& (e == CoreError::NotFound || e == CoreError::InvalidState)
                },
            },
    {
        let ghost pre = self@;
        if !dataset_exists(&self.notes, &request.dataset_id, caller) {
            return Err(CoreError::NotFound);
        }
        let key = build_job_key(now, caller);
        if self.jobs.contains_key(&key) {
            return Err(CoreError::InvalidState);
        }
        let result = key.clone();
        let ghost reqv = request@;
        let job = SyntheticDataJob {
            job_id: key.clone(),
            dataset_id: request.dataset_id.clone(),
            owner: caller.clone(),
            status: JobStatus::Pending,
            progress: 0,
            created_at: now,
            completed_at: None,
            result_dataset_id: None,
            error_message: None,
            settings: request,
        };
        proof {
            assert(job@ =~= (JobView {
                job_id: job_key_spec(now, caller@),
                dataset_id: reqv.dataset_id,
                owner: caller@,
                status: JobStatus::Pending,
                progress: 0,
                created_at: now,
                completed_at: None,
                result_dataset_id: None,
                error_message: None,
                settings: reqv,
            }));
        }
        self.jobs.insert(key, job);
        proof {
            let post = self@;
            assert(post.jobs_inv());
            assert(post.notes_inv());
            assert(post.note_owner_index_inv());
            assert(post.note_share_index_inv());
            assert(post.passports_inv());
            assert(post.memories_inv());
        }
        Ok(result)
    }

    /// Retrieves job `job_id` for its owner.
    ///
    /// Fails with `NotFound` exactly when the job does not exist and
    /// `Unauthorized` exactly when the caller is not its owner.
    pub fn get_synthetic_job_status(&self, caller: &String, job_id: String) -> (r: Result<
        SyntheticDataJob,
        CoreError,
    >)
        requires
            self.wf(),
        ensures
            match r {
                Ok(j) => self@.jobs.contains_key(job_id@) && caller@ == self@.jobs[job_id@].owner
                    && j@ == self@.jobs[job_id@],
                Err(e) => {
                    &&& (e == CoreError::NotFound <==> !self@.jobs.contains_key(job_id@))
                    &&& (e == CoreError::Unauthorized <==> self@.jobs.contains_key(job_id@)
                        && caller@ != self@.jobs[job_id@].owner)
                    &&& (e == CoreError::NotFound || e == CoreError::Unauthorized)
                },
            },
    {
        match self.jobs.get(&job_id) {
            None => Err(CoreError::NotFound),
            Some(j) => {
                if j.is_authorized(caller) {
                    Ok(j.clone())
                } else {
                    Err(CoreError::Unauthorized)
                }
            },
        }
    }

    /// Advances job `job_id` to progress `progress` (clamped to 100) and
    /// status `status`.  Progress never decreases, terminal jobs never move,
    /// and reaching 100 forces `completed`: the completion time is stamped,
    /// one result note holding `result_payload` is created for the job's
    /// owner, and its ID is recorded on the job.
    ///
    /// Fails with `NotFound`, `Unauthorized` or `InvalidState` exactly as
    /// the contract states, and on the completion path passes through the
    /// note-creation errors (`PayloadTooLarge`, `CapacityExceeded`,
    /// `AllocatorExhausted`); a failed call leaves the store untouched.
    pub fn update_synthetic_job_progress(
        &mut self,
        caller: &String,
        job_id: String,
        progress: u8,
        status: JobStatus,
        now: u64,
        result_payload: String,
    ) -> (r: Result<(), CoreError>)
        requires
            old(self).wf(),
        ensures
            final(self).wf(),
            counters_nondecreasing(old(self)@, final(self)@),
            ({
                let pre = old(self)@;
                let k = job_id@;
                let ex = pre.jobs.contains_key(k);
                let j = pre.jobs[k];
                let p = clamp100(progress);
                match r {
                    Ok(()) => {
                        &&& ex
                        &&& caller@ == j.owner
                        &&& !advance_invalid(j, p, status)
                        &&& if p == 100 {
                            &&& result_payload@.len() <= MAX_PAYLOAD_CHARS
                            &&& note_create_allowed(pre, j.owner)
                            &&& pre.next_note_id < u128::MAX
                            &&& job_complete_ok(
                                pre,
                                final(self)@,
                                k,
                                now,
                                result_payload@,
                                pre.next_note_id,
                            )
                        } else {
                            job_progress_ok(pre, final(self)@, k, p, status)
                        }
                    },
                    Err(e) => {
                        &&& final(self)@ == pre
                        &&& (e == CoreError::NotFound <==> !ex)
                        &&& (e == CoreError::Unauthorized <==> ex && caller@ != j.owner)
                        &&& (e == CoreError::InvalidState <==> ex && caller@ == j.owner
                            && advance_invalid(j, p, status))
                        &&& (e == CoreError::PayloadTooLarge <==> ex && caller@ == j.owner
                            && !advance_invalid(j, p, status) && p == 100 && result_payload@.len()
                            > MAX_PAYLOAD_CHARS)
                        &&& (e == CoreError::CapacityExceeded <==> ex && caller@ == j.owner
                            && !advance_invalid(j, p, status) && p == 100 && result_payload@.len()
                            <= MAX_PAYLOAD_CHARS && !note_create_allowed(pre, j.owner))
                        &&& (e == CoreError::AllocatorExhausted <==> ex && caller@ == j.owner
                            && !advance_invalid(j, p, status) && p == 100 && result_payload@.len()
                            <= MAX_PAYLOAD_CHARS && note_create_allowed(pre, j.owner)
                            && pre.next_note_id == u128::MAX)
                        &&& (e == CoreError::NotFound || e == CoreError::Unauthorized || e
                            == CoreError::InvalidState || e == CoreError::PayloadTooLarge || e
                            == CoreError::CapacityExceeded || e == CoreError::AllocatorExhausted)
                    },
                }
            }),
    {
        let ghost pre = self@;
        let ghost key = job_id@;
        let job = match self.jobs.get(&job_id) {
            None => {
                return Err(CoreError::NotFound);
            },
            Some(j) => j.clone(),
        };
        if !string_eq(caller, &job.owner) {
            return Err(CoreError::Unauthorized);
        }
        if job.status.is_terminal() {
            return Err(CoreError::InvalidState);
        }
        let p: u8 = if progress <= 100 {
            progress
        } else {
            100
        };
        if p < job.progress {
            return Err(CoreError::InvalidState);
        }
        if status == JobStatus::Pending {
            return Err(CoreError::InvalidState);
        }
        if status == JobStatus::Completed && p < 100 {
            return Err(CoreError::InvalidState);
        }

        if p == 100 {
            if result_payload.as_str().unicode_len() > MAX_PAYLOAD_CHARS {
                return Err(CoreError::PayloadTooLarge);
            }
            let owner_c = job.owner.clone();
            let nid = match self.insert_note_for_owner(&owner_c, result_payload) {
                Ok(nid) => nid,
                Err(e) => {
                    return Err(e);
                },
            };
            let ghost mid = self@;
            let mut nj = job;
            nj.status = JobStatus::Completed;
            nj.progress = 100;
            nj.completed_at = Some(now);
            nj.result_dataset_id = Some(u128_to_dec_string(nid));
            proof {
                assert(nj@ =~= (JobView {
                    status: JobStatus::Completed,
                    progress: 100,
                    completed_at: Some(now),
                    result_dataset_id: Some(dec_str(nid as nat)),
                    ..pre.jobs[key]
                }));
            }
            self.jobs.insert(job_id, nj);
            proof {
                let post = self@;
                assert(post.jobs_inv());
                assert(post.notes_inv());
                assert(post.note_owner_index_inv());
                assert(post.note_share_index_inv());
                assert(post.passports_inv());
                assert(post.memories_inv());
            }
            Ok(())
        } else {
            let mut nj = job;
            nj.status = status;
            nj.progress = p;
            proof {
                assert(nj@ =~= (JobView { status, progress: p, ..pre.jobs[key] }));
            }
            self.jobs.insert(job_id, nj);
            proof {
                let post = self@;
                assert(post.jobs_inv());
                assert(post.notes_inv());
                assert(post.note_owner_index_inv());
                assert(post.note_share_index_inv());
                assert(post.passports_inv());
                assert(post.memories_inv());
            }
            Ok(())
        }
    }

    /// Returns the caller's jobs: exactly the entries of the job store owned
    /// by the caller, one each.
    pub fn get_my_synthetic_jobs(&self, caller: &String) -> (out: Vec<SyntheticDataJob>)
        requires
            self.wf(),
        ensures
            forall|t: int|
                0 <= t < out@.len() ==> {
                    let j = #[trigger] out@[t]@;
                    &&& j.owner == caller@
                    &&& self@.jobs.contains_key(j.job_id)
                    &&& j == self@.jobs[j.job_id]
                },
            forall|t1: int, t2: int|
                0 <= t1 < t2 < out@.len() ==> out@[t1]@.job_id != out@[t2]@.job_id,
            forall|k: Seq<char>| #[trigger]
                self@.jobs.contains_key(k) && self@.jobs[k].owner == caller@ ==> exists|t: int|
                    0 <= t < out@.len() && out@[t]@.job_id == k,
    {
        collect_owned_jobs(&self.jobs, caller)
    }
}

/// The job keys of a sequence of job records, in order.
pub open spec fn job_ids(s: Seq<SyntheticDataJob>) -> Seq<Seq<char>> {
    s.map_values(|j: SyntheticDataJob| j.job_id@)
}

/// The contents of a sequence of strings, in order.
pub open spec fn str_views(s: Seq<String>) -> Seq<Seq<char>> {
    s.map_values(|x: String| x@)
}

/// The keys of `kv` whose job belongs to `owner`, in order.
pub open spec fn owned_job_keys(
    m: Map<Seq<char>, JobView>,
    kv: Seq<Seq<char>>,
    owner: Seq<char>,
) -> Seq<Seq<char>> {
    kv.filter(|k: Seq<char>| m.contains_key(k) && m[k].owner == owner)
}

/// Filtering a duplicate-free key sequence keeps it duplicate-free and keeps
/// exactly the keys of the owner's jobs.
pub proof fn lemma_owned_job_keys(m: Map<Seq<char>, JobView>, kv: Seq<Seq<char>>, owner: Seq<char>)
    requires
        kv.no_duplicates(),
    ensures
        owned_job_keys(m, kv, owner).no_duplicates(),
        forall|k: Seq<char>| #[trigger]
            owned_job_keys(m, kv, owner).contains(k) <==> (kv.contains(k) && m.contains_key(k)
                && m[k].owner == owner),
    decreases kv.len(),
{
    reveal_with_fuel(Seq::filter, 2);
    let fs = owned_job_keys(m, kv, owner);
    if kv.len() == 0 {
        assert(forall|k: Seq<char>| !kv.contains(k));
    } else {
        let d = kv.drop_last();
        let last = kv.last();
        assert(d.no_duplicates());
        lemma_owned_job_keys(m, d, owner);
        let fd = owned_job_keys(m, d, owner);
        assert(!d.contains(last));
        assert forall|x: Seq<char>| #[trigger] kv.contains(x) <==> (d.contains(x) || x == last) by {
            if kv.contains(x) {
                let i = choose|i: int| 0 <= i < kv.len() && kv[i] == x;
                if i < kv.len() - 1 {
                    assert(d[i] == x);
                    assert(d.contains(x));
                }
            }
            if d.contains(x) {
                let i = choose|i: int| 0 <= i < d.len() && d[i] == x;
                assert(kv[i] == x);
                assert(kv.contains(x));
            }
            if x == last {
                assert(kv[kv.len() - 1] == x);
                assert(kv.contains(x));
            }
        }
        if m.contains_key(last) && m[last].owner == owner {
            assert(fs == fd.push(last));
            assert(!fd.contains(last));
            crate::util::lemma_seq_push_unique(fd, last);
        } else {
            assert(fs == fd);
        }
    }
}

/// Collects the jobs of `jobs` owned by `caller`: exactly the owner's
/// entries, one each.
fn collect_owned_jobs(jobs: &KvMap<String, SyntheticDataJob>, caller: &String) -> (out: Vec<
    SyntheticDataJob,
>)
    requires
        jobs.wf(),
        forall|k: Seq<char>| #[trigger] jobs@.contains_key(k) ==> jobs@[k].job_id == k,
    ensures
        forall|t: int|
            0 <= t < out@.len() ==> {
                let j = #[trigger] out@[t]@;
                &&& j.owner == caller@
                &&& jobs@.contains_key(j.job_id)
                &&& j == jobs@[j.job_id]
            },
        forall|t1: int, t2: int|
            0 <= t1 < t2 < out@.len() ==> out@[t1]@.job_id != out@[t2]@.job_id,
        forall|k: Seq<char>| #[trigger]
            jobs@.contains_key(k) && jobs@[k].owner == caller@ ==> exists|t: int|
                0 <= t < out@.len() && out@[t]@.job_id == k,
{
    let ks = jobs.keys();
    let mut out: Vec<SyntheticDataJob> = Vec::new();
    let mut i: usize = 0;
    let ghost jm = jobs@;
    while i < ks.len()
        invariant
            jobs.wf(),
            jm == jobs@,
            forall|k: Seq<char>| #[trigger] jm.contains_key(k) ==> jm[k].job_id == k,
            ks@.len() == jm.dom().len(),
            forall|j: int| 0 <= j < ks@.len() ==> jm.contains_key(#[trigger] ks@[j]@),
            forall|j1: int, j2: int| 0 <= j1 < j2 < ks@.len() ==> ks@[j1]@ != ks@[j2]@,
            forall|kv: Seq<char>| #[trigger]
                jm.contains_key(kv) ==> exists|j: int| 0 <= j < ks@.len() && ks@[j]@ == kv,
            0 <= i <= ks@.len(),
            job_ids(out@) == owned_job_keys(jm, str_views(ks@).take(i as int), caller@),
            forall|t: int|
                0 <= t < out@.len() ==> {
                    let j = #[trigger] out@[t]@;
                    &&& j.owner == caller@
                    &&& jm.contains_key(j.job_id)
                    &&& j == jm[j.job_id]
                },
        decreases ks@.len() - i,
    {
        let k = &ks[i];
        let ghost kv = k@;
        let j = jobs.get(k).unwrap();
        proof {
            assert(j@.job_id == kv);
        }
        let keep: bool = string_eq(&j.owner, caller);
        proof {
            reveal_with_fuel(Seq::filter, 2);
            assert(str_views(ks@).take(i + 1).drop_last() =~= str_views(ks@).take(i as int));
            assert(str_views(ks@).take(i + 1).last() == ks@[i as int]@);
            assert(keep == (jm.contains_key(kv) && jm[kv].owner == caller@));
        }
        let ghost pre_out = out@;
        if keep {
            out.push(j.clone());
            proof {
                assert(job_ids(out@) =~= job_ids(pre_out).push(kv));
            }
        }
        i = i + 1;
    }
    proof {
        assert(str_views(ks@).take(ks@.len() as int) =~= str_views(ks@));
        assert(str_views(ks@).no_duplicates()) by {
            assert forall|j1: int, j2: int|
                0 <= j1 < j2 < str_views(ks@).len() implies str_views(ks@)[j1] != str_views(
                ks@,
            )[j2] by {
                assert(str_views(ks@)[j1] == ks@[j1]@);
                assert(str_views(ks@)[j2] == ks@[j2]@);
            }
        }
        lemma_owned_job_keys(jm, str_views(ks@), caller@);
        let ms = owned_job_keys(jm, str_views(ks@), caller@);
        assert(job_ids(out@).len() == out@.len());
        assert(forall|t: int|
            0 <= t < out@.len() ==> #[trigger] job_ids(out@)[t] == out@[t].job_id@);
        assert forall|t1: int, t2: int|
            0 <= t1 < t2 < out@.len() implies out@[t1]@.job_id != out@[t2]@.job_id by {
            assert(job_ids(out@)[t1] == out@[t1].job_id@);
            assert(job_ids(out@)[t2] == out@[t2].job_id@);
        }
        assert forall|k: Seq<char>|
            #[trigger] jm.contains_key(k) && jm[k].owner == caller@ implies exists|t: int|
            0 <= t < out@.len() && out@[t]@.job_id == k by {
            let j = choose|j: int| 0 <= j < ks@.len() && #[trigger] ks@[j]@ == k;
            assert(str_views(ks@)[j] == k);
            assert(str_views(ks@).contains(k));
            assert(ms.contains(k));
            assert(job_ids(out@).contains(k));
            let t = choose|t: int|
                0 <= t < job_ids(out@).len() && #[trigger] job_ids(out@)[t] == k;
            assert(out@[t]@.job_id == k);
        }
    }
    out
}

} // verus!
