//! The entity kinds held by the store, with their spec-level views.
//!
//! Every entity has the common shape `{ id, owner, payload }`; notes add an
//! explicit grantee list, jobs a lifecycle status.  The `View` of each entity
//! replaces strings by character sequences so that contracts can speak of
//! contents rather than allocations.

use crate::util::{clone_string_vec, string_eq, vec_contains_string};
use vstd::prelude::*;

verus! {

// ---------------------------------------------------------------------------
// Notes
// ---------------------------------------------------------------------------

/// Spec-level image of an encrypted note.
#[verifier::ext_equal]
pub ghost struct NoteView {
    pub id: u128,
    pub owner: Seq<char>,
    pub text: Seq<char>,
    pub users: Seq<Seq<char>>,
}

/// A note read is permitted to the owner and to every grantee.
pub open spec fn can_read_note(n: NoteView, caller: Seq<char>) -> bool {
    caller == n.owner || n.users.contains(caller)
}

/// Note writes, shares, unshares and deletes are permitted to the owner only.
pub open spec fn can_write_note(n: NoteView, caller: Seq<char>) -> bool {
    caller == n.owner
}

/// An opaque encrypted note, shareable with an explicit grantee list.
#[derive(Debug, PartialEq, Eq)]
pub struct EncryptedNote {
    pub id: u128,
    pub encrypted_text: String,
    pub owner: String,
    /// Principals with whom this note is shared.  Never contains the owner.
    pub users: Vec<String>,
}

impl View for EncryptedNote {
    type V = NoteView;

    open spec fn view(&self) -> NoteView {
        NoteView {
            id: self.id,
            owner: self.owner@,
            text: self.encrypted_text@,
            users: self.users.deep_view(),
        }
    }
}

impl Clone for EncryptedNote {
    fn clone(&self) -> (r: Self)
        ensures
            r@ == self@,
    {
        let r = EncryptedNote {
            id: self.id,
            encrypted_text: self.encrypted_text.clone(),
            owner: self.owner.clone(),
            users: clone_string_vec(&self.users),
        };
        proof {
            assert(r@ =~= self@);
        }
        r
    }
}

impl EncryptedNote {
    /// Whether `user` may read this note: the owner and every grantee may.
    pub fn is_authorized(&self, user: &String) -> (r: bool)
        ensures
            r == can_read_note(self@, user@),
    {
        string_eq(user, &self.owner) || vec_contains_string(&self.users, user)
    }
}

// ---------------------------------------------------------------------------
// Agent passports
// ---------------------------------------------------------------------------

/// Spec-level image of an agent passport.
#[verifier::ext_equal]
pub ghost struct PassportView {
    pub id: u128,
    pub agent_name: Seq<char>,
    pub agent_type: Seq<char>,
    pub owner: Seq<char>,
    pub capabilities: Seq<Seq<char>>,
    pub encrypted_specifications: Seq<char>,
    pub api_endpoints: Seq<Seq<char>>,
    pub created_at: u64,
    pub last_active: u64,
    pub is_active: bool,
}

/// An owner-only record describing an AI agent.
#[derive(Debug, PartialEq, Eq)]
pub struct AgentPassport {
    pub id: u128,
    pub agent_name: String,
    pub agent_type: String,
    pub owner: String,
    pub capabilities: Vec<String>,
    pub encrypted_specifications: String,
    pub api_endpoints: Vec<String>,
    pub created_at: u64,
    pub last_active: u64,
    pub is_active: bool,
}

impl View for AgentPassport {
    type V = PassportView;

    open spec fn view(&self) -> PassportView {
        PassportView {
            id: self.id,
            agent_name: self.agent_name@,
            agent_type: self.agent_type@,
            owner: self.owner@,
            capabilities: self.capabilities.deep_view(),
            encrypted_specifications: self.encrypted_specifications@,
            api_endpoints: self.api_endpoints.deep_view(),
            created_at: self.created_at,
            last_active: self.last_active,
            is_active: self.is_active,
        }
    }
}

impl Clone for AgentPassport {
    fn clone(&self) -> (r: Self)
        ensures
            r@ == self@,
    {
        let r = AgentPassport {
            id: self.id,
            agent_name: self.agent_name.clone(),
            agent_type: self.agent_type.clone(),
            owner: self.owner.clone(),
            capabilities: clone_string_vec(&self.capabilities),
            encrypted_specifications: self.encrypted_specifications.clone(),
            api_endpoints: clone_string_vec(&self.api_endpoints),
            created_at: self.created_at,
            last_active: self.last_active,
            is_active: self.is_active,
        };
        proof {
            assert(r@ =~= self@);
        }
        r
    }
}

impl AgentPassport {
    /// Passports are owner-only: no grantees.
    pub fn is_authorized(&self, user: &String) -> (r: bool)
        ensures
            r == (user@ == self@.owner),
    {
        string_eq(user, &self.owner)
    }
}

// ---------------------------------------------------------------------------
// Agent memories
// ---------------------------------------------------------------------------

/// Spec-level image of an agent memory.
#[verifier::ext_equal]
pub ghost struct MemoryView {
    pub id: u128,
    pub passport_id: u128,
    pub memory_type: Seq<char>,
    pub encrypted_content: Seq<char>,
    pub importance_score: u8,
    pub created_at: u64,
    pub owner: Seq<char>,
}

/// An owner-only memory entry attached to a passport.  The importance score
/// is always in `[0, 100]`.
#[derive(Debug, PartialEq, Eq)]
pub struct AgentMemory {
    pub id: u128,
    pub passport_id: u128,
    pub memory_type: String,
    pub encrypted_content: String,
    pub importance_score: u8,
    pub created_at: u64,
    pub owner: String,
}

impl View for AgentMemory {
    type V = MemoryView;

    open spec fn view(&self) -> MemoryView {
        MemoryView {
            id: self.id,
            passport_id: self.passport_id,
            memory_type: self.memory_type@,
            encrypted_content: self.encrypted_content@,
            importance_score: self.importance_score,
            created_at: self.created_at,
            owner: self.owner@,
        }
    }
}

impl Clone for AgentMemory {
    fn clone(&self) -> (r: Self)
        ensures
            r@ == self@,
    {
        let r = AgentMemory {
            id: self.id,
            passport_id: self.passport_id,
            memory_type: self.memory_type.clone(),
            encrypted_content: self.encrypted_content.clone(),
            importance_score: self.importance_score,
            created_at: self.created_at,
            owner: self.owner.clone(),
        };
        proof {
            assert(r@ =~= self@);
        }
        r
    }
}

impl AgentMemory {
    /// Memories are owner-only.
    pub fn is_authorized(&self, user: &String) -> (r: bool)
        ensures
            r == (user@ == self@.owner),
    {
        string_eq(user, &self.owner)
    }
}

// ---------------------------------------------------------------------------
// API tokens
// ---------------------------------------------------------------------------

/// Spec-level image of an API token.
#[verifier::ext_equal]
pub ghost struct TokenView {
    pub id: u128,
    pub passport_id: u128,
    pub token_hash: Seq<char>,
    pub name: Seq<char>,
    pub permissions: Seq<Seq<char>>,
    pub expires_at: Option<u64>,
    pub created_at: u64,
    pub last_used: Option<u64>,
    pub is_active: bool,
    pub owner: Seq<char>,
}

/// A token is usable at `now` when it is active and not yet expired.
pub open spec fn token_valid_at(t: TokenView, now: u64) -> bool {
    t.is_active && match t.expires_at {
        Some(e) => now <= e,
        None => true,
    }
}

/// Whether a token grants `permission`, either literally or through the
/// wildcard entry `*`.
pub open spec fn token_has_permission(t: TokenView, permission: Seq<char>) -> bool {
    t.permissions.contains(permission) || t.permissions.contains("*"@)
}

/// The fingerprint and permission set of an issued API token; never the
/// secret itself.
#[derive(Debug, PartialEq, Eq)]
pub struct ApiToken {
    pub id: u128,
    pub passport_id: u128,
    pub token_hash: String,
    pub name: String,
    pub permissions: Vec<String>,
    pub expires_at: Option<u64>,
    pub created_at: u64,
    pub last_used: Option<u64>,
    pub is_active: bool,
    pub owner: String,
}

impl View for ApiToken {
    type V = TokenView;

    open spec fn view(&self) -> TokenView {
        TokenView {
            id: self.id,
            passport_id: self.passport_id,
            token_hash: self.token_hash@,
            name: self.name@,
            permissions: self.permissions.deep_view(),
            expires_at: self.expires_at,
            created_at: self.created_at,
            last_used: self.last_used,
            is_active: self.is_active,
            owner: self.owner@,
        }
    }
}

impl Clone for ApiToken {
    fn clone(&self) -> (r: Self)
        ensures
            r@ == self@,
    {
        let r = ApiToken {
            id: self.id,
            passport_id: self.passport_id,
            token_hash: self.token_hash.clone(),
            name: self.name.clone(),
            permissions: clone_string_vec(&self.permissions),
            expires_at: self.expires_at,
            created_at: self.created_at,
            last_used: self.last_used,
            is_active: self.is_active,
            owner: self.owner.clone(),
        };
        proof {
            assert(r@ =~= self@);
        }
        r
    }
}

impl ApiToken {
    /// Tokens are owner-only.
    pub fn is_authorized(&self, user: &String) -> (r: bool)
        ensures
            r == (user@ == self@.owner),
    {
        string_eq(user, &self.owner)
    }

    /// Whether the token may be used at time `now`: it must be active and,
    /// when it carries an expiry, not yet expired.
    pub fn is_valid(&self, now: u64) -> (r: bool)
        ensures
            r == token_valid_at(self@, now),
    {
        if !self.is_active {
            return false;
        }
        if let Some(expires_at) = self.expires_at {
            if now > expires_at {
                return false;
            }
        }
        true
    }

    /// Whether the token grants `permission`, literally or by wildcard.
    pub fn has_permission(&self, permission: &str) -> (r: bool)
        ensures
            r == token_has_permission(self@, permission@),
    {
        let p = permission.to_owned();
        let star: String = "*".to_owned();
        vec_contains_string(&self.permissions, &p) || vec_contains_string(
            &self.permissions,
            &star,
        )
    }
}

// ---------------------------------------------------------------------------
// Synthetic-data jobs
// ---------------------------------------------------------------------------

/// The lifecycle of a job.  `Completed` and `Failed` are terminal.
#[derive(Clone, Copy, Debug, PartialEq, Eq, Structural)]
pub enum JobStatus {
    Pending,
    Processing,
    Completed,
    Failed,
}

impl JobStatus {
    /// No transition leaves a terminal status.
    pub open spec fn is_terminal_spec(&self) -> bool {
        *self == JobStatus::Completed || *self == JobStatus::Failed
    }

    /// Executable form of [`Self::is_terminal_spec`].
    pub fn is_terminal(&self) -> (r: bool)
        ensures
            r == self.is_terminal_spec(),
    {
        match self {
            JobStatus::Completed => true,
            JobStatus::Failed => true,
            _ => false,
        }
    }

    /// A short stable label, one per status.
    pub fn label(&self) -> (r: &'static str)
        ensures
            r@ == self.label_spec(),
    {
        match self {
            JobStatus::Pending => "pending",
            JobStatus::Processing => "processing",
            JobStatus::Completed => "completed",
            JobStatus::Failed => "failed",
        }
    }

    pub open spec fn label_spec(&self) -> Seq<char> {
        match self {
            JobStatus::Pending => "pending"@,
            JobStatus::Processing => "processing"@,
            JobStatus::Completed => "completed"@,
            JobStatus::Failed => "failed"@,
        }
    }
}

/// Spec-level image of a generation request.
#[verifier::ext_equal]
pub ghost struct RequestView {
    pub dataset_id: Seq<char>,
    pub num_records: u32,
    pub privacy_level: Seq<char>,
    pub model_type: Seq<char>,
    pub preserve_correlations: bool,
    pub hipaa_compliant: bool,
}

/// The caller-supplied settings of a synthetic-data generation job.
#[derive(Debug, PartialEq, Eq)]
pub struct SyntheticDataRequest {
    pub dataset_id: String,
    pub num_records: u32,
    pub privacy_level: String,
    pub model_type: String,
    pub preserve_correlations: bool,
    pub hipaa_compliant: bool,
}

impl View for SyntheticDataRequest {
    type V = RequestView;

    open spec fn view(&self) -> RequestView {
        RequestView {
            dataset_id: self.dataset_id@,
            num_records: self.num_records,
            privacy_level: self.privacy_level@,
            model_type: self.model_type@,
            preserve_correlations: self.preserve_correlations,
            hipaa_compliant: self.hipaa_compliant,
        }
    }
}

impl Clone for SyntheticDataRequest {
    fn clone(&self) -> (r: Self)
        ensures
            r@ == self@,
    {
        let r = SyntheticDataRequest {
            dataset_id: self.dataset_id.clone(),
            num_records: self.num_records,
            privacy_level: self.privacy_level.clone(),
            model_type: self.model_type.clone(),
            preserve_correlations: self.preserve_correlations,
            hipaa_compliant: self.hipaa_compliant,
        };
        proof {
            assert(r@ =~= self@);
        }
        r
    }
}

/// Spec-level image of an optional string.
pub open spec fn opt_str_view(o: Option<String>) -> Option<Seq<char>> {
    match o {
        Some(s) => Some(s@),
        None => None,
    }
}

/// Clones an optional string, keeping its contents exactly.
pub fn clone_opt_string(o: &Option<String>) -> (r: Option<String>)
    ensures
        opt_str_view(r) == opt_str_view(*o),
{
    match o {
        Some(s) => Some(s.clone()),
        None => None,
    }
}

/// Spec-level image of a job.
#[verifier::ext_equal]
pub ghost struct JobView {
    pub job_id: Seq<char>,
    pub dataset_id: Seq<char>,
    pub owner: Seq<char>,
    pub status: JobStatus,
    pub progress: u8,
    pub created_at: u64,
    pub completed_at: Option<u64>,
    pub result_dataset_id: Option<Seq<char>>,
    pub error_message: Option<Seq<char>>,
    pub settings: RequestView,
}

/// An asynchronous generation job.  Its key is a caller-formed string, not an
/// allocator-issued number, and it ends in a terminal status instead of being
/// deleted.
#[derive(Debug, PartialEq, Eq)]
pub struct SyntheticDataJob {
    pub job_id: String,
    pub dataset_id: String,
    pub owner: String,
    pub status: JobStatus,
    pub progress: u8,
    pub created_at: u64,
    pub completed_at: Option<u64>,
    pub result_dataset_id: Option<String>,
    pub error_message: Option<String>,
    pub settings: SyntheticDataRequest,
}

impl View for SyntheticDataJob {
    type V = JobView;

    open spec fn view(&self) -> JobView {
        JobView {
            job_id: self.job_id@,
            dataset_id: self.dataset_id@,
            owner: self.owner@,
            status: self.status,
            progress: self.progress,
            created_at: self.created_at,
            completed_at: self.completed_at,
            result_dataset_id: opt_str_view(self.result_dataset_id),
            error_message: opt_str_view(self.error_message),
            settings: self.settings@,
        }
    }
}

impl Clone for SyntheticDataJob {
    fn clone(&self) -> (r: Self)
        ensures
            r@ == self@,
    {
        let r = SyntheticDataJob {
            job_id: self.job_id.clone(),
            dataset_id: self.dataset_id.clone(),
            owner: self.owner.clone(),
            status: self.status,
            progress: self.progress,
            created_at: self.created_at,
            completed_at: self.completed_at,
            result_dataset_id: clone_opt_string(&self.result_dataset_id),
            error_message: clone_opt_string(&self.error_message),
            settings: self.settings.clone(),
        };
        proof {
            assert(r@ =~= self@);
        }
        r
    }
}

impl SyntheticDataJob {
    /// Jobs are owner-only.
    pub fn is_authorized(&self, user: &String) -> (r: bool)
        ensures
            r == (user@ == self@.owner),
    {
        string_eq(user, &self.owner)
    }
}

// ---------------------------------------------------------------------------
// Index buckets
// ---------------------------------------------------------------------------

/// The bucket of note IDs held by one owner or grantee.  Never empty while
/// indexed, and free of duplicates.
#[derive(Debug, PartialEq, Eq)]
pub struct NoteIds {
    pub ids: Vec<u128>,
}

impl View for NoteIds {
    type V = Seq<u128>;

    open spec fn view(&self) -> Seq<u128> {
        self.ids@
    }
}

impl Default for NoteIds {
    fn default() -> (r: Self)
        ensures
            r@ == Seq::<u128>::empty(),
    {
        NoteIds { ids: Vec::new() }
    }
}

impl Clone for NoteIds {
    fn clone(&self) -> (r: Self)
        ensures
            r@ == self@,
    {
        let r = NoteIds { ids: clone_id_vec(&self.ids) };
        r
    }
}

impl NoteIds {
    /// The bucket's IDs in insertion order.
    pub fn iter(&self) -> (r: &Vec<u128>)
        ensures
            r@ == self@,
    {
        &self.ids
    }
}

/// The bucket of passport IDs held by one owner.
#[derive(Debug, PartialEq, Eq)]
pub struct PassportIds {
    pub ids: Vec<u128>,
}

impl View for PassportIds {
    type V = Seq<u128>;

    open spec fn view(&self) -> Seq<u128> {
        self.ids@
    }
}

impl Default for PassportIds {
    fn default() -> (r: Self)
        ensures
            r@ == Seq::<u128>::empty(),
    {
        PassportIds { ids: Vec::new() }
    }
}

impl Clone for PassportIds {
    fn clone(&self) -> (r: Self)
        ensures
            r@ == self@,
    {
        let r = PassportIds { ids: clone_id_vec(&self.ids) };
        r
    }
}

impl PassportIds {
    /// The bucket's IDs in insertion order.
    pub fn iter(&self) -> (r: &Vec<u128>)
        ensures
            r@ == self@,
    {
        &self.ids
    }
}

/// The bucket of API-token IDs held by one owner.
#[derive(Debug, PartialEq, Eq)]
pub struct TokenIds {
    pub ids: Vec<u128>,
}

impl View for TokenIds {
    type V = Seq<u128>;

    open spec fn view(&self) -> Seq<u128> {
        self.ids@
    }
}

impl Default for TokenIds {
    fn default() -> (r: Self)
        ensures
            r@ == Seq::<u128>::empty(),
    {
        TokenIds { ids: Vec::new() }
    }
}

impl Clone for TokenIds {
    fn clone(&self) -> (r: Self)
        ensures
            r@ == self@,
    {
        let r = TokenIds { ids: clone_id_vec(&self.ids) };
        r
    }
}

impl TokenIds {
    /// The bucket's IDs in insertion order.
    pub fn iter(&self) -> (r: &Vec<u128>)
        ensures
            r@ == self@,
    {
        &self.ids
    }
}

/// Clones a vector of IDs exactly.
pub fn clone_id_vec(v: &Vec<u128>) -> (r: Vec<u128>)
    ensures
        r@ == v@,
{
    let r = v.clone();
    proof {
        assert forall|j: int| 0 <= j < v@.len() implies r@[j] == v@[j] by {
            assert(cloned::<u128>(v@[j], r@[j]));
        }
        assert(r@ =~= v@);
    }
    r
}

/// Removes every occurrence of `id` from `v`, keeping the order of the rest.
pub fn ids_remove(v: &mut Vec<u128>, id: u128)
    ensures
        final(v)@ == crate::util::seq_remove_val(old(v)@, id),
{
    let ghost orig: Seq<u128> = v@;
    let mut out: Vec<u128> = Vec::new();
    let mut i: usize = 0;
    while i < v.len()
        invariant
            0 <= i <= v.len(),
            v@ == orig,
            out@ == crate::util::seq_remove_val(orig.take(i as int), id),
        decreases v.len() - i,
    {
        proof {
            reveal_with_fuel(Seq::filter, 2);
            assert(orig.take(i + 1).drop_last() =~= orig.take(i as int));
            assert(orig.take(i + 1).last() == orig[i as int]);
        }
        if v[i] != id {
            out.push(v[i]);
        }
        i = i + 1;
    }
    proof {
        assert(orig.take(orig.len() as int) =~= orig);
    }
    *v = out;
}

} // verus!
