//! Persistence and access-control core for a multi-tenant store of opaque
//! encrypted resources (notes, agent passports, agent memories, API tokens,
//! synthetic-data jobs).
//!
//! All state lives in an explicit [`store::Store`] context that callers pass
//! by reference into every operation.  Each operation authenticates against a
//! caller-supplied principal string, enforces the capacity ceilings below,
//! and mutates the entity maps and their owner/share indices together, so
//! that the cross-map invariants of [`store::StoreView::wf`] hold after every
//! committed operation.

use vstd::prelude::*;

pub mod entities;
pub mod errors;
pub mod jobs;
pub mod keys;
pub mod laws;
pub mod kvmap;
pub mod notes;
pub mod numfmt;
pub mod passports;
pub mod store;
pub mod util;

verus! {

/// Hard ceiling on the number of distinct owners in any owner index.
pub const MAX_USERS: usize = 1000;

/// Hard ceiling on the number of indexed items a single owner may hold,
/// per entity kind.
pub const MAX_ITEMS_PER_OWNER: usize = 500;

/// Hard ceiling on the character count of an encrypted payload.
pub const MAX_PAYLOAD_CHARS: usize = 1000000;

/// Hard ceiling on the number of grantees of a single note.
pub const MAX_SHARES_PER_NOTE: usize = 50;

} // verus!
