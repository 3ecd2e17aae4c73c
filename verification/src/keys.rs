//! The key-derivation coordinator's verified core.
//!
//! For an authorized note access it builds the domain-separated derivation
//! input: the note's ID as sixteen big-endian bytes, followed by the owner's
//! identity in UTF-8.  The fixed-width ID field first makes the encoding
//! injective: distinct (ID, owner) pairs never collide.  The exchange with
//! the external key-derivation service itself suspends the call and lives
//! outside the core; the authorization decision and the input snapshot are
//! taken here, before any suspension, and only this snapshot may be used
//! after resumption.

use crate::entities::can_read_note;
use crate::errors::CoreError;
use crate::store::Store;
use vstd::prelude::*;
use vstd::string::{StrSliceExecFns, StringSliceAdditionalSpecFns};
use vstd::utf8::{encode_utf8, encode_utf8_decode_utf8};

verus! {

/// Byte `k` (0 = most significant) of the big-endian rendering of `id`.
pub open spec fn be_byte(id: u128, k: int) -> u8 {
    ((id >> (((15 - k) * 8) as u128)) & 0xff) as u8
}

/// The sixteen big-endian bytes of `id`.
pub open spec fn be_bytes128(id: u128) -> Seq<u8> {
    Seq::new(16, |k: int| be_byte(id, k))
}

/// The derivation input for a note: fixed-width ID, then the owner's UTF-8
/// identity.
pub open spec fn derivation_input_spec(id: u128, owner: Seq<char>) -> Seq<u8> {
    be_bytes128(id) + encode_utf8(owner)
}

/// The fixed context label that domain-separates note keys.
pub open spec fn key_context_spec() -> Seq<u8> {
    encode_utf8("note_symmetric_key"@)
}

/// Two values with the same sixteen big-endian bytes are the same value.
pub proof fn lemma_be_bytes_injective(a: u128, b: u128)
    requires
        be_bytes128(a) == be_bytes128(b),
    ensures
        a == b,
{
    assert forall|k: int| 0 <= k < 16 implies be_byte(a, k) == be_byte(b, k) by {
        assert(be_bytes128(a)[k] == be_byte(a, k));
        assert(be_bytes128(b)[k] == be_byte(b, k));
        assert(be_bytes128(a)[k] == be_bytes128(b)[k]);
    }
    assert(be_byte(a, 0) == be_byte(b, 0));
    assert(be_byte(a, 1) == be_byte(b, 1));
    assert(be_byte(a, 2) == be_byte(b, 2));
    assert(be_byte(a, 3) == be_byte(b, 3));
    assert(be_byte(a, 4) == be_byte(b, 4));
    assert(be_byte(a, 5) == be_byte(b, 5));
    assert(be_byte(a, 6) == be_byte(b, 6));
    assert(be_byte(a, 7) == be_byte(b, 7));
    assert(be_byte(a, 8) == be_byte(b, 8));
    assert(be_byte(a, 9) == be_byte(b, 9));
    assert(be_byte(a, 10) == be_byte(b, 10));
    assert(be_byte(a, 11) == be_byte(b, 11));
    assert(be_byte(a, 12) == be_byte(b, 12));
    assert(be_byte(a, 13) == be_byte(b, 13));
    assert(be_byte(a, 14) == be_byte(b, 14));
    assert(be_byte(a, 15) == be_byte(b, 15));
    assert({
        &&& ((a >> 120u128) & 0xff) as u8 == ((b >> 120u128) & 0xff) as u8
        &&& ((a >> 112u128) & 0xff) as u8 == ((b >> 112u128) & 0xff) as u8
        &&& ((a >> 104u128) & 0xff) as u8 == ((b >> 104u128) & 0xff) as u8
        &&& ((a >> 96u128) & 0xff) as u8 == ((b >> 96u128) & 0xff) as u8
        &&& ((a >> 88u128) & 0xff) as u8 == ((b >> 88u128) & 0xff) as u8
        &&& ((a >> 80u128) & 0xff) as u8 == ((b >> 80u128) & 0xff) as u8
        &&& ((a >> 72u128) & 0xff) as u8 == ((b >> 72u128) & 0xff) as u8
        &&& ((a >> 64u128) & 0xff) as u8 == ((b >> 64u128) & 0xff) as u8
        &&& ((a >> 56u128) & 0xff) as u8 == ((b >> 56u128) & 0xff) as u8
        &&& ((a >> 48u128) & 0xff) as u8 == ((b >> 48u128) & 0xff) as u8
        &&& ((a >> 40u128) & 0xff) as u8 == ((b >> 40u128) & 0xff) as u8
        &&& ((a >> 32u128) & 0xff) as u8 == ((b >> 32u128) & 0xff) as u8
        &&& ((a >> 24u128) & 0xff) as u8 == ((b >> 24u128) & 0xff) as u8
        &&& ((a >> 16u128) & 0xff) as u8 == ((b >> 16u128) & 0xff) as u8
        &&& ((a >> 8u128) & 0xff) as u8 == ((b >> 8u128) & 0xff) as u8
        &&& ((a >> 0u128) & 0xff) as u8 == ((b >> 0u128) & 0xff) as u8
    });
    assert(a == b) by (bit_vector)
        requires
            ((a >> 120u128) & 0xff) as u8 == ((b >> 120u128) & 0xff) as u8,
            ((a >> 112u128) & 0xff) as u8 == ((b >> 112u128) & 0xff) as u8,
            ((a >> 104u128) & 0xff) as u8 == ((b >> 104u128) & 0xff) as u8,
            ((a >> 96u128) & 0xff) as u8 == ((b >> 96u128) & 0xff) as u8,
            ((a >> 88u128) & 0xff) as u8 == ((b >> 88u128) & 0xff) as u8,
            ((a >> 80u128) & 0xff) as u8 == ((b >> 80u128) & 0xff) as u8,
            ((a >> 72u128) & 0xff) as u8 == ((b >> 72u128) & 0xff) as u8,
            ((a >> 64u128) & 0xff) as u8 == ((b >> 64u128) & 0xff) as u8,
            ((a >> 56u128) & 0xff) as u8 == ((b >> 56u128) & 0xff) as u8,
            ((a >> 48u128) & 0xff) as u8 == ((b >> 48u128) & 0xff) as u8,
            ((a >> 40u128) & 0xff) as u8 == ((b >> 40u128) & 0xff) as u8,
            ((a >> 32u128) & 0xff) as u8 == ((b >> 32u128) & 0xff) as u8,
            ((a >> 24u128) & 0xff) as u8 == ((b >> 24u128) & 0xff) as u8,
            ((a >> 16u128) & 0xff) as u8 == ((b >> 16u128) & 0xff) as u8,
            ((a >> 8u128) & 0xff) as u8 == ((b >> 8u128) & 0xff) as u8,
            ((a >> 0u128) & 0xff) as u8 == ((b >> 0u128) & 0xff) as u8,
    ;
}

/// Derivation determinism and prefix-freedom: two (ID, owner) pairs produce
/// the same input bytes exactly when they are the same pair.
pub proof fn lemma_derivation_input_injective(i1: u128, o1: Seq<char>, i2: u128, o2: Seq<char>)
    ensures
        derivation_input_spec(i1, o1) == derivation_input_spec(i2, o2) <==> (i1 == i2 && o1 == o2),
{
    if derivation_input_spec(i1, o1) == derivation_input_spec(i2, o2) {
        let s1 = derivation_input_spec(i1, o1);
        let s2 = derivation_input_spec(i2, o2);
        assert(be_bytes128(i1) =~= s1.subrange(0, 16));
        assert(be_bytes128(i2) =~= s2.subrange(0, 16));
        lemma_be_bytes_injective(i1, i2);
        assert(encode_utf8(o1) =~= s1.subrange(16, s1.len() as int));
        assert(encode_utf8(o2) =~= s2.subrange(16, s2.len() as int));
        encode_utf8_decode_utf8(o1);
        encode_utf8_decode_utf8(o2);
        assert(o1 == o2);
    }
    if i1 == i2 && o1 == o2 {
        assert(derivation_input_spec(i1, o1) == derivation_input_spec(i2, o2));
    }
}

/// Renders `id` as sixteen big-endian bytes.
pub fn id_be_bytes(id: u128) -> (r: Vec<u8>)
    ensures
        r@ == be_bytes128(id),
{
    let mut r: Vec<u8> = Vec::new();
    let mut k: usize = 0;
    while k < 16
        invariant
            0 <= k <= 16,
            r@.len() == k,
            forall|j: int| 0 <= j < k ==> #[trigger] r@[j] == be_byte(id, j),
        decreases 16 - k,
    {
        let shift: u128 = ((15 - k) * 8) as u128;
        let byte: u8 = ((id >> shift) & 0xff) as u8;
        r.push(byte);
        k = k + 1;
    }
    proof {
        assert(r@ =~= be_bytes128(id));
    }
    r
}

/// Builds the derivation input for note `id` owned by `owner`.
pub fn derivation_input(id: u128, owner: &String) -> (r: Vec<u8>)
    ensures
        r@ == derivation_input_spec(id, owner@),
{
    let mut r = id_be_bytes(id);
    let os = owner.as_str();
    let mut ob = os.as_bytes_vec();
    proof {
        assert(os.spec_bytes() == encode_utf8(owner@));
    }
    r.append(&mut ob);
    proof {
        assert(r@ =~= derivation_input_spec(id, owner@));
    }
    r
}

/// The fixed context label for note keys, as bytes.
pub fn key_derivation_context() -> (r: Vec<u8>)
    ensures
        r@ == key_context_spec(),
{
    "note_symmetric_key".as_bytes_vec()
}

/// A fully assembled request for the external key-derivation service: the
/// immutable snapshot taken before the call suspends.
pub struct KeyDerivationRequest {
    pub input: Vec<u8>,
    pub context: Vec<u8>,
    pub transport_public_key: Vec<u8>,
}

impl Store {
    /// Authorizes `caller` for note `note_id` and snapshots the derivation
    /// request: the input built from the note's ID and owner, the fixed
    /// context label, and the caller-supplied transport key.  Everything
    /// security-sensitive is decided here, before the external exchange
    /// suspends the call; nothing is re-read afterwards.
    ///
    /// Fails with `NotFound` exactly when the note does not exist and
    /// `Unauthorized` exactly when the caller is neither owner nor grantee.
    pub fn prepare_note_key_request(
        &self,
        caller: &String,
        note_id: u128,
        transport_public_key: Vec<u8>,
    ) -> (r: Result<KeyDerivationRequest, CoreError>)
        requires
            self.wf(),
        ensures
            match r {
                Ok(req) => {
                    &&& self@.notes.contains_key(note_id)
                    &&& can_read_note(self@.notes[note_id], caller@)
                    &&& req.input@ == derivation_input_spec(
                        note_id,
                        self@.notes[note_id].owner,
                    )
                    &&& req.context@ == key_context_spec()
                    &&& req.transport_public_key@ == transport_public_key@
                },
                Err(e) => {
                    &&& (e == CoreError::NotFound <==> !self@.notes.contains_key(note_id))
                    &&& (e == CoreError::Unauthorized <==> self@.notes.contains_key(note_id)
                        && !can_read_note(self@.notes[note_id], caller@))
                    &&& (e == CoreError::NotFound || e == CoreError::Unauthorized)
                },
            },
    {
        let n = match self.notes.get(&note_id) {
            None => {
                return Err(CoreError::NotFound);
            },
            Some(n) => n,
        };
        if !n.is_authorized(caller) {
            return Err(CoreError::Unauthorized);
        }
        let input = derivation_input(n.id, &n.owner);
        proof {
            assert(n@.id == note_id);
        }
        let context = key_derivation_context();
        Ok(KeyDerivationRequest { input, context, transport_public_key })
    }
}

} // verus!
