use vault_core::errors::CoreError;
use vault_core::store::Store;

fn s(x: &str) -> String {
    x.to_string()
}

#[test]
fn create_note_returns_strictly_increasing_ids() {
    let mut store = Store::new();
    let alice = s("alice");
    let bob = s("bob");
    let id1 = store.create_note(&alice).unwrap();
    let id2 = store.create_note(&bob).unwrap();
    let id3 = store.create_note(&alice).unwrap();
    assert_eq!(id1, 1);
    assert_eq!(id2, 2);
    assert_eq!(id3, 3);
    assert!(id1 < id2 && id2 < id3);
}

#[test]
fn ids_are_not_reused_after_delete() {
    let mut store = Store::new();
    let alice = s("alice");
    let id1 = store.create_note(&alice).unwrap();
    store.delete_note(&alice, id1).unwrap();
    let id2 = store.create_note(&alice).unwrap();
    assert_ne!(id1, id2);
    assert!(id2 > id1);
}

#[test]
fn get_notes_returns_owned_then_shared() {
    let mut store = Store::new();
    let alice = s("alice");
    let bob = s("bob");
    let a1 = store.create_note(&alice).unwrap();
    let b1 = store.create_note(&bob).unwrap();
    store.add_user(&bob, b1, s("alice")).unwrap();
    let notes = store.get_notes(&alice);
    assert_eq!(notes.len(), 2);
    assert_eq!(notes[0].id, a1);
    assert_eq!(notes[1].id, b1);
}

#[test]
fn update_note_changes_payload_for_owner() {
    let mut store = Store::new();
    let alice = s("alice");
    let id = store.create_note(&alice).unwrap();
    store.update_note(&alice, id, s("ciphertext")).unwrap();
    let notes = store.get_notes(&alice);
    assert_eq!(notes[0].encrypted_text, "ciphertext");
}

#[test]
fn update_note_rejects_unknown_id_with_not_found() {
    let mut store = Store::new();
    let alice = s("alice");
    assert_eq!(store.update_note(&alice, 7, s("x")), Err(CoreError::NotFound));
}

#[test]
fn update_note_rejects_grantee_with_unauthorized() {
    let mut store = Store::new();
    let alice = s("alice");
    let bob = s("bob");
    let id = store.create_note(&alice).unwrap();
    store.add_user(&alice, id, s("bob")).unwrap();
    assert_eq!(store.update_note(&bob, id, s("x")), Err(CoreError::Unauthorized));
}

#[test]
fn update_note_rejects_oversized_payload() {
    let mut store = Store::new();
    let alice = s("alice");
    let id = store.create_note(&alice).unwrap();
    let big = "a".repeat(1_000_001);
    assert_eq!(store.update_note(&alice, id, big), Err(CoreError::PayloadTooLarge));
    let exact = "a".repeat(1_000_000);
    assert!(store.update_note(&alice, id, exact).is_ok());
}

#[test]
fn authorization_round_trip_for_sharing() {
    let mut store = Store::new();
    let alice = s("alice");
    let bob = s("bob");
    let carol = s("carol");
    let id = store.create_note(&alice).unwrap();
    store.update_note(&alice, id, s("secret")).unwrap();

    // A non-owner, non-grantee is denied.
    assert_eq!(store.update_note(&carol, id, s("x")), Err(CoreError::Unauthorized));
    assert_eq!(store.delete_note(&carol, id), Err(CoreError::Unauthorized));
    assert_eq!(store.add_user(&carol, id, s("dave")), Err(CoreError::Unauthorized));
    assert!(store.get_notes(&carol).is_empty());

    // After sharing, the grantee can read but not write, share or delete.
    store.add_user(&alice, id, s("bob")).unwrap();
    let bob_notes = store.get_notes(&bob);
    assert_eq!(bob_notes.len(), 1);
    assert_eq!(bob_notes[0].encrypted_text, "secret");
    assert_eq!(store.update_note(&bob, id, s("x")), Err(CoreError::Unauthorized));
    assert_eq!(store.delete_note(&bob, id), Err(CoreError::Unauthorized));
    assert_eq!(store.add_user(&bob, id, s("carol")), Err(CoreError::Unauthorized));
    assert_eq!(store.remove_user(&bob, id, s("bob")), Err(CoreError::Unauthorized));

    // After unsharing, access reverts to denied.
    store.remove_user(&alice, id, s("bob")).unwrap();
    assert!(store.get_notes(&bob).is_empty());

    // The owner always succeeds.
    assert!(store.update_note(&alice, id, s("new")).is_ok());
}

#[test]
fn sharing_is_idempotent_and_owner_is_never_a_grantee() {
    let mut store = Store::new();
    let alice = s("alice");
    let id = store.create_note(&alice).unwrap();
    store.add_user(&alice, id, s("bob")).unwrap();
    store.add_user(&alice, id, s("bob")).unwrap();
    store.add_user(&alice, id, s("alice")).unwrap();
    let notes = store.get_notes(&alice);
    assert_eq!(notes[0].users, vec![s("bob")]);
}

#[test]
fn share_ceiling_is_enforced() {
    let mut store = Store::new();
    let alice = s("alice");
    let id = store.create_note(&alice).unwrap();
    for k in 0..50 {
        store.add_user(&alice, id, format!("user{k}")).unwrap();
    }
    assert_eq!(store.add_user(&alice, id, s("extra")), Err(CoreError::CapacityExceeded));
    // An existing grantee is still accepted as a no-op at the ceiling.
    assert!(store.add_user(&alice, id, s("user0")).is_ok());
    let notes = store.get_notes(&alice);
    assert_eq!(notes[0].users.len(), 50);
}

#[test]
fn per_owner_capacity_boundary_leaves_store_unchanged() {
    let mut store = Store::new();
    let alice = s("alice");
    for _ in 0..500 {
        store.create_note(&alice).unwrap();
    }
    let before = store.get_notes(&alice);
    assert_eq!(store.create_note(&alice), Err(CoreError::CapacityExceeded));
    let after = store.get_notes(&alice);
    assert_eq!(before, after);
    assert_eq!(after.len(), 500);
}

#[test]
fn distinct_owner_ceiling_is_enforced() {
    let mut store = Store::new();
    for k in 0..1000 {
        store.create_note(&format!("owner{k}")).unwrap();
    }
    // An existing owner may still create.
    assert!(store.create_note(&s("owner0")).is_ok());
    // A new owner may not.
    assert_eq!(store.create_note(&s("newcomer")), Err(CoreError::CapacityExceeded));
    assert!(store.get_notes(&s("newcomer")).is_empty());
}

#[test]
fn allocator_exhaustion_is_reported() {
    let mut store = Store::new();
    store.next_note_id = u128::MAX;
    assert_eq!(store.create_note(&s("alice")), Err(CoreError::AllocatorExhausted));
}

#[test]
fn delete_note_scrubs_owner_and_share_buckets() {
    let mut store = Store::new();
    let alice = s("alice");
    let bob = s("bob");
    let id1 = store.create_note(&alice).unwrap();
    let id2 = store.create_note(&alice).unwrap();
    store.add_user(&alice, id1, s("bob")).unwrap();
    store.add_user(&alice, id2, s("bob")).unwrap();

    store.delete_note(&alice, id1).unwrap();
    let alice_notes = store.get_notes(&alice);
    assert_eq!(alice_notes.len(), 1);
    assert_eq!(alice_notes[0].id, id2);
    let bob_notes = store.get_notes(&bob);
    assert_eq!(bob_notes.len(), 1);
    assert_eq!(bob_notes[0].id, id2);

    assert_eq!(store.delete_note(&alice, id1), Err(CoreError::NotFound));
}

#[test]
fn note_sharing_scenario_end_to_end() {
    let mut store = Store::new();
    let owner = s("owner");
    let b = s("b");

    // create note -> share with b -> b reads (succeeds)
    let id = store.create_note(&owner).unwrap();
    store.update_note(&owner, id, s("payload")).unwrap();
    store.add_user(&owner, id, s("b")).unwrap();
    let read = store.get_notes(&b);
    assert_eq!(read.len(), 1);
    assert_eq!(read[0].encrypted_text, "payload");

    // owner unshares b -> b can no longer read; a direct authorized access
    // path reports Unauthorized.
    store.remove_user(&owner, id, s("b")).unwrap();
    assert!(store.get_notes(&b).is_empty());
    assert_eq!(
        store.prepare_note_key_request(&b, id, vec![1, 2, 3]).err(),
        Some(CoreError::Unauthorized)
    );

    // owner deletes the note -> it was the owner's only item, so the whole
    // bucket is gone and nothing is listed any more.
    store.delete_note(&owner, id).unwrap();
    assert!(store.get_notes(&owner).is_empty());
}
