use vault_core::entities::{ApiToken, NoteIds, PassportIds, TokenIds};
use vault_core::keys::derivation_input;
use vault_core::errors::CoreError;
use vault_core::store::Store;

fn s(x: &str) -> String {
    x.to_string()
}

fn new_passport(store: &mut Store, owner: &String, now: u64) -> u128 {
    store
        .create_agent_passport(
            owner,
            now,
            s("assistant"),
            s("custom"),
            vec![s("chat"), s("search")],
            s("encrypted-spec"),
        )
        .unwrap()
}

#[test]
fn passport_create_and_get() {
    let mut store = Store::new();
    let alice = s("alice");
    let id = new_passport(&mut store, &alice, 100);
    assert_eq!(id, 1);
    let p = store.get_agent_passport(&alice, id).unwrap().unwrap();
    assert_eq!(p.agent_name, "assistant");
    assert_eq!(p.owner, "alice");
    assert_eq!(p.created_at, 100);
    assert_eq!(p.last_active, 100);
    assert!(p.is_active);
    assert!(p.api_endpoints.is_empty());
    assert_eq!(store.get_agent_passport(&alice, 99).unwrap(), None);
    assert_eq!(
        store.get_agent_passport(&s("bob"), id).err(),
        Some(CoreError::Unauthorized)
    );
}

#[test]
fn passport_ids_increase_and_list_in_order() {
    let mut store = Store::new();
    let alice = s("alice");
    let p1 = new_passport(&mut store, &alice, 1);
    let p2 = new_passport(&mut store, &alice, 2);
    assert!(p1 < p2);
    let mine = store.get_my_passports(&alice);
    assert_eq!(mine.len(), 2);
    assert_eq!(mine[0].id, p1);
    assert_eq!(mine[1].id, p2);
    assert!(store.get_my_passports(&s("bob")).is_empty());
}

#[test]
fn update_specifications_stamps_activity() {
    let mut store = Store::new();
    let alice = s("alice");
    let id = new_passport(&mut store, &alice, 100);
    store.update_agent_specifications(&alice, id, s("new-spec"), 200).unwrap();
    let p = store.get_agent_passport(&alice, id).unwrap().unwrap();
    assert_eq!(p.encrypted_specifications, "new-spec");
    assert_eq!(p.last_active, 200);
    assert_eq!(p.created_at, 100);
    assert_eq!(
        store.update_agent_specifications(&s("bob"), id, s("x"), 201).err(),
        Some(CoreError::Unauthorized)
    );
    assert_eq!(
        store.update_agent_specifications(&alice, 99, s("x"), 201).err(),
        Some(CoreError::NotFound)
    );
}

#[test]
fn memory_importance_is_clamped_never_rejected() {
    let mut store = Store::new();
    let alice = s("alice");
    let pid = new_passport(&mut store, &alice, 1);
    let m1 = store
        .add_agent_memory(&alice, pid, s("preference"), s("likes tea"), 250, 2)
        .unwrap();
    let m2 = store
        .add_agent_memory(&alice, pid, s("skill"), s("chess"), 70, 3)
        .unwrap();
    assert!(m1 < m2);
    let mems = store.get_agent_memories(&alice, pid, None).unwrap();
    assert_eq!(mems.len(), 2);
    let pref = mems.iter().find(|m| m.memory_type == "preference").unwrap();
    assert_eq!(pref.importance_score, 100);
    let skill = mems.iter().find(|m| m.memory_type == "skill").unwrap();
    assert_eq!(skill.importance_score, 70);
}

#[test]
fn memories_filter_by_type_and_passport() {
    let mut store = Store::new();
    let alice = s("alice");
    let p1 = new_passport(&mut store, &alice, 1);
    let p2 = new_passport(&mut store, &alice, 1);
    store.add_agent_memory(&alice, p1, s("conversation"), s("hello"), 10, 2).unwrap();
    store.add_agent_memory(&alice, p1, s("skill"), s("go"), 20, 3).unwrap();
    store.add_agent_memory(&alice, p2, s("skill"), s("rust"), 30, 4).unwrap();

    let all_p1 = store.get_agent_memories(&alice, p1, None).unwrap();
    assert_eq!(all_p1.len(), 2);
    let skills_p1 = store.get_agent_memories(&alice, p1, Some(s("skill"))).unwrap();
    assert_eq!(skills_p1.len(), 1);
    assert_eq!(skills_p1[0].encrypted_content, "go");
    let none = store.get_agent_memories(&alice, p1, Some(s("dream"))).unwrap();
    assert!(none.is_empty());

    assert_eq!(
        store.add_agent_memory(&s("bob"), p1, s("x"), s("y"), 1, 5).err(),
        Some(CoreError::Unauthorized)
    );
    assert_eq!(
        store.add_agent_memory(&alice, 99, s("x"), s("y"), 1, 5).err(),
        Some(CoreError::NotFound)
    );
    assert_eq!(
        store.get_agent_memories(&s("bob"), p1, None).err(),
        Some(CoreError::Unauthorized)
    );
    assert_eq!(
        store.get_agent_memories(&alice, 99, None).err(),
        Some(CoreError::NotFound)
    );
}

#[test]
fn passport_capacity_ceilings_apply() {
    let mut store = Store::new();
    let alice = s("alice");
    for _ in 0..500 {
        new_passport(&mut store, &alice, 1);
    }
    assert_eq!(
        store
            .create_agent_passport(&alice, 1, s("n"), s("t"), vec![], s("sp"))
            .err(),
        Some(CoreError::CapacityExceeded)
    );
    assert_eq!(store.get_my_passports(&alice).len(), 500);
}

#[test]
fn passport_spec_payload_ceiling_applies() {
    let mut store = Store::new();
    let alice = s("alice");
    let big = "a".repeat(1_000_001);
    assert_eq!(
        store
            .create_agent_passport(&alice, 1, s("n"), s("t"), vec![], big.clone())
            .err(),
        Some(CoreError::PayloadTooLarge)
    );
    let id = new_passport(&mut store, &alice, 1);
    assert_eq!(
        store.update_agent_specifications(&alice, id, big.clone(), 2).err(),
        Some(CoreError::PayloadTooLarge)
    );
    assert_eq!(
        store.add_agent_memory(&alice, id, s("t"), big, 1, 2).err(),
        Some(CoreError::PayloadTooLarge)
    );
}

fn sample_token() -> ApiToken {
    ApiToken {
        id: 1,
        passport_id: 1,
        token_hash: "2c26b46b68ffc68ff99b453c1d30413413422d706483bfa0f98a5e886266e7ae".to_string(),
        name: "ci token".to_string(),
        permissions: vec!["read".to_string(), "memories".to_string()],
        expires_at: Some(1000),
        created_at: 10,
        last_used: None,
        is_active: true,
        owner: "alice".to_string(),
    }
}

#[test]
fn token_validity_follows_activity_and_expiry() {
    let t = sample_token();
    assert!(t.is_valid(999));
    assert!(t.is_valid(1000));
    assert!(!t.is_valid(1001));

    let mut inactive = sample_token();
    inactive.is_active = false;
    assert!(!inactive.is_valid(0));

    let mut eternal = sample_token();
    eternal.expires_at = None;
    assert!(eternal.is_valid(u64::MAX));
}

#[test]
fn token_permissions_support_wildcard() {
    let t = sample_token();
    assert!(t.has_permission("read"));
    assert!(!t.has_permission("write"));
    let mut wild = sample_token();
    wild.permissions = vec!["*".to_string()];
    assert!(wild.has_permission("anything"));
}

#[test]
fn entity_authorization_is_owner_based() {
    let t = sample_token();
    assert!(t.is_authorized(&s("alice")));
    assert!(!t.is_authorized(&s("bob")));

    let mut store = Store::new();
    let alice = s("alice");
    let id = store.create_note(&alice).unwrap();
    store.add_user(&alice, id, s("bob")).unwrap();
    let note = store.get_notes(&alice).remove(0);
    assert!(note.is_authorized(&s("alice")));
    assert!(note.is_authorized(&s("bob")));
    assert!(!note.is_authorized(&s("carol")));
}

#[test]
fn id_buckets_iterate_in_insertion_order() {
    let n = NoteIds { ids: vec![3, 1, 2] };
    assert_eq!(n.iter().clone(), vec![3, 1, 2]);
    let p = PassportIds { ids: vec![5] };
    assert_eq!(p.iter().clone(), vec![5]);
    let t = TokenIds { ids: vec![] };
    assert!(t.iter().is_empty());
    let d: NoteIds = Default::default();
    assert!(d.iter().is_empty());
}

#[test]
fn derivation_input_is_deterministic_and_injective() {
    let alice = s("alice");
    let i1 = derivation_input(7, &alice);
    let i2 = derivation_input(7, &alice);
    assert_eq!(i1, i2);
    // Sixteen big-endian ID bytes, then the owner's UTF-8 bytes.
    let mut expected = vec![0u8; 15];
    expected.push(7);
    expected.extend_from_slice(b"alice");
    assert_eq!(i1, expected);

    // Different IDs or owners never collide, even when a naive
    // concatenation would: (1, "") vs a crafted owner for id 0.
    assert_ne!(derivation_input(1, &s("x")), derivation_input(2, &s("x")));
    assert_ne!(derivation_input(7, &s("ab")), derivation_input(7, &s("abc")));
}

#[test]
fn key_request_snapshots_authorized_note() {
    let mut store = Store::new();
    let alice = s("alice");
    let id = store.create_note(&alice).unwrap();
    store.add_user(&alice, id, s("bob")).unwrap();
    let req = store.prepare_note_key_request(&s("bob"), id, vec![9, 9]).unwrap();
    assert_eq!(req.input, vault_core::keys::derivation_input(id, &alice));
    assert_eq!(req.context, b"note_symmetric_key".to_vec());
    assert_eq!(req.transport_public_key, vec![9, 9]);
    assert_eq!(
        store.prepare_note_key_request(&s("carol"), id, vec![]).err(),
        Some(CoreError::Unauthorized)
    );
    assert_eq!(
        store.prepare_note_key_request(&alice, 99, vec![]).err(),
        Some(CoreError::NotFound)
    );
}

#[test]
fn error_labels_are_stable() {
    assert_eq!(CoreError::NotFound.label(), "not found");
    assert_eq!(CoreError::Unauthorized.label(), "unauthorized");
    assert_eq!(CoreError::CapacityExceeded.label(), "capacity exceeded");
    assert_eq!(CoreError::PayloadTooLarge.label(), "payload too large");
    assert_eq!(CoreError::AllocatorExhausted.label(), "allocator exhausted");
    assert_eq!(CoreError::ExternalServiceFailure.label(), "external service failure");
    assert_eq!(CoreError::InvalidState.label(), "invalid state");
}
