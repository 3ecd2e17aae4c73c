use vault_core::entities::{JobStatus, SyntheticDataRequest};
use vault_core::errors::CoreError;
use vault_core::store::Store;

fn s(x: &str) -> String {
    x.to_string()
}

fn request(dataset_id: &str) -> SyntheticDataRequest {
    SyntheticDataRequest {
        dataset_id: s(dataset_id),
        num_records: 10,
        privacy_level: s("high"),
        model_type: s("statistical"),
        preserve_correlations: true,
        hipaa_compliant: true,
    }
}

fn store_with_dataset(owner: &String) -> (Store, u128) {
    let mut store = Store::new();
    let id = store.create_note(owner).unwrap();
    store.update_note(owner, id, s("col_a,col_b\n1,2\n")).unwrap();
    (store, id)
}

#[test]
fn job_key_is_time_and_owner_fragment() {
    let alice = s("alice");
    let (mut store, _) = store_with_dataset(&alice);
    let key = store.create_synthetic_job(&alice, request("1"), 42).unwrap();
    assert_eq!(key, "job_42_alice");

    let long = s("abcdefghijk");
    let mut store2 = Store::new();
    let id2 = store2.create_note(&long).unwrap();
    assert_eq!(id2, 1);
    let key2 = store2.create_synthetic_job(&long, request("1"), 7).unwrap();
    assert_eq!(key2, "job_7_abcdefgh");
}

#[test]
fn create_job_requires_accessible_dataset() {
    let alice = s("alice");
    let bob = s("bob");
    let (mut store, _) = store_with_dataset(&alice);
    assert_eq!(
        store.create_synthetic_job(&alice, request("99"), 1).err(),
        Some(CoreError::NotFound)
    );
    assert_eq!(
        store.create_synthetic_job(&bob, request("1"), 1).err(),
        Some(CoreError::NotFound)
    );
    // A grantee of the dataset may create a job over it.
    store.add_user(&alice, 1, s("bob")).unwrap();
    assert!(store.create_synthetic_job(&bob, request("1"), 1).is_ok());
}

#[test]
fn create_job_rejects_duplicate_key() {
    let alice = s("alice");
    let (mut store, _) = store_with_dataset(&alice);
    store.create_synthetic_job(&alice, request("1"), 5).unwrap();
    assert_eq!(
        store.create_synthetic_job(&alice, request("1"), 5).err(),
        Some(CoreError::InvalidState)
    );
    assert!(store.create_synthetic_job(&alice, request("1"), 6).is_ok());
}

#[test]
fn job_lifecycle_pending_to_completed() {
    let alice = s("alice");
    let (mut store, _) = store_with_dataset(&alice);
    let key = store.create_synthetic_job(&alice, request("1"), 5).unwrap();

    // Created pending with progress 0.
    let job = store.get_synthetic_job_status(&alice, key.clone()).unwrap();
    assert_eq!(job.status, JobStatus::Pending);
    assert_eq!(job.progress, 0);
    assert_eq!(job.completed_at, None);
    assert_eq!(job.result_dataset_id, None);

    // Advance to 40, processing.
    store
        .update_synthetic_job_progress(&alice, key.clone(), 40, JobStatus::Processing, 6, s(""))
        .unwrap();
    let job = store.get_synthetic_job_status(&alice, key.clone()).unwrap();
    assert_eq!(job.status, JobStatus::Processing);
    assert_eq!(job.progress, 40);

    // Reaching 100 forces completed, stamps the time once, and creates
    // exactly one result note recorded on the job.
    let notes_before = store.get_notes(&alice).len();
    store
        .update_synthetic_job_progress(
            &alice,
            key.clone(),
            100,
            JobStatus::Processing,
            7,
            s("synthetic,rows\n"),
        )
        .unwrap();
    let job = store.get_synthetic_job_status(&alice, key.clone()).unwrap();
    assert_eq!(job.status, JobStatus::Completed);
    assert_eq!(job.progress, 100);
    assert_eq!(job.completed_at, Some(7));
    let notes_after = store.get_notes(&alice);
    assert_eq!(notes_after.len(), notes_before + 1);
    let result_id = job.result_dataset_id.unwrap();
    let result_note = notes_after.iter().find(|n| n.id.to_string() == result_id).unwrap();
    assert_eq!(result_note.encrypted_text, "synthetic,rows\n");
    assert!(result_note.users.is_empty());

    // No operation moves a job out of a terminal status.
    assert_eq!(
        store
            .update_synthetic_job_progress(&alice, key.clone(), 100, JobStatus::Processing, 8, s(""))
            .err(),
        Some(CoreError::InvalidState)
    );
}

#[test]
fn progress_is_clamped_and_monotonic() {
    let alice = s("alice");
    let (mut store, _) = store_with_dataset(&alice);
    let key = store.create_synthetic_job(&alice, request("1"), 5).unwrap();
    store
        .update_synthetic_job_progress(&alice, key.clone(), 60, JobStatus::Processing, 6, s(""))
        .unwrap();
    // Regression is refused.
    assert_eq!(
        store
            .update_synthetic_job_progress(&alice, key.clone(), 30, JobStatus::Processing, 7, s(""))
            .err(),
        Some(CoreError::InvalidState)
    );
    // Values above 100 clamp to 100 and therefore complete the job.
    store
        .update_synthetic_job_progress(&alice, key.clone(), 250, JobStatus::Processing, 8, s("r"))
        .unwrap();
    let job = store.get_synthetic_job_status(&alice, key).unwrap();
    assert_eq!(job.progress, 100);
    assert_eq!(job.status, JobStatus::Completed);
}

#[test]
fn advance_rejects_bad_status_requests() {
    let alice = s("alice");
    let (mut store, _) = store_with_dataset(&alice);
    let key = store.create_synthetic_job(&alice, request("1"), 5).unwrap();
    assert_eq!(
        store
            .update_synthetic_job_progress(&alice, key.clone(), 10, JobStatus::Pending, 6, s(""))
            .err(),
        Some(CoreError::InvalidState)
    );
    assert_eq!(
        store
            .update_synthetic_job_progress(&alice, key.clone(), 10, JobStatus::Completed, 6, s(""))
            .err(),
        Some(CoreError::InvalidState)
    );
    // Failing is terminal.
    store
        .update_synthetic_job_progress(&alice, key.clone(), 10, JobStatus::Failed, 6, s(""))
        .unwrap();
    let job = store.get_synthetic_job_status(&alice, key.clone()).unwrap();
    assert_eq!(job.status, JobStatus::Failed);
    assert_eq!(job.completed_at, None);
    assert_eq!(
        store
            .update_synthetic_job_progress(&alice, key, 20, JobStatus::Processing, 7, s(""))
            .err(),
        Some(CoreError::InvalidState)
    );
}

#[test]
fn job_access_is_owner_only() {
    let alice = s("alice");
    let bob = s("bob");
    let (mut store, _) = store_with_dataset(&alice);
    let key = store.create_synthetic_job(&alice, request("1"), 5).unwrap();
    assert_eq!(
        store.get_synthetic_job_status(&bob, key.clone()).err(),
        Some(CoreError::Unauthorized)
    );
    assert_eq!(
        store
            .update_synthetic_job_progress(&bob, key.clone(), 10, JobStatus::Processing, 6, s(""))
            .err(),
        Some(CoreError::Unauthorized)
    );
    assert_eq!(
        store.get_synthetic_job_status(&alice, s("job_9_nobody")).err(),
        Some(CoreError::NotFound)
    );
    assert!(store.get_my_synthetic_jobs(&bob).is_empty());
    let mine = store.get_my_synthetic_jobs(&alice);
    assert_eq!(mine.len(), 1);
    assert_eq!(mine[0].job_id, key);
}

#[test]
fn completion_respects_payload_ceiling() {
    let alice = s("alice");
    let (mut store, _) = store_with_dataset(&alice);
    let key = store.create_synthetic_job(&alice, request("1"), 5).unwrap();
    let big = "x".repeat(1_000_001);
    assert_eq!(
        store
            .update_synthetic_job_progress(&alice, key.clone(), 100, JobStatus::Processing, 6, big)
            .err(),
        Some(CoreError::PayloadTooLarge)
    );
    // The job did not move.
    let job = store.get_synthetic_job_status(&alice, key).unwrap();
    assert_eq!(job.status, JobStatus::Pending);
    assert_eq!(job.progress, 0);
}

#[test]
fn decimal_rendering_is_exact() {
    assert_eq!(vault_core::numfmt::u128_to_dec_string(0), "0");
    assert_eq!(vault_core::numfmt::u128_to_dec_string(7), "7");
    assert_eq!(vault_core::numfmt::u128_to_dec_string(10), "10");
    assert_eq!(vault_core::numfmt::u128_to_dec_string(12345), "12345");
    assert_eq!(
        vault_core::numfmt::u128_to_dec_string(u128::MAX),
        "340282366920938463463374607431768211455"
    );
    assert_eq!(vault_core::numfmt::u64_to_dec_string(42), "42");
}
