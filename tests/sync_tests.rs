use base64::Engine;
use seedenv::model::{PendingSecret, PublicKey, Secret};
use seedenv::remote::{is_success_status, upsert_outcome, RemoteError, Repository, UpsertOutcome};
use seedenv::sync::{
    classify, existing_names, plan_sync, start, step, AbortReason, SecretAction, SyncAction, SyncError,
    SyncEvent, SyncState,
};
use sodiumoxide::crypto::{box_, sealedbox};

fn lines(text: &[&str]) -> Vec<String> {
    text.iter().map(|s| s.to_string()).collect()
}

fn secret(name: &str) -> Secret {
    Secret { name: name.to_string(), updated_at: "2024-01-01T00:00:00Z".to_string() }
}

fn pending(key: &str, value: &str) -> PendingSecret {
    PendingSecret { key: key.to_string(), value: value.to_string() }
}

fn fresh_key() -> (PublicKey, box_::PublicKey, box_::SecretKey) {
    sodiumoxide::init().unwrap();
    let (pk, sk) = box_::gen_keypair();
    let key = PublicKey {
        key_id: "568250167242549743".to_string(),
        key: base64::engine::general_purpose::STANDARD.encode(pk.0),
    };
    (key, pk, sk)
}

fn open(ciphertext: &str, pk: &box_::PublicKey, sk: &box_::SecretKey) -> String {
    let bytes = base64::engine::general_purpose::STANDARD.decode(ciphertext).unwrap();
    String::from_utf8(sealedbox::open(&bytes, pk, sk).unwrap()).unwrap()
}

#[test]
fn existing_key_is_an_update_and_new_key_a_create() {
    let existing = lines(&["API_KEY", "OTHER"]);
    assert_eq!(classify(&existing, &"API_KEY".to_string()), SecretAction::Update);
    assert_eq!(classify(&existing, &"NEW_TOKEN".to_string()), SecretAction::Create);
    assert_eq!(classify(&Vec::new(), &"API_KEY".to_string()), SecretAction::Create);
}

#[test]
fn classification_ignores_values() {
    let existing = lines(&["A"]);
    let p1 = plan_sync(&existing, &vec![pending("A", "1"), pending("B", "2")]);
    let p2 = plan_sync(&existing, &vec![pending("A", "other"), pending("B", "")]);
    assert_eq!(p1[0].action, p2[0].action);
    assert_eq!(p1[1].action, p2[1].action);
    assert_eq!(p1[0].action, SecretAction::Update);
    assert_eq!(p1[1].action, SecretAction::Create);
    assert_eq!(p1[0].name, "A");
    assert_eq!(p1[0].value, "1");
}

#[test]
fn existing_names_keep_listing_order() {
    let names = existing_names(&vec![secret("B"), secret("A")]);
    assert_eq!(names, lines(&["B", "A"]));
}

#[test]
fn upload_status_codes() {
    assert_eq!(upsert_outcome(201), Some(UpsertOutcome::Created));
    assert_eq!(upsert_outcome(204), Some(UpsertOutcome::Updated));
    assert_eq!(upsert_outcome(200), None);
    assert_eq!(upsert_outcome(422), None);
    assert!(is_success_status(200));
    assert!(is_success_status(299));
    assert!(!is_success_status(404));
    assert!(!is_success_status(199));
}

#[test]
fn repository_addresses() {
    let repo = Repository { owner: "octo".to_string(), repo: "demo".to_string() };
    assert_eq!(repo.secrets_url(), "https://api.github.com/repos/octo/demo/actions/secrets");
    assert_eq!(
        repo.public_key_url(),
        "https://api.github.com/repos/octo/demo/actions/secrets/public-key"
    );
    assert_eq!(
        repo.secret_url("API_KEY"),
        "https://api.github.com/repos/octo/demo/actions/secrets/API_KEY"
    );
}

#[test]
fn end_to_end_session_uploads_with_one_key_id() {
    let (key, pk, sk) = fresh_key();
    let key_id = key.key_id.clone();
    let (state, action) = start();
    assert!(matches!(state, SyncState::FetchingKey));
    assert!(matches!(action, SyncAction::FetchPublicKey));
    let (state, action) = step(state, SyncEvent::KeyFetched(key));
    assert!(matches!(action, SyncAction::ListSecrets));
    let (state, action) = step(state, SyncEvent::SecretsListed(vec![secret("API_KEY")]));
    assert!(matches!(action, SyncAction::ReadInput));
    let pasted = lines(&["API_KEY=abc123", "NEW_TOKEN=xyz789", ""]);
    let (state, action) = step(state, SyncEvent::InputCollected(pasted));
    match (&state, &action) {
        (SyncState::Confirming { plan, .. }, SyncAction::Confirm { rejected }) => {
            assert!(rejected.is_empty());
            assert_eq!(plan.len(), 2);
            assert_eq!(plan[0].name, "API_KEY");
            assert_eq!(plan[0].action, SecretAction::Update);
            assert_eq!(plan[1].name, "NEW_TOKEN");
            assert_eq!(plan[1].action, SecretAction::Create);
        }
        _ => panic!("expected confirmation"),
    }
    let (state, action) = step(state, SyncEvent::ConfirmationAnswered(true));
    match &action {
        SyncAction::Upload { secret, action } => {
            assert_eq!(secret.name, "API_KEY");
            assert_eq!(secret.key_id, key_id);
            assert_eq!(*action, SecretAction::Update);
            assert_eq!(open(&secret.ciphertext, &pk, &sk), "abc123");
        }
        _ => panic!("expected an upload"),
    }
    let (state, action) = step(state, SyncEvent::Uploaded(UpsertOutcome::Updated));
    match &action {
        SyncAction::Upload { secret, action } => {
            assert_eq!(secret.name, "NEW_TOKEN");
            assert_eq!(secret.key_id, key_id);
            assert_eq!(*action, SecretAction::Create);
            assert_eq!(open(&secret.ciphertext, &pk, &sk), "xyz789");
        }
        _ => panic!("expected an upload"),
    }
    let (state, action) = step(state, SyncEvent::Uploaded(UpsertOutcome::Created));
    assert!(matches!(state, SyncState::Done));
    assert!(matches!(action, SyncAction::Finish));
}

#[test]
fn comment_only_paste_aborts_without_upload() {
    let (key, _pk, _sk) = fresh_key();
    let (state, _) = step(SyncState::FetchingKey, SyncEvent::KeyFetched(key));
    let (state, _) = step(state, SyncEvent::SecretsListed(Vec::new()));
    let (state, action) =
        step(state, SyncEvent::InputCollected(lines(&["#comment", "", "# another", "", ""])));
    assert!(matches!(state, SyncState::Aborted));
    assert!(matches!(action, SyncAction::Abort { reason: AbortReason::NoSecrets, .. }));
}

#[test]
fn declined_confirmation_aborts() {
    let (key, _pk, _sk) = fresh_key();
    let (state, _) = step(SyncState::FetchingKey, SyncEvent::KeyFetched(key));
    let (state, _) = step(state, SyncEvent::SecretsListed(Vec::new()));
    let (state, _) = step(state, SyncEvent::InputCollected(lines(&["A=1"])));
    let (state, action) = step(state, SyncEvent::ConfirmationAnswered(false));
    assert!(matches!(state, SyncState::Aborted));
    assert!(matches!(action, SyncAction::Abort { reason: AbortReason::Declined, .. }));
}

#[test]
fn remote_failure_is_fatal() {
    let err = RemoteError { status: 401, body: "Bad credentials".to_string() };
    let (state, action) = step(SyncState::FetchingKey, SyncEvent::RemoteFailed(err));
    assert!(matches!(state, SyncState::Failed));
    match action {
        SyncAction::Fail(SyncError::Remote(e)) => {
            assert_eq!(e.status, 401);
            assert_eq!(e.body, "Bad credentials");
        }
        _ => panic!("expected a remote failure"),
    }
}

#[test]
fn malformed_store_key_fails_the_upload() {
    let key = PublicKey { key_id: "1".to_string(), key: "%%%".to_string() };
    let (state, _) = step(SyncState::FetchingKey, SyncEvent::KeyFetched(key));
    let (state, _) = step(state, SyncEvent::SecretsListed(Vec::new()));
    let (state, _) = step(state, SyncEvent::InputCollected(lines(&["A=1"])));
    let (state, action) = step(state, SyncEvent::ConfirmationAnswered(true));
    assert!(matches!(state, SyncState::Failed));
    assert!(matches!(action, SyncAction::Fail(SyncError::Crypto(_))));
}

#[test]
fn event_out_of_order_fails() {
    let (state, action) = step(SyncState::FetchingKey, SyncEvent::ConfirmationAnswered(true));
    assert!(matches!(state, SyncState::Failed));
    assert!(matches!(action, SyncAction::Fail(SyncError::UnexpectedEvent)));
}

#[test]
fn rejected_lines_are_reported_with_the_plan() {
    let (key, _pk, _sk) = fresh_key();
    let (state, _) = step(SyncState::FetchingKey, SyncEvent::KeyFetched(key));
    let (state, _) = step(state, SyncEvent::SecretsListed(Vec::new()));
    let (_, action) = step(state, SyncEvent::InputCollected(lines(&["oops", "A=1", "=x"])));
    match action {
        SyncAction::Confirm { rejected } => assert_eq!(rejected, lines(&["oops", "=x"])),
        _ => panic!("expected confirmation"),
    }
}
