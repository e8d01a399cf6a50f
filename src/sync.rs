use vstd::prelude::*;
use crate::crypto::{encrypt_secret, is_encryption_error, is_sealing_of, CryptoError};
use crate::model::{EncryptedSecret, PendingSecret, PublicKey, Secret};
use crate::parser::{
    collected, entries_map, keys_unique, parse_paste_input, rejected_lines, secrets_map, texts,
};
use crate::remote::{RemoteError, UpsertOutcome};

verus! {

/// Whether a parsed key creates a new secret or replaces an existing one.
#[derive(Clone, Copy, Debug, PartialEq, Eq, Structural)]
pub enum SecretAction {
    Create,
    Update,
}

/// `Update` where `key` is among the existing names, else `Create`.
pub open spec fn action_for(existing: Seq<Seq<char>>, key: Seq<char>) -> SecretAction {
    if existing.contains(key) {
        SecretAction::Update
    } else {
        SecretAction::Create
    }
}

/// The names of the secrets in the store.
pub open spec fn names_of(secrets: Seq<Secret>) -> Seq<Seq<char>> {
    secrets.map_values(|s: Secret| s.name@)
}

/// The names of the listed secrets, in the order listed.
pub fn existing_names(secrets: &Vec<Secret>) -> (r: Vec<String>)
    ensures
        texts(r@) == names_of(secrets@),
{
    let mut out: Vec<String> = Vec::new();
    let n = secrets.len();
    let mut i: usize = 0;
    while i < n
        invariant
            n == secrets@.len(),
            i <= n,
            texts(out@) =~= names_of(secrets@.take(i as int)),
        decreases n - i,
    {
        out.push(secrets[i].name.clone());
        assert(names_of(secrets@.take(i + 1)) =~= names_of(secrets@.take(i as int)).push(
            secrets@[i as int].name@,
        ));
        i = i + 1;
    }
    assert(secrets@.take(n as int) =~= secrets@);
    out
}

/// Classifies one key against the existing names.
pub fn classify(existing: &Vec<String>, key: &String) -> (r: SecretAction)
    ensures
        r == action_for(texts(existing@), key@),
{
    let n = existing.len();
    let mut i: usize = 0;
    while i < n && existing[i] != *key
        invariant
            n == existing@.len(),
            i <= n,
            forall|j: int| 0 <= j < i ==> existing@[j]@ != key@,
        decreases n - i,
    {
        i = i + 1;
    }
    if i < n {
        assert(texts(existing@)[i as int] == key@);
        SecretAction::Update
    } else {
        assert(!texts(existing@).contains(key@));
        SecretAction::Create
    }
}

/// A parsed secret together with its classification.
pub struct PlannedSecret {
    pub name: String,
    pub value: String,
    pub action: SecretAction,
}

/// `plan` lists `secrets` in order, each classified against `existing`.
pub open spec fn is_plan_of(
    plan: Seq<PlannedSecret>,
    existing: Seq<Seq<char>>,
    secrets: Seq<PendingSecret>,
) -> bool {
    &&& plan.len() == secrets.len()
    &&& forall|i: int|
        0 <= i < plan.len() ==> {
            &&& #[trigger] plan[i].name@ == secrets[i].key@
            &&& plan[i].value@ == secrets[i].value@
            &&& plan[i].action == action_for(existing, secrets[i].key@)
        }
}

/// Classifies each parsed secret as a creation or an update.
pub fn plan_sync(existing: &Vec<String>, secrets: &Vec<PendingSecret>) -> (r: Vec<PlannedSecret>)
    ensures
        is_plan_of(r@, texts(existing@), secrets@),
{
    let mut plan: Vec<PlannedSecret> = Vec::new();
    let n = secrets.len();
    let mut i: usize = 0;
    while i < n
        invariant
            n == secrets@.len(),
            i <= n,
            is_plan_of(plan@, texts(existing@), secrets@.take(i as int)),
        decreases n - i,
    {
        let s = &secrets[i];
        let action = classify(existing, &s.key);
        let ghost before = plan@;
        plan.push(PlannedSecret { name: s.key.clone(), value: s.value.clone(), action });
        proof {
            let t = secrets@.take(i + 1);
            assert forall|j: int| 0 <= j < plan@.len() implies {
                &&& #[trigger] plan@[j].name@ == t[j].key@
                &&& plan@[j].value@ == t[j].value@
                &&& plan@[j].action == action_for(texts(existing@), t[j].key@)
            } by {
                if j < i {
                    assert(plan@[j] == before[j]);
                    assert(t[j] == secrets@.take(i as int)[j]);
                    assert(before[j].name@ == secrets@.take(i as int)[j].key@);
                } else {
                    assert(t[j] == secrets@[j]);
                }
            }
        }
        i = i + 1;
    }
    assert(secrets@.take(n as int) =~= secrets@);
    plan
}

} // verus!

verus! {

/// Why a session stopped with an error.
pub enum SyncError {
    Remote(RemoteError),
    Crypto(CryptoError),
    /// An event that the session's current state does not expect.
    UnexpectedEvent,
}

/// Where a session stands.
pub enum SyncState {
    FetchingKey,
    ListingExisting { key: PublicKey },
    AwaitingInput { key: PublicKey, existing: Vec<String> },
    Confirming { key: PublicKey, plan: Vec<PlannedSecret> },
    /// `sent` uploads of `plan` have been handed out; the last is in flight.
    Uploading { key: PublicKey, plan: Vec<PlannedSecret>, sent: usize },
    Done,
    Aborted,
    Failed,
}

/// What the outside world reports back to a session.
pub enum SyncEvent {
    KeyFetched(PublicKey),
    SecretsListed(Vec<Secret>),
    InputCollected(Vec<String>),
    ConfirmationAnswered(bool),
    Uploaded(UpsertOutcome),
    RemoteFailed(RemoteError),
}

/// Why a session ended without uploading.
#[derive(Clone, Copy, Debug, PartialEq, Eq, Structural)]
pub enum AbortReason {
    /// The paste held no entry.
    NoSecrets,
    /// The operator declined the upload.
    Declined,
}

/// What a session asks the outside world to do next.
pub enum SyncAction {
    FetchPublicKey,
    ListSecrets,
    ReadInput,
    /// Show the plan held by the `Confirming` state and ask for a yes or no;
    /// `rejected` are the pasted lines that were skipped.
    Confirm { rejected: Vec<String> },
    Upload { secret: EncryptedSecret, action: SecretAction },
    /// The session ends without uploading anything.
    Abort { rejected: Vec<String>, reason: AbortReason },
    Finish,
    Fail(SyncError),
}

/// The result of handing out upload number `sent` of `plan`, or of finishing.
pub open spec fn upload_next_spec(
    key: PublicKey,
    plan: Seq<PlannedSecret>,
    sent: int,
    r: (SyncState, SyncAction),
) -> bool {
    if sent >= plan.len() {
        r.0 is Done && r.1 is Finish
    } else {
        match r.1 {
            SyncAction::Upload { secret, action } => {
                &&& (r.0 matches SyncState::Uploading { key: k, plan: p, sent: s } && k == key && p@
                    == plan && s == sent + 1)
                &&& secret.name@ == plan[sent].name@
                &&& secret.key_id@ == key.key_id@
                &&& action == plan[sent].action
                &&& is_sealing_of(secret.ciphertext@, plan[sent].value@, key.key@)
            },
            SyncAction::Fail(SyncError::Crypto(e)) => r.0 is Failed && is_encryption_error(
                e,
                plan[sent].value@,
                key.key@,
            ),
            _ => false,
        }
    }
}

/// Hands out the next upload of `plan`, sealed under `key`, or finishes.
fn upload_next(key: PublicKey, plan: Vec<PlannedSecret>, sent: usize) -> (r: (SyncState, SyncAction))
    ensures
        upload_next_spec(key, plan@, sent as int, r),
{
    if sent >= plan.len() {
        return (SyncState::Done, SyncAction::Finish);
    }
    let item = &plan[sent];
    match encrypt_secret(item.value.as_str(), key.key.as_str()) {
        Ok(ciphertext) => {
            let secret = EncryptedSecret {
                name: item.name.clone(),
                ciphertext,
                key_id: key.key_id.clone(),
            };
            let action = item.action;
            (SyncState::Uploading { key, plan, sent: sent + 1 }, SyncAction::Upload { secret, action })
        },
        Err(e) => (SyncState::Failed, SyncAction::Fail(SyncError::Crypto(e))),
    }
}

/// How a session moves on one event.
pub open spec fn step_spec(state: SyncState, event: SyncEvent, r: (SyncState, SyncAction)) -> bool {
    match (state, event) {
        (SyncState::FetchingKey, SyncEvent::KeyFetched(k)) => r.0 == SyncState::ListingExisting {
            key: k,
        } && r.1 is ListSecrets,
        (SyncState::ListingExisting { key }, SyncEvent::SecretsListed(list)) => (r.0 matches SyncState::AwaitingInput {
            key: k,
            existing,
        } && k == key && texts(existing@) == names_of(list@)) && r.1 is ReadInput,
        (SyncState::AwaitingInput { key, existing }, SyncEvent::InputCollected(lines)) => {
            let m = entries_map(collected(texts(lines@)));
            let bad = rejected_lines(collected(texts(lines@)));
            if m == Map::<Seq<char>, Seq<char>>::empty() {
                r.0 is Aborted && (r.1 matches SyncAction::Abort { rejected, reason } && texts(
                    rejected@,
                ) == bad && reason == AbortReason::NoSecrets)
            } else {
                &&& (r.0 matches SyncState::Confirming { key: k, plan } && k == key && exists|
                    s: Seq<PendingSecret>,
                |
                    keys_unique(s) && #[trigger] secrets_map(s) == m && is_plan_of(
                        plan@,
                        texts(existing@),
                        s,
                    ))
                &&& (r.1 matches SyncAction::Confirm { rejected } && texts(rejected@) == bad)
            }
        },
        (SyncState::Confirming { key, plan }, SyncEvent::ConfirmationAnswered(yes)) => if yes {
            upload_next_spec(key, plan@, 0, r)
        } else {
            r.0 is Aborted && (r.1 matches SyncAction::Abort { rejected, reason } && rejected@.len()
                == 0 && reason == AbortReason::Declined)
        },
        (SyncState::Uploading { key, plan, sent }, SyncEvent::Uploaded(_)) => upload_next_spec(
            key,
            plan@,
            sent as int,
            r,
        ),
        (SyncState::FetchingKey, SyncEvent::RemoteFailed(e)) => r.0 is Failed && r.1
            == SyncAction::Fail(SyncError::Remote(e)),
        (SyncState::ListingExisting { .. }, SyncEvent::RemoteFailed(e)) => r.0 is Failed && r.1
            == SyncAction::Fail(SyncError::Remote(e)),
        (SyncState::Uploading { .. }, SyncEvent::RemoteFailed(e)) => r.0 is Failed && r.1
            == SyncAction::Fail(SyncError::Remote(e)),
        _ => r.0 is Failed && r.1 == SyncAction::Fail(SyncError::UnexpectedEvent),
    }
}

/// The first state of a session and its first request.
pub fn start() -> (r: (SyncState, SyncAction))
    ensures
        r.0 is FetchingKey && r.1 is FetchPublicKey,
{
    (SyncState::FetchingKey, SyncAction::FetchPublicKey)
}

/// Moves a session on by one event: fetch the key, list what exists, parse
/// the paste, classify, ask, then seal and upload one secret per event.
pub fn step(state: SyncState, event: SyncEvent) -> (r: (SyncState, SyncAction))
    ensures
        step_spec(state, event, r),
{
    match (state, event) {
        (SyncState::FetchingKey, SyncEvent::KeyFetched(key)) => {
            (SyncState::ListingExisting { key }, SyncAction::ListSecrets)
        },
        (SyncState::ListingExisting { key }, SyncEvent::SecretsListed(list)) => {
            let existing = existing_names(&list);
            (SyncState::AwaitingInput { key, existing }, SyncAction::ReadInput)
        },
        (SyncState::AwaitingInput { key, existing }, SyncEvent::InputCollected(lines)) => {
            let parsed = parse_paste_input(&lines);
            let ghost m = entries_map(collected(texts(lines@)));
            if parsed.secrets.len() == 0 {
                assert(parsed.secrets@ =~= Seq::<PendingSecret>::empty());
                assert(m =~= Map::<Seq<char>, Seq<char>>::empty());
                (SyncState::Aborted, SyncAction::Abort { rejected: parsed.rejected, reason: AbortReason::NoSecrets })
            } else {
                let ghost s = parsed.secrets@;
                assert(secrets_map(s).dom().contains(s.last().key@));
                let plan = plan_sync(&existing, &parsed.secrets);
                (SyncState::Confirming { key, plan }, SyncAction::Confirm { rejected: parsed.rejected })
            }
        },
        (SyncState::Confirming { key, plan }, SyncEvent::ConfirmationAnswered(yes)) => {
            if yes {
                upload_next(key, plan, 0)
            } else {
                (SyncState::Aborted, SyncAction::Abort { rejected: Vec::new(), reason: AbortReason::Declined })
            }
        },
        (SyncState::Uploading { key, plan, sent }, SyncEvent::Uploaded(_)) => {
            upload_next(key, plan, sent)
        },
        (SyncState::FetchingKey, SyncEvent::RemoteFailed(e)) => {
            (SyncState::Failed, SyncAction::Fail(SyncError::Remote(e)))
        },
        (SyncState::ListingExisting { .. }, SyncEvent::RemoteFailed(e)) => {
            (SyncState::Failed, SyncAction::Fail(SyncError::Remote(e)))
        },
        (SyncState::Uploading { .. }, SyncEvent::RemoteFailed(e)) => {
            (SyncState::Failed, SyncAction::Fail(SyncError::Remote(e)))
        },
        _ => (SyncState::Failed, SyncAction::Fail(SyncError::UnexpectedEvent)),
    }
}

} // verus!

verus! {

/// The classification looks at keys alone: two sequences of secrets with the
/// same keys, whatever their values, are planned with the same actions.
pub proof fn lemma_plan_ignores_values(
    existing: Seq<Seq<char>>,
    s1: Seq<PendingSecret>,
    s2: Seq<PendingSecret>,
    p1: Seq<PlannedSecret>,
    p2: Seq<PlannedSecret>,
)
    requires
        s1.len() == s2.len(),
        forall|i: int| 0 <= i < s1.len() ==> s1[i].key@ == s2[i].key@,
        is_plan_of(p1, existing, s1),
        is_plan_of(p2, existing, s2),
    ensures
        forall|i: int| 0 <= i < p1.len() ==> p1[i].action == p2[i].action,
        forall|i: int|
            0 <= i < p1.len() ==> (p1[i].action == SecretAction::Update <==> existing.contains(
                s1[i].key@,
            )),
{
    assert forall|i: int| 0 <= i < p1.len() implies p1[i].action == p2[i].action by {
        assert(p1[i].name@ == s1[i].key@);
        assert(p2[i].name@ == s2[i].key@);
    }
    assert forall|i: int| 0 <= i < p1.len() implies (p1[i].action == SecretAction::Update
        <==> existing.contains(s1[i].key@)) by {
        assert(p1[i].name@ == s1[i].key@);
    }
}

/// The public key that a state carries, if any.
pub open spec fn session_key(state: SyncState) -> Option<PublicKey> {
    match state {
        SyncState::ListingExisting { key } => Some(key),
        SyncState::AwaitingInput { key, .. } => Some(key),
        SyncState::Confirming { key, .. } => Some(key),
        SyncState::Uploading { key, .. } => Some(key),
        _ => None,
    }
}

/// The plan entry that a state's next upload is for, if any.
pub open spec fn next_upload(state: SyncState) -> Option<PlannedSecret> {
    match state {
        SyncState::Confirming { plan, .. } => if plan@.len() > 0 {
            Some(plan@[0])
        } else {
            None
        },
        SyncState::Uploading { plan, sent, .. } => if sent < plan@.len() {
            Some(plan@[sent as int])
        } else {
            None
        },
        _ => None,
    }
}

/// Once fetched, the public key never changes within a session, and every
/// upload is the next entry of the plan, tagged with the key's `key_id` and
/// sealed under that key: no value leaves in plain text.
pub proof fn lemma_key_fixed(state: SyncState, event: SyncEvent, r: (SyncState, SyncAction))
    requires
        step_spec(state, event, r),
    ensures
        session_key(state) is Some && session_key(r.0) is Some ==> session_key(r.0)
            == session_key(state),
        r.1 matches SyncAction::Upload { secret, .. } ==> (session_key(state) matches Some(k)
            && secret.key_id@ == k.key_id@ && session_key(r.0) == session_key(state)),
        r.1 matches SyncAction::Upload { secret, .. } ==> (next_upload(state) matches Some(p)
            && session_key(state) matches Some(k) && secret.name@ == p.name@ && is_sealing_of(
            secret.ciphertext@,
            p.value@,
            k.key@,
        )),
{
}

} // verus!
