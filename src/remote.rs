use vstd::prelude::*;
use vstd::string::*;

verus! {

/// A store operation that did not succeed: the HTTP status and the body the
/// store sent back.
pub struct RemoteError {
    pub status: u16,
    pub body: String,
}

/// What the store reports for one upload.
#[derive(Clone, Copy, Debug, PartialEq, Eq, Structural)]
pub enum UpsertOutcome {
    Created,
    Updated,
}

/// A 2xx status.
pub fn is_success_status(status: u16) -> (r: bool)
    ensures
        r == (200 <= status && status <= 299),
{
    200 <= status && status <= 299
}

/// The outcome that an upload's status signals: 201 created, 204 updated;
/// any other status is a failure.
pub fn upsert_outcome(status: u16) -> (r: Option<UpsertOutcome>)
    ensures
        status == 201 ==> r == Some(UpsertOutcome::Created),
        status == 204 ==> r == Some(UpsertOutcome::Updated),
        status != 201 && status != 204 ==> r is None,
{
    if status == 201 {
        Some(UpsertOutcome::Created)
    } else if status == 204 {
        Some(UpsertOutcome::Updated)
    } else {
        None
    }
}

/// The repository whose secrets a session works on, fixed for the session.
pub struct Repository {
    pub owner: String,
    pub repo: String,
}

/// The API address of a repository's secrets collection.
pub open spec fn secrets_root(owner: Seq<char>, repo: Seq<char>) -> Seq<char> {
    "https://api.github.com/repos/"@ + owner + "/"@ + repo + "/actions/secrets"@
}

impl Repository {
    /// Address of the secrets collection.
    pub fn secrets_url(&self) -> (r: String)
        ensures
            r@ == secrets_root(self.owner@, self.repo@),
    {
        let mut url = String::from_str("https://api.github.com/repos/");
        url.append(self.owner.as_str());
        url.append("/");
        url.append(self.repo.as_str());
        url.append("/actions/secrets");
        url
    }

    /// Address of the store's public key.
    pub fn public_key_url(&self) -> (r: String)
        ensures
            r@ == secrets_root(self.owner@, self.repo@) + "/public-key"@,
    {
        let mut url = self.secrets_url();
        url.append("/public-key");
        url
    }

    /// Address of one named secret.
    pub fn secret_url(&self, name: &str) -> (r: String)
        ensures
            r@ == secrets_root(self.owner@, self.repo@) + "/"@ + name@,
    {
        let mut url = self.secrets_url();
        url.append("/");
        url.append(name);
        url
    }
}

} // verus!
