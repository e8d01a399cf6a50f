use vstd::prelude::*;

verus! {

/// The store's current public key: `key_id` names the key version, `key` is
/// the base64 text of the 32-byte key.
pub struct PublicKey {
    pub key_id: String,
    pub key: String,
}

/// A secret that already exists in the store: only its name and the time of
/// its last update can be read back.
pub struct Secret {
    pub name: String,
    pub updated_at: String,
}

/// A parsed local entry waiting to be uploaded.
pub struct PendingSecret {
    pub key: String,
    pub value: String,
}

/// What is sent for one secret: its name, the sealed value in base64 and the
/// id of the key it was sealed under.
pub struct EncryptedSecret {
    pub name: String,
    pub ciphertext: String,
    pub key_id: String,
}

} // verus!
