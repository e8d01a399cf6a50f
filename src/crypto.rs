use vstd::prelude::*;
use vstd::string::*;
use vstd::utf8::encode_utf8;
use base64::Engine;

verus! {

/// Length in bytes of a sealing public key.
pub const PUBLIC_KEY_BYTES: usize = 32;

/// Bytes a sealed box adds to the message: the ephemeral public key and the tag.
pub const SEAL_BYTES: usize = 48;

/// Longest message, in bytes, whose sealed base64 text fits in memory.
pub const MAX_MESSAGE_BYTES: usize = usize::MAX / 2 - SEAL_BYTES;

/// Why a value could not be sealed.
#[derive(Debug, PartialEq, Eq, Structural)]
pub enum CryptoError {
    /// The public key is not valid base64.
    InvalidKeyEncoding,
    /// The decoded public key does not have the expected length.
    InvalidKeyLength,
    /// The public key is a point of small order, for which nothing can be sealed.
    SmallOrderKey,
    /// The crypto library could not be initialised.
    InitFailed,
    /// The message is too long for its ciphertext's base64 text to fit in memory.
    MessageTooLong,
}

/// The bytes that the standard base64 alphabet, with padding, decodes `s` to,
/// or `None` where `s` is not such base64.
pub uninterp spec fn base64_decoded(s: Seq<char>) -> Option<Seq<u8>>;

/// The standard base64 text, with padding, of `b`.
pub uninterp spec fn base64_encoded(b: Seq<u8>) -> Seq<char>;

/// The message that the sealed box `c`, made for the public key `pk`, carries:
/// what `sealedbox::open` gives on `c` with `pk` and its secret key, or `None`
/// where opening fails.
pub uninterp spec fn opened_with(c: Seq<u8>, pk: Seq<u8>) -> Option<Seq<u8>>;

/// Relies on `sodiumoxide::init`, which may fail; nothing is promised of it.
pub assume_specification[ sodiumoxide::init ]() -> Result<(), ()>;

/// Relies on `sodiumoxide::crypto::sealedbox::seal`: the ciphertext is
/// `SEALBYTES` (48) longer than the message and, for a key not of small order
/// (which libsodium's `crypto_box_seal` refuses, and `seal` does not report),
/// opens with the secret key of `pk` to the message; its bytes are otherwise
/// random.
#[verifier::external_body]
fn seal(m: &[u8], pk: [u8; PUBLIC_KEY_BYTES]) -> (c: Vec<u8>)
    requires
        m@.len() + SEAL_BYTES <= usize::MAX,
        !is_small_order(pk@),
    ensures
        c@.len() == m@.len() + SEAL_BYTES,
        opened_with(c@, pk@) == Some(m@),
{
    sodiumoxide::crypto::sealedbox::seal(m, &sodiumoxide::crypto::box_::PublicKey(pk))
}

/// Relies on base64's `general_purpose::STANDARD.decode`: the decoded bytes,
/// or an error where the text is not valid base64.
#[verifier::external_body]
fn decode_base64(s: &str) -> (r: Option<Vec<u8>>)
    ensures
        match r {
            Some(b) => base64_decoded(s@) == Some(b@),
            None => base64_decoded(s@) is None,
        },
{
    base64::engine::general_purpose::STANDARD.decode(s).ok()
}

/// Relies on base64's `general_purpose::STANDARD.encode`, which panics only
/// where the encoded length overflows `usize`; its canonical padded text
/// decodes back to the bytes.
#[verifier::external_body]
fn encode_base64(b: &[u8]) -> (r: String)
    requires
        b@.len() <= usize::MAX / 2,
    ensures
        r@ == base64_encoded(b@),
        base64_decoded(r@) == Some(b@),
{
    base64::engine::general_purpose::STANDARD.encode(b)
}

/// Turns the result of decoding a base64 public key into the key's bytes.
pub fn key_from_decoded(decoded: Option<Vec<u8>>) -> (r: Result<[u8; PUBLIC_KEY_BYTES], CryptoError>)
    ensures
        match decoded {
            None => r == Err::<[u8; PUBLIC_KEY_BYTES], CryptoError>(CryptoError::InvalidKeyEncoding),
            Some(b) => if b@.len() == PUBLIC_KEY_BYTES {
                if is_small_order(b@) {
                    r == Err::<[u8; PUBLIC_KEY_BYTES], CryptoError>(CryptoError::SmallOrderKey)
                } else {
                    r matches Ok(k) && k@ == b@
                }
            } else {
                r == Err::<[u8; PUBLIC_KEY_BYTES], CryptoError>(CryptoError::InvalidKeyLength)
            },
        },
{
    match decoded {
        None => Err(CryptoError::InvalidKeyEncoding),
        Some(bytes) => {
            if bytes.len() != PUBLIC_KEY_BYTES {
                return Err(CryptoError::InvalidKeyLength);
            }
            let mut key = [0u8; PUBLIC_KEY_BYTES];
            let mut i: usize = 0;
            while i < PUBLIC_KEY_BYTES
                invariant
                    bytes@.len() == PUBLIC_KEY_BYTES,
                    i <= PUBLIC_KEY_BYTES,
                    forall|j: int| 0 <= j < i ==> key@[j] == bytes@[j],
                decreases PUBLIC_KEY_BYTES - i,
            {
                key[i] = bytes[i];
                i = i + 1;
            }
            assert(key@ =~= bytes@);
            if has_small_order(&key) {
                return Err(CryptoError::SmallOrderKey);
            }
            Ok(key)
        },
    }
}

/// The error that a public key's text gives before anything is sealed, if any.
pub open spec fn key_error(pk: Seq<char>) -> Option<CryptoError> {
    match base64_decoded(pk) {
        None => Some(CryptoError::InvalidKeyEncoding),
        Some(b) => if b.len() != PUBLIC_KEY_BYTES {
            Some(CryptoError::InvalidKeyLength)
        } else if is_small_order(b) {
            Some(CryptoError::SmallOrderKey)
        } else {
            None
        },
    }
}

/// `text` is the base64 of a sealed box, `SEAL_BYTES` longer than the UTF-8
/// bytes of `plaintext`, that opens with the secret key of the public key `pk`
/// (base64) to those bytes.
pub open spec fn is_sealing_of(text: Seq<char>, plaintext: Seq<char>, pk: Seq<char>) -> bool {
    base64_decoded(pk) matches Some(b) && base64_decoded(text) matches Some(c) && c.len()
        == encode_utf8(plaintext).len() + SEAL_BYTES && opened_with(c, b) == Some(
        encode_utf8(plaintext),
    )
}

/// The error that sealing `plaintext` under `pk` may end in: the key's own
/// error where it has one, else `MessageTooLong` for an overlong message,
/// else only a failed initialisation.
pub open spec fn is_encryption_error(e: CryptoError, plaintext: Seq<char>, pk: Seq<char>) -> bool {
    match key_error(pk) {
        Some(k) => e == k,
        None => if encode_utf8(plaintext).len() > MAX_MESSAGE_BYTES {
            e == CryptoError::MessageTooLong
        } else {
            e == CryptoError::InitFailed
        },
    }
}

/// Decodes a base64 public key of the store into its bytes.
pub fn decode_public_key(public_key_base64: &str) -> (r: Result<[u8; PUBLIC_KEY_BYTES], CryptoError>)
    ensures
        match key_error(public_key_base64@) {
            Some(e) => r == Err::<[u8; PUBLIC_KEY_BYTES], CryptoError>(e),
            None => r matches Ok(k) && base64_decoded(public_key_base64@) == Some(k@),
        },
{
    key_from_decoded(decode_base64(public_key_base64))
}

/// What `encrypt_secret(plaintext, pk)` may return.
pub open spec fn is_encryption_result(
    r: Result<String, CryptoError>,
    plaintext: Seq<char>,
    pk: Seq<char>,
) -> bool {
    match r {
        Ok(text) => key_error(pk) is None && encode_utf8(plaintext).len() <= MAX_MESSAGE_BYTES
            && is_sealing_of(text@, plaintext, pk),
        Err(e) => is_encryption_error(e, plaintext, pk),
    }
}

/// What sealing `plaintext` under `pk` returns once initialisation of the
/// crypto library has succeeded or failed (`initialised`).
pub open spec fn is_sealing_result(
    r: Result<String, CryptoError>,
    initialised: bool,
    plaintext: Seq<char>,
    pk: Seq<char>,
) -> bool {
    match key_error(pk) {
        Some(e) => r == Err::<String, CryptoError>(e),
        None => if encode_utf8(plaintext).len() > MAX_MESSAGE_BYTES {
            r == Err::<String, CryptoError>(CryptoError::MessageTooLong)
        } else if !initialised {
            r == Err::<String, CryptoError>(CryptoError::InitFailed)
        } else {
            r matches Ok(text) && is_sealing_of(text@, plaintext, pk)
        },
    }
}

/// Seals `plaintext` for the holder of the private key matching
/// `public_key_base64`, given whether the crypto library was initialised:
/// succeeds exactly on a valid key, a message of admitted length and a
/// successful initialisation.
pub fn seal_initialised(initialised: bool, plaintext: &str, public_key_base64: &str) -> (r: Result<
    String,
    CryptoError,
>)
    ensures
        is_sealing_result(r, initialised, plaintext@, public_key_base64@),
{
    let key = match decode_public_key(public_key_base64) {
        Ok(key) => key,
        Err(e) => return Err(e),
    };
    let message = plaintext.as_bytes_vec();
    if message.len() > MAX_MESSAGE_BYTES {
        return Err(CryptoError::MessageTooLong);
    }
    if !initialised {
        return Err(CryptoError::InitFailed);
    }
    let sealed = seal(message.as_slice(), key);
    let text = encode_base64(sealed.as_slice());
    Ok(text)
}

/// Seals `plaintext` for the holder of the private key matching
/// `public_key_base64`, anonymously, and returns the ciphertext in base64.
/// Each call draws a fresh ephemeral key pair, so the ciphertext differs from
/// call to call. Only the crypto library's initialisation can make it fail on
/// a valid key and a message of admitted length.
pub fn encrypt_secret(plaintext: &str, public_key_base64: &str) -> (r: Result<String, CryptoError>)
    ensures
        is_encryption_result(r, plaintext@, public_key_base64@),
        exists|initialised: bool| is_sealing_result(r, initialised, plaintext@, public_key_base64@),
{
    let initialised = sodiumoxide::init().is_ok();
    seal_initialised(initialised, plaintext, public_key_base64)
}

} // verus!

verus! {

/// The encodings of the points of small order on Curve25519 and its twist
/// (`0`, `1`, the two points of order 8, `p - 1`, `p` and `p + 1`), with the top
/// bit of the last byte left out.
pub open spec fn small_order_points() -> Seq<Seq<u8>> {
    seq![
        seq![
            0x00, 0x00, 0x00, 0x00, 0x00, 0x00, 0x00, 0x00,
            0x00, 0x00, 0x00, 0x00, 0x00, 0x00, 0x00, 0x00,
            0x00, 0x00, 0x00, 0x00, 0x00, 0x00, 0x00, 0x00,
            0x00, 0x00, 0x00, 0x00, 0x00, 0x00, 0x00, 0x00,
        ],
        seq![
            0x01, 0x00, 0x00, 0x00, 0x00, 0x00, 0x00, 0x00,
            0x00, 0x00, 0x00, 0x00, 0x00, 0x00, 0x00, 0x00,
            0x00, 0x00, 0x00, 0x00, 0x00, 0x00, 0x00, 0x00,
            0x00, 0x00, 0x00, 0x00, 0x00, 0x00, 0x00, 0x00,
        ],
        seq![
            0xe0, 0xeb, 0x7a, 0x7c, 0x3b, 0x41, 0xb8, 0xae,
            0x16, 0x56, 0xe3, 0xfa, 0xf1, 0x9f, 0xc4, 0x6a,
            0xda, 0x09, 0x8d, 0xeb, 0x9c, 0x32, 0xb1, 0xfd,
            0x86, 0x62, 0x05, 0x16, 0x5f, 0x49, 0xb8, 0x00,
        ],
        seq![
            0x5f, 0x9c, 0x95, 0xbc, 0xa3, 0x50, 0x8c, 0x24,
            0xb1, 0xd0, 0xb1, 0x55, 0x9c, 0x83, 0xef, 0x5b,
            0x04, 0x44, 0x5c, 0xc4, 0x58, 0x1c, 0x8e, 0x86,
            0xd8, 0x22, 0x4e, 0xdd, 0xd0, 0x9f, 0x11, 0x57,
        ],
        seq![
            0xec, 0xff, 0xff, 0xff, 0xff, 0xff, 0xff, 0xff,
            0xff, 0xff, 0xff, 0xff, 0xff, 0xff, 0xff, 0xff,
            0xff, 0xff, 0xff, 0xff, 0xff, 0xff, 0xff, 0xff,
            0xff, 0xff, 0xff, 0xff, 0xff, 0xff, 0xff, 0x7f,
        ],
        seq![
            0xed, 0xff, 0xff, 0xff, 0xff, 0xff, 0xff, 0xff,
            0xff, 0xff, 0xff, 0xff, 0xff, 0xff, 0xff, 0xff,
            0xff, 0xff, 0xff, 0xff, 0xff, 0xff, 0xff, 0xff,
            0xff, 0xff, 0xff, 0xff, 0xff, 0xff, 0xff, 0x7f,
        ],
        seq![
            0xee, 0xff, 0xff, 0xff, 0xff, 0xff, 0xff, 0xff,
            0xff, 0xff, 0xff, 0xff, 0xff, 0xff, 0xff, 0xff,
            0xff, 0xff, 0xff, 0xff, 0xff, 0xff, 0xff, 0xff,
            0xff, 0xff, 0xff, 0xff, 0xff, 0xff, 0xff, 0x7f,
        ],
    ]
}

/// `pk` encodes `point`, whatever its top bit.
pub open spec fn encodes_point(pk: Seq<u8>, point: Seq<u8>) -> bool {
    &&& pk.len() == PUBLIC_KEY_BYTES
    &&& point.len() == PUBLIC_KEY_BYTES
    &&& forall|j: int| 0 <= j < PUBLIC_KEY_BYTES - 1 ==> pk[j] == point[j]
    &&& pk[PUBLIC_KEY_BYTES - 1] & 0x7f == point[PUBLIC_KEY_BYTES - 1]
}

/// A public key of small order: no shared secret can be agreed with it, and
/// nothing can be sealed for it.
pub open spec fn is_small_order(pk: Seq<u8>) -> bool {
    exists|i: int| 0 <= i < small_order_points().len() && encodes_point(pk, #[trigger] small_order_points()[i])
}

fn small_order_point(i: usize) -> (r: Vec<u8>)
    requires
        i < small_order_points().len(),
    ensures
        r@ == small_order_points()[i as int],
{
    match i {
        0 => vec![
            0x00, 0x00, 0x00, 0x00, 0x00, 0x00, 0x00, 0x00,
            0x00, 0x00, 0x00, 0x00, 0x00, 0x00, 0x00, 0x00,
            0x00, 0x00, 0x00, 0x00, 0x00, 0x00, 0x00, 0x00,
            0x00, 0x00, 0x00, 0x00, 0x00, 0x00, 0x00, 0x00,
        ],
        1 => vec![
            0x01, 0x00, 0x00, 0x00, 0x00, 0x00, 0x00, 0x00,
            0x00, 0x00, 0x00, 0x00, 0x00, 0x00, 0x00, 0x00,
            0x00, 0x00, 0x00, 0x00, 0x00, 0x00, 0x00, 0x00,
            0x00, 0x00, 0x00, 0x00, 0x00, 0x00, 0x00, 0x00,
        ],
        2 => vec![
            0xe0, 0xeb, 0x7a, 0x7c, 0x3b, 0x41, 0xb8, 0xae,
            0x16, 0x56, 0xe3, 0xfa, 0xf1, 0x9f, 0xc4, 0x6a,
            0xda, 0x09, 0x8d, 0xeb, 0x9c, 0x32, 0xb1, 0xfd,
            0x86, 0x62, 0x05, 0x16, 0x5f, 0x49, 0xb8, 0x00,
        ],
        3 => vec![
            0x5f, 0x9c, 0x95, 0xbc, 0xa3, 0x50, 0x8c, 0x24,
            0xb1, 0xd0, 0xb1, 0x55, 0x9c, 0x83, 0xef, 0x5b,
            0x04, 0x44, 0x5c, 0xc4, 0x58, 0x1c, 0x8e, 0x86,
            0xd8, 0x22, 0x4e, 0xdd, 0xd0, 0x9f, 0x11, 0x57,
        ],
        4 => vec![
            0xec, 0xff, 0xff, 0xff, 0xff, 0xff, 0xff, 0xff,
            0xff, 0xff, 0xff, 0xff, 0xff, 0xff, 0xff, 0xff,
            0xff, 0xff, 0xff, 0xff, 0xff, 0xff, 0xff, 0xff,
            0xff, 0xff, 0xff, 0xff, 0xff, 0xff, 0xff, 0x7f,
        ],
        5 => vec![
            0xed, 0xff, 0xff, 0xff, 0xff, 0xff, 0xff, 0xff,
            0xff, 0xff, 0xff, 0xff, 0xff, 0xff, 0xff, 0xff,
            0xff, 0xff, 0xff, 0xff, 0xff, 0xff, 0xff, 0xff,
            0xff, 0xff, 0xff, 0xff, 0xff, 0xff, 0xff, 0x7f,
        ],
        _ => vec![
            0xee, 0xff, 0xff, 0xff, 0xff, 0xff, 0xff, 0xff,
            0xff, 0xff, 0xff, 0xff, 0xff, 0xff, 0xff, 0xff,
            0xff, 0xff, 0xff, 0xff, 0xff, 0xff, 0xff, 0xff,
            0xff, 0xff, 0xff, 0xff, 0xff, 0xff, 0xff, 0x7f,
        ],
    }
}

/// Whether `key` is a public key of small order.
pub fn has_small_order(key: &[u8; PUBLIC_KEY_BYTES]) -> (r: bool)
    ensures
        r == is_small_order(key@),
{
    let n: usize = 7;
    assert(small_order_points().len() == n);
    let mut i: usize = 0;
    while i < n
        invariant
            n == small_order_points().len(),
            i <= n,
            key@.len() == PUBLIC_KEY_BYTES,
            forall|k: int| 0 <= k < i ==> !encodes_point(key@, #[trigger] small_order_points()[k]),
        decreases n - i,
    {
        let point = small_order_point(i);
        let mut j: usize = 0;
        while j < PUBLIC_KEY_BYTES - 1 && key[j] == point[j]
            invariant
                point@ == small_order_points()[i as int],
                point@.len() == PUBLIC_KEY_BYTES,
                key@.len() == PUBLIC_KEY_BYTES,
                j <= PUBLIC_KEY_BYTES - 1,
                forall|m: int| 0 <= m < j ==> key@[m] == point@[m],
            decreases PUBLIC_KEY_BYTES - j,
        {
            j = j + 1;
        }
        if j == PUBLIC_KEY_BYTES - 1 && key[PUBLIC_KEY_BYTES - 1] & 0x7f == point[PUBLIC_KEY_BYTES - 1] {
            assert(encodes_point(key@, small_order_points()[i as int]));
            return true;
        }
        i = i + 1;
    }
    false
}

} // verus!
