//! Outside cryptography: AES-256-GCM, SHA-256, random bytes and wiped memory.
//!
//! Each function with an external body makes one call into an outside crate, and its contract
//! states what that call is relied on to do.

use aes_gcm::aead::{AeadInOut, KeyInit};
use aes_gcm::{Aes256Gcm, Nonce, Tag};
use sha2::{Digest, Sha256};
use vstd::prelude::*;
use zeroize::Zeroizing;

verus! {

pub const KEY_LEN: usize = 32;

pub const NONCE_LEN: usize = 12;

pub const TAG_LEN: usize = 16;

/// The most bytes that one call hands to a cipher or a digest: 2^36 - 32, AES-GCM's own limit on a
/// message.
pub const MAX_MESSAGE: u64 = 0xf_ffff_ffe0;

/// Bytes in a `zeroize::Zeroizing` buffer, which overwrites them when it is dropped.
#[verifier::external_body]
pub struct Secret {
    bytes: Zeroizing<Vec<u8>>,
}

/// The bytes that a secret holds.
pub uninterp spec fn held(secret: Secret) -> Seq<u8>;

impl View for Secret {
    type V = Seq<u8>;

    open spec fn view(&self) -> Seq<u8> {
        held(*self)
    }
}

/// `Zeroizing::new` moves the bytes in unchanged.
#[verifier::external_body]
fn guard(bytes: Vec<u8>) -> (r: Secret)
    ensures
        held(r) == bytes@,
{
    Secret { bytes: Zeroizing::new(bytes) }
}

/// `Zeroizing` dereferences to the bytes it holds.
#[verifier::external_body]
fn expose(secret: &Secret) -> (r: &[u8])
    ensures
        r@ == held(*secret),
{
    secret.bytes.as_slice()
}

impl Secret {
    pub fn new(bytes: Vec<u8>) -> (r: Secret)
        ensures
            r@ == bytes@,
    {
        guard(bytes)
    }

    pub fn as_slice(&self) -> (r: &[u8])
        ensures
            r@ == self@,
    {
        expose(self)
    }
}

/// The key of a record. Its bytes are those of a secret, so whoever holds a key has a copy that is
/// wiped when it is dropped, and there are always as many as a key has.
pub struct SealedKey {
    bytes: Secret,
}

impl View for SealedKey {
    type V = Seq<u8>;

    closed spec fn view(&self) -> Seq<u8> {
        self.bytes@
    }
}

impl SealedKey {
    #[verifier::type_invariant]
    spec fn has_key_length(self) -> bool {
        self.bytes@.len() == KEY_LEN
    }

    /// The key that a secret holds, if it has a key's length.
    pub fn new(bytes: Secret) -> (r: Option<SealedKey>)
        ensures
            match r {
                Some(key) => bytes@.len() == KEY_LEN && key@ == bytes@,
                None => bytes@.len() != KEY_LEN,
            },
    {
        if bytes.as_slice().len() == KEY_LEN {
            Some(SealedKey { bytes })
        } else {
            None
        }
    }

    pub fn as_slice(&self) -> (r: &[u8])
        ensures
            r@ == self@,
            r@.len() == KEY_LEN,
    {
        proof {
            use_type_invariant(self);
        }
        self.bytes.as_slice()
    }
}

/// What SHA-256 makes of a message.
pub uninterp spec fn sha256(message: Seq<u8>) -> Seq<u8>;

/// `sha2::Sha256::digest`: the result depends on the message alone. The limit keeps the message's
/// length in bits within the 64-bit counter that the digest appends.
#[verifier::external_body]
pub(crate) fn sha256_digest(message: &[u8]) -> (r: [u8; 32])
    requires
        message@.len() <= MAX_MESSAGE,
    ensures
        r@ == sha256(message@),
{
    Sha256::digest(message).into()
}

/// What AES-256-GCM makes of a message under a key, a nonce and associated data: the ciphertext
/// and the tag.
pub uninterp spec fn gcm_encrypted(
    key: Seq<u8>,
    nonce: Seq<u8>,
    associated: Seq<u8>,
    message: Seq<u8>,
) -> (Seq<u8>, Seq<u8>);

/// The message that AES-256-GCM takes out of a ciphertext and its tag, or nothing where the tag is
/// not the one that belongs to the key, the nonce, the associated data and the ciphertext.
pub uninterp spec fn gcm_decrypted(
    key: Seq<u8>,
    nonce: Seq<u8>,
    associated: Seq<u8>,
    ciphertext: Seq<u8>,
    tag: Seq<u8>,
) -> Option<Seq<u8>>;

/// `Aes256Gcm::new_from_slice` and `encrypt_inout_detached`. Within the cipher's limits the call
/// succeeds. The ciphertext is as long as the message; decrypting it with the same key, nonce,
/// associated data and tag gives the message back, and with another tag nothing.
#[verifier::external_body]
pub(crate) fn gcm_encrypt(key: &[u8], nonce: &[u8], associated: &[u8], message: &[u8]) -> (r: Option<
    (Vec<u8>, Vec<u8>),
>)
    requires
        key@.len() == KEY_LEN,
        nonce@.len() == NONCE_LEN,
        associated@.len() <= MAX_MESSAGE,
        message@.len() <= MAX_MESSAGE,
    ensures
        match r {
            Some((ciphertext, tag)) => {
                &&& (ciphertext@, tag@) == gcm_encrypted(key@, nonce@, associated@, message@)
                &&& ciphertext@.len() == message@.len()
                &&& tag@.len() == TAG_LEN
                &&& gcm_decrypted(key@, nonce@, associated@, ciphertext@, tag@) == Some(message@)
                &&& forall|other: Seq<u8>|
                    other.len() == TAG_LEN && other != tag@ ==> (#[trigger] gcm_decrypted(
                        key@,
                        nonce@,
                        associated@,
                        ciphertext@,
                        other,
                    )) is None
            },
            None => false,
        },
{
    let cipher = Aes256Gcm::new_from_slice(key).ok()?;
    let nonce = Nonce::try_from(nonce).ok()?;
    let mut buffer = message.to_vec();
    let tag = cipher.encrypt_inout_detached(&nonce, associated, buffer.as_mut_slice().into()).ok()?;
    Some((buffer, tag.to_vec()))
}

/// `Aes256Gcm::new_from_slice` and `decrypt_inout_detached` on a copy of the ciphertext that is
/// wiped when it is dropped. The message is as long as the ciphertext.
#[verifier::external_body]
pub(crate) fn gcm_decrypt(
    key: &[u8],
    nonce: &[u8],
    associated: &[u8],
    ciphertext: &[u8],
    tag: &[u8],
) -> (r: Option<Secret>)
    requires
        key@.len() == KEY_LEN,
        nonce@.len() == NONCE_LEN,
        tag@.len() == TAG_LEN,
        associated@.len() <= MAX_MESSAGE,
        ciphertext@.len() <= MAX_MESSAGE,
    ensures
        match r {
            Some(message) => gcm_decrypted(key@, nonce@, associated@, ciphertext@, tag@) == Some(
                held(message),
            ) && held(message).len() == ciphertext@.len(),
            None => gcm_decrypted(key@, nonce@, associated@, ciphertext@, tag@) is None,
        },
{
    let cipher = Aes256Gcm::new_from_slice(key).ok()?;
    let nonce = Nonce::try_from(nonce).ok()?;
    let tag = Tag::try_from(tag).ok()?;
    let mut bytes = Zeroizing::new(ciphertext.to_vec());
    cipher.decrypt_inout_detached(&nonce, associated, bytes.as_mut_slice().into(), &tag).ok()?;
    Some(Secret { bytes })
}

/// `getrandom::fill` on a buffer of the given length: nothing is promised of the bytes, and the
/// system may have none to give.
#[verifier::external_body]
pub(crate) fn random_bytes(len: usize) -> (r: Option<Vec<u8>>)
    ensures
        r matches Some(bytes) ==> bytes@.len() == len,
{
    let mut bytes = vec![0u8; len];
    getrandom::fill(&mut bytes).ok()?;
    Some(bytes)
}

} // verus!
