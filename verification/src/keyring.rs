//! The sealed login password that unlocks a desktop keyring.
//!
//! A record holds the password encrypted under a key that only this machine's TPM can release, and
//! bound to the account it was enrolled for: the account's UID, name and shadow hash are the
//! cipher's associated data.

use crate::secret::{SealedKey, Secret, KEY_LEN, MAX_MESSAGE, NONCE_LEN, TAG_LEN};
use crate::{paths, secret, text};
use vstd::bytes::{
    lemma_auto_spec_u32_to_from_le_bytes, spec_u32_from_le_bytes, spec_u32_to_le_bytes,
    u32_from_le_bytes, u32_to_le_bytes,
};
use vstd::prelude::*;
use vstd::slice::slice_subrange;
use vstd::utf8::encode_utf8;

verus! {

pub const STORE_DIR: &'static str = "/var/lib/gaze/keyring";

pub const MAX_BLOB: usize = 16384;

pub const MAX_PASSWORD: usize = 4096;

pub const MAX_SEALED: usize = 4096;

/// What keeps a keyring record from being written, read or released.
#[derive(Debug)]
pub enum KeyringError {
    NotRoot,
    AccessNotRoot,
    /// Where the first NUL byte of the name stands.
    NulInName(usize),
    AccountNotFound,
    RootAccount,
    NoShadowRecord,
    PasswordChangeRequired,
    PasswordLocked,
    InvalidPassword,
    InvalidSealedKey,
    NoRandomNonce,
    NoRandomFilename,
    NoRandomKey,
    EncryptionFailed,
    InvalidRecord,
    InvalidSealedKeyLength,
    InvalidCiphertextLength,
    CredentialUnavailable,
    InvalidTerminator,
    DirectoryNotAbsolute,
    UnsafeDirectory,
    DirectoryNotPrivate,
    UnsafeRecord,
    RecordTooLarge,
    ChangedDuringEnrollment,
    ChangedDuringUnlock,
    UnexpectedKeyLength(usize),
    /// What the system or the TPM said.
    Outside(String),
}

pub open spec fn error_text(error: KeyringError) -> Seq<char> {
    match error {
        KeyringError::NotRoot => "keyring setup requires root"@,
        KeyringError::AccessNotRoot => "keyring access requires root"@,
        KeyringError::NulInName(at) => "nul byte found in provided data at position: "@
            + text::decimal(at as nat),
        KeyringError::AccountNotFound => "account not found"@,
        KeyringError::RootAccount => "root keyring enrollment is not supported"@,
        KeyringError::NoShadowRecord => "a readable shadow password record is required"@,
        KeyringError::PasswordChangeRequired => "account requires a password change"@,
        KeyringError::PasswordLocked => "account password is empty or locked"@,
        KeyringError::InvalidPassword => "keyring password must contain 1..=4096 bytes and no NUL"@,
        KeyringError::InvalidSealedKey => "invalid sealed key"@,
        KeyringError::NoRandomNonce => "random nonce unavailable"@,
        KeyringError::NoRandomFilename => "random filename unavailable"@,
        KeyringError::NoRandomKey => "random key unavailable"@,
        KeyringError::EncryptionFailed => "credential encryption failed"@,
        KeyringError::InvalidRecord => "invalid credential record"@,
        KeyringError::InvalidSealedKeyLength => "invalid sealed key length"@,
        KeyringError::InvalidCiphertextLength => "invalid credential ciphertext length"@,
        KeyringError::CredentialUnavailable =>
            "credential unavailable: account password changed, wrong TPM, or corrupt record"@,
        KeyringError::InvalidTerminator => "invalid credential terminator"@,
        KeyringError::DirectoryNotAbsolute => "credential directory must be absolute"@,
        KeyringError::UnsafeDirectory =>
            "credential directory has unsafe ownership, permissions, or a symlink"@,
        KeyringError::DirectoryNotPrivate => "credential directory must be private"@,
        KeyringError::UnsafeRecord => "credential record has unsafe ownership, permissions, or type"@,
        KeyringError::RecordTooLarge => "credential record is too large"@,
        KeyringError::ChangedDuringEnrollment => "account changed during enrollment; retry"@,
        KeyringError::ChangedDuringUnlock => "account changed during unlock"@,
        KeyringError::UnexpectedKeyLength(n) => "unsealed key has unexpected length "@
            + text::decimal(n as nat) + " (expected 32)"@,
        KeyringError::Outside(message) => message@,
    }
}

impl KeyringError {
    pub fn message(&self) -> (r: String)
        ensures
            r@ == error_text(*self),
    {
        let fixed = match self {
            KeyringError::NotRoot => "keyring setup requires root",
            KeyringError::AccessNotRoot => "keyring access requires root",
            KeyringError::NulInName(at) => {
                let at = text::decimal_text(*at as u64);
                return text::cat2("nul byte found in provided data at position: ", at.as_str());
            },
            KeyringError::AccountNotFound => "account not found",
            KeyringError::RootAccount => "root keyring enrollment is not supported",
            KeyringError::NoShadowRecord => "a readable shadow password record is required",
            KeyringError::PasswordChangeRequired => "account requires a password change",
            KeyringError::PasswordLocked => "account password is empty or locked",
            KeyringError::InvalidPassword => "keyring password must contain 1..=4096 bytes and no NUL",
            KeyringError::InvalidSealedKey => "invalid sealed key",
            KeyringError::NoRandomNonce => "random nonce unavailable",
            KeyringError::NoRandomFilename => "random filename unavailable",
            KeyringError::NoRandomKey => "random key unavailable",
            KeyringError::EncryptionFailed => "credential encryption failed",
            KeyringError::InvalidRecord => "invalid credential record",
            KeyringError::InvalidSealedKeyLength => "invalid sealed key length",
            KeyringError::InvalidCiphertextLength => "invalid credential ciphertext length",
            KeyringError::CredentialUnavailable =>
                "credential unavailable: account password changed, wrong TPM, or corrupt record",
            KeyringError::InvalidTerminator => "invalid credential terminator",
            KeyringError::DirectoryNotAbsolute => "credential directory must be absolute",
            KeyringError::UnsafeDirectory =>
                "credential directory has unsafe ownership, permissions, or a symlink",
            KeyringError::DirectoryNotPrivate => "credential directory must be private",
            KeyringError::UnsafeRecord =>
                "credential record has unsafe ownership, permissions, or type",
            KeyringError::RecordTooLarge => "credential record is too large",
            KeyringError::ChangedDuringEnrollment => "account changed during enrollment; retry",
            KeyringError::ChangedDuringUnlock => "account changed during unlock",
            KeyringError::UnexpectedKeyLength(n) => {
                let count = text::decimal_text(*n as u64);
                return text::cat3(
                    "unsealed key has unexpected length ",
                    count.as_str(),
                    " (expected 32)",
                );
            },
            KeyringError::Outside(message) => message.as_str(),
        };
        fixed.to_owned()
    }
}

/// An account that a record is bound to. Neither the password nor the shadow record belongs in
/// diagnostics, so only the digest of the identity is kept.
pub struct Account {
    uid: u32,
    binding: [u8; 32],
}

/// The identity that is digested: a version label, the UID, the name and the shadow hash.
pub open spec fn identity(uid: u32, username: Seq<char>, hash: Seq<u8>) -> Seq<u8> {
    encode_utf8("gaze-gnome-keyring-v1\0"@) + spec_u32_to_le_bytes(uid) + encode_utf8(username)
        + seq![0u8] + hash
}

/// Where the first NUL byte stands.
pub open spec fn first_nul(s: Seq<u8>) -> Option<usize>
    decreases s.len(),
{
    if s.len() == 0 {
        None
    } else if s[0] == 0 {
        Some(0usize)
    } else {
        match first_nul(s.skip(1)) {
            Some(i) => Some((i + 1) as usize),
            None => None,
        }
    }
}

pub open spec fn no_nul(s: Seq<u8>) -> bool {
    first_nul(s) is None
}

/// A shadow password record, as far as enrollment reads it.
pub struct Shadow {
    pub password: Option<Vec<u8>>,
    pub last_change: i64,
}

/// Which error the account lookup ends in, if any.
pub open spec fn lookup_error(
    root: bool,
    username: Seq<char>,
    uid: Option<u32>,
    shadow: Option<Shadow>,
) -> Option<KeyringError> {
    if !root {
        Some(KeyringError::NotRoot)
    } else if first_nul(encode_utf8(username)) is Some {
        Some(KeyringError::NulInName(first_nul(encode_utf8(username))->0))
    } else if uid is None {
        Some(KeyringError::AccountNotFound)
    } else if uid->0 == 0 {
        Some(KeyringError::RootAccount)
    } else if shadow is None {
        Some(KeyringError::NoShadowRecord)
    } else if (shadow->0).password is None || (shadow->0).last_change == 0 {
        Some(KeyringError::PasswordChangeRequired)
    } else if ((shadow->0).password->0)@.len() == 0 || ((shadow->0).password->0)@[0] == 0x21
        || ((shadow->0).password->0)@[0] == 0x2a {
        Some(KeyringError::PasswordLocked)
    } else {
        None
    }
}

proof fn lemma_first_nul(s: Seq<u8>, n: int)
    requires
        0 <= n <= s.len() <= usize::MAX,
        forall|j: int| 0 <= j < n ==> s[j] != 0,
        n == s.len() || s[n] == 0,
    ensures
        first_nul(s) == (if n < s.len() {
            Some(n as usize)
        } else {
            None
        }),
    decreases n,
{
    if n > 0 {
        let t = s.skip(1);
        assert forall|j: int| 0 <= j < n - 1 implies t[j] != 0 by {
            assert(t[j] == s[j + 1]);
        }
        if n < s.len() {
            assert(t[n - 1] == s[n]);
        }
        lemma_first_nul(t, n - 1);
    }
}

proof fn lemma_no_nul(s: Seq<u8>)
    ensures
        no_nul(s) ==> forall|j: int| 0 <= j < s.len() ==> s[j] != 0,
    decreases s.len(),
{
    if no_nul(s) && s.len() > 0 {
        let t = s.skip(1);
        lemma_no_nul(t);
        assert forall|j: int| 0 <= j < s.len() implies s[j] != 0 by {
            if j > 0 {
                assert(t[j - 1] == s[j]);
            }
        }
    }
}

fn nul_position(s: &[u8]) -> (r: Option<usize>)
    ensures
        r == first_nul(s@),
{
    let mut i: usize = 0;
    while i < s.len() && s[i] != 0
        invariant
            i <= s@.len(),
            forall|j: int| 0 <= j < i ==> s@[j] != 0,
        decreases s@.len() - i,
    {
        i = i + 1;
    }
    proof {
        lemma_first_nul(s@, i as int);
    }
    if i < s.len() {
        Some(i)
    } else {
        None
    }
}

impl Account {
    pub closed spec fn spec_uid(&self) -> u32 {
        self.uid
    }

    pub closed spec fn spec_binding(&self) -> Seq<u8> {
        self.binding@
    }

    /// The UID of a named account, as the password database gave it.
    pub fn uid(root: bool, username: &str, found: Option<u32>) -> (r: Result<u32, KeyringError>)
        ensures
            r == (if !root {
                Err(KeyringError::NotRoot)
            } else if first_nul(encode_utf8(username@)) is Some {
                Err(KeyringError::NulInName(first_nul(encode_utf8(username@))->0))
            } else {
                match found {
                    Some(uid) => Ok(uid),
                    None => Err(KeyringError::AccountNotFound),
                }
            }),
    {
        if !root {
            return Err(KeyringError::NotRoot);
        }
        if let Some(at) = nul_position(username.as_bytes()) {
            return Err(KeyringError::NulInName(at));
        }
        match found {
            Some(uid) => Ok(uid),
            None => Err(KeyringError::AccountNotFound),
        }
    }

    /// The account that a password database entry and a shadow record describe.
    pub fn lookup(root: bool, username: &str, found: Option<u32>, shadow: Option<Shadow>) -> (r:
        Result<Account, KeyringError>)
        requires
            shadow matches Some(s) ==> (s.password matches Some(hash) ==> identity(
                0,
                username@,
                hash@,
            ).len() <= MAX_MESSAGE && identity(0, username@, hash@).len() <= usize::MAX),
        ensures
            match lookup_error(root, username@, found, shadow) {
                Some(error) => r == Err::<Account, KeyringError>(error),
                None => match r {
                    Ok(account) => account.spec_uid() == found->0 && account.spec_binding()
                        == secret::sha256(
                        identity(found->0, username@, ((shadow->0).password->0)@),
                    ),
                    Err(_) => false,
                },
            },
    {
        let uid: u32 = match Account::uid(root, username, found) {
            Ok(uid) => uid,
            Err(error) => return Err(error),
        };
        if uid == 0 {
            return Err(KeyringError::RootAccount);
        }
        let shadow = match shadow {
            Some(shadow) => shadow,
            None => return Err(KeyringError::NoShadowRecord),
        };
        let hash = match shadow.password {
            Some(hash) if shadow.last_change != 0 => hash,
            _ => return Err(KeyringError::PasswordChangeRequired),
        };
        if hash.len() == 0 || hash[0] == 0x21 || hash[0] == 0x2a {
            return Err(KeyringError::PasswordLocked);
        }
        proof {
            lemma_auto_spec_u32_to_from_le_bytes();
            assert(identity(0, username@, hash@).len() == identity(uid, username@, hash@).len());
        }
        Ok(Account::bound_to(uid, username, hash.as_slice()))
    }

    /// The digest is the cipher's associated data, so a change of the account's identity or shadow
    /// hash invalidates the record.
    pub fn bound_to(uid: u32, username: &str, hash: &[u8]) -> (r: Account)
        requires
            identity(uid, username@, hash@).len() <= MAX_MESSAGE,
            identity(uid, username@, hash@).len() <= usize::MAX,
        ensures
            r.spec_uid() == uid,
            r.spec_binding() == secret::sha256(identity(uid, username@, hash@)),
    {
        let mut message: Vec<u8> = Vec::new();
        message.extend_from_slice("gaze-gnome-keyring-v1\0".as_bytes());
        message.extend_from_slice(u32_to_le_bytes(uid).as_slice());
        message.extend_from_slice(username.as_bytes());
        message.push(0u8);
        message.extend_from_slice(hash);
        proof {
            assert(message@ =~= identity(uid, username@, hash@));
        }
        let message = Secret::new(message);
        Account { uid, binding: secret::sha256_digest(message.as_slice()) }
    }

    pub fn record_uid(&self) -> (r: u32)
        ensures
            r == self.spec_uid(),
    {
        self.uid
    }

    /// Whether two lookups found the same identity.
    pub fn same_binding(&self, other: &Account) -> (r: bool)
        ensures
            r == (self.spec_binding() == other.spec_binding()),
    {
        for i in 0..32usize
            invariant
                forall|j: int| 0 <= j < i ==> self.binding@[j] == other.binding@[j],
        {
            if self.binding[i] != other.binding[i] {
                return false;
            }
        }
        proof {
            assert(self.binding@ =~= other.binding@);
        }
        true
    }
}

pub open spec fn password_valid(password: Seq<u8>) -> bool {
    1 <= password.len() <= MAX_PASSWORD && no_nul(password)
}

pub fn validate_password(password: &[u8]) -> (r: Result<(), KeyringError>)
    ensures
        r == (if password_valid(password@) {
            Ok(())
        } else {
            Err(KeyringError::InvalidPassword)
        }),
{
    if password.len() > 0 && password.len() <= MAX_PASSWORD && nul_position(password).is_none() {
        Ok(())
    } else {
        Err(KeyringError::InvalidPassword)
    }
}

/// The parts of a record.
pub struct Parts {
    pub public: Seq<u8>,
    pub private: Seq<u8>,
    pub nonce: Seq<u8>,
    pub ciphertext: Seq<u8>,
    pub tag: Seq<u8>,
}

pub open spec fn magic() -> Seq<u8> {
    seq![0x47u8, 0x5au8, 0x4bu8, 0x31u8]
}

/// `GZK1`, the two sealed blobs' lengths (32 bits, little-endian), the sealed blobs, the nonce, the
/// ciphertext and the tag.
pub open spec fn record(parts: Parts) -> Seq<u8> {
    magic() + spec_u32_to_le_bytes(parts.public.len() as u32) + spec_u32_to_le_bytes(
        parts.private.len() as u32,
    ) + parts.public + parts.private + parts.nonce + parts.ciphertext + parts.tag
}

pub open spec fn length_at(blob: Seq<u8>, at: int) -> int {
    spec_u32_from_le_bytes(blob.subrange(at, at + 4)) as int
}

/// Where the sealed blobs of a record end.
pub open spec fn sealed_end(blob: Seq<u8>) -> int {
    12 + length_at(blob, 4) + length_at(blob, 8)
}

/// What is wrong with the frame of a record, if anything.
pub open spec fn frame_error(blob: Seq<u8>) -> Option<KeyringError> {
    if blob.len() < 12 || blob.len() > MAX_BLOB || blob.take(4) != magic() {
        Some(KeyringError::InvalidRecord)
    } else if length_at(blob, 4) > MAX_SEALED || length_at(blob, 8) > MAX_SEALED {
        Some(KeyringError::InvalidSealedKeyLength)
    } else if !(2 <= blob.len() - sealed_end(blob) - 28 <= MAX_PASSWORD + 1) {
        Some(KeyringError::InvalidCiphertextLength)
    } else {
        None
    }
}

/// The parts of a record whose frame is sound.
pub open spec fn parts_of(blob: Seq<u8>) -> Parts {
    let end = sealed_end(blob);
    let split = 12 + length_at(blob, 4);
    Parts {
        public: blob.subrange(12, split),
        private: blob.subrange(split, end),
        nonce: blob.subrange(end, end + 12),
        ciphertext: blob.subrange(end + 12, blob.len() - 16),
        tag: blob.subrange(blob.len() - 16, blob.len() as int),
    }
}

/// What a record releases under a key to an account.
pub open spec fn released(parts: Parts, binding: Seq<u8>, key: Seq<u8>) -> Result<
    Seq<u8>,
    KeyringError,
> {
    match secret::gcm_decrypted(key, parts.nonce, binding, parts.ciphertext, parts.tag) {
        None => Err(KeyringError::CredentialUnavailable),
        Some(message) => if message.len() == 0 || message.last() != 0 {
            Err(KeyringError::InvalidTerminator)
        } else if !password_valid(message.drop_last()) {
            Err(KeyringError::InvalidPassword)
        } else {
            Ok(message)
        },
    }
}

/// The parts that fit a record: the lengths of a sealed key, a nonce, a password and a tag.
pub open spec fn parts_fit(parts: Parts) -> bool {
    &&& parts.public.len() <= MAX_SEALED
    &&& parts.private.len() <= MAX_SEALED
    &&& parts.nonce.len() == NONCE_LEN
    &&& 2 <= parts.ciphertext.len() <= MAX_PASSWORD + 1
    &&& parts.tag.len() == TAG_LEN
}

/// Writing a record and reading it back gives the same parts.
pub proof fn record_reads_back(parts: Parts)
    requires
        parts_fit(parts),
    ensures
        frame_error(record(parts)) is None,
        parts_of(record(parts)) == parts,
{
    lemma_auto_spec_u32_to_from_le_bytes();
    let blob = record(parts);
    let n = parts.public.len() as int;
    let m = parts.private.len() as int;
    assert(blob.take(4) =~= magic());
    assert(blob.subrange(4, 8) =~= spec_u32_to_le_bytes(n as u32));
    assert(blob.subrange(8, 12) =~= spec_u32_to_le_bytes(m as u32));
    assert(blob.subrange(12, 12 + n) =~= parts.public);
    assert(blob.subrange(12 + n, 12 + n + m) =~= parts.private);
    assert(blob.subrange(12 + n + m, 24 + n + m) =~= parts.nonce);
    assert(blob.subrange(24 + n + m, blob.len() - 16) =~= parts.ciphertext);
    assert(blob.subrange(blob.len() - 16, blob.len() as int) =~= parts.tag);
}

/// A record is made of its parts and nothing else: two records with a sound frame and the same
/// parts are the same bytes.
pub proof fn record_is_its_parts(blob: Seq<u8>)
    requires
        frame_error(blob) is None,
    ensures
        parts_fit(parts_of(blob)),
        record(parts_of(blob)) == blob,
{
    lemma_auto_spec_u32_to_from_le_bytes();
    let parts = parts_of(blob);
    let back = record(parts);
    assert(spec_u32_to_le_bytes(parts.public.len() as u32) == blob.subrange(4, 8));
    assert(spec_u32_to_le_bytes(parts.private.len() as u32) == blob.subrange(8, 12));
    assert forall|i: int| 0 <= i < 4 implies back[i] == blob[i] by {
        assert(blob.take(4)[i] == magic()[i]);
    }
    assert(back =~= blob);
}

/// A record's frame, lent from its bytes.
pub struct Record<'a> {
    pub public: &'a [u8],
    pub private: &'a [u8],
    pub nonce: &'a [u8],
    pub ciphertext: &'a [u8],
    pub tag: &'a [u8],
}

impl<'a> View for Record<'a> {
    type V = Parts;

    open spec fn view(&self) -> Parts {
        Parts {
            public: self.public@,
            private: self.private@,
            nonce: self.nonce@,
            ciphertext: self.ciphertext@,
            tag: self.tag@,
        }
    }
}

/// Reads a record's frame, without touching the TPM.
pub fn read_frame(blob: &[u8]) -> (r: Result<Record, KeyringError>)
    ensures
        match frame_error(blob@) {
            Some(error) => r == Err::<Record, KeyringError>(error),
            None => match r {
                Ok(found) => found@ == parts_of(blob@),
                Err(_) => false,
            },
        },
{
    if blob.len() < 12 || blob.len() > MAX_BLOB {
        return Err(KeyringError::InvalidRecord);
    }
    if !(blob[0] == 0x47 && blob[1] == 0x5a && blob[2] == 0x4b && blob[3] == 0x31) {
        proof {
            assert(blob@.take(4)[0] == blob@[0]);
            assert(blob@.take(4)[1] == blob@[1]);
            assert(blob@.take(4)[2] == blob@[2]);
            assert(blob@.take(4)[3] == blob@[3]);
        }
        return Err(KeyringError::InvalidRecord);
    }
    proof {
        assert(blob@.take(4) =~= magic());
    }
    let public_len: usize = u32_from_le_bytes(slice_subrange(blob, 4, 8)) as usize;
    let private_len: usize = u32_from_le_bytes(slice_subrange(blob, 8, 12)) as usize;
    if public_len > MAX_SEALED || private_len > MAX_SEALED {
        return Err(KeyringError::InvalidSealedKeyLength);
    }
    let split: usize = 12 + public_len;
    let end: usize = split + private_len;
    if blob.len() < end + 28 + 2 || blob.len() > end + 28 + MAX_PASSWORD + 1 {
        return Err(KeyringError::InvalidCiphertextLength);
    }
    Ok(
        Record {
            public: slice_subrange(blob, 12, split),
            private: slice_subrange(blob, split, end),
            nonce: slice_subrange(blob, end, end + 12),
            ciphertext: slice_subrange(blob, end + 12, blob.len() - 16),
            tag: slice_subrange(blob, blob.len() - 16, blob.len()),
        },
    )
}

pub open spec fn secret_view(r: Result<Secret, KeyringError>) -> Result<Seq<u8>, KeyringError> {
    match r {
        Ok(s) => Ok(s@),
        Err(e) => Err(e),
    }
}

/// Releases the password in a record, NUL-terminated, given the key that the TPM unsealed.
pub fn release(record: &Record, account: &Account, key: &SealedKey) -> (r: Result<
    Secret,
    KeyringError,
>)
    requires
        parts_fit(record@),
    ensures
        secret_view(r) == released(record@, account.spec_binding(), key@),
{
    let found = secret::gcm_decrypt(
        key.as_slice(),
        record.nonce,
        account.binding.as_slice(),
        record.ciphertext,
        record.tag,
    );
    match found {
        None => Err(KeyringError::CredentialUnavailable),
        Some(message) => {
            let bytes = message.as_slice();
            let n: usize = bytes.len();
            if n == 0 || bytes[n - 1] != 0 {
                return Err(KeyringError::InvalidTerminator);
            }
            proof {
                assert(bytes@.subrange(0, n - 1) =~= bytes@.drop_last());
            }
            match validate_password(slice_subrange(bytes, 0, n - 1)) {
                Ok(()) => Ok(message),
                Err(error) => Err(error),
            }
        },
    }
}

/// The record that a password is stored in, once a nonce is drawn.
pub open spec fn stored(
    key: Seq<u8>,
    binding: Seq<u8>,
    password: Seq<u8>,
    public: Seq<u8>,
    private: Seq<u8>,
    nonce: Seq<u8>,
) -> Parts {
    let (ciphertext, tag) = secret::gcm_encrypted(key, nonce, binding, password.push(0u8));
    Parts { public, private, nonce, ciphertext, tag }
}

/// Why a password cannot be stored next to a sealed key, if it cannot.
pub open spec fn storing_error(password: Seq<u8>, public: Seq<u8>, private: Seq<u8>) -> Option<
    KeyringError,
> {
    if !password_valid(password) {
        Some(KeyringError::InvalidPassword)
    } else if public.len() > MAX_SEALED || private.len() > MAX_SEALED {
        Some(KeyringError::InvalidSealedKey)
    } else {
        None
    }
}

/// Encrypts a password under a key and a nonce and frames it. What comes out reads back: the same
/// key releases the password to the same account, and under a changed tag it releases nothing.
pub fn encrypt_with_nonce(
    key: &SealedKey,
    account: &Account,
    password: &[u8],
    public: &[u8],
    private: &[u8],
    nonce: &[u8],
) -> (r: Result<Vec<u8>, KeyringError>)
    requires
        nonce@.len() == NONCE_LEN,
    ensures
        match storing_error(password@, public@, private@) {
            Some(error) => r == Err::<Vec<u8>, KeyringError>(error),
            None => match r {
                Ok(blob) => {
                    let parts = stored(
                        key@,
                        account.spec_binding(),
                        password@,
                        public@,
                        private@,
                        nonce@,
                    );
                    &&& blob@ == record(parts)
                    &&& frame_error(blob@) is None
                    &&& parts_of(blob@) == parts
                    &&& released(parts, account.spec_binding(), key@) == Ok::<
                        Seq<u8>,
                        KeyringError,
                    >(password@.push(0u8))
                    &&& forall|tag: Seq<u8>|
                        tag.len() == TAG_LEN && tag != parts.tag ==> (#[trigger] released(
                            Parts { tag, ..parts },
                            account.spec_binding(),
                            key@,
                        )) == Err::<Seq<u8>, KeyringError>(KeyringError::CredentialUnavailable)
                },
                Err(_) => false,
            },
        },
{
    match validate_password(password) {
        Ok(()) => {},
        Err(error) => return Err(error),
    }
    if public.len() > MAX_SEALED || private.len() > MAX_SEALED {
        return Err(KeyringError::InvalidSealedKey);
    }
    let mut message: Vec<u8> = Vec::with_capacity(password.len() + 1);
    message.extend_from_slice(password);
    message.push(0u8);
    proof {
        assert(message@ =~= password@.push(0u8));
    }
    let message = Secret::new(message);
    let (ciphertext, tag) = match secret::gcm_encrypt(
        key.as_slice(),
        nonce,
        account.binding.as_slice(),
        message.as_slice(),
    ) {
        Some(sealed) => sealed,
        None => return Err(KeyringError::EncryptionFailed),
    };
    let mut blob: Vec<u8> = Vec::new();
    blob.push(0x47u8);
    blob.push(0x5au8);
    blob.push(0x4bu8);
    blob.push(0x31u8);
    blob.extend_from_slice(u32_to_le_bytes(public.len() as u32).as_slice());
    blob.extend_from_slice(u32_to_le_bytes(private.len() as u32).as_slice());
    blob.extend_from_slice(public);
    blob.extend_from_slice(private);
    blob.extend_from_slice(nonce);
    blob.extend_from_slice(ciphertext.as_slice());
    blob.extend_from_slice(tag.as_slice());
    proof {
        let parts = stored(key@, account.spec_binding(), password@, public@, private@, nonce@);
        assert(blob@ =~= record(parts));
        record_reads_back(parts);
        assert(password@.push(0u8).drop_last() =~= password@);
        assert(password@.push(0u8).last() == 0);
    }
    Ok(blob)
}

/// Encrypts a password under a key with a fresh nonce. Whatever nonce the system gives, the record
/// releases the password again under the same key to the same account.
pub fn encrypt(
    key: &SealedKey,
    account: &Account,
    password: &[u8],
    public: &[u8],
    private: &[u8],
) -> (r: Result<Vec<u8>, KeyringError>)
    ensures
        match storing_error(password@, public@, private@) {
            Some(error) => r == Err::<Vec<u8>, KeyringError>(error),
            None => match r {
                Ok(blob) => {
                    &&& frame_error(blob@) is None
                    &&& parts_of(blob@) == stored(
                        key@,
                        account.spec_binding(),
                        password@,
                        public@,
                        private@,
                        parts_of(blob@).nonce,
                    )
                    &&& released(parts_of(blob@), account.spec_binding(), key@) == Ok::<
                        Seq<u8>,
                        KeyringError,
                    >(password@.push(0u8))
                },
                Err(error) => error == KeyringError::NoRandomNonce,
            },
        },
{
    match validate_password(password) {
        Ok(()) => {},
        Err(error) => return Err(error),
    }
    if public.len() > MAX_SEALED || private.len() > MAX_SEALED {
        return Err(KeyringError::InvalidSealedKey);
    }
    match secret::random_bytes(NONCE_LEN) {
        Some(nonce) => encrypt_with_nonce(
            key,
            account,
            password,
            public,
            private,
            nonce.as_slice(),
        ),
        None => Err(KeyringError::NoRandomNonce),
    }
}

/// Releases the password in a record, asking for the key only when the frame is sound.
///
/// `unseal` gets the two sealed blobs and gives the key, or says why there is none.
pub fn decrypt_with<F: FnOnce(&[u8], &[u8]) -> Result<SealedKey, KeyringError>>(
    blob: &[u8],
    account: &Account,
    unseal: F,
) -> (r: Result<Secret, KeyringError>)
    requires
        frame_error(blob@) is None ==> forall|public: &[u8], private: &[u8]|
            public@ == parts_of(blob@).public && private@ == parts_of(blob@).private
                ==> #[trigger] call_requires(unseal, (public, private)),
    ensures
        match frame_error(blob@) {
            Some(error) => r == Err::<Secret, KeyringError>(error),
            None => exists|public: &[u8], private: &[u8], answer: Result<SealedKey, KeyringError>|
                {
                    &&& public@ == parts_of(blob@).public
                    &&& private@ == parts_of(blob@).private
                    &&& #[trigger] call_ensures(unseal, (public, private), answer)
                    &&& secret_view(r) == (match answer {
                        Ok(key) => released(parts_of(blob@), account.spec_binding(), key@),
                        Err(error) => Err(error),
                    })
                },
        },
{
    let frame = match read_frame(blob) {
        Ok(frame) => frame,
        Err(error) => return Err(error),
    };
    proof {
        record_is_its_parts(blob@);
    }
    match unseal(frame.public, frame.private) {
        Ok(key) => release(&frame, account, &key),
        Err(error) => Err(error),
    }
}

/// The key that a TPM gave back, which must have a key's length.
pub fn sealed_key(bytes: Secret) -> (r: Result<SealedKey, KeyringError>)
    ensures
        match r {
            Ok(key) => bytes@.len() == KEY_LEN && key@ == bytes@,
            Err(error) => bytes@.len() != KEY_LEN && error == KeyringError::UnexpectedKeyLength(
                bytes@.len() as usize,
            ),
        },
{
    let n: usize = bytes.as_slice().len();
    match SealedKey::new(bytes) {
        Some(key) => Ok(key),
        None => Err(KeyringError::UnexpectedKeyLength(n)),
    }
}

/// What is digested for an account tells accounts apart: two identities with the same digest input
/// have the same UID, name and shadow hash.
pub proof fn identity_is_injective(
    uid: u32,
    username: Seq<char>,
    hash: Seq<u8>,
    other_uid: u32,
    other_username: Seq<char>,
    other_hash: Seq<u8>,
)
    requires
        no_nul(encode_utf8(username)),
        no_nul(encode_utf8(other_username)),
        identity(uid, username, hash) == identity(other_uid, other_username, other_hash),
    ensures
        uid == other_uid,
        username == other_username,
        hash == other_hash,
{
    lemma_auto_spec_u32_to_from_le_bytes();
    let label = encode_utf8("gaze-gnome-keyring-v1\0"@);
    let a = encode_utf8(username);
    let b = encode_utf8(other_username);
    lemma_no_nul(a);
    lemma_no_nul(b);
    let whole = identity(uid, username, hash);
    let at: int = label.len() as int + 4;
    assert(whole.subrange(label.len() as int, at as int) =~= spec_u32_to_le_bytes(uid));
    assert(whole.subrange(label.len() as int, at as int) =~= spec_u32_to_le_bytes(other_uid));
    assert forall|j: int| 0 <= j < a.len() implies whole[at + j] == a[j] by {}
    assert(whole[at + a.len()] == 0);
    assert forall|j: int| 0 <= j < b.len() implies whole[at + j] == b[j] by {
        assert(identity(other_uid, other_username, other_hash)[at + j] == b[j]);
    }
    assert(identity(other_uid, other_username, other_hash)[at + b.len()] == 0);
    if a.len() < b.len() {
        assert(whole[at + a.len()] == b[a.len() as int]);
    }
    if b.len() < a.len() {
        assert(whole[at + b.len()] == a[b.len() as int]);
    }
    assert(a =~= b);
    vstd::utf8::encode_utf8_decode_utf8(username);
    vstd::utf8::encode_utf8_decode_utf8(other_username);
    assert(hash =~= whole.skip(at + a.len() + 1));
    assert(other_hash =~= whole.skip(at + a.len() + 1));
}

/// What the system says of a directory on the way to the records, links not followed.
#[derive(Clone, Copy)]
pub struct DirectoryFacts {
    pub is_dir: bool,
    pub uid: u32,
    pub mode: u32,
}

pub open spec fn directory_safe(facts: DirectoryFacts, owner: u32) -> bool {
    facts.is_dir && facts.uid == owner && facts.mode & 0o022 == 0
}

/// What is wrong with a credential directory, if anything: every directory on the way to it must
/// belong to the owner and be closed to other writers, and it must itself be private.
pub open spec fn directory_error(
    absolute: bool,
    ancestors: Seq<DirectoryFacts>,
    unread: Option<KeyringError>,
    mode: Result<u32, KeyringError>,
    owner: u32,
) -> Option<KeyringError> {
    if !absolute {
        Some(KeyringError::DirectoryNotAbsolute)
    } else if exists|i: int|
        0 <= i < ancestors.len() && !directory_safe(#[trigger] ancestors[i], owner) {
        Some(KeyringError::UnsafeDirectory)
    } else if unread is Some {
        unread
    } else {
        match mode {
            Err(error) => Some(error),
            Ok(mode) => if mode & 0o077 != 0 {
                Some(KeyringError::DirectoryNotPrivate)
            } else {
                None
            },
        }
    }
}

/// Verifies every path component before credential contents are read. `ancestors` holds what was
/// read of the directory and its parents, innermost first; `unread` says why the next one could not
/// be read.
pub fn check_directory(
    absolute: bool,
    ancestors: &Vec<DirectoryFacts>,
    unread: Option<KeyringError>,
    mode: Result<u32, KeyringError>,
    owner: u32,
) -> (r: Result<(), KeyringError>)
    ensures
        r == (match directory_error(absolute, ancestors@, unread, mode, owner) {
            Some(error) => Err(error),
            None => Ok(()),
        }),
{
    if !absolute {
        return Err(KeyringError::DirectoryNotAbsolute);
    }
    for i in 0..ancestors.len()
        invariant
            absolute,
            forall|j: int| 0 <= j < i ==> directory_safe(#[trigger] ancestors@[j], owner),
    {
        let facts = ancestors[i];
        if !(facts.is_dir && facts.uid == owner && facts.mode & 0o022 == 0) {
            proof {
                assert(!directory_safe(ancestors@[i as int], owner));
            }
            return Err(KeyringError::UnsafeDirectory);
        }
    }
    if let Some(error) = unread {
        return Err(error);
    }
    match mode {
        Err(error) => Err(error),
        Ok(mode) => if mode & 0o077 != 0 {
            Err(KeyringError::DirectoryNotPrivate)
        } else {
            Ok(())
        },
    }
}

/// The record of an account: one file per UID.
pub open spec fn record_name(dir: Seq<char>, uid: u32) -> Seq<char> {
    paths::path_joined(dir, text::decimal(uid as nat) + ".keyring"@)
}

pub fn record_path(dir: &str, uid: u32) -> (r: String)
    ensures
        r@ == record_name(dir@, uid),
{
    let number = text::decimal_text(uid as u64);
    let name = text::cat2(number.as_str(), ".keyring");
    paths::join(dir, name.as_str())
}

/// No two accounts share a record.
pub proof fn records_have_names_of_their_own(dir: Seq<char>, uid: u32, other: u32)
    ensures
        record_name(dir, uid) == record_name(dir, other) ==> uid == other,
{
    text::decimals_are_distinct(uid as nat, other as nat);
    text::decimals_are_distinct(other as nat, uid as nat);
    let one = text::decimal(uid as nat) + ".keyring"@;
    let two = text::decimal(other as nat) + ".keyring"@;
    assert(one[0] != '/' && two[0] != '/');
    if record_name(dir, uid) == record_name(dir, other) {
        let above = if dir.len() == 0 || dir.last() == '/' {
            dir
        } else {
            dir + "/"@
        };
        assert(record_name(dir, uid).skip(above.len() as int) =~= one);
        assert(record_name(dir, other).skip(above.len() as int) =~= two);
        assert(one.take(one.len() - ".keyring"@.len()) =~= text::decimal(uid as nat));
        assert(two.take(two.len() - ".keyring"@.len()) =~= text::decimal(other as nat));
    }
}

/// What the system says of an opened record, links not followed.
#[derive(Clone, Copy)]
pub struct FileFacts {
    pub is_file: bool,
    pub uid: u32,
    pub mode: u32,
    pub links: u64,
}

/// How an attempt to open a record ended.
pub enum Opening {
    Missing,
    Failed(KeyringError),
    File(FileFacts),
}

pub open spec fn file_safe(facts: FileFacts, owner: u32) -> bool {
    facts.is_file && facts.uid == owner && facts.mode & 0o077 == 0 && facts.links == 1
}

/// Takes a record's contents only from a private regular file with one name. `contents` holds at
/// most one byte more than a record may have.
pub fn read_record(opening: Opening, contents: Vec<u8>, owner: u32) -> (r: Result<
    Option<Vec<u8>>,
    KeyringError,
>)
    ensures
        r == (match opening {
            Opening::Missing => Ok(None),
            Opening::Failed(error) => Err(error),
            Opening::File(facts) => if !file_safe(facts, owner) {
                Err(KeyringError::UnsafeRecord)
            } else if contents@.len() > MAX_BLOB {
                Err(KeyringError::RecordTooLarge)
            } else {
                Ok(Some(contents))
            },
        }),
{
    match opening {
        Opening::Missing => Ok(None),
        Opening::Failed(error) => Err(error),
        Opening::File(facts) => {
            if !(facts.is_file && facts.uid == owner && facts.mode & 0o077 == 0 && facts.links
                == 1) {
                return Err(KeyringError::UnsafeRecord);
            }
            if contents.len() > MAX_BLOB {
                return Err(KeyringError::RecordTooLarge);
            }
            Ok(Some(contents))
        },
    }
}

/// The file that a record is written to before it replaces the old one.
pub open spec fn temporary_name(dir: Seq<char>, uid: u32, number: u64) -> Seq<char> {
    paths::path_joined(
        dir,
        "."@ + text::decimal(uid as nat) + "-"@ + text::decimal(number as nat) + ".tmp"@,
    )
}

pub fn temporary_path_of(dir: &str, uid: u32, number: u64) -> (r: String)
    ensures
        r@ == temporary_name(dir@, uid, number),
{
    let uid = text::decimal_text(uid as u64);
    let number = text::decimal_text(number);
    let name = text::cat5(".", uid.as_str(), "-", number.as_str(), ".tmp");
    paths::join(dir, name.as_str())
}

/// A temporary file name with a random number in it.
pub fn temporary_path(dir: &str, account: &Account) -> (r: Result<String, KeyringError>)
    ensures
        match r {
            Ok(path) => exists|number: u64|
                path@ == #[trigger] temporary_name(dir@, account.spec_uid(), number),
            Err(error) => error == KeyringError::NoRandomFilename,
        },
{
    match secret::random_bytes(8) {
        Some(bytes) => {
            let number: u64 = vstd::bytes::u64_from_le_bytes(bytes.as_slice());
            let path = temporary_path_of(dir, account.uid, number);
            proof {
                assert(path@ == temporary_name(dir@, account.spec_uid(), number));
            }
            Ok(path)
        },
        None => Err(KeyringError::NoRandomFilename),
    }
}

/// The steps of replacing a record.
#[derive(Clone, Copy, PartialEq, Eq, Structural, Debug)]
pub enum WriteStep {
    Create,
    Write,
    SyncFile,
    Rename,
    SyncDirectory,
    RemoveTemporary,
    Stored,
    Failed,
}

/// What follows a step that went well or not. Only a temporary file that was created is removed.
pub open spec fn step_after(step: WriteStep, ok: bool) -> WriteStep {
    match step {
        WriteStep::Create => if ok {
            WriteStep::Write
        } else {
            WriteStep::Failed
        },
        WriteStep::Write => if ok {
            WriteStep::SyncFile
        } else {
            WriteStep::RemoveTemporary
        },
        WriteStep::SyncFile => if ok {
            WriteStep::Rename
        } else {
            WriteStep::RemoveTemporary
        },
        WriteStep::Rename => if ok {
            WriteStep::SyncDirectory
        } else {
            WriteStep::RemoveTemporary
        },
        WriteStep::SyncDirectory => if ok {
            WriteStep::Stored
        } else {
            WriteStep::RemoveTemporary
        },
        WriteStep::RemoveTemporary => WriteStep::Failed,
        WriteStep::Stored => WriteStep::Stored,
        WriteStep::Failed => WriteStep::Failed,
    }
}

impl WriteStep {
    pub fn next(self, ok: bool) -> (r: WriteStep)
        ensures
            r == step_after(self, ok),
    {
        match self {
            WriteStep::Create if ok => WriteStep::Write,
            WriteStep::Write if ok => WriteStep::SyncFile,
            WriteStep::SyncFile if ok => WriteStep::Rename,
            WriteStep::Rename if ok => WriteStep::SyncDirectory,
            WriteStep::SyncDirectory if ok => WriteStep::Stored,
            WriteStep::Create => WriteStep::Failed,
            WriteStep::Write | WriteStep::SyncFile | WriteStep::Rename | WriteStep::SyncDirectory =>
                WriteStep::RemoveTemporary,
            WriteStep::RemoveTemporary => WriteStep::Failed,
            WriteStep::Stored => WriteStep::Stored,
            WriteStep::Failed => WriteStep::Failed,
        }
    }
}

/// Where a run of steps with the given outcomes stands.
pub open spec fn step_reached(outcomes: Seq<bool>) -> WriteStep
    decreases outcomes.len(),
{
    if outcomes.len() == 0 {
        WriteStep::Create
    } else {
        step_after(step_reached(outcomes.drop_last()), outcomes.last())
    }
}

/// The number of steps that have gone well when a step is taken.
pub open spec fn steps_before(step: WriteStep) -> int {
    match step {
        WriteStep::Create => 0,
        WriteStep::Write => 1,
        WriteStep::SyncFile => 2,
        WriteStep::Rename => 3,
        WriteStep::SyncDirectory => 4,
        _ => 5,
    }
}

/// A record counts as stored only when it was created, written, synced, renamed and its directory
/// synced; a temporary file is removed only after it was created and a later step went wrong.
pub proof fn record_is_replaced_whole_or_not_at_all(outcomes: Seq<bool>)
    ensures
        step_reached(outcomes) == WriteStep::Stored <==> (outcomes.len() >= 5 && forall|i: int|
            0 <= i < 5 ==> outcomes[i]),
        step_reached(outcomes) == WriteStep::RemoveTemporary ==> 2 <= outcomes.len() <= 5
            && outcomes[0] && !outcomes.last(),
    decreases outcomes.len(),
{
    lemma_steps(outcomes);
    if step_reached(outcomes) == WriteStep::RemoveTemporary {
        lemma_steps(outcomes.drop_last());
        let before = outcomes.drop_last();
        assert(before[0] == outcomes[0]);
    }
}

proof fn lemma_steps(outcomes: Seq<bool>)
    ensures
        step_reached(outcomes) == WriteStep::Stored ==> outcomes.len() >= 5 && forall|i: int|
            0 <= i < 5 ==> outcomes[i],
        (outcomes.len() >= 5 && forall|i: int| 0 <= i < 5 ==> outcomes[i]) ==> step_reached(
            outcomes,
        ) == WriteStep::Stored,
        steps_before(step_reached(outcomes)) < 5 ==> outcomes.len() == steps_before(
            step_reached(outcomes),
        ) && forall|i: int| 0 <= i < outcomes.len() ==> outcomes[i],
        outcomes.len() < 5 && (forall|i: int| 0 <= i < outcomes.len() ==> outcomes[i])
            ==> steps_before(step_reached(outcomes)) == outcomes.len(),
    decreases outcomes.len(),
{
    if outcomes.len() > 0 {
        let before = outcomes.drop_last();
        lemma_steps(before);
        assert forall|i: int| 0 <= i < before.len() implies before[i] == outcomes[i] by {}
        if outcomes.len() >= 5 && (forall|i: int| 0 <= i < 5 ==> outcomes[i]) {
            if outcomes.len() == 5 {
                assert(forall|i: int| 0 <= i < before.len() ==> before[i]);
                assert(outcomes.last());
            } else {
                assert(forall|i: int| 0 <= i < 5 ==> before[i]);
            }
        }
        if steps_before(step_reached(outcomes)) < 5 {
            assert(steps_before(step_reached(before)) < 5);
            assert(outcomes.last());
        }
        if outcomes.len() < 5 && (forall|i: int| 0 <= i < outcomes.len() ==> outcomes[i]) {
            assert(forall|i: int| 0 <= i < before.len() ==> before[i]);
            assert(outcomes.last());
        }
    }
}

/// How an attempt to remove a record ended.
pub enum Removal {
    Removed,
    Missing,
    Failed(KeyringError),
}

/// Whether the directory must still be synced after a removal. A record that was not there is
/// already forgotten.
pub open spec fn sync_after(removal: Removal) -> Result<bool, KeyringError> {
    match removal {
        Removal::Removed => Ok(true),
        Removal::Missing => Ok(false),
        Removal::Failed(error) => Err(error),
    }
}

pub fn remove_record(removal: Removal) -> (r: Result<bool, KeyringError>)
    ensures
        r == sync_after(removal),
{
    match removal {
        Removal::Removed => Ok(true),
        Removal::Missing => Ok(false),
        Removal::Failed(error) => Err(error),
    }
}

pub open spec fn forget_plan(
    uid: Result<u32, KeyringError>,
    store_exists: Result<bool, KeyringError>,
    directory: Result<(), KeyringError>,
) -> Result<Option<Seq<char>>, KeyringError> {
    match (uid, store_exists, directory) {
        (Err(error), _, _) => Err(error),
        (Ok(_), Err(error), _) => Err(error),
        (Ok(_), Ok(false), _) => Ok(None),
        (Ok(_), Ok(true), Err(error)) => Err(error),
        (Ok(uid), Ok(true), Ok(())) => Ok(Some(record_name(STORE_DIR@, uid))),
    }
}

/// Which record to remove to forget an account, without reading or unsealing it; none where there
/// is no store.
pub fn forget(
    uid: Result<u32, KeyringError>,
    store_exists: Result<bool, KeyringError>,
    directory: Result<(), KeyringError>,
) -> (r: Result<Option<String>, KeyringError>)
    ensures
        (match r {
            Ok(path) => Ok(text::optional(path)),
            Err(error) => Err(error),
        }) == forget_plan(uid, store_exists, directory),
{
    let uid: u32 = match uid {
        Ok(uid) => uid,
        Err(error) => return Err(error),
    };
    match store_exists {
        Ok(true) => {},
        Ok(false) => return Ok(None),
        Err(error) => return Err(error),
    }
    match directory {
        Ok(()) => Ok(Some(record_path(STORE_DIR, uid))),
        Err(error) => Err(error),
    }
}

/// How removing a record from a store that the system can write to ends.
pub open spec fn removal_from(records: Map<Seq<char>, Seq<u8>>, path: Seq<char>) -> Removal {
    if records.contains_key(path) {
        Removal::Removed
    } else {
        Removal::Missing
    }
}

/// Forgetting an account where the system fails nowhere: what comes of it, and the store that is
/// left. A store is what its records hold, by their paths; none is a store that does not exist.
pub open spec fn forgotten(store: Option<Map<Seq<char>, Seq<u8>>>, uid: u32) -> (
    Result<(), KeyringError>,
    Option<Map<Seq<char>, Seq<u8>>>,
) {
    match forget_plan(Ok(uid), Ok(store is Some), Ok(())) {
        Err(error) => (Err(error), store),
        Ok(None) => (Ok(()), store),
        Ok(Some(path)) => match sync_after(removal_from(store->0, path)) {
            Err(error) => (Err(error), store),
            Ok(_) => (Ok(()), Some(store->0.remove(path))),
        },
    }
}

/// Forgetting an account succeeds whether or not it was enrolled and whether or not there is a store,
/// and goes the same way whatever the records hold. Its record is gone then, every other account
/// keeps its own, a store that did not exist is not made, and forgetting once more changes nothing.
pub proof fn forgetting_removes_one_record(store: Option<Map<Seq<char>, Seq<u8>>>, uid: u32)
    ensures
        ({
            let (first, left) = forgotten(store, uid);
            let (second, again) = forgotten(left, uid);
            &&& first is Ok
            &&& second is Ok
            &&& again == left
            &&& match (store, left) {
                (None, None) => true,
                (Some(records), Some(kept)) => {
                    &&& !kept.contains_key(record_name(STORE_DIR@, uid))
                    &&& !records.contains_key(record_name(STORE_DIR@, uid)) ==> kept == records
                    &&& forall|other: u32|
                        other != uid ==> {
                            let name = #[trigger] record_name(STORE_DIR@, other);
                            &&& kept.contains_key(name) == records.contains_key(name)
                            &&& kept[name] == records[name]
                        }
                    &&& forall|unlike: Map<Seq<char>, Seq<u8>>|
                        unlike.dom() == records.dom() ==> {
                            let (same, also_kept) = #[trigger] forgotten(Some(unlike), uid);
                            same == first && also_kept is Some && also_kept->0.dom() == kept.dom()
                        }
                },
                _ => false,
            }
        }),
{
    let name = record_name(STORE_DIR@, uid);
    if let Some(records) = store {
        assert(records.remove(name).remove(name) =~= records.remove(name));
        if !records.contains_key(name) {
            assert(records.remove(name) =~= records);
        }
        assert forall|other: u32| other != uid implies #[trigger] record_name(STORE_DIR@, other)
            != name by {
            records_have_names_of_their_own(STORE_DIR@, uid, other);
        }
        assert forall|unlike: Map<Seq<char>, Seq<u8>>| unlike.dom() == records.dom() implies (
        #[trigger] forgotten(Some(unlike), uid)).1->0.dom() == records.remove(name).dom() by {
            assert(unlike.remove(name).dom() =~= records.remove(name).dom());
        }
    }
}

/// How an attempt to create the store ended.
pub enum Creation {
    Created,
    AlreadyThere,
    Failed(KeyringError),
}

pub open spec fn enrollment_error(
    account: Result<Account, KeyringError>,
    password: Seq<u8>,
    parent: Result<(), KeyringError>,
    creation: Creation,
    directory: Result<(), KeyringError>,
) -> Option<KeyringError> {
    match account {
        Err(error) => Some(error),
        Ok(_) => if !password_valid(password) {
            Some(KeyringError::InvalidPassword)
        } else {
            match (parent, creation, directory) {
                (Err(error), _, _) => Some(error),
                (Ok(()), Creation::Failed(error), _) => Some(error),
                (Ok(()), _, Err(error)) => Some(error),
                (Ok(()), _, Ok(())) => None,
            }
        },
    }
}

/// Draws the key of a new record once the account, the password and the store are sound.
pub fn begin_enrollment(
    account: Result<Account, KeyringError>,
    password: &[u8],
    parent: Result<(), KeyringError>,
    creation: Creation,
    directory: Result<(), KeyringError>,
) -> (r: Result<(Account, SealedKey), KeyringError>)
    ensures
        match enrollment_error(account, password@, parent, creation, directory) {
            Some(error) => r == Err::<(Account, SealedKey), KeyringError>(error),
            None => match r {
                Ok((found, key)) => account == Ok::<Account, KeyringError>(found) && key@.len()
                    == KEY_LEN,
                Err(error) => error == KeyringError::NoRandomKey,
            },
        },
{
    let account = match account {
        Ok(account) => account,
        Err(error) => return Err(error),
    };
    match validate_password(password) {
        Ok(()) => {},
        Err(error) => return Err(error),
    }
    match parent {
        Ok(()) => {},
        Err(error) => return Err(error),
    }
    match creation {
        Creation::Created | Creation::AlreadyThere => {},
        Creation::Failed(error) => return Err(error),
    }
    match directory {
        Ok(()) => {},
        Err(error) => return Err(error),
    }
    match secret::random_bytes(KEY_LEN) {
        Some(bytes) => match sealed_key(Secret::new(bytes)) {
            Ok(key) => Ok((account, key)),
            Err(error) => Err(error),
        },
        None => Err(KeyringError::NoRandomKey),
    }
}

/// Encrypts a password and verifies that the sealed key opens the record again, before a working
/// record is replaced. What went wrong when it was opened is handed on.
pub fn enroll<F: FnOnce(&[u8], &[u8]) -> Result<SealedKey, KeyringError>>(
    key: &SealedKey,
    account: &Account,
    password: &[u8],
    public: &[u8],
    private: &[u8],
    unseal: F,
) -> (r: Result<Vec<u8>, KeyringError>)
    requires
        storing_error(password@, public@, private@) is None ==> forall|p: &[u8], q: &[u8]|
            p@ == public@ && q@ == private@ ==> #[trigger] call_requires(unseal, (p, q)),
    ensures
        match storing_error(password@, public@, private@) {
            Some(error) => r == Err::<Vec<u8>, KeyringError>(error),
            None => {
                &&& r matches Ok(blob) ==> {
                    &&& frame_error(blob@) is None
                    &&& parts_of(blob@) == stored(
                        key@,
                        account.spec_binding(),
                        password@,
                        public@,
                        private@,
                        parts_of(blob@).nonce,
                    )
                    &&& released(parts_of(blob@), account.spec_binding(), key@) == Ok::<
                        Seq<u8>,
                        KeyringError,
                    >(password@.push(0u8))
                    &&& exists|p: &[u8], q: &[u8], opened: SealedKey|
                        #[trigger] call_ensures(
                            unseal,
                            (p, q),
                            Ok::<SealedKey, KeyringError>(opened),
                        ) && p@ == public@ && q@ == private@ && released(
                            parts_of(blob@),
                            account.spec_binding(),
                            opened@,
                        ) is Ok
                }
                &&& (forall|p: &[u8], q: &[u8], answer: Result<SealedKey, KeyringError>|
                    p@ == public@ && q@ == private@ && #[trigger] call_ensures(
                        unseal,
                        (p, q),
                        answer,
                    ) ==> (answer matches Ok(opened) && opened@ == key@)) ==> (r is Ok || r == Err::<
                    Vec<u8>,
                    KeyringError,
                >(KeyringError::NoRandomNonce))
                &&& r matches Err(error) ==> error == KeyringError::NoRandomNonce || exists|
                    p: &[u8],
                    q: &[u8],
                    answer: Result<SealedKey, KeyringError>,
                    nonce: Seq<u8>,
                |
                    {
                        let parts = #[trigger] stored(
                            key@,
                            account.spec_binding(),
                            password@,
                            public@,
                            private@,
                            nonce,
                        );
                        &&& p@ == public@ && q@ == private@
                        &&& nonce.len() == NONCE_LEN
                        &&& #[trigger] call_ensures(unseal, (p, q), answer)
                        &&& Err::<Seq<u8>, KeyringError>(error) == (match answer {
                            Ok(opened) => released(parts, account.spec_binding(), opened@),
                            Err(given) => Err(given),
                        })
                    }
            },
        },
{
    let blob = match encrypt(key, account, password, public, private) {
        Ok(blob) => blob,
        Err(error) => return Err(error),
    };
    let ghost parts = parts_of(blob@);
    proof {
        record_is_its_parts(blob@);
        assert(parts == stored(
            key@,
            account.spec_binding(),
            password@,
            public@,
            private@,
            parts.nonce,
        ));
    }
    match decrypt_with(blob.as_slice(), account, unseal) {
        Ok(_) => Ok(blob),
        Err(error) => Err(error),
    }
}

/// An account that changed while its record was made is not enrolled.
pub fn confirm_enrollment(before: &Account, after: Result<Account, KeyringError>) -> (r: Result<
    (),
    KeyringError,
>)
    ensures
        r == (match after {
            Err(error) => Err(error),
            Ok(found) => if found.spec_binding() == before.spec_binding() {
                Ok(())
            } else {
                Err(KeyringError::ChangedDuringEnrollment)
            },
        }),
{
    match after {
        Err(error) => Err(error),
        Ok(found) => if found.same_binding(before) {
            Ok(())
        } else {
            Err(KeyringError::ChangedDuringEnrollment)
        },
    }
}

/// The account and the record to read to unlock its keyring; none where there is no store.
pub fn begin_load(
    root: bool,
    store_exists: Result<bool, KeyringError>,
    directory: Result<(), KeyringError>,
    account: Result<Account, KeyringError>,
) -> (r: Result<Option<(Account, String)>, KeyringError>)
    ensures
        match (store_exists, directory, account) {
            _ if !root => r == Err::<Option<(Account, String)>, KeyringError>(
                KeyringError::AccessNotRoot,
            ),
            (Err(error), _, _) => r == Err::<Option<(Account, String)>, KeyringError>(error),
            (Ok(false), _, _) => r == Ok::<Option<(Account, String)>, KeyringError>(None),
            (Ok(true), Err(error), _) => r == Err::<Option<(Account, String)>, KeyringError>(error),
            (Ok(true), Ok(()), Err(error)) => r == Err::<Option<(Account, String)>, KeyringError>(
                error,
            ),
            (Ok(true), Ok(()), Ok(found)) => match r {
                Ok(Some((same, path))) => same == found && path@ == record_name(
                    STORE_DIR@,
                    found.spec_uid(),
                ),
                _ => false,
            },
        },
{
    if !root {
        return Err(KeyringError::AccessNotRoot);
    }
    match store_exists {
        Ok(true) => {},
        Ok(false) => return Ok(None),
        Err(error) => return Err(error),
    }
    match directory {
        Ok(()) => {},
        Err(error) => return Err(error),
    }
    match account {
        Ok(found) => {
            let path = record_path(STORE_DIR, found.uid);
            Ok(Some((found, path)))
        },
        Err(error) => Err(error),
    }
}

/// Releases the password of a record that was read. A missing record is an account that is not
/// enrolled; any other failure asks for the password instead.
pub fn load<F: FnOnce(&[u8], &[u8]) -> Result<SealedKey, KeyringError>>(
    blob: Option<Vec<u8>>,
    account: &Account,
    unseal: F,
) -> (r: Result<Option<Secret>, KeyringError>)
    requires
        blob matches Some(bytes) ==> (frame_error(bytes@) is None ==> forall|
            public: &[u8],
            private: &[u8],
        |
            public@ == parts_of(bytes@).public && private@ == parts_of(bytes@).private
                ==> #[trigger] call_requires(unseal, (public, private))),
    ensures
        match blob {
            None => r == Ok::<Option<Secret>, KeyringError>(None),
            Some(bytes) => match frame_error(bytes@) {
                Some(error) => r == Err::<Option<Secret>, KeyringError>(error),
                None => exists|
                    public: &[u8],
                    private: &[u8],
                    answer: Result<SealedKey, KeyringError>,
                |
                    {
                        &&& public@ == parts_of(bytes@).public
                        &&& private@ == parts_of(bytes@).private
                        &&& #[trigger] call_ensures(unseal, (public, private), answer)
                        &&& match (
                            match answer {
                                Ok(key) => released(parts_of(bytes@), account.spec_binding(), key@),
                                Err(error) => Err(error),
                            }) {
                            Ok(password) => r matches Ok(Some(found)) && found@ == password,
                            Err(error) => r == Err::<Option<Secret>, KeyringError>(error),
                        }
                    },
            },
        },
{
    match blob {
        None => Ok(None),
        Some(bytes) => match decrypt_with(bytes.as_slice(), account, unseal) {
            Ok(found) => Ok(Some(found)),
            Err(error) => Err(error),
        },
    }
}

/// An account that changed while its record was opened gets nothing.
pub fn confirm_unlock(
    found: Secret,
    before: &Account,
    after: Result<Account, KeyringError>,
) -> (r: Result<Secret, KeyringError>)
    ensures
        r == (match after {
            Err(error) => Err(error),
            Ok(account) => if account.spec_binding() == before.spec_binding() {
                Ok(found)
            } else {
                Err(KeyringError::ChangedDuringUnlock)
            },
        }),
{
    match after {
        Err(error) => Err(error),
        Ok(account) => if account.same_binding(before) {
            Ok(found)
        } else {
            Err(KeyringError::ChangedDuringUnlock)
        },
    }
}

/// A text has a zero byte exactly where its first one stands, and none where no byte is zero.
pub proof fn the_first_zero_is_found(left: Seq<u8>, right: Seq<u8>)
    requires
        left.len() <= usize::MAX,
        forall|i: int| 0 <= i < left.len() ==> #[trigger] left[i] != 0,
    ensures
        first_nul(left.push(0u8) + right) == Some(left.len() as usize),
        first_nul(left) is None,
    decreases left.len(),
{
    let all = left.push(0u8) + right;
    if left.len() > 0 {
        assert(all[0] == left[0]);
        assert(left[0] != 0);
        let rest = left.skip(1);
        assert forall|i: int| 0 <= i < rest.len() implies #[trigger] rest[i] != 0 by {
            assert(rest[i] == left[i + 1]);
        }
        the_first_zero_is_found(rest, right);
        assert(all.skip(1) =~= rest.push(0u8) + right);
    } else {
        assert(all[0] == 0);
    }
}

proof fn lemma_all_nonzero(s: Seq<u8>)
    ensures
        no_nul(s) <==> forall|i: int| 0 <= i < s.len() ==> #[trigger] s[i] != 0,
    decreases s.len(),
{
    if s.len() > 0 {
        let rest = s.skip(1);
        lemma_all_nonzero(rest);
        if no_nul(s) {
            assert forall|i: int| 0 <= i < s.len() implies #[trigger] s[i] != 0 by {
                if i > 0 {
                    assert(rest[i - 1] == s[i]);
                }
            }
        }
        if forall|i: int| 0 <= i < s.len() ==> #[trigger] s[i] != 0 {
            assert forall|i: int| 0 <= i < rest.len() implies #[trigger] rest[i] != 0 by {
                assert(rest[i] == s[i + 1]);
            }
            assert(s[0] != 0);
        }
    }
}

/// A password can be kept exactly when it has between 1 and 4096 bytes, none of them zero.
pub proof fn passwords_have_bytes_and_no_zero(password: Seq<u8>)
    ensures
        password_valid(password) <==> 1 <= password.len() <= 4096 && forall|i: int|
            0 <= i < password.len() ==> #[trigger] password[i] != 0,
{
    lemma_all_nonzero(password);
}

/// An account can be enrolled exactly when root asks, the name can be looked up, it is another's than
/// root's, and its password is set, not due for a change and not locked. The first of these that
/// fails is the error.
pub proof fn an_account_is_found_only_where_nothing_forbids_it(
    root: bool,
    username: Seq<char>,
    uid: Option<u32>,
    shadow: Option<Shadow>,
)
    ensures
        ({
            let error = lookup_error(root, username, uid, shadow);
            let named = no_nul(encode_utf8(username));
            let ordinary = root && named && uid is Some && uid->0 != 0;
            let shadowed = ordinary && shadow is Some;
            let settled = shadowed && (shadow->0).password is Some && (shadow->0).last_change != 0;
            let hash = ((shadow->0).password->0)@;
            let open = hash.len() > 0 && hash[0] != 0x21 && hash[0] != 0x2a;
            &&& error is None <==> settled && open
            &&& error == Some(KeyringError::NotRoot) <==> !root
            &&& error is Some && error->0 is NulInName <==> root && !named
            &&& error == Some(KeyringError::AccountNotFound) <==> root && named && uid is None
            &&& error == Some(KeyringError::RootAccount) <==> root && named && uid == Some(0u32)
            &&& error == Some(KeyringError::NoShadowRecord) <==> ordinary && shadow is None
            &&& error == Some(KeyringError::PasswordChangeRequired) <==> shadowed && !settled
            &&& error == Some(KeyringError::PasswordLocked) <==> settled && !open
        }),
{
}

/// A record begins with its four letters and the lengths of the two halves of its key, of at most
/// 4096 bytes each; then come 12 bytes of nonce, the password with its end, and 16 bytes of tag.
pub proof fn records_have_one_layout(parts: Parts)
    ensures
        magic() == seq![0x47u8, 0x5au8, 0x4bu8, 0x31u8],
        parts_fit(parts) <==> parts.public.len() <= 4096 && parts.private.len() <= 4096
            && parts.nonce.len() == 12 && 2 <= parts.ciphertext.len() <= 4097 && parts.tag.len()
            == 16,
        parts_fit(parts) ==> record(parts).len() == 40 + parts.public.len() + parts.private.len()
            + parts.ciphertext.len(),
        parts_fit(parts) ==> record(parts).take(4) == magic(),
        parts_fit(parts) ==> record(parts).skip(12) == parts.public + parts.private + parts.nonce
            + parts.ciphertext + parts.tag,
{
    lemma_auto_spec_u32_to_from_le_bytes();
    let blob = record(parts);
    if parts_fit(parts) {
        assert(blob.take(4) =~= magic());
        assert(blob.skip(12) =~= parts.public + parts.private + parts.nonce + parts.ciphertext
            + parts.tag);
    }
}

/// A record is sound exactly when some parts that fit are written as it.
pub proof fn a_sound_record_is_one_that_was_written(blob: Seq<u8>)
    ensures
        frame_error(blob) is None <==> exists|parts: Parts|
            parts_fit(parts) && blob == #[trigger] record(parts),
        blob.len() > 16384 ==> frame_error(blob) == Some(KeyringError::InvalidRecord),
        blob.len() < 12 ==> frame_error(blob) == Some(KeyringError::InvalidRecord),
        frame_error(blob) == Some(KeyringError::InvalidRecord) ==> blob.len() < 12 || blob.len()
            > 16384 || blob.take(4) != seq![0x47u8, 0x5au8, 0x4bu8, 0x31u8],
{
    if frame_error(blob) is None {
        record_is_its_parts(blob);
        assert(blob == record(parts_of(blob)));
    }
    if exists|parts: Parts| parts_fit(parts) && blob == #[trigger] record(parts) {
        let parts = choose|parts: Parts| parts_fit(parts) && blob == #[trigger] record(parts);
        record_reads_back(parts);
    }
}

/// A password is released exactly when the cipher opens the record, what it holds ends in a zero byte,
/// and what stands before that is a password; what is released is what the record holds.
pub proof fn a_password_is_released_whole_or_not_at_all(
    parts: Parts,
    binding: Seq<u8>,
    key: Seq<u8>,
)
    ensures
        ({
            let opened = secret::gcm_decrypted(
                key,
                parts.nonce,
                binding,
                parts.ciphertext,
                parts.tag,
            );
            let result = released(parts, binding, key);
            &&& opened is None <==> result == Err::<Seq<u8>, KeyringError>(
                KeyringError::CredentialUnavailable,
            )
            &&& opened matches Some(message) ==> {
                &&& result is Ok <==> message.len() > 0 && message.last() == 0 && password_valid(
                    message.drop_last(),
                )
                &&& result matches Ok(password) ==> password == message
                &&& result == Err::<Seq<u8>, KeyringError>(KeyringError::InvalidTerminator)
                    <==> message.len() == 0 || message.last() != 0
            }
        }),
{
}

/// What was stored for an account is released for it: where the cipher opens what it closed, the
/// password that went in comes out, with its end.
pub proof fn a_stored_password_is_released_again(
    key: Seq<u8>,
    binding: Seq<u8>,
    password: Seq<u8>,
    public: Seq<u8>,
    private: Seq<u8>,
    nonce: Seq<u8>,
)
    requires
        password_valid(password),
        ({
            let (ciphertext, tag) = secret::gcm_encrypted(key, nonce, binding, password.push(0u8));
            secret::gcm_decrypted(key, nonce, binding, ciphertext, tag) == Some(password.push(0u8))
        }),
    ensures
        released(stored(key, binding, password, public, private, nonce), binding, key) == Ok::<
            Seq<u8>,
            KeyringError,
        >(password.push(0u8)),
{
    assert(password.push(0u8).drop_last() =~= password);
}

/// A password can be stored exactly when it is one and the halves of its key have at most 4096 bytes.
pub proof fn storing_fails_for_two_reasons_alone(
    password: Seq<u8>,
    public: Seq<u8>,
    private: Seq<u8>,
)
    ensures
        storing_error(password, public, private) is None <==> password_valid(password)
            && public.len() <= 4096 && private.len() <= 4096,
        storing_error(password, public, private) == Some(KeyringError::InvalidPassword)
            <==> !password_valid(password),
        storing_error(password, public, private) == Some(KeyringError::InvalidSealedKey)
            <==> password_valid(password) && (public.len() > 4096 || private.len() > 4096),
{
}

/// A directory on the way is safe exactly when it is one, is the owner's, and neither the group nor
/// others may write to it. A record is safe exactly when it is a file of its own, is the owner's, and
/// nobody else may do anything with it.
pub proof fn records_are_safe_only_where_the_owner_alone_reaches_them(
    directory: DirectoryFacts,
    file: FileFacts,
    owner: u32,
)
    ensures
        directory_safe(directory, owner) <==> directory.is_dir && directory.uid == owner
            && directory.mode & 0o020 == 0 && directory.mode & 0o002 == 0,
        file_safe(file, owner) <==> file.is_file && file.uid == owner && file.links == 1
            && file.mode & 0o070 == 0 && file.mode & 0o007 == 0,
{
    let d = directory.mode;
    let f = file.mode;
    assert(d & 0o022 == 0 <==> d & 0o020 == 0 && d & 0o002 == 0) by (bit_vector);
    assert(f & 0o077 == 0 <==> f & 0o070 == 0 && f & 0o007 == 0) by (bit_vector);
}

/// The credential directory is accepted exactly when its path is absolute, every directory on the way
/// could be read and is safe, and nobody but the owner may enter it. One unsafe directory anywhere on
/// the way is enough to refuse it.
pub proof fn one_unsafe_directory_spoils_the_way(
    absolute: bool,
    ancestors: Seq<DirectoryFacts>,
    unread: Option<KeyringError>,
    mode: Result<u32, KeyringError>,
    owner: u32,
    i: int,
)
    ensures
        ({
            let error = directory_error(absolute, ancestors, unread, mode, owner);
            let all_safe = forall|i: int|
                0 <= i < ancestors.len() ==> directory_safe(#[trigger] ancestors[i], owner);
            &&& error is None <==> absolute && all_safe && unread is None && (mode matches Ok(mode)
                && mode & 0o077 == 0)
            &&& !absolute ==> error == Some(KeyringError::DirectoryNotAbsolute)
            &&& absolute && 0 <= i < ancestors.len() && !directory_safe(ancestors[i], owner)
                ==> error == Some(KeyringError::UnsafeDirectory)
            &&& absolute && all_safe && unread is Some ==> error == unread
            &&& absolute && all_safe && unread is None ==> (mode matches Err(failed) ==> error
                == Some(failed))
            &&& absolute && all_safe && unread is None ==> (mode matches Ok(bits) ==> (bits & 0o077
                != 0 ==> error == Some(KeyringError::DirectoryNotPrivate)))
        }),
{
}

/// A record lies in its directory under the account's number, and is written there under a hidden
/// name first.
pub proof fn records_lie_under_the_account_s_number(dir: Seq<char>, uid: u32, number: u64)
    requires
        dir.len() > 0,
        dir.last() != '/',
    ensures
        record_name(dir, uid) == dir.push('/') + text::decimal(uid as nat) + ".keyring"@,
        temporary_name(dir, uid, number) == dir.push('/') + ("."@ + text::decimal(uid as nat)
            + "-"@ + text::decimal(number as nat) + ".tmp"@),
{
    let name = text::decimal(uid as nat) + ".keyring"@;
    let hidden = "."@ + text::decimal(uid as nat) + "-"@ + text::decimal(number as nat) + ".tmp"@;
    text::decimals_are_distinct(uid as nat, uid as nat);
    assert(name[0] == text::decimal(uid as nat)[0]);
    reveal_strlit(".");
    assert(hidden[0] == '.');
    paths::a_joined_path_lies_below_its_base(dir, name);
    paths::a_joined_path_lies_below_its_base(dir, hidden);
    assert(dir.push('/') + name =~= dir.push('/') + text::decimal(uid as nat) + ".keyring"@);
}

/// Writing moves on at each success and ends at the first failure, which takes a file that was created
/// away again.
pub proof fn writing_ends_at_the_first_failure(step: WriteStep)
    ensures
        step_after(WriteStep::Create, true) == WriteStep::Write,
        step_after(WriteStep::Write, true) == WriteStep::SyncFile,
        step_after(WriteStep::SyncFile, true) == WriteStep::Rename,
        step_after(WriteStep::Rename, true) == WriteStep::SyncDirectory,
        step_after(WriteStep::SyncDirectory, true) == WriteStep::Stored,
        step_after(WriteStep::Create, false) == WriteStep::Failed,
        step_after(WriteStep::RemoveTemporary, true) == WriteStep::Failed,
        step_after(WriteStep::RemoveTemporary, false) == WriteStep::Failed,
        steps_before(step) >= 1 && steps_before(step) <= 4 ==> step_after(step, false)
            == WriteStep::RemoveTemporary,
{
}

/// Forgetting an account is refused where the account, the store or its directory is; without a store
/// there is nothing to forget; otherwise the account's own record is to go.
pub proof fn forgetting_names_the_account_s_record(
    uid: u32,
    error: KeyringError,
    exists: Result<bool, KeyringError>,
    directory: Result<(), KeyringError>,
)
    ensures
        forget_plan(Err(error), exists, directory) == Err::<Option<Seq<char>>, KeyringError>(error),
        forget_plan(Ok(uid), Err(error), directory) == Err::<Option<Seq<char>>, KeyringError>(
            error,
        ),
        forget_plan(Ok(uid), Ok(false), directory) == Ok::<Option<Seq<char>>, KeyringError>(None),
        forget_plan(Ok(uid), Ok(true), Err(error)) == Err::<Option<Seq<char>>, KeyringError>(error),
        forget_plan(Ok(uid), Ok(true), Ok(())) == Ok::<Option<Seq<char>>, KeyringError>(
            Some(record_name("/var/lib/gaze/keyring"@, uid)),
        ),
        sync_after(Removal::Removed) == Ok::<bool, KeyringError>(true),
        sync_after(Removal::Missing) == Ok::<bool, KeyringError>(false),
        sync_after(Removal::Failed(error)) == Err::<bool, KeyringError>(error),
{
}

/// Enrolling goes on exactly when the account was found, the password is one, and the directory is
/// there and safe; the first of these that fails is the error.
pub proof fn enrolling_goes_on_only_where_nothing_fails(
    account: Account,
    error: KeyringError,
    password: Seq<u8>,
    parent: Result<(), KeyringError>,
    creation: Creation,
    directory: Result<(), KeyringError>,
)
    ensures
        enrollment_error(Err(error), password, parent, creation, directory) == Some(error),
        ({
            let found = enrollment_error(Ok(account), password, parent, creation, directory);
            let valid = password_valid(password);
            &&& found is None <==> valid && parent is Ok && !(creation is Failed) && directory is Ok
            &&& !valid ==> found == Some(KeyringError::InvalidPassword)
            &&& valid ==> (parent matches Err(failed) ==> found == Some(failed))
            &&& valid && parent is Ok ==> (creation matches Creation::Failed(failed) ==> found
                == Some(failed))
            &&& valid && parent is Ok && !(creation is Failed) ==> (directory matches Err(failed)
                ==> found == Some(failed))
        }),
{
}

/// Every failure has words of its own, and one that came from outside keeps its words.
pub proof fn every_failure_has_its_words(at: usize, n: usize, message: String)
    ensures
        error_text(KeyringError::NotRoot) == "keyring setup requires root"@,
        error_text(KeyringError::AccessNotRoot) == "keyring access requires root"@,
        error_text(KeyringError::AccountNotFound) == "account not found"@,
        error_text(KeyringError::RootAccount) == "root keyring enrollment is not supported"@,
        error_text(KeyringError::NoShadowRecord)
            == "a readable shadow password record is required"@,
        error_text(KeyringError::PasswordChangeRequired) == "account requires a password change"@,
        error_text(KeyringError::PasswordLocked) == "account password is empty or locked"@,
        error_text(KeyringError::InvalidPassword)
            == "keyring password must contain 1..=4096 bytes and no NUL"@,
        error_text(KeyringError::InvalidSealedKey) == "invalid sealed key"@,
        error_text(KeyringError::NoRandomNonce) == "random nonce unavailable"@,
        error_text(KeyringError::NoRandomFilename) == "random filename unavailable"@,
        error_text(KeyringError::NoRandomKey) == "random key unavailable"@,
        error_text(KeyringError::EncryptionFailed) == "credential encryption failed"@,
        error_text(KeyringError::InvalidRecord) == "invalid credential record"@,
        error_text(KeyringError::InvalidSealedKeyLength) == "invalid sealed key length"@,
        error_text(KeyringError::InvalidCiphertextLength)
            == "invalid credential ciphertext length"@,
        error_text(KeyringError::CredentialUnavailable)
            == "credential unavailable: account password changed, wrong TPM, or corrupt record"@,
        error_text(KeyringError::InvalidTerminator) == "invalid credential terminator"@,
        error_text(KeyringError::DirectoryNotAbsolute) == "credential directory must be absolute"@,
        error_text(KeyringError::UnsafeDirectory)
            == "credential directory has unsafe ownership, permissions, or a symlink"@,
        error_text(KeyringError::DirectoryNotPrivate) == "credential directory must be private"@,
        error_text(KeyringError::UnsafeRecord)
            == "credential record has unsafe ownership, permissions, or type"@,
        error_text(KeyringError::RecordTooLarge) == "credential record is too large"@,
        error_text(KeyringError::ChangedDuringEnrollment)
            == "account changed during enrollment; retry"@,
        error_text(KeyringError::ChangedDuringUnlock) == "account changed during unlock"@,
        text::ends(error_text(KeyringError::NulInName(at)), text::decimal(at as nat)),
        text::mentions(error_text(KeyringError::UnexpectedKeyLength(n)), text::decimal(n as nat)),
        error_text(KeyringError::Outside(message)) == message@,
{
    let digits = text::decimal(at as nat);
    let nul = error_text(KeyringError::NulInName(at));
    assert(nul.skip(nul.len() - digits.len()) =~= digits);
    let length = error_text(KeyringError::UnexpectedKeyLength(n));
    text::a_mentioned_text_stands_somewhere(length, text::decimal(n as nat));
    assert(length == "unsealed key has unexpected length "@ + text::decimal(n as nat)
        + " (expected 32)"@);
}

} // verus!
