//! The stored form of the OBS password: `enc:` followed by the Base64 of
//! salt, nonce and AES-256-GCM ciphertext, under a key derived from the
//! machine's host and user names.

use vstd::prelude::*;
use vstd::utf8::{decode_utf8, encode_utf8, valid_utf8};
use crate::text::{has_prefix, starts_with_text};
use aes_gcm::aead::{Aead, KeyInit};
use base64::Engine;
use sha2::Digest;
use rand::RngCore;

verus! {

broadcast use {
    vstd::seq_lib::group_seq_properties,
    vstd::utf8::group_utf8_lib,
    vstd::string::group_string_axioms,
};

/// Bytes of salt at the head of the payload.
pub const SALT_LEN: usize = 16;

/// Bytes of nonce after the salt.
pub const NONCE_LEN: usize = 12;

/// Rounds of the key derivation.
pub const PBKDF2_ITERATIONS: u32 = 100_000;

/// The SHA-256 digest of `data`, as `sha2::Sha256` computes it.
pub uninterp spec fn sha256_digest(data: Seq<u8>) -> Seq<u8>;

/// The AES-256-GCM ciphertext with its 16-byte tag appended, as
/// `aes_gcm::Aes256Gcm` seals `plaintext`, or `None` where it refuses.
pub uninterp spec fn aes256gcm_seal(key: Seq<u8>, nonce: Seq<u8>, plaintext: Seq<u8>) -> Option<Seq<u8>>;

/// The plaintext that `aes_gcm::Aes256Gcm` recovers from `ciphertext`, or
/// `None` where the tag does not match.
pub uninterp spec fn aes256gcm_open(key: Seq<u8>, nonce: Seq<u8>, ciphertext: Seq<u8>) -> Option<Seq<u8>>;

/// The standard padded Base64 text of `bytes`.
pub uninterp spec fn base64_encode(bytes: Seq<u8>) -> Seq<char>;

/// The bytes that the standard padded Base64 decoder reads from `text`, or
/// `None` where `text` is not such Base64.
pub uninterp spec fn base64_decode(text: Seq<char>) -> Option<Seq<u8>>;

/// `sha2::Sha256::digest`: the 32-byte SHA-256 digest of `data`.
#[verifier::external_body]
fn sha256(data: &[u8]) -> (r: Vec<u8>)
    ensures
        r@ == sha256_digest(data@),
        r@.len() == 32,
{
    sha2::Sha256::digest(data).to_vec()
}

/// `Aead::encrypt` of `aes_gcm::Aes256Gcm` under `key`: the ciphertext with
/// its 16-byte tag appended. The crate refuses plaintexts over 2^36 bytes,
/// and decrypting what it sealed under the same key and nonce gives the
/// plaintext back.
#[verifier::external_body]
fn aes256gcm_encrypt(key: &[u8], nonce: &[u8], plaintext: &[u8]) -> (r: Option<Vec<u8>>)
    requires
        key@.len() == 32,
        nonce@.len() == NONCE_LEN,
    ensures
        match r {
            Some(c) => aes256gcm_seal(key@, nonce@, plaintext@) == Some(c@)
                && c@.len() == plaintext@.len() + 16
                && aes256gcm_open(key@, nonce@, c@) == Some(plaintext@),
            None => aes256gcm_seal(key@, nonce@, plaintext@) is None
                && plaintext@.len() > 0x1_0000_0000_0,
        },
{
    let cipher = aes_gcm::Aes256Gcm::new(aes_gcm::Key::<aes_gcm::Aes256Gcm>::from_slice(key));
    cipher.encrypt(aes_gcm::Nonce::from_slice(nonce), plaintext).ok()
}

/// `Aead::decrypt` of `aes_gcm::Aes256Gcm` under `key`: the plaintext, or
/// `None` where the ciphertext is shorter than its tag or the tag does not
/// match.
#[verifier::external_body]
fn aes256gcm_decrypt(key: &[u8], nonce: &[u8], ciphertext: &[u8]) -> (r: Option<Vec<u8>>)
    requires
        key@.len() == 32,
        nonce@.len() == NONCE_LEN,
    ensures
        match r {
            Some(p) => aes256gcm_open(key@, nonce@, ciphertext@) == Some(p@),
            None => aes256gcm_open(key@, nonce@, ciphertext@) is None,
        },
{
    let cipher = aes_gcm::Aes256Gcm::new(aes_gcm::Key::<aes_gcm::Aes256Gcm>::from_slice(key));
    cipher.decrypt(aes_gcm::Nonce::from_slice(nonce), ciphertext).ok()
}

/// `Engine::encode` of `base64::engine::general_purpose::STANDARD`; its
/// decoder reads the bytes back from the text.
#[verifier::external_body]
fn base64_encode_bytes(bytes: &[u8]) -> (r: String)
    requires
        bytes@.len() <= usize::MAX / 2,
    ensures
        r@ == base64_encode(bytes@),
        base64_decode(r@) == Some(bytes@),
{
    base64::engine::general_purpose::STANDARD.encode(bytes)
}

/// `Engine::decode` of `base64::engine::general_purpose::STANDARD`.
#[verifier::external_body]
fn base64_decode_text(text: &str) -> (r: Option<Vec<u8>>)
    ensures
        match r {
            Some(b) => base64_decode(text@) == Some(b@),
            None => base64_decode(text@) is None,
        },
{
    base64::engine::general_purpose::STANDARD.decode(text).ok()
}

/// `RngCore::try_fill_bytes` of the operating system's generator
/// (`aes_gcm::aead::OsRng`): `n` random bytes, or `None` where the generator
/// fails. Nothing is said of the bytes but their number.
#[verifier::external_body]
fn random_bytes(n: usize) -> (r: Option<Vec<u8>>)
    ensures
        r matches Some(b) ==> b@.len() == n,
{
    let mut buf = vec![0u8; n];
    match aes_gcm::aead::OsRng.try_fill_bytes(&mut buf) {
        Ok(()) => Some(buf),
        Err(_) => None,
    }
}

/// `String::from_utf8`: the text that the bytes encode, or `None` where they
/// are not UTF-8.
#[verifier::external_body]
fn string_from_utf8(bytes: Vec<u8>) -> (r: Option<String>)
    ensures
        match r {
            Some(s) => valid_utf8(bytes@) && s@ == decode_utf8(bytes@),
            None => !valid_utf8(bytes@),
        },
{
    String::from_utf8(bytes).ok()
}

/// The four little-endian bytes of `i`.
pub open spec fn le_bytes(i: u32) -> Seq<u8> {
    seq![(i % 256) as u8, ((i / 256) % 256) as u8, ((i / 65536) % 256) as u8, (i / 16777216) as u8]
}

/// `a` with `b` xor-ed into its first bytes.
pub open spec fn xor_bytes(a: Seq<u8>, b: Seq<u8>) -> Seq<u8> {
    Seq::new(a.len(), |k: int| if k < b.len() { a[k] ^ b[k] } else { a[k] })
}

/// The digest of round `n` of the key derivation: round 0 hashes password
/// and salt, round `n` hashes the previous digest, the salt and `n`.
pub open spec fn digest_chain(password: Seq<u8>, salt: Seq<u8>, n: nat) -> Seq<u8>
    decreases n,
{
    if n == 0 {
        sha256_digest(password + salt)
    } else {
        sha256_digest(digest_chain(password, salt, (n - 1) as nat) + salt + le_bytes(n as u32))
    }
}

/// The key after rounds 1 to `n`: 32 zero bytes with each round's digest
/// xor-ed in.
pub open spec fn key_after(password: Seq<u8>, salt: Seq<u8>, n: nat) -> Seq<u8>
    decreases n,
{
    if n == 0 {
        Seq::new(32, |k: int| 0u8)
    } else {
        xor_bytes(key_after(password, salt, (n - 1) as nat), digest_chain(password, salt, n))
    }
}

/// The 32-byte key that `password` and `salt` give.
pub open spec fn derived_key(password: Seq<u8>, salt: Seq<u8>) -> Seq<u8> {
    key_after(password, salt, (PBKDF2_ITERATIONS - 1) as nat)
}

fn concat_bytes(a: &[u8], b: &[u8]) -> (r: Vec<u8>)
    ensures
        r@ == a@ + b@,
{
    let mut r: Vec<u8> = Vec::new();
    let mut i: usize = 0;
    while i < a.len()
        invariant
            i <= a@.len(),
            r@ == a@.subrange(0, i as int),
        decreases a@.len() - i,
    {
        r.push(a[i]);
        i = i + 1;
    }
    let mut j: usize = 0;
    while j < b.len()
        invariant
            j <= b@.len(),
            r@ == a@ + b@.subrange(0, j as int),
        decreases b@.len() - j,
    {
        r.push(b[j]);
        j = j + 1;
    }
    assert(b@.subrange(0, b@.len() as int) == b@);
    assert(a@.subrange(0, a@.len() as int) == a@);
    r
}

fn u32_le_bytes(i: u32) -> (r: Vec<u8>)
    ensures
        r@ == le_bytes(i),
{
    let mut r: Vec<u8> = Vec::new();
    r.push((i % 256) as u8);
    r.push(((i / 256) % 256) as u8);
    r.push(((i / 65536) % 256) as u8);
    r.push((i / 16777216) as u8);
    r
}

/// The key for `password` and `salt`: SHA-256 of both, then
/// `PBKDF2_ITERATIONS - 1` further rounds of hashing digest, salt and round
/// number, each round's digest xor-ed into a key that starts at zero.
fn derive_key(password: &[u8], salt: &[u8]) -> (key: Vec<u8>)
    ensures
        key@ == derived_key(password@, salt@),
        key@.len() == 32,
{
    let mut key: Vec<u8> = Vec::new();
    while key.len() < 32
        invariant
            key@.len() <= 32,
            forall|k: int| 0 <= k < key@.len() ==> key@[k] == 0u8,
        decreases 32 - key@.len(),
    {
        key.push(0u8);
    }
    assert(key@ == key_after(password@, salt@, 0));
    let base_input = concat_bytes(password, salt);
    let mut current = sha256(&base_input);
    let mut i: u32 = 1;
    while i < PBKDF2_ITERATIONS
        invariant
            1 <= i <= PBKDF2_ITERATIONS,
            current@ == digest_chain(password@, salt@, (i - 1) as nat),
            current@.len() == 32,
            key@ == key_after(password@, salt@, (i - 1) as nat),
            key@.len() == 32,
        decreases PBKDF2_ITERATIONS - i,
    {
        let with_salt = concat_bytes(&current, salt);
        let counter = u32_le_bytes(i);
        let input = concat_bytes(&with_salt, &counter);
        current = sha256(&input);
        let ghost before = key@;
        let mut k: usize = 0;
        while k < 32
            invariant
                key@.len() == 32,
                current@.len() == 32,
                k <= 32,
                forall|j: int| 0 <= j < k ==> key@[j] == before[j] ^ current@[j],
                forall|j: int| k <= j < 32 ==> key@[j] == before[j],
            decreases 32 - k,
        {
            let b = key[k] ^ current[k];
            key.set(k, b);
            k = k + 1;
        }
        proof {
            assert(key@ =~= xor_bytes(before, current@));
        }
        i = i + 1;
    }
    key
}

/// Whether `value` is in the stored, encrypted form.
pub open spec fn is_encrypted_spec(value: Seq<char>) -> bool {
    has_prefix(value, "enc:"@)
}

/// Whether `value` is in the stored, encrypted form (starts with `enc:`).
pub fn is_encrypted(value: &str) -> (r: bool)
    ensures
        r == is_encrypted_spec(value@),
{
    starts_with_text(value, "enc:")
}

/// The text from which the key is derived: host name and user name, each
/// taken from the first variable present, with fallbacks.
pub open spec fn key_material_spec(
    hostname: Option<Seq<char>>,
    computername: Option<Seq<char>>,
    user: Option<Seq<char>>,
    username: Option<Seq<char>>,
) -> Seq<char> {
    let host = match hostname {
        Some(h) => h,
        None => match computername {
            Some(c) => c,
            None => "default-host"@,
        },
    };
    let who = match user {
        Some(u) => u,
        None => match username {
            Some(u) => u,
            None => "default-user"@,
        },
    };
    host + ":"@ + who
}

pub open spec fn opt_view(o: Option<String>) -> Option<Seq<char>> {
    match o {
        Some(s) => Some(s@),
        None => None,
    }
}

/// The machine's key material, `host:user`, from the values of the
/// environment variables `HOSTNAME`, `COMPUTERNAME`, `USER` and `USERNAME`
/// (`None` where unset).
pub fn machine_key_material(
    hostname: Option<String>,
    computername: Option<String>,
    user: Option<String>,
    username: Option<String>,
) -> (r: String)
    ensures
        r@ == key_material_spec(opt_view(hostname), opt_view(computername), opt_view(user), opt_view(username)),
{
    let host = match hostname {
        Some(h) => h,
        None => match computername {
            Some(c) => c,
            None => "default-host".to_owned(),
        },
    };
    let who = match user {
        Some(u) => u,
        None => match username {
            Some(u) => u,
            None => "default-user".to_owned(),
        },
    };
    let mut r = host;
    r.append(":");
    r.append(who.as_str());
    r
}

/// Why a password could not be encrypted or decrypted.
#[derive(Debug, Clone, Copy, PartialEq, Eq, Structural)]
pub enum CryptoError {
    /// The operating system gave no random bytes.
    RandomUnavailable,
    /// The cipher refused the plaintext.
    EncryptionFailed,
    /// The text after `enc:` is not Base64.
    InvalidBase64,
    /// The payload is too short to hold salt, nonce and ciphertext.
    PayloadTooShort,
    /// The key is wrong or the data are corrupt.
    DecryptionFailed,
    /// The decrypted bytes are not UTF-8.
    InvalidUtf8,
}

/// The stored form of `plaintext` under `key_material`, with the given salt
/// and nonce; an error where the cipher refuses the plaintext (over 2^36
/// bytes) or where the payload would be too long to encode on this machine
/// (which cannot happen where `usize` has 64 bits).
pub open spec fn encrypt_spec(plaintext: Seq<char>, key_material: Seq<char>, salt: Seq<u8>, nonce: Seq<u8>) -> Result<Seq<char>, CryptoError> {
    let key = derived_key(encode_utf8(key_material), salt);
    match aes256gcm_seal(key, nonce, encode_utf8(plaintext)) {
        None => Err(CryptoError::EncryptionFailed),
        Some(c) => if c.len() + SALT_LEN + NONCE_LEN > usize::MAX / 2 {
            Err(CryptoError::EncryptionFailed)
        } else {
            Ok("enc:"@ + base64_encode(salt + nonce + c))
        },
    }
}

/// What reading the stored form `stored` under `key_material` gives.
pub open spec fn decrypt_spec(stored: Seq<char>, key_material: Seq<char>) -> Result<Seq<char>, CryptoError> {
    if !is_encrypted_spec(stored) {
        Ok(stored)
    } else {
        match base64_decode(stored.skip("enc:"@.len() as int)) {
            None => Err(CryptoError::InvalidBase64),
            Some(p) => if p.len() < SALT_LEN + NONCE_LEN + 1 {
                Err(CryptoError::PayloadTooShort)
            } else {
                let key = derived_key(encode_utf8(key_material), p.take(SALT_LEN as int));
                match aes256gcm_open(key, p.subrange(SALT_LEN as int, (SALT_LEN + NONCE_LEN) as int), p.skip((SALT_LEN + NONCE_LEN) as int)) {
                    None => Err(CryptoError::DecryptionFailed),
                    Some(t) => if valid_utf8(t) {
                        Ok(decode_utf8(t))
                    } else {
                        Err(CryptoError::InvalidUtf8)
                    },
                }
            },
        }
    }
}

/// The stored text `s` holds, after `enc:`, the Base64 of a payload of
/// salt `salt`, nonce `nonce` and a ciphertext 16 bytes longer than the
/// `n` bytes of the plaintext.
pub open spec fn payload_of(s: Seq<char>, salt: Seq<u8>, nonce: Seq<u8>, n: nat) -> bool {
    base64_decode(s.skip(4)) matches Some(p)
        && p.len() == SALT_LEN + NONCE_LEN + n + 16
        && p.take(SALT_LEN as int) == salt
        && p.subrange(SALT_LEN as int, (SALT_LEN + NONCE_LEN) as int) == nonce
}

pub open spec fn string_result_view(r: Result<String, CryptoError>) -> Result<Seq<char>, CryptoError> {
    match r {
        Ok(s) => Ok(s@),
        Err(e) => Err(e),
    }
}

/// The stored form of `plaintext` under `key_material`, with the given
/// salt and nonce.
pub fn encrypt_password_with(plaintext: &str, key_material: &str, salt: &[u8], nonce: &[u8]) -> (r: Result<String, CryptoError>)
    requires
        salt@.len() == SALT_LEN,
        nonce@.len() == NONCE_LEN,
    ensures
        string_result_view(r) == encrypt_spec(plaintext@, key_material@, salt@, nonce@),
        r matches Ok(s) ==> decrypt_spec(s@, key_material@) == Ok::<Seq<char>, CryptoError>(plaintext@),
        encode_utf8(plaintext@).len() <= 0x10_0000_0000
            && encode_utf8(plaintext@).len() + 16 + SALT_LEN + NONCE_LEN <= usize::MAX / 2 ==> r is Ok,
        r matches Ok(s) ==> payload_of(s@, salt@, nonce@, encode_utf8(plaintext@).len()),
{
    let key = derive_key(key_material.as_bytes(), salt);
    let pt = plaintext.as_bytes();
    let ciphertext = match aes256gcm_encrypt(&key, nonce, pt) {
        Some(c) => c,
        None => return Err(CryptoError::EncryptionFailed),
    };
    if ciphertext.len() > usize::MAX / 2 - SALT_LEN - NONCE_LEN {
        return Err(CryptoError::EncryptionFailed);
    }
    let head = concat_bytes(salt, nonce);
    let payload = concat_bytes(&head, &ciphertext);
    let encoded = base64_encode_bytes(&payload);
    let mut out = "enc:".to_owned();
    out.append(encoded.as_str());
    proof {
        let p = payload@;
        assert(p.take(SALT_LEN as int) == salt@);
        assert(p.subrange(SALT_LEN as int, (SALT_LEN + NONCE_LEN) as int) == nonce@);
        assert(p.skip((SALT_LEN + NONCE_LEN) as int) == ciphertext@);
        assert(has_prefix(out@, "enc:"@)) by {
            assert(out@.subrange(0, "enc:"@.len() as int) == "enc:"@);
        }
        assert(out@.skip("enc:"@.len() as int) == encoded@);
        vstd::utf8::encode_utf8_decode_utf8(plaintext@);
        reveal_strlit("enc:");
        assert(out@.skip(4) == encoded@);
        assert(base64_decode(out@.skip(4)) == Some(p));
        assert(p.len() == SALT_LEN + NONCE_LEN + encode_utf8(plaintext@).len() + 16);
        assert(payload_of(out@, salt@, nonce@, encode_utf8(plaintext@).len()));
    }
    Ok(out)
}

/// The stored form of `plaintext` under `key_material`, with fresh random
/// salt and nonce.
pub fn encrypt_password(plaintext: &str, key_material: &str) -> (r: Result<String, CryptoError>)
    ensures
        r matches Ok(s) ==> is_encrypted_spec(s@)
            && decrypt_spec(s@, key_material@) == Ok::<Seq<char>, CryptoError>(plaintext@)
            && exists|salt: Seq<u8>, nonce: Seq<u8>| salt.len() == SALT_LEN && nonce.len() == NONCE_LEN
                && encrypt_spec(plaintext@, key_material@, salt, nonce) == Ok::<Seq<char>, CryptoError>(s@),
        r matches Err(e) ==> e == CryptoError::RandomUnavailable || e == CryptoError::EncryptionFailed,
        r matches Ok(s) ==> exists|salt: Seq<u8>, nonce: Seq<u8>| #[trigger] payload_of(s@, salt, nonce, encode_utf8(plaintext@).len()),
        r matches Err(CryptoError::EncryptionFailed) ==> encode_utf8(plaintext@).len() > 0x10_0000_0000
            || encode_utf8(plaintext@).len() + 16 + SALT_LEN + NONCE_LEN > usize::MAX / 2,
{
    let salt = match random_bytes(SALT_LEN) {
        Some(b) => b,
        None => return Err(CryptoError::RandomUnavailable),
    };
    let nonce = match random_bytes(NONCE_LEN) {
        Some(b) => b,
        None => return Err(CryptoError::RandomUnavailable),
    };
    let r = encrypt_password_with(plaintext, key_material, &salt, &nonce);
    proof {
        if let Ok(ref s) = r {
            assert(has_prefix(s@, "enc:"@)) by {
                assert(s@.subrange(0, "enc:"@.len() as int) == "enc:"@);
            }
        }
    }
    r
}

/// The password that the stored form `stored` holds under `key_material`;
/// a value without the `enc:` prefix is taken as the password itself.
pub fn decrypt_password(stored: &str, key_material: &str) -> (r: Result<String, CryptoError>)
    ensures
        string_result_view(r) == decrypt_spec(stored@, key_material@),
{
    if !is_encrypted(stored) {
        return Ok(stored.to_owned());
    }
    let prefix_len = "enc:".unicode_len();
    let encoded = stored.substring_char(prefix_len, stored.unicode_len());
    assert(encoded@ == stored@.skip("enc:"@.len() as int));
    let mut payload = match base64_decode_text(encoded) {
        Some(p) => p,
        None => return Err(CryptoError::InvalidBase64),
    };
    if payload.len() < SALT_LEN + NONCE_LEN + 1 {
        return Err(CryptoError::PayloadTooShort);
    }
    let ghost p = payload@;
    let mut nonce = payload.split_off(SALT_LEN);
    let ciphertext = nonce.split_off(NONCE_LEN);
    let salt = payload;
    assert(salt@ == p.take(SALT_LEN as int));
    assert(nonce@ == p.subrange(SALT_LEN as int, (SALT_LEN + NONCE_LEN) as int));
    assert(ciphertext@ == p.skip((SALT_LEN + NONCE_LEN) as int));
    let key = derive_key(key_material.as_bytes(), &salt);
    let plain = match aes256gcm_decrypt(&key, &nonce, &ciphertext) {
        Some(t) => t,
        None => return Err(CryptoError::DecryptionFailed),
    };
    match string_from_utf8(plain) {
        Some(s) => Ok(s),
        None => Err(CryptoError::InvalidUtf8),
    }
}

/// The key derivation, round by round: round 0 hashes the password and
/// the salt; each round `n` from 1 on hashes the previous round's digest,
/// the salt and the four bytes of `n`, least significant first; and the key
/// is 32 zero bytes with the digests of rounds 1 to 99 999 xor-ed in, one
/// after another. Leaving the round number out of a round, or reordering
/// what it hashes, gives another key.
pub proof fn lemma_key_derivation_rounds(password: Seq<u8>, salt: Seq<u8>, n: nat)
    requires
        1 <= n < PBKDF2_ITERATIONS,
    ensures
        digest_chain(password, salt, 0) == sha256_digest(password + salt),
        digest_chain(password, salt, n) == sha256_digest(
            digest_chain(password, salt, (n - 1) as nat) + salt + seq![
                (n % 256) as u8,
                ((n / 256) % 256) as u8,
                ((n / 65536) % 256) as u8,
                ((n / 16777216) % 256) as u8,
            ],
        ),
        key_after(password, salt, 0) == Seq::new(32, |k: int| 0u8),
        key_after(password, salt, n) == Seq::new(32, |k: int|
            if k < digest_chain(password, salt, n).len() {
                key_after(password, salt, (n - 1) as nat)[k] ^ digest_chain(password, salt, n)[k]
            } else {
                key_after(password, salt, (n - 1) as nat)[k]
            }),
        derived_key(password, salt) == key_after(password, salt, 99_999),
{
    lemma_key_after_len(password, salt, (n - 1) as nat);
    assert(le_bytes(n as u32) =~= seq![
        (n % 256) as u8,
        ((n / 256) % 256) as u8,
        ((n / 65536) % 256) as u8,
        ((n / 16777216) % 256) as u8,
    ]);
}

proof fn lemma_key_after_len(password: Seq<u8>, salt: Seq<u8>, n: nat)
    ensures
        key_after(password, salt, n).len() == 32,
    decreases n,
{
    if n > 0 {
        lemma_key_after_len(password, salt, (n - 1) as nat);
    }
}

} // verus!
