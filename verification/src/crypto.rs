//! AES-256-GCM encryption with PBKDF2-HMAC-SHA256 key derivation.
//!
//! Wire format: `[12-byte nonce][ciphertext+GCM tag]`.
//!
//! The sync code key half (e.g. "A3F9B2" from "ZEN-A3F9B2-abc123") is used
//! as the PBKDF2 password. The app salt prevents rainbow tables across apps.
use vstd::prelude::*;

use aes_gcm::aead::{Aead, KeyInit};

verus! {

/// The PBKDF2 salt shared by every installation.
pub const APP_SALT: &'static str = "zync-zen-sync-v1-salt";

/// PBKDF2 iterations.
pub const PBKDF2_ROUNDS: u32 = 100_000;

/// Bytes of nonce in front of every payload.
pub const NONCE_LEN: usize = 12;

/// Bytes of AES-256 key.
pub const KEY_LEN: usize = 32;

/// Bytes of GCM tag after the ciphertext.
pub const TAG_LEN: usize = 16;

/// The longest plaintext that AES-GCM accepts (2^36 bytes).
pub const MAX_PLAINTEXT_LEN: u64 = 0x10_0000_0000;

/// The 32-byte output of PBKDF2-HMAC-SHA256 on these arguments.
pub uninterp spec fn pbkdf2_hmac_sha256_32(password: Seq<u8>, salt: Seq<u8>, rounds: u32) -> Seq<
    u8,
>;

/// The AES-256-GCM ciphertext and tag of `plaintext` under `key` and
/// `nonce`, with no associated data.
pub uninterp spec fn aes256gcm_seal(key: Seq<u8>, nonce: Seq<u8>, plaintext: Seq<u8>) -> Seq<u8>;

/// The AES-256-GCM opening of `ciphertext` (ciphertext and tag) under
/// `key` and `nonce`, with no associated data: the plaintext when the tag
/// checks, `None` otherwise.
pub uninterp spec fn aes256gcm_open(key: Seq<u8>, nonce: Seq<u8>, ciphertext: Seq<u8>) -> Option<
    Seq<u8>,
>;

/// `pbkdf2::pbkdf2_hmac::<sha2::Sha256>` into a 32-byte buffer. Claimed:
/// the key is the named PBKDF2 output, 32 bytes long.
#[verifier::external_body]
fn pbkdf2_sha256_key(password: &[u8], salt: &[u8], rounds: u32) -> (key: Vec<u8>)
    ensures
        key@ == pbkdf2_hmac_sha256_32(password@, salt@, rounds),
        key@.len() == KEY_LEN,
{
    let mut key = vec![0u8; KEY_LEN];
    pbkdf2::pbkdf2_hmac::<sha2::Sha256>(password, salt, rounds, &mut key);
    key
}

/// `rand::RngCore::fill_bytes` on `rand::thread_rng()` for a 12-byte nonce.
/// Claimed: only the length; the bytes are random.
#[verifier::external_body]
fn random_nonce() -> (nonce: Vec<u8>)
    ensures
        nonce@.len() == NONCE_LEN,
{
    let mut nonce = vec![0u8; NONCE_LEN];
    rand::RngCore::fill_bytes(&mut rand::thread_rng(), &mut nonce);
    nonce
}

/// `aes_gcm::Aes256Gcm::encrypt` with no associated data. Claimed, from the
/// aead/aes-gcm source: it fails exactly when the plaintext is longer than
/// 2^36 bytes; otherwise the output is the named ciphertext, 16 bytes longer
/// than the plaintext, and opening it with the same key and nonce gives the
/// plaintext back. The error holds the crate's error text.
#[verifier::external_body]
fn aes256gcm_encrypt(key: &[u8], nonce: &[u8], plaintext: &[u8]) -> (r: Result<Vec<u8>, String>)
    requires
        key@.len() == KEY_LEN,
        nonce@.len() == NONCE_LEN,
    ensures
        r is Ok <==> plaintext@.len() <= MAX_PLAINTEXT_LEN,
        r matches Ok(c) ==> {
            &&& c@ == aes256gcm_seal(key@, nonce@, plaintext@)
            &&& c@.len() == plaintext@.len() + TAG_LEN
            &&& aes256gcm_open(key@, nonce@, c@) == Some(plaintext@)
        },
{
    let cipher = aes_gcm::Aes256Gcm::new(aes_gcm::Key::<aes_gcm::Aes256Gcm>::from_slice(key));
    match cipher.encrypt(generic_array::GenericArray::from_slice(nonce), plaintext) {
        Ok(c) => Ok(c),
        Err(e) => Err(e.to_string()),
    }
}

/// `aes_gcm::Aes256Gcm::decrypt` with no associated data. Claimed: the
/// result is the named opening.
#[verifier::external_body]
fn aes256gcm_decrypt(key: &[u8], nonce: &[u8], ciphertext: &[u8]) -> (r: Option<Vec<u8>>)
    requires
        key@.len() == KEY_LEN,
        nonce@.len() == NONCE_LEN,
    ensures
        r is Some <==> aes256gcm_open(key@, nonce@, ciphertext@) is Some,
        r matches Some(p) ==> aes256gcm_open(key@, nonce@, ciphertext@) == Some(p@),
{
    let cipher = aes_gcm::Aes256Gcm::new(aes_gcm::Key::<aes_gcm::Aes256Gcm>::from_slice(key));
    match cipher.decrypt(generic_array::GenericArray::from_slice(nonce), ciphertext) {
        Ok(p) => Some(p),
        Err(_) => None,
    }
}

/// The salt bytes.
pub open spec fn app_salt() -> Seq<u8> {
    vstd::utf8::encode_utf8(APP_SALT@)
}

/// The AES key that a sync-code key half stands for: PBKDF2-HMAC-SHA256
/// of its UTF-8 bytes under the app salt, 100 000 rounds.
pub open spec fn derived_key(key_hex: Seq<char>) -> Seq<u8> {
    pbkdf2_hmac_sha256_32(vstd::utf8::encode_utf8(key_hex), app_salt(), PBKDF2_ROUNDS)
}

/// The AES key of a sync code is PBKDF2-HMAC-SHA256 with the code's key
/// half (its UTF-8 bytes) as the password, the app salt
/// "zync-zen-sync-v1-salt" as the salt, and 100 000 rounds.
pub proof fn lemma_key_is_pbkdf2_of_key_text(key_hex: Seq<char>)
    ensures
        derived_key(key_hex) == pbkdf2_hmac_sha256_32(
            vstd::utf8::encode_utf8(key_hex),
            vstd::utf8::encode_utf8("zync-zen-sync-v1-salt"@),
            100000,
        ),
{
}

/// What `decrypt` recovers from a payload: the opening of everything after
/// the 12-byte nonce, under the derived key and that nonce; nothing when
/// the payload is shorter than a nonce.
pub open spec fn open_payload(data: Seq<u8>, key_hex: Seq<char>) -> Option<Seq<u8>> {
    if data.len() < NONCE_LEN {
        None
    } else {
        aes256gcm_open(derived_key(key_hex), data.take(NONCE_LEN as int), data.skip(NONCE_LEN as int))
    }
}

/// The 32-byte AES key for a sync-code key half.
pub fn derive_key(key_hex: &str) -> (key: Vec<u8>)
    ensures
        key@ == derived_key(key_hex@),
        key@ == pbkdf2_hmac_sha256_32(
            vstd::utf8::encode_utf8(key_hex@),
            vstd::utf8::encode_utf8("zync-zen-sync-v1-salt"@),
            100000,
        ),
        key@.len() == KEY_LEN,
{
    proof {
        lemma_key_is_pbkdf2_of_key_text(key_hex@);
    }
    pbkdf2_sha256_key(key_hex.as_bytes(), APP_SALT.as_bytes(), PBKDF2_ROUNDS)
}

/// Encrypt `data` using AES-256-GCM. Returns `[nonce (12 B) || ciphertext+tag]`.
///
/// Fails only for data longer than AES-GCM takes (2^36 bytes). Whatever
/// random nonce was drawn, `decrypt` with the same key gives `data` back.
pub fn encrypt(data: &[u8], key_hex: &str) -> (r: Result<Vec<u8>, String>)
    ensures
        r is Ok <==> data@.len() <= MAX_PLAINTEXT_LEN,
        r matches Ok(out) ==> {
            &&& out@.len() == NONCE_LEN + data@.len() + TAG_LEN
            &&& out@.skip(NONCE_LEN as int) == aes256gcm_seal(
                derived_key(key_hex@),
                out@.take(NONCE_LEN as int),
                data@,
            )
            &&& open_payload(out@, key_hex@) == Some(data@)
        },
        r matches Err(m) ==> crate::text::starts_with(m@, "Encryption error: "@),
{
    let key_bytes = derive_key(key_hex);
    let nonce_bytes = random_nonce();
    let ciphertext = match aes256gcm_encrypt(key_bytes.as_slice(), nonce_bytes.as_slice(), data) {
        Ok(c) => c,
        Err(e) => {
            let mut msg = String::new();
            crate::text::push_str(&mut msg, "Encryption error: ");
            let ghost head = msg@;
            crate::text::push_str(&mut msg, e.as_str());
            assert(msg@.take(head.len() as int) =~= head);
            return Err(msg);
        },
    };
    let mut out = nonce_bytes;
    let ghost nonce = out@;
    let mut i: usize = 0;
    while i < ciphertext.len()
        invariant
            i <= ciphertext@.len(),
            out@ == nonce + ciphertext@.take(i as int),
        decreases ciphertext@.len() - i,
    {
        out.push(ciphertext[i]);
        assert(ciphertext@.take(i + 1) == ciphertext@.take(i as int).push(ciphertext@[i as int]));
        i = i + 1;
    }
    assert(ciphertext@.take(ciphertext@.len() as int) == ciphertext@);
    assert(out@.take(NONCE_LEN as int) =~= nonce);
    assert(out@.skip(NONCE_LEN as int) =~= ciphertext@);
    Ok(out)
}

/// Decrypt data produced by `encrypt`. Expects `[nonce (12 B) || ciphertext+tag]`.
///
/// Fails when the payload is shorter than a nonce, and when the tag does
/// not check (wrong key or altered payload).
pub fn decrypt(data: &[u8], key_hex: &str) -> (r: Result<Vec<u8>, String>)
    ensures
        r is Ok <==> open_payload(data@, key_hex@) is Some,
        r matches Ok(p) ==> open_payload(data@, key_hex@) == Some(p@),
        data@.len() < NONCE_LEN ==> (r matches Err(m) && m@
            == "Payload too short — not a valid Zync bundle"@),
        data@.len() >= NONCE_LEN && open_payload(data@, key_hex@) is None ==> (r matches Err(m)
            && m@ == "Decryption failed — wrong sync code or corrupted bundle"@),
{
    if data.len() < NONCE_LEN {
        let mut msg = String::new();
        crate::text::push_str(&mut msg, "Payload too short — not a valid Zync bundle");
        return Err(msg);
    }
    let (nonce_bytes, ciphertext) = data.split_at(NONCE_LEN);
    let key_bytes = derive_key(key_hex);
    match aes256gcm_decrypt(key_bytes.as_slice(), nonce_bytes, ciphertext) {
        Some(p) => Ok(p),
        None => {
            let mut msg = String::new();
            crate::text::push_str(&mut msg, "Decryption failed — wrong sync code or corrupted bundle");
            Err(msg)
        },
    }
}

} // verus!
