//! Credential codec: authenticated encryption of account secrets with
//! backward-compatible textual envelopes.
//!
//! Three envelope forms are in use. The current form carries a fresh random
//! nonce inline (`ag_enc_v2_` + base64(nonce || ciphertext)); the older form
//! (`ag_enc_` + base64(ciphertext)) and bare base64 ciphertext both use a
//! fixed nonce. The key is derived from a stable device identifier, so a
//! device change makes old envelopes unreadable; the deserialization path
//! therefore falls back to returning its input unchanged instead of failing.

use vstd::prelude::*;

use crate::text::{seq_starts_with, str_starts_with};
use aes_gcm::aead::{Aead, KeyInit, OsRng};
use aes_gcm::{AeadCore, Aes256Gcm, Nonce};
use base64::Engine;
use sha2::Digest;

verus! {

/// What `aes_gcm::Aes256Gcm::encrypt` returns for a key, nonce and the UTF-8
/// bytes of a plaintext: a function of its arguments alone.
pub uninterp spec fn aead_seal(key: Seq<u8>, nonce: Seq<u8>, plaintext: Seq<char>) -> Seq<u8>;

/// What `aes_gcm::Aes256Gcm::decrypt` followed by UTF-8 decoding yields for a
/// key, nonce and ciphertext: the recovered text, or nothing when
/// authentication or UTF-8 decoding fails. A function of its arguments alone.
pub uninterp spec fn aead_open(key: Seq<u8>, nonce: Seq<u8>, ciphertext: Seq<u8>) -> Option<
    Seq<char>,
>;

/// What `base64::engine::general_purpose::STANDARD.encode` returns.
pub uninterp spec fn b64_of(data: Seq<u8>) -> Seq<char>;

/// What `base64::engine::general_purpose::STANDARD.decode` returns: the
/// decoded bytes, or nothing for text that is not valid base64.
pub uninterp spec fn b64_decode_of(text: Seq<char>) -> Option<Seq<u8>>;

/// What `sha2::Sha256` digests the UTF-8 bytes of a string to.
pub uninterp spec fn sha256_of(text: Seq<char>) -> Seq<u8>;

/// Longest text whose sealing is guaranteed to succeed: the cipher takes up
/// to 2^36 plaintext bytes and a character is at most four UTF-8 bytes.
pub const MAX_SEALED_TEXT_LEN: u64 = 0x400000000;

/// Relies on `machine_uid::get`: a stable identifier for this device, absent
/// when the platform cannot supply one. Nothing is assumed of its value.
#[verifier::external_body]
fn device_id() -> Option<String> {
    machine_uid::get().ok()
}

/// Relies on `sha2::Sha256::digest`: a 32-byte digest determined by the
/// input alone.
#[verifier::external_body]
fn sha256_digest(s: &str) -> (r: Vec<u8>)
    ensures
        r@ == sha256_of(s@),
        r@.len() == 32,
{
    sha2::Sha256::digest(s.as_bytes()).to_vec()
}

/// Relies on `base64::engine::general_purpose::STANDARD.encode`, whose output
/// its own `decode` inverts.
#[verifier::external_body]
fn b64_encode(data: &Vec<u8>) -> (r: String)
    ensures
        r@ == b64_of(data@),
        b64_decode_of(r@) == Some(data@),
{
    base64::engine::general_purpose::STANDARD.encode(data)
}

/// Relies on `base64::engine::general_purpose::STANDARD.decode`: succeeds
/// exactly on valid base64 text.
#[verifier::external_body]
fn b64_decode(text: &str) -> (r: Option<Vec<u8>>)
    ensures
        r is Some <==> b64_decode_of(text@) is Some,
        r matches Some(v) ==> b64_decode_of(text@) == Some(v@),
{
    base64::engine::general_purpose::STANDARD.decode(text).ok()
}

/// Relies on `aes_gcm::Aes256Gcm::encrypt` (AES-256-GCM seal): the ciphertext
/// is a function of key, nonce and plaintext, carries at least the 16-byte
/// authentication tag, and `decrypt` under the same key and nonce followed by
/// UTF-8 decoding recovers exactly the text that was sealed. With a 32-byte
/// key the cipher rejects only plaintexts longer than 2^36 bytes, and a
/// character encodes to at most four UTF-8 bytes, so sealing succeeds for any
/// text of at most `MAX_SEALED_TEXT_LEN` (2^34) characters.
#[verifier::external_body]
fn aead_encrypt(key: &Vec<u8>, nonce: &Vec<u8>, plaintext: &str) -> (r: Option<Vec<u8>>)
    requires
        key@.len() == 32,
        nonce@.len() == 12,
    ensures
        r matches Some(c) ==> (c@ == aead_seal(key@, nonce@, plaintext@) && aead_open(
            key@,
            nonce@,
            c@,
        ) == Some(plaintext@) && c@.len() >= 16),
        plaintext@.len() <= MAX_SEALED_TEXT_LEN ==> r is Some,
{
    let cipher = match Aes256Gcm::new_from_slice(key.as_slice()) {
        Ok(c) => c,
        Err(_) => return None,
    };
    cipher.encrypt(Nonce::from_slice(nonce.as_slice()), plaintext.as_bytes()).ok()
}

/// Relies on `aes_gcm::Aes256Gcm::decrypt` and `String::from_utf8`: succeeds
/// exactly when authentication and UTF-8 decoding succeed, and the result is
/// a function of key, nonce and ciphertext.
#[verifier::external_body]
fn aead_decrypt(key: &Vec<u8>, nonce: &Vec<u8>, ciphertext: &Vec<u8>) -> (r: Option<String>)
    requires
        key@.len() == 32,
        nonce@.len() == 12,
    ensures
        r is Some <==> aead_open(key@, nonce@, ciphertext@) is Some,
        r matches Some(p) ==> aead_open(key@, nonce@, ciphertext@) == Some(p@),
{
    let cipher = match Aes256Gcm::new_from_slice(key.as_slice()) {
        Ok(c) => c,
        Err(_) => return None,
    };
    let plain = cipher.decrypt(Nonce::from_slice(nonce.as_slice()), ciphertext.as_slice()).ok()?;
    String::from_utf8(plain).ok()
}

/// Relies on `aes_gcm::Aes256Gcm::generate_nonce` with `OsRng`: a random
/// 12-byte nonce; nothing else is assumed of its value.
#[verifier::external_body]
fn generate_nonce_bytes() -> (r: Vec<u8>)
    ensures
        r@.len() == 12,
{
    Aes256Gcm::generate_nonce(&mut OsRng).to_vec()
}

/// Marker of the current envelope form, nonce carried inline.
pub open spec fn v2_prefix() -> Seq<char> {
    "ag_enc_v2_"@
}

/// Marker of the older fixed-nonce envelope form.
pub open spec fn v1_prefix() -> Seq<char> {
    "ag_enc_"@
}

/// The fixed 12-byte nonce of the older envelope forms (the bytes of the
/// legacy salt string).
pub open spec fn fixed_nonce_spec() -> Seq<u8> {
    seq![97u8, 110u8, 116u8, 105u8, 103u8, 114u8, 97u8, 118u8, 115u8, 97u8, 108u8, 116u8]
}

/// The fixed nonce as a vector, for callers that build legacy envelopes.
pub fn fixed_nonce() -> (r: Vec<u8>)
    ensures
        r@ == fixed_nonce_spec(),
{
    let mut v: Vec<u8> = Vec::new();
    v.push(97);
    v.push(110);
    v.push(116);
    v.push(105);
    v.push(103);
    v.push(114);
    v.push(97);
    v.push(118);
    v.push(115);
    v.push(97);
    v.push(108);
    v.push(116);
    proof {
        assert(v@ =~= fixed_nonce_spec());
    }
    v
}

/// The value already carries an envelope marker, so a save must not encrypt
/// it again.
pub open spec fn is_prefixed(s: Seq<char>) -> bool {
    seq_starts_with(s, v2_prefix()) || seq_starts_with(s, v1_prefix())
}

/// The current envelope for a plaintext sealed under `key` with `nonce`.
pub open spec fn v2_envelope_of(key: Seq<u8>, nonce: Seq<u8>, plaintext: Seq<char>) -> Seq<char> {
    v2_prefix() + b64_of(nonce + aead_seal(key, nonce, plaintext))
}

/// Opening a fixed-nonce payload: base64, then AES-GCM under the fixed nonce.
pub open spec fn open_v1(key: Seq<u8>, payload: Seq<char>) -> Option<Seq<char>> {
    match b64_decode_of(payload) {
        Some(ct) => aead_open(key, fixed_nonce_spec(), ct),
        None => None,
    }
}

/// Opening a current-form payload: base64, split off the 12-byte nonce, then
/// AES-GCM under that nonce.
pub open spec fn open_v2(key: Seq<u8>, payload: Seq<char>) -> Option<Seq<char>> {
    match b64_decode_of(payload) {
        Some(combined) => if combined.len() < 13 {
            None
        } else {
            aead_open(key, combined.take(12), combined.skip(12))
        },
        None => None,
    }
}

/// The error text of a failed fixed-nonce open.
pub open spec fn open_v1_err(payload: Seq<char>) -> Seq<char> {
    match b64_decode_of(payload) {
        Some(_) => "Decryption failed"@,
        None => "Base64 decode failed"@,
    }
}

/// The error text of a failed current-form open.
pub open spec fn open_v2_err(payload: Seq<char>) -> Seq<char> {
    match b64_decode_of(payload) {
        Some(combined) => if combined.len() < 13 {
            "Ciphertext too short (missing nonce)"@
        } else {
            "Decryption failed"@
        },
        None => "Base64 decode failed"@,
    }
}

/// The error text decryption reports when the envelope cannot be opened.
pub open spec fn decrypt_err_spec(envelope: Seq<char>) -> Seq<char> {
    if seq_starts_with(envelope, v2_prefix()) {
        open_v2_err(envelope.skip(v2_prefix().len() as int))
    } else if seq_starts_with(envelope, v1_prefix()) {
        open_v1_err(envelope.skip(v1_prefix().len() as int))
    } else {
        open_v1_err(envelope)
    }
}

/// What decryption yields for an envelope: dispatch on the marker, falling
/// back to the fixed-nonce form for bare payloads.
pub open spec fn decrypt_spec(key: Seq<u8>, envelope: Seq<char>) -> Option<Seq<char>> {
    if seq_starts_with(envelope, v2_prefix()) {
        open_v2(key, envelope.skip(v2_prefix().len() as int))
    } else if seq_starts_with(envelope, v1_prefix()) {
        open_v1(key, envelope.skip(v1_prefix().len() as int))
    } else {
        open_v1(key, envelope)
    }
}

/// The 256-bit key for this device: the SHA-256 digest of its identifier,
/// with a literal fallback where no identifier can be read.
pub fn get_encryption_key() -> (key: Vec<u8>)
    ensures
        key@.len() == 32,
        exists|id: Seq<char>| key@ == sha256_of(id),
{
    let id = match device_id() {
        Some(s) => s,
        None => String::from_str("default"),
    };
    let key = sha256_digest(id.as_str());
    proof {
        assert(key@ == sha256_of(id@));
    }
    key
}

fn vec_u8_subrange(v: &Vec<u8>, from: usize, to: usize) -> (r: Vec<u8>)
    requires
        from <= to <= v@.len(),
    ensures
        r@ == v@.subrange(from as int, to as int),
{
    let mut r: Vec<u8> = Vec::new();
    let mut i: usize = from;
    while i < to
        invariant
            from <= i <= to <= v@.len(),
            r@ == v@.subrange(from as int, i as int),
        decreases to - i,
    {
        r.push(v[i]);
        i += 1;
        proof {
            assert(r@ =~= v@.subrange(from as int, i as int));
        }
    }
    r
}

/// Seals `password` under the given key and nonce into a current-form
/// envelope; the result decrypts back to `password` under the same key, and
/// its base64 payload decodes back to the nonce followed by the ciphertext,
/// so envelopes sealed with different nonces differ. Sealing is owed for any
/// text of at most `MAX_SEALED_TEXT_LEN` characters.
pub fn encrypt_with_key(key: &Vec<u8>, nonce: &Vec<u8>, password: &str) -> (r: Result<
    String,
    String,
>)
    requires
        key@.len() == 32,
        nonce@.len() == 12,
    ensures
        r matches Ok(env) ==> (env@ == v2_envelope_of(key@, nonce@, password@) && decrypt_spec(
            key@,
            env@,
        ) == Some(password@) && b64_decode_of(env@.skip(v2_prefix().len() as int)) == Some(
            nonce@ + aead_seal(key@, nonce@, password@),
        )),
        password@.len() <= MAX_SEALED_TEXT_LEN ==> r is Ok,
        r matches Err(e) ==> e@ == "Encryption failed"@,
{
    let ct = match aead_encrypt(key, nonce, password) {
        Some(c) => c,
        None => {
            return Err(String::from_str("Encryption failed"));
        },
    };
    let mut combined: Vec<u8> = Vec::new();
    let mut i: usize = 0;
    while i < nonce.len()
        invariant
            i <= nonce@.len(),
            combined@ == nonce@.take(i as int),
        decreases nonce@.len() - i,
    {
        combined.push(nonce[i]);
        i += 1;
        proof {
            assert(combined@ =~= nonce@.take(i as int));
        }
    }
    let mut j: usize = 0;
    while j < ct.len()
        invariant
            j <= ct@.len(),
            combined@ == nonce@ + ct@.take(j as int),
        decreases ct@.len() - j,
    {
        combined.push(ct[j]);
        j += 1;
        proof {
            assert(combined@ =~= nonce@ + ct@.take(j as int));
        }
    }
    proof {
        assert(combined@ =~= nonce@ + ct@);
    }
    let payload = b64_encode(&combined);
    let env = String::from_str("ag_enc_v2_").concat(payload.as_str());
    proof {
        reveal_strlit("ag_enc_v2_");
        assert(env@ == v2_prefix() + b64_of(combined@));
        assert(env@.subrange(0, 10) =~= v2_prefix());
        assert(seq_starts_with(env@, v2_prefix()));
        assert(env@.skip(10) =~= b64_of(combined@));
        assert(combined@.take(12) =~= nonce@);
        assert(combined@.skip(12) =~= ct@);
        assert(b64_decode_of(env@.skip(v2_prefix().len() as int)) == Some(
            nonce@ + aead_seal(key@, nonce@, password@),
        ));
    }
    Ok(env)
}

/// Envelopes sealed from the same text under the same key but different
/// nonces are distinct: the base64 payload decodes back to the nonce it was
/// sealed with.
pub proof fn lemma_distinct_nonces_distinct_envelopes(
    key: Seq<u8>,
    nonce1: Seq<u8>,
    nonce2: Seq<u8>,
    plaintext: Seq<char>,
    env1: Seq<char>,
    env2: Seq<char>,
)
    requires
        nonce1.len() == 12,
        nonce2.len() == 12,
        nonce1 != nonce2,
        b64_decode_of(env1.skip(v2_prefix().len() as int)) == Some(
            nonce1 + aead_seal(key, nonce1, plaintext),
        ),
        b64_decode_of(env2.skip(v2_prefix().len() as int)) == Some(
            nonce2 + aead_seal(key, nonce2, plaintext),
        ),
    ensures
        env1 != env2,
{
    if env1 == env2 {
        let c1 = nonce1 + aead_seal(key, nonce1, plaintext);
        let c2 = nonce2 + aead_seal(key, nonce2, plaintext);
        assert(c1 == c2);
        assert(c1.take(12) =~= nonce1);
        assert(c2.take(12) =~= nonce2);
    }
}

fn decrypt_v2_internal(key: &Vec<u8>, payload: &str) -> (r: Result<String, String>)
    requires
        key@.len() == 32,
    ensures
        r is Ok <==> open_v2(key@, payload@) is Some,
        r matches Ok(p) ==> open_v2(key@, payload@) == Some(p@),
        r matches Err(e) ==> e@ == open_v2_err(payload@),
{
    let combined = match b64_decode(payload) {
        Some(v) => v,
        None => {
            return Err(String::from_str("Base64 decode failed"));
        },
    };
    if combined.len() < 13 {
        return Err(String::from_str("Ciphertext too short (missing nonce)"));
    }
    let nonce = vec_u8_subrange(&combined, 0, 12);
    let ct = vec_u8_subrange(&combined, 12, combined.len());
    proof {
        assert(nonce@ =~= combined@.take(12));
        assert(ct@ =~= combined@.skip(12));
    }
    match aead_decrypt(key, &nonce, &ct) {
        Some(p) => Ok(p),
        None => Err(String::from_str("Decryption failed")),
    }
}

fn decrypt_v1_internal(key: &Vec<u8>, payload: &str) -> (r: Result<String, String>)
    requires
        key@.len() == 32,
    ensures
        r is Ok <==> open_v1(key@, payload@) is Some,
        r matches Ok(p) ==> open_v1(key@, payload@) == Some(p@),
        r matches Err(e) ==> e@ == open_v1_err(payload@),
{
    let ct = match b64_decode(payload) {
        Some(v) => v,
        None => {
            return Err(String::from_str("Base64 decode failed"));
        },
    };
    let nonce = fixed_nonce();
    match aead_decrypt(key, &nonce, &ct) {
        Some(p) => Ok(p),
        None => Err(String::from_str("Decryption failed")),
    }
}

/// Opens an envelope of any of the three forms under the given key; succeeds
/// exactly when `decrypt_spec` does.
pub fn decrypt_with_key(key: &Vec<u8>, encrypted: &str) -> (r: Result<String, String>)
    requires
        key@.len() == 32,
    ensures
        r is Ok <==> decrypt_spec(key@, encrypted@) is Some,
        r matches Ok(p) ==> decrypt_spec(key@, encrypted@) == Some(p@),
        r matches Err(e) ==> e@ == decrypt_err_spec(encrypted@),
{
    let n = encrypted.unicode_len();
    if str_starts_with(encrypted, "ag_enc_v2_") {
        proof {
            reveal_strlit("ag_enc_v2_");
        }
        let payload = encrypted.substring_char(10, n);
        proof {
            assert(payload@ =~= encrypted@.skip(10));
        }
        decrypt_v2_internal(key, payload)
    } else if str_starts_with(encrypted, "ag_enc_") {
        proof {
            reveal_strlit("ag_enc_");
        }
        let payload = encrypted.substring_char(7, n);
        proof {
            assert(payload@ =~= encrypted@.skip(7));
        }
        decrypt_v1_internal(key, payload)
    } else {
        decrypt_v1_internal(key, encrypted)
    }
}

/// Encrypts under the device key with a fresh random nonce, yielding a
/// current-form envelope.
pub fn encrypt_string(password: &str) -> (r: Result<String, String>)
    ensures
        r matches Ok(env) ==> exists|k: Seq<u8>, n: Seq<u8>|
            k.len() == 32 && n.len() == 12 && env@ == v2_envelope_of(k, n, password@)
                && decrypt_spec(k, env@) == Some(password@) && b64_decode_of(
                env@.skip(v2_prefix().len() as int),
            ) == Some(n + aead_seal(k, n, password@)),
        r matches Ok(env) ==> seq_starts_with(env@, v2_prefix()),
        password@.len() <= MAX_SEALED_TEXT_LEN ==> r is Ok,
{
    let key = get_encryption_key();
    let nonce = generate_nonce_bytes();
    let r = encrypt_with_key(&key, &nonce, password);
    proof {
        if r is Ok {
            let env = r->Ok_0;
            assert(key@.len() == 32 && nonce@.len() == 12 && env@ == v2_envelope_of(
                key@,
                nonce@,
                password@,
            ) && decrypt_spec(key@, env@) == Some(password@) && b64_decode_of(
                env@.skip(v2_prefix().len() as int),
            ) == Some(nonce@ + aead_seal(key@, nonce@, password@)));
            assert(env@.subrange(0, v2_prefix().len() as int) =~= v2_prefix());
        }
    }
    r
}

/// Opens an envelope under the device key.
pub fn decrypt_string(encrypted: &str) -> (r: Result<String, String>)
    ensures
        exists|k: Seq<u8>|
            k.len() == 32 && (r is Ok <==> decrypt_spec(k, encrypted@) is Some) && (r matches Ok(p)
                ==> decrypt_spec(k, encrypted@) == Some(p@)),
{
    let key = get_encryption_key();
    let r = decrypt_with_key(&key, encrypted);
    proof {
        assert(key@.len() == 32 && (r is Ok <==> decrypt_spec(key@, encrypted@) is Some) && (
        r matches Ok(p) ==> decrypt_spec(key@, encrypted@) == Some(p@)));
    }
    r
}

/// The save-time guard under an explicit key and nonce: an already-enveloped
/// value is returned unchanged, anything else is sealed.
pub fn serialize_password_with_key(key: &Vec<u8>, nonce: &Vec<u8>, password: &str) -> (r: Result<
    String,
    String,
>)
    requires
        key@.len() == 32,
        nonce@.len() == 12,
    ensures
        is_prefixed(password@) ==> (r matches Ok(s) && s@ == password@),
        !is_prefixed(password@) ==> (r matches Ok(env) ==> (env@ == v2_envelope_of(
            key@,
            nonce@,
            password@,
        ) && decrypt_spec(key@, env@) == Some(password@) && b64_decode_of(
            env@.skip(v2_prefix().len() as int),
        ) == Some(nonce@ + aead_seal(key@, nonce@, password@)))),
        password@.len() <= MAX_SEALED_TEXT_LEN ==> r is Ok,
{
    if str_starts_with(password, "ag_enc_v2_") || str_starts_with(password, "ag_enc_") {
        Ok(password.to_owned())
    } else {
        encrypt_with_key(key, nonce, password)
    }
}

/// The save-time guard under the device key: never encrypts twice.
pub fn serialize_password(password: &str) -> (r: Result<String, String>)
    ensures
        is_prefixed(password@) ==> (r matches Ok(s) && s@ == password@),
        !is_prefixed(password@) ==> (r matches Ok(env) ==> exists|k: Seq<u8>, n: Seq<u8>|
            k.len() == 32 && n.len() == 12 && env@ == v2_envelope_of(k, n, password@)
                && decrypt_spec(k, env@) == Some(password@) && b64_decode_of(
                env@.skip(v2_prefix().len() as int),
            ) == Some(n + aead_seal(k, n, password@))),
        password@.len() <= MAX_SEALED_TEXT_LEN ==> r is Ok,
{
    if str_starts_with(password, "ag_enc_v2_") || str_starts_with(password, "ag_enc_") {
        Ok(password.to_owned())
    } else {
        encrypt_string(password)
    }
}

/// The load-time path under an explicit key: opens the envelope, and on any
/// failure hands the stored text back unchanged rather than losing it.
pub fn deserialize_password_with_key(key: &Vec<u8>, raw: &str) -> (r: String)
    requires
        key@.len() == 32,
    ensures
        raw@.len() == 0 ==> r@ == raw@,
        raw@.len() > 0 ==> r@ == (match decrypt_spec(key@, raw@) {
            Some(p) => p,
            None => raw@,
        }),
{
    if raw.unicode_len() == 0 {
        return raw.to_owned();
    }
    match decrypt_with_key(key, raw) {
        Ok(p) => p,
        Err(_) => raw.to_owned(),
    }
}

/// The load-time path under the device key: a failed open returns the input
/// unchanged.
pub fn deserialize_password(raw: &str) -> (r: String)
    ensures
        raw@.len() == 0 ==> r@ == raw@,
        raw@.len() > 0 ==> exists|k: Seq<u8>|
            k.len() == 32 && r@ == (match decrypt_spec(k, raw@) {
                Some(p) => p,
                None => raw@,
            }),
{
    let key = get_encryption_key();
    let r = deserialize_password_with_key(&key, raw);
    proof {
        if raw@.len() > 0 {
            assert(key@.len() == 32 && r@ == (match decrypt_spec(key@, raw@) {
                Some(p) => p,
                None => raw@,
            }));
        }
    }
    r
}

/// An envelope assembled as older tooling did — the fixed-nonce marker ahead
/// of base64 ciphertext — opens to the plaintext that was sealed, as long as
/// the payload does not itself begin like a current-form marker remnant.
pub proof fn lemma_v1_envelope_decrypts(
    key: Seq<u8>,
    payload: Seq<char>,
    ciphertext: Seq<u8>,
    plaintext: Seq<char>,
)
    requires
        b64_decode_of(payload) == Some(ciphertext),
        aead_open(key, fixed_nonce_spec(), ciphertext) == Some(plaintext),
        !seq_starts_with(payload, "v2_"@),
    ensures
        decrypt_spec(key, v1_prefix() + payload) == Some(plaintext),
{
    reveal_strlit("ag_enc_v2_");
    reveal_strlit("ag_enc_");
    reveal_strlit("v2_");
    let env = v1_prefix() + payload;
    assert(env.subrange(0, 7) =~= v1_prefix());
    if seq_starts_with(env, v2_prefix()) {
        assert(payload.subrange(0, 3) =~= "v2_"@) by {
            assert(env.subrange(0, 10)[7] == "v2_"@[0]);
            assert(env.subrange(0, 10)[8] == "v2_"@[1]);
            assert(env.subrange(0, 10)[9] == "v2_"@[2]);
        }
        assert(false);
    }
    assert(env.skip(7) =~= payload);
}

/// A bare legacy envelope — base64 ciphertext with no marker — opens to the
/// plaintext that was sealed under the fixed nonce.
pub proof fn lemma_bare_envelope_decrypts(
    key: Seq<u8>,
    payload: Seq<char>,
    ciphertext: Seq<u8>,
    plaintext: Seq<char>,
)
    requires
        b64_decode_of(payload) == Some(ciphertext),
        aead_open(key, fixed_nonce_spec(), ciphertext) == Some(plaintext),
        !seq_starts_with(payload, v1_prefix()),
    ensures
        decrypt_spec(key, payload) == Some(plaintext),
{
    reveal_strlit("ag_enc_v2_");
    reveal_strlit("ag_enc_");
    if seq_starts_with(payload, v2_prefix()) {
        assert(payload.subrange(0, 7) =~= v1_prefix());
        assert(false);
    }
}

} // verus!
