//! Password-derived key material and the verification digest kept in the
//! configuration: `key = SHA3-256(password)`, `iv = key[0..16]`, and the
//! digest is the lower-case hex of `SHA3-256(key)`.
use crate::cfg::Cfg;
use crate::codec::string_from_utf8;
use crate::error::StoreError;
use crypto::digest::Digest;
use crypto::sha3::Sha3;
use vstd::prelude::*;
use vstd::utf8::*;

verus! {

broadcast use {encode_utf8_decode_utf8, encode_utf8_valid_utf8};

/// The SHA3-256 digest of `data`.
pub uninterp spec fn sha3_256_of(data: Seq<u8>) -> Seq<u8>;

/// Relies on rust-crypto's `Sha3::sha3_256`: after `input` of the data,
/// `result` writes its 32-byte digest.
#[verifier::external_body]
fn sha3_256(data: &[u8]) -> (r: [u8; 32])
    ensures
        r@ == sha3_256_of(data@),
{
    let mut hasher = Sha3::sha3_256();
    hasher.input(data);
    let mut out = [0u8; 32];
    hasher.result(&mut out);
    out
}

/// The key and initialization vector of a session.
#[derive(Debug, Clone, Copy)]
pub struct SessionKey {
    pub key: [u8; 32],
    pub iv: [u8; 16],
}

/// The lower-case ASCII hex digit of `n`, below 16.
pub open spec fn hex_digit(n: u8) -> u8 {
    if n < 10 {
        (48 + n) as u8
    } else {
        (87 + n) as u8
    }
}

/// The lower-case hex text of `b`, two characters per byte, high nibble first.
pub open spec fn hex_chars(b: Seq<u8>) -> Seq<char> {
    Seq::new(
        2 * b.len(),
        |i: int|
            (if i % 2 == 0 {
                hex_digit(b[i / 2] / 16)
            } else {
                hex_digit(b[i / 2] % 16)
            }) as char,
    )
}

/// The key derived from a password: the digest of its UTF-8 bytes.
pub open spec fn derived_key(password: Seq<char>) -> Seq<u8> {
    sha3_256_of(encode_utf8(password))
}

/// The verification digest of a key.
pub open spec fn digest_of_key(key: Seq<u8>) -> Seq<char> {
    hex_chars(sha3_256_of(key))
}

/// The lower-case hex text of a byte buffer.
pub fn to_hex(b: &[u8]) -> (r: String)
    requires
        2 * b@.len() <= usize::MAX,
    ensures
        r@ == hex_chars(b@),
{
    let mut out: Vec<u8> = Vec::new();
    let mut i: usize = 0;
    while i < b.len()
        invariant
            i <= b@.len(),
            2 * b@.len() <= usize::MAX,
            out@.len() == 2 * i,
            forall|k: int| 0 <= k < 2 * i ==> (#[trigger] out@[k]) as char == hex_chars(b@)[k],
        decreases b@.len() - i,
    {
        let hi = b[i] / 16;
        let lo = b[i] % 16;
        out.push(if hi < 10 { 48 + hi } else { 87 + hi });
        out.push(if lo < 10 { 48 + lo } else { 87 + lo });
        i = i + 1;
    }
    let ghost chars = hex_chars(b@);
    proof {
        assert(is_ascii_chars(chars));
        is_ascii_chars_encode_utf8(chars);
        assert(encode_utf8(chars) =~= out@);
    }
    match string_from_utf8(out) {
        Some(s) => s,
        None => String::new(),
    }
}

/// The key and iv derived from a password.
pub fn derive_key(password: &str) -> (r: SessionKey)
    ensures
        r.key@ == derived_key(password@),
        r.iv@ == r.key@.take(16),
{
    let key = sha3_256(password.as_bytes());
    let mut iv = [0u8; 16];
    let mut i: usize = 0;
    while i < 16
        invariant
            i <= 16,
            forall|k: int| 0 <= k < i ==> #[trigger] iv@[k] == key@[k],
        decreases 16 - i,
    {
        iv[i] = key[i];
        i = i + 1;
    }
    assert(iv@ =~= key@.take(16));
    SessionKey { key, iv }
}

/// The verification digest of a key, as the configuration stores it.
pub fn verification_digest(key: &[u8; 32]) -> (r: String)
    ensures
        r@ == digest_of_key(key@),
        r@.len() == 64,
{
    let d = sha3_256(key);
    to_hex(&d)
}

/// Checks a password against the configuration's digest.
pub fn authenticate(cfg: &Cfg, password: &str) -> (r: Result<SessionKey, StoreError>)
    ensures
        r is Ok <==> digest_of_key(derived_key(password@)) == cfg.pswd@,
        r matches Ok(k) ==> k.key@ == derived_key(password@) && k.iv@ == k.key@.take(16),
        r matches Err(e) ==> e == StoreError::AuthenticationFailed,
{
    let session = derive_key(password);
    let candidate = verification_digest(&session.key);
    if candidate == cfg.pswd {
        Ok(session)
    } else {
        Err(StoreError::AuthenticationFailed)
    }
}

/// Sets a new password given twice: on a match the configuration takes the
/// new key's digest and the new key is returned; otherwise nothing changes.
pub fn set_new_password(cfg: &mut Cfg, password: &String, repeated: &String) -> (r: Result<
    SessionKey,
    StoreError,
>)
    ensures
        r is Ok <==> password@ == repeated@,
        r matches Err(e) ==> e == StoreError::PasswordMismatch && *final(cfg) == *old(cfg),
        r matches Ok(k) ==> k.key@ == derived_key(password@) && k.iv@ == k.key@.take(16)
            && final(cfg).pswd@ == digest_of_key(k.key@) && final(cfg).pswd@.len() == 64
            && final(cfg).record_pth
            == old(cfg).record_pth,
{
    if !(*password == *repeated) {
        return Err(StoreError::PasswordMismatch);
    }
    let session = derive_key(password.as_str());
    cfg.pswd = verification_digest(&session.key);
    Ok(session)
}

} // verus!
