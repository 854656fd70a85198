//! AES-256 in CBC mode with PKCS#7 padding, over whole byte buffers.
use crypto::aes;
use crypto::blockmodes;
use crypto::buffer;
use vstd::prelude::*;
use crate::error::StoreError;

verus! {

/// The cipher's block size in bytes.
pub const BLOCK_LEN: usize = 16;

/// What AES-256-CBC encryption makes of whole blocks under `key` and `iv`.
pub uninterp spec fn aes256_cbc_encrypt_blocks(plain: Seq<u8>, key: Seq<u8>, iv: Seq<u8>) -> Seq<u8>;

/// What AES-256-CBC decryption makes of whole blocks under `key` and `iv`,
/// before any padding is removed.
pub uninterp spec fn aes256_cbc_decrypt_blocks(cipher: Seq<u8>, key: Seq<u8>, iv: Seq<u8>) -> Seq<u8>;

/// `b` followed by PKCS#7 padding up to the next block boundary: `p` bytes of
/// value `p`, where `p` is between 1 and 16.
pub open spec fn pkcs7_pad(b: Seq<u8>) -> Seq<u8> {
    let p = 16 - b.len() % 16;
    b + Seq::new(p as nat, |i: int| p as u8)
}

/// `b` without its PKCS#7 padding, or `None` where the padding is invalid.
pub open spec fn pkcs7_unpad(b: Seq<u8>) -> Option<Seq<u8>> {
    if b.len() == 0 {
        None
    } else {
        let p = b.last() as int;
        if 1 <= p <= 16 && p <= b.len() && forall|i: int|
            b.len() - p <= i < b.len() ==> #[trigger] b[i] == p as u8 {
            Some(b.subrange(0, b.len() - p))
        } else {
            None
        }
    }
}

/// The plaintext of `cipher` under `key` and `iv`, or `None` where it is not
/// a non-empty run of whole blocks or its padding is invalid.
pub open spec fn decrypt_spec(cipher: Seq<u8>, key: Seq<u8>, iv: Seq<u8>) -> Option<Seq<u8>> {
    if cipher.len() == 0 || cipher.len() % 16 != 0 {
        None
    } else {
        pkcs7_unpad(aes256_cbc_decrypt_blocks(cipher, key, iv))
    }
}

/// The ciphertext of `plain`: AES-256-CBC of `plain` with PKCS#7 padding.
pub open spec fn encrypt_spec(plain: Seq<u8>, key: Seq<u8>, iv: Seq<u8>) -> Seq<u8> {
    aes256_cbc_encrypt_blocks(pkcs7_pad(plain), key, iv)
}

/// Relies on rust-crypto's `aes::cbc_encryptor` with `NoPadding`: on a
/// non-empty run of whole blocks one call with `eof` set writes the
/// encrypted blocks, as many bytes as it was given, which CBC decryption
/// under the same key and iv turns back into the input.
#[verifier::external_body]
fn cbc_encrypt_blocks(data: &[u8], key: &[u8; 32], iv: &[u8; 16]) -> (r: Vec<u8>)
    requires
        data@.len() > 0,
        data@.len() % 16 == 0,
    ensures
        r@ == aes256_cbc_encrypt_blocks(data@, key@, iv@),
        r@.len() == data@.len(),
        aes256_cbc_decrypt_blocks(r@, key@, iv@) == data@,
{
    let mut enc = aes::cbc_encryptor(aes::KeySize::KeySize256, key, iv, blockmodes::NoPadding);
    let mut out = vec![0u8; data.len()];
    let mut reader = buffer::RefReadBuffer::new(data);
    let mut writer = buffer::RefWriteBuffer::new(&mut out);
    enc.encrypt(&mut reader, &mut writer, true).ok();
    out
}

/// Relies on rust-crypto's `aes::cbc_decryptor` with `NoPadding`: on a
/// non-empty run of whole blocks one call with `eof` set writes the
/// decrypted blocks, as many bytes as it was given.
#[verifier::external_body]
fn cbc_decrypt_blocks(data: &[u8], key: &[u8; 32], iv: &[u8; 16]) -> (r: Vec<u8>)
    requires
        data@.len() > 0,
        data@.len() % 16 == 0,
    ensures
        r@ == aes256_cbc_decrypt_blocks(data@, key@, iv@),
        r@.len() == data@.len(),
{
    let mut dec = aes::cbc_decryptor(aes::KeySize::KeySize256, key, iv, blockmodes::NoPadding);
    let mut out = vec![0u8; data.len()];
    let mut reader = buffer::RefReadBuffer::new(data);
    let mut writer = buffer::RefWriteBuffer::new(&mut out);
    dec.decrypt(&mut reader, &mut writer, true).ok();
    out
}

/// Removing the padding that `pkcs7_pad` adds gives the data back.
pub proof fn lemma_unpad_pad(b: Seq<u8>)
    ensures
        pkcs7_unpad(pkcs7_pad(b)) == Some(b),
{
    let padded = pkcs7_pad(b);
    let p = 16 - b.len() % 16;
    assert(padded.last() == p as u8);
    assert(padded.subrange(0, padded.len() - p) =~= b);
}

/// `b` with PKCS#7 padding added.
fn pad(b: &[u8]) -> (r: Vec<u8>)
    requires
        b@.len() + BLOCK_LEN <= usize::MAX,
    ensures
        r@ == pkcs7_pad(b@),
{
    let n = b.len();
    let p = BLOCK_LEN - n % BLOCK_LEN;
    let mut out: Vec<u8> = Vec::new();
    let mut i: usize = 0;
    while i < n
        invariant
            i <= n,
            n == b@.len(),
            out@ == b@.take(i as int),
        decreases n - i,
    {
        out.push(b[i]);
        i = i + 1;
        assert(out@ =~= b@.take(i as int));
    }
    let mut k: usize = 0;
    while k < p
        invariant
            k <= p,
            1 <= p <= 16,
            p == 16 - n % 16,
            n == b@.len(),
            out@ == b@ + Seq::new(k as nat, |j: int| p as u8),
        decreases p - k,
    {
        out.push(p as u8);
        k = k + 1;
        assert(out@ =~= b@ + Seq::new(k as nat, |j: int| p as u8));
    }
    assert(b@.take(n as int) =~= b@);
    out
}

/// Strips PKCS#7 padding from decrypted blocks.
fn unpad(mut b: Vec<u8>) -> (r: Option<Vec<u8>>)
    ensures
        match r {
            Some(p) => pkcs7_unpad(b@) == Some(p@),
            None => pkcs7_unpad(b@) is None,
        },
{
    let n = b.len();
    if n == 0 {
        return None;
    }
    let p = b[n - 1] as usize;
    if p < 1 || p > BLOCK_LEN || p > n {
        return None;
    }
    let mut i: usize = n - p;
    while i < n
        invariant
            n == b@.len(),
            1 <= p <= n,
            p == b@.last() as int,
            n - p <= i <= n,
            forall|k: int| n - p <= k < i ==> #[trigger] b@[k] == p as u8,
        decreases n - i,
    {
        if b[i] != p as u8 {
            return None;
        }
        i = i + 1;
    }
    let ghost before = b@;
    b.truncate(n - p);
    assert(b@ =~= before.subrange(0, n - p));
    Some(b)
}

/// Encrypts a buffer; the result is a whole number of blocks, one more
/// than the data fills, and decrypts back to it under the same key and iv.
pub fn encrypt(plain: &[u8], key: &[u8; 32], iv: &[u8; 16]) -> (r: Vec<u8>)
    requires
        plain@.len() + BLOCK_LEN <= usize::MAX,
    ensures
        r@ == encrypt_spec(plain@, key@, iv@),
        r@.len() == pkcs7_pad(plain@).len(),
        r@.len() == (plain@.len() / 16 + 1) * 16,
        decrypt_spec(r@, key@, iv@) == Some(plain@),
{
    let padded = pad(plain);
    proof {
        lemma_unpad_pad(plain@);
        assert(padded@.len() == (plain@.len() / 16 + 1) * 16);
    }
    cbc_encrypt_blocks(padded.as_slice(), key, iv)
}

/// Decrypts a buffer; fails where it is not a whole number of blocks or
/// its padding is invalid, as it mostly is under a wrong key.
pub fn decrypt(cipher: &[u8], key: &[u8; 32], iv: &[u8; 16]) -> (r: Result<Vec<u8>, StoreError>)
    ensures
        match r {
            Ok(p) => decrypt_spec(cipher@, key@, iv@) == Some(p@),
            Err(e) => decrypt_spec(cipher@, key@, iv@) is None && e == StoreError::DecryptionFailed,
        },
{
    let n = cipher.len();
    if n == 0 || n % BLOCK_LEN != 0 {
        return Err(StoreError::DecryptionFailed);
    }
    let blocks = cbc_decrypt_blocks(cipher, key, iv);
    match unpad(blocks) {
        Some(p) => Ok(p),
        None => Err(StoreError::DecryptionFailed),
    }
}

} // verus!
