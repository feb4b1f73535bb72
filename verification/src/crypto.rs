//! The cipher and digest that wrap the character payload.
//!
//! A payload is sealed by appending the digest of its bytes, four bytes
//! with the low byte first, and then masked byte by byte with the platform
//! key, repeated as often as needed. Opening a payload reverses the mask
//! and accepts the bytes only when the digest is theirs.

use crate::checksum::{byte_sum, lemma_byte_sum_update, sum32};
use crate::error::IntegrityError;
use crate::parser::{le32, lemma_put_int, lemma_take_int, put_int, write_int};
use vstd::prelude::*;

verus! {

/// The key byte that masks position `i`. An empty key masks nothing.
pub open spec fn pad(key: Seq<u8>, i: int) -> u8 {
    if key.len() == 0 {
        0u8
    } else {
        key[i % (key.len() as int)]
    }
}

/// The data with every byte masked by the key byte of its position.
pub open spec fn mask(data: Seq<u8>, key: Seq<u8>) -> Seq<u8> {
    Seq::new(data.len(), |i: int| data[i] ^ pad(key, i))
}

/// The digest of a payload: the sum of its bytes, modulo two to the
/// thirty-second.
pub open spec fn digest(body: Seq<u8>) -> u32 {
    (byte_sum(body) % 0x1_0000_0000) as u32
}

/// A payload followed by its digest.
pub open spec fn seal(body: Seq<u8>) -> Seq<u8> {
    body + put_int(digest(body))
}

/// The ciphertext of a payload.
pub open spec fn encrypt_spec(body: Seq<u8>, key: Seq<u8>) -> Seq<u8> {
    mask(seal(body), key)
}

/// The payload of a ciphertext, or why it is not to be trusted.
pub open spec fn decrypt_spec(ciphertext: Seq<u8>, key: Seq<u8>) -> Result<
    Seq<u8>,
    IntegrityError,
> {
    let plain = mask(ciphertext, key);
    let n = plain.len() - 4;
    if plain.len() < 4 {
        Err(IntegrityError::Truncated)
    } else if le32(plain.skip(n)) != digest(plain.take(n)) {
        Err(IntegrityError::DigestMismatch)
    } else {
        Ok(plain.take(n))
    }
}

/// Masking twice with one key changes nothing.
pub proof fn lemma_mask_twice(data: Seq<u8>, key: Seq<u8>)
    ensures
        mask(mask(data, key), key) == data,
{
    assert forall|i: int| 0 <= i < data.len() implies mask(mask(data, key), key)[i] == data[i] by {
        let d = data[i];
        let k = pad(key, i);
        assert((d ^ k) ^ k == d) by (bit_vector);
    }
    assert(mask(mask(data, key), key) =~= data);
}

/// Opening what was sealed with the same key gives the payload.
pub proof fn lemma_decrypt_encrypt(body: Seq<u8>, key: Seq<u8>)
    ensures
        decrypt_spec(encrypt_spec(body, key), key) == Ok::<Seq<u8>, IntegrityError>(body),
{
    let sealed = seal(body);
    lemma_mask_twice(sealed, key);
    lemma_put_int(digest(body), Seq::empty());
    assert(sealed.take(sealed.len() - 4) =~= body);
    assert(sealed.skip(sealed.len() - 4) =~= put_int(digest(body)) + Seq::<u8>::empty());
}

/// Sealing the payload of a ciphertext that opens gives that ciphertext.
pub proof fn lemma_encrypt_decrypt(ciphertext: Seq<u8>, key: Seq<u8>)
    requires
        decrypt_spec(ciphertext, key) is Ok,
    ensures
        encrypt_spec(decrypt_spec(ciphertext, key)->Ok_0, key) == ciphertext,
{
    let plain = mask(ciphertext, key);
    let n = plain.len() - 4;
    let body = plain.take(n);
    lemma_mask_twice(ciphertext, key);
    lemma_take_int(plain.skip(n));
    assert(plain.skip(n).skip(4) =~= Seq::<u8>::empty());
    assert(seal(body) =~= plain);
}

/// A ciphertext that opens no longer opens once any one of its bytes is
/// changed: the digest does not match.
pub proof fn lemma_tamper_detected(ciphertext: Seq<u8>, key: Seq<u8>, at: int, byte: u8)
    requires
        decrypt_spec(ciphertext, key) is Ok,
        0 <= at < ciphertext.len(),
        byte != ciphertext[at],
    ensures
        decrypt_spec(ciphertext.update(at, byte), key) == Err::<Seq<u8>, IntegrityError>(
            IntegrityError::DigestMismatch,
        ),
{
    let plain = mask(ciphertext, key);
    let changed = mask(ciphertext.update(at, byte), key);
    let n = plain.len() - 4;
    let k = pad(key, at);
    let was = ciphertext[at];
    assert(was ^ k != byte ^ k) by (bit_vector)
        requires
            was != byte,
    ;
    assert(changed =~= plain.update(at, byte ^ k));
    if at < n {
        assert(changed.skip(n) =~= plain.skip(n));
        assert(changed.take(n) =~= plain.take(n).update(at, byte ^ k));
        lemma_byte_sum_update(plain.take(n), at, byte ^ k);
    } else {
        assert(changed.take(n) =~= plain.take(n));
        assert(changed.skip(n) =~= plain.skip(n).update(at - n, byte ^ k));
    }
}

/// The data with every byte masked by the key byte of its position.
fn apply_mask(data: &[u8], key: &[u8]) -> (out: Vec<u8>)
    ensures
        out@ == mask(data@, key@),
{
    let mut out: Vec<u8> = Vec::new();
    let mut i: usize = 0;
    while i < data.len()
        invariant
            i <= data@.len(),
            out@ == mask(data@, key@).take(i as int),
        decreases data@.len() - i,
    {
        let k: u8 = if key.len() == 0 {
            0
        } else {
            key[i % key.len()]
        };
        out.push(data[i] ^ k);
        proof {
            assert(out@ =~= mask(data@, key@).take(i + 1));
        }
        i = i + 1;
    }
    proof {
        assert(mask(data@, key@).take(i as int) =~= mask(data@, key@));
    }
    out
}

/// Opens an encrypted payload with the key of the platform that wrote it.
/// The payload is handed out only when its digest matches.
pub fn decrypt(ciphertext: &[u8], key: &[u8]) -> (r: Result<Vec<u8>, IntegrityError>)
    ensures
        match r {
            Ok(body) => decrypt_spec(ciphertext@, key@) == Ok::<Seq<u8>, IntegrityError>(body@),
            Err(e) => decrypt_spec(ciphertext@, key@) == Err::<Seq<u8>, IntegrityError>(e),
        },
{
    let mut plain = apply_mask(ciphertext, key);
    if plain.len() < 4 {
        return Err(IntegrityError::Truncated);
    }
    let n: usize = plain.len() - 4;
    let stored: u32 = plain[n] as u32 + 256 * (plain[n + 1] as u32) + 65536 * (plain[n + 2] as u32)
        + 16777216 * (plain[n + 3] as u32);
    let sum: u32 = sum32(plain.as_slice(), n);
    if stored != sum {
        return Err(IntegrityError::DigestMismatch);
    }
    plain.truncate(n);
    Ok(plain)
}

/// Seals a payload and encrypts it with the key of the platform.
pub fn encrypt(plaintext: &[u8], key: &[u8]) -> (out: Vec<u8>)
    ensures
        out@ == encrypt_spec(plaintext@, key@),
{
    let mut sealed: Vec<u8> = Vec::new();
    crate::parser::write_bytes(&mut sealed, plaintext);
    proof {
        assert(plaintext@.take(plaintext@.len() as int) =~= plaintext@);
        assert(sealed@ =~= plaintext@);
    }
    let sum: u32 = sum32(plaintext, plaintext.len());
    write_int(&mut sealed, sum);
    apply_mask(sealed.as_slice(), key)
}

} // verus!
