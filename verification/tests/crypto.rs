use bl3_save_edit_core::crypto::{decrypt, encrypt};
use bl3_save_edit_core::error::IntegrityError;

#[test]
fn payload_is_sealed_with_its_sum_and_masked() {
    assert_eq!(encrypt(&[10, 20], &[1, 2, 3]), vec![11, 22, 29, 1, 2, 3]);
}

#[test]
fn empty_key_masks_nothing() {
    assert_eq!(encrypt(&[10, 20], &[]), vec![10, 20, 30, 0, 0, 0]);
    assert_eq!(decrypt(&[10, 20, 30, 0, 0, 0], &[]), Ok(vec![10, 20]));
}

#[test]
fn digest_is_little_endian() {
    let body = vec![0xffu8; 300];
    let sealed = encrypt(&body, &[]);
    let sum: u32 = 300 * 255;
    assert_eq!(&sealed[300..], &sum.to_le_bytes());
}

#[test]
fn decrypt_after_encrypt_gives_the_payload() {
    let key: Vec<u8> = (0..32u8).map(|i| i.wrapping_mul(37).wrapping_add(11)).collect();
    let body: Vec<u8> = (0..1000u32).map(|i| (i * 7 % 256) as u8).collect();
    let sealed = encrypt(&body, &key);
    assert_eq!(sealed.len(), body.len() + 4);
    assert_ne!(&sealed[..body.len()], &body[..]);
    assert_eq!(decrypt(&sealed, &key), Ok(body));
}

#[test]
fn empty_payload_is_sealed_and_opened() {
    let sealed = encrypt(&[], &[9]);
    assert_eq!(sealed, vec![9, 9, 9, 9]);
    assert_eq!(decrypt(&sealed, &[9]), Ok(vec![]));
}

#[test]
fn ciphertext_shorter_than_a_digest_is_truncated() {
    assert_eq!(decrypt(&[], &[1]), Err(IntegrityError::Truncated));
    assert_eq!(decrypt(&[1, 2, 3], &[1]), Err(IntegrityError::Truncated));
}

#[test]
fn every_changed_byte_is_detected() {
    let key = [5u8, 6, 7, 8, 9];
    let sealed = encrypt(b"some character payload", &key);
    for at in 0..sealed.len() {
        for flip in [1u8, 0x80, 0xff] {
            let mut changed = sealed.clone();
            changed[at] ^= flip;
            assert_eq!(decrypt(&changed, &key), Err(IntegrityError::DigestMismatch));
        }
    }
}

#[test]
fn wrong_key_is_detected() {
    let sealed = encrypt(b"payload", &[1, 2, 3, 4]);
    assert_eq!(decrypt(&sealed, &[4, 3, 2, 1]), Err(IntegrityError::DigestMismatch));
    assert_eq!(decrypt(&sealed, &[1, 2, 3]), Err(IntegrityError::DigestMismatch));
}
