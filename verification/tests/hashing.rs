use bit_vec::BitVec;
use ibe_schemes::blake3::Blake3;
use ibe_schemes::hashing::{
    alphabet_char, blake3_hash_bytes, blake3_hash_to_bits,
    generate_email_and_hash_identity, generate_random_email, generate_random_message_128,
    hash_to_fr, hash_to_g1,
};

const EMPTY_DIGEST: [u8; 32] = [
    0xaf, 0x13, 0x49, 0xb9, 0xf5, 0xf9, 0xa1, 0xa6, 0xa0, 0x40, 0x4d, 0xea, 0x36, 0xdc, 0xc9, 0x49,
    0x9b, 0xcb, 0x25, 0xc9, 0xad, 0xc1, 0x12, 0xb7, 0xcc, 0x9a, 0x93, 0xca, 0xe4, 0x1f, 0x32, 0x62,
];

#[test]
fn blake3_of_the_empty_input() {
    assert_eq!(Blake3::default().hash(&[]), EMPTY_DIGEST);
    assert_eq!(blake3_hash_bytes(&[]), EMPTY_DIGEST.to_vec());
    assert_eq!(Blake3::default().finalize(), EMPTY_DIGEST);
}

#[test]
fn blake3_incremental_equals_one_shot() {
    let mut hasher = Blake3::default();
    hasher.update(b"hello, ");
    hasher.update(b"world");
    let copy = hasher.clone();
    assert_eq!(hasher.finalize().to_vec(), blake3_hash_bytes(b"hello, world"));
    assert_eq!(copy.finalize().to_vec(), blake3_hash_bytes(b"hello, world"));
    assert_eq!(hasher.finalize_reset().to_vec(), blake3_hash_bytes(b"hello, world"));
    assert_eq!(hasher.finalize(), EMPTY_DIGEST);
    hasher.update(b"x");
    hasher.reset();
    assert_eq!(hasher.finalize(), EMPTY_DIGEST);
    assert_ne!(blake3_hash_bytes(b"hello, world"), blake3_hash_bytes(b"hello, worle"));
}

#[test]
fn bits_are_read_from_the_most_significant_end() {
    let digest = blake3_hash_bytes(b"some input");
    let bits = blake3_hash_to_bits(b"some input", 256);
    assert_eq!(bits.len(), 256);
    for i in 0..256 {
        assert_eq!(bits[i], (digest[i / 8] >> (7 - i % 8)) & 1 == 1);
    }
    assert!(bits.iter().any(|bit| bit));
    assert!(bits.iter().any(|bit| !bit));
}

#[test]
fn bits_are_the_start_of_the_digest() {
    let bytes = blake3_hash_bytes(b"some input");
    for n in [0usize, 1, 7, 8, 9, 64, 128, 255, 256] {
        let mut expected = BitVec::from_bytes(&bytes);
        expected.truncate(n);
        let bits = blake3_hash_to_bits(b"some input", n);
        assert_eq!(bits.len(), n);
        assert_eq!(bits, expected);
    }
}

#[test]
fn identity_pads_the_last_byte_with_clear_bits() {
    for n in [1usize, 3, 7, 8, 9, 12, 100, 255, 256] {
        let (email, identity) = generate_email_and_hash_identity(n);
        let digest = blake3_hash_bytes(&email);
        let mut expected = digest[..(n + 7) / 8].to_vec();
        if n % 8 != 0 {
            let last = expected.len() - 1;
            expected[last] &= 0xffu8 << (8 - n % 8);
        }
        assert_eq!(identity, expected);
    }
    assert_eq!(generate_email_and_hash_identity(0).1, Vec::<u8>::new());
}

#[test]
fn identity_is_the_start_of_the_digest_of_the_email() {
    let (email, identity) = generate_email_and_hash_identity(128);
    assert_eq!(identity, blake3_hash_bytes(&email)[..16].to_vec());
    let (email, identity) = generate_email_and_hash_identity(12);
    let digest = blake3_hash_bytes(&email);
    assert_eq!(identity, vec![digest[0], digest[1] & 0xf0]);
}

#[test]
fn random_email_has_the_expected_form() {
    for _ in 0..50 {
        let email = String::from_utf8(generate_random_email()).unwrap();
        let (name, rest) = email.split_once('@').unwrap();
        let (domain, tld) = rest.split_once('.').unwrap();
        assert!((6..12).contains(&name.len()));
        assert!((5..10).contains(&domain.len()));
        assert!((2..4).contains(&tld.len()));
        assert!(name.bytes().all(|c| c.is_ascii_lowercase() || c.is_ascii_digit()));
        assert!(domain.bytes().all(|c| c.is_ascii_lowercase() || c.is_ascii_digit()));
        assert!(tld.bytes().all(|c| c.is_ascii_lowercase()));
    }
}

#[test]
fn alphabet_is_letters_then_digits() {
    assert_eq!(alphabet_char(0), b'a');
    assert_eq!(alphabet_char(25), b'z');
    assert_eq!(alphabet_char(26), b'0');
    assert_eq!(alphabet_char(35), b'9');
}

#[test]
fn random_message_has_sixteen_bytes() {
    assert_eq!(generate_random_message_128().len(), 16);
    assert_ne!(generate_random_message_128(), generate_random_message_128());
}

#[test]
fn hashing_an_identity_is_repeatable_and_separates_identities() {
    assert!(hash_to_fr("alice") == hash_to_fr("alice"));
    assert!(hash_to_fr("alice") != hash_to_fr("bob"));
    assert!(hash_to_g1("alice") == hash_to_g1("alice"));
    assert!(hash_to_g1("alice") != hash_to_g1("bob"));
}
