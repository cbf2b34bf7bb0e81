use revocable_anchors::hasher::{hash, same_digest, Blake2s, Digest, Hashable, Hashed, Hasher};

const OF_EMPTY: [u8; 32] = [
    0x69, 0x21, 0x7a, 0x30, 0x79, 0x90, 0x80, 0x94, 0xe1, 0x11, 0x21, 0xd0, 0x42, 0x35, 0x4a,
    0x7c, 0x1f, 0x55, 0xb6, 0x48, 0x2c, 0xa1, 0xa5, 0x1e, 0x1b, 0x25, 0x0d, 0xfd, 0x1e, 0xd0,
    0xee, 0xf9,
];

const OF_ZERO_BYTE: [u8; 32] = [
    0xe3, 0x4d, 0x74, 0xdb, 0xaf, 0x4f, 0xf4, 0xc6, 0xab, 0xd8, 0x71, 0xcc, 0x22, 0x04, 0x51,
    0xd2, 0xea, 0x26, 0x48, 0x84, 0x6c, 0x77, 0x57, 0xfb, 0xaa, 0xc8, 0x2f, 0xe5, 0x1a, 0xd6,
    0x4b, 0xea,
];

const OF_HELLO_WORLD: [u8; 32] = [
    0x9a, 0xec, 0x68, 0x06, 0x79, 0x45, 0x61, 0x10, 0x7e, 0x59, 0x4b, 0x1f, 0x6a, 0x8a, 0x6b,
    0x0c, 0x92, 0xa0, 0xcb, 0xa9, 0xac, 0xf5, 0xe5, 0xe9, 0x3c, 0xca, 0x06, 0xf7, 0x81, 0x81,
    0x3b, 0x0b,
];

const OF_ONE_TO_EIGHT: [u8; 32] = [
    0x4b, 0xca, 0x2f, 0x82, 0x21, 0xfb, 0xf6, 0xad, 0x37, 0x64, 0xf5, 0xbc, 0x2b, 0x61, 0x08,
    0x54, 0x92, 0x05, 0xbc, 0x6e, 0xe9, 0x94, 0x6c, 0xcf, 0x51, 0x57, 0xe1, 0xc9, 0x42, 0xa1,
    0x6d, 0x67,
];

const OF_32_ZEROS: [u8; 32] = [
    0x32, 0x0b, 0x5e, 0xa9, 0x9e, 0x65, 0x3b, 0xc2, 0xb5, 0x93, 0xdb, 0x41, 0x30, 0xd1, 0x0a,
    0x4e, 0xfd, 0x3a, 0x0b, 0x4c, 0xc2, 0xe1, 0xa6, 0x67, 0x2b, 0x67, 0x8d, 0x71, 0xdf, 0xbd,
    0x33, 0xad,
];

fn of_slice<T: Hashable<Blake2s>>(items: &[T]) -> [u8; 32] {
    let mut hasher: Blake2s = Digest::new();
    items.hash(&mut hasher);
    hasher.output()
}

#[test]
fn blake2s_of_nothing() {
    let hasher: Blake2s = Digest::new();
    assert_eq!(hasher.output(), OF_EMPTY);
}

#[test]
fn blake2s_of_a_known_message() {
    let mut hasher: Blake2s = Digest::new();
    hasher.input(b"hello world");
    assert_eq!(hasher.output(), OF_HELLO_WORLD);
}

#[test]
fn input_in_pieces_is_input_at_once() {
    let mut hasher: Blake2s = Digest::new();
    hasher.input(b"hello");
    hasher.input(b"");
    hasher.input(b" world");
    assert_eq!(hasher.output(), OF_HELLO_WORLD);
}

#[test]
fn hash_of_a_byte() {
    assert_eq!(hash::<u8, Blake2s, [u8; 32]>(&0u8), OF_ZERO_BYTE);
}

#[test]
fn hash_of_a_u64_is_over_its_big_endian_bytes() {
    assert_eq!(
        hash::<u64, Blake2s, [u8; 32]>(&0x0102030405060708),
        OF_ONE_TO_EIGHT
    );
    let bytes: &[u8] = &[1, 2, 3, 4, 5, 6, 7, 8];
    assert_eq!(of_slice(bytes), OF_ONE_TO_EIGHT);
    assert_ne!(
        hash::<u64, Blake2s, [u8; 32]>(&0x0807060504030201),
        OF_ONE_TO_EIGHT
    );
}

#[test]
fn hash_of_a_slice_is_over_its_items_in_order() {
    let words: &[u64] = &[0x0102030405060708];
    assert_eq!(of_slice(words), OF_ONE_TO_EIGHT);
    let empty: &[u64] = &[];
    assert_eq!(of_slice(empty), OF_EMPTY);
    let message: &[u8] = b"hello world";
    assert_eq!(of_slice(message), OF_HELLO_WORLD);
    let two: &[u64] = &[0x68656c6c6f20776f, 0x0102030405060708];
    let mut direct: Blake2s = Digest::new();
    direct.input(b"hello wo");
    direct.input(&[1, 2, 3, 4, 5, 6, 7, 8]);
    assert_eq!(of_slice(two), direct.output());
}

#[test]
fn hash_of_a_digest_is_over_its_32_bytes() {
    assert_eq!(hash::<[u8; 32], Blake2s, [u8; 32]>(&[0u8; 32]), OF_32_ZEROS);
}

#[test]
fn hash_of_a_pair_is_over_first_then_second() {
    // "hello wo" and 1..=8 as two words
    let first: u64 = 0x68656c6c6f20776f;
    let second: u64 = 0x0102030405060708;
    let mut direct: Blake2s = Digest::new();
    direct.input(b"hello wo");
    direct.input(&[1, 2, 3, 4, 5, 6, 7, 8]);
    let expected = direct.output();
    assert_eq!(
        hash::<(&u64, &u64), Blake2s, [u8; 32]>(&(&first, &second)),
        expected
    );
    assert_ne!(
        hash::<(&u64, &u64), Blake2s, [u8; 32]>(&(&second, &first)),
        expected
    );
}

#[test]
fn hashable_feeds_the_hasher() {
    let mut hasher: Blake2s = Digest::new();
    Hashable::hash(&1u8, &mut hasher);
    Hashable::hash(&0x0203040506070809u64, &mut hasher);
    let mut direct: Blake2s = Digest::new();
    direct.input(&[1, 2, 3, 4, 5, 6, 7, 8, 9]);
    assert_eq!(hasher.output(), direct.output());
}

#[test]
fn hashed_from_a_value_holds_its_digest() {
    let hashed: Hashed<u8, Blake2s, [u8; 32]> = Hashed::from(0u8);
    assert_eq!(hashed.hash, OF_ZERO_BYTE);
    assert_eq!(*hashed.digest(), OF_ZERO_BYTE);
    assert_eq!(hashed, Hashed::prehashed(OF_ZERO_BYTE));
    assert_eq!(hashed.clone(), hashed);
    let into: Hashed<u8, Blake2s, [u8; 32]> = 0u8.into();
    assert_eq!(into, hashed);
}

#[test]
fn prehashed_keeps_the_digest_as_given() {
    let hashed: Hashed<u64, Blake2s, [u8; 32]> = Hashed::prehashed([7u8; 32]);
    assert_eq!(hashed.hash, [7u8; 32]);
    let zero: Hashed<u64, Blake2s, [u8; 32]> = Default::default();
    assert_eq!(zero.hash, [0u8; 32]);
}

#[test]
fn same_digest_is_equality_of_all_bytes() {
    assert!(same_digest(&[0u8; 32], &[0u8; 32]));
    for at in 0..32 {
        let mut other = [0u8; 32];
        other[at] = 1;
        assert!(!same_digest(&[0u8; 32], &other));
        assert!(!same_digest(&other, &[0u8; 32]));
        assert!(same_digest(&other, &other));
    }
}
