use xorcrypt::{
    decrypt_in_place, encrypt_in_place, generate_prefix, xor, CipherError, Xor, BUFFER_SIZE,
    PREFIX_SIZE,
};

fn counting_prefix() -> Vec<u8> {
    (0u8..16).collect()
}

fn sample(len: usize) -> Vec<u8> {
    (0..len).map(|i| (i * 7 + 3) as u8).collect()
}

#[test]
fn xor_combines_bytes() {
    assert_eq!(xor(0x68, 0x6b), 0x03);
    assert_eq!(xor(0xff, 0x0f), 0xf0);
    assert_eq!(xor(0x5a, 0x00), 0x5a);
}

#[test]
fn xor_twice_is_identity() {
    for b in 0..=255u8 {
        for k in [0u8, 1, 0x6b, 0x80, 0xff] {
            assert_eq!(xor(xor(b, k), k), b);
        }
    }
}

#[test]
fn empty_file_with_single_letter_key() {
    let mut file: Vec<u8> = Vec::new();
    let prefix = generate_prefix(PREFIX_SIZE);
    encrypt_in_place(&mut file, b"a".to_vec(), prefix.clone(), BUFFER_SIZE, Xor).unwrap();
    assert_eq!(file.len(), 16);
    let expected: Vec<u8> = prefix.iter().map(|p| p ^ b'a').collect();
    assert_eq!(file, expected);
    decrypt_in_place(&mut file, b"a".to_vec(), BUFFER_SIZE, Xor).unwrap();
    assert!(file.is_empty());
}

#[test]
fn hello_with_counting_prefix() {
    let mut file = b"hello".to_vec();
    encrypt_in_place(&mut file, b"k".to_vec(), counting_prefix(), BUFFER_SIZE, Xor).unwrap();
    let expected: Vec<u8> = vec![
        0x6b, 0x6a, 0x69, 0x68, 0x6f, 0x6e, 0x6d, 0x6c, 0x63, 0x62, 0x61, 0x60, 0x67, 0x66, 0x65,
        0x64, 0x03, 0x0e, 0x07, 0x07, 0x04,
    ];
    assert_eq!(file, expected);
    decrypt_in_place(&mut file, b"k".to_vec(), BUFFER_SIZE, Xor).unwrap();
    assert_eq!(file, b"hello".to_vec());
}

#[test]
fn zeros_past_one_chunk() {
    let key = b"xy".to_vec();
    let mut file = vec![0u8; 513];
    encrypt_in_place(&mut file, key.clone(), generate_prefix(PREFIX_SIZE), BUFFER_SIZE, Xor).unwrap();
    assert_eq!(file.len(), 529);
    for i in 16..529 {
        assert_eq!(file[i], key[i % 2]);
    }
    decrypt_in_place(&mut file, key, BUFFER_SIZE, Xor).unwrap();
    assert_eq!(file, vec![0u8; 513]);
}

#[test]
fn two_encryptions_differ_in_prefix_only() {
    let input = sample(100);
    let mut first = input.clone();
    let mut second = input.clone();
    encrypt_in_place(&mut first, b"key".to_vec(), generate_prefix(PREFIX_SIZE), BUFFER_SIZE, Xor)
        .unwrap();
    encrypt_in_place(&mut second, b"key".to_vec(), generate_prefix(PREFIX_SIZE), BUFFER_SIZE, Xor)
        .unwrap();
    assert_ne!(first[..16], second[..16]);
    assert_eq!(first[16..], second[16..]);
}

#[test]
fn decrypt_of_prefix_only_file_is_empty() {
    let mut file = sample(16);
    decrypt_in_place(&mut file, b"any".to_vec(), BUFFER_SIZE, Xor).unwrap();
    assert!(file.is_empty());
}

#[test]
fn round_trip_many_lengths_and_keys() {
    for len in [0usize, 1, 15, 16, 17, 511, 512, 513, 1024, 1500] {
        for key in [b"a".to_vec(), b"xy".to_vec(), b"a longer key!".to_vec()] {
            let plain = sample(len);
            let mut file = plain.clone();
            encrypt_in_place(&mut file, key.clone(), generate_prefix(PREFIX_SIZE), BUFFER_SIZE, Xor)
                .unwrap();
            assert_eq!(file.len(), len + 16);
            decrypt_in_place(&mut file, key, BUFFER_SIZE, Xor).unwrap();
            assert_eq!(file, plain);
        }
    }
}

#[test]
fn ciphertext_byte_is_virtual_plaintext_xor_key() {
    let key = b"abc".to_vec();
    let prefix = counting_prefix();
    let plain = sample(40);
    let mut file = plain.clone();
    encrypt_in_place(&mut file, key.clone(), prefix.clone(), BUFFER_SIZE, Xor).unwrap();
    let virtual_plain: Vec<u8> = prefix.iter().chain(plain.iter()).copied().collect();
    for i in 0..file.len() {
        assert_eq!(file[i], virtual_plain[i] ^ key[i % key.len()]);
    }
}

#[test]
fn chunk_size_does_not_change_output() {
    let plain = sample(1500);
    let key = b"chunky".to_vec();
    let prefix = generate_prefix(PREFIX_SIZE);
    let mut expected = plain.clone();
    encrypt_in_place(&mut expected, key.clone(), prefix.clone(), 512, Xor).unwrap();
    for c in [1usize, 16, 511, 512, 513, 1024] {
        let mut file = plain.clone();
        encrypt_in_place(&mut file, key.clone(), prefix.clone(), c, Xor).unwrap();
        assert_eq!(file, expected);
        decrypt_in_place(&mut file, key.clone(), c, Xor).unwrap();
        assert_eq!(file, plain);
    }
}

#[test]
fn encrypting_twice_is_not_identity() {
    let plain = sample(30);
    let mut file = plain.clone();
    encrypt_in_place(&mut file, b"k".to_vec(), generate_prefix(PREFIX_SIZE), BUFFER_SIZE, Xor).unwrap();
    encrypt_in_place(&mut file, b"k".to_vec(), generate_prefix(PREFIX_SIZE), BUFFER_SIZE, Xor).unwrap();
    assert_eq!(file.len(), 62);
    assert_ne!(file, plain);
    decrypt_in_place(&mut file, b"k".to_vec(), BUFFER_SIZE, Xor).unwrap();
    decrypt_in_place(&mut file, b"k".to_vec(), BUFFER_SIZE, Xor).unwrap();
    assert_eq!(file, plain);
}

#[test]
fn empty_key_is_rejected_without_change() {
    let mut file = sample(20);
    assert_eq!(
        encrypt_in_place(&mut file, Vec::new(), counting_prefix(), BUFFER_SIZE, Xor),
        Err(CipherError::EmptyKey)
    );
    assert_eq!(file, sample(20));
    assert_eq!(decrypt_in_place(&mut file, Vec::new(), BUFFER_SIZE, Xor), Err(CipherError::EmptyKey));
    assert_eq!(file, sample(20));
}

#[test]
fn decrypt_of_short_file_is_rejected() {
    let mut file = sample(15);
    assert_eq!(
        decrypt_in_place(&mut file, b"k".to_vec(), BUFFER_SIZE, Xor),
        Err(CipherError::FileTooShort)
    );
    assert_eq!(file, sample(15));
}

#[test]
fn prefix_has_requested_length() {
    assert_eq!(generate_prefix(16).len(), 16);
    assert_eq!(generate_prefix(0).len(), 0);
    assert_eq!(generate_prefix(100).len(), 100);
}
