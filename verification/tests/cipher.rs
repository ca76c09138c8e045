use aes::cipher::{KeyIvInit, StreamCipher};
use rustymesh::meshtastic::encryption::{
    cipher, packet_nonce, psk_to_key, Cipher, CipherError, DEFAULT_PSK, KEYSTREAM_LEN,
};

const PLAINTEXT: &[u8] = b"The quick brown fox jumps over the lazy dog";

const UNDER_DEFAULT_KEY: [u8; 43] = [
    0xf7, 0xcb, 0x5e, 0xb1, 0xf7, 0x01, 0x00, 0x5d, 0xc2, 0xf4, 0xf2, 0x70, 0x38, 0xbd, 0x9d, 0xaa,
    0xfd, 0x15, 0xbe, 0xbb, 0x60, 0xcd, 0x72, 0x45, 0xd1, 0x4b, 0x0d, 0x68, 0x9e, 0x50, 0xea, 0x4a,
    0xa4, 0x12, 0x6e, 0x57, 0x65, 0x21, 0x7b, 0x31, 0x46, 0x4b, 0x2d,
];

const UNDER_LONG_KEY: [u8; 43] = [
    0xb6, 0x47, 0xf0, 0xa8, 0x7d, 0xa5, 0x18, 0x2f, 0x62, 0x9f, 0x01, 0xbb, 0x69, 0x1a, 0xac, 0x48,
    0xf6, 0x9e, 0x72, 0x38, 0xb5, 0x68, 0xa2, 0x61, 0x17, 0x5a, 0x45, 0xe4, 0xf8, 0xa6, 0x7c, 0x0c,
    0x1c, 0x6b, 0x18, 0xdb, 0x38, 0xa6, 0x88, 0x1b, 0x37, 0x19, 0x94,
];

fn long_key() -> Vec<u8> {
    (0u8..32).collect()
}

fn position(made: &Cipher) -> u64 {
    match made {
        Cipher::AES128(stream) => stream.position,
        Cipher::AES256(stream) => stream.position,
    }
}

#[test]
fn nonce_layout() {
    assert_eq!(
        packet_nonce(0x1234_5678, 0xdead_beef),
        [0x78, 0x56, 0x34, 0x12, 0, 0, 0, 0, 0xef, 0xbe, 0xad, 0xde, 0, 0, 0, 0]
    );
    assert_eq!(packet_nonce(0, 0), [0u8; 16]);
    assert_eq!(
        packet_nonce(u32::MAX, u32::MAX),
        [0xff, 0xff, 0xff, 0xff, 0, 0, 0, 0, 0xff, 0xff, 0xff, 0xff, 0, 0, 0, 0]
    );
    let value: u128 = 7u128 | (9u128 << 64);
    assert_eq!(packet_nonce(7, 9), value.to_le_bytes());
}

#[test]
fn key_length_selects_the_cipher() {
    match cipher(&DEFAULT_PSK, 1, 2) {
        Cipher::AES128(stream) => {
            assert_eq!(stream.key, DEFAULT_PSK);
            assert_eq!(stream.nonce, packet_nonce(1, 2));
            assert_eq!(stream.position, 0);
        }
        Cipher::AES256(_) => panic!("a key of 16 bytes selects AES-128"),
    }
    match cipher(&long_key(), 3, 4) {
        Cipher::AES256(stream) => {
            assert_eq!(stream.key.to_vec(), long_key());
            assert_eq!(stream.nonce, packet_nonce(3, 4));
            assert_eq!(stream.position, 0);
        }
        Cipher::AES128(_) => panic!("a key of 32 bytes selects AES-256"),
    }
}

#[test]
fn keystream_of_the_zero_key() {
    let mut buf = [0u8; 40];
    cipher(&[0u8; 16], 0, 0).crypt(&mut buf);
    assert_eq!(
        buf,
        [
            0x66, 0xe9, 0x4b, 0xd4, 0xef, 0x8a, 0x2c, 0x3b, 0x88, 0x4c, 0xfa, 0x59, 0xca, 0x34,
            0x2b, 0x2e, 0x47, 0x71, 0x18, 0x16, 0xe9, 0x1d, 0x6f, 0xf0, 0x59, 0xbb, 0xbf, 0x2b,
            0xf5, 0x8e, 0x0f, 0xd3, 0xbc, 0xf1, 0x76, 0xa7, 0xea, 0xad, 0x80, 0x85
        ]
    );
    let mut buf = [0u8; 16];
    cipher(&[0u8; 32], 0, 0).crypt(&mut buf);
    assert_eq!(
        buf,
        [
            0xdc, 0x95, 0xc0, 0x78, 0xa2, 0x40, 0x89, 0x89, 0xad, 0x48, 0xa2, 0x14, 0x92, 0x84,
            0x20, 0x87
        ]
    );
}

#[test]
fn encrypts_under_the_default_key() {
    let mut buf = PLAINTEXT.to_vec();
    let mut made = cipher(&DEFAULT_PSK, 0x1234_5678, 0xdead_beef);
    made.crypt(&mut buf);
    assert_eq!(buf, UNDER_DEFAULT_KEY);
    assert_eq!(position(&made), 43);
}

#[test]
fn encrypts_under_a_long_key() {
    let mut buf = PLAINTEXT.to_vec();
    let mut made = cipher(&long_key(), u32::MAX, 1);
    made.crypt(&mut buf);
    assert_eq!(buf, UNDER_LONG_KEY);
    assert_eq!(position(&made), 43);
}

#[test]
fn agrees_with_the_cipher_crates() {
    let nonce: [u8; 16] = [0x78, 0x56, 0x34, 0x12, 0, 0, 0, 0, 0xef, 0xbe, 0xad, 0xde, 0, 0, 0, 0];
    let mut expected: Vec<u8> = (0u8..200).collect();
    ctr::Ctr32LE::<aes::Aes128>::new(&DEFAULT_PSK.into(), &nonce.into())
        .apply_keystream(&mut expected);
    let mut buf: Vec<u8> = (0u8..200).collect();
    cipher(&DEFAULT_PSK, 0x1234_5678, 0xdead_beef).crypt(&mut buf);
    assert_eq!(buf, expected);

    let key: [u8; 32] = [0x5a; 32];
    let mut expected: Vec<u8> = (0u8..200).collect();
    ctr::Ctr32LE::<aes::Aes256>::new(&key.into(), &nonce.into()).apply_keystream(&mut expected);
    let mut buf: Vec<u8> = (0u8..200).collect();
    cipher(&key, 0x1234_5678, 0xdead_beef).crypt(&mut buf);
    assert_eq!(buf, expected);
}

#[test]
fn decryption_is_encryption() {
    for key in [DEFAULT_PSK.to_vec(), long_key()] {
        for len in [0usize, 1, 15, 16, 17, 43, 256] {
            let plaintext: Vec<u8> = (0..len).map(|i| (i * 7) as u8).collect();
            let mut buf = plaintext.clone();
            cipher(&key, 42, 0xabcd_ef01).crypt(&mut buf);
            if len > 4 {
                assert_ne!(buf, plaintext);
            }
            cipher(&key, 42, 0xabcd_ef01).crypt(&mut buf);
            assert_eq!(buf, plaintext);
        }
    }
}

#[test]
fn decrypts_a_known_packet() {
    let mut buf = UNDER_DEFAULT_KEY.to_vec();
    cipher(&DEFAULT_PSK, 0x1234_5678, 0xdead_beef).crypt(&mut buf);
    assert_eq!(buf, PLAINTEXT);
}

#[test]
fn packet_and_sender_change_the_keystream() {
    let mut first = [0u8; 32];
    cipher(&DEFAULT_PSK, 1, 2).crypt(&mut first);
    let mut other_packet = [0u8; 32];
    cipher(&DEFAULT_PSK, 3, 2).crypt(&mut other_packet);
    let mut other_sender = [0u8; 32];
    cipher(&DEFAULT_PSK, 1, 3).crypt(&mut other_sender);
    let mut swapped = [0u8; 32];
    cipher(&DEFAULT_PSK, 2, 1).crypt(&mut swapped);
    assert_ne!(first, other_packet);
    assert_ne!(first, other_sender);
    assert_ne!(first, swapped);
}

#[test]
fn a_cipher_goes_on_where_it_stopped() {
    for key in [DEFAULT_PSK.to_vec(), long_key()] {
        for split in [0usize, 1, 5, 16, 20, 32, 43] {
            let mut whole = PLAINTEXT.to_vec();
            cipher(&key, 9, 8).crypt(&mut whole);
            let mut parts = PLAINTEXT.to_vec();
            let mut made = cipher(&key, 9, 8);
            let (head, tail) = parts.split_at_mut(split);
            made.crypt(head);
            assert_eq!(position(&made), split as u64);
            made.crypt(tail);
            assert_eq!(position(&made), 43);
            assert_eq!(parts, whole);
        }
    }
}

#[test]
fn buffer_to_buffer_gives_the_same_bytes() {
    let mut out = [0u8; 43];
    let mut made = cipher(&DEFAULT_PSK, 0x1234_5678, 0xdead_beef);
    assert_eq!(made.crypt_b2b(PLAINTEXT, &mut out), Ok(()));
    assert_eq!(out, UNDER_DEFAULT_KEY);
    assert_eq!(position(&made), 43);

    let mut out = [0u8; 43];
    let mut made = cipher(&long_key(), u32::MAX, 1);
    assert_eq!(made.crypt_b2b(PLAINTEXT, &mut out), Ok(()));
    assert_eq!(out, UNDER_LONG_KEY);
    assert_eq!(position(&made), 43);

    let mut back = [0u8; 43];
    assert_eq!(cipher(&long_key(), u32::MAX, 1).crypt_b2b(&out, &mut back), Ok(()));
    assert_eq!(&back[..], PLAINTEXT);
}

#[test]
fn buffer_to_buffer_goes_on_where_it_stopped() {
    let mut out = [0u8; 43];
    let mut made = cipher(&DEFAULT_PSK, 0x1234_5678, 0xdead_beef);
    let (head, tail) = out.split_at_mut(21);
    assert_eq!(made.crypt_b2b(&PLAINTEXT[..21], head), Ok(()));
    assert_eq!(made.crypt_b2b(&PLAINTEXT[21..], tail), Ok(()));
    assert_eq!(out, UNDER_DEFAULT_KEY);
}

#[test]
fn buffers_of_different_length_are_rejected() {
    for key in [DEFAULT_PSK.to_vec(), long_key()] {
        let mut made = cipher(&key, 5, 6);
        let mut short = [0x11u8; 42];
        assert_eq!(made.crypt_b2b(PLAINTEXT, &mut short), Err(CipherError::LengthMismatch));
        assert_eq!(short, [0x11u8; 42]);
        let mut long = [0x22u8; 44];
        assert_eq!(made.crypt_b2b(PLAINTEXT, &mut long), Err(CipherError::LengthMismatch));
        assert_eq!(long, [0x22u8; 44]);
        assert_eq!(position(&made), 0);
        // The failed calls used no keystream.
        let mut out = [0u8; 43];
        assert_eq!(made.crypt_b2b(PLAINTEXT, &mut out), Ok(()));
        let mut expected = PLAINTEXT.to_vec();
        cipher(&key, 5, 6).crypt(&mut expected);
        assert_eq!(&out[..], &expected[..]);
    }
}

#[test]
fn empty_buffers() {
    let mut made = cipher(&DEFAULT_PSK, 1, 1);
    let mut nothing: [u8; 0] = [];
    made.crypt(&mut nothing);
    assert_eq!(made.crypt_b2b(&[], &mut nothing), Ok(()));
    assert_eq!(position(&made), 0);
}

#[test]
fn far_into_the_keystream() {
    let nonce = packet_nonce(1, 2);
    let start: u64 = KEYSTREAM_LEN - 48;
    let mut made = Cipher::AES128(rustymesh::meshtastic::encryption::CtrStream {
        key: DEFAULT_PSK,
        nonce,
        position: start + 5,
    });
    let mut buf = [0u8; 43];
    made.crypt(&mut buf);
    assert_eq!(position(&made), KEYSTREAM_LEN);

    let mut expected = [0u8; 48];
    let mut direct = ctr::Ctr32LE::<aes::Aes128>::new(&DEFAULT_PSK.into(), &nonce.into());
    aes::cipher::StreamCipherSeek::seek(&mut direct, start);
    direct.apply_keystream(&mut expected);
    assert_eq!(&buf[..], &expected[5..]);

    // At the very end an empty buffer is still taken, by either call.
    let mut nothing: [u8; 0] = [];
    made.crypt(&mut nothing);
    assert_eq!(made.crypt_b2b(&[], &mut nothing), Ok(()));
    assert_eq!(position(&made), KEYSTREAM_LEN);
}

#[test]
fn derived_key_sets_up_a_cipher() {
    let key = psk_to_key("AQ==").unwrap().unwrap();
    let mut buf = PLAINTEXT.to_vec();
    cipher(&key, 0x1234_5678, 0xdead_beef).crypt(&mut buf);
    assert_eq!(buf, UNDER_DEFAULT_KEY);
}
