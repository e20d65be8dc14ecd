use ws_reactor::sha1::{Sha1, Sha1Error};

fn hex(bytes: &[u8]) -> String {
    let mut s = String::new();
    for b in bytes {
        s.push_str(&format!("{:02x}", b));
    }
    s
}

#[test]
fn digest_of_empty_message() {
    let mut sha1 = Sha1::new();
    let digest = sha1.hash(String::new()).unwrap();
    assert_eq!(hex(&digest), "da39a3ee5e6b4b0d3255bfef95601890afd80709");
}

#[test]
fn digest_of_abc() {
    let mut sha1 = Sha1::new();
    let digest = sha1.hash("abc".to_string()).unwrap();
    assert_eq!(hex(&digest), "a9993e364706816aba3e25717850c26c9cd0d89d");
}

#[test]
fn digest_of_two_block_message() {
    let sha1 = Sha1::new();
    let digest = sha1
        .hash_bytes(b"abcdbcdecdefdefgefghfghighijhijkijkljklmklmnlmnomnopnopq")
        .unwrap();
    assert_eq!(hex(&digest), "84983e441c3bd26ebaae4aa1f95129e5e54670f1");
}

#[test]
fn digest_of_quick_brown_fox() {
    let mut sha1 = Sha1::new();
    let digest = sha1
        .hash("The quick brown fox jumps over the lazy dog".to_string())
        .unwrap();
    assert_eq!(hex(&digest), "2fd4e1c67a2d28fced849ee1bb76e7391b93eb12");
}

#[test]
fn digest_of_message_of_block_length() {
    // 64 bytes of input need a second block for the padding alone.
    let sha1 = Sha1::new();
    let data = [b'a'; 64];
    let digest = sha1.hash_bytes(&data).unwrap();
    assert_eq!(hex(&digest), "0098ba824b5c16427bd7a1122a5a442a25ec644d");
}

#[test]
fn digest_of_million_a() {
    let sha1 = Sha1::new();
    let data = vec![b'a'; 1_000_000];
    let digest = sha1.hash_bytes(&data).unwrap();
    assert_eq!(hex(&digest), "34aa973cd4c4daa4f61eeb2bdbad27316534016f");
}

#[test]
fn hash_and_hash_bytes_agree() {
    let mut sha1 = Sha1::new();
    let a = sha1.hash("knownhash".to_string()).unwrap();
    let b = sha1.hash_bytes(b"knownhash").unwrap();
    assert_eq!(a, b);
}

#[test]
fn padding_of_abc() {
    let sha1 = Sha1::new();
    let padded = sha1.pad_message("abc");
    assert_eq!(padded.len(), 64);
    assert_eq!(&padded[..4], &[b'a', b'b', b'c', 0x80]);
    assert!(padded[4..56].iter().all(|&b| b == 0));
    assert_eq!(&padded[56..], &[0, 0, 0, 0, 0, 0, 0, 24]);
}

#[test]
fn padding_lengths() {
    let sha1 = Sha1::new();
    assert_eq!(sha1.pad_bytes(&[]).len(), 64);
    assert_eq!(sha1.pad_bytes(&[0u8; 55]).len(), 64);
    assert_eq!(sha1.pad_bytes(&[0u8; 56]).len(), 128);
    assert_eq!(sha1.pad_bytes(&[0u8; 63]).len(), 128);
    assert_eq!(sha1.pad_bytes(&[0u8; 64]).len(), 128);
    assert_eq!(sha1.pad_bytes(&[0u8; 119]).len(), 128);
    assert_eq!(sha1.pad_bytes(&[0u8; 120]).len(), 192);
}

#[test]
fn padding_holds_the_length_in_bits() {
    let sha1 = Sha1::new();
    let padded = sha1.pad_bytes(&[7u8; 300]);
    // 300 bytes are 2400 bits: 0x0960.
    assert_eq!(&padded[padded.len() - 8..], &[0, 0, 0, 0, 0, 0, 0x09, 0x60]);
    assert_eq!(padded[300], 0x80);
}

#[test]
fn schedule_starts_with_the_words_of_the_block() {
    let sha1 = Sha1::new();
    let mut block = [0u8; 64];
    for (i, b) in block.iter_mut().enumerate() {
        *b = i as u8;
    }
    let schedule = sha1.build_schedule(&block).unwrap();
    assert_eq!(schedule[0], 0x00010203);
    assert_eq!(schedule[1], 0x04050607);
    assert_eq!(schedule[15], 0x3c3d3e3f);
    let x = schedule[13] ^ schedule[8] ^ schedule[2] ^ schedule[0];
    assert_eq!(schedule[16], x.rotate_left(1));
    let y = schedule[76] ^ schedule[71] ^ schedule[65] ^ schedule[63];
    assert_eq!(schedule[79], y.rotate_left(1));
}

#[test]
fn schedule_of_a_short_block_is_filled_with_zero() {
    let sha1 = Sha1::new();
    let schedule = sha1.build_schedule(&[1, 2, 3, 4]).unwrap();
    assert_eq!(schedule[0], 0x01020304);
    assert_eq!(schedule[1], 0);
    assert_eq!(schedule[15], 0);
    assert_eq!(schedule[16], schedule[0].rotate_left(1));
}

#[test]
fn schedule_rejects_a_block_of_odd_length() {
    let sha1 = Sha1::new();
    assert!(matches!(
        sha1.build_schedule(&[1, 2, 3]),
        Err(Sha1Error::InputConversionFailure(_))
    ));
}
