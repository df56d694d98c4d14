use sha256::{Digest, Sha256};

fn hex(bytes: &[u8]) -> String {
    let mut s = String::new();
    for b in bytes {
        s.push_str(&format!("{:02x}", b));
    }
    s
}

fn digest_hex(msg: &[u8]) -> String {
    let mut sh = Sha256::new();
    sh.input(msg);
    let mut out = [0u8; 32];
    sh.result(&mut out);
    hex(&out)
}

#[test]
fn empty_message() {
    assert_eq!(
        digest_hex(b""),
        "e3b0c44298fc1c149afbf4c8996fb92427ae41e4649b934ca495991b7852b855"
    );
}

#[test]
fn abc_message() {
    assert_eq!(
        digest_hex(b"abc"),
        "ba7816bf8f01cfea414140de5dae2223b00361a396177a9cb410ff61f20015ad"
    );
}

#[test]
fn two_block_message() {
    assert_eq!(
        digest_hex(b"abcdbcdecdefdefgefghfghighijhijkijkljklmklmnlmnomnopnopq"),
        "248d6a61d20638b8e5c026930c3e6039a33ce45964ff2167f6ecedd419db06c1"
    );
}

#[test]
fn long_message() {
    assert_eq!(
        digest_hex(b"abcdefghbcdefghicdefghijdefghijkefghijklfghijklmghijklmnhijklmnoijklmnopjklmnopqklmnopqrlmnopqrsmnopqrstnopqrstu"),
        "cf5b16a778af8380036ce59e7b0492370b249b11e8f07a51afac45037afee9d1"
    );
}

#[test]
fn quick_brown_fox() {
    assert_eq!(
        digest_hex(b"The quick brown fox jumps over the lazy dog"),
        "d7a8fbb307d7809469ca9abcb0082e4f8d5651e46d3cdb762d02d0bf37c9e592"
    );
}

#[test]
fn million_a_in_pieces() {
    let chunk = [b'a'; 1000];
    let mut sh = Sha256::new();
    for _ in 0..1000 {
        sh.input(&chunk);
    }
    let mut out = [0u8; 32];
    sh.result(&mut out);
    assert_eq!(
        hex(&out),
        "cdc76e5c9914fb9281a1c7e284d73e67f1809a48a497200e046d39ccc7112cd0"
    );
}

#[test]
fn padding_edge_lengths_agree_with_pieces() {
    // Lengths around the 55/56 and 64 byte boundaries, fed at once and byte by byte.
    for len in [0usize, 1, 54, 55, 56, 57, 63, 64, 65, 119, 120, 127, 128, 129] {
        let msg: Vec<u8> = (0..len).map(|i| (i * 7 + 3) as u8).collect();
        let whole = digest_hex(&msg);
        let mut sh = Sha256::new();
        for b in &msg {
            sh.input(&[*b]);
        }
        let mut out = [0u8; 32];
        sh.result(&mut out);
        assert_eq!(hex(&out), whole, "length {}", len);
    }
}

#[test]
fn known_lengths_55_and_56() {
    assert_eq!(
        digest_hex(&[b'a'; 55]),
        "9f4390f8d30c2dd92ec9f095b65e2b9ae9b0a925a5258e241c9f1e910f734318"
    );
    assert_eq!(
        digest_hex(&[b'a'; 56]),
        "b35439a4ac6f0948b6d6f9e3c6af0f5f590ce20f1bde7090ef7970686ec6738a"
    );
    assert_eq!(
        digest_hex(&[b'a'; 64]),
        "ffe054fe7ae0cb6dc65c3af9b61d5209f439851db43d0ba5997337df154668eb"
    );
}

#[test]
fn input_concatenation_law() {
    let a = b"hello, ";
    let b = b"world - a message that spans more than one sixty-four byte block of input";
    let mut sh = Sha256::new();
    sh.input(a);
    sh.input(b);
    let mut out1 = [0u8; 32];
    sh.result(&mut out1);
    let mut joined = a.to_vec();
    joined.extend_from_slice(b);
    assert_eq!(hex(&out1), digest_hex(&joined));
}

#[test]
fn result_may_be_called_repeatedly() {
    let mut sh = Sha256::new();
    sh.input(b"abc");
    let mut out1 = [0u8; 32];
    let mut out2 = [0u8; 32];
    sh.result(&mut out1);
    sh.result(&mut out2);
    assert_eq!(out1, out2);
    assert_eq!(
        hex(&out2),
        "ba7816bf8f01cfea414140de5dae2223b00361a396177a9cb410ff61f20015ad"
    );
}

#[test]
fn reset_starts_over() {
    let mut sh = Sha256::new();
    sh.input(b"some earlier message");
    let mut out = [0u8; 32];
    sh.result(&mut out);
    sh.reset();
    sh.input(b"abc");
    sh.result(&mut out);
    assert_eq!(
        hex(&out),
        "ba7816bf8f01cfea414140de5dae2223b00361a396177a9cb410ff61f20015ad"
    );
}

#[test]
fn result_leaves_rest_of_output_unchanged() {
    let mut sh = Sha256::new();
    sh.input(b"abc");
    let mut out = [0xeeu8; 40];
    sh.result(&mut out);
    assert_eq!(
        hex(&out[..32]),
        "ba7816bf8f01cfea414140de5dae2223b00361a396177a9cb410ff61f20015ad"
    );
    assert_eq!(&out[32..], &[0xeeu8; 8]);
}

#[test]
fn output_bits_is_256() {
    let sh = Sha256::new();
    assert_eq!(sh.output_bits(), 256);
}

#[test]
fn input_str_is_input_of_bytes() {
    let mut sh = Sha256::new();
    sh.input_str("abc");
    let mut out = [0u8; 32];
    sh.result(&mut out);
    assert_eq!(
        hex(&out),
        "ba7816bf8f01cfea414140de5dae2223b00361a396177a9cb410ff61f20015ad"
    );
}

#[test]
fn result_str_is_hex_of_digest() {
    let mut sh = Sha256::new();
    sh.input(b"abc");
    assert_eq!(
        sh.result_str(),
        "ba7816bf8f01cfea414140de5dae2223b00361a396177a9cb410ff61f20015ad"
    );
    // The result is computed: asking again gives the same digest.
    let mut out = [0u8; 32];
    sh.result(&mut out);
    assert_eq!(
        hex(&out),
        "ba7816bf8f01cfea414140de5dae2223b00361a396177a9cb410ff61f20015ad"
    );
}

#[test]
fn result_str_of_empty_message() {
    let mut sh = Sha256::new();
    assert_eq!(
        sh.result_str(),
        "e3b0c44298fc1c149afbf4c8996fb92427ae41e4649b934ca495991b7852b855"
    );
}
