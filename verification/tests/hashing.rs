use eth_codec::{keccak256, keccak512, sha256};

fn hex(text: &str) -> Vec<u8> {
    let digits: Vec<u8> = text
        .bytes()
        .map(|c| match c {
            b'0'..=b'9' => c - b'0',
            b'a'..=b'f' => c - b'a' + 10,
            _ => panic!("not a hex digit: {}", c as char),
        })
        .collect();
    assert!(digits.len() % 2 == 0);
    digits.chunks(2).map(|pair| pair[0] * 16 + pair[1]).collect()
}

#[test]
fn hashing_keccak256_of_empty_input() {
    assert_eq!(
        keccak256(b"").to_vec(),
        hex("c5d2460186f7233c927e7db2dcc703c0e500b653ca82273b7bfad8045d85a470")
    );
}

#[test]
fn hashing_sha256_of_empty_input() {
    assert_eq!(
        sha256(b"").to_vec(),
        hex("e3b0c44298fc1c149afbf4c8996fb92427ae41e4649b934ca495991b7852b855")
    );
}

#[test]
fn hashing_keccak512_of_empty_input() {
    assert_eq!(
        keccak512(b"").to_vec(),
        hex(
            "0eab42de4c3ceb9235fc91acffe746b29c29a8c366b7c60e4e67c466f36a4304\
             c00fa9caf9d87976ba469bcbe06713b435f091ef2769fb160cdab33d3670680e"
        )
    );
}

#[test]
fn hashing_sha256_of_abc() {
    assert_eq!(
        sha256(b"abc").to_vec(),
        hex("ba7816bf8f01cfea414140de5dae2223b00361a396177a9cb410ff61f20015ad")
    );
}

#[test]
fn hashing_keccak256_of_abc() {
    assert_eq!(
        keccak256(b"abc").to_vec(),
        hex("4e03657aea45a94fc7d47ba826c8d667c0d1e6e33a64a036ec44f58fa12d6c45")
    );
}

#[test]
fn hashing_keccak256_is_not_sha3_256() {
    // SHA3-256 of the empty input, which differs from Keccak-256 only in padding.
    let sha3 = hex("a7ffc6f8bf1ed76651c14756a061d662f580ff4de43b49fa82d80a4b80f8434a");
    assert_ne!(keccak256(b"").to_vec(), sha3);
}

#[test]
fn hashing_keccak_agrees_with_a_second_implementation() {
    let mut input: Vec<u8> = Vec::new();
    for round in 0..300usize {
        assert_eq!(keccak256(&input), sp_crypto_hashing::keccak_256(&input), "length {}", round);
        assert_eq!(keccak512(&input), sp_crypto_hashing::keccak_512(&input), "length {}", round);
        input.push((round * 7 + 3) as u8);
    }
}

#[test]
fn hashing_digests_change_with_one_bit_of_input() {
    let a = [0u8; 64];
    let mut b = [0u8; 64];
    b[63] = 1;
    assert_ne!(keccak256(&a), keccak256(&b));
    assert_ne!(keccak512(&a), keccak512(&b));
    assert_ne!(sha256(&a), sha256(&b));
}

#[test]
fn hashing_digests_are_not_the_input() {
    let input = [7u8; 32];
    assert_ne!(keccak256(&input), input);
    assert_ne!(sha256(&input), input);
    let wide = [7u8; 64];
    assert_ne!(keccak512(&wide), wide);
}

#[test]
fn hashing_is_repeatable() {
    let input = b"the same bytes";
    assert_eq!(keccak256(input), keccak256(input));
    assert_eq!(keccak512(input), keccak512(input));
    assert_eq!(sha256(input), sha256(input));
}
