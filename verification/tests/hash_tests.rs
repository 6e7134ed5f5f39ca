use frzr::hash::hash_chunks;
use frzr::hash::to_hex;
use frzr::hash::ContentHasher;
use frzr::hash::HashStep;
use frzr::hash::CHUNK_SIZE;

const EMPTY_DIGEST: &str = "e3b0c44298fc1c149afbf4c8996fb92427ae41e4649b934ca495991b7852b855";
const ABC_DIGEST: &str = "ba7816bf8f01cfea414140de5dae2223b00361a396177a9cb410ff61f20015ad";

#[test]
fn empty_input_has_the_well_known_digest() {
    let hasher = ContentHasher::new();
    let text = hasher.finalize();
    assert_eq!(text, EMPTY_DIGEST);
    assert_eq!(text.len(), 64);
    assert!(text.chars().all(|c| c.is_ascii_digit() || ('a'..='f').contains(&c)));
}

#[test]
fn empty_stream_of_chunks_has_the_empty_digest() {
    let chunks: Vec<Vec<u8>> = Vec::new();
    assert_eq!(hash_chunks(&chunks), Some(EMPTY_DIGEST.to_string()));
    let one_empty: Vec<Vec<u8>> = vec![Vec::new()];
    assert_eq!(hash_chunks(&one_empty), Some(EMPTY_DIGEST.to_string()));
}

#[test]
fn abc_has_its_known_digest() {
    let chunks: Vec<Vec<u8>> = vec![b"abc".to_vec()];
    assert_eq!(hash_chunks(&chunks), Some(ABC_DIGEST.to_string()));
}

#[test]
fn digest_is_not_the_hex_of_the_input() {
    let chunks: Vec<Vec<u8>> = vec![b"abc".to_vec()];
    let text = hash_chunks(&chunks).unwrap();
    assert_ne!(text, to_hex(b"abc"));
    assert_ne!(text, EMPTY_DIGEST);
}

#[test]
fn cutting_the_stream_differently_gives_the_same_digest() {
    let whole: Vec<Vec<u8>> = vec![b"hello world".to_vec()];
    let cut: Vec<Vec<u8>> = vec![b"hel".to_vec(), b"".to_vec(), b"lo wor".to_vec(), b"ld".to_vec()];
    let bytes: Vec<Vec<u8>> = b"hello world".iter().map(|b| vec![*b]).collect();
    let expected = "b94d27b9934d3e08a52e52d7da7dabfac484efe37a5380ee9088f7ace2efcde9";
    assert_eq!(hash_chunks(&whole), Some(expected.to_string()));
    assert_eq!(hash_chunks(&cut), Some(expected.to_string()));
    assert_eq!(hash_chunks(&bytes), Some(expected.to_string()));
}

#[test]
fn update_appends_to_the_input() {
    let mut hasher = ContentHasher::new();
    assert!(hasher.update(b"a"));
    assert!(hasher.update(b"bc"));
    assert_eq!(hasher.finalize(), ABC_DIGEST);
}

#[test]
fn step_takes_chunks_until_an_empty_one() {
    let hasher = ContentHasher::new();
    let hasher = match hasher.step(b"ab") {
        HashStep::More(next) => next,
        _ => panic!("a chunk with bytes in it is more input"),
    };
    let hasher = match hasher.step(b"c") {
        HashStep::More(next) => next,
        _ => panic!("a chunk with bytes in it is more input"),
    };
    match hasher.step(b"") {
        HashStep::Done(text) => assert_eq!(text, ABC_DIGEST),
        _ => panic!("an empty chunk ends the stream"),
    }
}

#[test]
fn step_on_an_empty_stream_gives_the_empty_digest() {
    match ContentHasher::new().step(&[]) {
        HashStep::Done(text) => assert_eq!(text, EMPTY_DIGEST),
        _ => panic!("an empty chunk ends the stream"),
    }
}

#[test]
fn a_stream_longer_than_one_chunk_is_hashed_whole() {
    let data: Vec<u8> = (0..10000u32).map(|i| (i % 251) as u8).collect();
    let mut hasher = ContentHasher::new();
    for chunk in data.chunks(CHUNK_SIZE) {
        hasher = match hasher.step(chunk) {
            HashStep::More(next) => next,
            _ => panic!("a chunk with bytes in it is more input"),
        };
    }
    let chunked = hasher.finalize();
    let whole: Vec<Vec<u8>> = vec![data.clone()];
    assert_eq!(Some(chunked), hash_chunks(&whole));
    assert_eq!(CHUNK_SIZE, 4096);
}

#[test]
fn hex_has_two_lowercase_digits_per_byte() {
    assert_eq!(to_hex(&[]), "");
    assert_eq!(to_hex(&[0x00]), "00");
    assert_eq!(to_hex(&[0x0a, 0x14, 0x1e]), "0a141e");
    assert_eq!(to_hex(&[0xff, 0x10, 0x01, 0xab, 0xcd, 0xef]), "ff1001abcdef");
    assert_eq!(to_hex(&[0x9f, 0xa0]), "9fa0");
}
