use digest::Digest;
use fast_dedup::hasher::{
    algorithm_from_lowercase, hash_bytes, select_algorithm, ContentHasher, HashAlgorithm,
    ReadStep, CHUNK_SIZE,
};

#[test]
fn known_digests() {
    assert_eq!(hash_bytes(HashAlgorithm::Md5, b""), "d41d8cd98f00b204e9800998ecf8427e");
    assert_eq!(hash_bytes(HashAlgorithm::Md5, b"abc"), "900150983cd24fb0d6963f7d28e17f72");
    assert_eq!(
        hash_bytes(HashAlgorithm::Sha1, b"abc"),
        "a9993e364706816aba3e25717850c26c9cd0d89d"
    );
    assert_eq!(
        hash_bytes(HashAlgorithm::Sha256, b"abc"),
        "ba7816bf8f01cfea414140de5dae2223b00361a396177a9cb410ff61f20015ad"
    );
}

#[test]
fn keys_agree_with_the_digest_crates() {
    let data = b"The quick brown fox jumps over the lazy dog";
    assert_eq!(hash_bytes(HashAlgorithm::Md5, data), hex::encode(md5::Md5::digest(data)));
    assert_eq!(hash_bytes(HashAlgorithm::Sha1, data), hex::encode(sha1::Sha1::digest(data)));
    assert_eq!(hash_bytes(HashAlgorithm::Sha256, data), hex::encode(sha2::Sha256::digest(data)));
}

#[test]
fn chunks_give_the_digest_of_the_whole() {
    let data: Vec<u8> = (0..50000u32).map(|i| (i % 251) as u8).collect();
    for algorithm in [HashAlgorithm::Md5, HashAlgorithm::Sha1, HashAlgorithm::Sha256] {
        let mut hasher = ContentHasher::new(algorithm);
        for chunk in data.chunks(CHUNK_SIZE) {
            hasher.update(chunk);
        }
        assert_eq!(hasher.finish(), hash_bytes(algorithm, &data));
    }
}

#[test]
fn same_content_same_key_different_content_different_key() {
    let a = hash_bytes(HashAlgorithm::Md5, b"XXXXXXXXXX");
    let b = hash_bytes(HashAlgorithm::Md5, b"XXXXXXXXXX");
    let c = hash_bytes(HashAlgorithm::Md5, b"YYYYYYYYYY");
    assert_eq!(a, b);
    assert_ne!(a, c);
}

#[test]
fn key_is_lowercase_hex_of_digest_length() {
    assert_eq!(hash_bytes(HashAlgorithm::Md5, b"x").len(), 32);
    assert_eq!(hash_bytes(HashAlgorithm::Sha1, b"x").len(), 40);
    assert_eq!(hash_bytes(HashAlgorithm::Sha256, b"x").len(), 64);
    let key = hash_bytes(HashAlgorithm::Sha256, b"x");
    assert!(key.chars().all(|c| c.is_ascii_digit() || ('a'..='f').contains(&c)));
}

#[test]
fn reads_are_absorbed_until_the_end() {
    let mut buffer = [0u8; 16];
    buffer[..5].copy_from_slice(b"hello");
    let mut hasher = ContentHasher::new(HashAlgorithm::Sha1);
    assert_eq!(hasher.absorb_read(&buffer, Some(5)), ReadStep::Continue);
    buffer[..6].copy_from_slice(b" world");
    assert_eq!(hasher.absorb_read(&buffer, Some(6)), ReadStep::Continue);
    assert_eq!(hasher.absorb_read(&buffer, Some(0)), ReadStep::Finished);
    assert_eq!(hasher.finish(), hash_bytes(HashAlgorithm::Sha1, b"hello world"));
}

#[test]
fn failed_read_absorbs_nothing() {
    let buffer = [7u8; 8];
    let mut hasher = ContentHasher::new(HashAlgorithm::Md5);
    assert_eq!(hasher.absorb_read(&buffer, None), ReadStep::Failed);
    assert_eq!(hasher.absorb_read(&buffer, Some(9)), ReadStep::Failed);
    assert_eq!(hasher.finish(), hash_bytes(HashAlgorithm::Md5, b""));
}

#[test]
fn selects_algorithm_by_name() {
    assert_eq!(select_algorithm("md5"), HashAlgorithm::Md5);
    assert_eq!(select_algorithm("MD5"), HashAlgorithm::Md5);
    assert_eq!(select_algorithm("SHA256"), HashAlgorithm::Sha256);
    assert_eq!(select_algorithm("sha1"), HashAlgorithm::Sha1);
    assert_eq!(select_algorithm("Sha1"), HashAlgorithm::Sha1);
    assert_eq!(select_algorithm("use-sha256-please"), HashAlgorithm::Sha256);
    assert_eq!(select_algorithm("sha1 or sha256"), HashAlgorithm::Sha256);
    assert_eq!(select_algorithm(""), HashAlgorithm::Md5);
    assert_eq!(select_algorithm("sha512"), HashAlgorithm::Md5);
    assert_eq!(select_algorithm("sha-256"), HashAlgorithm::Md5);
    assert_eq!(select_algorithm("crc32"), HashAlgorithm::Md5);
}

#[test]
fn lowercase_name_is_taken_as_it_is() {
    assert_eq!(algorithm_from_lowercase("sha256"), HashAlgorithm::Sha256);
    assert_eq!(algorithm_from_lowercase("SHA256"), HashAlgorithm::Md5);
    assert_eq!(algorithm_from_lowercase("xsha1x"), HashAlgorithm::Sha1);
}
