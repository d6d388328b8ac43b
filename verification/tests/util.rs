use track_extract::util::{core_nums, hash_file};

#[test]
fn hash_of_empty_input_is_the_known_digest() {
    assert_eq!(
        hash_file(vec![]),
        "af1349b9f5f9a1a6a0404dea36dcc9499bcb25c9adc112b7cc9a93cae41f3262"
    );
}

#[test]
fn hash_agrees_with_the_hasher() {
    let bytes = b"some uploaded file".to_vec();
    let expected = blake3::hash(b"some uploaded file").to_string();
    assert_eq!(hash_file(bytes), expected);
}

#[test]
fn hash_is_64_lowercase_hex_chars() {
    let h = hash_file(vec![0, 1, 2, 3]);
    assert_eq!(h.len(), 64);
    assert!(h.chars().all(|c| c.is_ascii_hexdigit() && !c.is_ascii_uppercase()));
}

#[test]
fn different_bytes_hash_differently() {
    assert_ne!(hash_file(vec![0]), hash_file(vec![1]));
}

#[test]
fn at_least_one_core() {
    assert!(core_nums() >= 1);
}
