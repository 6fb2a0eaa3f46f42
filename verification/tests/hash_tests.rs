use rnot::hashing::{compute_hash, generate_id};

#[test]
fn hash_of_empty_content_is_the_known_digest() {
    assert_eq!(
        compute_hash(""),
        "e3b0c44298fc1c149afbf4c8996fb92427ae41e4649b934ca495991b7852b855"
    );
}

#[test]
fn hash_is_sixty_four_lowercase_hex_digits() {
    let h = compute_hash("some page content");
    assert_eq!(h.len(), 64);
    assert!(h.chars().all(|c| c.is_ascii_hexdigit() && !c.is_ascii_uppercase()));
}

#[test]
fn different_content_hashes_differently() {
    assert_ne!(compute_hash("alpha"), compute_hash("beta"));
}

#[test]
fn id_is_deterministic_for_the_same_url() {
    let a = generate_id("https://example.test/page");
    let b = generate_id("https://example.test/page");
    assert_eq!(a, b);
}

#[test]
fn id_is_the_digest_prefix() {
    assert_eq!(generate_id(""), "e3b0c44298fc1c14");
}

#[test]
fn ids_of_distinct_urls_differ() {
    let a = generate_id("https://example.test/a");
    let b = generate_id("https://example.test/b");
    assert_ne!(a, b);
    assert_eq!(a.len(), 16);
    assert_eq!(b.len(), 16);
}
