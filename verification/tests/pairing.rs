use zync::pairing::derive_ntfy_topic;

#[test]
fn topic_is_deterministic() {
    assert_eq!(derive_ntfy_topic("12345678"), derive_ntfy_topic("12345678"));
}

#[test]
fn topic_is_64_hex_chars() {
    let t = derive_ntfy_topic("12345678");
    assert_eq!(t.len(), 64);
    assert!(t.chars().all(|c| c.is_ascii_hexdigit()));
}

#[test]
fn different_inputs_produce_different_topics() {
    assert_ne!(derive_ntfy_topic("111"), derive_ntfy_topic("222"));
}

#[test]
fn topic_is_lowercase_sha256_hex() {
    // SHA-256("abc")
    assert_eq!(
        derive_ntfy_topic("abc"),
        "ba7816bf8f01cfea414140de5dae2223b00361a396177a9cb410ff61f20015ad"
    );
    assert_eq!(
        derive_ntfy_topic(""),
        "e3b0c44298fc1c149afbf4c8996fb92427ae41e4649b934ca495991b7852b855"
    );
}
