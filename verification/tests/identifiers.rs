use pst_extractor::ident::{sha256_bytes, stable_uuid};

#[test]
fn sha256_hex_of_known_input() {
    assert_eq!(
        sha256_bytes(b"abc"),
        "ba7816bf8f01cfea414140de5dae2223b00361a396177a9cb410ff61f20015ad"
    );
    assert_eq!(
        sha256_bytes(b""),
        "e3b0c44298fc1c149afbf4c8996fb92427ae41e4649b934ca495991b7852b855"
    );
}

#[test]
fn same_seed_gives_bit_identical_identifier() {
    let seed = "pst:b1|src:a/b|mid:<id@x>|idx:0";
    let first = stable_uuid(seed);
    let second = stable_uuid(seed);
    assert_eq!(first, second);
}

#[test]
fn changing_any_seed_component_changes_the_identifier() {
    let base = stable_uuid("pst:b1|src:a/b|mid:<id@x>|idx:0");
    assert_ne!(base, stable_uuid("pst:b2|src:a/b|mid:<id@x>|idx:0"));
    assert_ne!(base, stable_uuid("pst:b1|src:a/c|mid:<id@x>|idx:0"));
    assert_ne!(base, stable_uuid("pst:b1|src:a/b|mid:<other@x>|idx:0"));
    assert_ne!(base, stable_uuid("pst:b1|src:a/b|mid:<id@x>|idx:1"));
}

#[test]
fn identifier_is_uuid_shaped_and_derived_from_the_seed_digest() {
    let seed = "pst:b1|src:a/b|mid:<id@x>|idx:0";
    let id = stable_uuid(seed);
    assert_eq!(id.len(), 36);
    let chars: Vec<char> = id.chars().collect();
    assert_eq!(chars[8], '-');
    assert_eq!(chars[13], '-');
    assert_eq!(chars[18], '-');
    assert_eq!(chars[23], '-');

    let digest_hex = sha256_bytes(seed.as_bytes());
    let digits: Vec<char> = id.chars().filter(|c| *c != '-').collect();
    let expected: Vec<char> = digest_hex.chars().take(32).collect();
    assert_eq!(digits.len(), 32);
    // Identical to the digest except the forced version nibble and the
    // forced variant bits.
    for (i, d) in digits.iter().enumerate() {
        if i == 12 {
            assert_eq!(*d, '5');
        } else if i == 16 {
            assert!(matches!(*d, '8' | '9' | 'a' | 'b'));
        } else {
            assert_eq!(*d, expected[i], "digit {} differs", i);
        }
    }
}
