use block_confidence_monitor::hash::{
    full_hash_key, parse_hex_hash, resolve_hash_key, same_hash, short_text_of_hash, text_of_hash,
    HashRegistry, LogHash,
};
use block_confidence_monitor::hex::{decode, encode};

fn hash(first: u8, last: u8) -> [u8; 32] {
    let mut h = [0x11u8; 32];
    h[0] = first;
    h[31] = last;
    h
}

#[test]
fn hex_round_trip() {
    let bytes: Vec<u8> = (0..=255).collect();
    let text = encode(&bytes);
    assert_eq!(text.len(), 512);
    assert_eq!(&text[..8], "00010203");
    assert_eq!(&text[506..], "fdfeff");
    assert_eq!(decode(&text), Ok(bytes));
    assert_eq!(encode(&[]), "");
    assert_eq!(decode(""), Ok(vec![]));
}

#[test]
fn hex_in_either_case() {
    assert_eq!(decode("aBcD"), Ok(vec![0xab, 0xcd]));
    assert_eq!(decode("+f0a"), Ok(vec![0x0f, 0x0a]));
}

#[test]
fn hex_errors() {
    assert_eq!(decode("abc"), Err("odd length".to_string()));
    assert_eq!(decode("zz"), Err("invalid digit found in string".to_string()));
    assert_eq!(decode("0x12"), Err("invalid digit found in string".to_string()));
}

#[test]
fn whole_hashes_are_read() {
    let h = hash(0xab, 0xcd);
    let text = text_of_hash(&h);
    assert_eq!(text.len(), 66);
    assert!(text.starts_with("0xab11"));
    assert_eq!(parse_hex_hash(&text), Some(h));
    assert_eq!(parse_hex_hash(&text[2..]), Some(h));
    assert_eq!(parse_hex_hash(&text[3..]), None);
    assert_eq!(parse_hex_hash("0x"), None);
    assert_eq!(parse_hex_hash(&format!("0x{}zz", &text[4..])), None);
}

#[test]
fn hashes_from_texts() {
    let text = text_of_hash(&hash(1, 2));
    let full = LogHash::from_full(&text);
    assert_eq!(full.raw, text);
    assert_eq!(full.full, Some(hash(1, 2)));
    let truncated = LogHash::from_truncated(&text);
    assert_eq!(truncated.full, None);
    assert_eq!(LogHash::from_auto(&text).full, Some(hash(1, 2)));
    assert_eq!(LogHash::from_auto("0x0111…1102").full, None);
    assert_eq!(LogHash::from_auto("0x0111").full, None);
    assert_eq!(LogHash::from_full("0x0111").full, None);
}

#[test]
fn short_and_whole_texts() {
    let text = text_of_hash(&hash(1, 2));
    let h = LogHash::from_full(&text);
    assert_eq!(h.short(), "0x011111111111");
    assert_eq!(LogHash::from_auto("0x0111…1102").short(), "0x0111…1102");
    assert_eq!(h.to_text(), text);
    assert_eq!(LogHash::from_auto("0x0111…1102").to_text(), "0x0111…1102");
    assert_eq!(short_text_of_hash(&hash(1, 2)), "0x0111…1102");
}

#[test]
fn truncated_hashes_match() {
    let h = LogHash::from_auto("0xab11…11cd");
    assert!(h.matches_full(&hash(0xab, 0xcd)));
    assert!(!h.matches_full(&hash(0xab, 0xce)));
    assert!(!h.matches_full(&hash(0xac, 0xcd)));
    assert!(!LogHash::from_auto("0xab11").matches_full(&hash(0xab, 0xcd)));
    assert!(!LogHash::from_auto("0xab…11…11cd").matches_full(&hash(0xab, 0xcd)));
    let full = LogHash::from_full(&text_of_hash(&hash(3, 4)));
    assert!(full.matches_full(&hash(3, 4)));
    assert!(!full.matches_full(&hash(3, 5)));
    assert!(same_hash(&hash(3, 4), &hash(3, 4)));
    assert!(!same_hash(&hash(3, 4), &hash(3, 5)));
}

#[test]
fn registered_hashes_are_found() {
    let mut registry = HashRegistry::new();
    registry.register_full(&text_of_hash(&hash(0xab, 0xcd)));
    registry.register_full("not a hash");
    assert_eq!(registry.resolve("0xab11…11cd"), Some(hash(0xab, 0xcd)));
    assert_eq!(registry.resolve(&text_of_hash(&hash(0xab, 0xcd))), Some(hash(0xab, 0xcd)));
    assert_eq!(registry.resolve("0xab11…11ce"), None);
    assert_eq!(registry.resolve("0xab1111cd"), None);
}

#[test]
fn the_last_registration_counts() {
    let mut a = hash(0xab, 0xcd);
    let mut registry = HashRegistry::default();
    registry.register_full(&text_of_hash(&a));
    let first = a;
    a[10] = 0x77;
    registry.register_full(&text_of_hash(&a));
    assert_eq!(registry.resolve("0xab11…11cd"), Some(a));
    assert_eq!(registry.resolve(&text_of_hash(&first)), Some(first));
    registry.register_full(&text_of_hash(&hash(9, 9)));
    assert_eq!(registry.resolve("0xab11…11cd"), Some(a));
}

#[test]
fn registries_are_joined() {
    let mut a = HashRegistry::new();
    a.register_full(&text_of_hash(&hash(1, 1)));
    let mut other = hash(1, 1);
    other[5] = 0;
    let mut b = HashRegistry::new();
    b.register_full(&text_of_hash(&other));
    b.register_full(&text_of_hash(&hash(2, 2)));
    a.absorb(&b);
    assert_eq!(a.resolve("0x0111…1101"), Some(other));
    assert_eq!(a.resolve("0x0211…1102"), Some(hash(2, 2)));
    assert_eq!(a.resolve(&text_of_hash(&hash(1, 1))), Some(hash(1, 1)));
}

#[test]
fn truncated_and_whole_hashes_have_one_key() {
    let mut registry = HashRegistry::new();
    registry.register_full(&text_of_hash(&hash(7, 8)));
    let short = LogHash::from_auto(&short_text_of_hash(&hash(7, 8)));
    let whole = LogHash::from_auto(&text_of_hash(&hash(7, 8)));
    assert_eq!(resolve_hash_key(&short, &registry), full_hash_key(&whole));
    assert_eq!(resolve_hash_key(&whole, &HashRegistry::new()), full_hash_key(&whole));
}

#[test]
fn hashes_are_resolved() {
    let mut registry = HashRegistry::new();
    registry.register_full(&text_of_hash(&hash(1, 1)));
    let mut h = LogHash::from_auto("0x0111…1101");
    assert_eq!(full_hash_key(&h), "0x0111…1101");
    assert_eq!(resolve_hash_key(&h, &registry), text_of_hash(&hash(1, 1)));
    h.resolve(&registry);
    assert_eq!(h.full, Some(hash(1, 1)));
    assert_eq!(h.raw, "0x0111…1101");
    assert_eq!(full_hash_key(&h), text_of_hash(&hash(1, 1)));
    let mut unknown = LogHash::from_auto("0x0911…1101");
    unknown.resolve(&registry);
    assert_eq!(unknown.full, None);
    assert_eq!(resolve_hash_key(&unknown, &registry), "0x0911…1101");
}
