use pgextkit::shmem::{SharedDictionary, KEY_BYTES, MAX_ATTACHMENTS};

#[test]
fn insert_then_get_round_trip() {
    let mut d = SharedDictionary::new();
    d.insert("LOCK", "PgDynamicLwLock", 4096);
    assert_eq!(d.get("LOCK"), Some(4096));
    assert_eq!(d.type_tag("LOCK"), Some(String::from("PgDynamicLwLock")));
    assert_eq!(d.len(), 1);
}

#[test]
fn missing_name_is_none() {
    let mut d = SharedDictionary::new();
    assert_eq!(d.get("LATCH"), None);
    d.insert("LOCK", "t", 1);
    assert_eq!(d.get("LATCH"), None);
    assert_eq!(d.type_tag("LATCH"), None);
}

#[test]
fn second_insert_keeps_first_entry() {
    let mut d = SharedDictionary::new();
    d.insert("COUNTER", "u64", 100);
    d.insert("COUNTER", "u32", 200);
    assert_eq!(d.get("COUNTER"), Some(100));
    assert_eq!(d.type_tag("COUNTER"), Some(String::from("u64")));
    assert_eq!(d.len(), 1);
}

#[test]
fn full_registry_ignores_new_keys() {
    let mut d = SharedDictionary::new();
    for i in 0..MAX_ATTACHMENTS {
        d.insert(&format!("key-{}", i), "t", i);
    }
    assert_eq!(d.len(), 8192);
    d.insert("key-8192", "t", 8192);
    assert_eq!(d.get("key-8192"), None);
    assert_eq!(d.len(), 8192);
    for i in 0..MAX_ATTACHMENTS {
        assert_eq!(d.get(&format!("key-{}", i)), Some(i));
    }
}

#[test]
fn overlong_ascii_key_is_cut_to_the_bound() {
    let mut d = SharedDictionary::new();
    let long = "a".repeat(120);
    d.insert(&long, "t", 7);
    // any name with the same first 96 bytes finds the entry
    let other = format!("{}{}", "a".repeat(96), "zzz");
    assert_eq!(d.get(&other), Some(7));
    assert_eq!(d.get(&"a".repeat(96)), Some(7));
    assert_eq!(d.get(&"a".repeat(95)), None);
    let listed = d.entries();
    assert_eq!(listed.len(), 1);
    assert_eq!(listed[0].0.len(), KEY_BYTES);
}

#[test]
fn truncation_never_splits_a_character() {
    let mut d = SharedDictionary::new();
    // 95 ASCII bytes, then a two-byte character that would end at byte 97
    let name = format!("{}é", "b".repeat(95));
    d.insert(&name, "t", 3);
    let listed = d.entries();
    assert_eq!(listed[0].0, "b".repeat(95));
    assert_eq!(d.get(&"b".repeat(95)), Some(3));
    // 32 three-byte characters fill exactly 96 bytes
    let wide = "€".repeat(33);
    d.insert(&wide, "t", 4);
    assert_eq!(d.get(&"€".repeat(32)), Some(4));
}

#[test]
fn entries_lists_each_pair() {
    let mut d = SharedDictionary::new();
    d.insert("LOCK", "lock", 1);
    d.insert("LATCH", "latch", 2);
    let mut listed = d.entries();
    listed.sort();
    assert_eq!(
        listed,
        vec![
            (String::from("LATCH"), String::from("latch")),
            (String::from("LOCK"), String::from("lock")),
        ]
    );
}
