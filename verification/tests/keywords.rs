use std::collections::HashMap;

use git_zoxide::db::Keywords;
use git_zoxide::errors::Error;

fn file_of(entries: &[(&str, u64)]) -> Vec<u8> {
    let mut bytes = vec![1u8, 0, 0, 0];
    bytes.extend((entries.len() as u64).to_le_bytes());
    for (key, expiry) in entries {
        bytes.extend((key.len() as u64).to_le_bytes());
        bytes.extend(key.as_bytes());
        bytes.extend(expiry.to_le_bytes());
    }
    bytes
}

#[test]
fn missing_file_is_an_empty_cache() {
    let cache = Keywords::open("/data/keywords".to_string(), None, 5).unwrap();
    assert!(cache.list().is_empty());
    assert_eq!(cache.path(), "/data/keywords");
    assert_eq!(cache.save(), vec![1, 0, 0, 0, 0, 0, 0, 0, 0, 0, 0, 0]);
}

#[test]
fn add_expires_after_one_day() {
    let mut cache = Keywords::open("k".to_string(), None, 5).unwrap();
    cache.add("web", 1000);
    assert_eq!(cache.save(), file_of(&[("web", 1000 + 86400)]));
    cache.add("web", 2000);
    assert_eq!(cache.save(), file_of(&[("web", 2000 + 86400)]));
}

#[test]
fn get_gives_the_expiry() {
    let mut cache = Keywords::open("k".to_string(), None, 5).unwrap();
    cache.add("web", 1000);
    cache.add("api", 7);
    assert_eq!(cache.get("web"), Some(1000 + 86400));
    assert_eq!(cache.get("api"), Some(7 + 86400));
    assert_eq!(cache.get("we"), None);
    assert_eq!(cache.get(""), None);
}

#[test]
fn list_is_sorted_and_holds_each_keyword_once() {
    let mut cache = Keywords::open("k".to_string(), None, 5).unwrap();
    for key in ["pear", "apple", "zoo", "apple", "Apple", "app", "\u{e9}clair", ""] {
        cache.add(key, 10);
    }
    assert_eq!(cache.list(), vec!["", "Apple", "app", "apple", "pear", "zoo", "\u{e9}clair"]);
    let mut expected = vec!["", "Apple", "app", "apple", "pear", "zoo", "\u{e9}clair"];
    expected.sort_by(|a, b| a.cmp(b));
    assert_eq!(cache.list(), expected);
}

#[test]
fn expired_entries_are_dropped_on_open() {
    let bytes = file_of(&[("old", 99), ("edge", 100), ("new", 101)]);
    let cache = Keywords::open("k".to_string(), Some(&bytes), 100).unwrap();
    assert_eq!(cache.list(), vec!["edge", "new"]);
    let later = Keywords::open("k".to_string(), Some(&bytes), 102).unwrap();
    assert!(later.list().is_empty());
}

#[test]
fn a_later_entry_replaces_an_earlier_one() {
    let bytes = file_of(&[("k", 500), ("k", 50)]);
    let cache = Keywords::open("k".to_string(), Some(&bytes), 100).unwrap();
    assert!(cache.list().is_empty());
    let bytes = file_of(&[("k", 50), ("k", 500)]);
    let cache = Keywords::open("k".to_string(), Some(&bytes), 100).unwrap();
    assert_eq!(cache.save(), file_of(&[("k", 500)]));
}

#[test]
fn save_and_open_round_trip() {
    let mut cache = Keywords::open("k".to_string(), None, 0).unwrap();
    cache.add("b", 7);
    cache.add("a", 9);
    let bytes = cache.save();
    assert_eq!(bytes, file_of(&[("a", 9 + 86400), ("b", 7 + 86400)]));
    let again = Keywords::open("k".to_string(), Some(&bytes), 9).unwrap();
    assert_eq!(again.save(), bytes);
    assert_eq!(again.list(), vec!["a", "b"]);
}

#[test]
fn file_of_bincode_is_read() {
    let mut map: HashMap<String, u64> = HashMap::new();
    map.insert("web".to_string(), 400);
    map.insert("api".to_string(), 300);
    map.insert("gone".to_string(), 5);
    let mut bytes = bincode::serialize(&1u32).unwrap();
    bytes.extend(bincode::serialize(&map).unwrap());
    let cache = Keywords::open("k".to_string(), Some(&bytes), 100).unwrap();
    assert_eq!(cache.list(), vec!["api", "web"]);
    let written = cache.save();
    let read: HashMap<String, u64> = bincode::deserialize(&written[4..]).unwrap();
    map.remove("gone");
    assert_eq!(read, map);
    assert_eq!(bincode::deserialize::<u32>(&written[..4]).unwrap(), 1);
}

#[test]
fn keyword_version_gate_and_truncation() {
    assert_eq!(
        Keywords::open("k".to_string(), Some(&[2, 0, 0, 0, 1]), 0).err(),
        Some(Error::UnsupportedVersion(2))
    );
    assert_eq!(Keywords::open("k".to_string(), Some(&[1, 0, 0]), 0).err(), Some(Error::CorruptData));
    assert_eq!(Keywords::deserialize(&[1, 0, 0, 0]), Err(Error::CorruptData));
    assert_eq!(
        Keywords::open("k".to_string(), Some(&[1, 0, 0, 0, 9]), 0).err(),
        Some(Error::CorruptData)
    );
    assert_eq!(Keywords::deserialize(&[]), Err(Error::CorruptData));
    let bytes = file_of(&[("a", 1), ("b", 2)]);
    for cut in 4..bytes.len() {
        assert_eq!(Keywords::deserialize(&bytes[..cut]), Err(Error::CorruptData));
    }
    assert_eq!(
        Keywords::deserialize(&bytes),
        Ok(vec![("a".to_string(), 1), ("b".to_string(), 2)])
    );
}
