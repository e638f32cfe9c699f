use git_zoxide::db::repo::MAX_RANK;
use git_zoxide::db::{Database, Repo};
use git_zoxide::errors::Error;

fn repo(remote: &str, name: &str, path: &str, last_accessed: u64, accessed: u64) -> Repo {
    Repo {
        remote: remote.to_string(),
        name: name.to_string(),
        path: path.to_string(),
        last_accessed,
        accessed,
    }
}

fn as_floats(repos: &[Repo]) -> Vec<(String, String, String, u64, f64)> {
    repos
        .iter()
        .map(|r| {
            (
                r.remote.clone(),
                r.name.clone(),
                r.path.clone(),
                r.last_accessed,
                r.accessed as f64,
            )
        })
        .collect()
}

fn reference_bytes(repos: &[Repo]) -> Vec<u8> {
    let mut bytes = bincode::serialize(&1u32).unwrap();
    bytes.extend(bincode::serialize(&as_floats(repos)).unwrap());
    bytes
}

#[test]
fn empty_store_round_trip() {
    let bytes = Database::serialize(&Vec::new()).unwrap();
    assert_eq!(bytes, vec![1, 0, 0, 0, 0, 0, 0, 0, 0, 0, 0, 0]);
    let repos = Database::deserialize(&bytes).unwrap();
    assert!(repos.is_empty());
}

#[test]
fn round_trip_keeps_every_field() {
    let repos = vec![
        repo("gh", "org/a", "", 0, 0),
        repo("gh", "org/b", "/abs/path", 1_700_000_000, 3),
        repo("other", "gr\u{fc}n/\u{4e2d}", "", u64::MAX, MAX_RANK),
    ];
    let bytes = Database::serialize(&repos).unwrap();
    assert_eq!(Database::deserialize(&bytes).unwrap(), repos);
}

#[test]
fn bytes_of_one_record_are_laid_out_field_by_field() {
    let repos = vec![repo("gh", "a", "", 258, 2)];
    let bytes = Database::serialize(&repos).unwrap();
    let mut expected: Vec<u8> = vec![1, 0, 0, 0];
    expected.extend([1, 0, 0, 0, 0, 0, 0, 0]);
    expected.extend([2, 0, 0, 0, 0, 0, 0, 0]);
    expected.extend(b"gh");
    expected.extend([1, 0, 0, 0, 0, 0, 0, 0]);
    expected.extend(b"a");
    expected.extend([0, 0, 0, 0, 0, 0, 0, 0]);
    expected.extend([2, 1, 0, 0, 0, 0, 0, 0]);
    expected.extend([0, 0, 0, 0, 0, 0, 0, 0x40]);
    assert_eq!(bytes, expected);
}

#[test]
fn written_bytes_are_those_of_bincode() {
    let repos = vec![
        repo("gh", "org/a", "", 5, 0),
        repo("gh", "org/b", "/tmp/b", 1_700_000_000, 1),
        repo("lab", "deep/er/name", "", 12, 1234567),
        repo("lab", "x", "", 12, MAX_RANK),
    ];
    assert_eq!(Database::serialize(&repos).unwrap(), reference_bytes(&repos));
}

#[test]
fn bytes_of_bincode_are_read() {
    let repos = vec![
        repo("gh", "org/a", "", 5, 7),
        repo("gh", "\u{e9}t\u{e9}", "/x", 9, 1 << 40),
    ];
    let bytes = reference_bytes(&repos);
    assert_eq!(Database::deserialize(&bytes).unwrap(), repos);
    let limited: Vec<(String, String, String, u64, f64)> = bincode::Options::deserialize(
        bincode::Options::with_limit(
            bincode::Options::with_fixint_encoding(bincode::options()),
            32 << 20,
        ),
        &bytes[4..],
    )
    .unwrap();
    assert_eq!(limited, as_floats(&repos));
}

#[test]
fn weights_are_binary64_numbers() {
    for weight in [0u64, 1, 2, 3, 4, 5, 1023, 1024, 1025, (1 << 52) + 1, MAX_RANK - 1, MAX_RANK] {
        let bytes = Database::serialize(&vec![repo("r", "n", "", 0, weight)]).unwrap();
        let tail: [u8; 8] = bytes[bytes.len() - 8..].try_into().unwrap();
        assert_eq!(u64::from_le_bytes(tail), (weight as f64).to_bits(), "weight {weight}");
        assert_eq!(Database::deserialize(&bytes).unwrap()[0].accessed, weight);
    }
}

#[test]
fn weight_beyond_the_limit_is_not_written() {
    let repos = vec![repo("r", "n", "", 0, MAX_RANK + 1)];
    assert_eq!(Database::serialize(&repos), Err(Error::Unencodable));
}

#[test]
fn weight_that_is_no_whole_number_is_corrupt() {
    for value in [0.5f64, 1.5, -1.0, -0.0, f64::NAN, f64::INFINITY, 9007199254740994.0, 1e300] {
        let mut bytes = Database::serialize(&vec![repo("r", "n", "", 0, 1)]).unwrap();
        let at = bytes.len() - 8;
        bytes[at..].copy_from_slice(&value.to_bits().to_le_bytes());
        assert_eq!(Database::deserialize(&bytes), Err(Error::CorruptData), "value {value}");
    }
}

#[test]
fn version_gate() {
    for version in [0u32, 2, 3, 255, 256, u32::MAX] {
        let mut bytes = version.to_le_bytes().to_vec();
        assert_eq!(Database::deserialize(&bytes), Err(Error::UnsupportedVersion(version)));
        bytes.extend([0xff; 40]);
        assert_eq!(Database::deserialize(&bytes), Err(Error::UnsupportedVersion(version)));
        bytes.truncate(4);
        bytes.extend([0u8; 8]);
        assert_eq!(Database::deserialize(&bytes), Err(Error::UnsupportedVersion(version)));
    }
}

#[test]
fn supported_version_without_a_body_is_corrupt() {
    assert_eq!(Database::deserialize(&[1, 0, 0, 0]), Err(Error::CorruptData));
    assert_eq!(Database::deserialize(&[1, 0, 0, 0, 0, 0, 0]), Err(Error::CorruptData));
    let mut counted = vec![1u8, 0, 0, 0];
    counted.extend([0xff; 8]);
    assert_eq!(Database::deserialize(&counted), Err(Error::CorruptData));
    assert_eq!(
        Database::open("p".to_string(), Some(&[1, 0, 0, 0])).err(),
        Some(Error::CorruptData)
    );
}

#[test]
fn truncation_safety() {
    for bytes in [vec![], vec![1u8], vec![1, 0], vec![1, 0, 0], vec![2, 0, 0]] {
        assert_eq!(Database::deserialize(&bytes), Err(Error::CorruptData));
    }
}

#[test]
fn every_cut_of_a_file_is_corrupt() {
    let repos = vec![repo("gh", "org/a", "/p", 5, 7), repo("gh", "org/b", "", 6, 8)];
    let bytes = Database::serialize(&repos).unwrap();
    for cut in 4..bytes.len() {
        assert_eq!(Database::deserialize(&bytes[..cut]), Err(Error::CorruptData), "cut {cut}");
    }
}

#[test]
fn trailing_bytes_are_corrupt() {
    let mut bytes = Database::serialize(&vec![repo("gh", "org/a", "", 5, 7)]).unwrap();
    bytes.push(0);
    assert_eq!(Database::deserialize(&bytes), Err(Error::CorruptData));
}

#[test]
fn text_that_is_not_utf8_is_corrupt() {
    let mut bytes = Database::serialize(&vec![repo("gh", "ab", "", 5, 7)]).unwrap();
    let at = 4 + 8 + 8 + 2 + 8;
    assert_eq!(&bytes[at..at + 2], b"ab");
    bytes[at] = 0xff;
    assert_eq!(Database::deserialize(&bytes), Err(Error::CorruptData));
}

#[test]
fn count_beyond_the_records_is_corrupt() {
    let mut bytes = Database::serialize(&vec![repo("gh", "ab", "", 5, 7)]).unwrap();
    bytes[4] = 2;
    assert_eq!(Database::deserialize(&bytes), Err(Error::CorruptData));
    bytes[4..12].copy_from_slice(&u64::MAX.to_le_bytes());
    assert_eq!(Database::deserialize(&bytes), Err(Error::CorruptData));
}

#[test]
fn file_over_the_size_limit_is_corrupt() {
    let long = "x".repeat(33 * 1024 * 1024);
    let repos = vec![repo("gh", &long, "", 0, 0)];
    let bytes = Database::serialize(&repos).unwrap();
    assert!(bytes.len() - 4 > 32 * 1024 * 1024);
    assert_eq!(Database::deserialize(&bytes), Err(Error::CorruptData));
}

#[test]
fn file_at_the_size_limit_is_read() {
    let room = 32 * 1024 * 1024 - 8 - (8 + 2) - 8 - 8 - 8 - 8;
    let long = "x".repeat(room);
    let repos = vec![repo("gh", &long, "", 0, 0)];
    let bytes = Database::serialize(&repos).unwrap();
    assert_eq!(bytes.len() - 4, 32 * 1024 * 1024);
    assert_eq!(Database::deserialize(&bytes).unwrap(), repos);
    let longer = vec![repo("gh", &"x".repeat(room + 1), "", 0, 0)];
    let bytes = Database::serialize(&longer).unwrap();
    assert_eq!(Database::deserialize(&bytes), Err(Error::CorruptData));
}

#[test]
fn missing_file_is_an_empty_store() {
    let db = Database::open("/data/database".to_string(), None).unwrap();
    assert_eq!(db.len(), 0);
    assert!(!db.dirty());
    assert_eq!(db.path(), "/data/database");
}

#[test]
fn open_reads_what_the_file_holds() {
    let repos = vec![repo("gh", "org/a", "", 5, 7)];
    let bytes = Database::serialize(&repos).unwrap();
    let db = Database::open("p".to_string(), Some(&bytes)).unwrap();
    assert_eq!(db.repos(), &repos);
    assert_eq!(Database::open("p".to_string(), Some(&[9, 0, 0, 0])).err(), Some(Error::UnsupportedVersion(9)));
    assert_eq!(Database::open("p".to_string(), Some(&[1, 0])).err(), Some(Error::CorruptData));
}

#[test]
fn get_finds_by_remote_and_name() {
    let mut db = Database::open("p".to_string(), None).unwrap();
    assert_eq!(db.add("gh", "org/a", ""), 0);
    assert_eq!(db.add("gh", "org/b", "/b"), 1);
    assert_eq!(db.add("other", "org/a", ""), 2);
    assert_eq!(db.get("gh", "org/a"), Some(0));
    assert_eq!(db.get("other", "org/a"), Some(2));
    assert_eq!(db.get("gh", "org"), None);
    assert_eq!(db.get("", ""), None);
    assert_eq!(db.must_get("gh", "org/b"), Ok(1));
    assert_eq!(
        db.must_get("gh", "zzz"),
        Err(Error::UnknownRepo("gh".to_string(), "zzz".to_string()))
    );
}

#[test]
fn get_by_path_ignores_records_without_a_path() {
    let mut db = Database::open("p".to_string(), None).unwrap();
    db.add("gh", "a", "");
    db.add("gh", "b", "/b");
    assert_eq!(db.get_by_path("/b"), Some(1));
    assert_eq!(db.get_by_path(""), None);
    assert_eq!(db.get_by_path("/c"), None);
}

#[test]
fn add_appends_a_record_that_was_never_used() {
    let mut db = Database::open("p".to_string(), None).unwrap();
    let idx = db.add("gh", "x/y", "");
    assert_eq!(idx, 0);
    assert_eq!(db.repos()[0], repo("gh", "x/y", "", 0, 0));
    assert!(db.dirty());
    assert_eq!(db.add("gh", "x/y", ""), 1);
    assert_eq!(db.len(), 2);
}

#[test]
fn update_counts_one_use() {
    let mut db = Database::open("p".to_string(), None).unwrap();
    db.add("gh", "a", "");
    db.add("gh", "b", "");
    db.update(1, 77);
    assert_eq!(db.repos()[1], repo("gh", "b", "", 77, 1));
    assert_eq!(db.repos()[0], repo("gh", "a", "", 0, 0));
    db.update(1, 76);
    assert_eq!(db.repos()[1], repo("gh", "b", "", 76, 2));
}

#[test]
fn update_stops_at_the_largest_weight() {
    let bytes = Database::serialize(&vec![repo("gh", "a", "", 1, MAX_RANK - 1)]).unwrap();
    let mut db = Database::open("p".to_string(), Some(&bytes)).unwrap();
    db.update(0, 2);
    assert_eq!(db.repos()[0].accessed, MAX_RANK);
    db.update(0, 3);
    assert_eq!(db.repos()[0].accessed, MAX_RANK);
    assert_eq!(db.repos()[0].last_accessed, 3);
    assert_eq!((MAX_RANK as f64) + 1.0, MAX_RANK as f64);
}

#[test]
fn remove_takes_the_record_out() {
    let mut db = Database::open("p".to_string(), None).unwrap();
    db.add("gh", "a", "");
    db.add("gh", "b", "");
    db.add("gh", "c", "");
    assert_eq!(db.remove(1), repo("gh", "b", "", 0, 0));
    assert_eq!(db.repos(), &vec![repo("gh", "a", "", 0, 0), repo("gh", "c", "", 0, 0)]);
}

#[test]
fn sort_is_descending_and_stable() {
    let now = 1_000_000;
    let repos = vec![
        repo("r", "week-old", "", now - 700_000, 32),
        repo("r", "first-of-equals", "", now - 10, 2),
        repo("r", "day-old", "", now - 90_000, 100),
        repo("r", "second-of-equals", "", now - 20, 2),
        repo("r", "unused", "", 0, 0),
        repo("r", "third-of-equals", "", now - 4000, 4),
        repo("r", "best", "", now - 1, 50),
    ];
    let bytes = Database::serialize(&repos).unwrap();
    let mut db = Database::open("p".to_string(), Some(&bytes)).unwrap();
    assert!(!db.dirty());
    db.sort(now);
    assert!(db.dirty());
    let names: Vec<&str> = db.repos().iter().map(|r| r.name.as_str()).collect();
    assert_eq!(
        names,
        vec![
            "best",
            "day-old",
            "week-old",
            "first-of-equals",
            "second-of-equals",
            "third-of-equals",
            "unused",
        ]
    );
    let scores: Vec<u128> = db.repos().iter().map(|r| r.score(now)).collect();
    assert_eq!(scores, vec![800, 200, 32, 32, 32, 32, 0]);
}

#[test]
fn sort_agrees_with_a_stable_sort_by_float_score() {
    let now = 2_000_000u64;
    let mut repos = Vec::new();
    let mut seed = 12345u64;
    for i in 0..60 {
        seed = seed.wrapping_mul(6364136223846793005).wrapping_add(1442695040888963407);
        let age = (seed >> 33) % 1_300_000;
        let weight = (seed >> 20) % 6;
        repos.push(repo("r", &format!("n{i}"), "", now - age, weight));
    }
    let bytes = Database::serialize(&repos).unwrap();
    let mut db = Database::open("p".to_string(), Some(&bytes)).unwrap();
    db.sort(now);
    let float_score = |r: &Repo| {
        let age = now.saturating_sub(r.last_accessed);
        let w = r.accessed as f64;
        if age < 3600 {
            w * 4.0
        } else if age < 86400 {
            w * 2.0
        } else if age < 604800 {
            w * 0.5
        } else {
            w * 0.25
        }
    };
    let mut expected = repos.clone();
    expected.sort_by(|a, b| float_score(b).total_cmp(&float_score(a)));
    assert_eq!(db.repos(), &expected);
}

#[test]
fn save_writes_only_what_was_changed() {
    let mut db = Database::open("p".to_string(), None).unwrap();
    assert_eq!(db.save(), Ok(None));
    db.add("gh", "x/y", "");
    let bytes = db.save().unwrap().unwrap();
    assert_eq!(bytes, Database::serialize(db.repos()).unwrap());
    assert!(!db.dirty());
    assert_eq!(db.save(), Ok(None));
}

#[test]
fn mutation_scenario() {
    let mut db = Database::open("p".to_string(), None).unwrap();
    let idx = db.add("gh", "x/y", "");
    db.update(idx, 1000);
    db.update(idx, 2000);
    db.sort(2000);
    let bytes = db.save().unwrap().unwrap();
    let reopened = Database::open("p".to_string(), Some(&bytes)).unwrap();
    assert_eq!(reopened.len(), 1);
    let record = &reopened.repos()[0];
    assert_eq!(record.accessed as f64, 2.0);
    assert_eq!(record.last_accessed, 2000);
    assert_eq!(record.remote, "gh");
    assert_eq!(record.name, "x/y");
    assert_eq!(record.path, "");
}

#[test]
fn match_keyword_takes_the_first_match_in_store_order() {
    let mut db = Database::open("p".to_string(), None).unwrap();
    db.add("gh", "org/alpha", "");
    db.add("gh", "team/alphabet", "");
    db.add("other", "org/beta", "");
    db.add("gh", "plain", "");
    assert_eq!(db.match_keyword("", "alpha"), Ok(0));
    assert_eq!(db.match_keyword("", "bet"), Ok(1));
    assert_eq!(db.match_keyword("other", "bet"), Ok(2));
    assert_eq!(db.match_keyword("gh", "team/alp"), Ok(1));
    assert_eq!(db.match_keyword("gh", "tea/alp"), Err(Error::ResolutionFailed("tea/alp".to_string())));
    assert_eq!(db.match_keyword("", "org"), Err(Error::ResolutionFailed("org".to_string())));
    assert_eq!(db.match_keyword("", ""), Ok(0));
    assert_eq!(db.match_keyword("", "/lain"), Ok(3));
    assert_eq!(db.match_keyword("", "/alpha"), Err(Error::ResolutionFailed("/alpha".to_string())));
}

#[test]
fn current_finds_the_record_of_a_directory() {
    let mut db = Database::open("p".to_string(), None).unwrap();
    db.add("gh", "a", "/somewhere/a");
    db.add("gh", "b", "");
    db.add("gh", "org/c", "");
    assert_eq!(db.current("/ws", "/somewhere/a"), Ok(0));
    assert_eq!(db.current("/ws", "/nowhere"), Err(Error::NotBound));
    let derived = |name: &str| {
        std::path::Path::new("/ws").join("gh").join(name).to_str().unwrap().to_string()
    };
    assert_eq!(db.list_paths("/ws"), vec!["/somewhere/a".to_string(), derived("b"), derived("org/c")]);
    assert_eq!(db.current("/ws", &derived("b")), Ok(1));
    assert_eq!(db.current("/ws", &derived("org/c")), Ok(2));
    assert_eq!(db.current("/other", &derived("b")), Err(Error::NotBound));
}

#[test]
fn current_compares_directories_as_paths() {
    let mut db = Database::open("p".to_string(), None).unwrap();
    db.add("gh", "a", "/somewhere//a/");
    db.add("gh", "org/b", "");
    db.add("gh", "a2", "/somewhere/a");
    assert_eq!(db.current("/ws", "/somewhere/a"), Ok(0));
    assert_eq!(db.current("/ws", "/somewhere/./a"), Ok(0));
    assert_eq!(db.current("/ws", "/ws//gh/org/b/"), Ok(1));
    assert_eq!(db.current("/ws/", "/ws/gh/org/b"), Ok(1));
    assert_eq!(db.current("/ws", "/ws/gh/org/../org/b"), Err(Error::NotBound));
    assert_eq!(db.current("/ws", "/somewhere/A"), Err(Error::NotBound));
    let paths = db.list_paths("/ws");
    assert_eq!(Database::position_of_path(&paths, "/somewhere/a/"), Some(0));
    assert_eq!(Database::position_of_path(&paths, "/somewhere"), None);
}

struct Lcg(u64);

impl Lcg {
    fn next(&mut self) -> u64 {
        self.0 = self.0.wrapping_mul(6364136223846793005).wrapping_add(1442695040888963407);
        self.0 >> 17
    }

    fn text(&mut self) -> String {
        let alphabet = ['a', 'Z', '/', '-', '0', ' ', '\u{e9}', '\u{4e2d}', '\u{1f600}', '\n'];
        let len = (self.next() % 12) as usize;
        (0..len).map(|_| alphabet[(self.next() % alphabet.len() as u64) as usize]).collect()
    }

    fn record(&mut self) -> Repo {
        let remote = self.text();
        let name = self.text();
        let path = self.text();
        let last_accessed = self.next();
        let accessed = match self.next() % 4 {
            0 => 0,
            1 => self.next() % 100,
            2 => self.next() % (MAX_RANK + 1),
            _ => MAX_RANK - self.next() % 3,
        };
        repo(&remote, &name, &path, last_accessed, accessed)
    }
}

#[test]
fn many_lists_round_trip_and_agree_with_bincode() {
    let mut rng = Lcg(42);
    for _ in 0..300 {
        let count = (rng.next() % 8) as usize;
        let repos: Vec<Repo> = (0..count).map(|_| rng.record()).collect();
        let bytes = Database::serialize(&repos).unwrap();
        assert_eq!(bytes, reference_bytes(&repos));
        assert_eq!(Database::deserialize(&bytes).unwrap(), repos);
    }
}

#[test]
fn damaged_files_are_refused_or_read_as_what_they_hold() {
    let mut rng = Lcg(7);
    for _ in 0..300 {
        let count = 1 + (rng.next() % 4) as usize;
        let repos: Vec<Repo> = (0..count).map(|_| rng.record()).collect();
        let mut bytes = Database::serialize(&repos).unwrap();
        let at = (rng.next() % bytes.len() as u64) as usize;
        bytes[at] ^= 1 << (rng.next() % 8);
        match Database::deserialize(&bytes) {
            Ok(read) => {
                assert_eq!(Database::serialize(&read).unwrap(), bytes);
                assert_ne!(read, repos);
            }
            Err(Error::UnsupportedVersion(v)) => {
                assert!(at < 4);
                assert_eq!(v.to_le_bytes(), bytes[..4]);
            }
            Err(err) => assert_eq!(err, Error::CorruptData),
        }
    }
}

fn reference_read(body: &[u8]) -> Option<Vec<(String, String, String, u64, f64)>> {
    bincode::Options::deserialize(
        bincode::Options::with_limit(
            bincode::Options::with_fixint_encoding(bincode::options()),
            32 << 20,
        ),
        body,
    )
    .ok()
}

#[test]
fn damaged_files_are_read_as_bincode_reads_them() {
    let mut rng = Lcg(99);
    let mut both_read = 0;
    for _ in 0..600 {
        let count = 1 + (rng.next() % 4) as usize;
        let repos: Vec<Repo> = (0..count).map(|_| rng.record()).collect();
        let mut bytes = Database::serialize(&repos).unwrap();
        let at = 4 + (rng.next() % (bytes.len() as u64 - 4)) as usize;
        bytes[at] ^= 1 << (rng.next() % 8);
        let theirs = reference_read(&bytes[4..]);
        match Database::deserialize(&bytes) {
            Ok(read) => {
                assert_eq!(theirs, Some(as_floats(&read)));
                both_read += 1;
            }
            Err(err) => {
                assert_eq!(err, Error::CorruptData);
                if let Some(list) = theirs {
                    assert!(list.iter().any(|r| {
                        let w = r.4;
                        !(w >= 0.0 && w <= MAX_RANK as f64 && w.fract() == 0.0)
                            || w.is_sign_negative()
                    }));
                }
            }
        }
    }
    assert!(both_read > 50);
}
