use git_zoxide::cmd::home::Resolved;
use git_zoxide::cmd::Home;
use git_zoxide::config::{Config, Remote};
use git_zoxide::db::Database;
use git_zoxide::errors::Error;

fn remote(name: &str) -> Remote {
    Remote { name: name.to_string(), user: None, clone: None, api: None, on_create: vec![] }
}

fn config(remotes: &[&str], keywords: &[&str]) -> Config {
    Config {
        workspace: "/ws".to_string(),
        remotes: remotes.iter().map(|r| remote(r)).collect(),
        keyword_map: keywords.iter().map(|k| (k.to_string(), "x".to_string())).collect(),
        tag_rule: vec![],
    }
}

fn store(records: &[(&str, &str)]) -> Database {
    let mut db = Database::open("p".to_string(), None).unwrap();
    for (remote, name) in records {
        db.add(remote, name, "");
    }
    db
}

fn home(args: &[&str]) -> Home {
    Home { args: args.iter().map(|a| a.to_string()).collect(), create: false, search: false }
}

fn scenario() -> (Database, Config) {
    (
        store(&[("gh", "org/a"), ("gh", "org/b"), ("other", "org/a")]),
        config(&["gh", "other"], &[]),
    )
}

#[test]
fn matching_scenario() {
    let (db, cfg) = scenario();
    assert_eq!(
        home(&["gh", "org/a"]).query(&db, &cfg),
        Ok(Resolved::Found { remote: 0, repo: 0, remember: false })
    );
    assert_eq!(
        home(&["gh", "org/"]).query(&db, &cfg),
        Ok(Resolved::Choose {
            remote: 0,
            items: vec![0, 1],
            keys: vec!["a".to_string(), "b".to_string()],
        })
    );
    assert_eq!(
        home(&["gh", "a"]).query(&db, &cfg),
        Ok(Resolved::Found { remote: 0, repo: 0, remember: false })
    );
    assert_eq!(
        home(&["other", "a"]).query(&db, &cfg),
        Ok(Resolved::Found { remote: 1, repo: 2, remember: false })
    );
}

#[test]
fn resolving_does_not_change_the_store() {
    let (db, cfg) = scenario();
    let before = db.repos().clone();
    let _ = home(&["gh", "a"]).query(&db, &cfg);
    let _ = home(&["gh", "zzz"]).query(&db, &cfg);
    let _ = home(&[]).query(&db, &cfg);
    assert_eq!(db.repos(), &before);
    assert!(db.dirty());
}

#[test]
fn no_argument_takes_the_record_used_last() {
    let (mut db, cfg) = scenario();
    assert_eq!(home(&[]).query(&db, &cfg), Ok(Resolved::Found { remote: 0, repo: 0, remember: false }));
    db.update(2, 50);
    db.update(1, 50);
    assert_eq!(home(&[]).query(&db, &cfg), Ok(Resolved::Found { remote: 0, repo: 1, remember: false }));
    db.update(2, 51);
    assert_eq!(home(&[]).query(&db, &cfg), Ok(Resolved::Found { remote: 1, repo: 2, remember: false }));
    assert_eq!(Home::latest_repo(db.repos()), 2);
}

#[test]
fn no_argument_and_no_record() {
    let db = store(&[]);
    assert_eq!(home(&[]).query(&db, &config(&["gh"], &[])), Err(Error::EmptyStore));
}

#[test]
fn record_of_a_remote_that_is_not_configured() {
    let db = store(&[("gone", "org/a")]);
    let cfg = config(&["gh"], &[]);
    assert_eq!(home(&[]).query(&db, &cfg), Err(Error::UnknownRemote("gone".to_string())));
    assert_eq!(home(&["a"]).query(&db, &cfg), Err(Error::UnknownRemote("gone".to_string())));
}

#[test]
fn one_argument_that_names_a_remote_browses_it() {
    let (db, cfg) = scenario();
    assert_eq!(
        home(&["other"]).query(&db, &cfg),
        Ok(Resolved::Choose { remote: 1, items: vec![2], keys: vec!["org/a".to_string()] })
    );
    let empty = store(&[("gh", "a")]);
    assert_eq!(
        home(&["other"]).query(&empty, &cfg),
        Err(Error::NoCandidates(String::new()))
    );
}

#[test]
fn one_argument_that_names_no_remote_is_a_keyword() {
    let (db, cfg) = scenario();
    assert_eq!(
        home(&["b"]).query(&db, &cfg),
        Ok(Resolved::Found { remote: 0, repo: 1, remember: true })
    );
    let fixed = config(&["gh", "other"], &["b"]);
    assert_eq!(
        home(&["b"]).query(&db, &fixed),
        Ok(Resolved::Found { remote: 0, repo: 1, remember: false })
    );
    assert_eq!(
        home(&["zzz"]).query(&db, &cfg),
        Err(Error::ResolutionFailed("zzz".to_string()))
    );
}

#[test]
fn unknown_remote_with_a_name() {
    let (db, cfg) = scenario();
    assert_eq!(
        home(&["nope", "org/a"]).query(&db, &cfg),
        Err(Error::UnknownRemote("nope".to_string()))
    );
}

#[test]
fn browsing_a_prefix_without_records_fails() {
    let (db, cfg) = scenario();
    assert_eq!(
        home(&["gh", "team/"]).query(&db, &cfg),
        Err(Error::NoCandidates("team".to_string()))
    );
    assert_eq!(
        home(&["gh", "org/a/"]).query(&db, &cfg),
        Err(Error::NoCandidates("org/a".to_string()))
    );
}

#[test]
fn browsing_with_search_asks_the_hosting_service() {
    let (db, cfg) = scenario();
    let mut h = home(&["gh", "org//"]);
    h.search = true;
    assert_eq!(h.query(&db, &cfg), Ok(Resolved::Search { remote: 0, group: "org".to_string() }));
}

#[test]
fn group_and_base() {
    let db = store(&[("gh", "org/alpha"), ("gh", "team/alpha"), ("gh", "team/sub/alpha")]);
    let cfg = config(&["gh"], &[]);
    assert_eq!(
        home(&["gh", "team/alp"]).query(&db, &cfg),
        Ok(Resolved::Found { remote: 0, repo: 1, remember: false })
    );
    assert_eq!(
        home(&["gh", "team/sub/pha"]).query(&db, &cfg),
        Ok(Resolved::Found { remote: 0, repo: 2, remember: false })
    );
    assert_eq!(
        home(&["gh", "tea/alpha"]).query(&db, &cfg),
        Ok(Resolved::Create { remote: 0, name: "tea/alpha".to_string() })
    );
}

#[test]
fn nothing_matches_offers_creation() {
    let (db, cfg) = scenario();
    assert_eq!(
        home(&["gh", "new/repo"]).query(&db, &cfg),
        Ok(Resolved::Create { remote: 0, name: "new/repo".to_string() })
    );
}

#[test]
fn create_skips_the_keyword_rules() {
    let (db, cfg) = scenario();
    let mut h = home(&["gh", "a"]);
    h.create = true;
    assert_eq!(h.query(&db, &cfg), Ok(Resolved::Create { remote: 0, name: "a".to_string() }));
    let mut exact = home(&["gh", "org/a"]);
    exact.create = true;
    assert_eq!(exact.query(&db, &cfg), Ok(Resolved::Found { remote: 0, repo: 0, remember: false }));
}

#[test]
fn first_match_in_store_order_wins_after_a_sort() {
    let (mut db, cfg) = scenario();
    db.add("gh", "team/a", "");
    assert_eq!(
        home(&["gh", "a"]).query(&db, &cfg),
        Ok(Resolved::Found { remote: 0, repo: 0, remember: false })
    );
    db.update(3, 100);
    db.sort(100);
    assert_eq!(db.repos()[0].name, "team/a");
    assert_eq!(
        home(&["gh", "a"]).query(&db, &cfg),
        Ok(Resolved::Found { remote: 0, repo: 0, remember: false })
    );
}

#[test]
fn pick_maps_the_choice_to_its_record() {
    assert_eq!(Home::pick(&vec![4, 7, 9], 1), Some(7));
    assert_eq!(Home::pick(&vec![4, 7, 9], 3), None);
    assert_eq!(Home::pick(&vec![], 0), None);
}

#[test]
fn remote_key_strips_the_group() {
    assert_eq!(Home::remote_key("org/a", "org"), "a");
    assert_eq!(Home::remote_key("org//a/", "org"), "a");
    assert_eq!(Home::remote_key("other/a", "org"), "other/a");
    assert_eq!(Home::remote_key("org", "org"), "");
}

#[test]
fn choice_of_the_hosting_service() {
    let (mut db, _) = scenario();
    assert_eq!(
        Home::search_repo_remote(&db, 0, "gh", "org/b"),
        Resolved::Found { remote: 0, repo: 1, remember: false }
    );
    assert_eq!(
        Home::search_repo_remote(&db, 0, "gh", "org/c"),
        Resolved::Create { remote: 0, name: "org/c".to_string() }
    );
    let idx = Home::create_repo(&mut db, "gh", "org/c");
    assert_eq!(idx, 3);
    assert_eq!(db.repos()[3].path, "");
    assert_eq!(db.repos()[3].accessed, 0);
    assert_eq!(db.repos()[3].last_accessed, 0);
}
