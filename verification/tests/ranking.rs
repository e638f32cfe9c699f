use git_zoxide::db::Repo;
use git_zoxide::util::{DAY, HOUR, MINUTE, SECOND, WEEK};

fn used(accessed: u64, last_accessed: u64) -> Repo {
    Repo {
        remote: "gh".to_string(),
        name: "org/a".to_string(),
        path: String::new(),
        last_accessed,
        accessed,
    }
}

fn score(repo: &Repo, now: u64) -> f64 {
    repo.score(now) as f64 / 4.0
}

#[test]
fn time_units() {
    assert_eq!(SECOND, 1);
    assert_eq!(MINUTE, 60);
    assert_eq!(HOUR, 3600);
    assert_eq!(DAY, 86400);
    assert_eq!(WEEK, 604800);
}

#[test]
fn frecency_ordering() {
    let now = 10_000_000;
    let a = used(2, now - 30 * 60);
    let b = used(2, now - 2 * 86400);
    assert_eq!(score(&a, now), 8.0);
    assert_eq!(score(&b, now), 1.0);
    assert!(score(&a, now) > score(&b, now));
}

#[test]
fn boundary_case() {
    let now = 10_000_000;
    assert_eq!(score(&used(1, now - 3600), now), 2.0);
    assert_eq!(score(&used(1, now - 3599), now), 4.0);
}

#[test]
fn every_bound_belongs_to_the_older_side() {
    let now = 10_000_000;
    assert_eq!(score(&used(3, now), now), 12.0);
    assert_eq!(score(&used(3, now - 86399), now), 6.0);
    assert_eq!(score(&used(3, now - 86400), now), 1.5);
    assert_eq!(score(&used(3, now - 604799), now), 1.5);
    assert_eq!(score(&used(3, now - 604800), now), 0.75);
    assert_eq!(score(&used(3, 0), now), 0.75);
}

#[test]
fn a_use_in_the_future_counts_as_a_use_now() {
    assert_eq!(score(&used(5, 2000), 1000), 20.0);
}

#[test]
fn score_of_the_largest_weight_is_exact() {
    let r = used(u64::MAX, 100);
    assert_eq!(r.score(100), (u64::MAX as u128) * 16);
}

#[test]
fn duplicate_copies_every_field() {
    let r = used(5, 2000);
    assert_eq!(r.duplicate(), r);
}
