use git_zoxide::errors::Error;
use git_zoxide::util::{BranchStatus, Built, GitBranch, GitRemote, GitTag};

fn branch(name: &str, status: BranchStatus, current: bool) -> GitBranch {
    GitBranch { name: name.to_string(), status, current }
}

fn message(text: &str) -> Error {
    Error::Message(text.to_string())
}

#[test]
fn branch_lines_are_parsed() {
    assert_eq!(
        GitBranch::parse("* main    1a2b3c4 [origin/main] fix the thing"),
        Ok(branch("main", BranchStatus::Sync, true))
    );
    assert_eq!(
        GitBranch::parse("  dev     1a2b3c4 [origin/dev: ahead 2] more"),
        Ok(branch("dev", BranchStatus::Ahead, false))
    );
    assert_eq!(
        GitBranch::parse("  old     1a2b3c4 [origin/old: behind 1] less"),
        Ok(branch("old", BranchStatus::Behind, false))
    );
    assert_eq!(
        GitBranch::parse("  both    1a2b3c4 [origin/both: ahead 1, behind 3] x"),
        Ok(branch("both", BranchStatus::Conflict, false))
    );
    assert_eq!(
        GitBranch::parse("  lost    1a2b3c4 [origin/lost: gone] y"),
        Ok(branch("lost", BranchStatus::Gone, false))
    );
    assert_eq!(
        GitBranch::parse("  local   1a2b3c4 never pushed"),
        Ok(branch("local", BranchStatus::Detached, false))
    );
}

#[test]
fn branch_status_words() {
    assert_eq!(BranchStatus::Sync.display(), "sync");
    assert_eq!(BranchStatus::Gone.display(), "gone");
    assert_eq!(BranchStatus::Ahead.display(), "ahead");
    assert_eq!(BranchStatus::Behind.display(), "behind");
    assert_eq!(BranchStatus::Conflict.display(), "conflict");
    assert_eq!(BranchStatus::Detached.display(), "detached");
    assert_eq!(GitBranch::status(&None), BranchStatus::Detached);
    assert_eq!(GitBranch::status(&Some("[x: gone, ahead 1]".to_string())), BranchStatus::Gone);
    assert_eq!(GitBranch::status(&Some("[x]".to_string())), BranchStatus::Sync);
}

#[test]
fn branch_from_groups() {
    let groups = |current: bool, name: Option<&str>, note: Option<&str>| {
        vec![
            Some("line".to_string()),
            if current { Some("*".to_string()) } else { None },
            name.map(|n| n.to_string()),
            Some("abc".to_string()),
            note.map(|n| n.to_string()),
            Some("msg".to_string()),
        ]
    };
    assert_eq!(
        GitBranch::from_groups("l", &groups(true, Some(" main "), Some("[o/main: behind 2]"))),
        Ok(branch("main", BranchStatus::Behind, true))
    );
    assert_eq!(
        GitBranch::from_groups("l", &groups(false, None, None)),
        Err(message("invalid branch description l, please check your git command: missing name"))
    );
    assert_eq!(
        GitBranch::from_groups("l", &vec![None, None]),
        Err(message("invalid branch description l, please check your git command"))
    );
}

#[test]
fn branch_list_has_one_branch_for_each_line() {
    let output = "* main 1a2b3c4 [origin/main] a\n  dev  1a2b3c4 [origin/dev: gone] b";
    assert_eq!(
        GitBranch::list(output),
        Ok(vec![branch("main", BranchStatus::Sync, true), branch("dev", BranchStatus::Gone, false)])
    );
    assert_eq!(GitBranch::list(""), Ok(vec![branch("", BranchStatus::Detached, false)]));
}

#[test]
fn default_branch_from_the_head_reference() {
    assert_eq!(GitBranch::head_ref("origin"), "refs/remotes/origin/HEAD");
    assert_eq!(GitBranch::from_symbolic_ref("origin", "refs/remotes/origin/main"), Ok("main".to_string()));
    assert_eq!(GitBranch::from_symbolic_ref("up", "refs/remotes/up/a/b"), Ok("a/b".to_string()));
    assert_eq!(GitBranch::from_symbolic_ref("origin", ""), Err(message("default branch is empty")));
    assert_eq!(
        GitBranch::from_symbolic_ref("origin", "refs/heads/main"),
        Err(message("invalid ref output by git: refs/heads/main"))
    );
    assert_eq!(GitBranch::default(Some("refs/remotes/origin/trunk"), ""), Ok("trunk".to_string()));
    assert_eq!(
        GitBranch::default_by_remote("up", Some("refs/remotes/origin/trunk"), ""),
        Err(message("invalid ref output by git: refs/remotes/origin/trunk"))
    );
}

#[test]
fn default_branch_from_remote_show() {
    let shown = "* remote origin\n  Fetch URL: x\n  HEAD branch: main \n  Remote branch:\n";
    assert_eq!(GitBranch::from_remote_show(shown), Ok("main".to_string()));
    assert_eq!(GitBranch::default(None, shown), Ok("main".to_string()));
    assert_eq!(
        GitBranch::from_remote_show("  HEAD branch:   \n"),
        Err(message("default branch returned by git remote show is empty"))
    );
    assert_eq!(
        GitBranch::from_remote_show("nothing here"),
        Err(message("no default branch returned by git remote show, please check your git command"))
    );
}

#[test]
fn uncommitted_changes_are_counted() {
    assert_eq!(GitBranch::ensure_no_uncommitted(""), Ok(()));
    assert_eq!(
        GitBranch::ensure_no_uncommitted("M a.rs"),
        Err(message("you have 1 uncommitted change, please handle it first"))
    );
    assert_eq!(
        GitBranch::ensure_no_uncommitted("M a.rs\n?? b.rs\nD c.rs"),
        Err(message("you have 3 uncommitted changes, please handle them first"))
    );
}

#[test]
fn remotes() {
    assert_eq!(
        GitRemote::list("origin\nupstream"),
        vec![GitRemote("origin".to_string()), GitRemote("upstream".to_string())]
    );
    let listed = GitRemote::list("origin\nupstream");
    assert_eq!(GitRemote::build(false, &listed), Built::Ready(GitRemote("origin".to_string())));
    assert_eq!(GitRemote::build(true, &listed), Built::Ready(GitRemote("upstream".to_string())));
    assert_eq!(GitRemote::build(true, &GitRemote::list("origin")), Built::Missing);
    assert_eq!(GitRemote("origin".to_string()).target("main"), "origin/main");
}

#[test]
fn tags() {
    assert_eq!(GitTag::from_str("v1").as_str(), "v1");
    assert_eq!(
        GitTag::list("v1.0.0\n  v1.1.0 \n\n   \nv2\r\n"),
        vec![GitTag::from_str("v1.0.0"), GitTag::from_str("v1.1.0"), GitTag::from_str("v2")]
    );
    assert_eq!(GitTag::list(""), vec![]);
    assert_eq!(GitTag::latest(" v3 \n"), Ok(GitTag::from_str("v3")));
    assert_eq!(GitTag::latest(" \n"), Err(message("no latest tag")));
}

#[test]
fn placeholders() {
    let nums = vec![1u32, 20, 300];
    assert_eq!(GitTag::placeholder_text(&nums, "0", false), "1");
    assert_eq!(GitTag::placeholder_text(&nums, "1", true), "21");
    assert_eq!(GitTag::placeholder_text(&nums, "02", false), "300");
    assert_eq!(GitTag::placeholder_text(&nums, "3", false), "0");
    assert_eq!(GitTag::placeholder_text(&nums, "3", true), "1");
    assert_eq!(GitTag::placeholder_text(&nums, "%Y", false), "%Y");
    assert_eq!(GitTag::placeholder_text(&nums, "99999999999999999999999", true), "99999999999999999999999");
    assert_eq!(GitTag::placeholder_text(&vec![u32::MAX], "0", true), "4294967296");
    assert_eq!(GitTag::dated("v1".to_string(), false, None), Ok(GitTag::from_str("v1")));
    assert_eq!(
        GitTag::dated("%Y".to_string(), true, Some("2024".to_string())),
        Ok(GitTag::from_str("2024"))
    );
    assert_eq!(
        GitTag::dated("%Q".to_string(), true, None),
        Err(message("unable to format the date of the rule"))
    );
    let caps = |texts: &[&str]| -> Vec<Vec<Option<String>>> {
        texts.iter().map(|t| vec![Some(t.to_string())]).collect()
    };
    assert_eq!(GitTag::numbers(&caps(&["1", "02", "2147483647"])), Some(vec![1, 2, 2147483647]));
    assert_eq!(GitTag::numbers(&caps(&["1", "2147483648"])), None);
    assert_eq!(GitTag::numbers(&caps(&[])), Some(vec![]));
    assert_eq!(GitTag::numbers(&vec![vec![None]]), None);
    let holder = |rep: &str| vec![Some("x".to_string()), Some(rep.to_string()), None];
    assert!(!GitTag::with_date(&vec![holder("0"), holder("12")]));
    assert!(GitTag::with_date(&vec![holder("0"), holder("%y")]));
    assert!(!GitTag::with_date(&vec![]));
}

#[test]
fn rules_make_the_next_tag() {
    let tag = GitTag::from_str("v1.2.3");
    assert_eq!(tag.apply_rule("v{0}.{1}.{2+}"), Ok(GitTag::from_str("v1.2.4")));
    assert_eq!(tag.apply_rule("v{0}.{1+}.0"), Ok(GitTag::from_str("v1.3.0")));
    assert_eq!(tag.apply_rule("v{0+}.0.0-rc{5}"), Ok(GitTag::from_str("v2.0.0-rc0")));
    assert_eq!(tag.apply_rule("plain"), Ok(GitTag::from_str("plain")));
    assert_eq!(tag.apply_rule("{x}{1"), Ok(GitTag::from_str("{x}{1")));
    assert_eq!(GitTag::from_str("none").apply_rule("v{0+}"), Ok(GitTag::from_str("v1")));
    assert_eq!(
        GitTag::from_str("v2147483647").apply_rule("v{0+}"),
        Ok(GitTag::from_str("v2147483648"))
    );
    assert_eq!(
        GitTag::from_str("v99999999999").apply_rule("v{0}"),
        Err(message("unable to parse num caps"))
    );
}

#[test]
fn rules_with_a_date_are_written_for_today() {
    let tag = GitTag::from_str("r7");
    let made = tag.apply_rule("{%Y}.{%m}.{%d}-{0+}").unwrap();
    let text = made.as_str();
    let parts: Vec<&str> = text.split(|c| c == '.' || c == '-').collect();
    assert_eq!(parts.len(), 4, "{text}");
    assert_eq!(parts[0].len(), 4);
    assert!(parts[0].chars().all(|c| c.is_ascii_digit()));
    assert!((1..=12).contains(&parts[1].parse::<u32>().unwrap()));
    assert!((1..=31).contains(&parts[2].parse::<u32>().unwrap()));
    assert_eq!(parts[3], "8");
}
