use git_zoxide::api::github::{self, GithubPullOption};
use git_zoxide::api::gitlab::Gitlab;
use git_zoxide::api::{create_provider, get_repo_url, MergeOption};
use git_zoxide::cmd::attach::Attached;
use git_zoxide::cmd::branch::{BranchTask, SyncBranchTask};
use git_zoxide::cmd::remove::Removal;
use git_zoxide::cmd::reset::ResetTarget;
use git_zoxide::cmd::tag::{NewTag, TagTask};
use git_zoxide::cmd::{
    Attach, Branch, Detach, Init, Jump, List, Merge, Remove, Reset, Squash, Tag,
};
use git_zoxide::config::{Config, Provider, Remote, User, API};
use git_zoxide::db::repo::Found;
use git_zoxide::db::{Database, Keywords};
use git_zoxide::errors::{Error, SilentExit, REPO_NO_UPSTREAM};
use git_zoxide::util::{confirm, edit, BranchStatus, GitBranch, GitTag};

fn message(text: &str) -> Error {
    Error::Message(text.to_string())
}

fn words(parts: &[&str]) -> Vec<String> {
    parts.iter().map(|p| p.to_string()).collect()
}

fn remote(name: &str) -> Remote {
    Remote { name: name.to_string(), user: None, clone: None, api: None, on_create: vec![] }
}

fn config(remotes: Vec<Remote>) -> Config {
    Config {
        workspace: "/ws".to_string(),
        remotes,
        keyword_map: vec![("zeta".to_string(), "x".to_string()), ("alias".to_string(), "y".to_string())],
        tag_rule: vec![
            ("patch".to_string(), "v{0}.{1}.{2+}".to_string()),
            ("daily".to_string(), "{%Y}{%m}{%d}".to_string()),
        ],
    }
}

fn branch(name: &str, status: BranchStatus, current: bool) -> GitBranch {
    GitBranch { name: name.to_string(), status, current }
}

fn branch_args(args: &[&str]) -> Branch {
    Branch {
        args: words(args),
        all: false,
        sync: false,
        create: false,
        delete: false,
        push: false,
        cmp: false,
    }
}

fn merge_option(upstream: Option<&str>) -> MergeOption {
    MergeOption {
        repo: "me/repo".to_string(),
        upstream: upstream.map(|u| u.to_string()),
        title: "t".to_string(),
        body: "line one\nline two".to_string(),
        source: "dev".to_string(),
        target: "main".to_string(),
    }
}

#[test]
fn merge_option_is_shown() {
    assert_eq!(merge_option(None).display(), "dev => main");
    assert_eq!(merge_option(Some("org/repo")).display(), "me/repo:dev => org/repo:main");
    assert_eq!(merge_option(None).body_display(), "2 lines");
    let mut one = merge_option(None);
    one.body = "only".to_string();
    assert_eq!(one.body_display(), "1 line");
    one.body = String::new();
    assert_eq!(one.body_display(), "<empty>");
    one.body = "a\nb\nc\nd\ne\nf\ng\nh\ni\nj\nk".to_string();
    assert_eq!(one.body_display(), "11 lines");
}

#[test]
fn provider_of_a_remote() {
    let mut r = remote("gh");
    assert_eq!(
        create_provider(&r),
        Err(message("remote gh does not enable api provider, please config it first"))
    );
    r.api = Some(API { provider: Provider::Github, token: "t".to_string(), url: String::new() });
    assert_eq!(create_provider(&r).map(|a| a.token.as_str()), Ok("t"));
    r.api = Some(API { provider: Provider::Gitlab, token: "t".to_string(), url: String::new() });
    assert_eq!(
        create_provider(&r),
        Err(message("for gitlab provider, you must specify api url, please check your config"))
    );
    r.api = Some(API { provider: Provider::Gitlab, token: "t".to_string(), url: "u".to_string() });
    assert_eq!(create_provider(&r).map(|a| a.url.as_str()), Ok("u"));
}

#[test]
fn web_address_of_a_repository() {
    assert_eq!(get_repo_url("github.com", "org/a", None), "https://github.com/org/a");
    assert_eq!(
        get_repo_url("github.com", "org/a", Some("dev".to_string())),
        "https://github.com/org/a/tree/dev"
    );
}

#[test]
fn github_requests() {
    assert_eq!(github::parse_repo_name("org/a"), Ok(("org".to_string(), "a".to_string())));
    assert_eq!(github::parse_repo_name("a"), Err(message("invalid github repository name a")));
    assert_eq!(github::parse_repo_name("a/"), Err(message("invalid github repository name a/")));
    assert_eq!(
        github::pr_options(&merge_option(None)),
        Ok(GithubPullOption {
            owner: "me".to_string(),
            name: "repo".to_string(),
            head: "dev".to_string(),
            head_owner: String::new(),
        })
    );
    let pull = github::pr_options(&merge_option(Some("org/repo"))).unwrap();
    assert_eq!(
        pull,
        GithubPullOption {
            owner: "org".to_string(),
            name: "repo".to_string(),
            head: "me:dev".to_string(),
            head_owner: "me".to_string(),
        }
    );
    assert_eq!(
        github::pr_options(&merge_option(Some("bad"))),
        Err(message("invalid github repository name bad"))
    );
    assert_eq!(
        github::get_merge(&merge_option(Some("org/repo")), &pull),
        "is:open is:pr author:me head:dev base:main repo:org/repo"
    );
    assert_eq!(
        github::get_merge(&merge_option(None), &pull),
        "is:open is:pr head:dev base:main repo:me/repo"
    );
    assert_eq!(github::list("org"), "users/org/repos");
    assert_eq!(
        github::must_get_upstream(Some(true), Some(Some("org/up".to_string()))),
        Ok("org/up".to_string())
    );
    for (fork, source) in [
        (None, Some(Some("x".to_string()))),
        (Some(false), Some(Some("x".to_string()))),
        (Some(true), None),
        (Some(true), Some(None)),
    ] {
        assert_eq!(github::must_get_upstream(fork, source), Err(message(REPO_NO_UPSTREAM)));
    }
}

#[test]
fn gitlab_requests() {
    assert_eq!(
        Gitlab::new("https://lab", "tok"),
        Ok(Gitlab { url: "https://lab".to_string(), token: "tok".to_string() })
    );
    assert_eq!(
        Gitlab::new("", "tok"),
        Err(message("for gitlab provider, you must specify api url, please check your config"))
    );
    assert_eq!(Gitlab::get_merge(&merge_option(None)), Ok(()));
    assert_eq!(
        Gitlab::get_merge(&merge_option(Some("o/r"))),
        Err(message("sorry, gitlab now does not support upstream features"))
    );
    assert_eq!(Gitlab::get_default_branch(Some("main".to_string())), Ok("main".to_string()));
    assert_eq!(
        Gitlab::get_default_branch(None),
        Err(message("gitlab did not return default branch"))
    );
    assert_eq!(Gitlab::get_upstream(Some("o/r".to_string())), Ok("o/r".to_string()));
    assert_eq!(Gitlab::get_upstream(None), Err(message(REPO_NO_UPSTREAM)));
    let mut r = remote("lab");
    assert_eq!(
        Gitlab::get_repo_url("g/p", None, &r),
        Err(message("you must provide clone config to get gitlab repo url, please check your config"))
    );
    r.clone = Some(git_zoxide::config::Clone { domain: "lab.io".to_string(), use_ssh: true, ssh_groups: String::new() });
    assert_eq!(Gitlab::get_repo_url("g/p", None, &r), Ok("https://lab.io/g/p".to_string()));
}

#[test]
fn silent_exits() {
    assert_eq!(Error::SelectionCancelled.silent_exit(), Some(SilentExit { code: 130 }));
    assert_eq!(Error::Declined.silent_exit(), Some(SilentExit { code: 60 }));
    assert_eq!(Error::CommandFailed.silent_exit(), Some(SilentExit { code: 101 }));
    assert_eq!(Error::CorruptData.silent_exit(), None);
    assert_eq!(message("x").silent_exit(), None);
    assert_eq!(confirm(true), Ok(()));
    assert_eq!(confirm(false), Err(Error::Declined));
    assert_eq!(edit(Some("text".to_string()), true), Ok("text".to_string()));
    assert_eq!(edit(Some(String::new()), false), Ok(String::new()));
    assert_eq!(edit(Some(String::new()), true), Err(message("edit content cannot be empty")));
    assert_eq!(edit(None, false), Err(message("you did not edit anything")));
}

#[test]
fn attach_and_detach_keep_the_file_of_the_store() {
    let cfg = config(vec![remote("gh")]);
    let mut db = Database::open("/data/database".to_string(), None).unwrap();
    let attach = Attach {
        remote: "gh".to_string(),
        name: "a".to_string(),
        dir: None,
        remote_config: false,
        user_config: false,
    };
    attach.run(&mut db, &cfg, "/here").unwrap();
    assert_eq!(db.path(), "/data/database");
    Detach { dir: None }.run(&mut db, "/here").unwrap();
    assert_eq!(db.path(), "/data/database");
    assert!(Detach { dir: None }.run(&mut db, "/here").is_err());
    assert_eq!(db.path(), "/data/database");
}

#[test]
fn attach_adds_a_record_with_a_path() {
    let mut gh = remote("gh");
    gh.clone = Some(git_zoxide::config::Clone { domain: "d".to_string(), use_ssh: true, ssh_groups: String::new() });
    gh.user = Some(User { name: "me".to_string(), email: "me@d".to_string() });
    let cfg = config(vec![gh]);
    let mut db = Database::open("p".to_string(), None).unwrap();
    let attach = |remote: &str, name: &str, remote_config: bool, user_config: bool| Attach {
        remote: remote.to_string(),
        name: name.to_string(),
        dir: None,
        remote_config,
        user_config,
    };
    assert_eq!(
        attach("gh", "org/a", true, true).run(&mut db, &cfg, "/here"),
        Ok(Attached {
            repo: 0,
            origin: Some("git@d:org/a.git".to_string()),
            user: Some(("me".to_string(), "me@d".to_string())),
        })
    );
    assert_eq!(db.repos()[0].path, "/here");
    assert_eq!(
        attach("gh", "org/b", false, false).run(&mut db, &cfg, "/there"),
        Ok(Attached { repo: 1, origin: None, user: None })
    );
    assert_eq!(
        attach("nope", "org/c", false, false).run(&mut db, &cfg, "/x"),
        Err(Error::UnknownRemote("nope".to_string()))
    );
    assert_eq!(
        attach("gh", "org/a", false, false).run(&mut db, &cfg, "/x"),
        Err(message("repository gh:org/a is already exists"))
    );
    assert_eq!(
        attach("gh", "org/c", false, false).run(&mut db, &cfg, "/here"),
        Err(message("path /here has already bound to anthor repository, please consider detach first"))
    );
    assert_eq!(db.len(), 2);
}

#[test]
fn detach_removes_the_record_of_a_path() {
    let mut db = Database::open("p".to_string(), None).unwrap();
    db.add("gh", "a", "/a");
    db.add("gh", "b", "/b");
    let detach = Detach { dir: None };
    assert_eq!(detach.run(&mut db, "/c"), Err(message("path /c did not bound to any repository")));
    assert_eq!(detach.run(&mut db, "/a"), Ok(()));
    assert_eq!(db.len(), 1);
    assert_eq!(db.repos()[0].name, "b");
}

#[test]
fn remove_asks_unless_forced() {
    let remove = |force: bool| Remove { remote: "gh".to_string(), name: "a".to_string(), force };
    assert!(remove(false).asks(Found::Directory));
    assert!(!remove(true).asks(Found::Directory));
    assert!(!remove(false).asks(Found::Nothing));
    assert_eq!(remove(false).ensure_path(Found::Directory, true), Removal::Delete);
    assert_eq!(remove(false).ensure_path(Found::Directory, false), Removal::Keep);
    assert_eq!(remove(true).ensure_path(Found::Directory, false), Removal::Delete);
    assert_eq!(remove(true).ensure_path(Found::Nothing, true), Removal::Keep);
    assert_eq!(remove(true).ensure_path(Found::Unreadable, true), Removal::Fail);
}

#[test]
fn init_fills_the_template() {
    let template = "alias {{CMD}}=x; {{HOME_CMD}}() {}; {{JUMP_CMD}}() {}; {{CMD}}";
    let init = Init { cmd: None, home_cmd: None, jump_cmd: None };
    assert_eq!(init.run(template), "alias gz=x; zz() {}; zj() {}; gz");
    let init = Init {
        cmd: Some("g".to_string()),
        home_cmd: Some("{{JUMP_CMD}}".to_string()),
        jump_cmd: Some("j".to_string()),
    };
    assert_eq!(init.run(template), "alias g=x; j() {}; j() {}; g");
}

#[test]
fn jump_finds_and_remembers() {
    let mut db = Database::open("p".to_string(), None).unwrap();
    db.add("gh", "org/alpha", "");
    db.add("lab", "team/beta", "");
    let cfg = config(vec![remote("gh")]);
    let jump = |k: &str| Jump { keyword: k.to_string() };
    assert_eq!(jump("bet").run(&db), Ok(1));
    assert_eq!(jump("nope").run(&db), Err(Error::ResolutionFailed("nope".to_string())));
    assert!(jump("bet").remember("team/beta", &cfg));
    assert!(!jump("beta").remember("team/beta", &cfg));
    assert!(!jump("alias").remember("team/beta", &cfg));
}

#[test]
fn reset_target() {
    let reset = |args: &[&str], default: bool, upstream: bool| Reset { args: words(args), default, upstream };
    assert_eq!(reset(&["dev"], true, true).run(), ResetTarget::Named("dev".to_string()));
    assert_eq!(reset(&[], false, false).run(), ResetTarget::Current);
    assert_eq!(reset(&[], true, false).run(), ResetTarget::Default);
    assert_eq!(reset(&[], false, true).run(), ResetTarget::Default);
}

#[test]
fn list_lines() {
    let mut db = Database::open("p".to_string(), None).unwrap();
    db.add("gh", "org/a", "");
    db.add("lab", "team/b", "");
    db.add("gh", "org/c", "");
    db.add("gh", "plain", "");
    db.add("gh", "team/d", "");
    let cfg = config(vec![remote("gh"), remote("lab")]);
    let list = |args: &[&str], group: bool, keyword: bool, remote: bool| List {
        args: words(args),
        group,
        keyword,
        remote,
    };
    assert!(list(&[], false, false, false).shows_remotes());
    assert!(!list(&[], false, false, false).shows_keywords());
    assert!(list(&[], false, true, false).shows_keywords());
    assert!(!list(&[], false, true, false).shows_remotes());
    assert!(list(&[], false, true, true).shows_remotes());
    assert!(!list(&["gh"], false, true, true).shows_remotes());
    assert_eq!(List::remotes(&cfg), words(&["gh", "lab"]));
    assert_eq!(List::groups(&db), words(&["org/", "team/", "/"]));
    assert_eq!(List::names(&db, "gh"), words(&["org/a", "org/c", "plain", "team/d"]));
    assert_eq!(list(&[], false, false, false).run(&cfg, &db), Ok(vec![]));
    assert_eq!(list(&[], true, true, true).run(&cfg, &db), Ok(vec![]));
    assert_eq!(list(&["lab"], false, false, false).run(&cfg, &db), Ok(words(&["team/b"])));
    assert_eq!(list(&["gh"], true, false, false).run(&cfg, &db), Ok(words(&["org/", "team/", "/"])));
    assert_eq!(
        list(&["x"], true, false, false).run(&cfg, &db),
        Err(Error::UnknownRemote("x".to_string()))
    );
    let mut cache = Keywords::open("k".to_string(), None, 0).unwrap();
    cache.add("web", 1);
    cache.add("alias", 1);
    assert_eq!(List::keywords(&cache.list(), &cfg), words(&["alias", "web", "zeta"]));
    assert_eq!(List::keywords(&vec![], &cfg), words(&["alias", "zeta"]));
}

#[test]
fn merge_input_is_read() {
    assert_eq!(
        Merge::input("# My title \n\nfirst\n  second  \n\n"),
        Ok(("My title".to_string(), "first\nsecond".to_string()))
    );
    assert_eq!(Merge::input("ignored\n#T\nbody"), Ok(("T".to_string(), "body".to_string())));
    assert_eq!(Merge::input("#A\nx\n#B\ny"), Ok(("B".to_string(), "x\ny".to_string())));
    assert_eq!(Merge::input("## T"), Ok(("# T".to_string(), String::new())));
    assert_eq!(Merge::input("no title"), Err(message("merge title cannot be empty")));
    assert_eq!(Merge::input("#   \nbody"), Err(message("merge title cannot be empty")));
    assert_eq!(Merge::input(""), Err(message("merge title cannot be empty")));
}

#[test]
fn merge_options() {
    let merge = Merge { upstream: false, source: None, target: Some("rel".to_string()) };
    let opts = merge.options("me/repo", "main", "dev");
    assert_eq!(
        opts,
        MergeOption {
            repo: "me/repo".to_string(),
            upstream: None,
            title: String::new(),
            body: String::new(),
            source: "dev".to_string(),
            target: "rel".to_string(),
        }
    );
    let same = Merge { upstream: false, source: Some("main".to_string()), target: None };
    let opts = same.options("me/repo", "main", "dev");
    assert_eq!(Merge::run(opts, None), Err(message("could not merge myself")));
    let opts = same.options("me/repo", "main", "dev");
    let ready = Merge::run(opts, Some("org/repo".to_string())).unwrap();
    assert_eq!(ready.upstream, Some("org/repo".to_string()));
    let made = Merge::create(ready, "T".to_string(), "B".to_string());
    assert_eq!((made.title.as_str(), made.body.as_str(), made.source.as_str()), ("T", "B", "main"));
}

#[test]
fn squash_plan() {
    assert_eq!(Squash::range("origin/main"), "HEAD...origin/main");
    let log = "< 1a2b3c first\n> 4d5e6f theirs\n< 7a8b9c second \n\n  < aaa third";
    assert_eq!(
        Squash::commits_between(log),
        words(&[" 1a2b3c first", " 7a8b9c second ", " aaa third"])
    );
    assert!(Squash::commits_between("").is_empty());
    let squash = |message: Option<&str>| Squash {
        args: vec![],
        upstream: false,
        message: message.map(|m| m.to_string()),
    };
    assert_eq!(squash(None).run(0, "t"), Err(message("no commit to squash")));
    assert_eq!(
        squash(None).run(1, "origin/main"),
        Err(message("only found one commit ahead origin/main, no need to squash"))
    );
    let plan = squash(Some("all in one")).run(12, "t").unwrap();
    assert_eq!(plan.reset, words(&["reset", "--soft", "HEAD~12"]));
    assert_eq!(plan.commit, words(&["commit", "-m", "all in one"]));
    assert_eq!(squash(None).run(2, "t").unwrap().commit, words(&["commit"]));
}

#[test]
fn tag_tasks() {
    let tag = |args: &[&str]| Tag {
        args: words(args),
        rule: None,
        create: false,
        delete: false,
        push: false,
        show_rules: false,
    };
    assert_eq!(tag(&[]).run(), TagTask::Show);
    assert_eq!(tag(&["v1"]).run(), TagTask::Checkout("v1".to_string()));
    let mut t = tag(&["v1"]);
    t.push = true;
    assert_eq!(t.run(), TagTask::Push);
    t.create = true;
    assert_eq!(t.run(), TagTask::Create);
    t.delete = true;
    assert_eq!(t.run(), TagTask::Delete);
    t.show_rules = true;
    assert_eq!(t.run(), TagTask::ShowRules);
    let cfg = config(vec![]);
    assert_eq!(Tag::rules(&cfg), words(&["daily", "patch"]));
    let tags = || vec![GitTag::from_str("v1"), GitTag::from_str("v2")];
    assert_eq!(tag(&[]).get_tag_or_latest(tags()), Ok(None));
    assert_eq!(tag(&["v2"]).get_tag_or_latest(tags()), Ok(Some(GitTag::from_str("v2"))));
    assert_eq!(tag(&["v3"]).get_tag_or_latest(tags()), Err(message("could not find tag v3")));
    assert_eq!(tag(&["v3"]).create(&tags(), &cfg), Ok(NewTag::Named(GitTag::from_str("v3"))));
    assert_eq!(tag(&["v1"]).create(&tags(), &cfg), Err(message("tag v1 is already exists")));
    assert_eq!(tag(&[]).create(&tags(), &cfg), Err(message("require tag name to create")));
    let mut by_rule = tag(&[]);
    by_rule.rule = Some("patch".to_string());
    assert_eq!(by_rule.create(&tags(), &cfg), Ok(NewTag::ByRule("v{0}.{1}.{2+}".to_string())));
    by_rule.rule = Some("major".to_string());
    assert_eq!(by_rule.create(&tags(), &cfg), Err(message("could not find rule major")));
    let v = GitTag::from_str("v9");
    assert_eq!(tag(&[]).create_commands(&v), vec![words(&["tag", "v9"])]);
    assert_eq!(tag(&[]).delete(&v), vec![words(&["tag", "-d", "v9"])]);
    let mut pushing = tag(&[]);
    pushing.push = true;
    assert_eq!(
        pushing.create_commands(&v),
        vec![words(&["tag", "v9"]), words(&["push", "origin", "tag", "v9"])]
    );
    assert_eq!(
        pushing.delete(&v),
        vec![words(&["tag", "-d", "v9"]), words(&["push", "--delete", "origin", "v9"])]
    );
    assert_eq!(Tag::push(&v), words(&["push", "origin", "tag", "v9"]));
}

#[test]
fn branch_tasks() {
    assert_eq!(branch_args(&[]).run(), BranchTask::Show);
    let mut b = branch_args(&["dev"]);
    assert_eq!(
        b.run(),
        BranchTask::Checkout { name: "dev".to_string(), create: false, push: false }
    );
    b.create = true;
    b.push = true;
    assert_eq!(b.run(), BranchTask::Checkout { name: "dev".to_string(), create: true, push: true });
    b.delete = true;
    assert_eq!(b.run(), BranchTask::Delete);
    b.sync = true;
    assert_eq!(b.run(), BranchTask::Sync);
    let mut only_delete = branch_args(&[]);
    only_delete.delete = true;
    assert_eq!(only_delete.run(), BranchTask::Show);
    assert_eq!(Branch::fetch(), words(&["fetch", "--prune"]));
    assert_eq!(Branch::checkout("dev", false, false), vec![words(&["checkout", "dev"])]);
    assert_eq!(
        Branch::checkout("dev", true, true),
        vec![words(&["checkout", "-b", "dev"]), words(&["push", "--set-upstream", "origin", "dev"])]
    );
}

#[test]
fn branches_are_shown() {
    let branches = vec![
        branch("main", BranchStatus::Sync, true),
        branch("feature/long", BranchStatus::Ahead, false),
        branch("x", BranchStatus::Gone, false),
    ];
    assert_eq!(branch_args(&[]).show(&branches), words(&["main", "feature/long", "x"]));
    let mut all = branch_args(&[]);
    all.all = true;
    assert_eq!(
        all.show(&branches),
        words(&["main         sync", "feature/long ahead", "x            gone"])
    );
    assert!(all.show(&vec![]).is_empty());
    let wide = vec![
        branch("\u{4e2d}\u{6587}", BranchStatus::Sync, false),
        branch("abcdefgh", BranchStatus::Gone, false),
    ];
    assert_eq!(all.show(&wide), words(&["\u{4e2d}\u{6587}     sync", "abcdefgh gone"]));
}

#[test]
fn branch_to_delete() {
    let branches = vec![
        branch("main", BranchStatus::Sync, false),
        branch("dev", BranchStatus::Ahead, true),
    ];
    assert_eq!(Branch::must_get_current_branch(&branches), Ok(1));
    assert_eq!(
        Branch::must_get_current_branch(&branches[..1].iter().map(|b| GitBranch { name: b.name.clone(), status: b.status, current: b.current }).collect()),
        Err(message("could not find current branch"))
    );
    assert_eq!(branch_args(&[]).delete(&branches), Ok(1));
    assert_eq!(branch_args(&["main"]).delete(&branches), Ok(0));
    assert_eq!(branch_args(&["x"]).delete(&branches), Err(message("could not find branch x")));
    let mut pushing = branch_args(&["dev"]);
    pushing.push = true;
    assert_eq!(
        pushing.delete_commands(&branches[1], "main"),
        Ok(vec![
            words(&["checkout", "main"]),
            words(&["branch", "-D", "dev"]),
            words(&["push", "origin", "--delete", "dev"]),
        ])
    );
    assert_eq!(
        branch_args(&["main"]).delete_commands(&branches[0], "main"),
        Ok(vec![words(&["branch", "-D", "main"])])
    );
    assert_eq!(
        branch_args(&["main"]).delete_commands(&branch("main", BranchStatus::Sync, true), "main"),
        Err(message("could not delete default branch"))
    );
}

#[test]
fn sync_plan() {
    let branches = vec![
        branch("main", BranchStatus::Gone, false),
        branch("ahead", BranchStatus::Ahead, false),
        branch("cur", BranchStatus::Behind, true),
        branch("dead", BranchStatus::Gone, false),
        branch("fine", BranchStatus::Sync, false),
        branch("both", BranchStatus::Conflict, false),
    ];
    let plan = Branch::sync(&branches, "main");
    assert_eq!(plan.back, "cur");
    assert_eq!(
        plan.tasks,
        vec![
            SyncBranchTask::Sync("push".to_string(), "ahead".to_string()),
            SyncBranchTask::Sync("pull".to_string(), "cur".to_string()),
            SyncBranchTask::Delete("dead".to_string()),
        ]
    );
    assert_eq!(
        plan.commands,
        vec![
            words(&["checkout", "ahead"]),
            words(&["push"]),
            words(&["checkout", "cur"]),
            words(&["pull"]),
            words(&["branch", "-D", "dead"]),
        ]
    );
}

#[test]
fn sync_leaves_a_branch_that_is_gone() {
    let branches = vec![
        branch("main", BranchStatus::Sync, false),
        branch("cur", BranchStatus::Gone, true),
    ];
    let plan = Branch::sync(&branches, "main");
    assert_eq!(plan.back, "main");
    assert_eq!(plan.tasks, vec![SyncBranchTask::Delete("cur".to_string())]);
    assert_eq!(
        plan.commands,
        vec![
            words(&["checkout", "main"]),
            words(&["branch", "-D", "cur"]),
            words(&["checkout", "main"]),
        ]
    );
    let nothing = Branch::sync(&vec![branch("main", BranchStatus::Sync, true)], "main");
    assert!(nothing.tasks.is_empty());
    assert!(nothing.commands.is_empty());
    assert_eq!(nothing.back, "main");
}
