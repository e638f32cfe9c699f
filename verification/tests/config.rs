use git_zoxide::config::{
    default_bool, default_config, empty_map, empty_string, empty_vec, Config, Provider, Remote,
    Step, StepAction, User, API,
};
use git_zoxide::db::repo::{Ensure, Found};
use git_zoxide::db::Repo;
use git_zoxide::errors::Error;
use git_zoxide::util::{clock_time, current_time, expand_env, expansion, path_to_str};

fn remote(name: &str) -> Remote {
    Remote { name: name.to_string(), user: None, clone: None, api: None, on_create: vec![] }
}

fn config(remotes: Vec<Remote>) -> Config {
    Config {
        workspace: "/ws".to_string(),
        remotes,
        keyword_map: vec![("k".to_string(), "gh/a".to_string())],
        tag_rule: vec![("patch".to_string(), "v{0}.{1}.{2+}".to_string())],
    }
}

fn repo(name: &str, path: &str) -> Repo {
    Repo {
        remote: "gh".to_string(),
        name: name.to_string(),
        path: path.to_string(),
        last_accessed: 0,
        accessed: 0,
    }
}

#[test]
fn defaults() {
    assert_eq!(empty_string(), "");
    assert!(empty_vec::<u8>().is_empty());
    assert!(empty_map().is_empty());
    assert!(!default_bool());
    let cfg = default_config();
    assert_eq!(cfg.workspace, "${HOME}/dev");
    assert!(cfg.remotes.is_empty());
    assert!(cfg.keyword_map.is_empty());
    assert!(cfg.tag_rule.is_empty());
}

#[test]
fn remotes_are_found_by_name() {
    let cfg = config(vec![remote("gh"), remote("lab"), remote("gh")]);
    assert_eq!(cfg.remote_position("lab"), Some(1));
    assert_eq!(cfg.remote_position("gh"), Some(0));
    assert_eq!(cfg.remote_position("x"), None);
    assert_eq!(cfg.get_remote("lab").map(|r| r.name.as_str()), Some("lab"));
    assert!(cfg.get_remote("").is_none());
    assert_eq!(cfg.must_get_remote("x").err(), Some(Error::UnknownRemote("x".to_string())));
    assert!(cfg.must_get_remote("gh").is_ok());
    assert!(cfg.has_keyword("k"));
    assert!(!cfg.has_keyword("K"));
    assert_eq!(cfg.get_rule("patch"), Some(&"v{0}.{1}.{2+}".to_string()));
    assert_eq!(cfg.get_rule("minor"), None);
}

#[test]
fn duplicate_remotes_are_refused() {
    assert_eq!(config(vec![remote("a"), remote("b")]).duplicate_remote(), None);
    let cfg = config(vec![remote("a"), remote("b"), remote("c"), remote("b"), remote("a")]);
    assert_eq!(cfg.duplicate_remote(), Some(3));
    assert!(cfg.is_repeat(4));
    assert!(!cfg.is_repeat(2));
    let mut cfg = cfg;
    assert_eq!(cfg.normalize(), Err(Error::DuplicateRemote("b".to_string())));
    assert_eq!(
        Config::parse(config(vec![remote("x"), remote("x")])).err(),
        Some(Error::DuplicateRemote("x".to_string()))
    );
}

#[test]
fn normalize_expands_the_workspace_and_the_tokens() {
    let path = expand_env("$PATH").unwrap();
    assert_ne!(path, "$PATH");
    let mut with_api = remote("gh");
    with_api.api = Some(API {
        provider: Provider::Github,
        token: "tok-${PATH}".to_string(),
        url: "$PATH".to_string(),
    });
    let mut cfg = config(vec![with_api, remote("lab")]);
    cfg.workspace = "$PATH/src".to_string();
    let ready = Config::parse(cfg).unwrap();
    assert_eq!(ready.workspace, format!("{path}/src"));
    let api = ready.remotes[0].api.as_ref().unwrap();
    assert_eq!(api.token, format!("tok-{path}"));
    assert_eq!(api.url, "$PATH");
    assert_eq!(api.provider, Provider::Github);
    assert_eq!(ready.remotes[1], remote("lab"));
    assert_eq!(ready.keyword_map, vec![("k".to_string(), "gh/a".to_string())]);
}

#[test]
fn a_configuration_without_variables_stays_as_it_is() {
    let mut with_api = remote("gh");
    with_api.api = Some(API {
        provider: Provider::Gitlab,
        token: "tok~en".to_string(),
        url: "$URL".to_string(),
    });
    with_api.user = Some(User { name: "me".to_string(), email: "$me".to_string() });
    let mut cfg = config(vec![with_api, remote("lab")]);
    cfg.workspace = "/home/me/dev".to_string();
    assert_eq!(cfg.normalize(), Ok(()));
    assert_eq!(cfg.workspace, "/home/me/dev");
    let api = cfg.remotes[0].api.as_ref().unwrap();
    assert_eq!((api.token.as_str(), api.url.as_str(), api.provider), ("tok~en", "$URL", Provider::Gitlab));
    assert_eq!(cfg.remotes[0].user, Some(User { name: "me".to_string(), email: "$me".to_string() }));
    assert_eq!(cfg.remotes[1], remote("lab"));
}

#[test]
fn a_variable_that_is_not_set_fails_the_expansion() {
    assert_eq!(
        expand_env("$GZ_TEST_SURELY_NOT_SET_ANYWHERE/x"),
        Err(Error::Expansion("$GZ_TEST_SURELY_NOT_SET_ANYWHERE/x".to_string()))
    );
    let mut cfg = config(vec![remote("a"), remote("a")]);
    cfg.workspace = "$GZ_TEST_SURELY_NOT_SET_ANYWHERE".to_string();
    assert_eq!(
        cfg.normalize(),
        Err(Error::Expansion("$GZ_TEST_SURELY_NOT_SET_ANYWHERE".to_string()))
    );
    assert_eq!(expand_env("plain"), Ok("plain".to_string()));
}

#[test]
fn steps() {
    let step = |run: Option<&str>, file: Option<&str>, copy: Option<&str>| Step {
        name: "dir/file.txt".to_string(),
        run: run.map(|s| s.to_string()),
        file: file.map(|s| s.to_string()),
        copy: copy.map(|s| s.to_string()),
    };
    assert_eq!(
        step(Some("a\nb\nc"), Some("f"), Some("c")).exec(),
        Ok(StepAction::Run { script: "a;b;c".to_string() })
    );
    assert_eq!(
        step(None, Some("f"), Some("/etc/tmpl")).exec(),
        Ok(StepAction::Copy { name: "dir/file.txt".to_string(), from: "/etc/tmpl".to_string() })
    );
    assert_eq!(
        step(None, Some("a\\tb\\t"), None).exec(),
        Ok(StepAction::Write { name: "dir/file.txt".to_string(), content: "a\tb\t".to_string() })
    );
    assert_eq!(
        step(None, None, None).exec(),
        Ok(StepAction::Write { name: "dir/file.txt".to_string(), content: String::new() })
    );
    assert_eq!(
        step(None, None, Some("$GZ_TEST_SURELY_NOT_SET_ANYWHERE")).exec(),
        Err(Error::Expansion("$GZ_TEST_SURELY_NOT_SET_ANYWHERE".to_string()))
    );
}

#[test]
fn a_text_without_variables_stays_as_it_is() {
    for text in ["", "plain", "/ws/dev", "a~b/c", "/~", "gr\u{fc}n/\u{4e2d}", "{x}%y"] {
        assert_eq!(expand_env(text), Ok(text.to_string()), "{text:?}");
    }
}

#[test]
fn an_expansion_is_its_text_or_a_failure() {
    assert_eq!(expansion("$A", Some("a value".to_string())), Ok("a value".to_string()));
    assert_eq!(expansion("$A", Some(String::new())), Ok(String::new()));
    assert_eq!(expansion("$A/x", None), Err(Error::Expansion("$A/x".to_string())));
}

#[test]
fn the_clock_runs() {
    let now = current_time().unwrap();
    assert!(now > 1_600_000_000);
}

#[test]
fn a_reading_of_the_clock() {
    assert_eq!(clock_time(Some(0)), Ok(0));
    assert_eq!(clock_time(Some(1_700_000_000)), Ok(1_700_000_000));
    assert_eq!(
        clock_time(None),
        Err(Error::Message("system clock set to invalid time".to_string()))
    );
}

#[test]
fn paths_are_texts() {
    let path = std::path::PathBuf::from("/a/b");
    assert_eq!(path_to_str(&path), Ok("/a/b"));
    let other = std::path::PathBuf::from("gr\u{fc}n/\u{4e2d}");
    assert_eq!(path_to_str(&other), Ok("gr\u{fc}n/\u{4e2d}"));
    assert_eq!(path_to_str(&std::path::PathBuf::new()), Ok(""));
}

#[test]
fn repo_path_is_its_own_or_derived() {
    assert_eq!(repo("org/a", "/own").path("/ws"), "/own");
    let derived = repo("org/a", "").path("/ws");
    let expected = std::path::Path::new("/ws").join("gh").join("org/a");
    assert_eq!(derived, expected.to_str().unwrap());
    assert_ne!(derived, "/ws");
}

#[test]
fn clone_url_over_https_or_ssh() {
    let how = |use_ssh: bool, groups: &str| git_zoxide::config::Clone {
        domain: "github.com".to_string(),
        use_ssh,
        ssh_groups: groups.to_string(),
    };
    assert_eq!(repo("org/a", "").clone_url(&how(false, "")), "https://github.com/org/a.git");
    assert_eq!(repo("org/a", "").clone_url(&how(true, "")), "git@github.com:org/a.git");
    assert_eq!(repo("org/a", "").clone_url(&how(false, "x;org;y")), "git@github.com:org/a.git");
    assert_eq!(repo("org/a", "").clone_url(&how(false, "x;organ")), "https://github.com/org/a.git");
    assert_eq!(repo("a/b/c", "").clone_url(&how(false, "a/b")), "git@github.com:a/b/c.git");
    assert_eq!(repo("plain", "").clone_url(&how(false, "x;")), "git@github.com:plain.git");
    assert_eq!(repo("plain", "").clone_url(&how(false, "x")), "https://github.com/plain.git");
}

#[test]
fn ensure_path_decides_what_to_do() {
    let mut r = remote("gh");
    let record = repo("org/a", "/own");
    assert_eq!(
        record.ensure_path("/ws", &r, Found::Directory),
        Ensure::Ready { path: "/own".to_string() }
    );
    assert_eq!(
        record.ensure_path("/ws", &r, Found::Unreadable),
        Ensure::Fail { path: "/own".to_string() }
    );
    assert_eq!(
        record.ensure_path("/ws", &r, Found::Nothing),
        Ensure::Create { path: "/own".to_string() }
    );
    r.clone = Some(git_zoxide::config::Clone { domain: "d".to_string(), use_ssh: false, ssh_groups: String::new() });
    r.user = Some(User { name: "me".to_string(), email: "me@d".to_string() });
    assert_eq!(
        record.ensure_path("/ws", &r, Found::Nothing),
        Ensure::Clone {
            url: "https://d/org/a.git".to_string(),
            path: "/own".to_string(),
            user: Some(("me".to_string(), "me@d".to_string())),
        }
    );
    assert_eq!(
        record.ensure_path("/ws", &r, Found::Directory),
        Ensure::Ready { path: "/own".to_string() }
    );
}
