use git_zoxide::errors::Error;
use git_zoxide::util::tree::Entry;
use git_zoxide::util::{
    advance, begin, tmp_name, tmp_name_of, EmptyDir, Fzf, Shell, WriteAction, WriteEvent,
    WriteState,
};

fn keys(list: &[&str]) -> Vec<String> {
    list.iter().map(|k| k.to_string()).collect()
}

#[test]
fn temporary_names() {
    let mut seen = std::collections::HashSet::new();
    for _ in 0..200 {
        let name = tmp_name();
        assert_eq!(name.len(), 16);
        assert!(name.starts_with("tmp_"));
        assert!(name[4..].chars().all(|c| c.is_ascii_alphanumeric()));
        seen.insert(name);
    }
    assert!(seen.len() > 190);
}

#[test]
fn temporary_name_of_drawn_characters() {
    let drawn: Vec<char> = "aZ09bY18cX27".chars().collect();
    assert_eq!(tmp_name_of(&drawn), "tmp_aZ09bY18cX27");
    let other: Vec<char> = "000000000000".chars().collect();
    assert_eq!(tmp_name_of(&other), "tmp_000000000000");
}

#[test]
fn a_write_that_goes_well() {
    let (state, action) = begin();
    assert_eq!((state, action), (WriteState::Creating { attempts: 1 }, WriteAction::Create));
    let (state, action) = advance(state, WriteEvent::Created, false);
    assert_eq!((state, action), (WriteState::Writing, WriteAction::Fill));
    let (state, action) = advance(state, WriteEvent::Written, false);
    assert_eq!((state, action), (WriteState::Renaming { retries: 0 }, WriteAction::Rename));
    let (state, action) = advance(state, WriteEvent::Renamed, false);
    assert_eq!((state, action), (WriteState::Done, WriteAction::Stop));
}

#[test]
fn a_taken_name_is_tried_again_five_times_in_all() {
    let (mut state, mut action) = begin();
    let mut creates = 1;
    loop {
        let next = advance(state, WriteEvent::Exists, false);
        state = next.0;
        action = next.1;
        if action != WriteAction::Create {
            break;
        }
        creates += 1;
    }
    assert_eq!(creates, 5);
    assert_eq!((state, action), (WriteState::Failed, WriteAction::Stop));
    assert_eq!(
        advance(WriteState::Creating { attempts: 2 }, WriteEvent::CreateFailed, false),
        (WriteState::Failed, WriteAction::Stop)
    );
}

#[test]
fn an_interrupted_write_never_touches_the_target() {
    for locking in [false, true] {
        for event in [WriteEvent::WriteFailed, WriteEvent::Written] {
            let (state, action) = advance(WriteState::Writing, event, locking);
            assert_ne!(state, WriteState::Done);
            if event == WriteEvent::WriteFailed {
                assert_eq!((state, action), (WriteState::Removing, WriteAction::Remove));
                assert_eq!(
                    advance(state, WriteEvent::Removed, locking),
                    (WriteState::Failed, WriteAction::Stop)
                );
            }
        }
    }
}

#[test]
fn a_denied_rename_is_tried_again() {
    for (locking, retries) in [(false, 1), (true, 5)] {
        let mut state = WriteState::Renaming { retries: 0 };
        let mut renames = 1;
        loop {
            let (next, action) = advance(state, WriteEvent::Denied, locking);
            state = next;
            if action != WriteAction::Rename {
                assert_eq!((next, action), (WriteState::Removing, WriteAction::Remove));
                break;
            }
            renames += 1;
        }
        assert_eq!(renames, retries + 1);
    }
    assert_eq!(
        advance(WriteState::Renaming { retries: 0 }, WriteEvent::RenameFailed, true),
        (WriteState::Removing, WriteAction::Remove)
    );
}

#[test]
fn selector_input() {
    assert_eq!(Fzf::input(&keys(&["a", "org/b"])), "a\norg/b\n");
    assert_eq!(Fzf::input(&vec![]), "");
}

#[test]
fn selector_exits() {
    let k = keys(&["a", "b", "a"]);
    assert_eq!(Fzf::query(&k, Some(0), " b \n"), Ok(1));
    assert_eq!(Fzf::query(&k, Some(0), "a"), Ok(0));
    assert_eq!(Fzf::query(&k, Some(0), "c\n"), Err(Error::KeyNotFound("c".to_string())));
    assert_eq!(Fzf::query(&k, Some(1), "a"), Err(Error::NoMatch));
    assert_eq!(Fzf::query(&k, Some(2), "a"), Err(Error::SelectorFailed));
    assert_eq!(Fzf::query(&k, Some(130), "a"), Err(Error::SelectionCancelled));
    assert_eq!(Fzf::query(&k, Some(128), "a"), Err(Error::SelectorTerminated));
    assert_eq!(Fzf::query(&k, Some(254), "a"), Err(Error::SelectorTerminated));
    assert_eq!(Fzf::query(&k, None, "a"), Err(Error::SelectorTerminated));
    assert_eq!(Fzf::query(&k, Some(255), "a"), Err(Error::SelectorUnknown));
    assert_eq!(Fzf::query(&k, Some(3), "a"), Err(Error::SelectorUnknown));
    assert_eq!(Fzf::query(&k, Some(-1), "a"), Err(Error::SelectorUnknown));
}

#[test]
fn command_exits() {
    assert_eq!(Shell::exec(Some(0), "  out \n"), Ok("out".to_string()));
    assert_eq!(Shell::exec(Some(1), "out"), Err(Error::CommandFailed));
    assert_eq!(Shell::exec(None, "out"), Err(Error::CommandFailed));
    assert_eq!(Shell::print_cmd("git", &keys(&["-C", "/p", "status"])), "git -C /p status");
    assert_eq!(Shell::print_cmd("git", &vec![]), "git");
}

fn walked(path: &str, root: bool, subs: Vec<EmptyDir>, files: bool) -> EmptyDir {
    let mut dir = EmptyDir::new(path.to_string(), root);
    if files {
        assert_eq!(dir.walk("file", false, "", &vec![]), Entry::Keep);
    }
    for sub in subs {
        dir.attach(sub);
    }
    dir.close();
    dir
}

fn listed(dir: &EmptyDir) -> Vec<String> {
    let mut out = vec!["before".to_string()];
    dir.list(&mut out);
    out.remove(0);
    out
}

#[test]
fn entries_of_a_walk() {
    let mut dir = EmptyDir::new("/ws".to_string(), false);
    let exclude = keys(&["/ws/gh/repo"]);
    assert_eq!(dir.walk("gh", true, "/ws/gh", &exclude), Entry::Walk);
    assert!(listed(&walked("/ws", false, vec![], false)) == keys(&["/ws"]));
    assert_eq!(dir.walk(".git", true, "/ws/.git", &exclude), Entry::Keep);
    let mut other = EmptyDir::new("/ws/gh".to_string(), false);
    assert_eq!(other.walk("repo", true, "/ws/gh/repo", &exclude), Entry::Keep);
    other.close();
    assert!(listed(&other).is_empty());
    assert_eq!(other.path(), "/ws/gh");
}

#[test]
fn excluded_directories_are_compared_as_paths() {
    let exclude = keys(&["/ws/gh//repo/", "/ws/gh/./other"]);
    let mut dir = EmptyDir::new("/ws/gh".to_string(), false);
    assert_eq!(dir.walk("repo", true, "/ws/gh/repo", &exclude), Entry::Keep);
    let mut dir = EmptyDir::new("/ws/gh".to_string(), false);
    assert_eq!(dir.walk("other", true, "/ws/gh/other", &exclude), Entry::Keep);
    let mut dir = EmptyDir::new("/ws/gh".to_string(), false);
    assert_eq!(dir.walk("rep", true, "/ws/gh/rep", &exclude), Entry::Walk);
    assert_eq!(dir.walk("up", true, "/ws/gh/repo/../up", &exclude), Entry::Walk);
    dir.close();
    assert!(listed(&dir) == keys(&["/ws/gh"]));
}

#[test]
fn empty_directories_are_listed() {
    let tree = walked(
        "/ws",
        true,
        vec![
            walked("/ws/empty", false, vec![], false),
            walked("/ws/files", false, vec![], true),
            walked(
                "/ws/nested",
                false,
                vec![
                    walked("/ws/nested/a", false, vec![], false),
                    walked("/ws/nested/b", false, vec![walked("/ws/nested/b/c", false, vec![], false)], false),
                ],
                false,
            ),
        ],
        false,
    );
    let scanned = EmptyDir::scan(tree);
    assert_eq!(listed(&scanned), keys(&["/ws/empty", "/ws/nested/a", "/ws/nested/b/c"]));
    let bare = EmptyDir::scan(walked("/ws", false, vec![], false));
    assert!(listed(&bare).is_empty());
    let marked = walked("/x", false, vec![walked("/x/y", false, vec![], false)], false).mark();
    assert_eq!(listed(&marked), keys(&["/x/y"]));
}
