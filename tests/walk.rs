use repomng::name_policy::validate_name;
use repomng::repository::{list_repositories, DiscoveryError, Repository};
use repomng::walk::{classify, DirEntryInfo, EntryKind, Step, Walker};

fn dir(name: &str) -> Option<DirEntryInfo> {
    Some(DirEntryInfo { file_name: name.to_string(), is_dir: true, is_symlink: false })
}

fn file(name: &str) -> Option<DirEntryInfo> {
    Some(DirEntryInfo { file_name: name.to_string(), is_dir: false, is_symlink: false })
}

fn symlink_to_dir(name: &str) -> Option<DirEntryInfo> {
    Some(DirEntryInfo { file_name: name.to_string(), is_dir: true, is_symlink: true })
}

#[test]
fn classify_entries() {
    assert_eq!(classify("team", true, false), EntryKind::Namespace);
    assert_eq!(classify("x.git", true, false), EntryKind::Repository);
    assert_eq!(classify(".git", true, false), EntryKind::Invalid);
    assert_eq!(classify("..git", true, false), EntryKind::Invalid);
    assert_eq!(classify("...git", true, false), EntryKind::Invalid);
    assert_eq!(classify("a..git", true, false), EntryKind::Repository);
    assert_eq!(classify("a.gitx", true, false), EntryKind::Namespace);
    assert_eq!(classify("x.git", false, false), EntryKind::Invalid);
    assert_eq!(classify("x.git", true, true), EntryKind::Invalid);
    assert_eq!(classify("team", true, true), EntryKind::Invalid);
    assert_eq!(classify("..", true, false), EntryKind::Invalid);
    assert_eq!(classify("a b", true, false), EntryKind::Invalid);
    assert_eq!(classify("", true, false), EntryKind::Invalid);
}

#[test]
fn symlinked_repository_is_never_listed() {
    let w = Walker::new();
    match w.on_entry(symlink_to_dir("alpha.git")) {
        Step::Skip(e) => assert_eq!(e, DiscoveryError::InvalidEntry),
        _ => panic!("a symlink must be skipped"),
    }
}

#[test]
fn dot_stems_before_suffix_are_invalid_entries() {
    let mut w = Walker::new();
    assert_eq!(w.enter("grp".to_string(), true), None);
    for name in [".git", "..git", "...git"] {
        assert!(matches!(w.on_entry(dir(name)), Step::Skip(DiscoveryError::InvalidEntry)), "{name}");
    }
}

#[test]
fn unreadable_entry_is_a_read_error() {
    let w = Walker::new();
    assert!(matches!(w.on_entry(None), Step::Skip(DiscoveryError::ReadError)));
}

#[test]
fn files_and_bad_names_are_invalid_entries() {
    let w = Walker::new();
    assert!(matches!(w.on_entry(file("notes.txt")), Step::Skip(DiscoveryError::InvalidEntry)));
    assert!(matches!(w.on_entry(dir("bad name")), Step::Skip(DiscoveryError::InvalidEntry)));
}

#[test]
fn two_repository_tree_lists_both() {
    // root: alpha.git, grp/beta.git
    let mut w = Walker::new();
    let mut items: Vec<Result<Repository, DiscoveryError>> = Vec::new();

    match w.on_entry(dir("alpha.git")) {
        Step::ReadRepository { path, name } => {
            assert_eq!(path, "alpha.git");
            assert_eq!(name, "alpha");
            items.push(Repository::read(name, true, Some("Alpha repo".to_string())));
        }
        _ => panic!("alpha.git is a repository"),
    }
    match w.on_entry(dir("grp")) {
        Step::Descend { path, segment } => {
            assert_eq!(path, "grp");
            assert_eq!(w.enter(segment, true), None);
        }
        _ => panic!("grp is a namespace"),
    }
    match w.on_entry(dir("beta.git")) {
        Step::ReadRepository { path, name } => {
            assert_eq!(path, "grp/beta.git");
            assert_eq!(name, "grp/beta");
            items.push(Repository::read(name, true, Some(String::new())));
        }
        _ => panic!("beta.git is a repository"),
    }
    w.leave();
    assert!(!w.is_finished());
    w.leave();
    assert!(w.is_finished());

    let list = list_repositories(items);
    assert_eq!(list.len(), 2);
    assert_eq!(list[0].name, "alpha");
    assert_eq!(list[0].description, "Alpha repo");
    assert_eq!(list[1].name, "grp/beta");
    assert_eq!(list[1].description, "");
}

#[test]
fn unreadable_namespace_keeps_walking_siblings() {
    // root: locked/ (cannot be opened), open/x.git
    let mut w = Walker::new();
    match w.on_entry(dir("locked")) {
        Step::Descend { segment, .. } => {
            assert_eq!(w.enter(segment, false), Some(DiscoveryError::ReadError));
        }
        _ => panic!("locked is a namespace"),
    }
    match w.on_entry(dir("open")) {
        Step::Descend { path, segment } => {
            assert_eq!(path, "open");
            assert_eq!(w.enter(segment, true), None);
        }
        _ => panic!("open is a namespace"),
    }
    match w.on_entry(dir("x.git")) {
        Step::ReadRepository { path, name } => {
            assert_eq!(path, "open/x.git");
            assert_eq!(name, "open/x");
        }
        _ => panic!("x.git is a repository"),
    }
}

#[test]
fn enter_refuses_a_name_that_is_no_namespace() {
    let mut w = Walker::new();
    assert_eq!(w.enter("x.git".to_string(), true), Some(DiscoveryError::InvalidEntry));
    assert_eq!(w.enter("..".to_string(), true), Some(DiscoveryError::InvalidEntry));
    w.leave();
    assert!(w.is_finished());
    assert_eq!(w.enter("team".to_string(), true), Some(DiscoveryError::InvalidEntry));
}

#[test]
fn deep_paths_join_every_level() {
    let mut w = Walker::new();
    for seg in ["a", "b", "c"] {
        assert_eq!(w.enter(seg.to_string(), true), None);
    }
    match w.on_entry(dir("d.git")) {
        Step::ReadRepository { path, name } => {
            assert_eq!(path, "a/b/c/d.git");
            assert_eq!(name, "a/b/c/d");
        }
        _ => panic!("d.git is a repository"),
    }
    w.leave();
    match w.on_entry(dir("e")) {
        Step::Descend { path, .. } => assert_eq!(path, "a/b/e"),
        _ => panic!("e is a namespace"),
    }
}

#[test]
fn provisioned_name_is_found_again() {
    let name = "team/sub/x";
    assert!(validate_name(name).is_ok());
    let plan = Repository::new(name.to_string(), "d".to_string()).create().unwrap();
    let parts: Vec<&str> = plan.path.split('/').collect();
    let mut w = Walker::new();
    for seg in &parts[..parts.len() - 1] {
        match w.on_entry(dir(seg)) {
            Step::Descend { segment, .. } => assert_eq!(w.enter(segment, true), None),
            _ => panic!("{seg} is a namespace"),
        }
    }
    match w.on_entry(dir(parts[parts.len() - 1])) {
        Step::ReadRepository { path, name: found } => {
            assert_eq!(path, plan.path);
            assert_eq!(found, name);
        }
        _ => panic!("the last segment is a repository"),
    }
}
