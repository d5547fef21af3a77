use gitcore::path::RepoPath;
use gitcore::repository::Repository;

fn path(absolute: bool, names: &[&str]) -> RepoPath {
    let components: Vec<String> = names.iter().map(|s| s.to_string()).collect();
    RepoPath::from_components(absolute, components).unwrap()
}

fn repo_at_tmp() -> Repository {
    Repository::maybe_uninitialized_repo(path(true, &["tmp", "work"]))
}

#[test]
fn accessors_join_fixed_suffixes() {
    let repo = repo_at_tmp();
    assert_eq!(repo.base_dir().to_text(), "/tmp/work");
    assert_eq!(repo.git_dir().to_text(), "/tmp/work/.git");
    assert_eq!(repo.HEAD().to_text(), "/tmp/work/.git/HEAD");
    assert_eq!(repo.description().to_text(), "/tmp/work/.git/description");
    assert_eq!(repo.config().to_text(), "/tmp/work/.git/config");
    assert_eq!(repo.refs().to_text(), "/tmp/work/.git/refs");
    assert_eq!(repo.heads().to_text(), "/tmp/work/.git/refs/heads");
    assert_eq!(repo.tags().to_text(), "/tmp/work/.git/refs/tags");
    assert_eq!(repo.objects().to_text(), "/tmp/work/.git/objects");
    assert_eq!(repo.info().to_text(), "/tmp/work/.git/objects/info");
    assert_eq!(repo.pack().to_text(), "/tmp/work/.git/objects/pack");
}

#[test]
fn accessors_on_relative_base() {
    let repo = Repository::maybe_uninitialized_repo(path(false, &["proj"]));
    assert_eq!(repo.heads().to_text(), "proj/.git/refs/heads");
    let empty = Repository::maybe_uninitialized_repo(path(false, &[]));
    assert_eq!(empty.config().to_text(), ".git/config");
    let root = Repository::maybe_uninitialized_repo(RepoPath::root());
    assert_eq!(root.HEAD().to_text(), "/.git/HEAD");
}

#[test]
fn accessors_are_deterministic() {
    let repo = repo_at_tmp();
    assert_eq!(repo.pack().to_text(), repo.pack().to_text());
    assert_eq!(repo.pack().components(), vec!["tmp", "work", ".git", "objects", "pack"]);
    assert!(repo.pack().is_absolute());
}

#[test]
fn components_are_checked() {
    assert!(RepoPath::from_components(true, vec!["a".to_string(), "".to_string()]).is_none());
    assert!(RepoPath::from_components(false, vec!["a/b".to_string()]).is_none());
    assert!(RepoPath::from_components(false, vec!["..".to_string(), "b".to_string()]).is_some());
}

#[test]
fn parent_and_child() {
    let p = path(true, &["a", "b"]);
    assert_eq!(p.parent().unwrap().to_text(), "/a");
    assert_eq!(p.child("c").to_text(), "/a/b/c");
    assert!(RepoPath::root().parent().is_none());
    assert_eq!(RepoPath::root().to_text(), "/");
    let rel = path(false, &["a"]);
    assert_eq!(rel.parent().unwrap().to_text(), "");
    assert!(rel.parent().unwrap().parent().is_none());
}

#[test]
fn ancestors_walk_up_to_root() {
    let p = path(true, &["a", "b", "c"]);
    let texts: Vec<String> = p.ancestors().iter().map(|a| a.to_text()).collect();
    assert_eq!(texts, vec!["/a/b/c", "/a/b", "/a", "/"]);
    let rel = path(false, &["x", "y"]);
    let texts: Vec<String> = rel.ancestors().iter().map(|a| a.to_text()).collect();
    assert_eq!(texts, vec!["x/y", "x", ""]);
    assert_eq!(RepoPath::root().ancestors().len(), 1);
}
