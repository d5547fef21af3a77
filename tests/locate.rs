use gitcore::error::GitError;
use gitcore::locate::find_repo;
use gitcore::path::RepoPath;

fn abc() -> RepoPath {
    let names = vec!["a".to_string(), "b".to_string(), "c".to_string()];
    RepoPath::from_components(true, names).unwrap()
}

#[test]
fn nearest_ancestor_with_metadata_is_chosen() {
    // candidates: /a/b/c, /a/b, /a, /
    let found = vec![false, false, true, false];
    let root = find_repo(&abc(), &found).unwrap();
    assert_eq!(root.to_text(), "/a");
}

#[test]
fn nearer_match_wins_over_farther() {
    let found = vec![false, true, true, true];
    assert_eq!(find_repo(&abc(), &found).unwrap().to_text(), "/a/b");
}

#[test]
fn filesystem_root_is_a_candidate() {
    let found = vec![false, false, false, true];
    assert_eq!(find_repo(&abc(), &found).unwrap().to_text(), "/");
}

#[test]
fn no_metadata_anywhere_reports_start() {
    let found = vec![false, false, false, false];
    match find_repo(&abc(), &found) {
        Err(GitError::NotAGitRepo(p)) => assert_eq!(p.to_text(), "/a/b/c"),
        other => panic!("unexpected result {:?}", other),
    }
}

#[test]
fn missing_probes_count_as_not_found() {
    let found: Vec<bool> = Vec::new();
    match find_repo(&abc(), &found) {
        Err(GitError::NotAGitRepo(p)) => assert_eq!(p.to_text(), "/a/b/c"),
        other => panic!("unexpected result {:?}", other),
    }
}

#[test]
fn start_with_metadata_is_its_own_root() {
    let found = vec![true, false, true, false];
    assert_eq!(find_repo(&abc(), &found).unwrap().to_text(), "/a/b/c");
}

#[test]
fn io_error_converts_to_io_variant() {
    let err = std::io::Error::new(std::io::ErrorKind::PermissionDenied, "denied");
    assert!(matches!(GitError::from(err), GitError::Io(_)));
}
