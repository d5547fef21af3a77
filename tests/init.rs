use gitcore::init::InitStep;
use gitcore::path::RepoPath;
use gitcore::repository::Repository;

fn repo() -> Repository {
    let names = vec!["tmp".to_string(), "t".to_string()];
    Repository::maybe_uninitialized_repo(RepoPath::from_components(true, names).unwrap())
}

fn describe(step: &InitStep) -> (String, String, Option<String>) {
    match step {
        InitStep::CreateDirAll(p) => ("dir".to_string(), p.to_text(), None),
        InitStep::CreateFileIfAbsent(p, text) => ("file".to_string(), p.to_text(), Some(text.clone())),
    }
}

#[test]
fn initialization_creates_skeleton_directories_first() {
    let steps: Vec<_> = repo().initialization_steps().iter().map(describe).collect();
    assert_eq!(steps.len(), 7);
    let dirs: Vec<&str> = steps[..4].iter().map(|s| s.1.as_str()).collect();
    assert!(steps[..4].iter().all(|s| s.0 == "dir"));
    assert_eq!(
        dirs,
        vec![
            "/tmp/t/.git/refs/heads",
            "/tmp/t/.git/refs/tags",
            "/tmp/t/.git/objects/info",
            "/tmp/t/.git/objects/pack"
        ]
    );
    assert!(steps[4..].iter().all(|s| s.0 == "file"));
}

#[test]
fn initialization_files_and_contents() {
    let steps: Vec<_> = repo().initialization_steps().iter().map(describe).collect();
    assert_eq!(steps[4].1, "/tmp/t/.git/HEAD");
    assert_eq!(steps[4].2.as_deref(), Some("ref: refs/heads/main"));
    assert_eq!(steps[5].1, "/tmp/t/.git/description");
    let description = steps[5].2.clone().unwrap();
    assert_eq!(
        description,
        "Unnamed repository; edit this file 'description' to name the repository.\n"
    );
    assert!(description.ends_with('\n'));
    assert_eq!(steps[6].1, "/tmp/t/.git/config");
    assert_eq!(steps[6].2.as_deref(), Some(""));
}

#[test]
fn repeated_initialization_plans_are_identical() {
    let first: Vec<_> = repo().initialization_steps().iter().map(describe).collect();
    let second: Vec<_> = repo().initialization_steps().iter().map(describe).collect();
    assert_eq!(first, second);
}

#[test]
fn existing_head_is_never_overwritten() {
    // HEAD is only ever written where it is absent.
    let steps = repo().initialization_steps();
    let head_steps: Vec<_> = steps
        .iter()
        .filter(|s| describe(s).1 == "/tmp/t/.git/HEAD")
        .collect();
    assert_eq!(head_steps.len(), 1);
    assert!(matches!(head_steps[0], InitStep::CreateFileIfAbsent(_, _)));
}
