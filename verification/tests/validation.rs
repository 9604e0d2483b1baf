use gitapi::{
    normalize_path, validate_branch_name, validate_hash, validate_repo_name, validate_repo_path,
    GitApiError,
};

#[test]
fn test_validate_repo_name() {
    assert!(validate_repo_name("valid-repo").is_ok());
    assert!(validate_repo_name("valid_repo").is_ok());
    assert!(validate_repo_name("valid.repo").is_ok());
    assert!(validate_repo_name("ValidRepo123").is_ok());

    assert!(validate_repo_name("../etc/passwd").is_err());
    assert!(validate_repo_name("repo/with/slashes").is_err());
    assert!(validate_repo_name("repo with spaces").is_err());
    assert!(validate_repo_name("").is_err());
}

#[test]
fn test_validate_branch_name() {
    assert!(validate_branch_name("main").is_ok());
    assert!(validate_branch_name("feature/new-feature").is_ok());
    assert!(validate_branch_name("release-1.0").is_ok());

    assert!(validate_branch_name("../main").is_err());
    assert!(validate_branch_name("-invalid").is_err());
    assert!(validate_branch_name("branch//double").is_err());
    assert!(validate_branch_name("").is_err());
}

#[test]
fn test_validate_hash() {
    assert!(validate_hash("abc123").is_ok());
    assert!(validate_hash("1234567890abcdef").is_ok());
    assert!(validate_hash("a1b2c3d4e5f6789012345678901234567890abcd").is_ok());

    assert!(validate_hash("invalid-hash").is_err());
    assert!(validate_hash("short").is_err());
    assert!(validate_hash("").is_err());
}

#[test]
fn test_validate_repo_path() {
    let base = "/tmp/repos";

    // Valid repo names should work
    assert!(validate_repo_path(base, "valid-repo").is_ok());

    // Path traversal attempts should be blocked
    assert!(validate_repo_path(base, "../etc").is_err());
    assert!(validate_repo_path(base, "repo/../etc").is_err());
}

#[test]
fn test_normalize_path() {
    assert_eq!(normalize_path("/a/b/c"), "/a/b/c");
    assert_eq!(normalize_path("/a/b/../c"), "/a/c");
    assert_eq!(normalize_path("/a/./b/c"), "/a/b/c");
    assert_eq!(normalize_path("/a/b/../../c"), "/c");
}

#[test]
fn repo_name_accepted_unchanged() {
    assert_eq!(validate_repo_name("my.repo-1_x").unwrap(), "my.repo-1_x");
}

#[test]
fn repo_name_length_limits() {
    let just_right = "a".repeat(100);
    let too_long = "a".repeat(101);
    assert!(validate_repo_name(&just_right).is_ok());
    assert!(validate_repo_name(&too_long).is_err());
}

#[test]
fn repo_name_rejects_dotdot_and_backslash() {
    assert!(validate_repo_name("a..b").is_err());
    assert!(validate_repo_name("a\\b").is_err());
    assert!(matches!(
        validate_repo_name(".."),
        Err(GitApiError::InvalidInput)
    ));
}

#[test]
fn branch_name_length_limits() {
    let just_right = "b".repeat(250);
    let too_long = "b".repeat(251);
    assert!(validate_branch_name(&just_right).is_ok());
    assert!(validate_branch_name(&too_long).is_err());
    assert_eq!(validate_branch_name("main").unwrap(), "main");
}

#[test]
fn hash_length_limits() {
    let just_right = "a".repeat(40);
    let too_long = "a".repeat(41);
    assert!(validate_hash(&just_right).is_ok());
    assert!(validate_hash(&too_long).is_err());
    assert!(validate_hash("abcde").is_err());
    assert_eq!(validate_hash("ABC123").unwrap(), "ABC123");
}

#[test]
fn repo_path_is_joined_under_base() {
    let p = validate_repo_path("/tmp/repos", "demo").unwrap();
    assert_eq!(p, "/tmp/repos/demo.git");
    let q = validate_repo_path("/tmp/repos/", "demo").unwrap();
    assert_eq!(q, "/tmp/repos/demo.git");
}

#[test]
fn normalized_repo_path_stays_under_base() {
    let p = validate_repo_path("/srv/git/../git2", "demo").unwrap();
    assert_eq!(normalize_path(&p), "/srv/git2/demo.git");
}
