use gitapi::GitApiError;

#[test]
fn error_labels_are_stable() {
    assert_eq!(GitApiError::InvalidInput.label(), "invalid input");
    assert_eq!(GitApiError::ParseError.label(), "parse error");
    assert_eq!(GitApiError::DateParseError.label(), "date parse error");
    assert_eq!(GitApiError::AuthorParseError.label(), "author parse error");
    assert_eq!(GitApiError::NoLastElement.label(), "no last element");
    assert_eq!(GitApiError::InvalidEncoding.label(), "invalid encoding");
    assert_eq!(
        GitApiError::CommandFailed(String::from("stderr text")).label(),
        "command failed"
    );
    assert_eq!(
        GitApiError::PathResolutionError.label(),
        "path resolution error"
    );
    assert_eq!(
        GitApiError::RepositoryNotFound.label(),
        "repository not found"
    );
}
