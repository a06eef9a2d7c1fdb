use git_chai::error::GitChaiError;

#[test]
fn test_error_display() {
    let git_error = GitChaiError::GitCommandError {
        command: "test".to_string(),
        stderr: "error".to_string(),
        source: None,
    };
    assert!(git_error.to_string().contains("Git command failed"));

    let io_error = GitChaiError::IoError(std::io::Error::new(std::io::ErrorKind::Other, "test"));
    assert!(io_error.to_string().contains("IO error"));

    let parse_error = GitChaiError::ParseError("test".to_string());
    assert!(parse_error.to_string().contains("Parse error"));
}

#[test]
fn error_text_is_exact() {
    let git_error = GitChaiError::GitCommandError {
        command: "git add x".to_string(),
        stderr: "fatal: pathspec".to_string(),
        source: None,
    };
    assert_eq!(git_error.to_string(), "Git command failed: git add x: fatal: pathspec");

    let parse_error = GitChaiError::ParseError("bad line".to_string());
    assert_eq!(parse_error.to_string(), "Parse error: bad line");

    let io_error = GitChaiError::IoError(std::io::Error::new(std::io::ErrorKind::Other, "boom"));
    assert!(io_error.to_string().starts_with("IO error: "));
}
