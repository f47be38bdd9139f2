use imageboard_dl::{resolve_output_root, OutputRoot, RunError};

#[test]
fn only_invalid_input_is_recoverable() {
    assert!(!RunError::InvalidInput.is_fatal());
    assert!(RunError::InvalidOutputPath.is_fatal());
    assert!(RunError::NetworkError.is_fatal());
    assert!(RunError::DecodeError.is_fatal());
    assert!(RunError::FilesystemError.is_fatal());
}

#[test]
fn output_root_resolution() {
    assert_eq!(resolve_output_root(true, true), Ok(OutputRoot::Supplied));
    assert_eq!(
        resolve_output_root(true, false),
        Err(RunError::InvalidOutputPath)
    );
    assert_eq!(resolve_output_root(false, false), Ok(OutputRoot::CurrentDir));
    assert_eq!(resolve_output_root(false, true), Ok(OutputRoot::CurrentDir));
}
