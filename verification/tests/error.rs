use lib::error::RustScopeError;

#[test]
fn error_messages_name_their_kind_only_for_io() {
    assert_eq!(RustScopeError::Io("denied".to_string()).to_string(), "I/O error: denied");
    assert_eq!(RustScopeError::Usage("usage".to_string()).to_string(), "usage");
    assert_eq!(RustScopeError::Parse("empty".to_string()).to_string(), "empty");
    assert_eq!(RustScopeError::InvalidPath("gone".to_string()).to_string(), "gone");
}
