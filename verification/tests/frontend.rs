use nowayprompt::frontend::{should_fallback, FrontendError};

#[test]
fn only_unavailable_wayland_may_fall_back() {
    assert!(should_fallback(
        true,
        &FrontendError::Unavailable("no display".into())
    ));
    assert!(!should_fallback(
        false,
        &FrontendError::Unavailable("no display".into())
    ));
    assert!(!should_fallback(
        true,
        &FrontendError::Init("missing global".into())
    ));
}

#[test]
fn frontend_error_messages() {
    assert_eq!(
        FrontendError::Unavailable("x".into()).message(),
        "frontend unavailable: x"
    );
    assert_eq!(FrontendError::Init("y".into()).message(), "frontend init error: y");
    assert_eq!(
        FrontendError::InvalidMode("z".into()).message(),
        "frontend invalid mode: z"
    );
    assert!(FrontendError::Io(std::io::Error::other("boom"))
        .message()
        .starts_with("frontend I/O error: "));
}
