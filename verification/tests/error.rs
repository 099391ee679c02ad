use cognitrade::error::AppError;

#[test]
fn user_facing_messages_are_actionable() {
    assert_eq!(
        AppError::CostCapReached.message(),
        "Daily cost cap reached — raise it in Settings or wait until tomorrow"
    );
    assert_eq!(AppError::NoApiKey.message(), "No Anthropic API key set — add it in Settings");
}

#[test]
fn invalid_passes_message_through_unprefixed() {
    assert_eq!(AppError::Invalid("bad thing".into()).message(), "bad thing");
}

#[test]
fn prefixed_messages() {
    assert_eq!(AppError::Anthropic("HTTP 500".into()).message(), "Anthropic API error: HTTP 500");
    assert_eq!(AppError::NotFound("doc".into()).message(), "Not found: doc");
    assert_eq!(AppError::Internal("x".into()).message(), "Something went wrong: x");
}
