//! Provider defaults and error descriptions.

use timeloop::{ApiProvider, TimeLoopError};

#[test]
fn test_default_models() {
    assert_eq!(ApiProvider::OpenAI.default_model(), "gpt-3.5-turbo");
    assert_eq!(ApiProvider::OpenRouter.default_model(), "openrouter/auto");
}

#[test]
fn test_error_messages_carry_detail() {
    let e = TimeLoopError::SaltMismatch("salt differs".to_string());
    let m = e.message();
    assert_eq!(m, "salt mismatch on import: salt differs");
    let e = TimeLoopError::Decryption("bad tag".to_string());
    assert_eq!(e.message(), "decryption error: bad tag");
}
