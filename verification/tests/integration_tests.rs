use pt_dict_bot::constants::{DEFAULT_LANG_DIRECTION, LANG_IT_EN};
use pt_dict_bot::user_repository::UserRepository;

#[test]
fn test_user_config_integration() {
    let mut repo = UserRepository::new();

    // Test default fallback
    let default_direction = match repo.get_user("unknown_chat") {
        Some(user) => user.translation_direction,
        None => DEFAULT_LANG_DIRECTION.to_string(),
    };
    assert_eq!(default_direction, DEFAULT_LANG_DIRECTION);

    // Test stored user config
    repo.create_or_update_user("test_chat", LANG_IT_EN, None, None, 1)
        .expect("Failed to create user");

    let stored_direction = repo
        .get_user("test_chat")
        .expect("User should exist")
        .translation_direction;

    assert_eq!(stored_direction, LANG_IT_EN);
}

#[test]
fn test_chat_context_behavior() {
    let mut repo = UserRepository::new();

    // Simulate group chat scenario: group ID "group_123" has "iten" setting
    repo.create_or_update_user("group_123", LANG_IT_EN, None, None, 1)
        .expect("Failed to create group config");

    // Any user mentioning the bot in this group should get "iten" direction
    let group_direction = repo
        .get_user("group_123")
        .expect("Group config should exist")
        .translation_direction;

    assert_eq!(group_direction, LANG_IT_EN);

    // Individual users in the group don't have separate settings
    let individual_user_result = repo.get_user("user_456");
    assert!(individual_user_result.is_none()); // No individual user config
}
