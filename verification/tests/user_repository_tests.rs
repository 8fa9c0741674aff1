use pt_dict_bot::constants::LANG_PT_EN;
use pt_dict_bot::user_repository::{StoreError, UserRepository};

#[test]
fn test_create_and_get_user() {
    let mut repo = UserRepository::new();

    // Create user
    let user = repo
        .create_or_update_user("123", LANG_PT_EN, Some(456789), Some("johndoe"), 1)
        .expect("Failed to create user");

    assert_eq!(user.chat_id, "123");
    assert_eq!(user.translation_direction, LANG_PT_EN);
    assert_eq!(user.user_id, Some(456789));
    assert_eq!(user.username, Some("johndoe".to_string()));

    // Get user
    let retrieved = repo.get_user("123").expect("User should exist");

    assert_eq!(retrieved.chat_id, "123");
    assert_eq!(retrieved.translation_direction, LANG_PT_EN);
}

#[test]
fn test_update_translation_direction() {
    let mut repo = UserRepository::new();

    // Create user
    repo.create_or_update_user("456", "pten", None, None, 1)
        .expect("Failed to create user");

    // Update direction
    let updated = repo
        .update_translation_direction("456", "iten", 2)
        .expect("Failed to update direction");

    assert_eq!(updated.translation_direction, "iten");
}

#[test]
fn test_get_nonexistent_user() {
    let repo = UserRepository::new();

    let result = repo.get_user("nonexistent");

    assert!(result.is_none());
}

#[test]
fn test_create_existing_chat_is_refused() {
    let mut repo = UserRepository::new();
    repo.create_or_update_user("dup", "pten", None, None, 1)
        .expect("Failed to create user");

    let second = repo.create_or_update_user("dup", "enpt", None, None, 2);
    assert_eq!(second.unwrap_err(), StoreError::DuplicateKey);

    // The stored configuration is untouched.
    assert_eq!(repo.get_user("dup").unwrap().translation_direction, "pten");
}

#[test]
fn test_update_missing_chat_is_refused() {
    let mut repo = UserRepository::new();

    let result = repo.update_translation_direction("ghost", "enpt", 1);
    assert_eq!(result.unwrap_err(), StoreError::NotFound);
    assert!(repo.get_user("ghost").is_none());
}
