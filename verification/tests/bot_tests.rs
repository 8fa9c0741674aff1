use pt_dict_bot::bot::{
    default_lang_direction, direction_name, flip_reply, handle_fetched, handle_word_cached,
    no_translations_reply, resolve_direction, WordLookup,
};
use pt_dict_bot::cache_repository::CacheRepository;
use pt_dict_bot::user_repository::UserRepository;

#[test]
fn test_cache_round_trip() {
    let mut cache = CacheRepository::new();

    cache.insert_html("casa", "pten", "<table>x</table>", 1);
    assert_eq!(cache.get_cached_html("casa", "pten").unwrap(), "<table>x</table>");
    assert!(cache.get_cached_formatted("casa", "pten").is_none());

    cache.update_formatted("casa", "pten", "<b>casa</b> nf ⮕ house\n", 2);
    assert_eq!(
        cache.get_cached_formatted("casa", "pten").unwrap(),
        "<b>casa</b> nf ⮕ house\n"
    );
    assert_eq!(cache.get_cached_html("casa", "pten").unwrap(), "<table>x</table>");

    // Replacing the raw markup discards the derived text.
    cache.insert_html("casa", "pten", "<table>y</table>", 3);
    assert!(cache.get_cached_formatted("casa", "pten").is_none());
    assert_eq!(cache.get_cached_html("casa", "pten").unwrap(), "<table>y</table>");
}

#[test]
fn test_cache_keys_are_per_direction() {
    let mut cache = CacheRepository::new();
    cache.insert_html("casa", "pten", "pt page", 1);
    cache.insert_html("casa", "enpt", "en page", 2);

    assert_eq!(cache.get_cached_html("casa", "pten").unwrap(), "pt page");
    assert_eq!(cache.get_cached_html("casa", "enpt").unwrap(), "en page");
    assert!(cache.get_cached_html("outro", "pten").is_none());
}

#[test]
fn test_update_formatted_without_raw_creates_placeholder() {
    let mut cache = CacheRepository::new();
    cache.update_formatted("w", "pten", "text", 1);
    assert_eq!(cache.get_cached_formatted("w", "pten").unwrap(), "text");
    assert_eq!(cache.get_cached_html("w", "pten").unwrap(), "");
}

#[test]
fn test_resolve_direction_defaults() {
    let mut users = UserRepository::new();
    assert_eq!(resolve_direction(&users, "nobody"), default_lang_direction());

    users
        .create_or_update_user("somebody", "enit", None, None, 1)
        .expect("Failed to create user");
    assert_eq!(resolve_direction(&users, "somebody"), "enit");
}

#[test]
fn test_handle_word_end_to_end() {
    let users = UserRepository::new();
    let mut cache = CacheRepository::new();

    // No stored config: the direction defaults, and both tiers miss.
    let outcome = handle_word_cached(&users, &mut cache, "casa", "chat1", 1);
    let direction = match outcome {
        WordLookup::NeedFetch(d) => d,
        _ => panic!("expected a fetch to be requested"),
    };
    assert_eq!(direction, "pten");

    // The fetch brings a page with one matching table of one entry.
    let page = r#"<html><body><table class="WRD"><tr><td>Traduções principais</td></tr><tr><td><strong>casa</strong></td><td>nf</td><td>house</td></tr></table></body></html>"#;
    let reply = handle_fetched(&mut cache, "casa", &direction, page, 2)
        .expect("a translation should be found");
    assert!(reply.contains("casa"));
    assert!(reply.contains("house"));

    // Both tiers are now filled for ("casa", "pten").
    assert!(cache.get_cached_html("casa", "pten").is_some());
    assert_eq!(cache.get_cached_formatted("casa", "pten").unwrap(), reply);

    // A second request is served from the formatted tier.
    match handle_word_cached(&users, &mut cache, "casa", "chat1", 3) {
        WordLookup::Reply(t) => assert_eq!(t, reply),
        _ => panic!("expected a cached reply"),
    }
}

#[test]
fn test_handle_word_derives_from_raw_tier() {
    let users = UserRepository::new();
    let mut cache = CacheRepository::new();

    // Only the raw tier is filled.
    let table =
        r#"<table class="WRD"><tr><td><strong>casa</strong></td><td>nf</td><td>house</td></tr></table>"#;
    cache.insert_html("casa", "pten", table, 1);

    match handle_word_cached(&users, &mut cache, "casa", "chat1", 2) {
        WordLookup::Reply(t) => assert_eq!(t, "<b>casa</b> nf ⮕ house\n"),
        _ => panic!("expected the raw tier to serve"),
    }

    // The derivation was stored.
    assert_eq!(
        cache.get_cached_formatted("casa", "pten").unwrap(),
        "<b>casa</b> nf ⮕ house\n"
    );
}

#[test]
fn test_handle_fetched_without_match_caches_nothing() {
    let mut cache = CacheRepository::new();

    let page = r#"<html><body><p>nothing here</p></body></html>"#;
    let reply = handle_fetched(&mut cache, "casa", "pten", page, 1);
    assert!(reply.is_none());
    assert!(cache.get_cached_html("casa", "pten").is_none());
}

#[test]
fn test_handle_fetched_with_no_usable_rows_caches_nothing() {
    let mut cache = CacheRepository::new();

    // The table matches the header but has no three-cell row.
    let page = r#"<html><body><table class="WRD"><tr><td>Traduções principais</td></tr></table></body></html>"#;
    let reply = handle_fetched(&mut cache, "casa", "pten", page, 1);
    assert!(reply.is_none());
    assert!(cache.get_cached_html("casa", "pten").is_none());
}

#[test]
fn test_direction_name() {
    assert_eq!(direction_name("pten"), "Portuguese → English");
    assert_eq!(direction_name("enpt"), "English → Portuguese");
    assert_eq!(direction_name("iten"), "Italian → English");
    assert_eq!(direction_name("enit"), "English → Italian");
    assert_eq!(direction_name("zzzz"), "zzzz");
}

#[test]
fn test_flip_reply_text() {
    assert_eq!(
        flip_reply("enpt"),
        "✅ Translation direction changed to: English → Portuguese"
    );
    assert_eq!(
        flip_reply("zzzz"),
        "✅ Translation direction changed to: zzzz"
    );
}

#[test]
fn test_no_translations_reply_text() {
    assert_eq!(no_translations_reply(), "No translations found.");
}
