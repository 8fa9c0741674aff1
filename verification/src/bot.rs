//! The request pipeline: resolve a chat's direction, serve from the cache,
//! derive and store fresh entries around a fetch, and toggle a chat's
//! direction. The fetch itself is outside work; the pipeline is split at
//! it into a store-only stage and a fetch-completion stage.

use vstd::prelude::*;
use vstd::string::StringExecFns;
use crate::cache_repository::{after_put_formatted, after_put_raw, CacheRepository};
use crate::direction::{
    flip_direction, lemma_reverse_involution, reversed_direction, valid_direction,
};
use crate::fetch_translations::{
    get_raw_translations, get_translations, raw_translations, translations_of,
};
use crate::text::str_eq;
use crate::user_repository::{ConfigView, UserRepository};

verus! {

/// The direction used when a chat has none configured.
pub open spec fn default_direction() -> Seq<char> {
    "pten"@
}

/// The default direction code.
pub fn default_lang_direction() -> (r: &'static str)
    ensures
        r@ == default_direction(),
{
    "pten"
}

/// The direction a chat's requests use: the stored one, or the default.
pub open spec fn direction_for(users: Map<Seq<char>, ConfigView>, chat_id: Seq<char>) -> Seq<
    char,
> {
    if users.contains_key(chat_id) {
        users[chat_id].translation_direction
    } else {
        default_direction()
    }
}

/// Resolves the translation direction for a chat.
pub fn resolve_direction(users: &UserRepository, chat_id: &str) -> (r: String)
    requires
        users.wf(),
    ensures
        r@ == direction_for(users@, chat_id@),
{
    match users.get_user(chat_id) {
        Some(cfg) => cfg.translation_direction,
        None => default_lang_direction().to_owned(),
    }
}

/// What the store-only stage of handling a word decided.
pub enum WordLookup {
    /// Formatted text ready to send.
    Reply(String),
    /// The cached markup holds no usable entry: report that no translation
    /// is available.
    NoTranslation,
    /// Both tiers missed: fetch the page for this direction, then continue
    /// with `handle_fetched`.
    NeedFetch(String),
}

/// The store-only stage of handling a word: resolve the chat's direction,
/// then serve formatted text from the cache; on a raw-tier hit derive the
/// text, store it, and serve it (an empty derivation is "no translation");
/// on a full miss ask for a fetch.
pub fn handle_word_cached(
    users: &UserRepository,
    cache: &mut CacheRepository,
    word: &str,
    chat_id: &str,
    now: i64,
) -> (r: WordLookup)
    requires
        users.wf(),
        old(cache).wf(),
    ensures
        final(cache).wf(),
        ({
            let d = direction_for(users@, chat_id@);
            let k = (word@, d);
            if old(cache)@.contains_key(k) && old(cache)@[k].formatted is Some {
                &&& r matches WordLookup::Reply(t) && Some(t@) == old(cache)@[k].formatted
                &&& final(cache)@ == old(cache)@
            } else if old(cache)@.contains_key(k) {
                let t = translations_of(old(cache)@[k].html);
                &&& final(cache)@ == after_put_formatted(old(cache)@, k, t, now as int)
                &&& if t.len() > 0 {
                    r matches WordLookup::Reply(s) && s@ == t
                } else {
                    r is NoTranslation
                }
            } else {
                &&& r matches WordLookup::NeedFetch(dir) && dir@ == d
                &&& final(cache)@ == old(cache)@
            }
        }),
{
    let dir = resolve_direction(users, chat_id);
    if let Some(t) = cache.get_cached_formatted(word, dir.as_str()) {
        return WordLookup::Reply(t);
    }
    if let Some(html) = cache.get_cached_html(word, dir.as_str()) {
        let t = get_translations(html.as_str());
        cache.update_formatted(word, dir.as_str(), t.as_str(), now);
        if t.as_str().is_empty() {
            return WordLookup::NoTranslation;
        }
        return WordLookup::Reply(t);
    }
    WordLookup::NeedFetch(dir)
}

/// The fetch-completion stage: extract the direction's table from the
/// fetched page and derive its entries. On success both tiers are stored
/// and the text returned; when the page has no matching table, or the
/// table no usable row, nothing is cached and `None` reports that no
/// translation is available.
pub fn handle_fetched(
    cache: &mut CacheRepository,
    word: &str,
    lang_direction: &str,
    body: &str,
    now: i64,
) -> (r: Option<String>)
    requires
        old(cache).wf(),
    ensures
        final(cache).wf(),
        ({
            let raw = raw_translations(body@, lang_direction@);
            let t = translations_of(raw);
            if raw.len() == 0 || t.len() == 0 {
                r is None && final(cache)@ == old(cache)@
            } else {
                &&& r matches Some(s) && s@ == t
                &&& final(cache)@ == after_put_formatted(
                    after_put_raw(old(cache)@, (word@, lang_direction@), raw, now as int),
                    (word@, lang_direction@),
                    t,
                    now as int,
                )
            }
        }),
{
    let raw = get_raw_translations(body, lang_direction);
    if raw.as_str().is_empty() {
        return None;
    }
    let t = get_translations(raw.as_str());
    if t.as_str().is_empty() {
        return None;
    }
    cache.insert_html(word, lang_direction, raw.as_str(), now);
    cache.update_formatted(word, lang_direction, t.as_str(), now);
    Some(t)
}

/// The direction the toggle gives a chat whose current direction is `cur`:
/// the reverse of `cur`, or the reverse of the default when `cur` is not a
/// member of the closed set.
pub open spec fn toggled_direction(cur: Seq<char>) -> Seq<char> {
    if valid_direction(cur) {
        reversed_direction(cur)
    } else {
        reversed_direction(default_direction())
    }
}

/// Law: the toggle is an involution — toggling a valid direction twice
/// gives the original direction back.
pub proof fn lemma_toggle_involution(d: Seq<char>)
    requires
        valid_direction(d),
    ensures
        valid_direction(toggled_direction(d)),
        toggled_direction(toggled_direction(d)) == d,
{
    lemma_reverse_involution(d);
}

/// Law: toggling a chat that stores a valid direction reverses it, and a
/// second toggle gives the stored direction back.
pub proof fn lemma_flip_command_twice(users: Map<Seq<char>, ConfigView>, chat: Seq<char>)
    requires
        users.contains_key(chat),
        valid_direction(users[chat].translation_direction),
    ensures
        toggled_direction(direction_for(users, chat)) == reversed_direction(
            users[chat].translation_direction,
        ),
        toggled_direction(toggled_direction(direction_for(users, chat))) == users[
            chat].translation_direction,
{
    lemma_reverse_involution(users[chat].translation_direction);
}

/// Handles the toggle action for a chat: computes the toggled direction
/// and stores it, updating the existing configuration or creating one
/// (carrying the given user identity) when the chat has none. Returns the
/// new direction code, always a member of the closed set.
pub fn handle_flip_command(
    users: &mut UserRepository,
    chat_id: &str,
    user_id: Option<i64>,
    username: Option<&str>,
    now: i64,
) -> (r: String)
    requires
        old(users).wf(),
    ensures
        final(users).wf(),
        ({
            let had = old(users)@.contains_key(chat_id@);
            let nd = toggled_direction(direction_for(old(users)@, chat_id@));
            &&& r@ == nd
            &&& valid_direction(nd)
            &&& final(users)@ == old(users)@.insert(
                chat_id@,
                ConfigView {
                    translation_direction: nd,
                    user_id: if had {
                        old(users)@[chat_id@].user_id
                    } else {
                        user_id
                    },
                    username: if had {
                        old(users)@[chat_id@].username
                    } else {
                        match username {
                            Some(u) => Some(u@),
                            None => None,
                        }
                    },
                    created_at: if had {
                        old(users)@[chat_id@].created_at
                    } else {
                        now as int
                    },
                    updated_at: now as int,
                },
            )
        }),
{
    let (current, exists) = match users.get_user(chat_id) {
        Some(cfg) => (cfg.translation_direction, true),
        None => (default_lang_direction().to_owned(), false),
    };
    let new_direction = match flip_direction(current.as_str()) {
        Some(d) => d,
        None => flip_direction(default_lang_direction()).unwrap(),
    };
    let stored = if exists {
        users.update_translation_direction(chat_id, new_direction.as_str(), now)
    } else {
        users.create_or_update_user(chat_id, new_direction.as_str(), user_id, username, now)
    };
    match stored {
        Ok(_) => {},
        Err(_) => {
            proof {
                assert(false);
            }
        },
    }
    new_direction
}

/// The display name of a direction code; a code outside the closed set is
/// shown as it is.
pub open spec fn direction_label(code: Seq<char>) -> Seq<char> {
    if code == "pten"@ {
        "Portuguese → English"@
    } else if code == "enpt"@ {
        "English → Portuguese"@
    } else if code == "iten"@ {
        "Italian → English"@
    } else if code == "enit"@ {
        "English → Italian"@
    } else {
        code
    }
}

/// The display name of a direction code.
pub fn direction_name(code: &str) -> (r: String)
    ensures
        r@ == direction_label(code@),
{
    if str_eq(code, "pten") {
        "Portuguese → English".to_owned()
    } else if str_eq(code, "enpt") {
        "English → Portuguese".to_owned()
    } else if str_eq(code, "iten") {
        "Italian → English".to_owned()
    } else if str_eq(code, "enit") {
        "English → Italian".to_owned()
    } else {
        code.to_owned()
    }
}

/// The reply sent after a toggle: it names the new direction.
pub fn flip_reply(code: &str) -> (r: String)
    ensures
        r@ == "✅ Translation direction changed to: "@ + direction_label(code@),
{
    let mut out = String::new();
    out.append("✅ Translation direction changed to: ");
    let name = direction_name(code);
    out.append(name.as_str());
    out
}

/// The reply sent when no translation is available for a word.
pub fn no_translations_reply() -> (r: &'static str)
    ensures
        r@ == "No translations found."@,
{
    "No translations found."
}

} // verus!
