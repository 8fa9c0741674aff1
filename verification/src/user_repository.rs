//! The per-chat configuration store: a mapping from chat identity to the
//! chat's translation direction, with strict create and update operations —
//! creating an existing chat or updating a missing one fails, so the caller
//! branches on existence first.

use vstd::prelude::*;
use crate::text::str_eq;

verus! {

/// Why a store operation was refused.
#[derive(Clone, Copy, Debug, PartialEq, Eq, Structural)]
pub enum StoreError {
    /// A record for the key already exists, and the operation inserts.
    DuplicateKey,
    /// No record for the key exists, and the operation updates.
    NotFound,
}

/// One chat's configuration.
#[derive(Debug)]
pub struct ChatConfig {
    pub chat_id: String,
    pub translation_direction: String,
    pub user_id: Option<i64>,
    pub username: Option<String>,
    pub created_at: i64,
    pub updated_at: i64,
}

/// The mathematical value of one chat's configuration, its key aside.
pub ghost struct ConfigView {
    pub translation_direction: Seq<char>,
    pub user_id: Option<i64>,
    pub username: Option<Seq<char>>,
    pub created_at: int,
    pub updated_at: int,
}

impl ChatConfig {
    /// The configuration's key.
    pub open spec fn key(self) -> Seq<char> {
        self.chat_id@
    }

    /// The configuration's value.
    pub open spec fn val(self) -> ConfigView {
        ConfigView {
            translation_direction: self.translation_direction@,
            user_id: self.user_id,
            username: match self.username {
                Some(u) => Some(u@),
                None => None,
            },
            created_at: self.created_at as int,
            updated_at: self.updated_at as int,
        }
    }
}

/// The map a sequence of keyed rows describes, later rows winning.
pub open spec fn config_map(rows: Seq<ChatConfig>) -> Map<Seq<char>, ConfigView>
    decreases rows.len(),
{
    if rows.len() == 0 {
        Map::empty()
    } else {
        config_map(rows.drop_last()).insert(rows.last().key(), rows.last().val())
    }
}

/// No two rows share a key.
pub open spec fn distinct_config_keys(rows: Seq<ChatConfig>) -> bool {
    forall|i: int, j: int|
        0 <= i < j < rows.len() ==> (#[trigger] rows[i].key()) != (#[trigger] rows[j].key())
}

proof fn lemma_config_map_contains(rows: Seq<ChatConfig>, k: Seq<char>)
    ensures
        config_map(rows).contains_key(k) <==> exists|i: int|
            0 <= i < rows.len() && (#[trigger] rows[i].key()) == k,
    decreases rows.len(),
{
    if rows.len() > 0 {
        lemma_config_map_contains(rows.drop_last(), k);
        if config_map(rows).contains_key(k) {
            if rows.last().key() != k {
                let i = choose|i: int|
                    0 <= i < rows.drop_last().len() && (#[trigger] rows.drop_last()[i].key()) == k;
                assert(rows[i].key() == k);
            } else {
                assert(rows[rows.len() - 1].key() == k);
            }
        }
        if exists|i: int| 0 <= i < rows.len() && (#[trigger] rows[i].key()) == k {
            let i = choose|i: int| 0 <= i < rows.len() && (#[trigger] rows[i].key()) == k;
            if i < rows.len() - 1 {
                assert(rows.drop_last()[i].key() == k);
            }
        }
    }
}

proof fn lemma_config_map_at(rows: Seq<ChatConfig>, i: int)
    requires
        distinct_config_keys(rows),
        0 <= i < rows.len(),
    ensures
        config_map(rows).contains_key(rows[i].key()),
        config_map(rows)[rows[i].key()] == rows[i].val(),
    decreases rows.len(),
{
    if i == rows.len() - 1 {
        assert(rows.last() == rows[i]);
    } else {
        assert(distinct_config_keys(rows.drop_last())) by {
            assert(forall|a: int|
                0 <= a < rows.drop_last().len() ==> rows.drop_last()[a] == rows[a]);
        }
        assert(rows.drop_last()[i] == rows[i]);
        lemma_config_map_at(rows.drop_last(), i);
        assert(rows[i].key() != rows.last().key());
    }
}

proof fn lemma_config_map_push(rows: Seq<ChatConfig>, row: ChatConfig)
    ensures
        config_map(rows.push(row)) == config_map(rows).insert(row.key(), row.val()),
{
    assert(rows.push(row).drop_last() =~= rows);
    assert(rows.push(row).last() == row);
}

proof fn lemma_config_map_update(rows: Seq<ChatConfig>, i: int, row: ChatConfig)
    requires
        distinct_config_keys(rows),
        0 <= i < rows.len(),
        row.key() == rows[i].key(),
    ensures
        config_map(rows.update(i, row)) == config_map(rows).insert(row.key(), row.val()),
        distinct_config_keys(rows.update(i, row)),
    decreases rows.len(),
{
    let upd = rows.update(i, row);
    assert(distinct_config_keys(upd)) by {
        assert(forall|a: int|
            0 <= a < upd.len() && a != i ==> (#[trigger] upd[a].key()) == rows[a].key());
        assert(upd[i].key() == rows[i].key());
    }
    if i == rows.len() - 1 {
        assert(upd.drop_last() =~= rows.drop_last());
        assert(upd.last() == row);
        assert(config_map(rows.drop_last()).insert(rows.last().key(), rows.last().val()).insert(
            row.key(),
            row.val(),
        ) =~= config_map(rows.drop_last()).insert(row.key(), row.val()));
    } else {
        assert(distinct_config_keys(rows.drop_last())) by {
            assert(forall|a: int|
                0 <= a < rows.drop_last().len() ==> rows.drop_last()[a] == rows[a]);
        }
        assert(rows.drop_last()[i] == rows[i]);
        lemma_config_map_update(rows.drop_last(), i, row);
        assert(upd.drop_last() =~= rows.drop_last().update(i, row));
        assert(upd.last() == rows.last());
        assert(rows[i].key() != rows.last().key());
        assert(config_map(rows.drop_last()).insert(row.key(), row.val()).insert(
            rows.last().key(),
            rows.last().val(),
        ) =~= config_map(rows.drop_last()).insert(rows.last().key(), rows.last().val()).insert(
            row.key(),
            row.val(),
        ));
    }
}

/// Law: a configuration round trip. Creating a chat's configuration stores
/// the given direction; updating the direction afterwards changes the
/// direction and the update time alone — user identity, username and
/// creation time stay as created.
pub proof fn lemma_config_round_trip(
    m: Map<Seq<char>, ConfigView>,
    chat: Seq<char>,
    d1: Seq<char>,
    d2: Seq<char>,
    user_id: Option<i64>,
    username: Option<Seq<char>>,
    t1: int,
    t2: int,
)
    ensures
        ({
            let m1 = m.insert(
                chat,
                ConfigView {
                    translation_direction: d1,
                    user_id: user_id,
                    username: username,
                    created_at: t1,
                    updated_at: t1,
                },
            );
            let m2 = m1.insert(
                chat,
                ConfigView {
                    translation_direction: d2,
                    user_id: m1[chat].user_id,
                    username: m1[chat].username,
                    created_at: m1[chat].created_at,
                    updated_at: t2,
                },
            );
            &&& m1.contains_key(chat) && m1[chat].translation_direction == d1
            &&& m2.contains_key(chat) && m2[chat].translation_direction == d2
            &&& m2[chat].user_id == user_id
            &&& m2[chat].username == username
            &&& m2[chat].created_at == t1
        }),
{
}

/// The per-chat configuration store, a mapping from chat identity to the
/// chat's configuration.
pub struct UserRepository {
    rows: Vec<ChatConfig>,
}

impl View for UserRepository {
    type V = Map<Seq<char>, ConfigView>;

    closed spec fn view(&self) -> Map<Seq<char>, ConfigView> {
        config_map(self.rows@)
    }
}

/// A fresh copy of a configuration row.
fn copy_config(c: &ChatConfig) -> (r: ChatConfig)
    ensures
        r.key() == c.key(),
        r.val() == c.val(),
        r.chat_id@ == c.chat_id@,
        r.translation_direction@ == c.translation_direction@,
        r.user_id == c.user_id,
        r.username is Some <==> c.username is Some,
        r.created_at == c.created_at,
        r.updated_at == c.updated_at,
{
    ChatConfig {
        chat_id: c.chat_id.clone(),
        translation_direction: c.translation_direction.clone(),
        user_id: c.user_id,
        username: match &c.username {
            Some(u) => Some(u.clone()),
            None => None,
        },
        created_at: c.created_at,
        updated_at: c.updated_at,
    }
}

impl UserRepository {
    /// The store's internal invariant: one row per chat identity.
    pub closed spec fn wf(self) -> bool {
        distinct_config_keys(self.rows@)
    }

    /// Creates an empty store.
    pub fn new() -> (r: UserRepository)
        ensures
            r.wf(),
            r@ == Map::<Seq<char>, ConfigView>::empty(),
    {
        UserRepository { rows: Vec::new() }
    }

    /// The index of the row keyed `chat_id`, if one exists.
    fn find_index(&self, chat_id: &str) -> (r: Option<usize>)
        ensures
            match r {
                Some(i) => i < self.rows@.len() && self.rows@[i as int].key() == chat_id@,
                None => forall|i: int|
                    0 <= i < self.rows@.len() ==> (#[trigger] self.rows@[i].key()) != chat_id@,
            },
    {
        let mut i: usize = 0;
        while i < self.rows.len()
            invariant
                i <= self.rows@.len(),
                forall|k: int| 0 <= k < i ==> (#[trigger] self.rows@[k].key()) != chat_id@,
            decreases self.rows@.len() - i,
        {
            if str_eq(self.rows[i].chat_id.as_str(), chat_id) {
                return Some(i);
            }
            i += 1;
        }
        None
    }

    /// The configuration stored for `chat_id`, when one exists.
    pub fn get_user(&self, chat_id: &str) -> (r: Option<ChatConfig>)
        requires
            self.wf(),
        ensures
            match r {
                Some(c) => self@.contains_key(chat_id@) && c.key() == chat_id@ && c.val()
                    == self@[chat_id@],
                None => !self@.contains_key(chat_id@),
            },
    {
        match self.find_index(chat_id) {
            Some(i) => {
                proof {
                    lemma_config_map_at(self.rows@, i as int);
                }
                Some(copy_config(&self.rows[i]))
            },
            None => {
                proof {
                    lemma_config_map_contains(self.rows@, chat_id@);
                }
                None
            },
        }
    }

    /// Inserts a configuration for a chat that has none: refused with
    /// `DuplicateKey`, the store unchanged, when one exists already.
    pub fn create_or_update_user(
        &mut self,
        chat_id: &str,
        translation_direction: &str,
        user_id: Option<i64>,
        username: Option<&str>,
        now: i64,
    ) -> (r: Result<ChatConfig, StoreError>)
        requires
            old(self).wf(),
        ensures
            final(self).wf(),
            old(self)@.contains_key(chat_id@) ==> r == Result::<ChatConfig, StoreError>::Err(
                StoreError::DuplicateKey,
            ) && final(self)@ == old(self)@,
            !old(self)@.contains_key(chat_id@) ==> {
                &&& final(self)@ == old(self)@.insert(
                    chat_id@,
                    ConfigView {
                        translation_direction: translation_direction@,
                        user_id: user_id,
                        username: match username {
                            Some(u) => Some(u@),
                            None => None,
                        },
                        created_at: now as int,
                        updated_at: now as int,
                    },
                )
                &&& r matches Ok(c) && c.key() == chat_id@ && c.val() == final(self)@[chat_id@]
            },
    {
        match self.find_index(chat_id) {
            Some(i) => {
                proof {
                    lemma_config_map_at(self.rows@, i as int);
                }
                Err(StoreError::DuplicateKey)
            },
            None => {
                proof {
                    lemma_config_map_contains(self.rows@, chat_id@);
                }
                let row = ChatConfig {
                    chat_id: chat_id.to_owned(),
                    translation_direction: translation_direction.to_owned(),
                    user_id,
                    username: match username {
                        Some(u) => Some(u.to_owned()),
                        None => None,
                    },
                    created_at: now,
                    updated_at: now,
                };
                let out = copy_config(&row);
                proof {
                    lemma_config_map_push(self.rows@, row);
                }
                self.rows.push(row);
                proof {
                    lemma_config_map_at(self.rows@, self.rows@.len() - 1);
                }
                Ok(out)
            },
        }
    }

    /// Updates the direction of a chat that has a configuration, bumping its
    /// update time and touching nothing else: refused with `NotFound`, the
    /// store unchanged, when the chat has none.
    pub fn update_translation_direction(&mut self, chat_id: &str, direction: &str, now: i64) -> (r:
        Result<ChatConfig, StoreError>)
        requires
            old(self).wf(),
        ensures
            final(self).wf(),
            !old(self)@.contains_key(chat_id@) ==> r == Result::<ChatConfig, StoreError>::Err(
                StoreError::NotFound,
            ) && final(self)@ == old(self)@,
            old(self)@.contains_key(chat_id@) ==> {
                &&& final(self)@ == old(self)@.insert(
                    chat_id@,
                    ConfigView {
                        translation_direction: direction@,
                        user_id: old(self)@[chat_id@].user_id,
                        username: old(self)@[chat_id@].username,
                        created_at: old(self)@[chat_id@].created_at,
                        updated_at: now as int,
                    },
                )
                &&& r matches Ok(c) && c.key() == chat_id@ && c.val() == final(self)@[chat_id@]
            },
    {
        match self.find_index(chat_id) {
            Some(i) => {
                proof {
                    lemma_config_map_at(self.rows@, i as int);
                }
                let old_row = copy_config(&self.rows[i]);
                let row = ChatConfig {
                    chat_id: chat_id.to_owned(),
                    translation_direction: direction.to_owned(),
                    user_id: old_row.user_id,
                    username: old_row.username,
                    created_at: old_row.created_at,
                    updated_at: now,
                };
                let out = copy_config(&row);
                proof {
                    lemma_config_map_update(self.rows@, i as int, row);
                }
                self.rows[i] = row;
                Ok(out)
            },
            None => {
                proof {
                    lemma_config_map_contains(self.rows@, chat_id@);
                }
                Err(StoreError::NotFound)
            },
        }
    }
}

} // verus!
