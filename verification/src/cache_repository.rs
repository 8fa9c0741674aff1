//! The translation cache: a two-tier store keyed by (word, direction),
//! holding the raw markup fetched for the pair and, once derived, the
//! formatted text. Re-storing raw markup discards the derived text, which
//! may no longer correspond to it.

use vstd::prelude::*;
use crate::text::str_eq;

verus! {

/// One cached article: raw markup, and formatted text once derived.
pub struct CachedArticle {
    pub word: String,
    pub lang_direction: String,
    pub html: String,
    pub formatted: Option<String>,
    pub created_at: i64,
    pub updated_at: i64,
}

/// The mathematical value of one cached article, its key aside.
pub ghost struct ArticleView {
    pub html: Seq<char>,
    pub formatted: Option<Seq<char>>,
    pub created_at: int,
    pub updated_at: int,
}

impl CachedArticle {
    /// The article's composite key.
    pub open spec fn key(self) -> (Seq<char>, Seq<char>) {
        (self.word@, self.lang_direction@)
    }

    /// The article's value.
    pub open spec fn val(self) -> ArticleView {
        ArticleView {
            html: self.html@,
            formatted: match self.formatted {
                Some(t) => Some(t@),
                None => None,
            },
            created_at: self.created_at as int,
            updated_at: self.updated_at as int,
        }
    }
}

/// The map a sequence of keyed rows describes, later rows winning.
pub open spec fn article_map(rows: Seq<CachedArticle>) -> Map<(Seq<char>, Seq<char>), ArticleView>
    decreases rows.len(),
{
    if rows.len() == 0 {
        Map::empty()
    } else {
        article_map(rows.drop_last()).insert(rows.last().key(), rows.last().val())
    }
}

/// No two rows share a key.
pub open spec fn distinct_article_keys(rows: Seq<CachedArticle>) -> bool {
    forall|i: int, j: int|
        0 <= i < j < rows.len() ==> (#[trigger] rows[i].key()) != (#[trigger] rows[j].key())
}

proof fn lemma_article_map_contains(rows: Seq<CachedArticle>, k: (Seq<char>, Seq<char>))
    ensures
        article_map(rows).contains_key(k) <==> exists|i: int|
            0 <= i < rows.len() && (#[trigger] rows[i].key()) == k,
    decreases rows.len(),
{
    if rows.len() > 0 {
        lemma_article_map_contains(rows.drop_last(), k);
        if article_map(rows).contains_key(k) {
            if rows.last().key() != k {
                let i = choose|i: int|
                    0 <= i < rows.drop_last().len() && (#[trigger] rows.drop_last()[i].key()) == k;
                assert(rows[i].key() == k);
            } else {
                assert(rows[rows.len() - 1].key() == k);
            }
        }
        if exists|i: int| 0 <= i < rows.len() && (#[trigger] rows[i].key()) == k {
            let i = choose|i: int| 0 <= i < rows.len() && (#[trigger] rows[i].key()) == k;
            if i < rows.len() - 1 {
                assert(rows.drop_last()[i].key() == k);
            }
        }
    }
}

proof fn lemma_article_map_at(rows: Seq<CachedArticle>, i: int)
    requires
        distinct_article_keys(rows),
        0 <= i < rows.len(),
    ensures
        article_map(rows).contains_key(rows[i].key()),
        article_map(rows)[rows[i].key()] == rows[i].val(),
    decreases rows.len(),
{
    if i == rows.len() - 1 {
        assert(rows.last() == rows[i]);
    } else {
        assert(distinct_article_keys(rows.drop_last())) by {
            assert(forall|a: int, b: int|
                0 <= a < b < rows.drop_last().len() ==> (#[trigger] rows.drop_last()[a].key())
                    != (#[trigger] rows.drop_last()[b].key())) by {
                assert(forall|a: int|
                    0 <= a < rows.drop_last().len() ==> rows.drop_last()[a] == rows[a]);
            }
        }
        assert(rows.drop_last()[i] == rows[i]);
        lemma_article_map_at(rows.drop_last(), i);
        assert(rows[i].key() != rows.last().key());
    }
}

proof fn lemma_article_map_push(rows: Seq<CachedArticle>, row: CachedArticle)
    ensures
        article_map(rows.push(row)) == article_map(rows).insert(row.key(), row.val()),
{
    assert(rows.push(row).drop_last() =~= rows);
    assert(rows.push(row).last() == row);
}

proof fn lemma_article_map_update(rows: Seq<CachedArticle>, i: int, row: CachedArticle)
    requires
        distinct_article_keys(rows),
        0 <= i < rows.len(),
        row.key() == rows[i].key(),
    ensures
        article_map(rows.update(i, row)) == article_map(rows).insert(row.key(), row.val()),
        distinct_article_keys(rows.update(i, row)),
    decreases rows.len(),
{
    let upd = rows.update(i, row);
    assert(distinct_article_keys(upd)) by {
        assert(forall|a: int|
            0 <= a < upd.len() && a != i ==> (#[trigger] upd[a].key()) == rows[a].key());
        assert(upd[i].key() == rows[i].key());
    }
    if i == rows.len() - 1 {
        assert(upd.drop_last() =~= rows.drop_last());
        assert(upd.last() == row);
        assert(article_map(rows.drop_last()).insert(rows.last().key(), rows.last().val()).insert(
            row.key(),
            row.val(),
        ) =~= article_map(rows.drop_last()).insert(row.key(), row.val()));
    } else {
        assert(distinct_article_keys(rows.drop_last())) by {
            assert(forall|a: int|
                0 <= a < rows.drop_last().len() ==> rows.drop_last()[a] == rows[a]);
        }
        assert(rows.drop_last()[i] == rows[i]);
        lemma_article_map_update(rows.drop_last(), i, row);
        assert(upd.drop_last() =~= rows.drop_last().update(i, row));
        assert(upd.last() == rows.last());
        assert(rows[i].key() != rows.last().key());
        assert(article_map(rows.drop_last()).insert(row.key(), row.val()).insert(
            rows.last().key(),
            rows.last().val(),
        ) =~= article_map(rows.drop_last()).insert(rows.last().key(), rows.last().val()).insert(
            row.key(),
            row.val(),
        ));
    }
}

/// The raw markup a cache serves for key `k`: present exactly when an
/// article exists.
pub open spec fn raw_at(
    m: Map<(Seq<char>, Seq<char>), ArticleView>,
    k: (Seq<char>, Seq<char>),
) -> Option<Seq<char>> {
    if m.contains_key(k) {
        Some(m[k].html)
    } else {
        None
    }
}

/// The formatted text a cache serves for key `k`: present exactly when an
/// article exists and its text has been derived.
pub open spec fn formatted_at(
    m: Map<(Seq<char>, Seq<char>), ArticleView>,
    k: (Seq<char>, Seq<char>),
) -> Option<Seq<char>> {
    if m.contains_key(k) {
        m[k].formatted
    } else {
        None
    }
}

/// The cache after raw markup is stored for `k` at time `now`: the markup
/// replaced, any derived text discarded, the creation time kept when the
/// key already had an article.
pub open spec fn after_put_raw(
    m: Map<(Seq<char>, Seq<char>), ArticleView>,
    k: (Seq<char>, Seq<char>),
    html: Seq<char>,
    now: int,
) -> Map<(Seq<char>, Seq<char>), ArticleView> {
    m.insert(
        k,
        ArticleView {
            html: html,
            formatted: None,
            created_at: if m.contains_key(k) {
                m[k].created_at
            } else {
                now
            },
            updated_at: now,
        },
    )
}

/// The cache after formatted text is stored for `k` at time `now`: the text
/// set, the raw markup and creation time kept — with an empty placeholder
/// as markup when the key had no article.
pub open spec fn after_put_formatted(
    m: Map<(Seq<char>, Seq<char>), ArticleView>,
    k: (Seq<char>, Seq<char>),
    text: Seq<char>,
    now: int,
) -> Map<(Seq<char>, Seq<char>), ArticleView> {
    m.insert(
        k,
        ArticleView {
            html: if m.contains_key(k) {
                m[k].html
            } else {
                Seq::empty()
            },
            formatted: Some(text),
            created_at: if m.contains_key(k) {
                m[k].created_at
            } else {
                now
            },
            updated_at: now,
        },
    )
}

/// Law: a cache round trip. After raw markup is stored for a key, the key
/// serves that markup; after formatted text is then stored, the key serves
/// that text, the markup untouched; storing raw markup once more discards
/// the derived text.
pub proof fn lemma_cache_round_trip(
    m: Map<(Seq<char>, Seq<char>), ArticleView>,
    k: (Seq<char>, Seq<char>),
    html: Seq<char>,
    text: Seq<char>,
    html2: Seq<char>,
    t1: int,
    t2: int,
    t3: int,
)
    ensures
        raw_at(after_put_raw(m, k, html, t1), k) == Some(html),
        formatted_at(after_put_raw(m, k, html, t1), k) is None,
        formatted_at(after_put_formatted(after_put_raw(m, k, html, t1), k, text, t2), k) == Some(
            text,
        ),
        raw_at(after_put_formatted(after_put_raw(m, k, html, t1), k, text, t2), k) == Some(html),
        formatted_at(
            after_put_raw(after_put_formatted(after_put_raw(m, k, html, t1), k, text, t2), k, html2, t3),
            k,
        ) is None,
{
}

/// The translation cache, a mapping from (word, direction) to the cached
/// article for the pair.
pub struct CacheRepository {
    rows: Vec<CachedArticle>,
}

impl View for CacheRepository {
    type V = Map<(Seq<char>, Seq<char>), ArticleView>;

    closed spec fn view(&self) -> Map<(Seq<char>, Seq<char>), ArticleView> {
        article_map(self.rows@)
    }
}

impl CacheRepository {
    /// The cache's internal invariant: one row per key.
    pub closed spec fn wf(self) -> bool {
        distinct_article_keys(self.rows@)
    }

    /// Creates an empty cache.
    pub fn new() -> (r: CacheRepository)
        ensures
            r.wf(),
            r@ == Map::<(Seq<char>, Seq<char>), ArticleView>::empty(),
    {
        CacheRepository { rows: Vec::new() }
    }

    /// The index of the row keyed (word, dir), if one exists.
    fn find_index(&self, word: &str, dir: &str) -> (r: Option<usize>)
        ensures
            match r {
                Some(i) => i < self.rows@.len() && self.rows@[i as int].key() == (word@, dir@),
                None => forall|i: int|
                    0 <= i < self.rows@.len() ==> (#[trigger] self.rows@[i].key()) != (
                    word@,
                    dir@,
                    ),
            },
    {
        let mut i: usize = 0;
        while i < self.rows.len()
            invariant
                i <= self.rows@.len(),
                forall|k: int| 0 <= k < i ==> (#[trigger] self.rows@[k].key()) != (word@, dir@),
            decreases self.rows@.len() - i,
        {
            if str_eq(self.rows[i].word.as_str(), word) && str_eq(
                self.rows[i].lang_direction.as_str(),
                dir,
            ) {
                return Some(i);
            }
            i += 1;
        }
        None
    }

    /// The formatted text cached for (word, dir): present exactly when the
    /// pair has an article whose formatted text has been derived.
    pub fn get_cached_formatted(&self, word: &str, dir: &str) -> (r: Option<String>)
        requires
            self.wf(),
        ensures
            match r {
                Some(t) => formatted_at(self@, (word@, dir@)) == Some(t@),
                None => formatted_at(self@, (word@, dir@)) is None,
            },
    {
        match self.find_index(word, dir) {
            Some(i) => {
                proof {
                    lemma_article_map_at(self.rows@, i as int);
                }
                match &self.rows[i].formatted {
                    Some(t) => Some(t.clone()),
                    None => None,
                }
            },
            None => {
                proof {
                    lemma_article_map_contains(self.rows@, (word@, dir@));
                }
                None
            },
        }
    }

    /// The raw markup cached for (word, dir): present exactly when the pair
    /// has an article, whether or not formatted text has been derived.
    pub fn get_cached_html(&self, word: &str, dir: &str) -> (r: Option<String>)
        requires
            self.wf(),
        ensures
            match r {
                Some(h) => raw_at(self@, (word@, dir@)) == Some(h@),
                None => raw_at(self@, (word@, dir@)) is None,
            },
    {
        match self.find_index(word, dir) {
            Some(i) => {
                proof {
                    lemma_article_map_at(self.rows@, i as int);
                }
                Some(self.rows[i].html.clone())
            },
            None => {
                proof {
                    lemma_article_map_contains(self.rows@, (word@, dir@));
                }
                None
            },
        }
    }

    /// Stores raw markup for (word, dir): a new article when the pair had
    /// none, else the existing article's markup is replaced and its derived
    /// text discarded. Either way the pair's formatted text is absent after
    /// the call and its update time is `now`.
    pub fn insert_html(&mut self, word: &str, dir: &str, html: &str, now: i64)
        requires
            old(self).wf(),
        ensures
            final(self).wf(),
            final(self)@ == after_put_raw(old(self)@, (word@, dir@), html@, now as int),
    {
        match self.find_index(word, dir) {
            Some(i) => {
                proof {
                    lemma_article_map_at(self.rows@, i as int);
                }
                let row = CachedArticle {
                    word: word.to_owned(),
                    lang_direction: dir.to_owned(),
                    html: html.to_owned(),
                    formatted: None,
                    created_at: self.rows[i].created_at,
                    updated_at: now,
                };
                proof {
                    lemma_article_map_update(self.rows@, i as int, row);
                }
                self.rows[i] = row;
            },
            None => {
                proof {
                    lemma_article_map_contains(self.rows@, (word@, dir@));
                }
                let row = CachedArticle {
                    word: word.to_owned(),
                    lang_direction: dir.to_owned(),
                    html: html.to_owned(),
                    formatted: None,
                    created_at: now,
                    updated_at: now,
                };
                proof {
                    lemma_article_map_push(self.rows@, row);
                }
                self.rows.push(row);
            },
        }
    }

    /// Stores formatted text for (word, dir): set on the existing article,
    /// its raw markup and creation time untouched; when the pair had no
    /// article, a new one is created with empty raw markup as placeholder.
    pub fn update_formatted(&mut self, word: &str, dir: &str, formatted: &str, now: i64)
        requires
            old(self).wf(),
        ensures
            final(self).wf(),
            final(self)@ == after_put_formatted(old(self)@, (word@, dir@), formatted@, now as int),
    {
        match self.find_index(word, dir) {
            Some(i) => {
                proof {
                    lemma_article_map_at(self.rows@, i as int);
                }
                let row = CachedArticle {
                    word: word.to_owned(),
                    lang_direction: dir.to_owned(),
                    html: self.rows[i].html.clone(),
                    formatted: Some(formatted.to_owned()),
                    created_at: self.rows[i].created_at,
                    updated_at: now,
                };
                proof {
                    lemma_article_map_update(self.rows@, i as int, row);
                }
                self.rows[i] = row;
            },
            None => {
                proof {
                    lemma_article_map_contains(self.rows@, (word@, dir@));
                }
                let row = CachedArticle {
                    word: word.to_owned(),
                    lang_direction: dir.to_owned(),
                    html: String::new(),
                    formatted: Some(formatted.to_owned()),
                    created_at: now,
                    updated_at: now,
                };
                proof {
                    lemma_article_map_push(self.rows@, row);
                }
                self.rows.push(row);
            },
        }
    }
}

} // verus!
