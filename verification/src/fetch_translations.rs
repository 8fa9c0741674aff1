//! The markup extractor: direction-aware selection of the translation
//! table out of a fetched page, and extraction of its rows into formatted
//! text, one line per row with exactly three cells.

use vstd::prelude::*;
use vstd::string::StringExecFns;
use crate::markup::{
    MarkupEvent, Ev, events_of, wrd_tables_of, close_from, open_positions_in, strong_items_in,
    element_text, child_items, ev_opens, matching_ordinal_from, wrd_count_from, wrd_table_count,
    lemma_wrd_count_nonneg, parse_events, wrd_table_markups, find_close, opens_in, texts_in,
    strong_items, child_items_exec, find_first_tr,
};
use crate::text::{
    str_eq, join_spaced, drop_empty_vec, str_contains, class_has_token, drop_empty, join_with,
};

verus! {

/// The page text that marks a direction's translation table. Two variants
/// are distinguished; every other direction shares the first one.
pub open spec fn header_label(dir: Seq<char>) -> Seq<char> {
    if dir == "iten"@ {
        "Principal Translations/Traduzioni principali"@
    } else {
        "Traduções principais"@
    }
}

/// The header text that identifies the translation table for a direction.
pub fn get_translation_table_header(lang_direction: &str) -> (r: &'static str)
    ensures
        r@ == header_label(lang_direction@),
{
    if str_eq(lang_direction, "iten") {
        "Principal Translations/Traduzioni principali"
    } else {
        "Traduções principais"
    }
}

/// The headword of a row: the trimmed, non-empty texts under the `strong`
/// elements of the cell opened at `p`, joined by spaces.
pub open spec fn headword_text(evs: Seq<Ev>, p: int) -> Seq<char> {
    join_with(strong_items_in(evs, p + 1, close_from(evs, p + 1, 0)), " "@)
}

/// The translation of a row: the items of the cell's direct children —
/// conjugation links and secondary part-of-speech annotations excluded —
/// with the empty ones dropped, joined by spaces.
pub open spec fn translation_cell_text(evs: Seq<Ev>, p: int) -> Seq<char> {
    join_with(drop_empty(child_items(evs, p + 1, close_from(evs, p + 1, 0))), " "@)
}

/// The formatted line of the row opened at `p`: headword in bold, the
/// grammatical note, an arrow, and the translation — empty unless the row
/// has exactly three cells.
pub open spec fn row_line(evs: Seq<Ev>, p: int) -> Seq<char> {
    let hi = close_from(evs, p + 1, 0);
    let tds = open_positions_in(evs, p + 1, hi, "td"@);
    if tds.len() != 3 {
        Seq::empty()
    } else {
        "<b>"@ + headword_text(evs, tds[0]) + "</b> "@ + element_text(evs, tds[1]) + " ⮕ "@
            + translation_cell_text(evs, tds[2]) + "\n"@
    }
}

/// The concatenated lines of the rows opened before position `i`.
pub open spec fn translations_upto(evs: Seq<Ev>, i: int) -> Seq<char>
    decreases i,
{
    if i <= 0 || i > evs.len() {
        Seq::empty()
    } else if ev_opens(evs[i - 1], "tr"@) {
        translations_upto(evs, i - 1) + row_line(evs, i - 1)
    } else {
        translations_upto(evs, i - 1)
    }
}

/// The formatted text extracted from a table fragment: one line per row
/// with exactly three cells, in document order.
pub open spec fn translations_of(markup: Seq<char>) -> Seq<char> {
    translations_upto(events_of(markup), events_of(markup).len() as int)
}

/// The markup of the translation table whose first row carries the
/// direction's header label; empty when no table matches.
pub open spec fn raw_translations(markup: Seq<char>, dir: Seq<char>) -> Seq<char> {
    let evs = events_of(markup);
    match matching_ordinal_from(evs, 0, 0, header_label(dir)) {
        Some(j) => wrd_tables_of(markup)[j],
        None => Seq::empty(),
    }
}

/// The formatted line for the row opened at `p`, or the empty string when
/// the row does not have exactly three cells.
fn row_line_exec(evs: &Vec<MarkupEvent>, p: usize) -> (r: String)
    requires
        p < evs@.len(),
    ensures
        r@ == row_line(evs.deep_view(), p as int),
{
    let ghost v = evs.deep_view();
    let n = evs.len();
    assert(p < n);
    let hi = find_close(evs, p + 1);
    let tds = opens_in(evs, p + 1, hi, "td");
    if tds.len() != 3 {
        return String::new();
    }
    let td0 = tds[0];
    let td1 = tds[1];
    let td2 = tds[2];
    let h0 = find_close(evs, td0 + 1);
    let strongs = strong_items(evs, td0 + 1, h0);
    let head = join_spaced(&strongs);
    let h1 = find_close(evs, td1 + 1);
    let cell_texts = texts_in(evs, td1 + 1, h1);
    let middle = join_spaced(&cell_texts);
    let h2 = find_close(evs, td2 + 1);
    let children = child_items_exec(evs, td2 + 1, h2);
    let kept = drop_empty_vec(children);
    let trans = join_spaced(&kept);
    let mut line = String::new();
    line.append("<b>");
    line.append(head.as_str());
    line.append("</b> ");
    line.append(middle.as_str());
    line.append(" ⮕ ");
    line.append(trans.as_str());
    line.append("\n");
    proof {
        assert(line@ =~= row_line(v, p as int));
    }
    line
}

/// Extracts the formatted translation lines from a table fragment: one
/// line per row with exactly three cells; rows with any other number of
/// cells are passed over, and an empty or row-less fragment gives the
/// empty string.
pub fn get_translations(table_html: &str) -> (r: String)
    ensures
        r@ == translations_of(table_html@),
{
    let evs = parse_events(table_html);
    let ghost v = evs.deep_view();
    let mut out = String::new();
    let mut i: usize = 0;
    while i < evs.len()
        invariant
            i <= evs@.len(),
            v == evs.deep_view(),
            v == events_of(table_html@),
            out@ == translations_upto(v, i as int),
        decreases evs@.len() - i,
    {
        let is_tr = match &evs[i] {
            MarkupEvent::Open { name, .. } => str_eq(name.as_str(), "tr"),
            _ => false,
        };
        if is_tr {
            let line = row_line_exec(&evs, i);
            out.append(line.as_str());
        }
        i += 1;
    }
    out
}

/// Scans the page for translation tables and returns, verbatim, the markup
/// of the first one whose first row's text contains the direction's header
/// label; the empty string when no table matches.
pub fn get_raw_translations(body: &str, lang_direction: &str) -> (r: String)
    ensures
        r@ == raw_translations(body@, lang_direction@),
{
    let evs = parse_events(body);
    let tables = wrd_table_markups(body);
    let label = get_translation_table_header(lang_direction);
    let ghost v = evs.deep_view();
    let ghost lab = header_label(lang_direction@);
    let mut i: usize = 0;
    let mut seen: usize = 0;
    while i < evs.len()
        invariant
            i <= evs@.len(),
            seen <= i,
            v == evs.deep_view(),
            v == events_of(body@),
            tables.deep_view() == wrd_tables_of(body@),
            tables@.len() as int == wrd_table_count(v),
            label@ == lab,
            lab == header_label(lang_direction@),
            matching_ordinal_from(v, 0, 0, lab) == matching_ordinal_from(
                v,
                i as int,
                seen as int,
                lab,
            ),
            wrd_table_count(v) == seen + wrd_count_from(v, i as int),
        decreases evs@.len() - i,
    {
        let is_wrd = match &evs[i] {
            MarkupEvent::Open { name, class } => str_eq(name.as_str(), "table")
                && class_has_token(class.as_str(), "WRD"),
            _ => false,
        };
        if is_wrd {
            let hi = find_close(&evs, i + 1);
            let tr = find_first_tr(&evs, i + 1, hi);
            let matched = if tr < hi {
                let texts = texts_in(&evs, tr + 1, find_close(&evs, tr + 1));
                let row_text = join_spaced(&texts);
                str_contains(row_text.as_str(), label)
            } else {
                false
            };
            if matched {
                proof {
                    lemma_wrd_count_nonneg(v, i as int + 1);
                    assert(matching_ordinal_from(v, i as int, seen as int, lab) == Some(
                        seen as int,
                    ));
                    assert(wrd_count_from(v, i as int) >= 1);
                }
                let t = tables[seen].clone();
                return t;
            }
            seen += 1;
        }
        i += 1;
    }
    String::new()
}

/// The address fetched for a word and a direction.
pub open spec fn fetch_url(word: Seq<char>, dir: Seq<char>) -> Seq<char> {
    "https://www.wordreference.com/"@ + dir + "/"@ + word
}

/// The address of the dictionary page for `word` under `lang_direction`.
pub fn translation_url(word: &str, lang_direction: &str) -> (r: String)
    ensures
        r@ == fetch_url(word@, lang_direction@),
{
    let mut url = String::new();
    url.append("https://www.wordreference.com/");
    url.append(lang_direction);
    url.append("/");
    url.append(word);
    proof {
        assert(url@ =~= fetch_url(word@, lang_direction@));
    }
    url
}

/// The identifying header value sent with each outbound fetch.
pub fn user_agent() -> (r: &'static str)
    ensures
        r@ == "Mozilla/5.0 (X11; Linux x86_64; rv:141.0) Gecko/20100101 Firefox/141.0"@,
{
    "Mozilla/5.0 (X11; Linux x86_64; rv:141.0) Gecko/20100101 Firefox/141.0"
}

} // verus!
