//! A verified model of parsed markup.
//!
//! A parsed document is modelled as the sequence of events of a depth-first
//! walk over its tree: an element opens, a text node is visited, an element
//! closes. The extractor's whole logic — which table is chosen, which rows
//! count, which subtrees are excluded — is verified over this model; only
//! the parse itself is trusted to the outside parser.

use vstd::prelude::*;
use crate::text::{class_list_has, seq_contains, trim, trim_nonempty, join_with};
use crate::text::{join_spaced, str_contains, str_eq, trim_nonempty_vec, trim_str};

verus! {

/// One step of a depth-first walk over parsed markup: an element opens
/// (with its name and its `class` attribute, empty when absent), a text
/// node is visited, or the innermost open element closes.
pub enum MarkupEvent {
    Open { name: String, class: String },
    Text { text: String },
    Close,
}

/// The mathematical value of one markup event.
pub ghost enum Ev {
    Open { name: Seq<char>, class: Seq<char> },
    Text { text: Seq<char> },
    Close,
}

impl View for MarkupEvent {
    type V = Ev;

    open spec fn view(&self) -> Ev {
        match self {
            MarkupEvent::Open { name, class } => Ev::Open { name: name@, class: class@ },
            MarkupEvent::Text { text } => Ev::Text { text: text@ },
            MarkupEvent::Close => Ev::Close,
        }
    }
}

impl DeepView for MarkupEvent {
    type V = Ev;

    open spec fn deep_view(&self) -> Ev {
        self.view()
    }
}

/// The events of the depth-first walk over the document that the outside
/// parser builds from `markup`: a function of the markup alone.
pub uninterp spec fn events_of(markup: Seq<char>) -> Seq<Ev>;

/// The serialized markup of each translation table (`table` element whose
/// class list has the entry `WRD`) of the document parsed from `markup`,
/// in document order: a function of the markup alone.
pub uninterp spec fn wrd_tables_of(markup: Seq<char>) -> Seq<Seq<char>>;

/// Whether `e` opens an element named `tag`.
pub open spec fn ev_opens(e: Ev, tag: Seq<char>) -> bool {
    match e {
        Ev::Open { name, .. } => name == tag,
        _ => false,
    }
}

/// Whether `e` opens a translation table: a `table` element whose class
/// list has the entry `WRD`.
pub open spec fn is_wrd_table(e: Ev) -> bool {
    match e {
        Ev::Open { name, class } => name == "table"@ && class_list_has(class, "WRD"@),
        _ => false,
    }
}

/// The first position at or after `i` where the nesting depth, starting
/// from `depth` open elements, returns to zero on a closing event; the
/// length of `evs` when it never does.
pub open spec fn close_from(evs: Seq<Ev>, i: int, depth: int) -> int
    decreases evs.len() - i,
{
    if i < 0 || i >= evs.len() {
        evs.len() as int
    } else {
        match evs[i] {
            Ev::Open { .. } => close_from(evs, i + 1, depth + 1),
            Ev::Text { .. } => close_from(evs, i + 1, depth),
            Ev::Close => if depth == 0 {
                i
            } else {
                close_from(evs, i + 1, depth - 1)
            },
        }
    }
}

/// The texts of the text events in `evs[lo..hi)`, in order.
pub open spec fn text_items_in(evs: Seq<Ev>, lo: int, hi: int) -> Seq<Seq<char>>
    decreases hi - lo,
{
    if lo < 0 || hi > evs.len() || lo >= hi {
        Seq::empty()
    } else {
        let rest = text_items_in(evs, lo, hi - 1);
        match evs[hi - 1] {
            Ev::Text { text } => rest.push(text),
            _ => rest,
        }
    }
}

/// The text under the element opened at position `p`, with the text nodes
/// joined by single spaces.
pub open spec fn element_text(evs: Seq<Ev>, p: int) -> Seq<char> {
    join_with(text_items_in(evs, p + 1, close_from(evs, p + 1, 0)), " "@)
}

/// The positions in `evs[lo..hi)` that open an element named `tag`, in order.
pub open spec fn open_positions_in(evs: Seq<Ev>, lo: int, hi: int, tag: Seq<char>) -> Seq<int>
    decreases hi - lo,
{
    if lo < 0 || hi > evs.len() || lo >= hi {
        Seq::empty()
    } else {
        let rest = open_positions_in(evs, lo, hi - 1, tag);
        if ev_opens(evs[hi - 1], tag) {
            rest.push(hi - 1)
        } else {
            rest
        }
    }
}

/// For each `strong` element opened in `evs[lo..hi)`, in order: its text
/// items, each trimmed, keeping the non-empty ones — all concatenated into
/// one sequence of items.
pub open spec fn strong_items_in(evs: Seq<Ev>, lo: int, hi: int) -> Seq<Seq<char>>
    decreases hi - lo,
{
    if lo < 0 || hi > evs.len() || lo >= hi {
        Seq::empty()
    } else {
        let rest = strong_items_in(evs, lo, hi - 1);
        if ev_opens(evs[hi - 1], "strong"@) {
            rest + trim_nonempty(text_items_in(evs, hi, close_from(evs, hi, 0)))
        } else {
            rest
        }
    }
}

/// Whether a direct child element with this name and class attribute is
/// left out of a translation cell: an inline conjugation link, or a
/// secondary part-of-speech annotation.
pub open spec fn excluded_child(name: Seq<char>, class: Seq<char>) -> bool {
    ||| (name == "a"@ && class == "conjugate"@)
    ||| (name == "em"@ && seq_contains(class, "POS2"@))
}

/// One item per direct child of the events `evs[i..hi)`, in order: for a
/// text child its trimmed text; for an element child the space-joined,
/// trimmed, non-empty texts under it — unless the child is excluded, which
/// yields no item. A stray closing event ends the children.
pub open spec fn child_items(evs: Seq<Ev>, i: int, hi: int) -> Seq<Seq<char>>
    decreases hi - i,
{
    if i < 0 || i >= hi || hi > evs.len() {
        Seq::empty()
    } else {
        match evs[i] {
            Ev::Open { name, class } => {
                let stop = close_from(evs, i + 1, 0);
                let next = if stop + 1 <= i + 1 {
                    i + 1
                } else if stop + 1 >= hi {
                    hi
                } else {
                    stop + 1
                };
                let bound = if stop < hi {
                    stop
                } else {
                    hi
                };
                let item = join_with(trim_nonempty(text_items_in(evs, i + 1, bound)), " "@);
                let rest = child_items(evs, next, hi);
                if excluded_child(name, class) {
                    rest
                } else {
                    seq![item] + rest
                }
            },
            Ev::Text { text } => seq![trim(text)] + child_items(evs, i + 1, hi),
            Ev::Close => Seq::empty(),
        }
    }
}

/// The number of translation-table openings in `evs[i..)`.
pub open spec fn wrd_count_from(evs: Seq<Ev>, i: int) -> int
    decreases evs.len() - i,
{
    if i < 0 || i >= evs.len() {
        0
    } else if is_wrd_table(evs[i]) {
        1 + wrd_count_from(evs, i + 1)
    } else {
        wrd_count_from(evs, i + 1)
    }
}

/// The number of translation tables in the document.
pub open spec fn wrd_table_count(evs: Seq<Ev>) -> int {
    wrd_count_from(evs, 0)
}

pub proof fn lemma_wrd_count_nonneg(evs: Seq<Ev>, i: int)
    ensures
        wrd_count_from(evs, i) >= 0,
    decreases evs.len() - i,
{
    if 0 <= i && i < evs.len() {
        lemma_wrd_count_nonneg(evs, i + 1);
    }
}

/// The first position in `evs[lo..hi)` that opens a `tr` element; `hi`
/// when there is none.
pub open spec fn first_tr_in(evs: Seq<Ev>, lo: int, hi: int) -> int
    decreases hi - lo,
{
    if lo < 0 || lo >= hi || hi > evs.len() {
        hi
    } else if ev_opens(evs[lo], "tr"@) {
        lo
    } else {
        first_tr_in(evs, lo + 1, hi)
    }
}

/// Whether the translation table opened at position `p` is the one a
/// direction asks for: it has a row, and the text of its first row
/// contains `label`.
pub open spec fn table_matches(evs: Seq<Ev>, p: int, label: Seq<char>) -> bool {
    let hi = close_from(evs, p + 1, 0);
    let tr = first_tr_in(evs, p + 1, hi);
    tr < hi && seq_contains(element_text(evs, tr), label)
}

/// The ordinal, counted from `seen`, of the first translation table opened
/// at or after position `i` whose first row's text contains `label`;
/// `None` when no table matches.
pub open spec fn matching_ordinal_from(evs: Seq<Ev>, i: int, seen: int, label: Seq<char>) -> Option<
    int,
>
    decreases evs.len() - i,
{
    if i < 0 || i >= evs.len() {
        None
    } else if is_wrd_table(evs[i]) {
        if table_matches(evs, i, label) {
            Some(seen)
        } else {
            matching_ordinal_from(evs, i + 1, seen + 1, label)
        }
    } else {
        matching_ordinal_from(evs, i + 1, seen, label)
    }
}

// ---------------------------------------------------------------------------
// Trusted boundary: the outside parser
// ---------------------------------------------------------------------------

/// Relies on scraper::Html::parse_document and ego_tree's depth-first
/// traversal: the parsed tree is a function of the markup alone; element
/// and text nodes are visited in document order; an element's `class`
/// attribute is reported as given, the empty string when absent; node
/// kinds other than elements and text (comments, doctypes) are passed over.
#[verifier::external_body]
pub(crate) fn parse_events(markup: &str) -> (r: Vec<MarkupEvent>)
    ensures
        r.deep_view() == events_of(markup@),
{
    let mut out = Vec::new();
    for edge in scraper::Html::parse_document(markup).tree.root().traverse() {
        match edge {
            ego_tree::iter::Edge::Open(n) => match n.value() {
                scraper::Node::Element(e) => out.push(MarkupEvent::Open { name: e.name().to_string(), class: e.attr("class").unwrap_or("").to_string() }),
                scraper::Node::Text(t) => out.push(MarkupEvent::Text { text: t.to_string() }),
                _ => {}
            },
            ego_tree::iter::Edge::Close(n) if n.value().is_element() => out.push(MarkupEvent::Close),
            _ => {}
        }
    }
    out
}

/// Relies on scraper's CSS selection (`table.WRD`) and serialization: one
/// entry per translation table of the parsed document, in document order —
/// the order their opening events stand in `events_of` — each entry the
/// table's serialized markup. Both are functions of the markup alone.
#[verifier::external_body]
pub(crate) fn wrd_table_markups(markup: &str) -> (r: Vec<String>)
    ensures
        r.deep_view() == wrd_tables_of(markup@),
        r.deep_view().len() == wrd_table_count(events_of(markup@)),
{
    let doc = scraper::Html::parse_document(markup);
    let sel = scraper::Selector::parse("table.WRD").unwrap();
    doc.select(&sel).map(|t| t.html()).collect()
}

// ---------------------------------------------------------------------------
// Verified scanning
// ---------------------------------------------------------------------------

/// The position where the element opened just before `from` closes.
pub(crate) fn find_close(evs: &Vec<MarkupEvent>, from: usize) -> (r: usize)
    requires
        from <= evs@.len(),
    ensures
        r == close_from(evs.deep_view(), from as int, 0),
        from <= r <= evs@.len(),
{
    let ghost v = evs.deep_view();
    let mut i = from;
    let mut depth: usize = 0;
    while i < evs.len()
        invariant
            from <= i <= evs@.len(),
            depth <= i - from,
            v == evs.deep_view(),
            close_from(v, from as int, 0) == close_from(v, i as int, depth as int),
        decreases evs@.len() - i,
    {
        match &evs[i] {
            MarkupEvent::Open { .. } => {
                depth += 1;
                i += 1;
            },
            MarkupEvent::Text { .. } => {
                i += 1;
            },
            MarkupEvent::Close => {
                if depth == 0 {
                    return i;
                }
                depth -= 1;
                i += 1;
            },
        }
    }
    i
}

/// The texts of the text events in `evs[lo..hi)`, in order.
pub(crate) fn texts_in(evs: &Vec<MarkupEvent>, lo: usize, hi: usize) -> (r: Vec<String>)
    requires
        lo <= hi <= evs@.len(),
    ensures
        r.deep_view() == text_items_in(evs.deep_view(), lo as int, hi as int),
{
    let ghost v = evs.deep_view();
    let mut out: Vec<String> = Vec::new();
    let mut i = lo;
    proof {
        assert(out.deep_view() =~= text_items_in(v, lo as int, lo as int));
    }
    while i < hi
        invariant
            lo <= i <= hi <= evs@.len(),
            v == evs.deep_view(),
            out.deep_view() == text_items_in(v, lo as int, i as int),
        decreases hi - i,
    {
        match &evs[i] {
            MarkupEvent::Text { text } => {
                let t = text.clone();
                out.push(t);
            },
            _ => {},
        }
        proof {
            assert(out.deep_view() =~= text_items_in(v, lo as int, i as int + 1));
        }
        i += 1;
    }
    out
}

/// The positions in `evs[lo..hi)` that open an element named `tag`.
pub(crate) fn opens_in(evs: &Vec<MarkupEvent>, lo: usize, hi: usize, tag: &str) -> (r: Vec<usize>)
    requires
        lo <= hi <= evs@.len(),
    ensures
        r@.map_values(|u: usize| u as int) == open_positions_in(
            evs.deep_view(),
            lo as int,
            hi as int,
            tag@,
        ),
        forall|k: int| 0 <= k < r@.len() ==> lo <= #[trigger] r@[k] < hi,
{
    let ghost v = evs.deep_view();
    let mut out: Vec<usize> = Vec::new();
    let mut i = lo;
    proof {
        assert(out@.map_values(|u: usize| u as int) =~= open_positions_in(
            v,
            lo as int,
            lo as int,
            tag@,
        ));
    }
    while i < hi
        invariant
            lo <= i <= hi <= evs@.len(),
            v == evs.deep_view(),
            out@.map_values(|u: usize| u as int) == open_positions_in(v, lo as int, i as int, tag@),
            forall|k: int| 0 <= k < out@.len() ==> lo <= #[trigger] out@[k] < i,
        decreases hi - i,
    {
        let hit = match &evs[i] {
            MarkupEvent::Open { name, .. } => str_eq(name.as_str(), tag),
            _ => false,
        };
        if hit {
            out.push(i);
        }
        proof {
            assert(out@.map_values(|u: usize| u as int) =~= open_positions_in(
                v,
                lo as int,
                i as int + 1,
                tag@,
            ));
        }
        i += 1;
    }
    out
}

/// The trimmed, non-empty texts under each `strong` element opened in
/// `evs[lo..hi)`, concatenated in order.
pub(crate) fn strong_items(evs: &Vec<MarkupEvent>, lo: usize, hi: usize) -> (r: Vec<String>)
    requires
        lo <= hi <= evs@.len(),
    ensures
        r.deep_view() == strong_items_in(evs.deep_view(), lo as int, hi as int),
{
    let ghost v = evs.deep_view();
    let mut out: Vec<String> = Vec::new();
    let mut i = lo;
    proof {
        assert(out.deep_view() =~= strong_items_in(v, lo as int, lo as int));
    }
    while i < hi
        invariant
            lo <= i <= hi <= evs@.len(),
            v == evs.deep_view(),
            out.deep_view() == strong_items_in(v, lo as int, i as int),
        decreases hi - i,
    {
        let hit = match &evs[i] {
            MarkupEvent::Open { name, .. } => str_eq(name.as_str(), "strong"),
            _ => false,
        };
        if hit {
            let stop = find_close(evs, i + 1);
            let texts = texts_in(evs, i + 1, stop);
            let mut items = trim_nonempty_vec(&texts);
            out.append(&mut items);
        }
        proof {
            assert(out.deep_view() =~= strong_items_in(v, lo as int, i as int + 1));
        }
        i += 1;
    }
    out
}

/// One item per direct child of `evs[lo..hi)`, as `child_items` lists them.
pub(crate) fn child_items_exec(evs: &Vec<MarkupEvent>, lo: usize, hi: usize) -> (r: Vec<String>)
    requires
        lo <= hi <= evs@.len(),
    ensures
        r.deep_view() == child_items(evs.deep_view(), lo as int, hi as int),
{
    let ghost v = evs.deep_view();
    let mut out: Vec<String> = Vec::new();
    let mut i = lo;
    proof {
        assert(out.deep_view() + child_items(v, lo as int, hi as int) =~= child_items(
            v,
            lo as int,
            hi as int,
        ));
    }
    loop
        invariant
            lo <= i <= hi <= evs@.len(),
            v == evs.deep_view(),
            child_items(v, lo as int, hi as int) == out.deep_view() + child_items(
                v,
                i as int,
                hi as int,
            ),
        ensures
            child_items(v, lo as int, hi as int) == out.deep_view(),
        decreases hi - i,
    {
        if i >= hi {
            proof {
                assert(out.deep_view() + child_items(v, i as int, hi as int) =~= out.deep_view());
            }
            break;
        }
        match &evs[i] {
            MarkupEvent::Open { name, class } => {
                let ghost pre = out.deep_view();
                let stop = find_close(evs, i + 1);
                let bound = if stop < hi {
                    stop
                } else {
                    hi
                };
                let texts = texts_in(evs, i + 1, bound);
                let trimmed = trim_nonempty_vec(&texts);
                let item = join_spaced(&trimmed);
                let skip = (str_eq(name.as_str(), "a") && str_eq(class.as_str(), "conjugate")) || (
                str_eq(name.as_str(), "em") && str_contains(class.as_str(), "POS2"));
                if !skip {
                    out.push(item);
                }
                let next = if stop < hi {
                    stop + 1
                } else {
                    hi
                };
                proof {
                    let ghost item_v = join_with(
                        trim_nonempty(text_items_in(v, i as int + 1, bound as int)),
                        " "@,
                    );
                    if skip {
                        assert(child_items(v, i as int, hi as int) == child_items(
                            v,
                            next as int,
                            hi as int,
                        ));
                    } else {
                        assert(out.deep_view() =~= pre.push(item_v));
                        assert(child_items(v, i as int, hi as int) == seq![item_v] + child_items(
                            v,
                            next as int,
                            hi as int,
                        ));
                        assert(pre + (seq![item_v] + child_items(v, next as int, hi as int))
                            =~= out.deep_view() + child_items(v, next as int, hi as int));
                    }
                }
                i = next;
            },
            MarkupEvent::Text { text } => {
                let ghost pre = out.deep_view();
                let t = trim_str(text.as_str());
                out.push(t);
                proof {
                    assert(out.deep_view() =~= pre.push(trim(text@)));
                    assert(pre + (seq![trim(text@)] + child_items(v, i as int + 1, hi as int))
                        =~= out.deep_view() + child_items(v, i as int + 1, hi as int));
                }
                i += 1;
            },
            MarkupEvent::Close => {
                proof {
                    assert(child_items(v, i as int, hi as int) =~= Seq::<Seq<char>>::empty());
                    assert(out.deep_view() + child_items(v, i as int, hi as int)
                        =~= out.deep_view());
                }
                break;
            },
        }
    }
    out
}

/// The position of the first `tr` opening in `evs[lo..hi)`; `hi` when none.
pub(crate) fn find_first_tr(evs: &Vec<MarkupEvent>, lo: usize, hi: usize) -> (r: usize)
    requires
        lo <= hi <= evs@.len(),
    ensures
        r == first_tr_in(evs.deep_view(), lo as int, hi as int),
        lo <= r <= hi,
{
    let ghost v = evs.deep_view();
    let mut i = lo;
    while i < hi
        invariant
            lo <= i <= hi <= evs@.len(),
            v == evs.deep_view(),
            first_tr_in(v, lo as int, hi as int) == first_tr_in(v, i as int, hi as int),
        decreases hi - i,
    {
        let hit = match &evs[i] {
            MarkupEvent::Open { name, .. } => str_eq(name.as_str(), "tr"),
            _ => false,
        };
        if hit {
            return i;
        }
        i += 1;
    }
    i
}

} // verus!
