//! Verified text utilities: the character classes, trimming, joining and
//! substring search that the markup extractor is specified with.

use vstd::prelude::*;
use vstd::string::StrSliceExecFns;
use vstd::string::StringExecFns;

verus! {

// ---------------------------------------------------------------------------
// Specification layer
// ---------------------------------------------------------------------------

/// The whitespace characters that trimming removes.
pub open spec fn is_space(c: char) -> bool {
    let u = c as u32;
    ||| u == 0x20
    ||| (0x09 <= u && u <= 0x0d)
    ||| u == 0x85
    ||| u == 0xa0
    ||| u == 0x1680
    ||| (0x2000 <= u && u <= 0x200a)
    ||| u == 0x2028
    ||| u == 0x2029
    ||| u == 0x202f
    ||| u == 0x205f
    ||| u == 0x3000
}

/// The ASCII whitespace that separates the entries of a `class` attribute.
pub open spec fn is_ascii_space(c: char) -> bool {
    c == ' ' || c == '\t' || c == '\n' || c == '\u{c}' || c == '\r'
}

/// `s` without its leading whitespace.
pub open spec fn trim_start(s: Seq<char>) -> Seq<char>
    decreases s.len(),
{
    if s.len() > 0 && is_space(s[0]) {
        trim_start(s.drop_first())
    } else {
        s
    }
}

/// `s` without its trailing whitespace.
pub open spec fn trim_end(s: Seq<char>) -> Seq<char>
    decreases s.len(),
{
    if s.len() > 0 && is_space(s.last()) {
        trim_end(s.drop_last())
    } else {
        s
    }
}

/// `s` without leading and trailing whitespace.
pub open spec fn trim(s: Seq<char>) -> Seq<char> {
    trim_end(trim_start(s))
}

/// `needle` occurs contiguously somewhere in `hay`.
pub open spec fn seq_contains(hay: Seq<char>, needle: Seq<char>) -> bool {
    exists|i: int|
        0 <= i && i + needle.len() <= hay.len() && #[trigger] hay.subrange(i, i + needle.len())
            == needle
}

/// `want` stands at position `i` of `list` as a whole whitespace-separated entry.
pub open spec fn class_token_at(list: Seq<char>, i: int, want: Seq<char>) -> bool {
    &&& 0 <= i
    &&& i + want.len() <= list.len()
    &&& list.subrange(i, i + want.len()) == want
    &&& (i == 0 || is_ascii_space(list[i - 1]))
    &&& (i + want.len() == list.len() || is_ascii_space(list[i + want.len()]))
}

/// The attribute value `list`, split on ASCII whitespace, has `want` as an
/// entry (exact for any `want` that is non-empty and free of such whitespace).
pub open spec fn class_list_has(list: Seq<char>, want: Seq<char>) -> bool {
    exists|i: int| class_token_at(list, i, want)
}

/// The parts joined with `sep` between consecutive parts.
pub open spec fn join_with(parts: Seq<Seq<char>>, sep: Seq<char>) -> Seq<char>
    decreases parts.len(),
{
    if parts.len() == 0 {
        Seq::empty()
    } else if parts.len() == 1 {
        parts[0]
    } else {
        join_with(parts.drop_last(), sep) + sep + parts.last()
    }
}

/// The parts that are non-empty, in order.
pub open spec fn drop_empty(parts: Seq<Seq<char>>) -> Seq<Seq<char>>
    decreases parts.len(),
{
    if parts.len() == 0 {
        Seq::empty()
    } else {
        let rest = drop_empty(parts.drop_last());
        if parts.last().len() > 0 {
            rest.push(parts.last())
        } else {
            rest
        }
    }
}

/// Each part trimmed, keeping only those that remain non-empty, in order.
pub open spec fn trim_nonempty(parts: Seq<Seq<char>>) -> Seq<Seq<char>>
    decreases parts.len(),
{
    if parts.len() == 0 {
        Seq::empty()
    } else {
        let rest = trim_nonempty(parts.drop_last());
        if trim(parts.last()).len() > 0 {
            rest.push(trim(parts.last()))
        } else {
            rest
        }
    }
}

// ---------------------------------------------------------------------------
// Executable layer
// ---------------------------------------------------------------------------

/// Character-for-character equality of two string slices.
pub fn str_eq(a: &str, b: &str) -> (r: bool)
    ensures
        r == (a@ == b@),
{
    let sa: String = a.to_owned();
    let sb: String = b.to_owned();
    sa == sb
}

/// Whether `c` is whitespace in the sense of `is_space`.
pub fn is_space_char(c: char) -> (r: bool)
    ensures
        r == is_space(c),
{
    let u = c as u32;
    u == 0x20 || (0x09 <= u && u <= 0x0d) || u == 0x85 || u == 0xa0 || u == 0x1680 || (0x2000 <= u
        && u <= 0x200a) || u == 0x2028 || u == 0x2029 || u == 0x202f || u == 0x205f || u == 0x3000
}

/// Whether `c` is ASCII whitespace in the sense of `is_ascii_space`.
pub fn is_ascii_space_char(c: char) -> (r: bool)
    ensures
        r == is_ascii_space(c),
{
    c == ' ' || c == '\t' || c == '\n' || c == '\u{c}' || c == '\r'
}

/// Whether the characters of `pat` stand in `s` at position `i`.
fn chars_match(s: &str, slen: usize, i: usize, pat: &str, plen: usize) -> (r: bool)
    requires
        slen == s@.len(),
        plen == pat@.len(),
        i + plen <= slen,
    ensures
        r == (s@.subrange(i as int, i + plen) == pat@),
{
    let mut j: usize = 0;
    while j < plen
        invariant
            j <= plen,
            slen == s@.len(),
            plen == pat@.len(),
            i + plen <= slen,
            forall|k: int| 0 <= k < j ==> s@[i + k] == pat@[k],
        decreases plen - j,
    {
        if s.get_char(i + j) != pat.get_char(j) {
            proof {
                assert(s@.subrange(i as int, i + plen)[j as int] == s@[i + j]);
            }
            return false;
        }
        j += 1;
    }
    proof {
        assert(s@.subrange(i as int, i + plen) =~= pat@);
    }
    true
}

/// Whether `needle` occurs contiguously in `hay`.
pub fn str_contains(hay: &str, needle: &str) -> (r: bool)
    ensures
        r == seq_contains(hay@, needle@),
{
    let n = hay.unicode_len();
    let m = needle.unicode_len();
    if m > n {
        return false;
    }
    let limit = n - m;
    let mut i: usize = 0;
    loop
        invariant
            m <= n,
            limit == n - m,
            n == hay@.len(),
            m == needle@.len(),
            i <= limit,
            forall|k: int| 0 <= k < i ==> #[trigger] hay@.subrange(k, k + m) != needle@,
        ensures
            forall|k: int| 0 <= k <= limit ==> #[trigger] hay@.subrange(k, k + m) != needle@,
        decreases limit - i,
    {
        if chars_match(hay, n, i, needle, m) {
            assert(seq_contains(hay@, needle@));
            return true;
        }
        if i == limit {
            break;
        }
        i += 1;
    }
    proof {
        assert forall|k: int|
            0 <= k && k + needle@.len() <= hay@.len() implies #[trigger] hay@.subrange(
            k,
            k + needle@.len(),
        ) != needle@ by {
            assert(hay@.subrange(k, k + m) != needle@);
        }
    }
    false
}

/// Whether `want` is an entry of the whitespace-separated list `list`.
pub fn class_has_token(list: &str, want: &str) -> (r: bool)
    ensures
        r == class_list_has(list@, want@),
{
    let n = list.unicode_len();
    let m = want.unicode_len();
    if m > n {
        return false;
    }
    let limit = n - m;
    let mut i: usize = 0;
    loop
        invariant
            m <= n,
            limit == n - m,
            n == list@.len(),
            m == want@.len(),
            i <= limit,
            forall|k: int| 0 <= k < i ==> !class_token_at(list@, k, want@),
        ensures
            forall|k: int| 0 <= k <= limit ==> !class_token_at(list@, k, want@),
        decreases limit - i,
    {
        let start_ok = i == 0 || is_ascii_space_char(list.get_char(i - 1));
        let end_ok = i + m == n || is_ascii_space_char(list.get_char(i + m));
        if start_ok && end_ok && chars_match(list, n, i, want, m) {
            assert(class_token_at(list@, i as int, want@));
            return true;
        }
        if i == limit {
            break;
        }
        i += 1;
    }
    proof {
        assert forall|k: int| !class_token_at(list@, k, want@) by {
            if 0 <= k && k + m <= n {
                assert(!class_token_at(list@, k, want@));
            }
        }
    }
    false
}

/// `s` without leading and trailing whitespace, as a fresh string.
pub fn trim_str(s: &str) -> (r: String)
    ensures
        r@ == trim(s@),
{
    let n = s.unicode_len();
    let mut a: usize = 0;
    proof {
        assert(s@.subrange(0, n as int) =~= s@);
    }
    while a < n && is_space_char(s.get_char(a))
        invariant
            a <= n,
            n == s@.len(),
            trim_start(s@) == trim_start(s@.subrange(a as int, n as int)),
        decreases n - a,
    {
        proof {
            assert(s@.subrange(a as int, n as int).drop_first() =~= s@.subrange(
                a as int + 1,
                n as int,
            ));
        }
        a += 1;
    }
    proof {
        assert(trim_start(s@) == s@.subrange(a as int, n as int));
    }
    let mut b: usize = n;
    while b > a && is_space_char(s.get_char(b - 1))
        invariant
            a <= b <= n,
            n == s@.len(),
            trim_end(s@.subrange(a as int, n as int)) == trim_end(s@.subrange(a as int, b as int)),
        decreases b,
    {
        proof {
            assert(s@.subrange(a as int, b as int).drop_last() =~= s@.subrange(
                a as int,
                b as int - 1,
            ));
        }
        b -= 1;
    }
    proof {
        assert(trim(s@) == s@.subrange(a as int, b as int));
    }
    let out = s.substring_char(a, b);
    out.to_owned()
}

/// The parts joined with single spaces.
pub fn join_spaced(parts: &Vec<String>) -> (r: String)
    ensures
        r@ == join_with(parts.deep_view(), " "@),
{
    let mut out = String::new();
    let mut i: usize = 0;
    proof {
        assert(parts.deep_view().take(0) =~= Seq::<Seq<char>>::empty());
    }
    while i < parts.len()
        invariant
            i <= parts.len(),
            out@ == join_with(parts.deep_view().take(i as int), " "@),
        decreases parts.len() - i,
    {
        if i > 0 {
            out.append(" ");
        }
        out.append(parts[i].as_str());
        proof {
            let dv = parts.deep_view();
            assert(dv.take(i as int + 1).drop_last() =~= dv.take(i as int));
            assert(dv.take(i as int + 1).last() == dv[i as int]);
        }
        i += 1;
    }
    proof {
        assert(parts.deep_view().take(parts.len() as int) =~= parts.deep_view());
    }
    out
}

/// Each part trimmed, keeping those that remain non-empty.
pub fn trim_nonempty_vec(parts: &Vec<String>) -> (r: Vec<String>)
    ensures
        r.deep_view() == trim_nonempty(parts.deep_view()),
{
    let mut out: Vec<String> = Vec::new();
    let mut i: usize = 0;
    proof {
        assert(parts.deep_view().take(0) =~= Seq::<Seq<char>>::empty());
        assert(out.deep_view() =~= trim_nonempty(parts.deep_view().take(0)));
    }
    while i < parts.len()
        invariant
            i <= parts.len(),
            out.deep_view() == trim_nonempty(parts.deep_view().take(i as int)),
        decreases parts.len() - i,
    {
        let ghost pre = out.deep_view();
        let t = trim_str(parts[i].as_str());
        if !t.as_str().is_empty() {
            out.push(t);
        }
        proof {
            let dv = parts.deep_view();
            assert(dv.take(i as int + 1).drop_last() =~= dv.take(i as int));
            assert(dv.take(i as int + 1).last() == dv[i as int]);
            assert(out.deep_view() =~= trim_nonempty(dv.take(i as int + 1)));
        }
        i += 1;
    }
    proof {
        assert(parts.deep_view().take(parts.len() as int) =~= parts.deep_view());
    }
    out
}

/// The parts that are non-empty, in order.
pub fn drop_empty_vec(parts: Vec<String>) -> (r: Vec<String>)
    ensures
        r.deep_view() == drop_empty(parts.deep_view()),
{
    let mut out: Vec<String> = Vec::new();
    let mut i: usize = 0;
    proof {
        assert(parts.deep_view().take(0) =~= Seq::<Seq<char>>::empty());
        assert(out.deep_view() =~= drop_empty(parts.deep_view().take(0)));
    }
    while i < parts.len()
        invariant
            i <= parts.len(),
            out.deep_view() == drop_empty(parts.deep_view().take(i as int)),
        decreases parts.len() - i,
    {
        if !parts[i].as_str().is_empty() {
            let p = parts[i].clone();
            out.push(p);
        }
        proof {
            let dv = parts.deep_view();
            assert(dv.take(i as int + 1).drop_last() =~= dv.take(i as int));
            assert(dv.take(i as int + 1).last() == dv[i as int]);
            assert(out.deep_view() =~= drop_empty(dv.take(i as int + 1)));
        }
        i += 1;
    }
    proof {
        assert(parts.deep_view().take(parts.len() as int) =~= parts.deep_view());
    }
    out
}

} // verus!
