//! The direction registry: the closed set of supported translation
//! directions and the reversal rule between them.
//!
//! A direction code is four characters: a two-letter source-language tag
//! followed by a two-letter target-language tag.

use vstd::prelude::*;
use crate::text::str_eq;

verus! {

/// The closed set of supported direction codes.
pub open spec fn valid_direction(s: Seq<char>) -> bool {
    ||| s == "pten"@
    ||| s == "enpt"@
    ||| s == "iten"@
    ||| s == "enit"@
}

/// The code obtained by swapping the source tag (first two characters)
/// with the target tag (last two characters).
pub open spec fn reversed_direction(s: Seq<char>) -> Seq<char> {
    s.subrange(2, 4) + s.subrange(0, 2)
}

/// Every member of the closed set is four characters long.
pub proof fn lemma_valid_direction_len(s: Seq<char>)
    requires
        valid_direction(s),
    ensures
        s.len() == 4,
{
    reveal_strlit("pten");
    reveal_strlit("enpt");
    reveal_strlit("iten");
    reveal_strlit("enit");
}

/// Reversal maps the closed set onto itself and is an involution:
/// reversing a valid direction twice gives the original code back.
pub proof fn lemma_reverse_involution(d: Seq<char>)
    requires
        valid_direction(d),
    ensures
        valid_direction(reversed_direction(d)),
        reversed_direction(reversed_direction(d)) == d,
{
    reveal_strlit("pten");
    reveal_strlit("enpt");
    reveal_strlit("iten");
    reveal_strlit("enit");
    if d == "pten"@ {
        assert(reversed_direction(d) =~= "enpt"@);
        assert(reversed_direction(reversed_direction(d)) =~= d);
    } else if d == "enpt"@ {
        assert(reversed_direction(d) =~= "pten"@);
        assert(reversed_direction(reversed_direction(d)) =~= d);
    } else if d == "iten"@ {
        assert(reversed_direction(d) =~= "enit"@);
        assert(reversed_direction(reversed_direction(d)) =~= d);
    } else {
        assert(reversed_direction(d) =~= "iten"@);
        assert(reversed_direction(reversed_direction(d)) =~= d);
    }
}

/// True exactly when `code` is one of the four supported directions.
pub fn is_valid_direction(code: &str) -> (r: bool)
    ensures
        r == valid_direction(code@),
{
    str_eq(code, "pten") || str_eq(code, "enpt") || str_eq(code, "iten") || str_eq(code, "enit")
}

/// Reverses a translation direction by swapping source and target tags.
///
/// Returns `None` unless the input is a member of the closed set; on a
/// valid code the result is again a valid code, and reversing it once
/// more gives the input back.
pub fn flip_direction(current: &str) -> (r: Option<String>)
    ensures
        valid_direction(current@) <==> r is Some,
        r matches Some(d) ==> d@ == reversed_direction(current@) && valid_direction(d@),
{
    if !is_valid_direction(current) {
        return None;
    }
    proof {
        lemma_valid_direction_len(current@);
        lemma_reverse_involution(current@);
    }
    let target = current.substring_char(2, 4);
    let source = current.substring_char(0, 2);
    let mut out: String = target.to_owned();
    out.append(source);
    Some(out)
}

} // verus!
