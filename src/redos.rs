//! A conservative check of regular expression sources for the simplest
//! catastrophic-backtracking shape, a quantified group around a single
//! quantified character such as `(a+)+`, with the rewrite that removes the
//! outer quantifier.

use vstd::prelude::*;
use vstd::string::StringExecFns;

verus! {

/// The shape that is recognized: an optional `^`, a group holding one word
/// character followed by `+`, the group itself followed by `+`, and an
/// optional `$`. Its groups are the anchor, the character and the end anchor.
pub const NESTED_QUANTIFIER: &'static str = r"^(?P<prefix>\^?)\((?P<char>\w)\+\)\+(?P<suffix>\$?)$";

pub open spec fn opt_text(o: Option<String>) -> Option<Seq<char>> {
    match o {
        Some(s) => Some(s@),
        None => None,
    }
}

pub open spec fn groups_view(v: Seq<Option<String>>) -> Seq<Option<Seq<char>>> {
    v.map_values(|o: Option<String>| opt_text(o))
}

/// What the `regex` crate finds when it matches the expression `re` against
/// `text`: `None` where `re` does not compile or does not match, else the
/// text of each capture group by index (group 0 is the whole match), `None`
/// for a group that took no part in the match.
pub uninterp spec fn capture_groups(re: Seq<char>, text: Seq<char>) -> Option<
    Seq<Option<Seq<char>>>,
>;

/// Relies on `regex::Regex::new` and `Regex::captures`: the groups of the
/// leftmost match, each as its text.
#[verifier::external_body]
fn regex_captures(re: &str, text: &str) -> (r: Option<Vec<Option<String>>>)
    ensures
        r matches Some(g) ==> capture_groups(re@, text@) == Some(groups_view(g@)),
        r is None ==> capture_groups(re@, text@) is None,
{
    let caps = regex::Regex::new(re).ok()?.captures(text)?;
    Some(caps.iter().map(|m| m.map(|m| m.as_str().to_string())).collect())
}

pub open spec fn group_or_empty(groups: Seq<Option<Seq<char>>>, i: int) -> Seq<char> {
    if 0 <= i < groups.len() && groups[i] is Some {
        groups[i]->0
    } else {
        Seq::empty()
    }
}

/// The rewrite built from a match's groups: the anchor, the character group
/// with its inner quantifier only, and the end anchor. Without the character
/// group there is none.
pub open spec fn rewrite_of(groups: Seq<Option<Seq<char>>>) -> Option<Seq<char>> {
    if 2 < groups.len() && groups[2] is Some {
        Some(group_or_empty(groups, 1) + "("@ + groups[2]->0 + "+)"@ + group_or_empty(groups, 3))
    } else {
        None
    }
}

fn group_text(groups: &Vec<Option<String>>, i: usize) -> (r: String)
    ensures
        r@ == group_or_empty(groups_view(groups@), i as int),
{
    if i < groups.len() {
        match &groups[i] {
            Some(s) => s.clone(),
            None => String::new(),
        }
    } else {
        String::new()
    }
}

/// The rewrite for a match with capture groups `groups`.
pub fn rewrite_from_captures(groups: &Vec<Option<String>>) -> (r: Option<String>)
    ensures
        opt_text(r) == rewrite_of(groups_view(groups@)),
{
    let ghost g = groups_view(groups@);
    if groups.len() > 2 {
        match &groups[2] {
            Some(ch) => {
                let mut out = group_text(groups, 1);
                out.append("(");
                out.append(ch.as_str());
                out.append("+)");
                let suffix = group_text(groups, 3);
                out.append(suffix.as_str());
                assert(out@ =~= group_or_empty(g, 1) + "("@ + g[2]->0 + "+)"@ + group_or_empty(g, 3));
                Some(out)
            },
            None => None,
        }
    } else {
        None
    }
}

pub open spec fn nested_quantifier_rewrite(pattern: Seq<char>) -> Option<Seq<char>> {
    match capture_groups(NESTED_QUANTIFIER@, pattern) {
        Some(groups) => rewrite_of(groups),
        None => None,
    }
}

/// The rewrite of `pattern` when it has the nested-quantifier shape.
pub fn detect_simple_nested_quantifier(pattern: &str) -> (r: Option<String>)
    ensures
        opt_text(r) == nested_quantifier_rewrite(pattern@),
{
    match regex_captures(NESTED_QUANTIFIER, pattern) {
        Some(groups) => rewrite_from_captures(&groups),
        None => None,
    }
}

/// A pattern is taken to be safe unless it has the nested-quantifier shape.
pub fn is_likely_safe(pattern: &str) -> (r: bool)
    ensures
        r == (nested_quantifier_rewrite(pattern@) is None),
{
    detect_simple_nested_quantifier(pattern).is_none()
}

} // verus!
