//! Regular expressions, which the `regex` crate matches.

use vstd::prelude::*;

verus! {

/// What `regex::Regex::captures` finds for the leftmost match of `pattern`
/// in `text`: the text of each capture group in the order of their
/// numbers, the whole match as group 0, and `None` for a group that took no
/// part in the match. `None` as a whole if nothing matches, or if
/// `regex::Regex::new` does not accept `pattern`.
pub uninterp spec fn captured(pattern: Seq<char>, text: Seq<char>) -> Option<
    Seq<Option<Seq<char>>>,
>;

/// The text of each group.
pub open spec fn groups_text(groups: Seq<Option<String>>) -> Seq<Option<Seq<char>>> {
    Seq::new(
        groups.len(),
        |i: int|
            match groups[i] {
                Some(s) => Some(s@),
                None => None,
            },
    )
}

/// The text of each group of a match, if there is a match.
pub open spec fn match_text(found: Option<Vec<Option<String>>>) -> Option<Seq<Option<Seq<char>>>> {
    match found {
        Some(groups) => Some(groups_text(groups@)),
        None => None,
    }
}

/// Compiles `pattern` with `regex::Regex::new` and searches `text` with
/// `regex::Regex::captures`. The result is what these two return, and
/// nothing is proved of it: it is [`captured`] by definition.
#[verifier::external_body]
pub(crate) fn captures(pattern: &str, text: &str) -> (found: Option<Vec<Option<String>>>)
    ensures
        match_text(found) == captured(pattern@, text@),
{
    let re = match regex::Regex::new(pattern) {
        Ok(re) => re,
        Err(_) => return None,
    };
    let caps = re.captures(text)?;
    Some(caps.iter().map(|m| m.map(|m| m.as_str().to_string())).collect())
}

/// The text of group `n` of a match: `None` without a match, without such
/// a group, or where the group took no part in the match.
pub open spec fn group_text(found: Option<Seq<Option<Seq<char>>>>, n: int) -> Option<Seq<char>> {
    match found {
        Some(groups) => if 0 <= n < groups.len() {
            groups[n]
        } else {
            None
        },
        None => None,
    }
}

/// The text of group `n` of a match.
pub fn group<'a>(found: &'a Option<Vec<Option<String>>>, n: usize) -> (g: Option<&'a String>)
    ensures
        match g {
            Some(s) => group_text(match_text(*found), n as int) == Some(s@),
            None => group_text(match_text(*found), n as int) is None,
        },
{
    match found {
        Some(groups) => {
            if n < groups.len() {
                match &groups[n] {
                    Some(s) => Some(s),
                    None => None,
                }
            } else {
                None
            }
        },
        None => None,
    }
}

} // verus!
