//! Shared helpers for rule implementations.

use vstd::prelude::*;
use crate::chars::{
    find_char, find_char_spec, is_ws, is_ws_char, str_chars, string_from_chars, trim_spec,
    trim_start_spec, ws_suffix, ws_suffix_len,
};

verus! {

/// Check if a line is effectively empty (whitespace only).
pub fn is_empty_line(line: &str) -> (r: bool)
    ensures
        r == (trim_spec(line@).len() == 0),
{
    let chars = str_chars(line);
    let t = crate::chars::trim_slice(chars.as_slice());
    t.len() == 0
}

/// Leading characters that are whitespace but not a newline.
pub open spec fn lead_ws_len(s: Seq<char>) -> int
    decreases s.len(),
{
    if s.len() == 0 || !(is_ws_char(s[0]) && s[0] != '\n') {
        0
    } else {
        1 + lead_ws_len(s.skip(1))
    }
}

/// Count the leading whitespace characters in a line.
pub fn count_leading_whitespace(line: &str) -> (r: usize)
    ensures
        r == lead_ws_len(line@),
{
    let chars = str_chars(line);
    count_leading_ws_chars(chars.as_slice())
}

/// The same count, over a character slice.
pub fn count_leading_ws_chars(v: &[char]) -> (r: usize)
    ensures
        r == lead_ws_len(v@),
{
    let n = v.len();
    let mut i: usize = 0;
    proof {
        assert(v@.skip(0) =~= v@);
    }
    while i < n && is_ws(v[i]) && v[i] != '\n'
        invariant
            0 <= i <= n,
            n == v@.len(),
            lead_ws_len(v@) == i + lead_ws_len(v@.skip(i as int)),
        decreases n - i,
    {
        proof {
            assert(v@.skip(i as int)[0] == v@[i as int]);
            assert(v@.skip(i as int).skip(1) =~= v@.skip(i + 1));
        }
        i = i + 1;
    }
    proof {
        if i < n {
            assert(v@.skip(i as int)[0] == v@[i as int]);
        }
        assert(lead_ws_len(v@.skip(i as int)) == 0);
    }
    i
}

/// Check if a line contains only whitespace and a comment.
pub fn is_comment_only_line(line: &str) -> (r: bool)
    ensures
        r == ({
            let t = trim_start_spec(line@);
            t.len() == 0 || t[0] == '#'
        }),
{
    let chars = str_chars(line);
    let t = crate::chars::trim_start_slice(chars.as_slice());
    t.len() == 0 || t[0] == '#'
}

/// Extract the comment portion from a line, if any: everything from the
/// first `#`.
pub fn extract_comment(line: &str) -> (r: Option<String>)
    ensures
        match r {
            Some(c) => find_char_spec(line@, '#') matches Some(i) && c@ == line@.skip(i),
            None => find_char_spec(line@, '#') is None,
        },
{
    let chars = str_chars(line);
    match find_char(chars.as_slice(), '#') {
        Some(pos) => {
            proof {
                crate::chars::lemma_find_char_spec(line@, '#');
            }
            let sub = &chars.as_slice()[pos..chars.len()];
            proof {
                assert(sub@ =~= line@.skip(pos as int));
            }
            Some(string_from_chars(sub))
        },
        None => None,
    }
}

/// Whether a line ends in whitespace.
pub open spec fn has_trailing_ws(s: Seq<char>) -> bool {
    s.len() > 0 && is_ws_char(s[s.len() - 1])
}

/// Check if a line has trailing whitespace.
pub fn has_trailing_whitespace(line: &str) -> (r: bool)
    ensures
        r == has_trailing_ws(line@),
{
    let chars = str_chars(line);
    let n = chars.len();
    n > 0 && is_ws(chars[n - 1])
}

/// The position where a line's trailing whitespace starts.
pub open spec fn trailing_ws_start(s: Seq<char>) -> Option<int> {
    if has_trailing_ws(s) {
        Some(s.len() - ws_suffix_len(s))
    } else {
        None
    }
}

/// Get the position of the first trailing whitespace character.
pub fn trailing_whitespace_start(line: &str) -> (r: Option<usize>)
    ensures
        match r {
            Some(i) => trailing_ws_start(line@) == Some(i as int),
            None => trailing_ws_start(line@) is None,
        },
{
    let chars = str_chars(line);
    trailing_ws_start_chars(chars.as_slice())
}

/// The same position, over a character slice.
pub fn trailing_ws_start_chars(v: &[char]) -> (r: Option<usize>)
    ensures
        match r {
            Some(i) => trailing_ws_start(v@) == Some(i as int),
            None => trailing_ws_start(v@) is None,
        },
{
    let n = v.len();
    if n == 0 || !is_ws(v[n - 1]) {
        return None;
    }
    let suffix = ws_suffix(v);
    proof {
        crate::chars::lemma_ws_suffix_le_len(v@);
    }
    Some(n - suffix)
}

} // verus!
