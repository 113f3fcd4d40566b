//! Character-level utilities shared by the parser and the rules.
//!
//! All linting logic works over `Vec<char>` so that every scan is verified;
//! only the conversions to and from `String` are trusted.

use vstd::prelude::*;

verus! {

/// Relies on str::chars: yields exactly the characters of the string, in order.
#[verifier::external_body]
pub fn str_chars(s: &str) -> (r: Vec<char>)
    ensures
        r@ == s@,
{
    s.chars().collect()
}

/// Relies on String's FromIterator over char: the built string holds exactly
/// the given characters, in order.
#[verifier::external_body]
pub fn string_from_chars(v: &[char]) -> (r: String)
    ensures
        r@ == v@,
{
    v.iter().collect()
}

/// Relies on str's PartialEq: two string slices are equal exactly when their
/// character sequences are.
#[verifier::external_body]
pub fn str_eq(a: &str, b: &str) -> (r: bool)
    ensures
        r == (a@ == b@),
{
    a == b
}

/// The characters with the Unicode White_Space property, as tested by
/// char::is_whitespace.
pub open spec fn is_ws_char(c: char) -> bool {
    c == ' ' || c == '\t' || c == '\n' || c == '\r' || c == '\u{b}' || c == '\u{c}'
        || c == '\u{85}' || c == '\u{a0}' || c == '\u{1680}'
        || ('\u{2000}' <= c && c <= '\u{200a}')
        || c == '\u{2028}' || c == '\u{2029}' || c == '\u{202f}' || c == '\u{205f}'
        || c == '\u{3000}'
}

pub fn is_ws(c: char) -> (r: bool)
    ensures
        r == is_ws_char(c),
{
    c == ' ' || c == '\t' || c == '\n' || c == '\r' || c == '\u{b}' || c == '\u{c}'
        || c == '\u{85}' || c == '\u{a0}' || c == '\u{1680}'
        || ('\u{2000}' <= c && c <= '\u{200a}')
        || c == '\u{2028}' || c == '\u{2029}' || c == '\u{202f}' || c == '\u{205f}'
        || c == '\u{3000}'
}

/// Length of the longest whitespace prefix of `s`.
pub open spec fn ws_prefix_len(s: Seq<char>) -> int
    decreases s.len(),
{
    if s.len() == 0 || !is_ws_char(s[0]) {
        0
    } else {
        1 + ws_prefix_len(s.skip(1))
    }
}

/// Length of the longest whitespace suffix of `s`.
pub open spec fn ws_suffix_len(s: Seq<char>) -> int
    decreases s.len(),
{
    if s.len() == 0 || !is_ws_char(s[s.len() - 1]) {
        0
    } else {
        1 + ws_suffix_len(s.drop_last())
    }
}

pub proof fn lemma_ws_prefix_le_len(s: Seq<char>)
    ensures
        0 <= ws_prefix_len(s) <= s.len(),
        forall|i: int| 0 <= i < ws_prefix_len(s) ==> is_ws_char(s[i]),
        ws_prefix_len(s) < s.len() ==> !is_ws_char(s[ws_prefix_len(s)]),
    decreases s.len(),
{
    if s.len() == 0 || !is_ws_char(s[0]) {
    } else {
        lemma_ws_prefix_le_len(s.skip(1));
        assert forall|i: int| 0 <= i < ws_prefix_len(s) implies is_ws_char(s[i]) by {
            if i > 0 {
                assert(s.skip(1)[i - 1] == s[i]);
            }
        }
        if ws_prefix_len(s) < s.len() {
            assert(s.skip(1)[ws_prefix_len(s) - 1] == s[ws_prefix_len(s)]);
        }
    }
}

pub proof fn lemma_ws_suffix_le_len(s: Seq<char>)
    ensures
        0 <= ws_suffix_len(s) <= s.len(),
    decreases s.len(),
{
    if s.len() == 0 || !is_ws_char(s[s.len() - 1]) {
    } else {
        lemma_ws_suffix_le_len(s.drop_last());
    }
}

/// `str::trim_start`, as a function on character sequences.
pub open spec fn trim_start_spec(s: Seq<char>) -> Seq<char> {
    s.skip(ws_prefix_len(s))
}

/// `str::trim_end`, as a function on character sequences.
pub open spec fn trim_end_spec(s: Seq<char>) -> Seq<char> {
    s.take(s.len() - ws_suffix_len(s))
}

/// `str::trim`, as a function on character sequences.
pub open spec fn trim_spec(s: Seq<char>) -> Seq<char> {
    trim_end_spec(trim_start_spec(s))
}

/// Index just past the leading whitespace of `v`, as an executable scan.
pub fn ws_prefix(v: &[char]) -> (r: usize)
    ensures
        r == ws_prefix_len(v@),
{
    let mut i: usize = 0;
    proof {
        assert(v@.skip(0) =~= v@);
    }
    while i < v.len() && is_ws(v[i])
        invariant
            0 <= i <= v@.len(),
            ws_prefix_len(v@) == i + ws_prefix_len(v@.skip(i as int)),
            forall|k: int| 0 <= k < i ==> is_ws_char(v@[k]),
        decreases v@.len() - i,
    {
        proof {
            assert(v@.skip(i as int)[0] == v@[i as int]);
            assert(v@.skip(i as int).skip(1) =~= v@.skip(i + 1));
        }
        i = i + 1;
    }
    proof {
        if i < v@.len() {
            assert(v@.skip(i as int)[0] == v@[i as int]);
        }
        assert(ws_prefix_len(v@.skip(i as int)) == 0);
    }
    i
}

/// Length of the trailing whitespace run of `v`, as an executable scan.
pub fn ws_suffix(v: &[char]) -> (r: usize)
    ensures
        r == ws_suffix_len(v@),
{
    let mut i: usize = v.len();
    proof {
        assert(v@.take(v@.len() as int) =~= v@);
    }
    while i > 0 && is_ws(v[i - 1])
        invariant
            0 <= i <= v@.len(),
            ws_suffix_len(v@) == (v@.len() - i) + ws_suffix_len(v@.take(i as int)),
        decreases i,
    {
        proof {
            let t = v@.take(i as int);
            assert(t[t.len() - 1] == v@[i - 1]);
            assert(t.drop_last() =~= v@.take(i - 1));
        }
        i = i - 1;
    }
    proof {
        let t = v@.take(i as int);
        if i > 0 {
            assert(t[t.len() - 1] == v@[i - 1]);
        }
        assert(ws_suffix_len(t) == 0);
    }
    (v.len() - i) as usize
}

/// First index of `c` in `s`, if any.
pub open spec fn find_char_spec(s: Seq<char>, c: char) -> Option<int>
    decreases s.len(),
{
    if s.len() == 0 {
        None
    } else if s[0] == c {
        Some(0int)
    } else {
        match find_char_spec(s.skip(1), c) {
            Some(i) => Some(i + 1),
            None => None,
        }
    }
}

pub proof fn lemma_find_char_spec(s: Seq<char>, c: char)
    ensures
        match find_char_spec(s, c) {
            Some(i) => 0 <= i < s.len() && s[i] == c && forall|k: int| 0 <= k < i ==> s[k] != c,
            None => forall|k: int| 0 <= k < s.len() ==> s[k] != c,
        },
    decreases s.len(),
{
    if s.len() == 0 {
    } else if s[0] == c {
    } else {
        lemma_find_char_spec(s.skip(1), c);
        assert forall|k: int| 1 <= k < s.len() implies s.skip(1)[k - 1] == s[k] by {}
    }
}

pub fn find_char(v: &[char], c: char) -> (r: Option<usize>)
    ensures
        match r {
            Some(i) => find_char_spec(v@, c) == Some(i as int),
            None => find_char_spec(v@, c) is None,
        },
{
    proof {
        lemma_find_char_spec(v@, c);
    }
    let mut i: usize = 0;
    while i < v.len()
        invariant
            0 <= i <= v@.len(),
            forall|k: int| 0 <= k < i ==> v@[k] != c,
            match find_char_spec(v@, c) {
                Some(j) => 0 <= j < v@.len() && v@[j] == c && forall|k: int| 0 <= k < j ==> v@[k] != c,
                None => forall|k: int| 0 <= k < v@.len() ==> v@[k] != c,
            },
        decreases v@.len() - i,
    {
        if v[i] == c {
            return Some(i);
        }
        i = i + 1;
    }
    None
}

/// Converse of `lemma_find_char_spec`: a first occurrence pins the result.
pub proof fn lemma_find_char_witness(s: Seq<char>, c: char, j: int)
    requires
        0 <= j < s.len(),
        s[j] == c,
        forall|k: int| 0 <= k < j ==> s[k] != c,
    ensures
        find_char_spec(s, c) == Some(j),
    decreases s.len(),
{
    if j == 0 {
    } else {
        assert forall|k: int| 0 <= k < j - 1 implies s.skip(1)[k] != c by {
            assert(s.skip(1)[k] == s[k + 1]);
        }
        assert(s.skip(1)[j - 1] == s[j]);
        lemma_find_char_witness(s.skip(1), c, j - 1);
    }
}

/// `p` is a prefix of `s`.
pub open spec fn is_prefix_spec(p: Seq<char>, s: Seq<char>) -> bool {
    p.len() <= s.len() && s.subrange(0, p.len() as int) == p
}

/// Whether `pat` occurs in `v` starting at index `i`.
pub fn prefix_at(v: &[char], i: usize, pat: &str) -> (r: bool)
    requires
        i <= v@.len(),
    ensures
        r == is_prefix_spec(pat@, v@.skip(i as int)),
{
    let p = str_chars(pat);
    let vlen = v.len();
    let rest_len = vlen - i;
    if p.len() > rest_len {
        return false;
    }
    let mut k: usize = 0;
    while k < p.len()
        invariant
            0 <= k <= p@.len(),
            vlen == v@.len(),
            p@.len() <= vlen - i,
            i <= vlen,
            p@ == pat@,
            forall|m: int| 0 <= m < k ==> v@[i + m] == p@[m],
        decreases p@.len() - k,
    {
        proof {
            assert(i + k < vlen);
        }
        if v[i + k] != p[k] {
            proof {
                assert(v@.skip(i as int).subrange(0, p@.len() as int)[k as int] == v@[i + k]);
            }
            return false;
        }
        k = k + 1;
    }
    proof {
        assert(v@.skip(i as int).subrange(0, p@.len() as int) =~= p@);
    }
    true
}

/// Whether the characters of `v` are exactly those of `s`.
pub fn eq_chars_str(v: &[char], s: &str) -> (r: bool)
    ensures
        r == (v@ == s@),
{
    let p = str_chars(s);
    if v.len() != p.len() {
        proof {
            assert(v@.len() != s@.len());
        }
        return false;
    }
    let mut k: usize = 0;
    while k < p.len()
        invariant
            0 <= k <= p@.len(),
            v@.len() == p@.len(),
            p@ == s@,
            forall|m: int| 0 <= m < k ==> v@[m] == p@[m],
        decreases p@.len() - k,
    {
        if v[k] != p[k] {
            return false;
        }
        k = k + 1;
    }
    proof {
        assert(v@ =~= p@);
    }
    true
}

/// First index at which `p` occurs as a substring of `s`, if any.
pub open spec fn find_sub_spec(s: Seq<char>, p: Seq<char>) -> Option<int>
    decreases s.len(),
{
    if is_prefix_spec(p, s) {
        Some(0int)
    } else if s.len() == 0 {
        None
    } else {
        match find_sub_spec(s.skip(1), p) {
            Some(i) => Some(i + 1),
            None => None,
        }
    }
}

pub proof fn lemma_find_sub_spec(s: Seq<char>, p: Seq<char>)
    ensures
        match find_sub_spec(s, p) {
            Some(i) => 0 <= i <= s.len() - p.len() && is_prefix_spec(p, s.skip(i))
                && forall|k: int| 0 <= k < i ==> !is_prefix_spec(p, s.skip(k)),
            None => forall|k: int| 0 <= k <= s.len() ==> !is_prefix_spec(p, s.skip(k)),
        },
    decreases s.len(),
{
    if is_prefix_spec(p, s) {
        assert(s.skip(0) =~= s);
    } else if s.len() == 0 {
        assert forall|k: int| 0 <= k <= s.len() implies !is_prefix_spec(p, s.skip(k)) by {
            assert(s.skip(k) =~= s);
        }
    } else {
        lemma_find_sub_spec(s.skip(1), p);
        assert(s.skip(0) =~= s);
        assert forall|k: int| 1 <= k <= s.len() implies #[trigger] s.skip(k) =~= s.skip(1).skip(
            k - 1,
        ) by {}
    }
}

pub proof fn lemma_find_sub_witness(s: Seq<char>, p: Seq<char>, j: int)
    requires
        0 <= j <= s.len(),
        is_prefix_spec(p, s.skip(j)),
        forall|k: int| 0 <= k < j ==> !is_prefix_spec(p, s.skip(k)),
    ensures
        find_sub_spec(s, p) == Some(j),
    decreases j,
{
    if j == 0 {
        assert(s.skip(0) =~= s);
    } else {
        assert(s.skip(0) =~= s);
        assert(!is_prefix_spec(p, s));
        assert forall|k: int| 0 <= k < j - 1 implies !is_prefix_spec(
            p,
            #[trigger] s.skip(1).skip(k),
        ) by {
            assert(s.skip(1).skip(k) =~= s.skip(k + 1));
        }
        assert(s.skip(1).skip(j - 1) =~= s.skip(j));
        lemma_find_sub_witness(s.skip(1), p, j - 1);
    }
}

/// Find the first occurrence of `pat` in `v`.
pub fn find_sub(v: &[char], pat: &str) -> (r: Option<usize>)
    ensures
        match r {
            Some(i) => find_sub_spec(v@, pat@) == Some(i as int),
            None => find_sub_spec(v@, pat@) is None,
        },
{
    let mut i: usize = 0;
    while i < v.len()
        invariant
            0 <= i <= v@.len(),
            forall|k: int| 0 <= k < i ==> !is_prefix_spec(pat@, v@.skip(k)),
        decreases v@.len() - i,
    {
        if prefix_at(v, i, pat) {
            proof {
                lemma_find_sub_witness(v@, pat@, i as int);
            }
            return Some(i);
        }
        i = i + 1;
    }
    if prefix_at(v, v.len(), pat) {
        proof {
            lemma_find_sub_witness(v@, pat@, v@.len() as int);
        }
        return Some(v.len());
    }
    proof {
        lemma_find_sub_spec(v@, pat@);
        if find_sub_spec(v@, pat@) is Some {
            let j = find_sub_spec(v@, pat@)->Some_0;
            assert(!is_prefix_spec(pat@, v@.skip(j)));
        }
    }
    None
}

/// A line ending's optional carriage return, stripped.
pub open spec fn strip_cr(s: Seq<char>) -> Seq<char> {
    if s.len() > 0 && s[s.len() - 1] == '\r' {
        s.drop_last()
    } else {
        s
    }
}

/// The lines of a text, as `str::lines` yields them: split at `'\n'`,
/// a carriage return before the split is dropped, and a final empty
/// segment after a trailing newline is not a line.
pub open spec fn lines_spec(s: Seq<char>) -> Seq<Seq<char>>
    decreases s.len(),
    via lines_spec_dec
{
    if s.len() == 0 {
        Seq::empty()
    } else {
        match find_char_spec(s, '\n') {
            Some(i) => seq![strip_cr(s.take(i))] + lines_spec(s.skip(i + 1)),
            None => seq![s],
        }
    }
}

#[via_fn]
proof fn lines_spec_dec(s: Seq<char>) {
    lemma_find_char_spec(s, '\n');
}

/// The views of a vector of character vectors.
pub open spec fn views_of(s: Seq<Vec<char>>) -> Seq<Seq<char>> {
    s.map_values(|v: Vec<char>| v@)
}

/// The views of a vector of strings.
pub open spec fn strings_view(s: Seq<String>) -> Seq<Seq<char>> {
    s.map_values(|x: String| x@)
}

/// Split a text into its lines.
pub fn split_lines(content: &[char]) -> (r: Vec<Vec<char>>)
    ensures
        views_of(r@) == lines_spec(content@),
{
    let mut lines: Vec<Vec<char>> = Vec::new();
    let mut start: usize = 0;
    let mut i: usize = 0;
    proof {
        assert(content@.skip(0) =~= content@);
        assert(views_of(lines@) + lines_spec(content@.skip(0)) =~= lines_spec(content@));
    }
    while i < content.len()
        invariant
            0 <= start <= i <= content@.len(),
            forall|k: int| start <= k < i ==> content@[k] != '\n',
            views_of(lines@) + lines_spec(content@.skip(start as int)) =~= lines_spec(content@),
        decreases content@.len() - i,
    {
        if content[i] == '\n' {
            let ghost rest = content@.skip(start as int);
            proof {
                assert(rest[i - start] == content@[i as int]);
                assert forall|k: int| 0 <= k < i - start implies rest[k] != '\n' by {
                    assert(rest[k] == content@[start + k]);
                }
                lemma_find_char_witness(rest, '\n', i - start);
                assert(rest.take(i - start) =~= content@.subrange(start as int, i as int));
                assert(rest.skip(i - start + 1) =~= content@.skip(i + 1));
            }
            let mut piece: Vec<char> = vstd::slice::slice_to_vec(&content[start..i]);
            if piece.len() > 0 && piece[piece.len() - 1] == '\r' {
                piece.pop();
                proof {
                    assert(piece@ =~= strip_cr(content@.subrange(start as int, i as int)));
                }
            }
            proof {
                assert(piece@ == strip_cr(content@.subrange(start as int, i as int)));
            }
            lines.push(piece);
            proof {
                assert(views_of(lines@) =~= views_of(lines@.drop_last()) + seq![
                    lines@[lines@.len() - 1]@,
                ]);
            }
            start = i + 1;
        }
        i = i + 1;
    }
    if start < content.len() {
        let ghost rest = content@.skip(start as int);
        proof {
            lemma_find_char_spec(rest, '\n');
            if find_char_spec(rest, '\n') is Some {
                let j = find_char_spec(rest, '\n')->Some_0;
                assert(rest[j] == content@[start + j]);
            }
            assert(find_char_spec(rest, '\n') is None);
        }
        let piece: Vec<char> = vstd::slice::slice_to_vec(&content[start..content.len()]);
        proof {
            assert(piece@ =~= rest);
        }
        lines.push(piece);
        proof {
            assert(views_of(lines@) =~= views_of(lines@.drop_last()) + seq![
                lines@[lines@.len() - 1]@,
            ]);
            assert(lines_spec(rest) =~= seq![rest]);
        }
    } else {
        proof {
            assert(content@.skip(start as int) =~= Seq::<char>::empty());
        }
    }
    lines
}

/// A text has at most as many lines as characters.
pub proof fn lemma_lines_count_le(s: Seq<char>)
    ensures
        lines_spec(s).len() <= s.len(),
    decreases s.len(),
{
    if s.len() == 0 {
    } else {
        lemma_find_char_spec(s, '\n');
        match find_char_spec(s, '\n') {
            Some(j) => {
                lemma_lines_count_le(s.skip(j + 1));
            },
            None => {},
        }
    }
}

/// Every line is at most as long as the text it came from.
pub proof fn lemma_lines_len_le(s: Seq<char>)
    ensures
        forall|i: int|
            0 <= i < lines_spec(s).len() ==> #[trigger] lines_spec(s)[i].len() <= s.len(),
    decreases s.len(),
{
    if s.len() == 0 {
    } else {
        lemma_find_char_spec(s, '\n');
        match find_char_spec(s, '\n') {
            Some(j) => {
                lemma_lines_len_le(s.skip(j + 1));
                assert forall|i: int|
                    0 <= i < lines_spec(s).len() implies #[trigger] lines_spec(s)[i].len()
                    <= s.len() by {
                    if i == 0 {
                        assert(lines_spec(s)[0] == strip_cr(s.take(j)));
                        assert(s.take(j).len() <= s.len());
                    } else {
                        assert(lines_spec(s)[i] == lines_spec(s.skip(j + 1))[i - 1]);
                    }
                }
            },
            None => {},
        }
    }
}

/// The character for one decimal digit.
pub open spec fn digit_char(d: int) -> char {
    if d == 0 { '0' }
    else if d == 1 { '1' }
    else if d == 2 { '2' }
    else if d == 3 { '3' }
    else if d == 4 { '4' }
    else if d == 5 { '5' }
    else if d == 6 { '6' }
    else if d == 7 { '7' }
    else if d == 8 { '8' }
    else { '9' }
}

/// The decimal representation of a natural number, without leading zeros.
pub open spec fn dec_digits(n: nat) -> Seq<char>
    decreases n,
{
    if n < 10 {
        seq![digit_char(n as int)]
    } else {
        dec_digits(n / 10) + seq![digit_char((n % 10) as int)]
    }
}

fn digit_char_exec(d: u64) -> (r: char)
    requires
        d < 10,
    ensures
        r == digit_char(d as int),
{
    match d {
        0 => '0',
        1 => '1',
        2 => '2',
        3 => '3',
        4 => '4',
        5 => '5',
        6 => '6',
        7 => '7',
        8 => '8',
        _ => '9',
    }
}

/// Render a number in decimal.
pub fn u64_to_string(n: u64) -> (r: String)
    ensures
        r@ == dec_digits(n as nat),
{
    let mut digits: Vec<char> = Vec::new();
    let mut m: u64 = n;
    let c0 = digit_char_exec(m % 10);
    digits.push(c0);
    m = m / 10;
    proof {
        let nn = n as nat;
        if nn >= 10 {
            assert(dec_digits(nn) == dec_digits(nn / 10) + seq![digit_char((nn % 10) as int)]);
        } else {
            assert(dec_digits(nn) == seq![digit_char(nn as int)]);
        }
        assert(digits@ =~= seq![digit_char((nn % 10) as int)]);
    }
    while m > 0
        invariant
            m > 0 ==> dec_digits(n as nat) == dec_digits(m as nat) + digits@,
            m == 0 ==> dec_digits(n as nat) == digits@,
        decreases m,
    {
        let ghost prev = digits@;
        let ghost mm = m as nat;
        let c = digit_char_exec(m % 10);
        digits.insert(0, c);
        m = m / 10;
        proof {
            assert(digits@ =~= seq![digit_char((mm % 10) as int)] + prev);
            if mm >= 10 {
                assert(dec_digits(mm) == dec_digits(mm / 10) + seq![
                    digit_char((mm % 10) as int),
                ]);
                assert(dec_digits(mm / 10) + (seq![digit_char((mm % 10) as int)] + prev)
                    =~= (dec_digits(mm / 10) + seq![digit_char((mm % 10) as int)]) + prev);
            } else {
                assert(dec_digits(mm) == seq![digit_char(mm as int)]);
            }
        }
    }
    string_from_chars(digits.as_slice())
}

/// Render a signed number in decimal, with a minus sign when negative.
pub fn i64_to_string(v: i64) -> (r: String)
    ensures
        r@ == (if v >= 0 {
            dec_digits(v as nat)
        } else {
            "-"@ + dec_digits((-(v as int)) as nat)
        }),
{
    if v >= 0 {
        u64_to_string(v as u64)
    } else {
        let mut out = "-".to_owned();
        let mag: u64 = if v == i64::MIN {
            9223372036854775808u64
        } else {
            (-v) as u64
        };
        let d = u64_to_string(mag);
        out.append(d.as_str());
        out
    }
}

/// Render a `usize` in decimal.
pub fn usize_to_string(n: usize) -> (r: String)
    ensures
        r@ == dec_digits(n as nat),
{
    u64_to_string(n as u64)
}

/// Whether `c` occurs in `v`.
pub fn contains_char(v: &[char], c: char) -> (r: bool)
    ensures
        r == (find_char_spec(v@, c) is Some),
{
    match find_char(v, c) {
        Some(_) => true,
        None => false,
    }
}

/// Trim both ends of a character slice.
pub fn trim_slice<'a>(v: &'a [char]) -> (r: &'a [char])
    ensures
        r@ == trim_spec(v@),
{
    let vlen = v.len();
    let start = ws_prefix(v);
    proof {
        lemma_ws_prefix_le_len(v@);
    }
    let rest = &v[start..vlen];
    let suffix = ws_suffix(rest);
    proof {
        lemma_ws_suffix_le_len(rest@);
        assert(rest@ =~= trim_start_spec(v@));
    }
    let out = &v[start..vlen - suffix];
    proof {
        assert(out@ =~= trim_end_spec(trim_start_spec(v@)));
    }
    out
}

/// Trim only the start of a character slice.
pub fn trim_start_slice<'a>(v: &'a [char]) -> (r: &'a [char])
    ensures
        r@ == trim_start_spec(v@),
{
    let vlen = v.len();
    let start = ws_prefix(v);
    proof {
        lemma_ws_prefix_le_len(v@);
    }
    let out = &v[start..vlen];
    proof {
        assert(out@ =~= trim_start_spec(v@));
    }
    out
}

/// Trim only the end of a character slice.
pub fn trim_end_slice<'a>(v: &'a [char]) -> (r: &'a [char])
    ensures
        r@ == trim_end_spec(v@),
{
    let suffix = ws_suffix(v);
    proof {
        lemma_ws_suffix_le_len(v@);
    }
    let out = &v[0..v.len() - suffix];
    proof {
        assert(out@ =~= trim_end_spec(v@));
    }
    out
}

/// A decimal digit.
pub open spec fn is_digit_char(c: char) -> bool {
    48 <= (c as u32) && (c as u32) <= 57
}

/// The numeric value of a decimal digit character.
pub open spec fn digit_val(c: char) -> int {
    (c as u32) as int - 48
}

/// All characters of `s` are decimal digits.
pub open spec fn all_digits(s: Seq<char>) -> bool {
    forall|i: int| 0 <= i < s.len() ==> is_digit_char(#[trigger] s[i])
}

/// The value of a string of decimal digits.
pub open spec fn digits_val(s: Seq<char>) -> int
    decreases s.len(),
{
    if s.len() == 0 {
        0
    } else {
        digits_val(s.drop_last()) * 10 + digit_val(s[s.len() - 1])
    }
}

pub proof fn lemma_digits_val_nonneg(s: Seq<char>)
    requires
        all_digits(s),
    ensures
        digits_val(s) >= 0,
    decreases s.len(),
{
    if s.len() > 0 {
        assert(all_digits(s.drop_last())) by {
            assert(forall|i: int|
                0 <= i < s.len() - 1 ==> s.drop_last()[i] == #[trigger] s[i]);
        }
        lemma_digits_val_nonneg(s.drop_last());
    }
}

pub proof fn lemma_digits_val_prefix_le(s: Seq<char>, k: int)
    requires
        all_digits(s),
        0 <= k <= s.len(),
    ensures
        digits_val(s.take(k)) <= digits_val(s),
    decreases s.len() - k,
{
    if k == s.len() {
        assert(s.take(k) =~= s);
    } else {
        assert(all_digits(s.take(k + 1))) by {
            assert(forall|i: int| 0 <= i < k + 1 ==> s.take(k + 1)[i] == #[trigger] s[i]);
        }
        assert(s.take(k + 1).drop_last() =~= s.take(k));
        assert(digits_val(s.take(k + 1)) == digits_val(s.take(k)) * 10 + digit_val(s[k]));
        lemma_digits_val_nonneg(s.take(k));
        assert(digit_val(s[k]) >= 0);
        lemma_digits_val_prefix_le(s, k + 1);
    }
}

/// Parse an unbroken run of decimal digits, as the digits of an unsigned
/// number; `None` when empty, when a non-digit occurs, or on overflow past
/// `u64::MAX`.
pub open spec fn parse_digits_spec(t: Seq<char>) -> Option<int> {
    if t.len() > 0 && all_digits(t) && digits_val(t) <= u64::MAX as int {
        Some(digits_val(t))
    } else {
        None
    }
}

pub fn parse_digits(t: &[char]) -> (r: Option<u64>)
    ensures
        match r {
            Some(x) => parse_digits_spec(t@) == Some(x as int),
            None => parse_digits_spec(t@) is None,
        },
{
    let tlen = t.len();
    if tlen == 0 {
        return None;
    }
    let mut acc: u64 = 0;
    let mut i: usize = 0;
    proof {
        assert(t@.take(0) =~= Seq::<char>::empty());
    }
    while i < tlen
        invariant
            0 <= i <= tlen,
            tlen == t@.len(),
            all_digits(t@.take(i as int)),
            acc as int == digits_val(t@.take(i as int)),
        decreases tlen - i,
    {
        let c = t[i];
        let code: u32 = c as u32;
        if code < 48 || code > 57 {
            proof {
                assert(!is_digit_char(t@[i as int]));
            }
            return None;
        }
        let d: u64 = ((code - 48) as u64);
        if acc > (u64::MAX - d) / 10 {
            proof {
                assert forall|m: int| 0 <= m < i + 1 implies is_digit_char(
                    #[trigger] t@.take(i + 1)[m],
                ) by {
                    assert(t@.take(i + 1)[m] == t@[m]);
                    if m < i {
                        assert(t@.take(i as int)[m] == t@[m]);
                    }
                }
                assert(t@.take(i + 1).drop_last() =~= t@.take(i as int));
                assert(digits_val(t@.take(i + 1)) == acc as int * 10 + d as int);
                assert(acc as int * 10 + d > u64::MAX as int) by (nonlinear_arith)
                    requires
                        acc > (u64::MAX - d) / 10,
                        d <= 9,
                ;
                if all_digits(t@) {
                    lemma_digits_val_prefix_le(t@, i + 1);
                }
            }
            return None;
        }
        proof {
            assert(acc * 10 + d <= u64::MAX) by (nonlinear_arith)
                requires
                    acc <= (u64::MAX - d) / 10,
                    d <= 9,
            ;
            assert forall|m: int| 0 <= m < i + 1 implies is_digit_char(
                #[trigger] t@.take(i + 1)[m],
            ) by {
                assert(t@.take(i + 1)[m] == t@[m]);
                if m < i {
                    assert(t@.take(i as int)[m] == t@[m]);
                }
            }
            assert(t@.take(i + 1).drop_last() =~= t@.take(i as int));
        }
        acc = acc * 10 + d;
        i = i + 1;
    }
    proof {
        assert(t@.take(tlen as int) =~= t@);
    }
    Some(acc)
}

/// `u64::from_str`: an optional `+`, then one or more digits, within range.
pub open spec fn parse_u64_spec(s: Seq<char>) -> Option<int> {
    if s.len() > 0 && s[0] == '+' {
        parse_digits_spec(s.skip(1))
    } else {
        parse_digits_spec(s)
    }
}

pub fn parse_u64(v: &[char]) -> (r: Option<u64>)
    ensures
        match r {
            Some(x) => parse_u64_spec(v@) == Some(x as int),
            None => parse_u64_spec(v@) is None,
        },
{
    let vlen = v.len();
    if vlen > 0 && v[0] == '+' {
        parse_digits(&v[1..vlen])
    } else {
        parse_digits(v)
    }
}

/// `usize::from_str`, stated over `parse_u64_spec` with the platform bound.
pub fn parse_usize(v: &[char]) -> (r: Option<usize>)
    ensures
        match r {
            Some(x) => parse_u64_spec(v@) == Some(x as int) && x as int <= usize::MAX as int,
            None => parse_u64_spec(v@) is None || (parse_u64_spec(v@) matches Some(x) && x
                > usize::MAX as int),
        },
{
    match parse_u64(v) {
        Some(x) => {
            if x <= usize::MAX as u64 {
                Some(x as usize)
            } else {
                None
            }
        },
        None => None,
    }
}

/// `i64::from_str`: an optional sign, then one or more digits, within range.
pub open spec fn parse_i64_spec(s: Seq<char>) -> Option<int> {
    let neg = s.len() > 0 && s[0] == '-';
    let t = if s.len() > 0 && (s[0] == '-' || s[0] == '+') {
        s.skip(1)
    } else {
        s
    };
    if t.len() > 0 && all_digits(t) {
        let x = if neg {
            -digits_val(t)
        } else {
            digits_val(t)
        };
        if i64::MIN as int <= x <= i64::MAX as int {
            Some(x)
        } else {
            None
        }
    } else {
        None
    }
}

pub fn parse_i64(v: &[char]) -> (r: Option<i64>)
    ensures
        match r {
            Some(x) => parse_i64_spec(v@) == Some(x as int),
            None => parse_i64_spec(v@) is None,
        },
{
    let vlen = v.len();
    if vlen > 0 && v[0] == '-' {
        let rest = &v[1..vlen];
        match parse_digits(rest) {
            Some(x) => {
                if x <= 9223372036854775807u64 {
                    Some(-(x as i64))
                } else if x == 9223372036854775808u64 {
                    Some(i64::MIN)
                } else {
                    None
                }
            },
            None => {
                proof {
                    if rest@.len() > 0 && all_digits(rest@) {
                        lemma_digits_val_nonneg(rest@);
                        assert(digits_val(rest@) > u64::MAX as int);
                    }
                }
                None
            },
        }
    } else if vlen > 0 && v[0] == '+' {
        let rest = &v[1..vlen];
        match parse_digits(rest) {
            Some(x) => {
                if x <= 9223372036854775807u64 {
                    Some(x as i64)
                } else {
                    None
                }
            },
            None => {
                proof {
                    if rest@.len() > 0 && all_digits(rest@) {
                        lemma_digits_val_nonneg(rest@);
                        assert(digits_val(rest@) > u64::MAX as int);
                    }
                }
                None
            },
        }
    } else {
        match parse_digits(v) {
            Some(x) => {
                if x <= 9223372036854775807u64 {
                    Some(x as i64)
                } else {
                    None
                }
            },
            None => {
                proof {
                    if v@.len() > 0 && all_digits(v@) {
                        lemma_digits_val_nonneg(v@);
                        assert(digits_val(v@) > u64::MAX as int);
                    }
                }
                None
            },
        }
    }
}

/// The number of occurrences of `c` in `s`.
pub open spec fn count_char(s: Seq<char>, c: char) -> int
    decreases s.len(),
{
    if s.len() == 0 {
        0
    } else {
        (if s[0] == c {
            1int
        } else {
            0int
        }) + count_char(s.skip(1), c)
    }
}

/// Count the occurrences of `c` in `v`.
pub fn count_char_occurrences(v: &[char], c: char) -> (r: usize)
    ensures
        r == count_char(v@, c),
{
    let n = v.len();
    let mut count: usize = 0;
    let mut i: usize = 0;
    proof {
        assert(v@.skip(0) =~= v@);
        lemma_count_char_bound(v@, c);
    }
    while i < n
        invariant
            0 <= i <= n,
            n == v@.len(),
            count <= i,
            count + count_char(v@.skip(i as int), c) == count_char(v@, c),
        decreases n - i,
    {
        proof {
            assert(v@.skip(i as int)[0] == v@[i as int]);
            assert(v@.skip(i as int).skip(1) =~= v@.skip(i + 1));
        }
        if v[i] == c {
            count = count + 1;
        }
        i = i + 1;
    }
    proof {
        assert(count_char(v@.skip(i as int), c) == 0);
    }
    count
}

pub proof fn lemma_count_char_bound(s: Seq<char>, c: char)
    ensures
        0 <= count_char(s, c) <= s.len(),
    decreases s.len(),
{
    if s.len() > 0 {
        lemma_count_char_bound(s.skip(1), c);
    }
}

/// All occurrences of `pat` replaced by `rep`, left to right and without
/// overlap; an empty pattern replaces nothing.
pub open spec fn replace_all_spec(s: Seq<char>, pat: Seq<char>, rep: Seq<char>) -> Seq<char>
    decreases s.len(),
    via replace_all_spec_dec
{
    if pat.len() == 0 {
        s
    } else {
        match find_sub_spec(s, pat) {
            Some(i) => s.take(i) + rep + replace_all_spec(s.skip(i + pat.len()), pat, rep),
            None => s,
        }
    }
}

#[via_fn]
proof fn replace_all_spec_dec(s: Seq<char>, pat: Seq<char>, rep: Seq<char>) {
    lemma_find_sub_spec(s, pat);
}

/// Replace every occurrence of `pat` in `v` by `rep`.
pub fn replace_all(v: &[char], pat: &str, rep: &str) -> (r: Vec<char>)
    ensures
        r@ == replace_all_spec(v@, pat@, rep@),
    decreases v@.len(),
{
    let patc = str_chars(pat);
    if patc.len() == 0 {
        return vstd::slice::slice_to_vec(v);
    }
    let vlen = v.len();
    match find_sub(v, pat) {
        Some(i) => {
            proof {
                lemma_find_sub_spec(v@, pat@);
            }
            let mut out: Vec<char> = vstd::slice::slice_to_vec(&v[0..i]);
            proof {
                assert(out@ =~= v@.take(i as int));
            }
            let repc = str_chars(rep);
            let ghost outpre = out@;
            let mut repv = repc;
            out.append(&mut repv);
            let restsub = &v[i + patc.len()..vlen];
            proof {
                assert(restsub@ =~= v@.skip(i + pat@.len()));
            }
            let mut rest = replace_all(restsub, pat, rep);
            let ghost outmid = out@;
            let ghost restv = rest@;
            out.append(&mut rest);
            proof {
                assert(out@ =~= (v@.take(i as int) + rep@) + restv);
                assert(v@.take(i as int) + rep@ + replace_all_spec(
                    v@.skip(i + pat@.len()),
                    pat@,
                    rep@,
                ) =~= (v@.take(i as int) + rep@) + replace_all_spec(
                    v@.skip(i + pat@.len()),
                    pat@,
                    rep@,
                ));
            }
            out
        },
        None => vstd::slice::slice_to_vec(v),
    }
}

/// Length of the digit run at the front of `s`.
pub open spec fn digit_run_len(s: Seq<char>) -> int
    decreases s.len(),
{
    if s.len() == 0 || !is_digit_char(s[0]) {
        0
    } else {
        1 + digit_run_len(s.skip(1))
    }
}

/// Whether `c` is a decimal digit.
pub fn is_digit(c: char) -> (r: bool)
    ensures
        r == is_digit_char(c),
{
    let code: u32 = c as u32;
    48 <= code && code <= 57
}

/// Length of the digit run of `v` starting at `i`.
pub fn digit_run(v: &[char], i: usize) -> (r: usize)
    requires
        i <= v@.len(),
    ensures
        r == digit_run_len(v@.skip(i as int)),
        i + r <= v@.len(),
{
    let vlen = v.len();
    let mut k: usize = i;
    proof {
        assert(v@.skip(i as int).skip(0) =~= v@.skip(i as int));
    }
    while k < vlen && is_digit(v[k])
        invariant
            i <= k <= vlen,
            vlen == v@.len(),
            digit_run_len(v@.skip(i as int)) == (k - i) + digit_run_len(v@.skip(k as int)),
        decreases vlen - k,
    {
        proof {
            assert(v@.skip(k as int)[0] == v@[k as int]);
            assert(v@.skip(k as int).skip(1) =~= v@.skip(k + 1));
        }
        k = k + 1;
    }
    proof {
        if k < vlen {
            assert(v@.skip(k as int)[0] == v@[k as int]);
        }
        assert(digit_run_len(v@.skip(k as int)) == 0);
    }
    k - i
}

/// ASCII letters folded to lower case.
pub open spec fn lower_char(c: char) -> char {
    if c == 'A' { 'a' } else if c == 'B' { 'b' } else if c == 'C' { 'c' }
    else if c == 'D' { 'd' } else if c == 'E' { 'e' } else if c == 'F' { 'f' }
    else if c == 'G' { 'g' } else if c == 'H' { 'h' } else if c == 'I' { 'i' }
    else if c == 'J' { 'j' } else if c == 'K' { 'k' } else if c == 'L' { 'l' }
    else if c == 'M' { 'm' } else if c == 'N' { 'n' } else if c == 'O' { 'o' }
    else if c == 'P' { 'p' } else if c == 'Q' { 'q' } else if c == 'R' { 'r' }
    else if c == 'S' { 's' } else if c == 'T' { 't' } else if c == 'U' { 'u' }
    else if c == 'V' { 'v' } else if c == 'W' { 'w' } else if c == 'X' { 'x' }
    else if c == 'Y' { 'y' } else if c == 'Z' { 'z' } else { c }
}

/// Case-insensitive ASCII equality with a literal.
pub open spec fn eq_icase(s: Seq<char>, lit: Seq<char>) -> bool {
    s.len() == lit.len() && forall|i: int| 0 <= i < s.len() ==> lower_char(#[trigger] s[i]) == lit[i]
}

fn to_lower(c: char) -> (r: char)
    ensures
        r == lower_char(c),
{
    match c {
        'A' => 'a', 'B' => 'b', 'C' => 'c', 'D' => 'd', 'E' => 'e', 'F' => 'f',
        'G' => 'g', 'H' => 'h', 'I' => 'i', 'J' => 'j', 'K' => 'k', 'L' => 'l',
        'M' => 'm', 'N' => 'n', 'O' => 'o', 'P' => 'p', 'Q' => 'q', 'R' => 'r',
        'S' => 's', 'T' => 't', 'U' => 'u', 'V' => 'v', 'W' => 'w', 'X' => 'x',
        'Y' => 'y', 'Z' => 'z', _ => c,
    }
}

/// Whether `v` equals an ASCII-lower-case literal, ignoring ASCII case.
pub fn eq_ignore_case(v: &[char], lit: &str) -> (r: bool)
    ensures
        r == eq_icase(v@, lit@),
{
    let litc = str_chars(lit);
    if v.len() != litc.len() {
        return false;
    }
    let n = v.len();
    let mut i: usize = 0;
    while i < n
        invariant
            0 <= i <= n,
            n == v@.len(),
            n == litc@.len(),
            litc@ == lit@,
            forall|k: int| 0 <= k < i ==> lower_char(#[trigger] v@[k]) == lit@[k],
        decreases n - i,
    {
        let lc = to_lower(v[i]);
        if lc != litc[i] {
            return false;
        }
        i = i + 1;
    }
    true
}

/// The exponent part of a decimal float: `e` or `E`, an optional sign, then
/// one or more digits to the end.
pub open spec fn f64_exp_ok(e: Seq<char>) -> bool {
    e.len() >= 2 && (e[0] == 'e' || e[0] == 'E') && {
        let r = if e[1] == '+' || e[1] == '-' {
            e.skip(2)
        } else {
            e.skip(1)
        };
        r.len() >= 1 && digit_run_len(r) == r.len()
    }
}

/// A decimal float body: digits with an optional point and exponent.
pub open spec fn f64_number(t: Seq<char>) -> bool {
    let d1 = digit_run_len(t);
    if d1 == t.len() {
        d1 >= 1
    } else if t[d1] == '.' {
        let d2 = digit_run_len(t.skip(d1 + 1));
        let pos = d1 + 1 + d2;
        d1 + d2 >= 1 && (pos == t.len() || f64_exp_ok(t.skip(pos)))
    } else {
        d1 >= 1 && f64_exp_ok(t.skip(d1))
    }
}

/// What `f64::from_str` accepts: an optional sign, then `inf`, `infinity`,
/// `nan` (ignoring case) or a decimal number.
pub open spec fn is_f64_str(s: Seq<char>) -> bool {
    let t = if s.len() > 0 && (s[0] == '+' || s[0] == '-') {
        s.skip(1)
    } else {
        s
    };
    eq_icase(t, "inf"@) || eq_icase(t, "infinity"@) || eq_icase(t, "nan"@) || f64_number(t)
}

/// Whether `v` would parse as a floating-point number.
pub fn is_f64_literal(v: &[char]) -> (r: bool)
    ensures
        r == is_f64_str(v@),
{
    let vlen = v.len();
    let t: &[char] = if vlen > 0 && (v[0] == '+' || v[0] == '-') {
        let s = &v[1..vlen];
        proof {
            assert(s@ =~= v@.skip(1));
        }
        s
    } else {
        v
    };
    if eq_ignore_case(t, "inf") || eq_ignore_case(t, "infinity") || eq_ignore_case(t, "nan") {
        return true;
    }
    let tlen = t.len();
    let d1 = digit_run(t, 0);
    proof {
        assert(t@.skip(0) =~= t@);
    }
    if d1 == tlen {
        return d1 >= 1;
    }
    if t[d1] == '.' {
        let d2 = digit_run(t, d1 + 1);
        let pos = d1 + 1 + d2;
        if d1 + d2 < 1 {
            return false;
        }
        if pos == tlen {
            return true;
        }
        let esub = &t[pos..tlen];
        proof {
            assert(esub@ =~= t@.skip(pos as int));
        }
        return exp_check(esub);
    }
    if d1 < 1 {
        return false;
    }
    let esub = &t[d1..tlen];
    proof {
        assert(esub@ =~= t@.skip(d1 as int));
    }
    exp_check(esub)
}

fn exp_check(e: &[char]) -> (r: bool)
    ensures
        r == f64_exp_ok(e@),
{
    let elen = e.len();
    if elen < 2 {
        return false;
    }
    if e[0] != 'e' && e[0] != 'E' {
        return false;
    }
    let start: usize = if e[1] == '+' || e[1] == '-' {
        2
    } else {
        1
    };
    let run = digit_run(e, start);
    proof {
        assert((if e@[1] == '+' || e@[1] == '-' {
            e@.skip(2)
        } else {
            e@.skip(1)
        }).len() == elen - start);
        assert(e@.skip(start as int) =~= (if e@[1] == '+' || e@[1] == '-' {
            e@.skip(2)
        } else {
            e@.skip(1)
        }));
    }
    elen - start >= 1 && start + run == elen
}

/// Strict lexicographic order on character sequences, by code point.
pub open spec fn lex_lt(a: Seq<char>, b: Seq<char>) -> bool
    decreases a.len(),
{
    if b.len() == 0 {
        false
    } else if a.len() == 0 {
        true
    } else if (a[0] as u32) < (b[0] as u32) {
        true
    } else if a[0] == b[0] {
        lex_lt(a.skip(1), b.skip(1))
    } else {
        false
    }
}

/// Whether `a` orders strictly before `b`.
pub fn chars_lt(a: &[char], b: &[char]) -> (r: bool)
    ensures
        r == lex_lt(a@, b@),
{
    let alen = a.len();
    let blen = b.len();
    let mut i: usize = 0;
    proof {
        assert(a@.skip(0) =~= a@);
        assert(b@.skip(0) =~= b@);
    }
    while i < alen && i < blen
        invariant
            0 <= i,
            i <= alen,
            i <= blen,
            alen == a@.len(),
            blen == b@.len(),
            lex_lt(a@, b@) == lex_lt(a@.skip(i as int), b@.skip(i as int)),
            forall|k: int| 0 <= k < i ==> a@[k] == b@[k],
        decreases alen - i,
    {
        let ca = a[i];
        let cb = b[i];
        proof {
            assert(a@.skip(i as int)[0] == a@[i as int]);
            assert(b@.skip(i as int)[0] == b@[i as int]);
            assert(a@.skip(i as int).skip(1) =~= a@.skip(i + 1));
            assert(b@.skip(i as int).skip(1) =~= b@.skip(i + 1));
        }
        if (ca as u32) < (cb as u32) {
            return true;
        }
        if ca != cb {
            return false;
        }
        i = i + 1;
    }
    proof {
        assert(a@.skip(i as int).len() == alen - i);
        assert(b@.skip(i as int).len() == blen - i);
    }
    i >= alen && i < blen
}

/// `bool::from_str`: exactly `true` or `false`.
pub open spec fn parse_bool_spec(s: Seq<char>) -> Option<bool> {
    if s == "true"@ {
        Some(true)
    } else if s == "false"@ {
        Some(false)
    } else {
        None
    }
}

pub fn parse_bool(v: &[char]) -> (r: Option<bool>)
    ensures
        match r {
            Some(b) => parse_bool_spec(v@) == Some(b),
            None => parse_bool_spec(v@) is None,
        },
{
    if eq_chars_str(v, "true") {
        Some(true)
    } else if eq_chars_str(v, "false") {
        Some(false)
    } else {
        None
    }
}

} // verus!
