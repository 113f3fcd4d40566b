//! The directive grammar: `# yl:<verb>[ <args>]`, parsed out of YAML comments.
//!
//! A directive may stand anywhere in a comment; the first position where the
//! head `#`, optional whitespace, `yl:` and a known verb line up decides the
//! parse. A verb counts only as a whole word — it must end at whitespace or
//! at the end of the comment — and verbs are tried in a fixed order, so
//! `disable-line` is recognized before `disable`.

use vstd::prelude::*;
use crate::chars::{
    find_char, find_char_spec, is_prefix_spec, is_ws, is_ws_char, lemma_find_char_spec, prefix_at,
    str_chars, str_eq, string_from_chars, strings_view, trim_slice, trim_spec, ws_prefix,
    ws_prefix_len,
};

verus! {

/// Scope of a directive's effect.
#[derive(Debug, Clone, PartialEq, Eq, Structural)]
pub enum Scope {
    /// Current line only.
    Line,
    /// Until the next directive or the end of the current block.
    Block,
    /// Until the end of the current YAML section.
    Section,
    /// The rest of the file.
    File,
}

/// An association list of string keys to string values, in insertion order.
pub type StrMapV = Seq<(Seq<char>, Seq<char>)>;

/// First value bound to `k`, if any.
pub open spec fn smap_get(s: StrMapV, k: Seq<char>) -> Option<Seq<char>>
    decreases s.len(),
{
    if s.len() == 0 {
        None
    } else if s[0].0 == k {
        Some(s[0].1)
    } else {
        smap_get(s.skip(1), k)
    }
}

/// Bind `k` to `v`: replace the first binding of `k`, or append one.
pub open spec fn smap_set(s: StrMapV, k: Seq<char>, v: Seq<char>) -> StrMapV
    decreases s.len(),
{
    if s.len() == 0 {
        seq![(k, v)]
    } else if s[0].0 == k {
        seq![(k, v)] + s.skip(1)
    } else {
        seq![s[0]] + smap_set(s.skip(1), k, v)
    }
}

/// Named string parameters of a directive, in insertion order.
#[derive(Debug, Clone, PartialEq)]
pub struct ParamMap {
    pub entries: Vec<(String, String)>,
}

impl View for ParamMap {
    type V = StrMapV;

    open spec fn view(&self) -> StrMapV {
        Seq::new(self.entries@.len(), |i: int| (self.entries@[i].0@, self.entries@[i].1@))
    }
}

impl ParamMap {
    /// An empty parameter map.
    pub fn new() -> (r: ParamMap)
        ensures
            r@ == Seq::<(Seq<char>, Seq<char>)>::empty(),
    {
        let r = ParamMap { entries: Vec::new() };
        proof {
            assert(r@ =~= Seq::<(Seq<char>, Seq<char>)>::empty());
        }
        r
    }

    /// The number of parameters.
    pub fn len(&self) -> (r: usize)
        ensures
            r == self@.len(),
    {
        self.entries.len()
    }

    /// Whether no parameter is present.
    pub fn is_empty(&self) -> (r: bool)
        ensures
            r == (self@.len() == 0),
    {
        self.entries.is_empty()
    }

    /// Look a parameter up by name.
    pub fn get(&self, key: &str) -> (r: Option<&String>)
        ensures
            match r {
                Some(v) => smap_get(self@, key@) == Some(v@),
                None => smap_get(self@, key@) is None,
            },
    {
        let n = self.entries.len();
        let mut i: usize = 0;
        proof {
            assert(self@.skip(0) =~= self@);
        }
        while i < n
            invariant
                0 <= i <= n,
                n == self.entries@.len(),
                smap_get(self@, key@) == smap_get(self@.skip(i as int), key@),
            decreases n - i,
        {
            let hit = str_eq(self.entries[i].0.as_str(), key);
            proof {
                assert(self@.skip(i as int)[0] == self@[i as int]);
                assert(self@.skip(i as int).skip(1) =~= self@.skip(i + 1));
            }
            if hit {
                return Some(&self.entries[i].1);
            }
            i = i + 1;
        }
        None
    }

    /// Bind a parameter, replacing any earlier value under the same name.
    pub fn insert(&mut self, key: String, value: String)
        ensures
            final(self)@ == smap_set(old(self)@, key@, value@),
    {
        let ghost kseq = key@;
        let ghost vseq = value@;
        let ghost orig = self@;
        let n = self.entries.len();
        let mut i: usize = 0;
        while i < n
            invariant
                0 <= i <= n,
                kseq == key@,
                vseq == value@,
                self@ == orig,
                orig == old(self)@,
                n == self.entries@.len(),
                forall|k: int| 0 <= k < i ==> #[trigger] orig[k].0 != kseq,
            decreases n - i,
        {
            let hit = str_eq(self.entries[i].0.as_str(), key.as_str());
            proof {
                assert(orig[i as int] == (self.entries@[i as int].0@, self.entries@[i as int].1@));
            }
            if hit {
                proof {
                    assert(orig[i as int].0 == kseq);
                }
                self.entries.set(i, (key, value));
                proof {
                    assert(self@ =~~= orig.update(i as int, (kseq, vseq)));
                    lemma_smap_set_at(orig, kseq, vseq, i as int);
                }
                return ;
            }
            proof {
                assert(orig[i as int].0 != kseq);
            }
            i = i + 1;
        }
        self.entries.push((key, value));
        proof {
            lemma_smap_set_absent(orig, kseq, vseq);
            assert(self@ =~~= orig + seq![(kseq, vseq)]);
        }
    }
}

/// When the first binding of `k` is at index `i`, `smap_set` replaces it in
/// place.
proof fn lemma_smap_set_at(s: StrMapV, k: Seq<char>, v: Seq<char>, i: int)
    requires
        0 <= i < s.len(),
        s[i].0 == k,
        forall|m: int| 0 <= m < i ==> #[trigger] s[m].0 != k,
    ensures
        smap_set(s, k, v) == s.update(i, (k, v)),
    decreases i,
{
    if i == 0 {
        assert(seq![(k, v)] + s.skip(1) =~= s.update(0, (k, v)));
    } else {
        assert(s.skip(1)[i - 1].0 == s[i].0);
        assert forall|m: int| 0 <= m < i - 1 implies #[trigger] s.skip(1)[m].0 != k by {
            assert(s.skip(1)[m] == s[m + 1]);
        }
        lemma_smap_set_at(s.skip(1), k, v, i - 1);
        assert(seq![s[0]] + s.skip(1).update(i - 1, (k, v)) =~= s.update(i, (k, v)));
    }
}

/// When `k` is unbound, `smap_set` appends.
proof fn lemma_smap_set_absent(s: StrMapV, k: Seq<char>, v: Seq<char>)
    requires
        forall|m: int| 0 <= m < s.len() ==> #[trigger] s[m].0 != k,
    ensures
        smap_set(s, k, v) == s + seq![(k, v)],
    decreases s.len(),
{
    if s.len() == 0 {
        assert(smap_set(s, k, v) =~= s + seq![(k, v)]);
    } else {
        assert forall|m: int| 0 <= m < s.skip(1).len() implies #[trigger] s.skip(1)[m].0
            != k by {
            assert(s.skip(1)[m] == s[m + 1]);
        }
        lemma_smap_set_absent(s.skip(1), k, v);
        assert(seq![s[0]] + (s.skip(1) + seq![(k, v)]) =~= s + seq![(k, v)]);
    }
}

/// The mathematical value of a `Directive`.
pub ghost enum DirectiveV {
    Disable { rules: Seq<Seq<char>>, scope: Scope },
    DisableLine { rules: Seq<Seq<char>> },
    SetParam { rule: Seq<char>, params: StrMapV },
    Config { rule: Seq<char>, params: StrMapV },
    IgnoreFile,
    IgnoreSection { rules: Seq<Seq<char>> },
    Enable { rules: Seq<Seq<char>>, scope: Scope },
}

/// A parsed comment directive.
#[derive(Debug, Clone, PartialEq)]
pub enum Directive {
    /// Disable rules with the given scope.
    Disable { rules: Vec<String>, scope: Scope },
    /// Disable rules for the current line only.
    DisableLine { rules: Vec<String> },
    /// Set rule parameters.
    SetParam { rule: String, params: ParamMap },
    /// Configure a rule with parameters.
    Config { rule: String, params: ParamMap },
    /// Ignore the entire file.
    IgnoreFile,
    /// Ignore rules for the current YAML section.
    IgnoreSection { rules: Vec<String> },
    /// Enable previously disabled rules.
    Enable { rules: Vec<String>, scope: Scope },
}

impl View for Directive {
    type V = DirectiveV;

    open spec fn view(&self) -> DirectiveV {
        match self {
            Directive::Disable { rules, scope } => DirectiveV::Disable {
                rules: strings_view(rules@),
                scope: *scope,
            },
            Directive::DisableLine { rules } => DirectiveV::DisableLine {
                rules: strings_view(rules@),
            },
            Directive::SetParam { rule, params } => DirectiveV::SetParam { rule: rule@, params: params@ },
            Directive::Config { rule, params } => DirectiveV::Config {
                rule: rule@,
                params: params@,
            },
            Directive::IgnoreFile => DirectiveV::IgnoreFile,
            Directive::IgnoreSection { rules } => DirectiveV::IgnoreSection {
                rules: strings_view(rules@),
            },
            Directive::Enable { rules, scope } => DirectiveV::Enable {
                rules: strings_view(rules@),
                scope: *scope,
            },
        }
    }
}

/// A malformed directive: a `set` without the `rule.param=value` shape.
#[derive(Debug, Clone, PartialEq)]
pub struct DirectiveParseError {
    pub message: String,
}

/// An identifier character of the directive grammar: letters, digits,
/// underscore or hyphen.
pub open spec fn is_ident_char(c: char) -> bool {
    (97 <= (c as u32) && (c as u32) <= 122) || (65 <= (c as u32) && (c as u32) <= 90) || (48 <= (
    c as u32) && (c as u32) <= 57) || c == '_' || c == '-'
}

/// Length of the identifier run at the front of `s`.
pub open spec fn ident_run_len(s: Seq<char>) -> int
    decreases s.len(),
{
    if s.len() == 0 || !is_ident_char(s[0]) {
        0
    } else {
        1 + ident_run_len(s.skip(1))
    }
}

/// A character allowed in a `set` value: anything but whitespace or a comma.
pub open spec fn is_value_char(c: char) -> bool {
    !is_ws_char(c) && c != ','
}

/// Length of the value-character run at the front of `s`.
pub open spec fn value_run_len(s: Seq<char>) -> int
    decreases s.len(),
{
    if s.len() == 0 || !is_value_char(s[0]) {
        0
    } else {
        1 + value_run_len(s.skip(1))
    }
}

/// Whether position `k` ends a word: the end of the text, or whitespace.
pub open spec fn delimited(s: Seq<char>, k: int) -> bool {
    k >= s.len() || is_ws_char(s[k])
}

/// Whether `v` stands at `j` as a whole word.
pub open spec fn verb_word_at(s: Seq<char>, j: int, v: Seq<char>) -> bool {
    is_prefix_spec(v, s.skip(j)) && delimited(s, j + v.len())
}

/// The directive verbs, in the order in which they are tried; a verb counts
/// only when it ends at whitespace or at the end of the comment, so an
/// unrecognized word yields no directive.
pub open spec fn verb_at(s: Seq<char>, j: int) -> Option<Seq<char>> {
    if verb_word_at(s, j, "disable-line"@) {
        Some("disable-line"@)
    } else if verb_word_at(s, j, "ignore-file"@) {
        Some("ignore-file"@)
    } else if verb_word_at(s, j, "ignore-section"@) {
        Some("ignore-section"@)
    } else if verb_word_at(s, j, "disable"@) {
        Some("disable"@)
    } else if verb_word_at(s, j, "enable"@) {
        Some("enable"@)
    } else if verb_word_at(s, j, "config"@) {
        Some("config"@)
    } else if verb_word_at(s, j, "set"@) {
        Some("set"@)
    } else {
        None
    }
}

/// Whether `verb` stands at `j` in `t` as a whole word.
fn verb_matches(t: &[char], j: usize, verb: &str) -> (r: bool)
    requires
        j <= t@.len(),
    ensures
        r == verb_word_at(t@, j as int, verb@),
{
    if !prefix_at(t, j, verb) {
        return false;
    }
    let vc = str_chars(verb);
    let tlen = t.len();
    let k = j + vc.len();
    if k >= tlen {
        true
    } else {
        is_ws(t[k])
    }
}

/// Whether a directive head `#`, whitespace, `yl:` and a verb start at `i`.
pub open spec fn head_match_at(t: Seq<char>, i: int) -> bool {
    &&& 0 <= i < t.len()
    &&& t[i] == '#'
    &&& {
        let j = i + 1 + ws_prefix_len(t.skip(i + 1));
        &&& is_prefix_spec("yl:"@, t.skip(j))
        &&& verb_at(t, j + 3) is Some
    }
}

/// The first position of a directive head in `t`, if any.
pub open spec fn head_find_from(t: Seq<char>, i: int) -> Option<int>
    decreases t.len() - i,
{
    if i >= t.len() {
        None
    } else if head_match_at(t, i) {
        Some(i)
    } else {
        head_find_from(t, i + 1)
    }
}

/// The arguments of a directive whose verb ends at `k`: the rest of the
/// line after at least one whitespace character, or nothing.
pub open spec fn args_of(t: Seq<char>, k: int) -> Seq<char> {
    if k < t.len() && is_ws_char(t[k]) {
        t.skip(k + ws_prefix_len(t.skip(k)))
    } else {
        Seq::empty()
    }
}

/// A comma-separated rule list: each entry trimmed, empty entries dropped.
pub open spec fn rule_list_spec(s: Seq<char>) -> Seq<Seq<char>>
    decreases s.len(),
    via rule_list_spec_dec
{
    match find_char_spec(s, ',') {
        Some(i) => {
            let h = trim_spec(s.take(i));
            (if h.len() > 0 {
                seq![h]
            } else {
                Seq::empty()
            }) + rule_list_spec(s.skip(i + 1))
        },
        None => {
            let h = trim_spec(s);
            if h.len() > 0 {
                seq![h]
            } else {
                Seq::empty()
            }
        },
    }
}

#[via_fn]
proof fn rule_list_spec_dec(s: Seq<char>) {
    lemma_find_char_spec(s, ',');
}

/// Whether the `rule.param=value` shape starts at `i` in `s`.
pub open spec fn param_match_at(s: Seq<char>, i: int) -> bool {
    let r1 = ident_run_len(s.skip(i));
    let d1 = i + r1;
    let r2 = ident_run_len(s.skip(d1 + 1));
    let d2 = d1 + 1 + r2;
    let r3 = value_run_len(s.skip(d2 + 1));
    &&& 0 <= i <= s.len()
    &&& r1 >= 1
    &&& d1 < s.len() && s[d1] == '.'
    &&& r2 >= 1
    &&& d2 < s.len() && s[d2] == '='
    &&& r3 >= 1
}

/// The first position of a `rule.param=value` match in `s`, if any.
pub open spec fn param_find_from(s: Seq<char>, i: int) -> Option<int>
    decreases s.len() - i,
{
    if i >= s.len() {
        None
    } else if param_match_at(s, i) {
        Some(i)
    } else {
        param_find_from(s, i + 1)
    }
}

/// The `set` arguments, decomposed at the first `rule.param=value` match.
pub open spec fn parse_set_spec(args: Seq<char>) -> Result<Option<DirectiveV>, ()> {
    match param_find_from(args, 0) {
        None => Err(()),
        Some(i) => {
            let r1 = ident_run_len(args.skip(i));
            let d1 = i + r1;
            let r2 = ident_run_len(args.skip(d1 + 1));
            let d2 = d1 + 1 + r2;
            let r3 = value_run_len(args.skip(d2 + 1));
            Ok(
                Some(
                    DirectiveV::SetParam {
                        rule: args.subrange(i, d1),
                        params: seq![
                            (args.subrange(d1 + 1, d2), args.subrange(d2 + 1, d2 + 1 + r3)),
                        ],
                    },
                ),
            )
        },
    }
}

/// One `key=value` segment of a `config` directive merged into `acc`; a
/// segment without `=` is skipped.
pub open spec fn config_param_apply(acc: StrMapV, seg: Seq<char>) -> StrMapV {
    let t = trim_spec(seg);
    match find_char_spec(t, '=') {
        Some(e) => smap_set(acc, trim_spec(t.take(e)), trim_spec(t.skip(e + 1))),
        None => acc,
    }
}

/// All comma-separated segments merged in order.
pub open spec fn config_params_rec(segs: Seq<Seq<char>>, acc: StrMapV) -> StrMapV
    decreases segs.len(),
{
    if segs.len() == 0 {
        acc
    } else {
        config_params_rec(segs.skip(1), config_param_apply(acc, segs[0]))
    }
}

/// The comma-split of `s`, without trimming and keeping empty segments.
pub open spec fn split_commas_spec(s: Seq<char>) -> Seq<Seq<char>>
    decreases s.len(),
    via split_commas_spec_dec
{
    match find_char_spec(s, ',') {
        Some(i) => seq![s.take(i)] + split_commas_spec(s.skip(i + 1)),
        None => seq![s],
    }
}

#[via_fn]
proof fn split_commas_spec_dec(s: Seq<char>) {
    lemma_find_char_spec(s, ',');
}

/// The `config` arguments: a rule name up to the first space, then
/// `key=value` segments.
pub open spec fn parse_config_spec(args: Seq<char>) -> Result<Option<DirectiveV>, ()> {
    match find_char_spec(args, ' ') {
        Some(i) => Ok(
            Some(
                DirectiveV::Config {
                    rule: args.take(i),
                    params: config_params_rec(
                        split_commas_spec(args.skip(i + 1)),
                        Seq::empty(),
                    ),
                },
            ),
        ),
        None => Ok(Some(DirectiveV::Config { rule: args, params: Seq::empty() })),
    }
}

/// Dispatch on the recognized verb.
pub open spec fn dispatch_spec(verb: Seq<char>, args: Seq<char>) -> Result<
    Option<DirectiveV>,
    (),
> {
    if verb == "disable"@ {
        Ok(Some(DirectiveV::Disable { rules: rule_list_spec(args), scope: Scope::Block }))
    } else if verb == "disable-line"@ {
        Ok(Some(DirectiveV::DisableLine { rules: rule_list_spec(args) }))
    } else if verb == "enable"@ {
        Ok(Some(DirectiveV::Enable { rules: rule_list_spec(args), scope: Scope::Block }))
    } else if verb == "set"@ {
        parse_set_spec(args)
    } else if verb == "config"@ {
        parse_config_spec(args)
    } else if verb == "ignore-file"@ {
        Ok(Some(DirectiveV::IgnoreFile))
    } else {
        Ok(Some(DirectiveV::IgnoreSection { rules: rule_list_spec(args) }))
    }
}

/// What parsing a comment yields: no directive, one directive, or a
/// malformed-`set` error.
pub open spec fn parse_directive_spec(comment: Seq<char>) -> Result<Option<DirectiveV>, ()> {
    let t = trim_spec(comment);
    match head_find_from(t, 0) {
        None => Ok(None),
        Some(i) => {
            let j = i + 1 + ws_prefix_len(t.skip(i + 1)) + 3;
            let verb = verb_at(t, j)->Some_0;
            let args = args_of(t, j + verb.len());
            dispatch_spec(verb, args)
        },
    }
}

fn is_ident(c: char) -> (r: bool)
    ensures
        r == is_ident_char(c),
{
    let code: u32 = c as u32;
    (97 <= code && code <= 122) || (65 <= code && code <= 90) || (48 <= code && code <= 57)
        || c == '_' || c == '-'
}

/// Length of the identifier run of `v` starting at `i`.
fn ident_run(v: &[char], i: usize) -> (r: usize)
    requires
        i <= v@.len(),
    ensures
        r == ident_run_len(v@.skip(i as int)),
        i + r <= v@.len(),
{
    let vlen = v.len();
    let mut k: usize = i;
    proof {
        assert(v@.skip(i as int).skip(0) =~= v@.skip(i as int));
    }
    while k < vlen && is_ident(v[k])
        invariant
            i <= k <= vlen,
            vlen == v@.len(),
            ident_run_len(v@.skip(i as int)) == (k - i) + ident_run_len(v@.skip(k as int)),
        decreases vlen - k,
    {
        proof {
            assert(v@.skip(k as int)[0] == v@[k as int]);
            assert(v@.skip(k as int).skip(1) =~= v@.skip(k + 1));
        }
        k = k + 1;
    }
    proof {
        if k < vlen {
            assert(v@.skip(k as int)[0] == v@[k as int]);
        }
        assert(ident_run_len(v@.skip(k as int)) == 0);
    }
    k - i
}

fn is_value(c: char) -> (r: bool)
    ensures
        r == is_value_char(c),
{
    !is_ws(c) && c != ','
}

/// Length of the value-character run of `v` starting at `i`.
fn value_run(v: &[char], i: usize) -> (r: usize)
    requires
        i <= v@.len(),
    ensures
        r == value_run_len(v@.skip(i as int)),
        i + r <= v@.len(),
{
    let vlen = v.len();
    let mut k: usize = i;
    proof {
        assert(v@.skip(i as int).skip(0) =~= v@.skip(i as int));
    }
    while k < vlen && is_value(v[k])
        invariant
            i <= k <= vlen,
            vlen == v@.len(),
            value_run_len(v@.skip(i as int)) == (k - i) + value_run_len(v@.skip(k as int)),
        decreases vlen - k,
    {
        proof {
            assert(v@.skip(k as int)[0] == v@[k as int]);
            assert(v@.skip(k as int).skip(1) =~= v@.skip(k + 1));
        }
        k = k + 1;
    }
    proof {
        if k < vlen {
            assert(v@.skip(k as int)[0] == v@[k as int]);
        }
        assert(value_run_len(v@.skip(k as int)) == 0);
    }
    k - i
}

/// Whether a directive head stands at `i` in `t`.
fn head_match(t: &[char], i: usize) -> (r: bool)
    requires
        i <= t@.len(),
    ensures
        r == head_match_at(t@, i as int),
{
    let tlen = t.len();
    if i >= tlen {
        return false;
    }
    if t[i] != '#' {
        return false;
    }
    let sub = &t[i + 1..tlen];
    proof {
        assert(sub@ =~= t@.skip(i + 1));
        crate::chars::lemma_ws_prefix_le_len(t@.skip(i + 1));
    }
    let run = ws_prefix(sub);
    let j = i + 1 + run;
    if !prefix_at(t, j, "yl:") {
        return false;
    }
    proof {
        reveal_strlit("yl:");
        assert(("yl:"@).len() == 3);
        assert(j + 3 <= tlen);
    }
    let v = j + 3;
    verb_matches(t, v, "disable-line") || verb_matches(t, v, "ignore-file") || verb_matches(
        t,
        v,
        "ignore-section",
    ) || verb_matches(t, v, "disable") || verb_matches(t, v, "enable") || verb_matches(
        t,
        v,
        "config",
    ) || verb_matches(t, v, "set")
}

proof fn lemma_head_find_some(t: Seq<char>, i: int, j: int)
    requires
        0 <= i <= j,
        head_match_at(t, j),
        forall|k: int| i <= k < j ==> !head_match_at(t, k),
    ensures
        head_find_from(t, i) == Some(j),
    decreases j - i,
{
    if i == j {
    } else {
        lemma_head_find_some(t, i + 1, j);
    }
}

proof fn lemma_head_find_none(t: Seq<char>, i: int)
    requires
        forall|k: int| i <= k < t.len() ==> !head_match_at(t, k),
    ensures
        head_find_from(t, i) is None,
    decreases t.len() - i,
{
    if i < t.len() {
        lemma_head_find_none(t, i + 1);
    }
}

proof fn lemma_param_find_some(s: Seq<char>, i: int, j: int)
    requires
        0 <= i <= j,
        param_match_at(s, j),
        forall|k: int| i <= k < j ==> !param_match_at(s, k),
    ensures
        param_find_from(s, i) == Some(j),
    decreases j - i,
{
    if i == j {
        assert(j < s.len()) by {
            assert(ident_run_len(s.skip(j)) >= 1);
        }
    } else {
        lemma_param_find_some(s, i + 1, j);
        assert(j < s.len()) by {
            assert(ident_run_len(s.skip(j)) >= 1);
        }
    }
}

proof fn lemma_param_find_none(s: Seq<char>, i: int)
    requires
        forall|k: int| i <= k < s.len() ==> !param_match_at(s, k),
        i >= 0,
    ensures
        param_find_from(s, i) is None,
    decreases s.len() - i,
{
    if i < s.len() {
        lemma_param_find_none(s, i + 1);
    } else if i == s.len() {
        if param_match_at(s, i) {
            assert(ident_run_len(s.skip(i)) >= 1);
            assert(s.skip(i).len() == 0);
            assert(false);
        }
    }
}

/// Whether the `rule.param=value` shape stands at `i` in `s`.
fn param_match(s: &[char], i: usize) -> (r: bool)
    requires
        i <= s@.len(),
    ensures
        r == param_match_at(s@, i as int),
{
    let slen = s.len();
    let r1 = ident_run(s, i);
    if r1 == 0 {
        return false;
    }
    let d1 = i + r1;
    if d1 >= slen || s[d1] != '.' {
        return false;
    }
    let r2 = ident_run(s, d1 + 1);
    if r2 == 0 {
        return false;
    }
    let d2 = d1 + 1 + r2;
    if d2 >= slen || s[d2] != '=' {
        return false;
    }
    let r3 = value_run(s, d2 + 1);
    r3 >= 1
}

/// Split a comma-separated rule list into trimmed, non-empty names.
pub fn parse_rule_list(args: &[char]) -> (r: Vec<String>)
    ensures
        strings_view(r@) == rule_list_spec(args@),
    decreases args@.len(),
{
    let alen = args.len();
    let mut out: Vec<String> = Vec::new();
    match find_char(args, ',') {
        Some(c) => {
            proof {
                lemma_find_char_spec(args@, ',');
            }
            let headsub = &args[0..c];
            proof {
                assert(headsub@ =~= args@.take(c as int));
            }
            let head = trim_slice(headsub);
            if head.len() > 0 {
                let h = string_from_chars(head);
                out.push(h);
            }
            let restsub = &args[c + 1..alen];
            proof {
                assert(restsub@ =~= args@.skip(c + 1));
            }
            let mut rest = parse_rule_list(restsub);
            let ghost outpre = out@;
            let ghost restv = rest@;
            out.append(&mut rest);
            proof {
                assert(strings_view(out@) =~= strings_view(outpre) + strings_view(restv));
                assert(strings_view(out@) =~= rule_list_spec(args@));
            }
        },
        None => {
            let head = trim_slice(args);
            if head.len() > 0 {
                let h = string_from_chars(head);
                out.push(h);
                proof {
                    assert(strings_view(out@) =~= seq![trim_spec(args@)]);
                }
            } else {
                proof {
                    assert(strings_view(out@) =~= Seq::<Seq<char>>::empty());
                }
            }
        },
    }
    out
}

/// Split on commas, keeping every segment untrimmed.
pub fn split_commas(args: &[char]) -> (r: Vec<Vec<char>>)
    ensures
        crate::chars::views_of(r@) == split_commas_spec(args@),
    decreases args@.len(),
{
    let alen = args.len();
    let mut out: Vec<Vec<char>> = Vec::new();
    match find_char(args, ',') {
        Some(c) => {
            proof {
                lemma_find_char_spec(args@, ',');
            }
            let head = vstd::slice::slice_to_vec(&args[0..c]);
            proof {
                assert(head@ =~= args@.take(c as int));
            }
            out.push(head);
            let restsub = &args[c + 1..alen];
            proof {
                assert(restsub@ =~= args@.skip(c + 1));
            }
            let mut rest = split_commas(restsub);
            let ghost outpre = out@;
            let ghost restv = rest@;
            out.append(&mut rest);
            proof {
                assert(crate::chars::views_of(out@) =~= crate::chars::views_of(outpre)
                    + crate::chars::views_of(restv));
                assert(crate::chars::views_of(out@) =~= split_commas_spec(args@));
            }
        },
        None => {
            let whole = vstd::slice::slice_to_vec(args);
            out.push(whole);
            proof {
                assert(crate::chars::views_of(out@) =~= seq![args@]);
            }
        },
    }
    out
}

/// Merge the `key=value` segments of a `config` directive into a map.
fn parse_config_params(rest: &[char]) -> (r: ParamMap)
    ensures
        r@ == config_params_rec(split_commas_spec(rest@), Seq::empty()),
{
    let segs = split_commas(rest);
    let ghost segsv = split_commas_spec(rest@);
    let mut pm = ParamMap::new();
    let n = segs.len();
    let mut k: usize = 0;
    proof {
        assert(segsv.skip(0) =~= segsv);
    }
    while k < n
        invariant
            0 <= k <= n,
            n == segs@.len(),
            crate::chars::views_of(segs@) == segsv,
            config_params_rec(segsv.skip(k as int), pm@) == config_params_rec(
                segsv,
                Seq::empty(),
            ),
        decreases n - k,
    {
        let ghost pmpre = pm@;
        let seg: &Vec<char> = &segs[k];
        let t = trim_slice(seg.as_slice());
        proof {
            assert(segsv[k as int] == seg@);
        }
        let tlen2 = t.len();
        match find_char(t, '=') {
            Some(e) => {
                proof {
                    lemma_find_char_spec(t@, '=');
                }
                let keysub = &t[0..e];
                let valsub = &t[e + 1..tlen2];
                proof {
                    assert(keysub@ =~= t@.take(e as int));
                    assert(valsub@ =~= t@.skip(e + 1));
                }
                let keyc = trim_slice(keysub);
                let valc = trim_slice(valsub);
                let keys = string_from_chars(keyc);
                let vals = string_from_chars(valc);
                pm.insert(keys, vals);
            },
            None => {},
        }
        proof {
            assert(pm@ == config_param_apply(pmpre, segsv[k as int]));
            assert(segsv.skip(k as int)[0] == segsv[k as int]);
            assert(segsv.skip(k as int).skip(1) =~= segsv.skip(k + 1));
        }
        k = k + 1;
    }
    proof {
        assert(config_params_rec(segsv.skip(n as int), pm@) == pm@);
    }
    pm
}

/// Processes comments to extract linting directives.
#[derive(Debug)]
pub struct CommentProcessor;

impl CommentProcessor {
    /// Create a new comment processor.
    pub fn new() -> (r: CommentProcessor) {
        CommentProcessor
    }

    /// Parse a comment line for a directive.
    ///
    /// Returns `Ok(None)` for ordinary comments, `Ok(Some(_))` for a
    /// recognized directive, and an error for a malformed `set`.
    pub fn parse_directive(&self, comment: &str) -> (r: Result<
        Option<Directive>,
        DirectiveParseError,
    >)
        ensures
            match r {
                Ok(Some(d)) => parse_directive_spec(comment@) == Ok::<_, ()>(Some(d@)),
                Ok(None) => parse_directive_spec(comment@) == Ok::<_, ()>(None::<DirectiveV>),
                Err(_) => parse_directive_spec(comment@) is Err,
            },
    {
        let chars = str_chars(comment);
        let tv = trim_slice(chars.as_slice());
        let ghost t = trim_spec(comment@);
        proof {
            assert(tv@ == t);
        }
        let tlen = tv.len();
        let mut i: usize = 0;
        let mut found: Option<usize> = None;
        while i < tlen && found.is_none()
            invariant
                0 <= i <= tlen,
                tlen == t.len(),
                tv@ == t,
                match found {
                    Some(f) => f == i && i < tlen && head_match_at(t, f as int) && forall|k: int|
                        0 <= k < f ==> !head_match_at(t, k),
                    None => forall|k: int| 0 <= k < i ==> !head_match_at(t, k),
                },
            decreases tlen - i + (if found.is_none() { 1int } else { 0int }),
        {
            if head_match(tv, i) {
                found = Some(i);
            } else {
                i = i + 1;
            }
        }
        match found {
            None => {
                proof {
                    lemma_head_find_none(t, 0);
                }
                Ok(None)
            },
            Some(h) => {
                proof {
                    lemma_head_find_some(t, 0, h as int);
                }
                let hsub = &tv[h + 1..tlen];
                proof {
                    assert(hsub@ =~= t.skip(h + 1));
                    crate::chars::lemma_ws_prefix_le_len(t.skip(h + 1));
                }
                let run = ws_prefix(hsub);
                proof {
                    reveal_strlit("yl:");
                    assert(("yl:"@).len() == 3);
                    assert(is_prefix_spec("yl:"@, t.skip(h + 1 + run)));
                    assert(h + 1 + run + 3 <= tlen);
                }
                let j = h + 1 + run + 3;
                let (verb_id, verb_len): (u8, usize) = if verb_matches(
                    tv,
                    j,
                    "disable-line",
                ) {
                    (0, 12)
                } else if verb_matches(tv, j, "ignore-file") {
                    (1, 11)
                } else if verb_matches(tv, j, "ignore-section") {
                    (2, 14)
                } else if verb_matches(tv, j, "disable") {
                    (3, 7)
                } else if verb_matches(tv, j, "enable") {
                    (4, 6)
                } else if verb_matches(tv, j, "config") {
                    (5, 6)
                } else {
                    (6, 3)
                };
                let ghost verb = verb_at(t, j as int)->Some_0;
                proof {
                    assert(verb_of_id(verb_id as int) == verb);
                    assert(verb.len() == verb_len) by {
                        reveal_strlit("disable-line");
                        reveal_strlit("ignore-file");
                        reveal_strlit("ignore-section");
                        reveal_strlit("disable");
                        reveal_strlit("enable");
                        reveal_strlit("config");
                        reveal_strlit("set");
                    }
                    assert(is_prefix_spec(verb, t.skip(j as int)));
                    assert(j + verb_len <= tlen);
                }
                let k = j + verb_len;
                let args: Vec<char> = if k < tlen && is_ws(tv[k]) {
                    let ksub = &tv[k..tlen];
                    proof {
                        assert(ksub@ =~= t.skip(k as int));
                        crate::chars::lemma_ws_prefix_le_len(t.skip(k as int));
                    }
                    let arun = ws_prefix(ksub);
                    let a = k + arun;
                    let v = vstd::slice::slice_to_vec(&tv[a..tlen]);
                    proof {
                        assert(v@ =~= t.skip(k + ws_prefix_len(t.skip(k as int))));
                        assert(v@ == args_of(t, k as int));
                    }
                    v
                } else {
                    let v: Vec<char> = Vec::new();
                    proof {
                        assert(v@ =~= args_of(t, k as int));
                    }
                    v
                };
                proof {
                    assert(args@ == args_of(t, j + verb.len()));
                }
                self.dispatch(verb_id, args.as_slice())
            },
        }
    }

    /// Build the directive for a recognized verb.
    fn dispatch(&self, verb_id: u8, args: &[char]) -> (r: Result<
        Option<Directive>,
        DirectiveParseError,
    >)
        requires
            0 <= verb_id <= 6,
        ensures
            match r {
                Ok(Some(d)) => dispatch_spec(verb_of_id(verb_id as int), args@) == Ok::<_, ()>(
                    Some(d@),
                ),
                Ok(None) => false,
                Err(_) => dispatch_spec(verb_of_id(verb_id as int), args@) is Err,
            },
    {
        if verb_id == 0 {
            let rules = parse_rule_list(args);
            let d = Directive::DisableLine { rules };
            proof {
                reveal_strlit("disable-line");
                reveal_strlit("disable");
                reveal_strlit("enable");
                assert(("disable"@).len() == 7);
                assert(("disable-line"@).len() == 12);
                assert("disable"@ != "disable-line"@);
                assert(verb_of_id(0) == "disable-line"@);
                assert(dispatch_spec(verb_of_id(0), args@) == Ok::<_, ()>(Some(d@)));
            }
            Ok(Some(d))
        } else if verb_id == 1 {
            let d = Directive::IgnoreFile;
            proof {
                reveal_strlit("ignore-file");
                reveal_strlit("disable-line");
                reveal_strlit("disable");
                reveal_strlit("enable");
                reveal_strlit("config");
                reveal_strlit("set");
                assert(("ignore-file"@).len() == 11);
                assert(("disable"@).len() == 7);
                assert(("disable-line"@).len() == 12);
                assert(("enable"@).len() == 6);
                assert(("config"@).len() == 6);
                assert(("set"@).len() == 3);
                assert("ignore-file"@ != "disable"@);
                assert("ignore-file"@ != "disable-line"@);
                assert("ignore-file"@ != "enable"@);
                assert("ignore-file"@ != "config"@);
                assert("ignore-file"@ != "set"@);
                assert(dispatch_spec(verb_of_id(1), args@) == Ok::<_, ()>(Some(d@)));
            }
            Ok(Some(d))
        } else if verb_id == 2 {
            let rules = parse_rule_list(args);
            let d = Directive::IgnoreSection { rules };
            proof {
                reveal_strlit("ignore-section");
                reveal_strlit("ignore-file");
                reveal_strlit("disable-line");
                reveal_strlit("disable");
                reveal_strlit("enable");
                reveal_strlit("config");
                reveal_strlit("set");
                assert(("ignore-section"@).len() == 14);
                assert(("ignore-file"@).len() == 11);
                assert(("disable"@).len() == 7);
                assert(("disable-line"@).len() == 12);
                assert(("enable"@).len() == 6);
                assert(("config"@).len() == 6);
                assert(("set"@).len() == 3);
                assert("ignore-section"@ != "disable"@);
                assert("ignore-section"@ != "disable-line"@);
                assert("ignore-section"@ != "enable"@);
                assert("ignore-section"@ != "config"@);
                assert("ignore-section"@ != "set"@);
                assert("ignore-section"@ != "ignore-file"@);
                assert(dispatch_spec(verb_of_id(2), args@) == Ok::<_, ()>(Some(d@)));
            }
            Ok(Some(d))
        } else if verb_id == 3 {
            let rules = parse_rule_list(args);
            let d = Directive::Disable { rules, scope: Scope::Block };
            proof {
                reveal_strlit("disable");
                assert(dispatch_spec(verb_of_id(3), args@) == Ok::<_, ()>(Some(d@)));
            }
            Ok(Some(d))
        } else if verb_id == 4 {
            let rules = parse_rule_list(args);
            let d = Directive::Enable { rules, scope: Scope::Block };
            proof {
                reveal_strlit("enable");
                reveal_strlit("disable");
                reveal_strlit("disable-line");
                assert(("enable"@).len() == 6);
                assert(("disable"@).len() == 7);
                assert(("disable-line"@).len() == 12);
                assert("enable"@ != "disable"@);
                assert("enable"@ != "disable-line"@);
                assert(dispatch_spec(verb_of_id(4), args@) == Ok::<_, ()>(Some(d@)));
            }
            Ok(Some(d))
        } else if verb_id == 5 {
            let r = self.parse_config(args);
            proof {
                reveal_strlit("config");
                reveal_strlit("disable");
                reveal_strlit("disable-line");
                reveal_strlit("enable");
                reveal_strlit("set");
                assert(("config"@).len() == 6);
                assert(("disable"@).len() == 7);
                assert(("disable-line"@).len() == 12);
                assert(("enable"@).len() == 6);
                assert(("set"@).len() == 3);
                assert(("config"@)[0] == 'c');
                assert(("enable"@)[0] == 'e');
                assert("config"@ != "disable"@);
                assert("config"@ != "disable-line"@);
                assert("config"@ != "enable"@);
                assert("config"@ != "set"@);
                assert(dispatch_spec(verb_of_id(5), args@) == parse_config_spec(args@));
            }
            r
        } else {
            let r = self.parse_set(args);
            proof {
                reveal_strlit("set");
                reveal_strlit("disable");
                reveal_strlit("disable-line");
                reveal_strlit("enable");
                assert(("set"@).len() == 3);
                assert(("disable"@).len() == 7);
                assert(("disable-line"@).len() == 12);
                assert(("enable"@).len() == 6);
                assert("set"@ != "disable"@);
                assert("set"@ != "disable-line"@);
                assert("set"@ != "enable"@);
                assert(dispatch_spec(verb_of_id(6), args@) == parse_set_spec(args@));
            }
            r
        }
    }

    /// Parse `set` arguments at the first `rule.param=value` occurrence.
    fn parse_set(&self, args: &[char]) -> (r: Result<Option<Directive>, DirectiveParseError>)
        ensures
            match r {
                Ok(Some(d)) => parse_set_spec(args@) == Ok::<_, ()>(Some(d@)),
                Ok(None) => false,
                Err(_) => parse_set_spec(args@) is Err,
            },
    {
        let alen = args.len();
        let mut i: usize = 0;
        let mut found: Option<usize> = None;
        while i < alen && found.is_none()
            invariant
                0 <= i <= alen,
                alen == args@.len(),
                match found {
                    Some(f) => f == i && param_match_at(args@, f as int) && forall|k: int|
                        0 <= k < f ==> !param_match_at(args@, k),
                    None => forall|k: int| 0 <= k < i ==> !param_match_at(args@, k),
                },
            decreases alen - i + (if found.is_none() { 1int } else { 0int }),
        {
            if param_match(args, i) {
                found = Some(i);
            } else {
                i = i + 1;
            }
        }
        match found {
            None => {
                proof {
                    lemma_param_find_none(args@, 0);
                }
                Err(
                    DirectiveParseError {
                        message: "Invalid set directive format. Expected: rule.param=value".to_owned(),
                    },
                )
            },
            Some(f) => {
                proof {
                    lemma_param_find_some(args@, 0, f as int);
                }
                let r1 = ident_run(args, f);
                let d1 = f + r1;
                let r2 = ident_run(args, d1 + 1);
                let d2 = d1 + 1 + r2;
                let r3 = value_run(args, d2 + 1);
                let rulesub = &args[f..d1];
                let paramsub = &args[d1 + 1..d2];
                let valuesub = &args[d2 + 1..d2 + 1 + r3];
                let rule = string_from_chars(rulesub);
                let param = string_from_chars(paramsub);
                let value = string_from_chars(valuesub);
                let mut params = ParamMap::new();
                params.insert(param, value);
                proof {
                    assert(rulesub@ =~= args@.subrange(f as int, d1 as int));
                    assert(params@ =~= seq![
                        (
                            args@.subrange(d1 + 1, d2 as int),
                            args@.subrange(d2 + 1, d2 + 1 + r3),
                        ),
                    ]);
                }
                Ok(Some(Directive::SetParam { rule, params }))
            },
        }
    }

    /// Parse `config` arguments: a rule name, then `key=value` segments.
    fn parse_config(&self, args: &[char]) -> (r: Result<Option<Directive>, DirectiveParseError>)
        ensures
            match r {
                Ok(Some(d)) => parse_config_spec(args@) == Ok::<_, ()>(Some(d@)),
                Ok(None) => false,
                Err(_) => false,
            },
    {
        let alen = args.len();
        match find_char(args, ' ') {
            Some(i) => {
                proof {
                    lemma_find_char_spec(args@, ' ');
                }
                let rulesub = &args[0..i];
                proof {
                    assert(rulesub@ =~= args@.take(i as int));
                }
                let rule = string_from_chars(rulesub);
                let restsub = &args[i + 1..alen];
                proof {
                    assert(restsub@ =~= args@.skip(i + 1));
                }
                let params = parse_config_params(restsub);
                Ok(Some(Directive::Config { rule, params }))
            },
            None => {
                let rule = string_from_chars(args);
                let params = ParamMap::new();
                Ok(Some(Directive::Config { rule, params }))
            },
        }
    }
}

/// The verb literal for each verb number, in priority order.
pub open spec fn verb_of_id(id: int) -> Seq<char> {
    if id == 0 {
        "disable-line"@
    } else if id == 1 {
        "ignore-file"@
    } else if id == 2 {
        "ignore-section"@
    } else if id == 3 {
        "disable"@
    } else if id == 4 {
        "enable"@
    } else if id == 5 {
        "config"@
    } else {
        "set"@
    }
}

impl Default for CommentProcessor {
    fn default() -> Self {
        CommentProcessor
    }
}

} // verus!
