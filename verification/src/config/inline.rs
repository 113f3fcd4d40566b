//! The inline configuration state machine: replaying `# yl:` directives in
//! line order and answering "is this rule disabled at this line".

use vstd::prelude::*;
use crate::chars::{
    find_char, find_char_spec, lines_spec, parse_bool, parse_bool_spec, parse_i64, parse_i64_spec,
    split_lines, str_chars, str_eq, string_from_chars, strings_view,
};
use crate::linter::problem::Level;
use crate::parser::comments::{
    parse_directive_spec, CommentProcessor, Directive, DirectiveParseError, DirectiveV, ParamMap,
    Scope, StrMapV,
};
use crate::rules::{params_set, ConfigValue, ConfigValueV, ParamsV, RuleConfig, RuleConfigV};

verus! {

/// Membership after removing every occurrence of `k`.
pub open spec fn remove_all_spec(s: Seq<Seq<char>>, k: Seq<char>) -> Seq<Seq<char>>
    decreases s.len(),
{
    if s.len() == 0 {
        s
    } else if s[0] == k {
        remove_all_spec(s.skip(1), k)
    } else {
        seq![s[0]] + remove_all_spec(s.skip(1), k)
    }
}

proof fn lemma_remove_all_contains(s: Seq<Seq<char>>, k: Seq<char>, x: Seq<char>)
    ensures
        remove_all_spec(s, k).contains(x) <==> (s.contains(x) && x != k),
    decreases s.len(),
{
    if s.len() == 0 {
    } else {
        lemma_remove_all_contains(s.skip(1), k, x);
        assert(s.contains(x) <==> (s[0] == x || s.skip(1).contains(x))) by {
            if s.contains(x) {
                let i = choose|i: int| 0 <= i < s.len() && s[i] == x;
                if i > 0 {
                    assert(s.skip(1)[i - 1] == x);
                }
            }
            if s.skip(1).contains(x) {
                let i = choose|i: int| 0 <= i < s.skip(1).len() && s.skip(1)[i] == x;
                assert(s[i + 1] == x);
            }
        }
        if s[0] != k {
            let r = seq![s[0]] + remove_all_spec(s.skip(1), k);
            assert(r.contains(x) <==> (s[0] == x || remove_all_spec(s.skip(1), k).contains(
                x,
            ))) by {
                if r.contains(x) {
                    let i = choose|i: int| 0 <= i < r.len() && r[i] == x;
                    if i > 0 {
                        assert(remove_all_spec(s.skip(1), k)[i - 1] == x);
                    }
                }
                if remove_all_spec(s.skip(1), k).contains(x) {
                    let i = choose|i: int|
                        0 <= i < remove_all_spec(s.skip(1), k).len() && remove_all_spec(
                            s.skip(1),
                            k,
                        )[i] == x;
                    assert(r[i + 1] == x);
                }
                assert(r[0] == s[0]);
            }
        }
    }
}

/// The set named by a sequence of strings.
pub open spec fn set_of(s: Seq<Seq<char>>) -> Set<Seq<char>> {
    Set::new(|x: Seq<char>| s.contains(x))
}

/// A set of rule ids (or the `*` sentinel), with set-typed contracts.
#[derive(Debug)]
pub struct RuleSet {
    pub entries: Vec<String>,
}

impl View for RuleSet {
    type V = Set<Seq<char>>;

    open spec fn view(&self) -> Set<Seq<char>> {
        set_of(strings_view(self.entries@))
    }
}

impl RuleSet {
    /// An empty set.
    pub fn new() -> (r: RuleSet)
        ensures
            r@ == Set::<Seq<char>>::empty(),
    {
        let r = RuleSet { entries: Vec::new() };
        proof {
            assert(r@ =~= Set::<Seq<char>>::empty());
        }
        r
    }

    /// Whether `key` is a member.
    pub fn contains(&self, key: &str) -> (r: bool)
        ensures
            r == self@.contains(key@),
    {
        let n = self.entries.len();
        let mut i: usize = 0;
        while i < n
            invariant
                0 <= i <= n,
                n == self.entries@.len(),
                forall|k: int| 0 <= k < i ==> #[trigger] self.entries@[k]@ != key@,
            decreases n - i,
        {
            if str_eq(self.entries[i].as_str(), key) {
                proof {
                    assert(strings_view(self.entries@)[i as int] == key@);
                }
                return true;
            }
            i = i + 1;
        }
        proof {
            if self@.contains(key@) {
                let j = choose|j: int|
                    0 <= j < strings_view(self.entries@).len() && strings_view(self.entries@)[j]
                        == key@;
                assert(self.entries@[j]@ == key@);
            }
        }
        false
    }

    /// Add a member.
    pub fn insert(&mut self, key: String)
        ensures
            final(self)@ == old(self)@.insert(key@),
    {
        let present = self.contains(key.as_str());
        if !present {
            self.entries.push(key);
            proof {
                let ghost pre = strings_view(old(self).entries@);
                assert(strings_view(self.entries@) =~= pre + seq![key@]);
                assert forall|x: Seq<char>| self@.contains(x) <==> old(self)@.insert(
                    key@,
                ).contains(x) by {
                    let post = strings_view(self.entries@);
                    if post.contains(x) {
                        let i = choose|i: int| 0 <= i < post.len() && post[i] == x;
                        if i < pre.len() {
                            assert(pre[i] == x);
                        }
                    }
                    if pre.contains(x) {
                        let i = choose|i: int| 0 <= i < pre.len() && pre[i] == x;
                        assert(post[i] == x);
                    }
                    if x == key@ {
                        assert(post[post.len() - 1] == x);
                    }
                }
                assert(self@ =~= old(self)@.insert(key@));
            }
        } else {
            proof {
                assert(self@ =~= old(self)@.insert(key@));
            }
        }
    }

    /// Remove a member.
    pub fn remove(&mut self, key: &str)
        ensures
            final(self)@ == old(self)@.remove(key@),
    {
        let ghost pre = strings_view(old(self).entries@);
        let ghost kseq = key@;
        let n = self.entries.len();
        let mut out: Vec<String> = Vec::new();
        let mut i: usize = 0;
        proof {
            assert(pre.skip(0) =~= pre);
            assert(strings_view(out@) + remove_all_spec(pre.skip(0), kseq) =~= remove_all_spec(
                pre,
                kseq,
            ));
        }
        while i < n
            invariant
                0 <= i <= n,
                kseq == key@,
                self@ == old(self)@,
                self.entries@.len() == n,
                pre == strings_view(self.entries@),
                strings_view(out@) + remove_all_spec(pre.skip(i as int), kseq) =~= remove_all_spec(
                    pre,
                    kseq,
                ),
            decreases n - i,
        {
            let keep = !str_eq(self.entries[i].as_str(), key);
            proof {
                assert(pre.skip(i as int)[0] == pre[i as int]);
                assert(pre[i as int] == self.entries@[i as int]@);
                assert(pre.skip(i as int).skip(1) =~= pre.skip(i + 1));
            }
            if keep {
                let ghost outpre = strings_view(out@);
                let item = self.entries[i].clone();
                out.push(item);
                proof {
                    assert(strings_view(out@) =~= outpre + seq![pre[i as int]]);
                    assert(strings_view(out@) + remove_all_spec(pre.skip(i + 1), kseq)
                        =~= remove_all_spec(pre, kseq));
                }
            }
            i = i + 1;
        }
        proof {
            assert(remove_all_spec(pre.skip(n as int), kseq) =~= Seq::<Seq<char>>::empty());
            assert(strings_view(out@) + Seq::<Seq<char>>::empty() =~= strings_view(out@));
        }
        self.entries = out;
        proof {
            assert(strings_view(self.entries@) == remove_all_spec(pre, kseq));
            assert forall|x: Seq<char>| self@.contains(x) <==> old(self)@.remove(kseq).contains(
                x,
            ) by {
                lemma_remove_all_contains(pre, kseq, x);
            }
            assert(self@ =~= old(self)@.remove(kseq));
        }
    }

    /// Remove every member.
    pub fn clear(&mut self)
        ensures
            final(self)@ == Set::<Seq<char>>::empty(),
    {
        self.entries.clear();
        proof {
            assert(self@ =~= Set::<Seq<char>>::empty());
        }
    }
}

/// Scope-disabled rules with the line each disable began at, as an
/// association of rule ids (or the `*` sentinel) to starting lines.
pub type ScopedV = Seq<(Seq<char>, int)>;

/// The starting line recorded for `key`, if any: the first match decides.
pub open spec fn sc_get(s: ScopedV, key: Seq<char>) -> Option<int>
    decreases s.len(),
{
    if s.len() == 0 {
        None
    } else if s[0].0 == key {
        Some(s[0].1)
    } else {
        sc_get(s.skip(1), key)
    }
}

/// Record a disable for `key` starting at `line`; one already recorded keeps
/// its earlier starting line.
pub open spec fn sc_mark(s: ScopedV, key: Seq<char>, line: int) -> ScopedV {
    if sc_get(s, key) is Some {
        s
    } else {
        s.push((key, line))
    }
}

/// Every record for `key` removed.
pub open spec fn sc_remove(s: ScopedV, key: Seq<char>) -> ScopedV
    decreases s.len(),
{
    if s.len() == 0 {
        s
    } else if s[0].0 == key {
        sc_remove(s.skip(1), key)
    } else {
        seq![s[0]] + sc_remove(s.skip(1), key)
    }
}

/// Whether a recorded disable for `key` is in force at `line`: one that
/// began on a later line does not reach back.
pub open spec fn sc_active(s: ScopedV, key: Seq<char>, line: int) -> bool {
    match sc_get(s, key) {
        Some(l) => l <= line,
        None => false,
    }
}

proof fn lemma_sc_get_at(s: ScopedV, key: Seq<char>, i: int)
    requires
        0 <= i < s.len(),
        s[i].0 == key,
        forall|m: int| 0 <= m < i ==> (#[trigger] s[m]).0 != key,
    ensures
        sc_get(s, key) == Some(s[i].1),
    decreases i,
{
    if i > 0 {
        assert(s.skip(1)[i - 1] == s[i]);
        assert forall|m: int| 0 <= m < i - 1 implies (#[trigger] s.skip(1)[m]).0 != key by {
            assert(s.skip(1)[m] == s[m + 1]);
        }
        lemma_sc_get_at(s.skip(1), key, i - 1);
    }
}

proof fn lemma_sc_get_absent(s: ScopedV, key: Seq<char>)
    requires
        forall|m: int| 0 <= m < s.len() ==> (#[trigger] s[m]).0 != key,
    ensures
        sc_get(s, key) is None,
    decreases s.len(),
{
    if s.len() > 0 {
        assert forall|m: int|
            0 <= m < s.skip(1).len() implies (#[trigger] s.skip(1)[m]).0 != key by {
            assert(s.skip(1)[m] == s[m + 1]);
        }
        lemma_sc_get_absent(s.skip(1), key);
    }
}

/// The association named by a sequence of id/line pairs.
pub open spec fn scoped_view(s: Seq<(String, usize)>) -> ScopedV {
    Seq::new(s.len(), |i: int| (s[i].0@, s[i].1 as int))
}

/// Scope-disabled rules, each with the line its disable began at.
#[derive(Debug)]
pub struct ScopedRules {
    pub entries: Vec<(String, usize)>,
}

impl View for ScopedRules {
    type V = ScopedV;

    open spec fn view(&self) -> ScopedV {
        scoped_view(self.entries@)
    }
}

impl ScopedRules {
    /// An empty association.
    pub fn new() -> (r: ScopedRules)
        ensures
            r@ == Seq::<(Seq<char>, int)>::empty(),
    {
        let r = ScopedRules { entries: Vec::new() };
        proof {
            assert(r@ =~= Seq::<(Seq<char>, int)>::empty());
        }
        r
    }

    /// Record a disable for `key` at `line`, keeping an earlier record.
    pub fn mark(&mut self, key: String, line: usize)
        ensures
            final(self)@ == sc_mark(old(self)@, key@, line as int),
    {
        let ghost pre = self@;
        let ghost kseq = key@;
        let n = self.entries.len();
        let mut i: usize = 0;
        while i < n
            invariant
                0 <= i <= n,
                kseq == key@,
                self@ == pre,
                pre == old(self)@,
                n == self.entries@.len(),
                forall|m: int| 0 <= m < i ==> (#[trigger] pre[m]).0 != kseq,
            decreases n - i,
        {
            proof {
                assert(pre[i as int] == (
                    self.entries@[i as int].0@,
                    self.entries@[i as int].1 as int,
                ));
            }
            if str_eq(self.entries[i].0.as_str(), key.as_str()) {
                proof {
                    lemma_sc_get_at(pre, kseq, i as int);
                }
                return ;
            }
            i = i + 1;
        }
        proof {
            lemma_sc_get_absent(pre, kseq);
        }
        self.entries.push((key, line));
        proof {
            assert(self@ =~= pre.push((kseq, line as int)));
        }
    }

    /// Remove every record for `key`.
    pub fn remove(&mut self, key: &str)
        ensures
            final(self)@ == sc_remove(old(self)@, key@),
    {
        let ghost pre = self@;
        let ghost kseq = key@;
        let n = self.entries.len();
        let mut out: Vec<(String, usize)> = Vec::new();
        let mut i: usize = 0;
        proof {
            assert(pre.skip(0) =~= pre);
            assert(scoped_view(out@) + sc_remove(pre.skip(0), kseq) =~= sc_remove(pre, kseq));
        }
        while i < n
            invariant
                0 <= i <= n,
                kseq == key@,
                self@ == pre,
                pre == old(self)@,
                self.entries@.len() == n,
                scoped_view(out@) + sc_remove(pre.skip(i as int), kseq) =~= sc_remove(
                    pre,
                    kseq,
                ),
            decreases n - i,
        {
            let keep = !str_eq(self.entries[i].0.as_str(), key);
            proof {
                assert(pre.skip(i as int)[0] == pre[i as int]);
                assert(pre[i as int] == (
                    self.entries@[i as int].0@,
                    self.entries@[i as int].1 as int,
                ));
                assert(pre.skip(i as int).skip(1) =~= pre.skip(i + 1));
            }
            if keep {
                let ghost outpre = scoped_view(out@);
                let item_name = self.entries[i].0.clone();
                let item_line = self.entries[i].1;
                out.push((item_name, item_line));
                proof {
                    assert(scoped_view(out@) =~= outpre + seq![pre[i as int]]);
                    assert(scoped_view(out@) + sc_remove(pre.skip(i + 1), kseq) =~= sc_remove(
                        pre,
                        kseq,
                    ));
                }
            }
            i = i + 1;
        }
        proof {
            assert(sc_remove(pre.skip(n as int), kseq) =~= Seq::<(Seq<char>, int)>::empty());
            assert(scoped_view(out@) + Seq::<(Seq<char>, int)>::empty() =~= scoped_view(out@));
        }
        self.entries = out;
        proof {
            assert(self@ =~= sc_remove(pre, kseq));
        }
    }

    /// Remove every record.
    pub fn clear(&mut self)
        ensures
            final(self)@ == Seq::<(Seq<char>, int)>::empty(),
    {
        self.entries.clear();
        proof {
            assert(self@ =~= Seq::<(Seq<char>, int)>::empty());
        }
    }

    /// Whether a record for `key` is in force at `line`.
    pub fn active_at(&self, key: &str, line: usize) -> (r: bool)
        ensures
            r == sc_active(self@, key@, line as int),
    {
        let ghost pre = self@;
        let ghost kseq = key@;
        let n = self.entries.len();
        let mut i: usize = 0;
        while i < n
            invariant
                0 <= i <= n,
                kseq == key@,
                pre == self@,
                n == self.entries@.len(),
                forall|m: int| 0 <= m < i ==> (#[trigger] pre[m]).0 != kseq,
            decreases n - i,
        {
            proof {
                assert(pre[i as int] == (
                    self.entries@[i as int].0@,
                    self.entries@[i as int].1 as int,
                ));
            }
            if str_eq(self.entries[i].0.as_str(), key) {
                proof {
                    lemma_sc_get_at(pre, kseq, i as int);
                }
                return self.entries[i].1 <= line;
            }
            i = i + 1;
        }
        proof {
            lemma_sc_get_absent(pre, kseq);
        }
        false
    }
}

/// Per-line disabled-rule sets, as an association of line numbers to sets.
pub type LineRulesV = Seq<(int, Set<Seq<char>>)>;

/// The set recorded for `line`, if any.
pub open spec fn lr_get(s: LineRulesV, line: int) -> Option<Set<Seq<char>>>
    decreases s.len(),
{
    if s.len() == 0 {
        None
    } else if s[0].0 == line {
        Some(s[0].1)
    } else {
        lr_get(s.skip(1), line)
    }
}

/// Add `rule` to the set recorded for `line`, creating the entry if absent.
pub open spec fn lr_add(s: LineRulesV, line: int, rule: Seq<char>) -> LineRulesV
    decreases s.len(),
{
    if s.len() == 0 {
        seq![(line, Set::<Seq<char>>::empty().insert(rule))]
    } else if s[0].0 == line {
        seq![(line, s[0].1.insert(rule))] + s.skip(1)
    } else {
        seq![s[0]] + lr_add(s.skip(1), line, rule)
    }
}

/// Rules disabled at specific lines.
#[derive(Debug)]
pub struct LineRules {
    pub entries: Vec<(usize, RuleSet)>,
}

impl View for LineRules {
    type V = LineRulesV;

    open spec fn view(&self) -> LineRulesV {
        Seq::new(self.entries@.len(), |i: int| (self.entries@[i].0 as int, self.entries@[i].1@))
    }
}

impl LineRules {
    /// No line has any rule disabled.
    pub fn new() -> (r: LineRules)
        ensures
            r@ == Seq::<(int, Set<Seq<char>>)>::empty(),
    {
        let r = LineRules { entries: Vec::new() };
        proof {
            assert(r@ =~= Seq::<(int, Set<Seq<char>>)>::empty());
        }
        r
    }

    /// Remove every entry.
    pub fn clear(&mut self)
        ensures
            final(self)@ == Seq::<(int, Set<Seq<char>>)>::empty(),
    {
        self.entries.clear();
        proof {
            assert(self@ =~= Seq::<(int, Set<Seq<char>>)>::empty());
        }
    }

    /// Whether `rule` is in the set recorded for `line`.
    pub fn contains(&self, line: usize, rule: &str) -> (r: bool)
        ensures
            r == match lr_get(self@, line as int) {
                Some(s) => s.contains(rule@),
                None => false,
            },
    {
        let n = self.entries.len();
        let mut i: usize = 0;
        proof {
            assert(self@.skip(0) =~= self@);
        }
        while i < n
            invariant
                0 <= i <= n,
                n == self.entries@.len(),
                lr_get(self@, line as int) == lr_get(self@.skip(i as int), line as int),
            decreases n - i,
        {
            proof {
                assert(self@.skip(i as int)[0] == self@[i as int]);
                assert(self@.skip(i as int).skip(1) =~= self@.skip(i + 1));
            }
            if self.entries[i].0 == line {
                return self.entries[i].1.contains(rule);
            }
            i = i + 1;
        }
        false
    }

    /// Add `rule` to the set for `line`.
    pub fn add(&mut self, line: usize, rule: String)
        ensures
            final(self)@ == lr_add(old(self)@, line as int, rule@),
    {
        let ghost orig = self@;
        let ghost rseq = rule@;
        let n = self.entries.len();
        let mut i: usize = 0;
        while i < n
            invariant
                0 <= i <= n,
                rseq == rule@,
                self@ == orig,
                orig == old(self)@,
                n == self.entries@.len(),
                forall|k: int| 0 <= k < i ==> #[trigger] orig[k].0 != line as int,
            decreases n - i,
        {
            proof {
                assert(orig[i as int] == (self.entries@[i as int].0 as int, self.entries@[i as int].1@));
            }
            if self.entries[i].0 == line {
                let mut ent = self.entries.remove(i);
                ent.1.insert(rule);
                let ghost newset = orig[i as int].1.insert(rseq);
                proof {
                    assert(ent.1@ == newset);
                }
                self.entries.insert(i, ent);
                proof {
                    assert(self@ =~~= orig.update(i as int, (line as int, newset)));
                    lemma_lr_add_at(orig, line as int, rseq, i as int);
                }
                return ;
            }
            i = i + 1;
        }
        let mut fresh = RuleSet::new();
        fresh.insert(rule);
        self.entries.push((line, fresh));
        proof {
            lemma_lr_add_absent(orig, line as int, rseq);
            assert(self@ =~~= orig + seq![
                (line as int, Set::<Seq<char>>::empty().insert(rseq)),
            ]);
        }
    }
}

proof fn lemma_lr_add_at(s: LineRulesV, line: int, rule: Seq<char>, i: int)
    requires
        0 <= i < s.len(),
        s[i].0 == line,
        forall|m: int| 0 <= m < i ==> #[trigger] s[m].0 != line,
    ensures
        lr_add(s, line, rule) == s.update(i, (line, s[i].1.insert(rule))),
    decreases i,
{
    if i == 0 {
        assert(seq![(line, s[0].1.insert(rule))] + s.skip(1) =~= s.update(
            0,
            (line, s[0].1.insert(rule)),
        ));
    } else {
        assert(s.skip(1)[i - 1] == s[i]);
        assert forall|m: int| 0 <= m < i - 1 implies #[trigger] s.skip(1)[m].0 != line by {
            assert(s.skip(1)[m] == s[m + 1]);
        }
        lemma_lr_add_at(s.skip(1), line, rule, i - 1);
        assert(seq![s[0]] + s.skip(1).update(i - 1, (line, s[i].1.insert(rule))) =~= s.update(
            i,
            (line, s[i].1.insert(rule)),
        ));
    }
}

proof fn lemma_lr_add_absent(s: LineRulesV, line: int, rule: Seq<char>)
    requires
        forall|m: int| 0 <= m < s.len() ==> #[trigger] s[m].0 != line,
    ensures
        lr_add(s, line, rule) == s + seq![(line, Set::<Seq<char>>::empty().insert(rule))],
    decreases s.len(),
{
    if s.len() == 0 {
        assert(lr_add(s, line, rule) =~= s + seq![
            (line, Set::<Seq<char>>::empty().insert(rule)),
        ]);
    } else {
        assert forall|m: int| 0 <= m < s.skip(1).len() implies #[trigger] s.skip(1)[m].0
            != line by {
            assert(s.skip(1)[m] == s[m + 1]);
        }
        lemma_lr_add_absent(s.skip(1), line, rule);
        assert(seq![s[0]] + (s.skip(1) + seq![(line, Set::<Seq<char>>::empty().insert(rule))])
            =~= s + seq![(line, Set::<Seq<char>>::empty().insert(rule))]);
    }
}

/// Per-rule override configurations, as an association of rule ids to
/// configurations.
pub type CfgMapV = Seq<(Seq<char>, RuleConfigV)>;

/// The configuration recorded for `rule`, if any.
pub open spec fn cfg_get(s: CfgMapV, rule: Seq<char>) -> Option<RuleConfigV>
    decreases s.len(),
{
    if s.len() == 0 {
        None
    } else if s[0].0 == rule {
        Some(s[0].1)
    } else {
        cfg_get(s.skip(1), rule)
    }
}

/// Bind `rule` to `c`: replace the first binding, or append one.
pub open spec fn cfg_set(s: CfgMapV, rule: Seq<char>, c: RuleConfigV) -> CfgMapV
    decreases s.len(),
{
    if s.len() == 0 {
        seq![(rule, c)]
    } else if s[0].0 == rule {
        seq![(rule, c)] + s.skip(1)
    } else {
        seq![s[0]] + cfg_set(s.skip(1), rule, c)
    }
}

/// Rule configurations accumulated from `set`/`config` directives.
#[derive(Debug)]
pub struct ConfigMap {
    pub entries: Vec<(String, RuleConfig)>,
}

impl View for ConfigMap {
    type V = CfgMapV;

    open spec fn view(&self) -> CfgMapV {
        Seq::new(self.entries@.len(), |i: int| (self.entries@[i].0@, self.entries@[i].1@))
    }
}

impl ConfigMap {
    /// An empty map.
    pub fn new() -> (r: ConfigMap)
        ensures
            r@ == Seq::<(Seq<char>, RuleConfigV)>::empty(),
    {
        let r = ConfigMap { entries: Vec::new() };
        proof {
            assert(r@ =~= Seq::<(Seq<char>, RuleConfigV)>::empty());
        }
        r
    }

    /// Remove every entry.
    pub fn clear(&mut self)
        ensures
            final(self)@ == Seq::<(Seq<char>, RuleConfigV)>::empty(),
    {
        self.entries.clear();
        proof {
            assert(self@ =~= Seq::<(Seq<char>, RuleConfigV)>::empty());
        }
    }

    /// Look a rule's override configuration up.
    pub fn get(&self, rule: &str) -> (r: Option<&RuleConfig>)
        ensures
            match r {
                Some(c) => cfg_get(self@, rule@) == Some(c@),
                None => cfg_get(self@, rule@) is None,
            },
    {
        let n = self.entries.len();
        let mut i: usize = 0;
        proof {
            assert(self@.skip(0) =~= self@);
        }
        while i < n
            invariant
                0 <= i <= n,
                n == self.entries@.len(),
                cfg_get(self@, rule@) == cfg_get(self@.skip(i as int), rule@),
            decreases n - i,
        {
            let hit = str_eq(self.entries[i].0.as_str(), rule);
            proof {
                assert(self@.skip(i as int)[0] == self@[i as int]);
                assert(self@.skip(i as int).skip(1) =~= self@.skip(i + 1));
            }
            if hit {
                return Some(&self.entries[i].1);
            }
            i = i + 1;
        }
        None
    }

    /// Bind a rule's configuration, replacing any earlier one.
    pub fn set(&mut self, rule: String, c: RuleConfig)
        ensures
            final(self)@ == cfg_set(old(self)@, rule@, c@),
    {
        let ghost kseq = rule@;
        let ghost cv = c@;
        let ghost orig = self@;
        let n = self.entries.len();
        let mut i: usize = 0;
        while i < n
            invariant
                0 <= i <= n,
                kseq == rule@,
                cv == c@,
                self@ == orig,
                orig == old(self)@,
                n == self.entries@.len(),
                forall|k: int| 0 <= k < i ==> #[trigger] orig[k].0 != kseq,
            decreases n - i,
        {
            let hit = str_eq(self.entries[i].0.as_str(), rule.as_str());
            proof {
                assert(orig[i as int] == (self.entries@[i as int].0@, self.entries@[i as int].1@));
            }
            if hit {
                proof {
                    assert(orig[i as int].0 == kseq);
                }
                self.entries.set(i, (rule, c));
                proof {
                    assert(self@ =~~= orig.update(i as int, (kseq, cv)));
                    lemma_cfg_set_at(orig, kseq, cv, i as int);
                }
                return ;
            }
            proof {
                assert(orig[i as int].0 != kseq);
            }
            i = i + 1;
        }
        self.entries.push((rule, c));
        proof {
            lemma_cfg_set_absent(orig, kseq, cv);
            assert(self@ =~~= orig + seq![(kseq, cv)]);
        }
    }
}

proof fn lemma_cfg_set_at(s: CfgMapV, k: Seq<char>, v: RuleConfigV, i: int)
    requires
        0 <= i < s.len(),
        s[i].0 == k,
        forall|m: int| 0 <= m < i ==> #[trigger] s[m].0 != k,
    ensures
        cfg_set(s, k, v) == s.update(i, (k, v)),
    decreases i,
{
    if i == 0 {
        assert(seq![(k, v)] + s.skip(1) =~= s.update(0, (k, v)));
    } else {
        assert(s.skip(1)[i - 1].0 == s[i].0);
        assert forall|m: int| 0 <= m < i - 1 implies #[trigger] s.skip(1)[m].0 != k by {
            assert(s.skip(1)[m] == s[m + 1]);
        }
        lemma_cfg_set_at(s.skip(1), k, v, i - 1);
        assert(seq![s[0]] + s.skip(1).update(i - 1, (k, v)) =~= s.update(i, (k, v)));
    }
}

proof fn lemma_cfg_set_absent(s: CfgMapV, k: Seq<char>, v: RuleConfigV)
    requires
        forall|m: int| 0 <= m < s.len() ==> #[trigger] s[m].0 != k,
    ensures
        cfg_set(s, k, v) == s + seq![(k, v)],
    decreases s.len(),
{
    if s.len() == 0 {
        assert(cfg_set(s, k, v) =~= s + seq![(k, v)]);
    } else {
        assert forall|m: int| 0 <= m < s.skip(1).len() implies #[trigger] s.skip(1)[m].0
            != k by {
            assert(s.skip(1)[m] == s[m + 1]);
        }
        lemma_cfg_set_absent(s.skip(1), k, v);
        assert(seq![s[0]] + (s.skip(1) + seq![(k, v)]) =~= s + seq![(k, v)]);
    }
}

/// The mathematical state of the inline configuration machine.
pub ghost struct InlineV {
    /// Directives found, with the line each stands on.
    pub directives: Seq<(int, DirectiveV)>,
    /// Accumulated per-rule parameter overrides.
    pub overrides: CfgMapV,
    /// Rules disabled at block scope (with `*` for all), with the line each
    /// disable began at.
    pub block_disabled: ScopedV,
    /// Rules disabled at section scope (with `*` for all), with the line
    /// each disable began at.
    pub section_disabled: ScopedV,
    /// Rules disabled at single lines.
    pub line_disabled: LineRulesV,
    /// Whether the whole file is ignored.
    pub file_ignored: bool,
}

/// The state at the start of a file: nothing disabled, nothing overridden.
pub open spec fn inline_init() -> InlineV {
    InlineV {
        directives: Seq::empty(),
        overrides: Seq::empty(),
        block_disabled: Seq::empty(),
        section_disabled: Seq::empty(),
        line_disabled: Seq::empty(),
        file_ignored: false,
    }
}

/// Value coercion for `set`/`config`: boolean, else integer, else string.
pub open spec fn coerce_value_spec(v: Seq<char>) -> ConfigValueV {
    if parse_bool_spec(v) is Some {
        ConfigValueV::Bool(parse_bool_spec(v)->Some_0)
    } else if parse_i64_spec(v) is Some {
        ConfigValueV::Int(parse_i64_spec(v)->Some_0)
    } else {
        ConfigValueV::Str(v)
    }
}

/// A rule set folded into a scoped disabled-association, each disable
/// starting at `line`.
pub open spec fn disable_into(s: ScopedV, line: int, rules: Seq<Seq<char>>) -> ScopedV
    decreases rules.len(),
{
    if rules.len() == 0 {
        s
    } else {
        disable_into(sc_mark(s, rules[0], line), line, rules.skip(1))
    }
}

/// Each named rule's records removed from a scoped disabled-association.
pub open spec fn enable_from(s: ScopedV, rules: Seq<Seq<char>>) -> ScopedV
    decreases rules.len(),
{
    if rules.len() == 0 {
        s
    } else {
        enable_from(sc_remove(s, rules[0]), rules.skip(1))
    }
}

/// Each rule inserted into the line-keyed set for `line`.
pub open spec fn line_disable_into(s: LineRulesV, line: int, rules: Seq<Seq<char>>) -> LineRulesV
    decreases rules.len(),
{
    if rules.len() == 0 {
        s
    } else {
        line_disable_into(lr_add(s, line, rules[0]), line, rules.skip(1))
    }
}

/// Directive parameters coerced and merged into configuration parameters,
/// in order.
pub open spec fn apply_params_rec(ps: StrMapV, acc: ParamsV) -> ParamsV
    decreases ps.len(),
{
    if ps.len() == 0 {
        acc
    } else {
        apply_params_rec(ps.skip(1), params_set(acc, ps[0].0, coerce_value_spec(ps[0].1)))
    }
}

/// The generic default configuration: enabled, `Error` level, no parameters.
pub open spec fn default_rc() -> RuleConfigV {
    RuleConfigV { enabled: true, level: Level::Error, params: Seq::empty() }
}

/// `set`/`config` parameters merged into a rule's override configuration.
pub open spec fn overrides_apply(m: CfgMapV, rule: Seq<char>, ps: StrMapV) -> CfgMapV {
    let cur = match cfg_get(m, rule) {
        Some(c) => c,
        None => default_rc(),
    };
    let upd = RuleConfigV {
        enabled: cur.enabled,
        level: cur.level,
        params: apply_params_rec(ps, cur.params),
    };
    cfg_set(m, rule, upd)
}

/// The sentinel naming every rule.
pub open spec fn star() -> Seq<char> {
    "*"@
}

/// One directive applied to the state; `Disable` with line scope is the one
/// malformed case.
pub open spec fn apply_directive_spec(st: InlineV, line: int, d: DirectiveV) -> Result<
    InlineV,
    (),
> {
    match d {
        DirectiveV::Disable { rules, scope } => {
            if scope == Scope::Line {
                Err(())
            } else if scope == Scope::Section {
                Ok(
                    InlineV {
                        section_disabled: if rules.len() == 0 {
                            seq![(star(), line)]
                        } else {
                            disable_into(st.section_disabled, line, rules)
                        },
                        ..st
                    },
                )
            } else {
                Ok(
                    InlineV {
                        block_disabled: if rules.len() == 0 {
                            seq![(star(), line)]
                        } else {
                            disable_into(st.block_disabled, line, rules)
                        },
                        ..st
                    },
                )
            }
        },
        DirectiveV::DisableLine { rules } => Ok(
            InlineV {
                line_disabled: if rules.len() == 0 {
                    lr_add(st.line_disabled, line, star())
                } else {
                    line_disable_into(st.line_disabled, line, rules)
                },
                ..st
            },
        ),
        DirectiveV::Enable { rules, scope: _ } => {
            if rules.len() == 0 {
                Ok(
                    InlineV {
                        block_disabled: Seq::empty(),
                        section_disabled: Seq::empty(),
                        ..st
                    },
                )
            } else {
                Ok(
                    InlineV {
                        block_disabled: enable_from(st.block_disabled, rules),
                        section_disabled: enable_from(st.section_disabled, rules),
                        ..st
                    },
                )
            }
        },
        DirectiveV::SetParam { rule, params } => Ok(
            InlineV { overrides: overrides_apply(st.overrides, rule, params), ..st },
        ),
        DirectiveV::Config { rule, params } => Ok(
            InlineV { overrides: overrides_apply(st.overrides, rule, params), ..st },
        ),
        DirectiveV::IgnoreFile => Ok(InlineV { file_ignored: true, ..st }),
        DirectiveV::IgnoreSection { rules } => Ok(
            InlineV {
                section_disabled: if rules.len() == 0 {
                    seq![(star(), line)]
                } else {
                    disable_into(st.section_disabled, line, rules)
                },
                ..st
            },
        ),
    }
}

/// The directive a line yields: the comment from its first `#`, parsed.
pub open spec fn line_directive_spec(line: Seq<char>) -> Result<Option<DirectiveV>, ()> {
    match find_char_spec(line, '#') {
        Some(i) => parse_directive_spec(line.skip(i)),
        None => Ok(None),
    }
}

/// The state machine run over the remaining lines, the next carrying number
/// `lineno`.
pub open spec fn process_lines_rec(st: InlineV, lines: Seq<Seq<char>>, lineno: int) -> Result<
    InlineV,
    (),
>
    decreases lines.len(),
{
    if lines.len() == 0 {
        Ok(st)
    } else {
        match line_directive_spec(lines[0]) {
            Err(_) => Err(()),
            Ok(None) => process_lines_rec(st, lines.skip(1), lineno + 1),
            Ok(Some(d)) => {
                let recorded = InlineV { directives: st.directives + seq![(lineno, d)], ..st };
                match apply_directive_spec(recorded, lineno, d) {
                    Err(_) => Err(()),
                    Ok(st2) => process_lines_rec(st2, lines.skip(1), lineno + 1),
                }
            },
        }
    }
}

/// The whole file processed from a fresh state.
pub open spec fn process_file_spec(content: Seq<char>) -> Result<InlineV, ()> {
    process_lines_rec(inline_init(), lines_spec(content), 1)
}

/// Whether `rule` is disabled at `line` under state `st`: a block- or
/// section-scope disable reaches only the lines from its own line on.
pub open spec fn is_rule_disabled_spec(st: InlineV, rule: Seq<char>, line: int) -> bool {
    ||| st.file_ignored
    ||| match lr_get(st.line_disabled, line) {
        Some(s) => s.contains(star()) || s.contains(rule),
        None => false,
    }
    ||| sc_active(st.block_disabled, star(), line)
    ||| sc_active(st.block_disabled, rule, line)
    ||| sc_active(st.section_disabled, star(), line)
    ||| sc_active(st.section_disabled, rule, line)
}

/// Changing only the recorded-directives field commutes with applying a
/// directive: application never reads that field.
proof fn lemma_apply_keeps_directives(
    st: InlineV,
    line: int,
    d: DirectiveV,
    ds: Seq<(int, DirectiveV)>,
)
    ensures
        ({
            let st2 = InlineV { directives: ds, ..st };
            match (apply_directive_spec(st, line, d), apply_directive_spec(st2, line, d)) {
                (Ok(a), Ok(b)) => b == (InlineV { directives: ds, ..a }),
                (Err(e1), Err(e2)) => true,
                _ => false,
            }
        }),
{
}

/// Manages inline configuration from comment directives.
#[derive(Debug)]
pub struct InlineConfigManager {
    pub processor: CommentProcessor,
    /// Directives found, with the line each stands on.
    pub directives: Vec<(usize, Directive)>,
    /// Currently active rule configuration overrides.
    pub active_configs: ConfigMap,
    /// Rules that are currently disabled, with starting lines.
    pub disabled_rules: ScopedRules,
    /// Rules disabled for specific lines.
    pub line_disabled_rules: LineRules,
    /// Whether the entire file should be ignored.
    pub file_ignored: bool,
    /// Rules disabled for the current section, with starting lines.
    pub current_section_rules: ScopedRules,
}

impl View for InlineConfigManager {
    type V = InlineV;

    open spec fn view(&self) -> InlineV {
        InlineV {
            directives: Seq::new(
                self.directives@.len(),
                |i: int| (self.directives@[i].0 as int, self.directives@[i].1@),
            ),
            overrides: self.active_configs@,
            block_disabled: self.disabled_rules@,
            section_disabled: self.current_section_rules@,
            line_disabled: self.line_disabled_rules@,
            file_ignored: self.file_ignored,
        }
    }
}

impl InlineConfigManager {
    /// Create a new inline configuration manager.
    pub fn new() -> (r: InlineConfigManager)
        ensures
            r@ == inline_init(),
    {
        let r = InlineConfigManager {
            processor: CommentProcessor::new(),
            directives: Vec::new(),
            active_configs: ConfigMap::new(),
            disabled_rules: ScopedRules::new(),
            line_disabled_rules: LineRules::new(),
            file_ignored: false,
            current_section_rules: ScopedRules::new(),
        };
        proof {
            assert(r@.directives =~= inline_init().directives);
        }
        r
    }

    /// Parse a string value into a configuration value: boolean, else
    /// integer, else string.
    pub fn parse_config_value(value: &str) -> (r: Result<ConfigValue, DirectiveParseError>)
        ensures
            match r {
                Ok(v) => v@ == coerce_value_spec(value@),
                Err(_) => false,
            },
    {
        let chars = str_chars(value);
        match parse_bool(chars.as_slice()) {
            Some(b) => Ok(ConfigValue::Bool(b)),
            None => {
                match parse_i64(chars.as_slice()) {
                    Some(i) => Ok(ConfigValue::Int(i)),
                    None => Ok(ConfigValue::String(value.to_owned())),
                }
            },
        }
    }

    /// Check if the entire file should be ignored.
    pub fn is_file_ignored(&self) -> (r: bool)
        ensures
            r == self@.file_ignored,
    {
        self.file_ignored
    }

    /// Check if a rule is disabled at a specific line.
    pub fn is_rule_disabled(&self, rule_id: &str, line: usize) -> (r: bool)
        ensures
            r == is_rule_disabled_spec(self@, rule_id@, line as int),
    {
        if self.file_ignored {
            return true;
        }
        if self.line_disabled_rules.contains(line, "*") || self.line_disabled_rules.contains(
            line,
            rule_id,
        ) {
            return true;
        }
        if self.disabled_rules.active_at("*", line) || self.disabled_rules.active_at(
            rule_id,
            line,
        ) {
            return true;
        }
        if self.current_section_rules.active_at("*", line) || self.current_section_rules.active_at(
            rule_id,
            line,
        ) {
            return true;
        }
        false
    }

    /// Get the accumulated override configuration for a rule, independent of
    /// the line.
    pub fn get_rule_config(&self, rule_id: &str, _line: usize) -> (r: Option<&RuleConfig>)
        ensures
            match r {
                Some(c) => cfg_get(self@.overrides, rule_id@) == Some(c@),
                None => cfg_get(self@.overrides, rule_id@) is None,
            },
    {
        self.active_configs.get(rule_id)
    }

    /// Reset state for processing a new file.
    fn reset(&mut self)
        ensures
            final(self)@ == inline_init(),
    {
        self.directives.clear();
        self.active_configs.clear();
        self.disabled_rules.clear();
        self.line_disabled_rules.clear();
        self.file_ignored = false;
        self.current_section_rules.clear();
        proof {
            assert(self@.directives =~= inline_init().directives);
        }
    }

    /// Merge a directive's parameters into a rule's override configuration.
    fn apply_override(&mut self, rule: &String, params: &ParamMap)
        ensures
            final(self)@ == (InlineV {
                overrides: overrides_apply(old(self)@.overrides, rule@, params@),
                ..old(self)@
            }),
    {
        let ghost origm = self@.overrides;
        let mut cfg: RuleConfig = match self.active_configs.get(rule.as_str()) {
            Some(c) => c.duplicate(),
            None => RuleConfig::new(true, Level::Error),
        };
        let n = params.entries.len();
        let ghost psv = params@;
        let ghost params0 = cfg@.params;
        let mut k: usize = 0;
        proof {
            assert(psv.skip(0) =~= psv);
        }
        while k < n
            invariant
                0 <= k <= n,
                n == params.entries@.len(),
                psv == params@,
                cfg@.enabled == (match cfg_get(origm, rule@) {
                    Some(c) => c,
                    None => default_rc(),
                }).enabled,
                cfg@.level == (match cfg_get(origm, rule@) {
                    Some(c) => c,
                    None => default_rc(),
                }).level,
                apply_params_rec(psv.skip(k as int), cfg@.params) == apply_params_rec(
                    psv,
                    params0,
                ),
                params0 == (match cfg_get(origm, rule@) {
                    Some(c) => c,
                    None => default_rc(),
                }).params,
            decreases n - k,
        {
            let key = &params.entries[k].0;
            let value = &params.entries[k].1;
            proof {
                assert(psv[k as int] == (params.entries@[k as int].0@, params.entries@[k as int].1@));
                assert(psv.skip(k as int)[0] == psv[k as int]);
                assert(psv.skip(k as int).skip(1) =~= psv.skip(k + 1));
            }
            let cv = match Self::parse_config_value(value.as_str()) {
                Ok(v) => v,
                Err(_) => {
                    proof {
                        assert(false);
                    }
                    ConfigValue::Bool(false)
                },
            };
            cfg.set_param(key.as_str(), cv);
            k = k + 1;
        }
        proof {
            assert(apply_params_rec(psv.skip(n as int), cfg@.params) == cfg@.params);
        }
        let owned = rule.clone();
        self.active_configs.set(owned, cfg);
    }

    /// Apply a directive to the current state.
    fn apply_directive(&mut self, line_number: usize, directive: &Directive) -> (r: Result<
        (),
        DirectiveParseError,
    >)
        ensures
            match r {
                Ok(_) => apply_directive_spec(old(self)@, line_number as int, directive@) == Ok::<
                    _,
                    (),
                >(final(self)@),
                Err(_) => apply_directive_spec(old(self)@, line_number as int, directive@) is Err,
            },
    {
        match directive {
            Directive::Disable { rules, scope } => {
                match scope {
                    Scope::Line => {
                        return Err(
                            DirectiveParseError {
                                message: "Line scope should use DisableLine directive".to_owned(),
                            },
                        );
                    },
                    Scope::Section => {
                        if rules.len() == 0 {
                            self.current_section_rules.clear();
                            self.current_section_rules.mark("*".to_owned(), line_number);
                            proof {
                                assert(self@.section_disabled =~= seq![
                                    (star(), line_number as int),
                                ]);
                            }
                        } else {
                            self.disable_into_section(line_number, rules);
                        }
                    },
                    _ => {
                        if rules.len() == 0 {
                            self.disabled_rules.clear();
                            self.disabled_rules.mark("*".to_owned(), line_number);
                            proof {
                                assert(self@.block_disabled =~= seq![
                                    (star(), line_number as int),
                                ]);
                            }
                        } else {
                            self.disable_into_block(line_number, rules);
                        }
                    },
                }
            },
            Directive::DisableLine { rules } => {
                if rules.len() == 0 {
                    self.line_disabled_rules.add(line_number, "*".to_owned());
                } else {
                    let n = rules.len();
                    let mut k: usize = 0;
                    let ghost rv = strings_view(rules@);
                    let ghost pre = old(self)@;
                    proof {
                        assert(rv.skip(0) =~= rv);
                    }
                    while k < n
                        invariant
                            0 <= k <= n,
                            n == rules@.len(),
                            rv == strings_view(rules@),
                            self@ == (InlineV {
                                line_disabled: self@.line_disabled,
                                ..pre
                            }),
                            pre == old(self)@,
                            line_disable_into(
                                self@.line_disabled,
                                line_number as int,
                                rv.skip(k as int),
                            ) == line_disable_into(pre.line_disabled, line_number as int, rv),
                        decreases n - k,
                    {
                        proof {
                            assert(rv.skip(k as int)[0] == rv[k as int]);
                            assert(rv[k as int] == rules@[k as int]@);
                            assert(rv.skip(k as int).skip(1) =~= rv.skip(k + 1));
                        }
                        let item = rules[k].clone();
                        self.line_disabled_rules.add(line_number, item);
                        k = k + 1;
                    }
                    proof {
                        assert(line_disable_into(
                            self@.line_disabled,
                            line_number as int,
                            rv.skip(n as int),
                        ) == self@.line_disabled);
                    }
                }
            },
            Directive::Enable { rules, scope: _ } => {
                if rules.len() == 0 {
                    self.disabled_rules.clear();
                    self.current_section_rules.clear();
                } else {
                    let n = rules.len();
                    let mut k: usize = 0;
                    let ghost rv = strings_view(rules@);
                    let ghost pre = old(self)@;
                    proof {
                        assert(rv.skip(0) =~= rv);
                    }
                    while k < n
                        invariant
                            0 <= k <= n,
                            n == rules@.len(),
                            rv == strings_view(rules@),
                            self@ == (InlineV {
                                block_disabled: self@.block_disabled,
                                section_disabled: self@.section_disabled,
                                ..pre
                            }),
                            pre == old(self)@,
                            enable_from(self@.block_disabled, rv.skip(k as int)) == enable_from(
                                pre.block_disabled,
                                rv,
                            ),
                            enable_from(self@.section_disabled, rv.skip(k as int)) == enable_from(
                                pre.section_disabled,
                                rv,
                            ),
                        decreases n - k,
                    {
                        proof {
                            assert(rv.skip(k as int)[0] == rv[k as int]);
                            assert(rv[k as int] == rules@[k as int]@);
                            assert(rv.skip(k as int).skip(1) =~= rv.skip(k + 1));
                        }
                        self.disabled_rules.remove(rules[k].as_str());
                        self.current_section_rules.remove(rules[k].as_str());
                        k = k + 1;
                    }
                    proof {
                        assert(enable_from(self@.block_disabled, rv.skip(n as int))
                            == self@.block_disabled);
                        assert(enable_from(self@.section_disabled, rv.skip(n as int))
                            == self@.section_disabled);
                    }
                }
            },
            Directive::SetParam { rule, params } => {
                self.apply_override(rule, params);
            },
            Directive::Config { rule, params } => {
                self.apply_override(rule, params);
            },
            Directive::IgnoreFile => {
                self.file_ignored = true;
            },
            Directive::IgnoreSection { rules } => {
                if rules.len() == 0 {
                    self.current_section_rules.clear();
                    self.current_section_rules.mark("*".to_owned(), line_number);
                    proof {
                        assert(self@.section_disabled =~= seq![(star(), line_number as int)]);
                    }
                } else {
                    self.disable_into_section(line_number, rules);
                }
            },
        }
        Ok(())
    }

    /// Record each named rule in the block-disabled association.
    fn disable_into_block(&mut self, line_number: usize, rules: &Vec<String>)
        ensures
            final(self)@ == (InlineV {
                block_disabled: disable_into(
                    old(self)@.block_disabled,
                    line_number as int,
                    strings_view(rules@),
                ),
                ..old(self)@
            }),
    {
        let n = rules.len();
        let mut k: usize = 0;
        let ghost rv = strings_view(rules@);
        let ghost pre = old(self)@;
        proof {
            assert(rv.skip(0) =~= rv);
        }
        while k < n
            invariant
                0 <= k <= n,
                n == rules@.len(),
                rv == strings_view(rules@),
                self@ == (InlineV { block_disabled: self@.block_disabled, ..pre }),
                pre == old(self)@,
                disable_into(self@.block_disabled, line_number as int, rv.skip(k as int))
                    == disable_into(pre.block_disabled, line_number as int, rv),
            decreases n - k,
        {
            proof {
                assert(rv.skip(k as int)[0] == rv[k as int]);
                assert(rv[k as int] == rules@[k as int]@);
                assert(rv.skip(k as int).skip(1) =~= rv.skip(k + 1));
            }
            let item = rules[k].clone();
            self.disabled_rules.mark(item, line_number);
            k = k + 1;
        }
        proof {
            assert(disable_into(self@.block_disabled, line_number as int, rv.skip(n as int))
                == self@.block_disabled);
        }
    }

    /// Record each named rule in the section-disabled association.
    fn disable_into_section(&mut self, line_number: usize, rules: &Vec<String>)
        ensures
            final(self)@ == (InlineV {
                section_disabled: disable_into(
                    old(self)@.section_disabled,
                    line_number as int,
                    strings_view(rules@),
                ),
                ..old(self)@
            }),
    {
        let n = rules.len();
        let mut k: usize = 0;
        let ghost rv = strings_view(rules@);
        let ghost pre = old(self)@;
        proof {
            assert(rv.skip(0) =~= rv);
        }
        while k < n
            invariant
                0 <= k <= n,
                n == rules@.len(),
                rv == strings_view(rules@),
                self@ == (InlineV { section_disabled: self@.section_disabled, ..pre }),
                pre == old(self)@,
                disable_into(self@.section_disabled, line_number as int, rv.skip(k as int))
                    == disable_into(pre.section_disabled, line_number as int, rv),
            decreases n - k,
        {
            proof {
                assert(rv.skip(k as int)[0] == rv[k as int]);
                assert(rv[k as int] == rules@[k as int]@);
                assert(rv.skip(k as int).skip(1) =~= rv.skip(k + 1));
            }
            let item = rules[k].clone();
            self.current_section_rules.mark(item, line_number);
            k = k + 1;
        }
        proof {
            assert(disable_into(self@.section_disabled, line_number as int, rv.skip(n as int))
                == self@.section_disabled);
        }
    }

    /// Process a file's content: extract and apply every inline directive.
    pub fn process_file(&mut self, content: &str) -> (r: Result<(), DirectiveParseError>)
        ensures
            match r {
                Ok(_) => process_file_spec(content@) == Ok::<_, ()>(final(self)@),
                Err(_) => process_file_spec(content@) is Err,
            },
    {
        self.reset();
        let chars = str_chars(content);
        let lines = split_lines(chars.as_slice());
        let ghost linesv = lines_spec(content@);
        proof {
            assert(crate::chars::views_of(lines@) == linesv);
        }
        let n = lines.len();
        let mut i: usize = 0;
        proof {
            assert(linesv.skip(0) =~= linesv);
        }
        while i < n
            invariant
                0 <= i <= n,
                n == lines@.len(),
                crate::chars::views_of(lines@) == linesv,
                process_lines_rec(self@, linesv.skip(i as int), i + 1) == process_file_spec(
                    content@,
                ),
            decreases n - i,
        {
            let line: &Vec<char> = &lines[i];
            let line_number = i + 1;
            proof {
                assert(linesv[i as int] == line@);
                assert(linesv.skip(i as int)[0] == linesv[i as int]);
                assert(linesv.skip(i as int).skip(1) =~= linesv.skip(i + 1));
            }
            match find_char(line.as_slice(), '#') {
                Some(pos) => {
                    proof {
                        crate::chars::lemma_find_char_spec(line@, '#');
                    }
                    let csub = &line.as_slice()[pos..line.len()];
                    proof {
                        assert(csub@ =~= line@.skip(pos as int));
                    }
                    let comment = string_from_chars(csub);
                    match self.processor.parse_directive(comment.as_str()) {
                        Ok(Some(d)) => {
                            let ghost st_before = self@;
                            let ghost recorded = InlineV {
                                directives: st_before.directives + seq![
                                    (line_number as int, d@),
                                ],
                                ..st_before
                            };
                            match self.apply_directive(line_number, &d) {
                                Ok(_) => {},
                                Err(e) => {
                                    proof {
                                        lemma_apply_keeps_directives(
                                            st_before,
                                            line_number as int,
                                            d@,
                                            recorded.directives,
                                        );
                                    }
                                    return Err(e);
                                },
                            }
                            let ghost st_after = self@;
                            self.directives.push((line_number, d));
                            proof {
                                lemma_apply_keeps_directives(
                                    st_before,
                                    line_number as int,
                                    d@,
                                    recorded.directives,
                                );
                                assert(self@.directives =~= st_before.directives + seq![
                                    (line_number as int, d@),
                                ]);
                                assert(self@ == (InlineV {
                                    directives: recorded.directives,
                                    ..st_after
                                }));
                            }
                        },
                        Ok(None) => {},
                        Err(e) => {
                            return Err(e);
                        },
                    }
                },
                None => {},
            }
            i = i + 1;
        }
        proof {
            assert(linesv.skip(n as int) =~= Seq::<Seq<char>>::empty());
        }
        Ok(())
    }
}

impl Default for InlineConfigManager {
    fn default() -> Self {
        InlineConfigManager::new()
    }
}


/// Applying a directive never clears the file-ignored flag.
proof fn lemma_apply_keeps_ignored(st: InlineV, line: int, d: DirectiveV)
    ensures
        match apply_directive_spec(st, line, d) {
            Ok(st2) => st.file_ignored ==> st2.file_ignored,
            Err(_) => true,
        },
{
}

/// A run of the machine keeps the file-ignored flag once set.
proof fn lemma_fold_keeps_ignored(st: InlineV, lines: Seq<Seq<char>>, lineno: int)
    requires
        st.file_ignored,
    ensures
        match process_lines_rec(st, lines, lineno) {
            Ok(st2) => st2.file_ignored,
            Err(_) => true,
        },
    decreases lines.len(),
{
    if lines.len() == 0 {
    } else {
        match line_directive_spec(lines[0]) {
            Err(_) => {},
            Ok(None) => {
                lemma_fold_keeps_ignored(st, lines.skip(1), lineno + 1);
            },
            Ok(Some(d)) => {
                let recorded = InlineV { directives: st.directives + seq![(lineno, d)], ..st };
                lemma_apply_keeps_ignored(recorded, lineno, d);
                match apply_directive_spec(recorded, lineno, d) {
                    Err(_) => {},
                    Ok(st2) => {
                        lemma_fold_keeps_ignored(st2, lines.skip(1), lineno + 1);
                    },
                }
            },
        }
    }
}

/// When the run succeeds and some line yields the ignore-file directive, the
/// final state has the file ignored.
pub proof fn lemma_fold_ignore_file(st: InlineV, lines: Seq<Seq<char>>, lineno: int, i: int)
    requires
        0 <= i < lines.len(),
        line_directive_spec(lines[i]) == Ok::<_, ()>(Some(DirectiveV::IgnoreFile)),
        process_lines_rec(st, lines, lineno) is Ok,
    ensures
        process_lines_rec(st, lines, lineno)->Ok_0.file_ignored,
    decreases i,
{
    match line_directive_spec(lines[0]) {
        Err(_) => {},
        Ok(None) => {
            if i == 0 {
            } else {
                assert(lines.skip(1)[i - 1] == lines[i]);
                lemma_fold_ignore_file(st, lines.skip(1), lineno + 1, i - 1);
            }
        },
        Ok(Some(d)) => {
            let recorded = InlineV { directives: st.directives + seq![(lineno, d)], ..st };
            match apply_directive_spec(recorded, lineno, d) {
                Err(_) => {},
                Ok(st2) => {
                    if i == 0 {
                        assert(st2.file_ignored);
                        lemma_fold_keeps_ignored(st2, lines.skip(1), lineno + 1);
                    } else {
                        assert(lines.skip(1)[i - 1] == lines[i]);
                        lemma_fold_ignore_file(st2, lines.skip(1), lineno + 1, i - 1);
                    }
                },
            }
        },
    }
}

/// A run over lines that carry no directive leaves the state unchanged.
pub proof fn lemma_fold_all_none(st: InlineV, lines: Seq<Seq<char>>, lineno: int)
    requires
        forall|k: int|
            0 <= k < lines.len() ==> line_directive_spec(#[trigger] lines[k]) == Ok::<_, ()>(
                None::<DirectiveV>,
            ),
    ensures
        process_lines_rec(st, lines, lineno) == Ok::<_, ()>(st),
    decreases lines.len(),
{
    if lines.len() > 0 {
        assert(line_directive_spec(lines[0]) == Ok::<_, ()>(None::<DirectiveV>));
        assert forall|k: int|
            0 <= k < lines.skip(1).len() implies line_directive_spec(
            #[trigger] lines.skip(1)[k],
        ) == Ok::<_, ()>(None::<DirectiveV>) by {
            assert(lines.skip(1)[k] == lines[k + 1]);
        }
        lemma_fold_all_none(st, lines.skip(1), lineno + 1);
    }
}

/// The final state of a file whose only directive stands on one line: the
/// directive applied, once, to the fresh state.
pub proof fn lemma_fold_single_directive(
    lines: Seq<Seq<char>>,
    i: int,
    d: DirectiveV,
    st: InlineV,
)
    requires
        0 <= i < lines.len(),
        line_directive_spec(lines[i]) == Ok::<_, ()>(Some(d)),
        forall|k: int|
            0 <= k < lines.len() && k != i ==> line_directive_spec(#[trigger] lines[k]) == Ok::<
                _,
                (),
            >(None::<DirectiveV>),
        process_lines_rec(inline_init(), lines, 1) == Ok::<_, ()>(st),
    ensures
        apply_directive_spec(
            InlineV { directives: seq![(i + 1, d)], ..inline_init() },
            i + 1,
            d,
        ) == Ok::<_, ()>(st),
{
    lemma_fold_single_from(inline_init(), lines, 1, i, d, st);
}

proof fn lemma_fold_single_from(
    st0: InlineV,
    lines: Seq<Seq<char>>,
    lineno: int,
    i: int,
    d: DirectiveV,
    st: InlineV,
)
    requires
        0 <= i < lines.len(),
        line_directive_spec(lines[i]) == Ok::<_, ()>(Some(d)),
        forall|k: int|
            0 <= k < lines.len() && k != i ==> line_directive_spec(#[trigger] lines[k]) == Ok::<
                _,
                (),
            >(None::<DirectiveV>),
        process_lines_rec(st0, lines, lineno) == Ok::<_, ()>(st),
    ensures
        apply_directive_spec(
            InlineV { directives: st0.directives + seq![(lineno + i, d)], ..st0 },
            lineno + i,
            d,
        ) == Ok::<_, ()>(st),
    decreases i,
{
    if i == 0 {
        let recorded = InlineV { directives: st0.directives + seq![(lineno, d)], ..st0 };
        match apply_directive_spec(recorded, lineno, d) {
            Err(_) => {
                assert(false);
            },
            Ok(st2) => {
                assert forall|k: int|
                    0 <= k < lines.skip(1).len() implies line_directive_spec(
                    #[trigger] lines.skip(1)[k],
                ) == Ok::<_, ()>(None::<DirectiveV>) by {
                    assert(lines.skip(1)[k] == lines[k + 1]);
                }
                lemma_fold_all_none(st2, lines.skip(1), lineno + 1);
            },
        }
    } else {
        assert(line_directive_spec(lines[0]) == Ok::<_, ()>(None::<DirectiveV>));
        assert forall|k: int|
            0 <= k < lines.skip(1).len() && k != i - 1 implies line_directive_spec(
            #[trigger] lines.skip(1)[k],
        ) == Ok::<_, ()>(None::<DirectiveV>) by {
            assert(lines.skip(1)[k] == lines[k + 1]);
        }
        assert(lines.skip(1)[i - 1] == lines[i]);
        lemma_fold_single_from(st0, lines.skip(1), lineno + 1, i - 1, d, st);
    }
}

/// A `disable-line` directive naming one rule disables that rule at its own
/// line only; other lines and other rules are unaffected.
pub proof fn lemma_disable_line_scope(
    content: Seq<char>,
    nl: int,
    rid: Seq<char>,
    st: InlineV,
)
    requires
        process_file_spec(content) == Ok::<_, ()>(st),
        0 <= nl - 1 < lines_spec(content).len(),
        line_directive_spec(lines_spec(content)[nl - 1]) == Ok::<_, ()>(
            Some(DirectiveV::DisableLine { rules: seq![rid] }),
        ),
        forall|k: int|
            0 <= k < lines_spec(content).len() && k != nl - 1 ==> line_directive_spec(
                #[trigger] lines_spec(content)[k],
            ) == Ok::<_, ()>(None::<DirectiveV>),
        rid != star(),
    ensures
        is_rule_disabled_spec(st, rid, nl),
        forall|l: int| l != nl ==> !is_rule_disabled_spec(st, rid, l),
        forall|r2: Seq<char>, l: int|
            r2 != rid ==> !is_rule_disabled_spec(st, r2, l),
{
    let d = DirectiveV::DisableLine { rules: seq![rid] };
    lemma_fold_single_directive(lines_spec(content), nl - 1, d, st);
    let recorded = InlineV { directives: seq![(nl, d)], ..inline_init() };
    let rs = seq![rid];
    assert(rs.len() == 1 && rs[0] == rid);
    assert(recorded.line_disabled =~= Seq::<(int, Set<Seq<char>>)>::empty());
    let s1 = lr_add(Seq::<(int, Set<Seq<char>>)>::empty(), nl, rid);
    assert(s1 =~= seq![(nl, Set::<Seq<char>>::empty().insert(rid))]);
    assert(line_disable_into(recorded.line_disabled, nl, rs) == line_disable_into(
        s1,
        nl,
        rs.skip(1),
    ));
    assert(rs.skip(1) =~= Seq::<Seq<char>>::empty());
    assert(line_disable_into(s1, nl, Seq::<Seq<char>>::empty()) == s1);
    assert(st.line_disabled == s1);
    assert(st.block_disabled =~= Seq::<(Seq<char>, int)>::empty());
    assert(st.section_disabled =~= Seq::<(Seq<char>, int)>::empty());
    assert(!st.file_ignored);
    assert(lr_get(st.line_disabled, nl) == Some(Set::<Seq<char>>::empty().insert(rid)));
    assert(st.line_disabled.skip(1) =~= Seq::<(int, Set<Seq<char>>)>::empty());
    assert forall|l: int| l != nl implies !is_rule_disabled_spec(st, rid, l) by {
        assert(lr_get(st.line_disabled, l) == lr_get(
            Seq::<(int, Set<Seq<char>>)>::empty(),
            l,
        ));
    }
    assert forall|r2: Seq<char>, l: int| r2 != rid implies !is_rule_disabled_spec(
        st,
        r2,
        l,
    ) by {
        if l == nl {
            assert(!Set::<Seq<char>>::empty().insert(rid).contains(r2));
            assert(!Set::<Seq<char>>::empty().insert(rid).contains(star()));
        } else {
            assert(lr_get(st.line_disabled, l) == lr_get(
                Seq::<(int, Set<Seq<char>>)>::empty(),
                l,
            ));
        }
    }
}

/// A `disable-line` directive naming no rule disables every rule at its own
/// line only.
pub proof fn lemma_disable_line_all(content: Seq<char>, nl: int, st: InlineV)
    requires
        process_file_spec(content) == Ok::<_, ()>(st),
        0 <= nl - 1 < lines_spec(content).len(),
        line_directive_spec(lines_spec(content)[nl - 1]) == Ok::<_, ()>(
            Some(DirectiveV::DisableLine { rules: Seq::empty() }),
        ),
        forall|k: int|
            0 <= k < lines_spec(content).len() && k != nl - 1 ==> line_directive_spec(
                #[trigger] lines_spec(content)[k],
            ) == Ok::<_, ()>(None::<DirectiveV>),
    ensures
        forall|r: Seq<char>| is_rule_disabled_spec(st, r, nl),
        forall|r: Seq<char>, l: int| l != nl ==> !is_rule_disabled_spec(st, r, l),
{
    let d = DirectiveV::DisableLine { rules: Seq::empty() };
    lemma_fold_single_directive(lines_spec(content), nl - 1, d, st);
    let s1 = lr_add(Seq::<(int, Set<Seq<char>>)>::empty(), nl, star());
    assert(s1 =~= seq![(nl, Set::<Seq<char>>::empty().insert(star()))]);
    assert(st.line_disabled == s1);
    assert(lr_get(st.line_disabled, nl) == Some(Set::<Seq<char>>::empty().insert(star())));
    assert(st.line_disabled.skip(1) =~= Seq::<(int, Set<Seq<char>>)>::empty());
    assert forall|r: Seq<char>| is_rule_disabled_spec(st, r, nl) by {
        assert(Set::<Seq<char>>::empty().insert(star()).contains(star()));
    }
    assert forall|r: Seq<char>, l: int| l != nl implies !is_rule_disabled_spec(st, r, l) by {
        assert(lr_get(st.line_disabled, l) == lr_get(
            Seq::<(int, Set<Seq<char>>)>::empty(),
            l,
        ));
    }
}

/// A block-scope `disable` naming one rule, with no matching `enable`,
/// disables that rule exactly from its own line on: lines before the
/// directive are unaffected, and so are other rules.
pub proof fn lemma_disable_block_scope(
    content: Seq<char>,
    nl: int,
    rid: Seq<char>,
    st: InlineV,
)
    requires
        process_file_spec(content) == Ok::<_, ()>(st),
        0 <= nl - 1 < lines_spec(content).len(),
        line_directive_spec(lines_spec(content)[nl - 1]) == Ok::<_, ()>(
            Some(DirectiveV::Disable { rules: seq![rid], scope: Scope::Block }),
        ),
        forall|k: int|
            0 <= k < lines_spec(content).len() && k != nl - 1 ==> line_directive_spec(
                #[trigger] lines_spec(content)[k],
            ) == Ok::<_, ()>(None::<DirectiveV>),
        rid != star(),
    ensures
        forall|l: int| l >= nl ==> is_rule_disabled_spec(st, rid, l),
        forall|l: int| l < nl ==> !is_rule_disabled_spec(st, rid, l),
        forall|r2: Seq<char>, l: int| r2 != rid ==> !is_rule_disabled_spec(st, r2, l),
{
    let d = DirectiveV::Disable { rules: seq![rid], scope: Scope::Block };
    lemma_fold_single_directive(lines_spec(content), nl - 1, d, st);
    let rs = seq![rid];
    assert(rs.len() == 1 && rs[0] == rid);
    let empty = Seq::<(Seq<char>, int)>::empty();
    assert(st.block_disabled == disable_into(empty, nl, rs));
    assert(sc_get(empty, rid) is None);
    assert(sc_mark(empty, rid, nl) == empty.push((rid, nl)));
    assert(disable_into(empty, nl, rs) == disable_into(empty.push((rid, nl)), nl, rs.skip(1)));
    assert(rs.skip(1) =~= Seq::<Seq<char>>::empty());
    assert(disable_into(empty.push((rid, nl)), nl, Seq::<Seq<char>>::empty()) == empty.push(
        (rid, nl),
    ));
    let one = empty.push((rid, nl));
    assert(st.block_disabled == one);
    assert(one[0] == (rid, nl));
    assert(sc_get(one, rid) == Some(nl));
    assert(one.skip(1) =~= empty);
    assert forall|r2: Seq<char>| r2 != rid implies sc_get(one, r2) is None by {
        assert(sc_get(one, r2) == sc_get(one.skip(1), r2));
    }
    assert(st.section_disabled =~= empty);
    assert(st.line_disabled =~= Seq::<(int, Set<Seq<char>>)>::empty());
    assert(!st.file_ignored);
    assert forall|l: int| l >= nl implies is_rule_disabled_spec(st, rid, l) by {
        assert(sc_active(st.block_disabled, rid, l));
    }
    assert forall|l: int| l < nl implies !is_rule_disabled_spec(st, rid, l) by {
        assert(!sc_active(st.block_disabled, rid, l));
        assert(sc_get(one, star()) is None);
        assert(lr_get(st.line_disabled, l) is None);
    }
    assert forall|r2: Seq<char>, l: int| r2 != rid implies !is_rule_disabled_spec(
        st,
        r2,
        l,
    ) by {
        assert(sc_get(one, r2) is None);
        assert(sc_get(one, star()) is None);
        assert(lr_get(st.line_disabled, l) is None);
        assert(sc_get(st.section_disabled, r2) is None);
        assert(sc_get(st.section_disabled, star()) is None);
    }
}

/// Two `set` directives for the same rule and parameter: the later value is
/// the override in force for the rest of the file.
pub proof fn lemma_set_later_wins(
    content: Seq<char>,
    n1: int,
    n2: int,
    rule: Seq<char>,
    param: Seq<char>,
    v1: Seq<char>,
    v2: Seq<char>,
    st: InlineV,
)
    requires
        process_file_spec(content) == Ok::<_, ()>(st),
        0 <= n1 - 1 < n2 - 1 < lines_spec(content).len(),
        line_directive_spec(lines_spec(content)[n1 - 1]) == Ok::<_, ()>(
            Some(DirectiveV::SetParam { rule: rule, params: seq![(param, v1)] }),
        ),
        line_directive_spec(lines_spec(content)[n2 - 1]) == Ok::<_, ()>(
            Some(DirectiveV::SetParam { rule: rule, params: seq![(param, v2)] }),
        ),
        forall|k: int|
            0 <= k < lines_spec(content).len() && k != n1 - 1 && k != n2 - 1
                ==> line_directive_spec(#[trigger] lines_spec(content)[k]) == Ok::<_, ()>(
                None::<DirectiveV>,
            ),
    ensures
        match cfg_get(st.overrides, rule) {
            Some(c) => crate::rules::params_get(c.params, param) == Some(coerce_value_spec(v2)),
            None => false,
        },
{
    let d1 = DirectiveV::SetParam { rule: rule, params: seq![(param, v1)] };
    let d2 = DirectiveV::SetParam { rule: rule, params: seq![(param, v2)] };
    lemma_fold_two_sets(inline_init(), lines_spec(content), 1, n1 - 1, n2 - 1, d1, d2, st);
    let ps1 = seq![(param, v1)];
    let ps2 = seq![(param, v2)];
    assert(ps1.len() == 1 && ps1[0] == (param, v1));
    assert(ps2.len() == 1 && ps2[0] == (param, v2));
    let c1 = RuleConfigV {
        enabled: true,
        level: Level::Error,
        params: params_set(Seq::empty(), param, coerce_value_spec(v1)),
    };
    let m1 = overrides_apply(Seq::empty(), rule, ps1);
    assert(cfg_get(Seq::<(Seq<char>, RuleConfigV)>::empty(), rule) is None);
    assert(apply_params_rec(ps1, Seq::empty()) == apply_params_rec(
        ps1.skip(1),
        params_set(Seq::empty(), param, coerce_value_spec(v1)),
    ));
    assert(ps1.skip(1) =~= Seq::<(Seq<char>, Seq<char>)>::empty());
    assert(apply_params_rec(
        Seq::<(Seq<char>, Seq<char>)>::empty(),
        params_set(Seq::empty(), param, coerce_value_spec(v1)),
    ) == params_set(Seq::empty(), param, coerce_value_spec(v1)));
    assert(m1 == cfg_set(Seq::<(Seq<char>, RuleConfigV)>::empty(), rule, c1));
    assert(m1 =~= seq![(rule, c1)]);
    let m2 = overrides_apply(m1, rule, ps2);
    assert(cfg_get(m1, rule) == Some(c1));
    let c2 = RuleConfigV {
        enabled: true,
        level: Level::Error,
        params: params_set(c1.params, param, coerce_value_spec(v2)),
    };
    assert(apply_params_rec(ps2, c1.params) == apply_params_rec(
        ps2.skip(1),
        params_set(c1.params, param, coerce_value_spec(v2)),
    ));
    assert(ps2.skip(1) =~= Seq::<(Seq<char>, Seq<char>)>::empty());
    assert(apply_params_rec(
        Seq::<(Seq<char>, Seq<char>)>::empty(),
        params_set(c1.params, param, coerce_value_spec(v2)),
    ) == params_set(c1.params, param, coerce_value_spec(v2)));
    assert(m2 == cfg_set(m1, rule, c2));
    assert(st.overrides == m2);
    let m2b = seq![(rule, c2)] + m1.skip(1);
    assert(cfg_set(m1, rule, c2) == m2b);
    assert(m2b[0] == (rule, c2));
    assert(cfg_get(m2b, rule) == Some(c2));
    crate::rules::lemma_params_get_set(c1.params, param, coerce_value_spec(v2), param);
}

/// The final overrides of a file whose only directives are two `set`s.
proof fn lemma_fold_two_sets(
    st0: InlineV,
    lines: Seq<Seq<char>>,
    lineno: int,
    i1: int,
    i2: int,
    d1: DirectiveV,
    d2: DirectiveV,
    st: InlineV,
)
    requires
        0 <= i1 < i2 < lines.len(),
        d1 is SetParam,
        d2 is SetParam,
        line_directive_spec(lines[i1]) == Ok::<_, ()>(Some(d1)),
        line_directive_spec(lines[i2]) == Ok::<_, ()>(Some(d2)),
        forall|k: int|
            0 <= k < lines.len() && k != i1 && k != i2 ==> line_directive_spec(
                #[trigger] lines[k],
            ) == Ok::<_, ()>(None::<DirectiveV>),
        process_lines_rec(st0, lines, lineno) == Ok::<_, ()>(st),
    ensures
        st.overrides == overrides_apply(
            overrides_apply(st0.overrides, d1->SetParam_rule, d1->SetParam_params),
            d2->SetParam_rule,
            d2->SetParam_params,
        ),
    decreases i1,
{
    if i1 == 0 {
        let recorded = InlineV { directives: st0.directives + seq![(lineno, d1)], ..st0 };
        match apply_directive_spec(recorded, lineno, d1) {
            Err(_) => {
                assert(false);
            },
            Ok(st2) => {
                assert(st2.overrides == overrides_apply(
                    st0.overrides,
                    d1->SetParam_rule,
                    d1->SetParam_params,
                ));
                assert forall|k: int|
                    0 <= k < lines.skip(1).len() && k != i2 - 1 implies line_directive_spec(
                    #[trigger] lines.skip(1)[k],
                ) == Ok::<_, ()>(None::<DirectiveV>) by {
                    assert(lines.skip(1)[k] == lines[k + 1]);
                }
                assert(lines.skip(1)[i2 - 1] == lines[i2]);
                lemma_fold_single_from(st2, lines.skip(1), lineno + 1, i2 - 1, d2, st);
                let rec2 = InlineV {
                    directives: st2.directives + seq![(lineno + i2, d2)],
                    ..st2
                };
                assert(apply_directive_spec(rec2, lineno + i2, d2) == Ok::<_, ()>(st));
            },
        }
    } else {
        assert(line_directive_spec(lines[0]) == Ok::<_, ()>(None::<DirectiveV>));
        assert forall|k: int|
            0 <= k < lines.skip(1).len() && k != i1 - 1 && k != i2 - 1 implies line_directive_spec(
            #[trigger] lines.skip(1)[k],
        ) == Ok::<_, ()>(None::<DirectiveV>) by {
            assert(lines.skip(1)[k] == lines[k + 1]);
        }
        assert(lines.skip(1)[i1 - 1] == lines[i1]);
        assert(lines.skip(1)[i2 - 1] == lines[i2]);
        lemma_fold_two_sets(st0, lines.skip(1), lineno + 1, i1 - 1, i2 - 1, d1, d2, st);
    }
}

} // verus!
