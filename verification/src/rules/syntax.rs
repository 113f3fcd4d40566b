//! Syntax rules: duplicate keys, document markers, anchors, parseability,
//! and comment formatting.

use vstd::prelude::*;
use crate::chars::{
    count_char, count_char_occurrences, dec_digits, find_char, find_char_spec, find_sub,
    find_sub_spec, is_ws, is_ws_char, lines_spec, parse_u64, parse_u64_spec, replace_all,
    replace_all_spec, str_chars, string_from_chars, strings_view, trim_spec, trim_start_spec,
    trim_end_spec, u64_to_string, usize_to_string, views_of, ws_prefix, ws_prefix_len, ws_suffix,
    ws_suffix_len,
};
use crate::linter::context::{yaml_summary, LintContext};
use crate::linter::problem::{lemma_pv_assoc, pview, Level, Problem, ProblemV};
use crate::rules::{
    bool_param_or, int_param_or, rc_get_bool, rc_get_int, ConfigError, ConfigValue, RuleConfig,
    RuleConfigV, RuleError,
};

verus! {

/// What `document-structure` reports: missing start and end markers.
pub open spec fn ds_check_spec(content: Seq<char>, c: RuleConfigV) -> Seq<ProblemV> {
    let lines = lines_spec(content);
    let req_start = bool_param_or(c, "require-document-start"@, true);
    let req_end = bool_param_or(c, "require-document-end"@, false);
    (if req_start && !(lines.len() > 0 && trim_spec(lines[0]) == "---"@) {
        seq![
            ProblemV {
                line: 1,
                column: 1,
                level: Level::Error,
                rule: "document-structure"@,
                message: "missing document start \"---\""@,
                suggestion: None,
            },
        ]
    } else {
        Seq::empty()
    }) + (if req_end && !(lines.len() > 0 && (trim_spec(lines[lines.len() - 1]) == "..."@
        || trim_spec(lines[lines.len() - 1]) == "---"@)) {
        seq![
            ProblemV {
                line: lines.len() as int,
                column: 1,
                level: Level::Error,
                rule: "document-structure"@,
                message: "missing document end \"...\" or \"---\""@,
                suggestion: None,
            },
        ]
    } else {
        Seq::empty()
    })
}

/// The default `document-structure` configuration value.
pub open spec fn ds_default_spec() -> RuleConfigV {
    RuleConfigV {
        enabled: false,
        level: Level::Error,
        params: crate::rules::params_set(
            crate::rules::params_set(
                Seq::empty(),
                "require-document-start"@,
                crate::rules::ConfigValueV::Bool(true),
            ),
            "require-document-end"@,
            crate::rules::ConfigValueV::Bool(false),
        ),
    }
}

/// Rule that validates document structure (start/end markers).
#[derive(Debug)]
pub struct DocumentStructureRule;

impl DocumentStructureRule {
    pub fn new() -> (r: DocumentStructureRule) {
        DocumentStructureRule
    }

    /// The unique identifier for this rule.
    pub fn id(&self) -> (r: &'static str)
        ensures
            r@ == "document-structure"@,
    {
        "document-structure"
    }

    /// A human-readable description of this rule.
    pub fn description(&self) -> (r: &'static str)
        ensures
            r@ == "Requires document start and end markers"@,
    {
        "Requires document start and end markers"
    }

    /// The default configuration: disabled; a start marker required once
    /// enabled, no end marker.
    pub fn default_config(&self) -> (r: RuleConfig)
        ensures
            r@ == ds_default_spec(),
            rc_get_bool(r@, "require-document-start"@) == Some(true),
            rc_get_bool(r@, "require-document-end"@) == Some(false),
    {
        let mut config = RuleConfig::new(false, Level::Error);
        config.set_param("require-document-start", ConfigValue::Bool(true));
        config.set_param("require-document-end", ConfigValue::Bool(false));
        proof {
            reveal_strlit("require-document-start");
            reveal_strlit("require-document-end");
            assert(("require-document-start"@).len() == 22);
            assert(("require-document-end"@).len() == 20);
            assert("require-document-start"@ != "require-document-end"@);
            let p0 = Seq::<(Seq<char>, crate::rules::ConfigValueV)>::empty();
            let vt = crate::rules::ConfigValueV::Bool(true);
            let vf = crate::rules::ConfigValueV::Bool(false);
            let p1 = crate::rules::params_set(p0, "require-document-start"@, vt);
            crate::rules::lemma_params_get_set(p0, "require-document-start"@, vt,
                "require-document-start"@);
            crate::rules::lemma_params_get_set(p0, "require-document-start"@, vt,
                "require-document-end"@);
            crate::rules::lemma_params_get_set(p1, "require-document-end"@, vf,
                "require-document-start"@);
            crate::rules::lemma_params_get_set(p1, "require-document-end"@, vf,
                "require-document-end"@);
        }
        config
    }

    /// Accepts any configuration.
    pub fn validate_config(&self, _config: &RuleConfig) -> (r: Result<(), ConfigError>)
        ensures
            r is Ok,
    {
        Ok(())
    }

    /// Report missing document markers.
    pub fn check(&self, context: &LintContext, config: &RuleConfig) -> (r: Result<
        Vec<Problem>,
        RuleError,
    >)
        requires
            context.wf(),
        ensures
            match r {
                Ok(ps) => pview(ps@) == ds_check_spec(context.content@, config@),
                Err(_) => false,
            },
    {
        let req_start = config.bool_or("require-document-start", true);
        let req_end = config.bool_or("require-document-end", false);
        let ghost linesv = lines_spec(context.content@);
        let mut problems: Vec<Problem> = Vec::new();
        let n = context.lines.len();
        proof {
            assert(views_of(context.lines@) == linesv);
        }
        if req_start {
            let has_start = if n > 0 {
                let t = crate::chars::trim_slice(context.lines[0].as_slice());
                proof {
                    assert(linesv[0] == context.lines@[0]@);
                }
                crate::chars::eq_chars_str(t, "---")
            } else {
                false
            };
            if !has_start {
                let p = Problem::new(1, 1, Level::Error, "document-structure",
                    "missing document start \"---\"");
                problems.push(p);
                proof {
                    assert(pview(problems@) =~= Seq::<ProblemV>::empty() + seq![p@]);
                }
            }
        }
        let ghost after_start = pview(problems@);
        if req_end {
            let has_end = if n > 0 {
                let t = crate::chars::trim_slice(context.lines[n - 1].as_slice());
                proof {
                    assert(linesv[n - 1] == context.lines@[n - 1]@);
                }
                crate::chars::eq_chars_str(t, "...") || crate::chars::eq_chars_str(t, "---")
            } else {
                false
            };
            if !has_end {
                let p = Problem::new(n, 1, Level::Error, "document-structure",
                    "missing document end \"...\" or \"---\"");
                let ghost pre = problems@;
                problems.push(p);
                proof {
                    assert(pview(problems@) =~= pview(pre) + seq![p@]);
                }
            }
        }
        proof {
            assert(pview(problems@) =~= ds_check_spec(context.content@, config@));
        }
        Ok(problems)
    }
}

/// One indentation level of the duplicate-key scan: its indent and the keys
/// first seen at it, each with its line.
pub type KdLevelV = (int, Seq<(Seq<char>, int)>);

/// The first line a key was seen on at this level, if any.
pub open spec fn kd_get(keys: Seq<(Seq<char>, int)>, k: Seq<char>) -> Option<int>
    decreases keys.len(),
{
    if keys.len() == 0 {
        None
    } else if keys[0].0 == k {
        Some(keys[0].1)
    } else {
        kd_get(keys.skip(1), k)
    }
}

/// The level stack with every deeper-or-equal level popped, the bottom kept.
pub open spec fn kd_pop(stack: Seq<KdLevelV>, indent: int) -> Seq<KdLevelV>
    decreases stack.len(),
{
    if stack.len() > 1 && indent <= stack[stack.len() - 1].0 {
        kd_pop(stack.drop_last(), indent)
    } else {
        stack
    }
}

/// The key named by a line, with the colon's position: the part before the
/// first colon, trimmed, quotes stripped; list items, flow collections and
/// empty keys yield none.
pub open spec fn kd_key_of(line: Seq<char>) -> Option<(int, Seq<char>)> {
    match find_char_spec(line, ':') {
        Some(cp) => {
            let kp = trim_spec(line.take(cp));
            if kp.len() > 0 && kp[0] == '-' {
                None
            } else if find_char_spec(kp, '[') is Some || find_char_spec(kp, '{') is Some {
                None
            } else {
                let key = if kp.len() >= 2 && ((kp[0] == '"' && kp[kp.len() - 1] == '"') || (
                kp[0] == '\'' && kp[kp.len() - 1] == '\'')) {
                    kp.subrange(1, kp.len() - 1)
                } else {
                    kp
                };
                if key.len() == 0 {
                    None
                } else {
                    Some((cp, key))
                }
            }
        },
        None => None,
    }
}

/// The duplicate-key message.
pub open spec fn kd_msg(key: Seq<char>, first: int) -> Seq<char> {
    "found duplicate key \""@ + key + "\" (first occurrence at line "@ + dec_digits(first as nat)
        + ")"@
}

/// One line stepped through the duplicate-key scan.
pub open spec fn kd_line_step(stack: Seq<KdLevelV>, line: Seq<char>, lineno: int) -> (
    Seq<KdLevelV>,
    Seq<ProblemV>,
)
    recommends
        stack.len() >= 1,
{
    let t = trim_spec(line);
    if t.len() == 0 || t[0] == '#' {
        (stack, Seq::empty())
    } else {
        let indent = ws_prefix_len(line);
        let s1 = kd_pop(stack, indent);
        let s2 = if indent > s1[s1.len() - 1].0 {
            s1.push((indent, Seq::empty()))
        } else {
            s1
        };
        match kd_key_of(line) {
            None => (s2, Seq::empty()),
            Some((cp, key)) => {
                let keys = s2[s2.len() - 1].1;
                match kd_get(keys, key) {
                    Some(first) => (
                        s2,
                        seq![
                            ProblemV {
                                line: lineno,
                                column: cp + 1,
                                level: Level::Error,
                                rule: "key-duplicates"@,
                                message: kd_msg(key, first),
                                suggestion: None,
                            },
                        ],
                    ),
                    None => (
                        s2.update(
                            s2.len() - 1,
                            (s2[s2.len() - 1].0, keys.push((key, lineno))),
                        ),
                        Seq::empty(),
                    ),
                }
            },
        }
    }
}

/// The duplicate-key problems of the remaining lines.
pub open spec fn kd_fold(lines: Seq<Seq<char>>, i: int, stack: Seq<KdLevelV>) -> Seq<ProblemV>
    decreases lines.len() - i,
{
    if i < 0 || i >= lines.len() {
        Seq::empty()
    } else {
        let (s2, ps) = kd_line_step(stack, lines[i], i + 1);
        ps + kd_fold(lines, i + 1, s2)
    }
}

/// What `key-duplicates` reports.
pub open spec fn kd_check_spec(content: Seq<char>, c: RuleConfigV) -> Seq<ProblemV> {
    let lines = lines_spec(content);
    kd_fold(lines, 0, seq![(0int, Seq::<(Seq<char>, int)>::empty())])
}

/// The view of the executable level stack.
pub open spec fn kd_stack_view(st: Seq<(usize, Vec<(String, usize)>)>) -> Seq<KdLevelV> {
    Seq::new(
        st.len(),
        |i: int|
            (
                st[i].0 as int,
                Seq::new(st[i].1@.len(), |k: int| (st[i].1@[k].0@, st[i].1@[k].1 as int)),
            ),
    )
}

/// Rule that detects duplicate keys in YAML mappings.
#[derive(Debug)]
pub struct KeyDuplicatesRule;

impl KeyDuplicatesRule {
    pub fn new() -> (r: KeyDuplicatesRule) {
        KeyDuplicatesRule
    }

    /// The unique identifier for this rule.
    pub fn id(&self) -> (r: &'static str)
        ensures
            r@ == "key-duplicates"@,
    {
        "key-duplicates"
    }

    /// A human-readable description of this rule.
    pub fn description(&self) -> (r: &'static str)
        ensures
            r@ == "Forbids duplications of a particular key"@,
    {
        "Forbids duplications of a particular key"
    }

    /// The default configuration: disabled, at `Error`.
    pub fn default_config(&self) -> (r: RuleConfig)
        ensures
            r@ == (crate::rules::RuleConfigV {
                enabled: false,
                level: Level::Error,
                params: Seq::empty(),
            }),
    {
        RuleConfig::new(false, Level::Error)
    }

    /// Accepts any configuration.
    pub fn validate_config(&self, _config: &RuleConfig) -> (r: Result<(), ConfigError>)
        ensures
            r is Ok,
    {
        Ok(())
    }

    /// Report keys repeated at one indentation level.
    pub fn check(&self, context: &LintContext, _config: &RuleConfig) -> (r: Result<
        Vec<Problem>,
        RuleError,
    >)
        requires
            context.wf(),
            context.content@.len() + 1 < usize::MAX as int,
        ensures
            match r {
                Ok(ps) => pview(ps@) == kd_check_spec(context.content@, _config@),
                Err(_) => false,
            },
    {
        let ghost linesv = lines_spec(context.content@);
        let mut problems: Vec<Problem> = Vec::new();
        let mut stack: Vec<(usize, Vec<(String, usize)>)> = Vec::new();
        stack.push((0, Vec::new()));
        let n = context.lines.len();
        let mut li: usize = 0;
        proof {
            assert(views_of(context.lines@) == linesv);
            assert(kd_stack_view(stack@) =~~= seq![(0int, Seq::<(Seq<char>, int)>::empty())]);
            assert(pview(problems@) =~= Seq::<ProblemV>::empty());
        }
        while li < n
            invariant
                0 <= li <= n,
                context.wf(),
                context.content@.len() + 1 < usize::MAX as int,
                n == context.lines@.len(),
                linesv == lines_spec(context.content@),
                views_of(context.lines@) == linesv,
                stack@.len() >= 1,
                pview(problems@) + kd_fold(linesv, li as int, kd_stack_view(stack@)) == kd_fold(
                    linesv,
                    0,
                    seq![(0int, Seq::<(Seq<char>, int)>::empty())],
                ),
            decreases n - li,
        {
            let line: &Vec<char> = &context.lines[li];
            proof {
                assert(linesv[li as int] == line@);
                crate::chars::lemma_lines_len_le(context.content@);
                assert(line@.len() <= context.content@.len());
            }
            let ghost stack0 = kd_stack_view(stack@);
            let ghost step = kd_line_step(stack0, line@, li + 1);
            let t = crate::chars::trim_slice(line.as_slice());
            if !(t.len() == 0 || t[0] == '#') {
                let indent = ws_prefix(line.as_slice());
                while stack.len() > 1 && indent <= stack[stack.len() - 1].0
                    invariant
                        stack@.len() >= 1,
                        kd_pop(stack0, indent as int) == kd_pop(
                            kd_stack_view(stack@),
                            indent as int,
                        ),
                    decreases stack@.len(),
                {
                    proof {
                        let sv = kd_stack_view(stack@);
                        assert(sv[sv.len() - 1].0 == stack@[stack@.len() - 1].0 as int);
                        assert(kd_stack_view(stack@.drop_last()) =~~= sv.drop_last());
                    }
                    stack.pop();
                }
                proof {
                    let sv = kd_stack_view(stack@);
                    assert(sv[sv.len() - 1].0 == stack@[stack@.len() - 1].0 as int);
                    assert(kd_pop(kd_stack_view(stack@), indent as int) == kd_stack_view(stack@));
                }
                if indent > stack[stack.len() - 1].0 {
                    stack.push((indent, Vec::new()));
                    proof {
                        assert(kd_stack_view(stack@) =~~= kd_pop(stack0, indent as int).push(
                            (indent as int, Seq::<(Seq<char>, int)>::empty()),
                        ));
                    }
                }
                let ghost s2 = kd_stack_view(stack@);
                let llen = line.len();
                match find_char(line.as_slice(), ':') {
                    Some(cp) => {
                        proof {
                            crate::chars::lemma_find_char_spec(line@, ':');
                        }
                        let kpsub = &line.as_slice()[0..cp];
                        proof {
                            assert(kpsub@ =~= line@.take(cp as int));
                        }
                        let kp = crate::chars::trim_slice(kpsub);
                        let kplen = kp.len();
                        let skip_key = (kplen > 0 && kp[0] == '-') || crate::chars::contains_char(
                            kp,
                            '[',
                        ) || crate::chars::contains_char(kp, '{');
                        if !skip_key {
                            let quoted = kplen >= 2 && ((kp[0] == '"' && kp[kplen - 1] == '"') || (
                            kp[0] == '\'' && kp[kplen - 1] == '\''));
                            let keyc: &[char] = if quoted {
                                let inner = &kp[1..kplen - 1];
                                proof {
                                    assert(inner@ =~= trim_spec(line@.take(cp as int)).subrange(
                                        1,
                                        trim_spec(line@.take(cp as int)).len() - 1,
                                    ));
                                }
                                inner
                            } else {
                                kp
                            };
                            if keyc.len() > 0 {
                                let mut top = match stack.pop() {
                                    Some(t2) => t2,
                                    None => {
                                        proof {
                                            assert(false);
                                        }
                                        (0, Vec::new())
                                    },
                                };
                                let ghost topkeys = Seq::new(
                                    top.1@.len(),
                                    |k: int| (top.1@[k].0@, top.1@[k].1 as int),
                                );
                                proof {
                                    assert(s2[s2.len() - 1]
                                        == (top.0 as int, topkeys));
                                }
                                let kn = top.1.len();
                                let mut ki: usize = 0;
                                let mut found: Option<usize> = None;
                                proof {
                                    assert(topkeys.skip(0) =~= topkeys);
                                }
                                while ki < kn && found.is_none()
                                    invariant
                                        0 <= ki <= kn,
                                        kn == top.1@.len(),
                                        topkeys == Seq::new(
                                            top.1@.len(),
                                            |k: int| (top.1@[k].0@, top.1@[k].1 as int),
                                        ),
                                        match found {
                                            Some(fl) => kd_get(topkeys, keyc@) == Some(
                                                fl as int,
                                            ),
                                            None => kd_get(topkeys, keyc@) == kd_get(
                                                topkeys.skip(ki as int),
                                                keyc@,
                                            ),
                                        },
                                    decreases kn - ki + (if found.is_none() {
                                        1int
                                    } else {
                                        0int
                                    }),
                                {
                                    let hit = crate::chars::eq_chars_str(
                                        keyc,
                                        top.1[ki].0.as_str(),
                                    );
                                    proof {
                                        assert(topkeys.skip(ki as int)[0] == topkeys[ki as int]);
                                        assert(topkeys.skip(ki as int).skip(1) =~= topkeys.skip(
                                            ki + 1,
                                        ));
                                    }
                                    if hit {
                                        found = Some(top.1[ki].1);
                                    } else {
                                        ki = ki + 1;
                                    }
                                }
                                match found {
                                    Some(first) => {
                                        let ks = string_from_chars(keyc);
                                        let mut msg = "found duplicate key \"".to_owned();
                                        msg.append(ks.as_str());
                                        msg.append("\" (first occurrence at line ");
                                        let d = usize_to_string(first);
                                        msg.append(d.as_str());
                                        msg.append(")");
                                        let p = Problem::new(li + 1, cp + 1, Level::Error,
                                            "key-duplicates", msg.as_str());
                                        stack.push(top);
                                        let ghost pre = problems@;
                                        problems.push(p);
                                        proof {
                                            assert(kd_stack_view(stack@) =~~= s2);
                                            assert(pview(problems@) =~= pview(pre) + seq![p@]);
                                            lemma_pv_assoc(
                                                pview(pre),
                                                seq![p@],
                                                kd_fold(linesv, li + 1, step.0),
                                            );
                                        }
                                    },
                                    None => {
                                        proof {
                                            assert(kd_get(
                                                topkeys.skip(kn as int),
                                                keyc@,
                                            ) is None);
                                        }
                                        let ks = string_from_chars(keyc);
                                        top.1.push((ks, li + 1));
                                        stack.push(top);
                                        proof {
                                            assert(kd_stack_view(stack@) =~~= s2.update(
                                                s2.len() - 1,
                                                (
                                                    s2[s2.len() - 1].0,
                                                    topkeys.push((keyc@, li + 1)),
                                                ),
                                            ));
                                        }
                                    },
                                }
                            }
                        }
                    },
                    None => {},
                }
            }
            proof {
                assert(kd_stack_view(stack@) == step.0);
                if step.1.len() == 0 {
                    assert(step.1 + kd_fold(linesv, li + 1, step.0) =~= kd_fold(
                        linesv,
                        li + 1,
                        step.0,
                    ));
                }
                assert(pview(problems@) + kd_fold(linesv, li + 1, kd_stack_view(stack@))
                    == kd_fold(linesv, 0, seq![(0int, Seq::<(Seq<char>, int)>::empty())]));
            }
            li = li + 1;
        }
        proof {
            assert(kd_fold(linesv, n as int, kd_stack_view(stack@)) =~= Seq::<ProblemV>::empty());
            assert(pview(problems@) + Seq::<ProblemV>::empty() =~= pview(problems@));
        }
        Ok(problems)
    }
}

/// A character that may stand in an anchor or alias name.
pub open spec fn is_name_char(c: char) -> bool {
    !(is_ws_char(c) || c == ':' || c == ',' || c == ']' || c == '}')
}

/// Length of the name run at the front of `s`.
pub open spec fn name_run_len(s: Seq<char>) -> int
    decreases s.len(),
{
    if s.len() == 0 || !is_name_char(s[0]) {
        0
    } else {
        1 + name_run_len(s.skip(1))
    }
}

fn name_run(v: &[char], i: usize) -> (r: usize)
    requires
        i <= v@.len(),
    ensures
        r == name_run_len(v@.skip(i as int)),
        i + r <= v@.len(),
{
    let vlen = v.len();
    let mut k: usize = i;
    proof {
        assert(v@.skip(i as int).skip(0) =~= v@.skip(i as int));
    }
    while k < vlen && is_name(v[k])
        invariant
            i <= k <= vlen,
            vlen == v@.len(),
            name_run_len(v@.skip(i as int)) == (k - i) + name_run_len(v@.skip(k as int)),
        decreases vlen - k,
    {
        proof {
            assert(v@.skip(k as int)[0] == v@[k as int]);
            assert(v@.skip(k as int).skip(1) =~= v@.skip(k + 1));
        }
        k = k + 1;
    }
    proof {
        if k < vlen {
            assert(v@.skip(k as int)[0] == v@[k as int]);
        }
        assert(name_run_len(v@.skip(k as int)) == 0);
    }
    k - i
}

fn is_name(c: char) -> (r: bool)
    ensures
        r == is_name_char(c),
{
    !(is_ws(c) || c == ':' || c == ',' || c == ']' || c == '}')
}

/// The name following a marker at position `p` of `line`, if non-empty.
pub open spec fn an_name(line: Seq<char>, p: int) -> Option<Seq<char>> {
    let np = line.skip(p + 1);
    let end = name_run_len(np);
    if end > 0 {
        Some(np.take(end))
    } else {
        None
    }
}

/// A string appended to an order-keeping set unless already present.
pub open spec fn sset_add(s: Seq<Seq<char>>, x: Seq<char>) -> Seq<Seq<char>> {
    if s.contains(x) {
        s
    } else {
        s.push(x)
    }
}

/// The line recorded for an anchor name, if any.
pub open spec fn al_get(s: Seq<(Seq<char>, int)>, k: Seq<char>) -> Option<int>
    decreases s.len(),
{
    if s.len() == 0 {
        None
    } else if s[0].0 == k {
        Some(s[0].1)
    } else {
        al_get(s.skip(1), k)
    }
}

/// Record a line for an anchor name, replacing any earlier record.
pub open spec fn al_set(s: Seq<(Seq<char>, int)>, k: Seq<char>, v: int) -> Seq<(Seq<char>, int)>
    decreases s.len(),
{
    if s.len() == 0 {
        seq![(k, v)]
    } else if s[0].0 == k {
        seq![(k, v)] + s.skip(1)
    } else {
        seq![s[0]] + al_set(s.skip(1), k, v)
    }
}

proof fn lemma_al_set_at(s: Seq<(Seq<char>, int)>, k: Seq<char>, v: int, i: int)
    requires
        0 <= i < s.len(),
        s[i].0 == k,
        forall|m: int| 0 <= m < i ==> #[trigger] s[m].0 != k,
    ensures
        al_set(s, k, v) == s.update(i, (k, v)),
    decreases i,
{
    if i == 0 {
        assert(seq![(k, v)] + s.skip(1) =~= s.update(0, (k, v)));
    } else {
        assert(s.skip(1)[i - 1].0 == s[i].0);
        assert forall|m: int| 0 <= m < i - 1 implies #[trigger] s.skip(1)[m].0 != k by {
            assert(s.skip(1)[m] == s[m + 1]);
        }
        lemma_al_set_at(s.skip(1), k, v, i - 1);
        assert(seq![s[0]] + s.skip(1).update(i - 1, (k, v)) =~= s.update(i, (k, v)));
    }
}

proof fn lemma_al_set_absent(s: Seq<(Seq<char>, int)>, k: Seq<char>, v: int)
    requires
        forall|m: int| 0 <= m < s.len() ==> #[trigger] s[m].0 != k,
    ensures
        al_set(s, k, v) == s + seq![(k, v)],
    decreases s.len(),
{
    if s.len() == 0 {
        assert(al_set(s, k, v) =~= s + seq![(k, v)]);
    } else {
        assert forall|m: int| 0 <= m < s.skip(1).len() implies #[trigger] s.skip(1)[m].0
            != k by {
            assert(s.skip(1)[m] == s[m + 1]);
        }
        lemma_al_set_absent(s.skip(1), k, v);
        assert(seq![s[0]] + (s.skip(1) + seq![(k, v)]) =~= s + seq![(k, v)]);
    }
}

/// The anchor scan's state: anchors and aliases seen, in first-seen order,
/// and each anchor's last line.
#[verifier::ext_equal]
pub ghost struct AnchorsV {
    pub anchors: Seq<Seq<char>>,
    pub aliases: Seq<Seq<char>>,
    pub lines: Seq<(Seq<char>, int)>,
}

/// The duplicate-anchor message.
pub open spec fn an_dup_msg(name: Seq<char>) -> Seq<char> {
    "found duplicate anchor \""@ + name + "\""@
}

/// The undefined-alias message.
pub open spec fn an_alias_msg(name: Seq<char>) -> Seq<char> {
    "found undefined alias \""@ + name + "\""@
}

/// The unused-anchor message.
pub open spec fn an_unused_msg(name: Seq<char>) -> Seq<char> {
    "found undefined anchor \""@ + name + "\""@
}

/// One line stepped through the anchor scan: the first `&` may name an
/// anchor, then the first `*` may name an alias.
pub open spec fn an_line_step(
    st: AnchorsV,
    line: Seq<char>,
    lineno: int,
    fdup: bool,
    fund: bool,
) -> (AnchorsV, Seq<ProblemV>) {
    let anchor = match find_char_spec(line, '&') {
        Some(ap) => an_name(line, ap),
        None => None,
    };
    let st1 = match anchor {
        Some(nm) => AnchorsV {
            anchors: sset_add(st.anchors, nm),
            lines: al_set(st.lines, nm, lineno),
            ..st
        },
        None => st,
    };
    let ps1 = match anchor {
        Some(nm) => if fdup && st.anchors.contains(nm) {
            seq![
                ProblemV {
                    line: lineno,
                    column: find_char_spec(line, '&')->Some_0 + 1,
                    level: Level::Error,
                    rule: "anchors"@,
                    message: an_dup_msg(nm),
                    suggestion: None,
                },
            ]
        } else {
            Seq::empty()
        },
        None => Seq::empty(),
    };
    let alias = match find_char_spec(line, '*') {
        Some(pp) => an_name(line, pp),
        None => None,
    };
    let st2 = match alias {
        Some(nm) => AnchorsV { aliases: sset_add(st1.aliases, nm), ..st1 },
        None => st1,
    };
    let ps2 = match alias {
        Some(nm) => if fund && !st1.anchors.contains(nm) {
            seq![
                ProblemV {
                    line: lineno,
                    column: find_char_spec(line, '*')->Some_0 + 1,
                    level: Level::Error,
                    rule: "anchors"@,
                    message: an_alias_msg(nm),
                    suggestion: None,
                },
            ]
        } else {
            Seq::empty()
        },
        None => Seq::empty(),
    };
    (st2, ps1 + ps2)
}

/// The anchor problems of the remaining lines.
pub open spec fn an_fold(
    lines: Seq<Seq<char>>,
    i: int,
    st: AnchorsV,
    fdup: bool,
    fund: bool,
) -> (AnchorsV, Seq<ProblemV>)
    decreases lines.len() - i,
{
    if i < 0 || i >= lines.len() {
        (st, Seq::empty())
    } else {
        let (s2, ps) = an_line_step(st, lines[i], i + 1, fdup, fund);
        let (sf, rest) = an_fold(lines, i + 1, s2, fdup, fund);
        (sf, ps + rest)
    }
}

/// The unused-anchor problems, in first-seen anchor order.
pub open spec fn an_post(st: AnchorsV, i: int) -> Seq<ProblemV>
    decreases st.anchors.len() - i,
{
    if i < 0 || i >= st.anchors.len() {
        Seq::empty()
    } else {
        (if !st.aliases.contains(st.anchors[i]) && al_get(st.lines, st.anchors[i]) is Some {
            seq![
                ProblemV {
                    line: al_get(st.lines, st.anchors[i])->Some_0,
                    column: 1,
                    level: Level::Warning,
                    rule: "anchors"@,
                    message: an_unused_msg(st.anchors[i]),
                    suggestion: None,
                },
            ]
        } else {
            Seq::empty()
        }) + an_post(st, i + 1)
    }
}

/// An empty anchor state.
pub open spec fn an_init() -> AnchorsV {
    AnchorsV { anchors: Seq::empty(), aliases: Seq::empty(), lines: Seq::empty() }
}

/// What the `anchors` rule reports.
pub open spec fn an_check_spec(content: Seq<char>, c: RuleConfigV) -> Seq<ProblemV> {
    let lines = lines_spec(content);
    let fdup = bool_param_or(c, "forbid-duplicated-anchors"@, false);
    let fund = bool_param_or(c, "forbid-undeclared-aliases"@, true);
    let funused = bool_param_or(c, "forbid-unused-anchors"@, false);
    let (sf, ps) = an_fold(lines, 0, an_init(), fdup, fund);
    ps + (if funused {
        an_post(sf, 0)
    } else {
        Seq::empty()
    })
}

/// The default `anchors` configuration value.
pub open spec fn an_default_spec() -> RuleConfigV {
    RuleConfigV {
        enabled: false,
        level: Level::Error,
        params: crate::rules::params_set(
            crate::rules::params_set(
                crate::rules::params_set(
                    Seq::empty(),
                    "forbid-undeclared-aliases"@,
                    crate::rules::ConfigValueV::Bool(true),
                ),
                "forbid-duplicated-anchors"@,
                crate::rules::ConfigValueV::Bool(false),
            ),
            "forbid-unused-anchors"@,
            crate::rules::ConfigValueV::Bool(false),
        ),
    }
}

/// Rule that validates YAML anchors and aliases.
#[derive(Debug)]
pub struct AnchorsRule;

impl AnchorsRule {
    pub fn new() -> (r: AnchorsRule) {
        AnchorsRule
    }

    /// The unique identifier for this rule.
    pub fn id(&self) -> (r: &'static str)
        ensures
            r@ == "anchors"@,
    {
        "anchors"
    }

    /// A human-readable description of this rule.
    pub fn description(&self) -> (r: &'static str)
        ensures
            r@ == "Validates YAML anchors and aliases"@,
    {
        "Validates YAML anchors and aliases"
    }

    /// The name following a marker, as an owned string.
    pub fn extract_anchor_name(&self, text: &[char]) -> (r: Option<String>)
        requires
            text@.len() >= 1,
        ensures
            match r {
                Some(s) => an_name(text@, 0) == Some(s@),
                None => an_name(text@, 0) is None,
            },
    {
        let tlen = text.len();
        let run = name_run(text, 1);
        proof {
            assert(text@.skip(1).take(name_run_len(text@.skip(1))) =~= text@.subrange(
                1,
                1 + name_run_len(text@.skip(1)),
            ));
        }
        if run == 0 {
            None
        } else {
            let sub = &text[1..1 + run];
            proof {
                assert(sub@ =~= text@.subrange(1, 1 + run));
            }
            Some(string_from_chars(sub))
        }
    }

    /// The name following an alias marker, as an owned string.
    pub fn extract_alias_name(&self, text: &[char]) -> (r: Option<String>)
        requires
            text@.len() >= 1,
        ensures
            match r {
                Some(s) => an_name(text@, 0) == Some(s@),
                None => an_name(text@, 0) is None,
            },
    {
        self.extract_anchor_name(text)
    }

    /// The default configuration: disabled; undeclared aliases forbidden
    /// once enabled.
    pub fn default_config(&self) -> (r: RuleConfig)
        ensures
            r@ == an_default_spec(),
            rc_get_bool(r@, "forbid-undeclared-aliases"@) == Some(true),
            rc_get_bool(r@, "forbid-duplicated-anchors"@) == Some(false),
            rc_get_bool(r@, "forbid-unused-anchors"@) == Some(false),
    {
        let mut config = RuleConfig::new(false, Level::Error);
        config.set_param("forbid-undeclared-aliases", ConfigValue::Bool(true));
        config.set_param("forbid-duplicated-anchors", ConfigValue::Bool(false));
        config.set_param("forbid-unused-anchors", ConfigValue::Bool(false));
        proof {
            reveal_strlit("forbid-undeclared-aliases");
            reveal_strlit("forbid-duplicated-anchors");
            reveal_strlit("forbid-unused-anchors");
            assert(("forbid-undeclared-aliases"@).len() == 25);
            assert(("forbid-duplicated-anchors"@).len() == 25);
            assert(("forbid-unused-anchors"@).len() == 21);
            assert(("forbid-undeclared-aliases"@)[7] == 'u');
            assert(("forbid-duplicated-anchors"@)[7] == 'd');
            assert("forbid-undeclared-aliases"@ != "forbid-duplicated-anchors"@);
            assert("forbid-undeclared-aliases"@ != "forbid-unused-anchors"@);
            assert("forbid-duplicated-anchors"@ != "forbid-unused-anchors"@);
            crate::rules::lemma_three_params(
                crate::rules::ConfigValueV::Bool(true),
                crate::rules::ConfigValueV::Bool(false),
                crate::rules::ConfigValueV::Bool(false),
                "forbid-undeclared-aliases"@,
                "forbid-duplicated-anchors"@,
                "forbid-unused-anchors"@,
            );
        }
        config
    }

    /// Accepts any configuration.
    pub fn validate_config(&self, _config: &RuleConfig) -> (r: Result<(), ConfigError>)
        ensures
            r is Ok,
    {
        Ok(())
    }

    /// Report duplicate anchors, undefined aliases, and unused anchors.
    pub fn check(&self, context: &LintContext, config: &RuleConfig) -> (r: Result<
        Vec<Problem>,
        RuleError,
    >)
        requires
            context.wf(),
            context.content@.len() + 1 < usize::MAX as int,
        ensures
            match r {
                Ok(ps) => pview(ps@) == an_check_spec(context.content@, config@),
                Err(_) => false,
            },
    {
        let fdup = config.bool_or("forbid-duplicated-anchors", false);
        let fund = config.bool_or("forbid-undeclared-aliases", true);
        let funused = config.bool_or("forbid-unused-anchors", false);
        let ghost linesv = lines_spec(context.content@);
        let mut problems: Vec<Problem> = Vec::new();
        let mut anchors: Vec<String> = Vec::new();
        let mut aliases: Vec<String> = Vec::new();
        let mut anchor_lines: Vec<(String, usize)> = Vec::new();
        let ghost total = an_fold(linesv, 0, an_init(), fdup, fund);
        let n = context.lines.len();
        let mut li: usize = 0;
        proof {
            assert(views_of(context.lines@) == linesv);
            assert(an_state(anchors@, aliases@, anchor_lines@) =~~= an_init());
            assert(pview(problems@) =~= Seq::<ProblemV>::empty());
        }
        while li < n
            invariant
                0 <= li <= n,
                context.wf(),
                context.content@.len() + 1 < usize::MAX as int,
                n == context.lines@.len(),
                linesv == lines_spec(context.content@),
                views_of(context.lines@) == linesv,
                fdup == bool_param_or(config@, "forbid-duplicated-anchors"@, false),
                fund == bool_param_or(config@, "forbid-undeclared-aliases"@, true),
                total == an_fold(linesv, 0, an_init(), fdup, fund),
                an_fold(
                    linesv,
                    li as int,
                    an_state(anchors@, aliases@, anchor_lines@),
                    fdup,
                    fund,
                ).0 == total.0,
                pview(problems@) + an_fold(
                    linesv,
                    li as int,
                    an_state(anchors@, aliases@, anchor_lines@),
                    fdup,
                    fund,
                ).1 == total.1,
            decreases n - li,
        {
            let line: &Vec<char> = &context.lines[li];
            proof {
                assert(linesv[li as int] == line@);
                crate::chars::lemma_lines_len_le(context.content@);
                assert(line@.len() <= context.content@.len());
            }
            let ghost st0 = an_state(anchors@, aliases@, anchor_lines@);
            let ghost step = an_line_step(st0, line@, li + 1, fdup, fund);
            let ghost mid0 = pview(problems@);
            let llen = line.len();
            match find_char(line.as_slice(), '&') {
                Some(ap) => {
                    proof {
                        crate::chars::lemma_find_char_spec(line@, '&');
                    }
                    let asub = &line.as_slice()[ap..llen];
                    proof {
                        assert(asub@ =~= line@.skip(ap as int));
                        assert(asub@.skip(1) =~= line@.skip(ap + 1));
                    }
                    match self.extract_anchor_name(asub) {
                        Some(nm) => {
                            let already = contains_string(&anchors, nm.as_str());
                            if fdup && already {
                                let mut msg = "found duplicate anchor \"".to_owned();
                                msg.append(nm.as_str());
                                msg.append("\"");
                                let p = Problem::new(li + 1, ap + 1, Level::Error, "anchors",
                                    msg.as_str());
                                let ghost pre = problems@;
                                problems.push(p);
                                proof {
                                    assert(pview(problems@) =~= pview(pre) + seq![p@]);
                                }
                            }
                            let nm2 = nm.clone();
                            if !already {
                                anchors.push(nm);
                                proof {
                                    assert(strings_view(anchors@) =~= sset_add(
                                        st0.anchors,
                                        nm2@,
                                    ));
                                }
                            } else {
                                proof {
                                    assert(strings_view(anchors@) =~= sset_add(
                                        st0.anchors,
                                        nm2@,
                                    ));
                                }
                            }
                            set_anchor_line(&mut anchor_lines, nm2, li + 1);
                        },
                        None => {},
                    }
                },
                None => {},
            }
            let ghost st1 = an_state(anchors@, aliases@, anchor_lines@);
            let ghost mid1 = pview(problems@);
            match find_char(line.as_slice(), '*') {
                Some(pp) => {
                    proof {
                        crate::chars::lemma_find_char_spec(line@, '*');
                    }
                    let psub = &line.as_slice()[pp..llen];
                    proof {
                        assert(psub@ =~= line@.skip(pp as int));
                        assert(psub@.skip(1) =~= line@.skip(pp + 1));
                    }
                    match self.extract_alias_name(psub) {
                        Some(nm) => {
                            let known = contains_string(&anchors, nm.as_str());
                            let already = contains_string(&aliases, nm.as_str());
                            let ghost nmv = nm@;
                            if !already {
                                aliases.push(nm.clone());
                                proof {
                                    assert(strings_view(aliases@) =~= sset_add(
                                        st1.aliases,
                                        nmv,
                                    ));
                                }
                            } else {
                                proof {
                                    assert(strings_view(aliases@) =~= sset_add(
                                        st1.aliases,
                                        nmv,
                                    ));
                                }
                            }
                            if fund && !known {
                                let mut msg = "found undefined alias \"".to_owned();
                                msg.append(nm.as_str());
                                msg.append("\"");
                                let p = Problem::new(li + 1, pp + 1, Level::Error, "anchors",
                                    msg.as_str());
                                let ghost pre = problems@;
                                problems.push(p);
                                proof {
                                    assert(pview(problems@) =~= pview(pre) + seq![p@]);
                                }
                            }
                        },
                        None => {},
                    }
                },
                None => {},
            }
            proof {
                assert(an_state(anchors@, aliases@, anchor_lines@) == step.0);
                assert(pview(problems@) =~= mid0 + step.1);
                lemma_pv_assoc(
                    mid0,
                    step.1,
                    an_fold(linesv, li + 1, step.0, fdup, fund).1,
                );
            }
            li = li + 1;
        }
        proof {
            assert(an_fold(
                linesv,
                n as int,
                an_state(anchors@, aliases@, anchor_lines@),
                fdup,
                fund,
            ).1 =~= Seq::<ProblemV>::empty());
            assert(pview(problems@) + Seq::<ProblemV>::empty() =~= pview(problems@));
            assert(pview(problems@) == total.1);
            assert(an_state(anchors@, aliases@, anchor_lines@) == total.0);
        }
        if funused {
            let ghost sf = an_state(anchors@, aliases@, anchor_lines@);
            let ghost base = pview(problems@);
            let an = anchors.len();
            let mut ai: usize = 0;
            proof {
                assert(base + an_post(sf, 0) == total.1 + an_post(sf, 0));
            }
            while ai < an
                invariant
                    0 <= ai <= an,
                    an == anchors@.len(),
                    sf == an_state(anchors@, aliases@, anchor_lines@),
                    base == total.1,
                    pview(problems@) + an_post(sf, ai as int) == base + an_post(sf, 0),
                decreases an - ai,
            {
                let a: &String = &anchors[ai];
                let used = contains_string(&aliases, a.as_str());
                proof {
                    assert(sf.anchors[ai as int] == anchors@[ai as int]@);
                }
                if !used {
                    match get_anchor_line(&anchor_lines, a.as_str()) {
                        Some(l) => {
                            let mut msg = "found undefined anchor \"".to_owned();
                            msg.append(a.as_str());
                            msg.append("\"");
                            let p = Problem::new(l, 1, Level::Warning, "anchors", msg.as_str());
                            let ghost pre = problems@;
                            problems.push(p);
                            proof {
                                assert(pview(problems@) =~= pview(pre) + seq![p@]);
                                lemma_pv_assoc(
                                    pview(pre),
                                    seq![p@],
                                    an_post(sf, ai + 1),
                                );
                            }
                        },
                        None => {},
                    }
                }
                proof {
                    if sf.aliases.contains(sf.anchors[ai as int]) || al_get(
                        sf.lines,
                        sf.anchors[ai as int],
                    ) is None {
                        assert(an_post(sf, ai as int) =~= Seq::<ProblemV>::empty() + an_post(
                            sf,
                            ai + 1,
                        ));
                        assert(Seq::<ProblemV>::empty() + an_post(sf, ai + 1) =~= an_post(
                            sf,
                            ai + 1,
                        ));
                    }
                }
                ai = ai + 1;
            }
            proof {
                assert(an_post(sf, an as int) =~= Seq::<ProblemV>::empty());
                assert(pview(problems@) + Seq::<ProblemV>::empty() =~= pview(problems@));
            }
        } else {
            proof {
                assert(pview(problems@) + Seq::<ProblemV>::empty() =~= pview(problems@));
            }
        }
        Ok(problems)
    }
}

/// The anchor state named by the executable vectors.
pub open spec fn an_state(
    anchors: Seq<String>,
    aliases: Seq<String>,
    lines: Seq<(String, usize)>,
) -> AnchorsV {
    AnchorsV {
        anchors: crate::chars::strings_view(anchors),
        aliases: crate::chars::strings_view(aliases),
        lines: Seq::new(lines.len(), |i: int| (lines[i].0@, lines[i].1 as int)),
    }
}

/// Whether a vector of strings holds `key`.
fn contains_string(v: &Vec<String>, key: &str) -> (r: bool)
    ensures
        r == crate::chars::strings_view(v@).contains(key@),
{
    let n = v.len();
    let mut i: usize = 0;
    while i < n
        invariant
            0 <= i <= n,
            n == v@.len(),
            forall|k: int| 0 <= k < i ==> #[trigger] v@[k]@ != key@,
        decreases n - i,
    {
        if crate::chars::str_eq(v[i].as_str(), key) {
            proof {
                assert(crate::chars::strings_view(v@)[i as int] == key@);
            }
            return true;
        }
        i = i + 1;
    }
    proof {
        if crate::chars::strings_view(v@).contains(key@) {
            let j = choose|j: int|
                0 <= j < crate::chars::strings_view(v@).len() && crate::chars::strings_view(
                    v@,
                )[j] == key@;
            assert(v@[j]@ == key@);
        }
    }
    false
}

/// Record the line an anchor was last seen on.
fn set_anchor_line(v: &mut Vec<(String, usize)>, key: String, line: usize)
    ensures
        Seq::new(final(v)@.len(), |i: int| (final(v)@[i].0@, final(v)@[i].1 as int)) == al_set(
            Seq::new(old(v)@.len(), |i: int| (old(v)@[i].0@, old(v)@[i].1 as int)),
            key@,
            line as int,
        ),
{
    let ghost orig = Seq::new(v@.len(), |i: int| (v@[i].0@, v@[i].1 as int));
    let ghost kseq = key@;
    let n = v.len();
    let mut i: usize = 0;
    while i < n
        invariant
            0 <= i <= n,
            kseq == key@,
            v@ == old(v)@,
            orig == Seq::new(v@.len(), |i2: int| (v@[i2].0@, v@[i2].1 as int)),
            n == v@.len(),
            forall|k: int| 0 <= k < i ==> #[trigger] orig[k].0 != kseq,
        decreases n - i,
    {
        let hit = crate::chars::str_eq(v[i].0.as_str(), key.as_str());
        proof {
            assert(orig[i as int] == (v@[i as int].0@, v@[i as int].1 as int));
        }
        if hit {
            proof {
                assert(orig[i as int].0 == kseq);
            }
            v.set(i, (key, line));
            proof {
                assert(Seq::new(v@.len(), |i2: int| (v@[i2].0@, v@[i2].1 as int))
                    =~~= orig.update(i as int, (kseq, line as int)));
                lemma_al_set_at(orig, kseq, line as int, i as int);
            }
            return ;
        }
        proof {
            assert(orig[i as int].0 != kseq);
        }
        i = i + 1;
    }
    v.push((key, line));
    proof {
        lemma_al_set_absent(orig, kseq, line as int);
        assert(Seq::new(v@.len(), |i2: int| (v@[i2].0@, v@[i2].1 as int)) =~~= orig + seq![
            (kseq, line as int),
        ]);
    }
}

/// The line recorded for an anchor, if any.
fn get_anchor_line(v: &Vec<(String, usize)>, key: &str) -> (r: Option<usize>)
    ensures
        ({
            let m = Seq::new(v@.len(), |i: int| (v@[i].0@, v@[i].1 as int));
            match r {
                Some(l) => al_get(m, key@) == Some(l as int),
                None => al_get(m, key@) is None,
            }
        }),
{
    let ghost m = Seq::new(v@.len(), |i: int| (v@[i].0@, v@[i].1 as int));
    let n = v.len();
    let mut i: usize = 0;
    proof {
        assert(m.skip(0) =~= m);
    }
    while i < n
        invariant
            0 <= i <= n,
            n == v@.len(),
            m == Seq::new(v@.len(), |i2: int| (v@[i2].0@, v@[i2].1 as int)),
            al_get(m, key@) == al_get(m.skip(i as int), key@),
        decreases n - i,
    {
        let hit = crate::chars::str_eq(v[i].0.as_str(), key);
        proof {
            assert(m.skip(i as int)[0] == m[i as int]);
            assert(m[i as int] == (v@[i as int].0@, v@[i as int].1 as int));
            assert(m.skip(i as int).skip(1) =~= m.skip(i + 1));
        }
        if hit {
            return Some(v[i].1);
        }
        i = i + 1;
    }
    None
}

/// Length of the run of non-whitespace characters at the front of `s`.
pub open spec fn nonws_run_len(s: Seq<char>) -> int
    decreases s.len(),
{
    if s.len() == 0 || is_ws_char(s[0]) {
        0
    } else {
        1 + nonws_run_len(s.skip(1))
    }
}

fn nonws_run(v: &[char], i: usize) -> (r: usize)
    requires
        i <= v@.len(),
    ensures
        r == nonws_run_len(v@.skip(i as int)),
        i + r <= v@.len(),
{
    let vlen = v.len();
    let mut k: usize = i;
    proof {
        assert(v@.skip(i as int).skip(0) =~= v@.skip(i as int));
    }
    while k < vlen && !is_ws(v[k])
        invariant
            i <= k <= vlen,
            vlen == v@.len(),
            nonws_run_len(v@.skip(i as int)) == (k - i) + nonws_run_len(v@.skip(k as int)),
        decreases vlen - k,
    {
        proof {
            assert(v@.skip(k as int)[0] == v@[k as int]);
            assert(v@.skip(k as int).skip(1) =~= v@.skip(k + 1));
        }
        k = k + 1;
    }
    proof {
        if k < vlen {
            assert(v@.skip(k as int)[0] == v@[k as int]);
        }
        assert(nonws_run_len(v@.skip(k as int)) == 0);
    }
    k - i
}

/// A number read from a piece of an error message, defaulting to 1.
pub open spec fn pos_of(s: Seq<char>) -> int {
    match parse_u64_spec(s) {
        Some(x) => if x <= usize::MAX as int {
            x
        } else {
            1
        },
        None => 1,
    }
}

/// The line and column named by a parse error's message; 1:1 when the
/// message does not carry a position in the expected shape.
pub open spec fn err_pos(msg: Seq<char>) -> (int, int) {
    match (find_sub_spec(msg, "line "@), find_sub_spec(msg, " column "@)) {
        (Some(lp), Some(cp)) => {
            if lp + 5 <= cp {
                let l = pos_of(msg.subrange(lp + 5, cp));
                let rest = msg.skip(cp + 8);
                let a = ws_prefix_len(rest);
                let b = nonws_run_len(rest.skip(a));
                let c = if b > 0 {
                    pos_of(rest.subrange(a, a + b))
                } else {
                    1
                };
                (l, c)
            } else {
                (1, 1)
            }
        },
        _ => (1, 1),
    }
}

/// The parse error's message with noise removed and the position dropped.
pub open spec fn clean_msg(msg: Seq<char>) -> Seq<char> {
    let r = replace_all_spec(
        replace_all_spec(msg, "invalid type: "@, Seq::empty()),
        "expected "@,
        Seq::empty(),
    );
    match find_sub_spec(r, " at line"@) {
        Some(i) => r.take(i),
        None => r,
    }
}

/// The trailing-tab problems of the first `n` lines.
pub open spec fn tab_upto(lines: Seq<Seq<char>>, n: int) -> Seq<ProblemV>
    decreases n,
{
    if n <= 0 {
        Seq::empty()
    } else {
        tab_upto(lines, n - 1) + (if lines[n - 1].len() > 0 && lines[n - 1][lines[n - 1].len()
            - 1] == '\t' {
            seq![
                ProblemV {
                    line: n,
                    column: lines[n - 1].len() as int,
                    level: Level::Warning,
                    rule: "yaml-syntax"@,
                    message: "found trailing tab character"@,
                    suggestion: None,
                },
            ]
        } else {
            Seq::empty()
        })
    }
}

/// What `yaml-syntax` reports: the parse error at its reported position, or
/// trailing-tab warnings when the document parses.
pub open spec fn ys_check_spec(content: Seq<char>, c: RuleConfigV) -> Seq<ProblemV> {
    match yaml_summary(content).0 {
        Some(msg) => seq![
            ProblemV {
                line: err_pos(msg).0,
                column: err_pos(msg).1,
                level: Level::Error,
                rule: "yaml-syntax"@,
                message: "syntax error: "@ + clean_msg(msg),
                suggestion: None,
            },
        ],
        None => {
            let lines = lines_spec(content);
            tab_upto(lines, lines.len() as int)
        },
    }
}

/// Rule that catches parsing errors and residual syntax issues.
#[derive(Debug)]
pub struct YamlSyntaxRule;

impl YamlSyntaxRule {
    pub fn new() -> (r: YamlSyntaxRule) {
        YamlSyntaxRule
    }

    /// The unique identifier for this rule.
    pub fn id(&self) -> (r: &'static str)
        ensures
            r@ == "yaml-syntax"@,
    {
        "yaml-syntax"
    }

    /// A human-readable description of this rule.
    pub fn description(&self) -> (r: &'static str)
        ensures
            r@ == "Validates YAML syntax and catches parsing errors"@,
    {
        "Validates YAML syntax and catches parsing errors"
    }

    /// The default configuration: enabled, at `Error`.
    pub fn default_config(&self) -> (r: RuleConfig)
        ensures
            r@ == (crate::rules::RuleConfigV {
                enabled: true,
                level: Level::Error,
                params: Seq::empty(),
            }),
    {
        RuleConfig::new(true, Level::Error)
    }

    /// Accepts any configuration.
    pub fn validate_config(&self, _config: &RuleConfig) -> (r: Result<(), ConfigError>)
        ensures
            r is Ok,
    {
        Ok(())
    }

    /// Report the parse error, or residual tab issues.
    pub fn check(&self, context: &LintContext, _config: &RuleConfig) -> (r: Result<
        Vec<Problem>,
        RuleError,
    >)
        requires
            context.wf(),
        ensures
            match r {
                Ok(ps) => pview(ps@) == ys_check_spec(context.content@, _config@),
                Err(_) => false,
            },
    {
        let mut problems: Vec<Problem> = Vec::new();
        match &context.parse_error {
            Some(emsg) => {
                let msgc = str_chars(emsg.as_str());
                let mlen = msgc.len();
                let (eline, ecol): (usize, usize) = match (
                    find_sub(msgc.as_slice(), "line "),
                    find_sub(msgc.as_slice(), " column "),
                ) {
                    (Some(lp), Some(cp)) => {
                        proof {
                            crate::chars::lemma_find_sub_spec(emsg@, "line "@);
                            crate::chars::lemma_find_sub_spec(emsg@, " column "@);
                            reveal_strlit("line ");
                            reveal_strlit(" column ");
                            assert(("line "@).len() == 5);
                            assert((" column "@).len() == 8);
                        }
                        if lp + 5 <= cp {
                            let lsub = &msgc.as_slice()[lp + 5..cp];
                            proof {
                                assert(lsub@ =~= emsg@.subrange(lp + 5, cp as int));
                            }
                            let l = match parse_u64(lsub) {
                                Some(x) => {
                                    if x <= usize::MAX as u64 {
                                        x as usize
                                    } else {
                                        1
                                    }
                                },
                                None => 1,
                            };
                            let rest = &msgc.as_slice()[cp + 8..mlen];
                            proof {
                                assert(rest@ =~= emsg@.skip(cp + 8));
                            }
                            let a = ws_prefix(rest);
                            proof {
                                crate::chars::lemma_ws_prefix_le_len(rest@);
                            }
                            let b = nonws_run(rest, a);
                            let c = if b > 0 {
                                let tok = &rest[a..a + b];
                                proof {
                                    assert(tok@ =~= rest@.subrange(a as int, a + b));
                                }
                                match parse_u64(tok) {
                                    Some(x) => {
                                        if x <= usize::MAX as u64 {
                                            x as usize
                                        } else {
                                            1
                                        }
                                    },
                                    None => 1,
                                }
                            } else {
                                1
                            };
                            (l, c)
                        } else {
                            (1, 1)
                        }
                    },
                    _ => (1, 1),
                };
                let r1 = replace_all(msgc.as_slice(), "invalid type: ", "");
                let r2 = replace_all(r1.as_slice(), "expected ", "");
                let cleaned: Vec<char> = match find_sub(r2.as_slice(), " at line") {
                    Some(i) => {
                        proof {
                            crate::chars::lemma_find_sub_spec(r2@, " at line"@);
                        }
                        let c = vstd::slice::slice_to_vec(&r2.as_slice()[0..i]);
                        proof {
                            assert(c@ =~= r2@.take(i as int));
                        }
                        c
                    },
                    None => r2,
                };
                let mut msg = "syntax error: ".to_owned();
                let cs = string_from_chars(cleaned.as_slice());
                msg.append(cs.as_str());
                let p = Problem::new(eline, ecol, Level::Error, "yaml-syntax", msg.as_str());
                problems.push(p);
                proof {
                    reveal_strlit("");
                    assert((""@).len() == 0);
                    assert(Seq::<char>::empty() =~= ""@);
                    assert(pview(problems@) =~= Seq::<ProblemV>::empty() + seq![p@]);
                    assert(pview(problems@) =~= ys_check_spec(context.content@, _config@));
                }
            },
            None => {
                let ghost linesv = lines_spec(context.content@);
                let n = context.lines.len();
                let mut li: usize = 0;
                proof {
                    assert(views_of(context.lines@) == linesv);
                    assert(pview(problems@) =~= tab_upto(linesv, 0));
                }
                while li < n
                    invariant
                        0 <= li <= n,
                        context.wf(),
                        yaml_summary(context.content@).0 is None,
                        n == context.lines@.len(),
                        linesv == lines_spec(context.content@),
                        views_of(context.lines@) == linesv,
                        pview(problems@) == tab_upto(linesv, li as int),
                    decreases n - li,
                {
                    let line: &Vec<char> = &context.lines[li];
                    proof {
                        assert(linesv[li as int] == line@);
                    }
                    let llen = line.len();
                    if llen > 0 && line[llen - 1] == '\t' {
                        let p = Problem::new(li + 1, llen, Level::Warning, "yaml-syntax",
                            "found trailing tab character");
                        let ghost pre = problems@;
                        problems.push(p);
                        proof {
                            assert(pview(problems@) =~= pview(pre) + seq![p@]);
                        }
                    }
                    proof {
                        assert(tab_upto(linesv, li + 1) == tab_upto(linesv, li as int) + (if linesv[li as int].len() > 0 && linesv[li as int][linesv[li as int].len() - 1] == '\t' {
                            seq![
                                ProblemV {
                                    line: li + 1,
                                    column: linesv[li as int].len() as int,
                                    level: Level::Warning,
                                    rule: "yaml-syntax"@,
                                    message: "found trailing tab character"@,
                                    suggestion: None,
                                },
                            ]
                        } else {
                            Seq::empty()
                        }));
                        assert(pview(problems@) =~= tab_upto(linesv, li + 1));
                    }
                    li = li + 1;
                }
            },
        }
        Ok(problems)
    }
}

/// The `comments` message for too little spacing.
pub open spec fn cm_msg(minc: int) -> Seq<char> {
    "too few spaces before comment, expected at least "@ + dec_digits(minc as nat)
}

/// The `comments` problems of one line.
pub open spec fn cm_line(line: Seq<char>, lineno: int, req_space: bool, minc: int) -> Seq<
    ProblemV,
> {
    match find_char_spec(line, '#') {
        Some(h) => {
            let before = line.take(h);
            if count_char(before, '\'') % 2 == 0 && count_char(before, '"') % 2 == 0 {
                (if req_space && line.len() - h > 1 && line[h + 1] != ' ' && line[h + 1] != '\t' {
                    seq![
                        ProblemV {
                            line: lineno,
                            column: h + 2,
                            level: Level::Error,
                            rule: "comments"@,
                            message: "missing starting space in comment"@,
                            suggestion: None,
                        },
                    ]
                } else {
                    Seq::empty()
                }) + (if h > 0 && trim_spec(before).len() > 0 && ws_suffix_len(before) < minc {
                    seq![
                        ProblemV {
                            line: lineno,
                            column: h + 1,
                            level: Level::Error,
                            rule: "comments"@,
                            message: cm_msg(minc),
                            suggestion: None,
                        },
                    ]
                } else {
                    Seq::empty()
                })
            } else {
                Seq::empty()
            }
        },
        None => Seq::empty(),
    }
}

/// The `comments` problems of the first `n` lines.
pub open spec fn cm_upto(lines: Seq<Seq<char>>, n: int, req_space: bool, minc: int) -> Seq<
    ProblemV,
>
    decreases n,
{
    if n <= 0 {
        Seq::empty()
    } else {
        cm_upto(lines, n - 1, req_space, minc) + cm_line(lines[n - 1], n, req_space, minc)
    }
}

/// What the `comments` rule reports.
pub open spec fn cm_check_spec(content: Seq<char>, c: RuleConfigV) -> Seq<ProblemV> {
    let lines = lines_spec(content);
    cm_upto(lines, lines.len() as int, bool_param_or(c, "require-starting-space"@, true),
        int_param_or(c, "min-spaces-from-content"@, 2))
}

/// The `min-spaces-from-content` parameter stays non-negative: the
/// comparison and its message render it at the machine's word width
/// otherwise.
pub open spec fn cm_cfg_ok(c: RuleConfigV) -> bool {
    int_param_or(c, "min-spaces-from-content"@, 2) >= 0
}

/// The default `comments` configuration value.
pub open spec fn cm_default_spec() -> RuleConfigV {
    RuleConfigV {
        enabled: false,
        level: Level::Error,
        params: crate::rules::params_set(
            crate::rules::params_set(
                Seq::empty(),
                "require-starting-space"@,
                crate::rules::ConfigValueV::Bool(true),
            ),
            "min-spaces-from-content"@,
            crate::rules::ConfigValueV::Int(2),
        ),
    }
}

/// Rule that validates comment formatting.
#[derive(Debug)]
pub struct CommentsRule;

impl CommentsRule {
    pub fn new() -> (r: CommentsRule) {
        CommentsRule
    }

    /// The unique identifier for this rule.
    pub fn id(&self) -> (r: &'static str)
        ensures
            r@ == "comments"@,
    {
        "comments"
    }

    /// A human-readable description of this rule.
    pub fn description(&self) -> (r: &'static str)
        ensures
            r@ == "Controls comment formatting and placement"@,
    {
        "Controls comment formatting and placement"
    }

    /// The default configuration: disabled; a starting space required and
    /// two spaces from content once enabled.
    pub fn default_config(&self) -> (r: RuleConfig)
        ensures
            r@ == cm_default_spec(),
            rc_get_bool(r@, "require-starting-space"@) == Some(true),
            rc_get_int(r@, "min-spaces-from-content"@) == Some(2int),
    {
        let mut config = RuleConfig::new(false, Level::Error);
        config.set_param("require-starting-space", ConfigValue::Bool(true));
        config.set_param("min-spaces-from-content", ConfigValue::Int(2));
        proof {
            reveal_strlit("require-starting-space");
            reveal_strlit("min-spaces-from-content");
            assert(("require-starting-space"@).len() == 22);
            assert(("min-spaces-from-content"@).len() == 23);
            assert("require-starting-space"@ != "min-spaces-from-content"@);
            let p0 = Seq::<(Seq<char>, crate::rules::ConfigValueV)>::empty();
            let vt = crate::rules::ConfigValueV::Bool(true);
            let v2 = crate::rules::ConfigValueV::Int(2);
            let p1 = crate::rules::params_set(p0, "require-starting-space"@, vt);
            crate::rules::lemma_params_get_set(p0, "require-starting-space"@, vt,
                "require-starting-space"@);
            crate::rules::lemma_params_get_set(p0, "require-starting-space"@, vt,
                "min-spaces-from-content"@);
            crate::rules::lemma_params_get_set(p1, "min-spaces-from-content"@, v2,
                "require-starting-space"@);
            crate::rules::lemma_params_get_set(p1, "min-spaces-from-content"@, v2,
                "min-spaces-from-content"@);
        }
        config
    }

    /// Accepts a configuration whose `min-spaces-from-content`, if set, is
    /// non-negative.
    pub fn validate_config(&self, config: &RuleConfig) -> (r: Result<(), ConfigError>)
        ensures
            r is Ok <==> cm_cfg_ok(config@),
    {
        match config.get_int("min-spaces-from-content") {
            Some(min) => {
                if min < 0 {
                    let mut m =
                        "min-spaces-from-content must be non-negative, got ".to_owned();
                    let d = crate::chars::i64_to_string(min);
                    m.append(d.as_str());
                    Err(ConfigError { message: m })
                } else {
                    Ok(())
                }
            },
            None => Ok(()),
        }
    }

    /// Report comment-formatting problems.
    pub fn check(&self, context: &LintContext, config: &RuleConfig) -> (r: Result<
        Vec<Problem>,
        RuleError,
    >)
        requires
            context.wf(),
            cm_cfg_ok(config@),
            context.content@.len() + 1 < usize::MAX as int,
        ensures
            match r {
                Ok(ps) => pview(ps@) == cm_check_spec(context.content@, config@),
                Err(_) => false,
            },
    {
        let req_space = config.bool_or("require-starting-space", true);
        let minc = config.int_or("min-spaces-from-content", 2);
        let ghost linesv = lines_spec(context.content@);
        let mut problems: Vec<Problem> = Vec::new();
        let n = context.lines.len();
        let mut li: usize = 0;
        proof {
            assert(views_of(context.lines@) == linesv);
            assert(pview(problems@) =~= cm_upto(linesv, 0, req_space, minc as int));
        }
        while li < n
            invariant
                0 <= li <= n,
                context.wf(),
                context.content@.len() + 1 < usize::MAX as int,
                n == context.lines@.len(),
                linesv == lines_spec(context.content@),
                views_of(context.lines@) == linesv,
                req_space == bool_param_or(config@, "require-starting-space"@, true),
                minc as int == int_param_or(config@, "min-spaces-from-content"@, 2),
                minc >= 0,
                pview(problems@) == cm_upto(linesv, li as int, req_space, minc as int),
            decreases n - li,
        {
            let line: &Vec<char> = &context.lines[li];
            proof {
                assert(linesv[li as int] == line@);
                crate::chars::lemma_lines_len_le(context.content@);
                assert(line@.len() <= context.content@.len());
            }
            let llen = line.len();
            match find_char(line.as_slice(), '#') {
                Some(h) => {
                    proof {
                        crate::chars::lemma_find_char_spec(line@, '#');
                    }
                    let before = &line.as_slice()[0..h];
                    proof {
                        assert(before@ =~= line@.take(h as int));
                    }
                    let singles = count_char_occurrences(before, '\'');
                    let doubles = count_char_occurrences(before, '"');
                    if singles % 2 == 0 && doubles % 2 == 0 {
                        if req_space && llen - h > 1 && line[h + 1] != ' ' && line[h + 1] != '\t' {
                            let p = Problem::new(li + 1, h + 2, Level::Error, "comments",
                                "missing starting space in comment");
                            let ghost pre = problems@;
                            problems.push(p);
                            proof {
                                assert(pview(problems@) =~= pview(pre) + seq![p@]);
                            }
                        }
                        if h > 0 {
                            let bt = crate::chars::trim_slice(before);
                            if bt.len() > 0 {
                                let spaces_before = ws_suffix(before);
                                if (spaces_before as u64) < (minc as u64) {
                                    let mut msg =
                                        "too few spaces before comment, expected at least ".to_owned();
                                    let a = u64_to_string(minc as u64);
                                    msg.append(a.as_str());
                                    let p = Problem::new(li + 1, h + 1, Level::Error, "comments",
                                        msg.as_str());
                                    let ghost pre = problems@;
                                    problems.push(p);
                                    proof {
                                        assert(pview(problems@) =~= pview(pre) + seq![p@]);
                                    }
                                }
                            }
                        }
                    }
                },
                None => {},
            }
            proof {
                assert(cm_upto(linesv, li + 1, req_space, minc as int) == cm_upto(
                    linesv,
                    li as int,
                    req_space,
                    minc as int,
                ) + cm_line(linesv[li as int], li + 1, req_space, minc as int));
                assert(pview(problems@) =~= cm_upto(linesv, li + 1, req_space, minc as int));
            }
            li = li + 1;
        }
        Ok(problems)
    }
}

} // verus!
