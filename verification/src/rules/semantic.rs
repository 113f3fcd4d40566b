//! Semantic rules: truthy values, string quoting, key ordering, float and
//! octal value formats.

use vstd::prelude::*;
use crate::chars::{
    find_char, find_char_spec, is_f64_literal, is_f64_str, lex_lt, lines_spec, parse_bool,
    parse_bool_spec, parse_i64, parse_i64_spec, str_chars, str_eq, string_from_chars,
    strings_view, trim_spec, views_of,
};
use crate::linter::context::{key_lists_view, LintContext};
use crate::linter::problem::{pview, Level, Problem, ProblemV};
use crate::parser::comments::split_commas_spec;
use crate::rules::{
    bool_param_or, rc_get_bool, rc_get_string, ConfigError, ConfigValue, RuleConfig, RuleConfigV,
    RuleError,
};

verus! {

/// The spellings the `truthy` rule questions, in the order they are tried.
pub open spec fn truthy_variants() -> Seq<Seq<char>> {
    seq![
        "yes"@, "Yes"@, "YES"@, "no"@, "No"@, "NO"@, "on"@, "On"@, "ON"@, "off"@, "Off"@,
        "OFF"@, "True"@, "TRUE"@, "False"@, "FALSE"@,
    ]
}

/// The configured allowed values: the comma-split of the parameter, each
/// entry trimmed.
pub open spec fn allowed_values_spec(c: RuleConfigV) -> Seq<Seq<char>> {
    let raw = match rc_get_string(c, "allowed-values"@) {
        Some(s) => s,
        None => "true,false"@,
    };
    split_commas_spec(raw).map_values(|x: Seq<char>| trim_spec(x))
}

/// A comma-and-space join.
pub open spec fn join_comma_space(parts: Seq<Seq<char>>) -> Seq<char>
    decreases parts.len(),
{
    if parts.len() == 0 {
        Seq::empty()
    } else if parts.len() == 1 {
        parts[0]
    } else {
        join_comma_space(parts.drop_last()) + ", "@ + parts[parts.len() - 1]
    }
}

/// The `truthy` message for a questioned spelling.
pub open spec fn tv_msg(allowed: Seq<Seq<char>>, variant: Seq<char>) -> Seq<char> {
    "truthy value should be one of ["@ + join_comma_space(allowed) + "], not \""@ + variant
        + "\""@
}

/// The problems one value yields, trying each variant in order.
pub open spec fn tv_from(
    value: Seq<char>,
    lineno: int,
    allowed: Seq<Seq<char>>,
    vi: int,
) -> Seq<ProblemV>
    decreases truthy_variants().len() - vi,
{
    if vi < 0 || vi >= truthy_variants().len() {
        Seq::empty()
    } else {
        let var = truthy_variants()[vi];
        (if value == var && !allowed.contains(var) {
            seq![
                ProblemV {
                    line: lineno,
                    column: 1,
                    level: Level::Error,
                    rule: "truthy"@,
                    message: tv_msg(allowed, var),
                    suggestion: None,
                },
            ]
        } else {
            Seq::empty()
        }) + tv_from(value, lineno, allowed, vi + 1)
    }
}

/// The `truthy` problems of one line.
pub open spec fn truthy_line(
    line: Seq<char>,
    lineno: int,
    allowed: Seq<Seq<char>>,
    check_keys: bool,
) -> Seq<ProblemV> {
    let t = trim_spec(line);
    if t.len() == 0 || t[0] == '#' {
        Seq::empty()
    } else {
        match find_char_spec(line, ':') {
            Some(cp) => {
                let key = trim_spec(line.take(cp));
                let value = trim_spec(line.skip(cp + 1));
                (if check_keys {
                    tv_from(key, lineno, allowed, 0)
                } else {
                    Seq::empty()
                }) + tv_from(value, lineno, allowed, 0)
            },
            None => Seq::empty(),
        }
    }
}

/// The `truthy` problems of the first `n` lines.
pub open spec fn truthy_upto(
    lines: Seq<Seq<char>>,
    n: int,
    allowed: Seq<Seq<char>>,
    check_keys: bool,
) -> Seq<ProblemV>
    decreases n,
{
    if n <= 0 {
        Seq::empty()
    } else {
        truthy_upto(lines, n - 1, allowed, check_keys) + truthy_line(
            lines[n - 1],
            n,
            allowed,
            check_keys,
        )
    }
}

/// What the `truthy` rule reports.
pub open spec fn truthy_check_spec(content: Seq<char>, c: RuleConfigV) -> Seq<ProblemV> {
    let lines = lines_spec(content);
    truthy_upto(lines, lines.len() as int, allowed_values_spec(c), bool_param_or(
        c,
        "check-keys"@,
        true,
    ))
}

/// The default `truthy` configuration value.
pub open spec fn truthy_default_spec() -> RuleConfigV {
    RuleConfigV {
        enabled: false,
        level: Level::Error,
        params: crate::rules::params_set(
            crate::rules::params_set(
                Seq::empty(),
                "allowed-values"@,
                crate::rules::ConfigValueV::Str("true,false"@),
            ),
            "check-keys"@,
            crate::rules::ConfigValueV::Bool(true),
        ),
    }
}

/// Rule that enforces consistent boolean value representation.
#[derive(Debug)]
pub struct TruthyRule;

impl TruthyRule {
    pub fn new() -> (r: TruthyRule) {
        TruthyRule
    }

    /// The unique identifier for this rule.
    pub fn id(&self) -> (r: &'static str)
        ensures
            r@ == "truthy"@,
    {
        "truthy"
    }

    /// A human-readable description of this rule.
    pub fn description(&self) -> (r: &'static str)
        ensures
            r@ == "Enforces consistent boolean value representation"@,
    {
        "Enforces consistent boolean value representation"
    }

    /// The default configuration: disabled; `true`/`false` allowed, keys
    /// checked.
    pub fn default_config(&self) -> (r: RuleConfig)
        ensures
            r@ == truthy_default_spec(),
            rc_get_string(r@, "allowed-values"@) == Some("true,false"@),
            rc_get_bool(r@, "check-keys"@) == Some(true),
    {
        let mut config = RuleConfig::new(false, Level::Error);
        config.set_param("allowed-values", ConfigValue::String("true,false".to_owned()));
        config.set_param("check-keys", ConfigValue::Bool(true));
        proof {
            reveal_strlit("allowed-values");
            reveal_strlit("check-keys");
            assert(("allowed-values"@).len() == 14);
            assert(("check-keys"@).len() == 10);
            assert("allowed-values"@ != "check-keys"@);
            let p0 = Seq::<(Seq<char>, crate::rules::ConfigValueV)>::empty();
            let v1 = crate::rules::ConfigValueV::Str("true,false"@);
            let p1 = crate::rules::params_set(p0, "allowed-values"@, v1);
            crate::rules::lemma_params_get_set(p0, "allowed-values"@, v1, "allowed-values"@);
            crate::rules::lemma_params_get_set(p0, "allowed-values"@, v1, "check-keys"@);
            crate::rules::lemma_params_get_set(p1, "check-keys"@,
                crate::rules::ConfigValueV::Bool(true), "allowed-values"@);
            crate::rules::lemma_params_get_set(p1, "check-keys"@,
                crate::rules::ConfigValueV::Bool(true), "check-keys"@);
        }
        config
    }

    /// Accepts any configuration.
    pub fn validate_config(&self, _config: &RuleConfig) -> (r: Result<(), ConfigError>)
        ensures
            r is Ok,
    {
        Ok(())
    }

    /// Append the problems one value yields.
    pub fn check_truthy_value(
        &self,
        value: &[char],
        line_number: usize,
        allowed: &Vec<Vec<char>>,
        problems: &mut Vec<Problem>,
    )
        ensures
            pview(final(problems)@) == pview(old(problems)@) + tv_from(
                value@,
                line_number as int,
                views_of(allowed@),
                0,
            ),
    {
        let joined = join_allowed(allowed);
        let variants: Vec<&str> = vec![
            "yes", "Yes", "YES", "no", "No", "NO", "on", "On", "ON", "off", "Off", "OFF",
            "True", "TRUE", "False", "FALSE",
        ];
        proof {
            assert(forall|k: int|
                0 <= k < 16 ==> #[trigger] variants@[k]@ == truthy_variants()[k]);
        }
        let ghost allowedv = views_of(allowed@);
        let mut vi: usize = 0;
        let ghost pre = pview(problems@);
        proof {
            assert(pre + tv_from(value@, line_number as int, allowedv, 0) == pview(old(
                problems,
            )@) + tv_from(value@, line_number as int, allowedv, 0));
        }
        while vi < 16
            invariant
                0 <= vi <= 16,
                variants@.len() == 16,
                forall|k: int| 0 <= k < 16 ==> #[trigger] variants@[k]@ == truthy_variants()[k],
                allowedv == views_of(allowed@),
                joined@ == join_comma_space(allowedv),
                pview(problems@) + tv_from(value@, line_number as int, allowedv, vi as int)
                    == pview(old(problems)@) + tv_from(value@, line_number as int, allowedv, 0),
            decreases 16 - vi,
        {
            let var = variants[vi];
            let is_var = crate::chars::eq_chars_str(value, var);
            if is_var {
                let mut in_allowed = false;
                let mut k: usize = 0;
                let alen = allowed.len();
                while k < alen
                    invariant
                        0 <= k <= alen,
                        alen == allowed@.len(),
                        allowedv == views_of(allowed@),
                        in_allowed == exists|m: int|
                            0 <= m < k && #[trigger] allowedv[m] == var@,
                    decreases alen - k,
                {
                    let same = crate::chars::eq_chars_str(allowed[k].as_slice(), var);
                    proof {
                        assert(allowedv[k as int] == allowed@[k as int]@);
                    }
                    in_allowed = in_allowed || same;
                    k = k + 1;
                }
                proof {
                    if in_allowed {
                        assert(allowedv.contains(var@));
                    } else {
                        if allowedv.contains(var@) {
                            let m = choose|m: int|
                                0 <= m < allowedv.len() && allowedv[m] == var@;
                            assert(false);
                        }
                    }
                }
                if !in_allowed {
                    let mut msg = "truthy value should be one of [".to_owned();
                    msg.append(joined.as_str());
                    msg.append("], not \"");
                    msg.append(var);
                    msg.append("\"");
                    let p = Problem::new(line_number, 1, Level::Error, "truthy", msg.as_str());
                    let ghost before = problems@;
                    problems.push(p);
                    proof {
                        assert(var@ == truthy_variants()[vi as int]);
                        assert(joined@ == join_comma_space(allowedv));
                        assert(msg@ == tv_msg(allowedv, truthy_variants()[vi as int]));
                        assert(p@ == (ProblemV {
                            line: line_number as int,
                            column: 1,
                            level: Level::Error,
                            rule: "truthy"@,
                            message: tv_msg(allowedv, truthy_variants()[vi as int]),
                            suggestion: None,
                        }));
                        assert(pview(problems@) =~= pview(before) + seq![p@]);
                        crate::linter::problem::lemma_pv_assoc(
                            pview(before),
                            seq![p@],
                            tv_from(value@, line_number as int, allowedv, vi + 1),
                        );
                    }
                }
            }
            proof {
                let ghost var = truthy_variants()[vi as int];
                let ghost nxt = tv_from(value@, line_number as int, allowedv, vi + 1);
                if !(value@ == var && !allowedv.contains(var)) {
                    assert(tv_from(value@, line_number as int, allowedv, vi as int)
                        == Seq::<ProblemV>::empty() + nxt);
                    assert(Seq::<ProblemV>::empty() + nxt =~= nxt);
                }
            }
            vi = vi + 1;
        }
    }

    /// Report questioned truthy spellings in keys and values.
    pub fn check(&self, context: &LintContext, config: &RuleConfig) -> (r: Result<
        Vec<Problem>,
        RuleError,
    >)
        requires
            context.wf(),
        ensures
            match r {
                Ok(ps) => pview(ps@) == truthy_check_spec(context.content@, config@),
                Err(_) => false,
            },
    {
        let raw: String = match config.get_string("allowed-values") {
            Some(s) => s.to_owned(),
            None => "true,false".to_owned(),
        };
        let rawc = str_chars(raw.as_str());
        let segs = crate::parser::comments::split_commas(rawc.as_slice());
        let ghost allowedv = allowed_values_spec(config@);
        let mut allowed: Vec<Vec<char>> = Vec::new();
        let n0 = segs.len();
        let mut k: usize = 0;
        proof {
            assert(crate::chars::views_of(segs@) == split_commas_spec(raw@));
            assert(allowedv =~= split_commas_spec(raw@).map_values(
                |x: Seq<char>| trim_spec(x),
            ));
        }
        while k < n0
            invariant
                0 <= k <= n0,
                n0 == segs@.len(),
                crate::chars::views_of(segs@) == split_commas_spec(raw@),
                allowedv == split_commas_spec(raw@).map_values(|x: Seq<char>| trim_spec(x)),
                allowed@.len() == k,
                forall|m: int|
                    0 <= m < k ==> #[trigger] allowed@[m]@ == allowedv[m],
            decreases n0 - k,
        {
            let t = crate::chars::trim_slice(segs[k].as_slice());
            let tv = vstd::slice::slice_to_vec(t);
            proof {
                assert(crate::chars::views_of(segs@)[k as int] == segs@[k as int]@);
            }
            allowed.push(tv);
            k = k + 1;
        }
        proof {
            assert(views_of(allowed@) =~= allowedv);
        }
        let check_keys = config.bool_or("check-keys", true);

        let ghost linesv = lines_spec(context.content@);
        let mut problems: Vec<Problem> = Vec::new();
        let n = context.lines.len();
        let mut li: usize = 0;
        proof {
            assert(views_of(context.lines@) == linesv);
            assert(pview(problems@) =~= truthy_upto(linesv, 0, allowedv, check_keys));
        }
        while li < n
            invariant
                0 <= li <= n,
                context.wf(),
                n == context.lines@.len(),
                linesv == lines_spec(context.content@),
                views_of(context.lines@) == linesv,
                allowedv == allowed_values_spec(config@),
                views_of(allowed@) == allowedv,
                check_keys == bool_param_or(config@, "check-keys"@, true),
                pview(problems@) == truthy_upto(linesv, li as int, allowedv, check_keys),
            decreases n - li,
        {
            let line: &Vec<char> = &context.lines[li];
            proof {
                assert(linesv[li as int] == line@);
            }
            let t = crate::chars::trim_slice(line.as_slice());
            if !(t.len() == 0 || t[0] == '#') {
                let llen = line.len();
                match find_char(line.as_slice(), ':') {
                    Some(cp) => {
                        proof {
                            crate::chars::lemma_find_char_spec(line@, ':');
                        }
                        let keysub = &line.as_slice()[0..cp];
                        let valsub = &line.as_slice()[cp + 1..llen];
                        proof {
                            assert(keysub@ =~= line@.take(cp as int));
                            assert(valsub@ =~= line@.skip(cp + 1));
                        }
                        let key = crate::chars::trim_slice(keysub);
                        let value = crate::chars::trim_slice(valsub);
                        let ghost mid0 = pview(problems@);
                        if check_keys {
                            self.check_truthy_value(key, li + 1, &allowed, &mut problems);
                        }
                        let ghost mid1 = pview(problems@);
                        self.check_truthy_value(value, li + 1, &allowed, &mut problems);
                        proof {
                            crate::linter::problem::lemma_pv_assoc(
                                mid0,
                                (if check_keys {
                                    tv_from(trim_spec(line@.take(cp as int)), li + 1, allowedv, 0)
                                } else {
                                    Seq::empty()
                                }),
                                tv_from(trim_spec(line@.skip(cp + 1)), li + 1, allowedv, 0),
                            );
                        }
                    },
                    None => {},
                }
            }
            proof {
                assert(truthy_upto(linesv, li + 1, allowedv, check_keys) == truthy_upto(
                    linesv,
                    li as int,
                    allowedv,
                    check_keys,
                ) + truthy_line(linesv[li as int], li + 1, allowedv, check_keys));
                assert(pview(problems@) =~= truthy_upto(linesv, li + 1, allowedv, check_keys));
            }
            li = li + 1;
        }
        Ok(problems)
    }
}

/// Join the allowed values with a comma and space.
fn join_allowed(parts: &Vec<Vec<char>>) -> (r: String)
    ensures
        r@ == join_comma_space(views_of(parts@)),
{
    let mut out = String::new();
    let n = parts.len();
    let ghost pv = views_of(parts@);
    let mut i: usize = 0;
    proof {
        assert(pv.take(0) =~= Seq::<Seq<char>>::empty());
        assert(out@ =~= join_comma_space(pv.take(0)));
    }
    while i < n
        invariant
            0 <= i <= n,
            n == parts@.len(),
            pv == views_of(parts@),
            out@ == join_comma_space(pv.take(i as int)),
        decreases n - i,
    {
        if i > 0 {
            out.append(", ");
        }
        let s = string_from_chars(parts[i].as_slice());
        out.append(s.as_str());
        proof {
            assert(pv.take(i + 1).drop_last() =~= pv.take(i as int));
            assert(pv.take(i + 1)[i as int] == parts@[i as int]@);
        }
        i = i + 1;
    }
    proof {
        assert(pv.take(n as int) =~= pv);
    }
    out
}

/// Keys are non-decreasing in the order they appear.
pub open spec fn keys_sorted(keys: Seq<Seq<char>>) -> bool {
    forall|i: int| 0 <= i < keys.len() - 1 ==> !lex_lt(keys[i + 1], #[trigger] keys[i])
}

/// The `key-ordering` message for an unsorted mapping.
pub open spec fn ko_msg(keys: Seq<Seq<char>>) -> Seq<char> {
    "wrong ordering of key \""@ + (if keys.len() > 0 {
        keys[0]
    } else {
        "unknown"@
    }) + "\" in mapping"@
}

/// The `key-ordering` problems of the first `n` mappings.
pub open spec fn ko_upto(maps: Seq<Seq<Seq<char>>>, n: int) -> Seq<ProblemV>
    decreases n,
{
    if n <= 0 {
        Seq::empty()
    } else {
        ko_upto(maps, n - 1) + (if !keys_sorted(maps[n - 1]) {
            seq![
                ProblemV {
                    line: 1,
                    column: 1,
                    level: Level::Error,
                    rule: "key-ordering"@,
                    message: ko_msg(maps[n - 1]),
                    suggestion: None,
                },
            ]
        } else {
            Seq::empty()
        })
    }
}

/// What the `key-ordering` rule reports: nothing for a document that does
/// not parse, else one problem per mapping whose keys are out of order, in
/// document order.
pub open spec fn ko_check_spec(content: Seq<char>, c: RuleConfigV) -> Seq<ProblemV> {
    if crate::linter::context::yaml_summary(content).0 is Some {
        Seq::empty()
    } else {
        let maps = crate::linter::context::yaml_summary(content).1;
        ko_upto(maps, maps.len() as int)
    }
}

/// Rule that enforces alphabetical key ordering.
#[derive(Debug)]
pub struct KeyOrderingRule;

impl KeyOrderingRule {
    pub fn new() -> (r: KeyOrderingRule) {
        KeyOrderingRule
    }

    /// The unique identifier for this rule.
    pub fn id(&self) -> (r: &'static str)
        ensures
            r@ == "key-ordering"@,
    {
        "key-ordering"
    }

    /// A human-readable description of this rule.
    pub fn description(&self) -> (r: &'static str)
        ensures
            r@ == "Enforces alphabetical ordering of keys in mappings"@,
    {
        "Enforces alphabetical ordering of keys in mappings"
    }

    /// The default configuration: disabled, at `Error`.
    pub fn default_config(&self) -> (r: RuleConfig)
        ensures
            r@ == (crate::rules::RuleConfigV {
                enabled: false,
                level: Level::Error,
                params: Seq::empty(),
            }),
    {
        RuleConfig::new(false, Level::Error)
    }

    /// Accepts any configuration.
    pub fn validate_config(&self, _config: &RuleConfig) -> (r: Result<(), ConfigError>)
        ensures
            r is Ok,
    {
        Ok(())
    }

    /// Report each mapping whose keys are out of order.
    pub fn check(&self, context: &LintContext, _config: &RuleConfig) -> (r: Result<
        Vec<Problem>,
        RuleError,
    >)
        requires
            context.wf(),
        ensures
            match r {
                Ok(ps) => pview(ps@) == ko_check_spec(context.content@, _config@),
                Err(_) => false,
            },
    {
        let mut problems: Vec<Problem> = Vec::new();
        if context.parse_error.is_some() {
            proof {
                assert(pview(problems@) =~= Seq::<ProblemV>::empty());
            }
            return Ok(problems);
        }
        let ghost mapsv = crate::linter::context::yaml_summary(context.content@).1;
        let n = context.mapping_keys.len();
        let mut mi: usize = 0;
        proof {
            assert(key_lists_view(context.mapping_keys@) == mapsv);
            assert(pview(problems@) =~= ko_upto(mapsv, 0));
        }
        while mi < n
            invariant
                0 <= mi <= n,
                context.wf(),
                context.parse_error is None,
                n == context.mapping_keys@.len(),
                mapsv == crate::linter::context::yaml_summary(context.content@).1,
                key_lists_view(context.mapping_keys@) == mapsv,
                pview(problems@) == ko_upto(mapsv, mi as int),
            decreases n - mi,
        {
            let keys: &Vec<String> = &context.mapping_keys[mi];
            proof {
                assert(mapsv[mi as int] == strings_view(keys@));
            }
            let kn = keys.len();
            let mut sorted = true;
            let mut j: usize = 0;
            while j + 1 < kn
                invariant
                    0 <= j,
                    kn >= 1 ==> j <= kn - 1,
                    kn == 0 ==> j == 0,
                    kn == keys@.len(),
                    sorted == (forall|m: int|
                        0 <= m < j ==> !lex_lt(
                            strings_view(keys@)[m + 1],
                            #[trigger] strings_view(keys@)[m],
                        )),
                decreases kn - j,
            {
                let a = str_chars(keys[j + 1].as_str());
                let b = str_chars(keys[j].as_str());
                let lt = crate::chars::chars_lt(a.as_slice(), b.as_slice());
                proof {
                    assert(strings_view(keys@)[j + 1] == keys@[j + 1]@);
                    assert(strings_view(keys@)[j as int] == keys@[j as int]@);
                }
                sorted = sorted && !lt;
                j = j + 1;
            }
            proof {
                if sorted {
                    assert(keys_sorted(strings_view(keys@)));
                } else {
                    let m = choose|m: int|
                        0 <= m < j && lex_lt(
                            strings_view(keys@)[m + 1],
                            #[trigger] strings_view(keys@)[m],
                        );
                    assert(!keys_sorted(strings_view(keys@)));
                }
            }
            if !sorted {
                let mut msg = "wrong ordering of key \"".to_owned();
                if keys.len() > 0 {
                    msg.append(keys[0].as_str());
                } else {
                    msg.append("unknown");
                }
                msg.append("\" in mapping");
                let p = Problem::new(1, 1, Level::Error, "key-ordering", msg.as_str());
                let ghost pre = problems@;
                problems.push(p);
                proof {
                    assert(pview(problems@) =~= pview(pre) + seq![p@]);
                }
            }
            proof {
                assert(ko_upto(mapsv, mi + 1) == ko_upto(mapsv, mi as int) + (if !keys_sorted(
                    mapsv[mi as int],
                ) {
                    seq![
                        ProblemV {
                            line: 1,
                            column: 1,
                            level: Level::Error,
                            rule: "key-ordering"@,
                            message: ko_msg(mapsv[mi as int]),
                            suggestion: None,
                        },
                    ]
                } else {
                    Seq::empty()
                }));
                assert(pview(problems@) =~= ko_upto(mapsv, mi + 1));
            }
            mi = mi + 1;
        }
        Ok(problems)
    }
}

/// The closing quote matching an opener, scanning from `i` and skipping
/// escaped characters.
pub open spec fn q_close(line: Seq<char>, i: int, q: char) -> Option<int>
    decreases line.len() - i,
{
    if i < 0 || i >= line.len() {
        None
    } else if line[i] == q {
        Some(i)
    } else if line[i] == '\\' && i + 1 < line.len() {
        q_close(line, i + 2, q)
    } else {
        q_close(line, i + 1, q)
    }
}

pub proof fn lemma_q_close_bounds(line: Seq<char>, i: int, q: char)
    ensures
        match q_close(line, i, q) {
            Some(c) => i <= c < line.len() && line[c] == q,
            None => true,
        },
    decreases line.len() - i,
{
    if i < 0 || i >= line.len() {
    } else if line[i] == q {
    } else if line[i] == '\\' && i + 1 < line.len() {
        lemma_q_close_bounds(line, i + 2, q);
    } else {
        lemma_q_close_bounds(line, i + 1, q);
    }
}

/// Whether a string needs its quotes: special characters, edge spaces, or a
/// value that would otherwise read as a number or boolean.
pub open spec fn needs_quoting_spec(content: Seq<char>) -> bool {
    ||| find_char_spec(content, ':') is Some
    ||| find_char_spec(content, '#') is Some
    ||| find_char_spec(content, '[') is Some
    ||| find_char_spec(content, ']') is Some
    ||| find_char_spec(content, '{') is Some
    ||| find_char_spec(content, '}') is Some
    ||| (content.len() > 0 && content[0] == ' ')
    ||| (content.len() > 0 && content[content.len() - 1] == ' ')
    ||| is_f64_str(content)
    ||| parse_bool_spec(content) is Some
}

/// The problems one complete quoted string yields.
pub open spec fn q_probs(
    line: Seq<char>,
    lineno: int,
    start: int,
    close: int,
    qt: Seq<char>,
    ronw: bool,
) -> Seq<ProblemV> {
    (if qt == "single"@ && line[start] == '"' {
        seq![
            ProblemV {
                line: lineno,
                column: start + 1,
                level: Level::Error,
                rule: "quoted-strings"@,
                message: "string should be single-quoted"@,
                suggestion: None,
            },
        ]
    } else if qt == "double"@ && line[start] == '\'' {
        seq![
            ProblemV {
                line: lineno,
                column: start + 1,
                level: Level::Error,
                rule: "quoted-strings"@,
                message: "string should be double-quoted"@,
                suggestion: None,
            },
        ]
    } else {
        Seq::empty()
    }) + (if ronw && !needs_quoting_spec(line.subrange(start + 1, close)) {
        seq![
            ProblemV {
                line: lineno,
                column: start + 1,
                level: Level::Error,
                rule: "quoted-strings"@,
                message: "string should not be quoted"@,
                suggestion: None,
            },
        ]
    } else {
        Seq::empty()
    })
}

/// The quoted-string problems of a line from index `i` on; an unterminated
/// string ends the scan.
pub open spec fn qs_scan(line: Seq<char>, lineno: int, i: int, qt: Seq<char>, ronw: bool) -> Seq<
    ProblemV,
>
    decreases line.len() - i,
    via qs_scan_dec
{
    if i < 0 || i >= line.len() {
        Seq::empty()
    } else if line[i] == '"' || line[i] == '\'' {
        match q_close(line, i + 1, line[i]) {
            Some(c) => q_probs(line, lineno, i, c, qt, ronw) + qs_scan(
                line,
                lineno,
                c + 1,
                qt,
                ronw,
            ),
            None => Seq::empty(),
        }
    } else {
        qs_scan(line, lineno, i + 1, qt, ronw)
    }
}

#[via_fn]
proof fn qs_scan_dec(line: Seq<char>, lineno: int, i: int, qt: Seq<char>, ronw: bool) {
    if 0 <= i < line.len() && (line[i] == '"' || line[i] == '\'') {
        lemma_q_close_bounds(line, i + 1, line[i]);
    }
}

/// The `quoted-strings` problems of one line.
pub open spec fn qs_line(line: Seq<char>, lineno: int, qt: Seq<char>, ronw: bool) -> Seq<
    ProblemV,
> {
    let t = trim_spec(line);
    if t.len() == 0 || t[0] == '#' {
        Seq::empty()
    } else {
        qs_scan(line, lineno, 0, qt, ronw)
    }
}

/// The `quoted-strings` problems of the first `n` lines.
pub open spec fn qs_upto(lines: Seq<Seq<char>>, n: int, qt: Seq<char>, ronw: bool) -> Seq<
    ProblemV,
>
    decreases n,
{
    if n <= 0 {
        Seq::empty()
    } else {
        qs_upto(lines, n - 1, qt, ronw) + qs_line(lines[n - 1], n, qt, ronw)
    }
}

/// What the `quoted-strings` rule reports.
pub open spec fn qs_check_spec(content: Seq<char>, c: RuleConfigV) -> Seq<ProblemV> {
    let lines = lines_spec(content);
    let qt = match rc_get_string(c, "quote-type"@) {
        Some(s) => s,
        None => "any"@,
    };
    qs_upto(lines, lines.len() as int, qt, bool_param_or(c, "required-only-when-needed"@, false))
}

/// The default `quoted-strings` configuration value.
pub open spec fn qs_default_spec() -> RuleConfigV {
    RuleConfigV {
        enabled: false,
        level: Level::Error,
        params: crate::rules::params_set(
            crate::rules::params_set(
                Seq::empty(),
                "quote-type"@,
                crate::rules::ConfigValueV::Str("any"@),
            ),
            "required-only-when-needed"@,
            crate::rules::ConfigValueV::Bool(false),
        ),
    }
}

/// Rule that enforces consistent string quoting.
#[derive(Debug)]
pub struct QuotedStringsRule;

impl QuotedStringsRule {
    pub fn new() -> (r: QuotedStringsRule) {
        QuotedStringsRule
    }

    /// The unique identifier for this rule.
    pub fn id(&self) -> (r: &'static str)
        ensures
            r@ == "quoted-strings"@,
    {
        "quoted-strings"
    }

    /// A human-readable description of this rule.
    pub fn description(&self) -> (r: &'static str)
        ensures
            r@ == "Enforces consistent string quoting"@,
    {
        "Enforces consistent string quoting"
    }

    /// The default configuration: disabled; any quote accepted.
    pub fn default_config(&self) -> (r: RuleConfig)
        ensures
            r@ == qs_default_spec(),
            rc_get_string(r@, "quote-type"@) == Some("any"@),
            rc_get_bool(r@, "required-only-when-needed"@) == Some(false),
    {
        let mut config = RuleConfig::new(false, Level::Error);
        config.set_param("quote-type", ConfigValue::String("any".to_owned()));
        config.set_param("required-only-when-needed", ConfigValue::Bool(false));
        proof {
            reveal_strlit("quote-type");
            reveal_strlit("required-only-when-needed");
            assert(("quote-type"@).len() == 10);
            assert(("required-only-when-needed"@).len() == 25);
            assert("quote-type"@ != "required-only-when-needed"@);
            let p0 = Seq::<(Seq<char>, crate::rules::ConfigValueV)>::empty();
            let v1 = crate::rules::ConfigValueV::Str("any"@);
            let p1 = crate::rules::params_set(p0, "quote-type"@, v1);
            crate::rules::lemma_params_get_set(p0, "quote-type"@, v1, "quote-type"@);
            crate::rules::lemma_params_get_set(p0, "quote-type"@, v1,
                "required-only-when-needed"@);
            crate::rules::lemma_params_get_set(p1, "required-only-when-needed"@,
                crate::rules::ConfigValueV::Bool(false), "quote-type"@);
            crate::rules::lemma_params_get_set(p1, "required-only-when-needed"@,
                crate::rules::ConfigValueV::Bool(false), "required-only-when-needed"@);
        }
        config
    }

    /// Accepts any configuration.
    pub fn validate_config(&self, _config: &RuleConfig) -> (r: Result<(), ConfigError>)
        ensures
            r is Ok,
    {
        Ok(())
    }

    /// Whether a string needs its quotes.
    pub fn needs_quoting(&self, content: &[char]) -> (r: bool)
        ensures
            r == needs_quoting_spec(content@),
    {
        let clen = content.len();
        crate::chars::contains_char(content, ':') || crate::chars::contains_char(content, '#')
            || crate::chars::contains_char(content, '[') || crate::chars::contains_char(
            content,
            ']',
        ) || crate::chars::contains_char(content, '{') || crate::chars::contains_char(
            content,
            '}',
        ) || (clen > 0 && content[0] == ' ') || (clen > 0 && content[clen - 1] == ' ')
            || is_f64_literal(content) || parse_bool(content).is_some()
    }

    /// Append the problems the quoted strings of one line yield.
    pub fn check_quoted_strings_in_line(
        &self,
        line: &Vec<char>,
        line_number: usize,
        quote_type: &str,
        ronw: bool,
        problems: &mut Vec<Problem>,
    )
        requires
            line@.len() + 1 < usize::MAX as int,
        ensures
            pview(final(problems)@) == pview(old(problems)@) + qs_scan(
                line@,
                line_number as int,
                0,
                quote_type@,
                ronw,
            ),
    {
        let llen = line.len();
        let mut i: usize = 0;
        while i < llen
            invariant
                0 <= i <= llen,
                llen == line@.len(),
                llen + 1 < usize::MAX as int,
                pview(problems@) + qs_scan(line@, line_number as int, i as int, quote_type@, ronw)
                    == pview(old(problems)@) + qs_scan(
                    line@,
                    line_number as int,
                    0,
                    quote_type@,
                    ronw,
                ),
            decreases llen - i,
        {
            let c = line[i];
            if c == '"' || c == '\'' {
                let mut j: usize = i + 1;
                while j < llen && line[j] != c
                    invariant
                        i + 1 <= j <= llen + 1,
                        llen == line@.len(),
                        q_close(line@, i + 1, c) == q_close(line@, j as int, c),
                    decreases llen + 2 - j,
                {
                    if line[j] == '\\' && j + 1 < llen {
                        j = j + 2;
                    } else {
                        j = j + 1;
                    }
                }
                if j < llen {
                    proof {
                        assert(q_close(line@, i + 1, c) == Some(j as int));
                    }
                    let qt_single = str_eq(quote_type, "single");
                    let qt_double = str_eq(quote_type, "double");
                    let ghost before_probs = pview(problems@);
                    if qt_single && c == '"' {
                        let p = Problem::new(line_number, i + 1, Level::Error, "quoted-strings",
                            "string should be single-quoted");
                        let ghost pre = problems@;
                        problems.push(p);
                        proof {
                            assert(pview(problems@) =~= pview(pre) + seq![p@]);
                        }
                    } else if qt_double && c == '\'' {
                        let p = Problem::new(line_number, i + 1, Level::Error, "quoted-strings",
                            "string should be double-quoted");
                        let ghost pre = problems@;
                        problems.push(p);
                        proof {
                            assert(pview(problems@) =~= pview(pre) + seq![p@]);
                        }
                    }
                    if ronw {
                        let content = &line.as_slice()[i + 1..j];
                        proof {
                            assert(content@ =~= line@.subrange(i + 1, j as int));
                        }
                        let nq = self.needs_quoting(content);
                        if !nq {
                            let p = Problem::new(line_number, i + 1, Level::Error,
                                "quoted-strings", "string should not be quoted");
                            let ghost pre = problems@;
                            problems.push(p);
                            proof {
                                assert(pview(problems@) =~= pview(pre) + seq![p@]);
                            }
                        }
                    }
                    proof {
                        crate::linter::problem::lemma_pv_assoc(
                            before_probs,
                            q_probs(line@, line_number as int, i as int, j as int, quote_type@,
                                ronw),
                            qs_scan(line@, line_number as int, j + 1, quote_type@, ronw),
                        );
                    }
                    i = j + 1;
                } else {
                    proof {
                        assert(q_close(line@, i + 1, c) is None);
                        assert(qs_scan(line@, line_number as int, i as int, quote_type@, ronw)
                            =~= Seq::<ProblemV>::empty());
                        assert(pview(problems@) + Seq::<ProblemV>::empty() =~= pview(problems@));
                        assert(qs_scan(line@, line_number as int, llen as int, quote_type@, ronw)
                            =~= Seq::<ProblemV>::empty());
                    }
                    i = llen;
                }
            } else {
                i = i + 1;
            }
        }
    }

    /// Report quoting problems.
    pub fn check(&self, context: &LintContext, config: &RuleConfig) -> (r: Result<
        Vec<Problem>,
        RuleError,
    >)
        requires
            context.wf(),
            context.content@.len() + 1 < usize::MAX as int,
        ensures
            match r {
                Ok(ps) => pview(ps@) == qs_check_spec(context.content@, config@),
                Err(_) => false,
            },
    {
        let quote_type: String = match config.get_string("quote-type") {
            Some(s) => s.to_owned(),
            None => "any".to_owned(),
        };
        let ronw = config.bool_or("required-only-when-needed", false);
        let ghost qtv = quote_type@;
        let ghost linesv = lines_spec(context.content@);
        let mut problems: Vec<Problem> = Vec::new();
        let n = context.lines.len();
        let mut li: usize = 0;
        proof {
            assert(views_of(context.lines@) == linesv);
            assert(pview(problems@) =~= qs_upto(linesv, 0, qtv, ronw));
        }
        while li < n
            invariant
                0 <= li <= n,
                context.wf(),
                context.content@.len() + 1 < usize::MAX as int,
                n == context.lines@.len(),
                linesv == lines_spec(context.content@),
                views_of(context.lines@) == linesv,
                qtv == quote_type@,
                qtv == (match rc_get_string(config@, "quote-type"@) {
                    Some(s) => s,
                    None => "any"@,
                }),
                ronw == bool_param_or(config@, "required-only-when-needed"@, false),
                pview(problems@) == qs_upto(linesv, li as int, qtv, ronw),
            decreases n - li,
        {
            let line: &Vec<char> = &context.lines[li];
            proof {
                assert(linesv[li as int] == line@);
                crate::chars::lemma_lines_len_le(context.content@);
                assert(line@.len() <= context.content@.len());
            }
            let t = crate::chars::trim_slice(line.as_slice());
            if !(t.len() == 0 || t[0] == '#') {
                self.check_quoted_strings_in_line(line, li + 1, quote_type.as_str(), ronw,
                    &mut problems);
            }
            proof {
                assert(qs_upto(linesv, li + 1, qtv, ronw) == qs_upto(linesv, li as int, qtv, ronw)
                    + qs_line(linesv[li as int], li + 1, qtv, ronw));
                assert(pview(problems@) =~= qs_upto(linesv, li + 1, qtv, ronw));
            }
            li = li + 1;
        }
        Ok(problems)
    }
}

/// The `float-values` problems of one line.
pub open spec fn fv_line(
    line: Seq<char>,
    lineno: int,
    forbid_sci: bool,
    require_num: bool,
) -> Seq<ProblemV> {
    match find_char_spec(line, ':') {
        Some(cp) => {
            let value = trim_spec(line.skip(cp + 1));
            if is_f64_str(value) {
                (if forbid_sci && (find_char_spec(value, 'e') is Some || find_char_spec(
                    value,
                    'E',
                ) is Some) {
                    seq![
                        ProblemV {
                            line: lineno,
                            column: cp + 2,
                            level: Level::Error,
                            rule: "float-values"@,
                            message: "scientific notation is forbidden"@,
                            suggestion: None,
                        },
                    ]
                } else {
                    Seq::empty()
                }) + (if require_num && value.len() > 0 && value[0] == '.' {
                    seq![
                        ProblemV {
                            line: lineno,
                            column: cp + 2,
                            level: Level::Error,
                            rule: "float-values"@,
                            message: "decimal number should have at least one numeral before decimal point"@,
                            suggestion: None,
                        },
                    ]
                } else {
                    Seq::empty()
                })
            } else {
                Seq::empty()
            }
        },
        None => Seq::empty(),
    }
}

/// The `float-values` problems of the first `n` lines.
pub open spec fn fv_upto(
    lines: Seq<Seq<char>>,
    n: int,
    forbid_sci: bool,
    require_num: bool,
) -> Seq<ProblemV>
    decreases n,
{
    if n <= 0 {
        Seq::empty()
    } else {
        fv_upto(lines, n - 1, forbid_sci, require_num) + fv_line(
            lines[n - 1],
            n,
            forbid_sci,
            require_num,
        )
    }
}

/// What the `float-values` rule reports.
pub open spec fn fv_check_spec(content: Seq<char>, c: RuleConfigV) -> Seq<ProblemV> {
    let lines = lines_spec(content);
    fv_upto(lines, lines.len() as int, bool_param_or(c, "forbid-scientific-notation"@, false),
        bool_param_or(c, "require-numeral-before-decimal"@, false))
}

/// The default `float-values` configuration value.
pub open spec fn fv_default_spec() -> RuleConfigV {
    RuleConfigV {
        enabled: false,
        level: Level::Error,
        params: crate::rules::params_set(
            crate::rules::params_set(
                Seq::empty(),
                "forbid-scientific-notation"@,
                crate::rules::ConfigValueV::Bool(false),
            ),
            "require-numeral-before-decimal"@,
            crate::rules::ConfigValueV::Bool(false),
        ),
    }
}

/// Rule that validates float value formats.
#[derive(Debug)]
pub struct FloatValuesRule;

impl FloatValuesRule {
    pub fn new() -> (r: FloatValuesRule) {
        FloatValuesRule
    }

    /// The unique identifier for this rule.
    pub fn id(&self) -> (r: &'static str)
        ensures
            r@ == "float-values"@,
    {
        "float-values"
    }

    /// A human-readable description of this rule.
    pub fn description(&self) -> (r: &'static str)
        ensures
            r@ == "Validates float value formats"@,
    {
        "Validates float value formats"
    }

    /// The default configuration: disabled; nothing forbidden.
    pub fn default_config(&self) -> (r: RuleConfig)
        ensures
            r@ == fv_default_spec(),
            rc_get_bool(r@, "forbid-scientific-notation"@) == Some(false),
            rc_get_bool(r@, "require-numeral-before-decimal"@) == Some(false),
    {
        let mut config = RuleConfig::new(false, Level::Error);
        config.set_param("forbid-scientific-notation", ConfigValue::Bool(false));
        config.set_param("require-numeral-before-decimal", ConfigValue::Bool(false));
        proof {
            reveal_strlit("forbid-scientific-notation");
            reveal_strlit("require-numeral-before-decimal");
            assert(("forbid-scientific-notation"@).len() == 26);
            assert(("require-numeral-before-decimal"@).len() == 30);
            assert("forbid-scientific-notation"@ != "require-numeral-before-decimal"@);
            let p0 = Seq::<(Seq<char>, crate::rules::ConfigValueV)>::empty();
            let vf = crate::rules::ConfigValueV::Bool(false);
            let p1 = crate::rules::params_set(p0, "forbid-scientific-notation"@, vf);
            crate::rules::lemma_params_get_set(p0, "forbid-scientific-notation"@, vf,
                "forbid-scientific-notation"@);
            crate::rules::lemma_params_get_set(p0, "forbid-scientific-notation"@, vf,
                "require-numeral-before-decimal"@);
            crate::rules::lemma_params_get_set(p1, "require-numeral-before-decimal"@, vf,
                "forbid-scientific-notation"@);
            crate::rules::lemma_params_get_set(p1, "require-numeral-before-decimal"@, vf,
                "require-numeral-before-decimal"@);
        }
        config
    }

    /// Accepts any configuration.
    pub fn validate_config(&self, _config: &RuleConfig) -> (r: Result<(), ConfigError>)
        ensures
            r is Ok,
    {
        Ok(())
    }

    /// Report float values in questioned formats.
    pub fn check(&self, context: &LintContext, config: &RuleConfig) -> (r: Result<
        Vec<Problem>,
        RuleError,
    >)
        requires
            context.wf(),
            context.content@.len() + 1 < usize::MAX as int,
        ensures
            match r {
                Ok(ps) => pview(ps@) == fv_check_spec(context.content@, config@),
                Err(_) => false,
            },
    {
        let forbid_sci = config.bool_or("forbid-scientific-notation", false);
        let require_num = config.bool_or("require-numeral-before-decimal", false);
        let ghost linesv = lines_spec(context.content@);
        let mut problems: Vec<Problem> = Vec::new();
        let n = context.lines.len();
        let mut li: usize = 0;
        proof {
            assert(views_of(context.lines@) == linesv);
            assert(pview(problems@) =~= fv_upto(linesv, 0, forbid_sci, require_num));
        }
        while li < n
            invariant
                0 <= li <= n,
                context.wf(),
                context.content@.len() + 1 < usize::MAX as int,
                n == context.lines@.len(),
                linesv == lines_spec(context.content@),
                views_of(context.lines@) == linesv,
                forbid_sci == bool_param_or(config@, "forbid-scientific-notation"@, false),
                require_num == bool_param_or(config@, "require-numeral-before-decimal"@, false),
                pview(problems@) == fv_upto(linesv, li as int, forbid_sci, require_num),
            decreases n - li,
        {
            let line: &Vec<char> = &context.lines[li];
            proof {
                assert(linesv[li as int] == line@);
                crate::chars::lemma_lines_len_le(context.content@);
                assert(line@.len() <= context.content@.len());
            }
            match find_char(line.as_slice(), ':') {
                Some(cp) => {
                    proof {
                        crate::chars::lemma_find_char_spec(line@, ':');
                    }
                    let valsub = &line.as_slice()[cp + 1..line.len()];
                    proof {
                        assert(valsub@ =~= line@.skip(cp + 1));
                    }
                    let value = crate::chars::trim_slice(valsub);
                    if is_f64_literal(value) {
                        if forbid_sci && (crate::chars::contains_char(value, 'e')
                            || crate::chars::contains_char(value, 'E')) {
                            let p = Problem::new(li + 1, cp + 2, Level::Error, "float-values",
                                "scientific notation is forbidden");
                            let ghost pre = problems@;
                            problems.push(p);
                            proof {
                                assert(pview(problems@) =~= pview(pre) + seq![p@]);
                            }
                        }
                        if require_num && value.len() > 0 && value[0] == '.' {
                            let p = Problem::new(li + 1, cp + 2, Level::Error, "float-values",
                                "decimal number should have at least one numeral before decimal point");
                            let ghost pre = problems@;
                            problems.push(p);
                            proof {
                                assert(pview(problems@) =~= pview(pre) + seq![p@]);
                            }
                        }
                    }
                },
                None => {},
            }
            proof {
                assert(fv_upto(linesv, li + 1, forbid_sci, require_num) == fv_upto(
                    linesv,
                    li as int,
                    forbid_sci,
                    require_num,
                ) + fv_line(linesv[li as int], li + 1, forbid_sci, require_num));
                assert(pview(problems@) =~= fv_upto(linesv, li + 1, forbid_sci, require_num));
            }
            li = li + 1;
        }
        Ok(problems)
    }
}

/// The `octal-values` message for an implicit octal.
pub open spec fn ov_imp_msg(value: Seq<char>) -> Seq<char> {
    "found implicit octal value \""@ + value + "\""@
}

/// The `octal-values` message for an explicit octal.
pub open spec fn ov_exp_msg(value: Seq<char>) -> Seq<char> {
    "found explicit octal value \""@ + value + "\""@
}

/// The `octal-values` problems of one line.
pub open spec fn ov_line(
    line: Seq<char>,
    lineno: int,
    forbid_imp: bool,
    forbid_exp: bool,
) -> Seq<ProblemV> {
    match find_char_spec(line, ':') {
        Some(cp) => {
            let value = trim_spec(line.skip(cp + 1));
            (if forbid_imp && value.len() > 1 && value[0] == '0' && crate::chars::is_digit_char(
                value[1],
            ) && find_char_spec(value, '.') is None && parse_i64_spec(value) is Some {
                seq![
                    ProblemV {
                        line: lineno,
                        column: cp + 2,
                        level: Level::Error,
                        rule: "octal-values"@,
                        message: ov_imp_msg(value),
                        suggestion: None,
                    },
                ]
            } else {
                Seq::empty()
            }) + (if forbid_exp && value.len() >= 2 && value[0] == '0' && value[1] == 'o' {
                seq![
                    ProblemV {
                        line: lineno,
                        column: cp + 2,
                        level: Level::Error,
                        rule: "octal-values"@,
                        message: ov_exp_msg(value),
                        suggestion: None,
                    },
                ]
            } else {
                Seq::empty()
            })
        },
        None => Seq::empty(),
    }
}

/// The `octal-values` problems of the first `n` lines.
pub open spec fn ov_upto(
    lines: Seq<Seq<char>>,
    n: int,
    forbid_imp: bool,
    forbid_exp: bool,
) -> Seq<ProblemV>
    decreases n,
{
    if n <= 0 {
        Seq::empty()
    } else {
        ov_upto(lines, n - 1, forbid_imp, forbid_exp) + ov_line(
            lines[n - 1],
            n,
            forbid_imp,
            forbid_exp,
        )
    }
}

/// What the `octal-values` rule reports.
pub open spec fn ov_check_spec(content: Seq<char>, c: RuleConfigV) -> Seq<ProblemV> {
    let lines = lines_spec(content);
    ov_upto(lines, lines.len() as int, bool_param_or(c, "forbid-implicit-octal"@, true),
        bool_param_or(c, "forbid-explicit-octal"@, false))
}

/// The default `octal-values` configuration value.
pub open spec fn ov_default_spec() -> RuleConfigV {
    RuleConfigV {
        enabled: false,
        level: Level::Error,
        params: crate::rules::params_set(
            crate::rules::params_set(
                Seq::empty(),
                "forbid-implicit-octal"@,
                crate::rules::ConfigValueV::Bool(true),
            ),
            "forbid-explicit-octal"@,
            crate::rules::ConfigValueV::Bool(false),
        ),
    }
}

/// Rule that detects octal values.
#[derive(Debug)]
pub struct OctalValuesRule;

impl OctalValuesRule {
    pub fn new() -> (r: OctalValuesRule) {
        OctalValuesRule
    }

    /// The unique identifier for this rule.
    pub fn id(&self) -> (r: &'static str)
        ensures
            r@ == "octal-values"@,
    {
        "octal-values"
    }

    /// A human-readable description of this rule.
    pub fn description(&self) -> (r: &'static str)
        ensures
            r@ == "Detects and forbids octal values"@,
    {
        "Detects and forbids octal values"
    }

    /// The default configuration: disabled; implicit octals forbidden once
    /// enabled.
    pub fn default_config(&self) -> (r: RuleConfig)
        ensures
            r@ == ov_default_spec(),
            rc_get_bool(r@, "forbid-implicit-octal"@) == Some(true),
            rc_get_bool(r@, "forbid-explicit-octal"@) == Some(false),
    {
        let mut config = RuleConfig::new(false, Level::Error);
        config.set_param("forbid-implicit-octal", ConfigValue::Bool(true));
        config.set_param("forbid-explicit-octal", ConfigValue::Bool(false));
        proof {
            reveal_strlit("forbid-implicit-octal");
            reveal_strlit("forbid-explicit-octal");
            assert(("forbid-implicit-octal"@).len() == 21);
            assert(("forbid-explicit-octal"@).len() == 21);
            assert(("forbid-implicit-octal"@)[7] == 'i');
            assert(("forbid-explicit-octal"@)[7] == 'e');
            assert("forbid-implicit-octal"@ != "forbid-explicit-octal"@);
            let p0 = Seq::<(Seq<char>, crate::rules::ConfigValueV)>::empty();
            let vt = crate::rules::ConfigValueV::Bool(true);
            let vf = crate::rules::ConfigValueV::Bool(false);
            let p1 = crate::rules::params_set(p0, "forbid-implicit-octal"@, vt);
            crate::rules::lemma_params_get_set(p0, "forbid-implicit-octal"@, vt,
                "forbid-implicit-octal"@);
            crate::rules::lemma_params_get_set(p0, "forbid-implicit-octal"@, vt,
                "forbid-explicit-octal"@);
            crate::rules::lemma_params_get_set(p1, "forbid-explicit-octal"@, vf,
                "forbid-implicit-octal"@);
            crate::rules::lemma_params_get_set(p1, "forbid-explicit-octal"@, vf,
                "forbid-explicit-octal"@);
        }
        config
    }

    /// Accepts any configuration.
    pub fn validate_config(&self, _config: &RuleConfig) -> (r: Result<(), ConfigError>)
        ensures
            r is Ok,
    {
        Ok(())
    }

    /// Report octal-looking values.
    pub fn check(&self, context: &LintContext, config: &RuleConfig) -> (r: Result<
        Vec<Problem>,
        RuleError,
    >)
        requires
            context.wf(),
            context.content@.len() + 1 < usize::MAX as int,
        ensures
            match r {
                Ok(ps) => pview(ps@) == ov_check_spec(context.content@, config@),
                Err(_) => false,
            },
    {
        let forbid_imp = config.bool_or("forbid-implicit-octal", true);
        let forbid_exp = config.bool_or("forbid-explicit-octal", false);
        let ghost linesv = lines_spec(context.content@);
        let mut problems: Vec<Problem> = Vec::new();
        let n = context.lines.len();
        let mut li: usize = 0;
        proof {
            assert(views_of(context.lines@) == linesv);
            assert(pview(problems@) =~= ov_upto(linesv, 0, forbid_imp, forbid_exp));
        }
        while li < n
            invariant
                0 <= li <= n,
                context.wf(),
                context.content@.len() + 1 < usize::MAX as int,
                n == context.lines@.len(),
                linesv == lines_spec(context.content@),
                views_of(context.lines@) == linesv,
                forbid_imp == bool_param_or(config@, "forbid-implicit-octal"@, true),
                forbid_exp == bool_param_or(config@, "forbid-explicit-octal"@, false),
                pview(problems@) == ov_upto(linesv, li as int, forbid_imp, forbid_exp),
            decreases n - li,
        {
            let line: &Vec<char> = &context.lines[li];
            proof {
                assert(linesv[li as int] == line@);
                crate::chars::lemma_lines_len_le(context.content@);
                assert(line@.len() <= context.content@.len());
            }
            match find_char(line.as_slice(), ':') {
                Some(cp) => {
                    proof {
                        crate::chars::lemma_find_char_spec(line@, ':');
                    }
                    let valsub = &line.as_slice()[cp + 1..line.len()];
                    proof {
                        assert(valsub@ =~= line@.skip(cp + 1));
                    }
                    let value = crate::chars::trim_slice(valsub);
                    if forbid_imp && value.len() > 1 && value[0] == '0' && crate::chars::is_digit(
                        value[1],
                    ) {
                        let no_dot = !crate::chars::contains_char(value, '.');
                        let parses = match parse_i64(value) {
                            Some(_) => true,
                            None => false,
                        };
                        if no_dot && parses {
                            let vs = string_from_chars(value);
                            let mut msg = "found implicit octal value \"".to_owned();
                            msg.append(vs.as_str());
                            msg.append("\"");
                            let p = Problem::new(li + 1, cp + 2, Level::Error, "octal-values",
                                msg.as_str());
                            let ghost pre = problems@;
                            problems.push(p);
                            proof {
                                assert(pview(problems@) =~= pview(pre) + seq![p@]);
                            }
                        }
                    }
                    if forbid_exp && value.len() >= 2 && value[0] == '0' && value[1] == 'o' {
                        let vs = string_from_chars(value);
                        let mut msg = "found explicit octal value \"".to_owned();
                        msg.append(vs.as_str());
                        msg.append("\"");
                        let p = Problem::new(li + 1, cp + 2, Level::Error, "octal-values",
                            msg.as_str());
                        let ghost pre = problems@;
                        problems.push(p);
                        proof {
                            assert(pview(problems@) =~= pview(pre) + seq![p@]);
                        }
                    }
                },
                None => {},
            }
            proof {
                assert(ov_upto(linesv, li + 1, forbid_imp, forbid_exp) == ov_upto(
                    linesv,
                    li as int,
                    forbid_imp,
                    forbid_exp,
                ) + ov_line(linesv[li as int], li + 1, forbid_imp, forbid_exp));
                assert(pview(problems@) =~= ov_upto(linesv, li + 1, forbid_imp, forbid_exp));
            }
            li = li + 1;
        }
        Ok(problems)
    }
}

} // verus!
