//! Style rules: line length, trailing whitespace, empty lines, indentation,
//! and the final newline.

use vstd::prelude::*;
use crate::chars::{
    contains_char, dec_digits, find_char, find_char_spec, lines_spec, trim_spec, trim_start_spec,
    str_chars, string_from_chars, u64_to_string, usize_to_string, views_of,
};
use crate::linter::context::LintContext;
use crate::linter::problem::{pview, Level, Problem, ProblemV};
use crate::rules::common::{
    count_leading_ws_chars, has_trailing_ws, lead_ws_len, trailing_ws_start,
    trailing_ws_start_chars,
};
use crate::rules::{
    bool_param_or, int_param_or, rc_get_int, ConfigError, ConfigValue, RuleConfig, RuleConfigV,
    RuleError,
};

verus! {

/// Length of the run of `#` characters at the front of `s`.
pub open spec fn hash_run_len(s: Seq<char>) -> int
    decreases s.len(),
{
    if s.len() == 0 || s[0] != '#' {
        0
    } else {
        1 + hash_run_len(s.skip(1))
    }
}

fn hash_run(v: &[char]) -> (r: usize)
    ensures
        r == hash_run_len(v@),
        r <= v@.len(),
{
    let n = v.len();
    let mut i: usize = 0;
    proof {
        assert(v@.skip(0) =~= v@);
    }
    while i < n && v[i] == '#'
        invariant
            0 <= i <= n,
            n == v@.len(),
            hash_run_len(v@) == i + hash_run_len(v@.skip(i as int)),
        decreases n - i,
    {
        proof {
            assert(v@.skip(i as int)[0] == v@[i as int]);
            assert(v@.skip(i as int).skip(1) =~= v@.skip(i + 1));
        }
        i = i + 1;
    }
    proof {
        if i < n {
            assert(v@.skip(i as int)[0] == v@[i as int]);
        }
        assert(hash_run_len(v@.skip(i as int)) == 0);
    }
    i
}

/// Whether a line holds only non-breakable content: after skipping any
/// leading whitespace and a comment marker, it has no space.
pub open spec fn non_breakable_spec(line: Seq<char>) -> bool {
    let t = trim_start_spec(line);
    let content = match find_char_spec(t, '#') {
        Some(i) => trim_start_spec(t.skip(i).skip(hash_run_len(t.skip(i)))),
        None => t,
    };
    find_char_spec(content, ' ') is None
}

/// The `line-length` maximum: a positive configured value, else the default.
pub open spec fn ll_max(c: RuleConfigV, dmax: int) -> int {
    match rc_get_int(c, "max"@) {
        Some(i) => if i > 0 {
            i
        } else {
            dmax
        },
        None => dmax,
    }
}

/// The `line-length` message for an overlong line.
pub open spec fn ll_msg(len: int, max: int) -> Seq<char> {
    "line too long ("@ + dec_digits(len as nat) + " > "@ + dec_digits(max as nat)
        + " characters)"@
}

/// The problems `line-length` reports for one line.
pub open spec fn ll_line(
    line: Seq<char>,
    lineno: int,
    max: int,
    allow_nb: bool,
    level: Level,
) -> Seq<ProblemV> {
    if line.len() > max && !(allow_nb && non_breakable_spec(line)) {
        seq![
            ProblemV {
                line: lineno,
                column: max + 1,
                level: level,
                rule: "line-length"@,
                message: ll_msg(line.len() as int, max),
                suggestion: None,
            },
        ]
    } else {
        Seq::empty()
    }
}

/// The problems `line-length` reports for the first `n` lines.
pub open spec fn ll_upto(
    lines: Seq<Seq<char>>,
    n: int,
    max: int,
    allow_nb: bool,
    level: Level,
) -> Seq<ProblemV>
    decreases n,
{
    if n <= 0 {
        Seq::empty()
    } else {
        ll_upto(lines, n - 1, max, allow_nb, level) + ll_line(
            lines[n - 1],
            n,
            max,
            allow_nb,
            level,
        )
    }
}

/// What `line-length` reports: nothing when disabled, else one problem per
/// overlong breakable line, at the column just past the limit.
pub open spec fn ll_check_spec(content: Seq<char>, c: RuleConfigV, dmax: int) -> Seq<ProblemV> {
    if !c.enabled {
        Seq::empty()
    } else {
        let lines = lines_spec(content);
        ll_upto(lines, lines.len() as int, ll_max(c, dmax), bool_param_or(
            c,
            "allow-non-breakable-words"@,
            true,
        ), c.level)
    }
}

/// The default `line-length` configuration value: every overlong line is
/// reported; lines of one unbroken word are exempted only when asked for.
pub open spec fn ll_default_spec(dmax: int) -> RuleConfigV {
    RuleConfigV {
        enabled: true,
        level: Level::Error,
        params: crate::rules::params_set(
            crate::rules::params_set(
                Seq::empty(),
                "max"@,
                crate::rules::ConfigValueV::Int(dmax),
            ),
            "allow-non-breakable-words"@,
            crate::rules::ConfigValueV::Bool(false),
        ),
    }
}

/// The configured maximum stays within the machine's address width.
pub open spec fn ll_cfg_ok(c: RuleConfigV) -> bool {
    match rc_get_int(c, "max"@) {
        Some(i) => i <= usize::MAX as int,
        None => true,
    }
}

/// Rule that checks line length limits.
#[derive(Debug)]
pub struct LineLengthRule {
    pub default_max: usize,
}

impl LineLengthRule {
    /// Create a new line length rule with the default maximum of 80.
    pub fn new() -> (r: LineLengthRule)
        ensures
            r.default_max == 80,
    {
        LineLengthRule { default_max: 80 }
    }

    /// Create a new line length rule with a custom default maximum; the
    /// default must fit the configuration's integer type.
    pub fn with_default_max(max: usize) -> (r: LineLengthRule)
        requires
            max as int <= i64::MAX as int,
        ensures
            r.default_max == max,
    {
        LineLengthRule { default_max: max }
    }

    /// The unique identifier for this rule.
    pub fn id(&self) -> (r: &'static str)
        ensures
            r@ == "line-length"@,
    {
        "line-length"
    }

    /// A human-readable description of this rule.
    pub fn description(&self) -> (r: &'static str)
        ensures
            r@ == "Checks that lines do not exceed a maximum length"@,
    {
        "Checks that lines do not exceed a maximum length"
    }

    /// The maximum line length from the configuration.
    pub fn get_max_length(&self, config: &RuleConfig) -> (r: usize)
        requires
            ll_cfg_ok(config@),
        ensures
            r as int == ll_max(config@, self.default_max as int),
    {
        match config.get_int("max") {
            Some(i) => {
                if i > 0 {
                    i as usize
                } else {
                    self.default_max
                }
            },
            None => self.default_max,
        }
    }

    /// Whether non-breakable words may exceed the limit.
    pub fn allow_non_breakable_words(&self, config: &RuleConfig) -> (r: bool)
        ensures
            r == bool_param_or(config@, "allow-non-breakable-words"@, true),
    {
        config.bool_or("allow-non-breakable-words", true)
    }

    /// Whether a line contains only non-breakable content.
    pub fn is_non_breakable_line(&self, line: &str) -> (r: bool)
        ensures
            r == non_breakable_spec(line@),
    {
        let chars = str_chars(line);
        nb_line_chars(chars.as_slice())
    }

    /// The default configuration: enabled, `Error`, maximum 80, and every
    /// overlong line reported, one-word lines included.
    pub fn default_config(&self) -> (r: RuleConfig)
        requires
            self.default_max as int <= i64::MAX as int,
        ensures
            r@.enabled == true,
            r@.level == Level::Error,
            rc_get_int(r@, "max"@) == Some(self.default_max as int),
            crate::rules::rc_get_bool(r@, "allow-non-breakable-words"@) == Some(false),
            r@ == ll_default_spec(self.default_max as int),
    {
        let mut config = RuleConfig::new(true, Level::Error);
        config.set_param("max", ConfigValue::Int(self.default_max as i64));
        config.set_param("allow-non-breakable-words", ConfigValue::Bool(false));
        proof {
            reveal_strlit("max");
            reveal_strlit("allow-non-breakable-words");
            assert(("max"@).len() == 3);
            assert(("allow-non-breakable-words"@).len() == 25);
            assert("max"@ != "allow-non-breakable-words"@);
            crate::rules::lemma_params_get_set(
                crate::rules::params_set(
                    Seq::empty(),
                    "max"@,
                    crate::rules::ConfigValueV::Int(self.default_max as int),
                ),
                "allow-non-breakable-words"@,
                crate::rules::ConfigValueV::Bool(false),
                "max"@,
            );
            crate::rules::lemma_params_get_set(
                Seq::empty(),
                "max"@,
                crate::rules::ConfigValueV::Int(self.default_max as int),
                "max"@,
            );
            crate::rules::lemma_params_get_set(
                crate::rules::params_set(
                    Seq::empty(),
                    "max"@,
                    crate::rules::ConfigValueV::Int(self.default_max as int),
                ),
                "allow-non-breakable-words"@,
                crate::rules::ConfigValueV::Bool(false),
                "allow-non-breakable-words"@,
            );
        }
        config
    }

    /// Accepts a configuration whose `max`, if set, is positive and within
    /// the machine's address width.
    pub fn validate_config(&self, config: &RuleConfig) -> (r: Result<(), ConfigError>)
        ensures
            r is Ok <==> (match rc_get_int(config@, "max"@) {
                Some(i) => 0 < i <= usize::MAX as int,
                None => true,
            }),
    {
        match config.get_int("max") {
            Some(max) => {
                if max <= 0 {
                    let mut m = "max must be a positive integer, got ".to_owned();
                    let d = crate::chars::i64_to_string(max);
                    m.append(d.as_str());
                    Err(ConfigError { message: m })
                } else if (max as u64) > (usize::MAX as u64) {
                    let mut m = "max does not fit this machine, got ".to_owned();
                    let d = crate::chars::i64_to_string(max);
                    m.append(d.as_str());
                    Err(ConfigError { message: m })
                } else {
                    Ok(())
                }
            },
            None => Ok(()),
        }
    }

    /// Report each overlong line.
    pub fn check(&self, context: &LintContext, config: &RuleConfig) -> (r: Result<
        Vec<Problem>,
        RuleError,
    >)
        requires
            context.wf(),
            ll_cfg_ok(config@),
        ensures
            match r {
                Ok(ps) => pview(ps@) == ll_check_spec(
                    context.content@,
                    config@,
                    self.default_max as int,
                ),
                Err(_) => false,
            },
    {
        let mut problems: Vec<Problem> = Vec::new();
        if !config.enabled {
            proof {
                assert(pview(problems@) =~= Seq::<ProblemV>::empty());
            }
            return Ok(problems);
        }
        let max_length = self.get_max_length(config);
        let allow_nb = self.allow_non_breakable_words(config);
        let level = config.level;
        let ghost linesv = lines_spec(context.content@);
        let n = context.lines.len();
        let mut i: usize = 0;
        proof {
            assert(views_of(context.lines@) == linesv);
            assert(pview(problems@) =~= ll_upto(linesv, 0, max_length as int, allow_nb, level));
        }
        while i < n
            invariant
                0 <= i <= n,
                context.wf(),
                n == context.lines@.len(),
                linesv == lines_spec(context.content@),
                views_of(context.lines@) == linesv,
                max_length as int == ll_max(config@, self.default_max as int),
                allow_nb == bool_param_or(config@, "allow-non-breakable-words"@, true),
                level == config@.level,
                pview(problems@) == ll_upto(linesv, i as int, max_length as int, allow_nb, level),
            decreases n - i,
        {
            let line: &Vec<char> = &context.lines[i];
            proof {
                assert(linesv[i as int] == line@);
            }
            let line_length = line.len();
            if line_length > max_length {
                let nb = nb_line_chars(line.as_slice());
                if !(allow_nb && nb) {
                    let mut msg = "line too long (".to_owned();
                    let a = usize_to_string(line_length);
                    msg.append(a.as_str());
                    msg.append(" > ");
                    let b = usize_to_string(max_length);
                    msg.append(b.as_str());
                    msg.append(" characters)");
                    let p = Problem::new(i + 1, max_length + 1, level, "line-length", msg.as_str());
                    let ghost pre = problems@;
                    problems.push(p);
                    proof {
                        assert(pview(problems@) =~= pview(pre) + seq![p@]);
                    }
                }
            }
            proof {
                assert(ll_upto(linesv, i + 1, max_length as int, allow_nb, level) == ll_upto(
                    linesv,
                    i as int,
                    max_length as int,
                    allow_nb,
                    level,
                ) + ll_line(linesv[i as int], i + 1, max_length as int, allow_nb, level));
                assert(pview(problems@) =~= ll_upto(
                    linesv,
                    i + 1,
                    max_length as int,
                    allow_nb,
                    level,
                ));
            }
            i = i + 1;
        }
        Ok(problems)
    }
}

/// Executable mirror of `non_breakable_spec`.
fn nb_line_chars(v: &[char]) -> (r: bool)
    ensures
        r == non_breakable_spec(v@),
{
    let t = crate::chars::trim_start_slice(v);
    let tlen = t.len();
    match find_char(t, '#') {
        Some(i) => {
            proof {
                crate::chars::lemma_find_char_spec(t@, '#');
            }
            let sub = &t[i..tlen];
            proof {
                assert(sub@ =~= t@.skip(i as int));
            }
            let run = hash_run(sub);
            let sub2 = &t[i + run..tlen];
            proof {
                assert(sub2@ =~= t@.skip(i as int).skip(run as int));
            }
            let content = crate::chars::trim_start_slice(sub2);
            !contains_char(content, ' ')
        },
        None => !contains_char(t, ' '),
    }
}

/// The `trailing-spaces` problems for one line.
pub open spec fn ts_line(line: Seq<char>, lineno: int, level: Level) -> Seq<ProblemV> {
    match trailing_ws_start(line) {
        Some(start) => seq![
            ProblemV {
                line: lineno,
                column: start + 1,
                level: level,
                rule: "trailing-spaces"@,
                message: "trailing whitespace"@,
                suggestion: None,
            },
        ],
        None => Seq::empty(),
    }
}

/// The `trailing-spaces` problems for the first `n` lines.
pub open spec fn ts_upto(lines: Seq<Seq<char>>, n: int, level: Level) -> Seq<ProblemV>
    decreases n,
{
    if n <= 0 {
        Seq::empty()
    } else {
        ts_upto(lines, n - 1, level) + ts_line(lines[n - 1], n, level)
    }
}

/// What `trailing-spaces` reports: nothing when disabled, else one problem
/// per line that ends in whitespace, at the first trailing character.
pub open spec fn ts_check_spec(content: Seq<char>, c: RuleConfigV) -> Seq<ProblemV> {
    if !c.enabled {
        Seq::empty()
    } else {
        let lines = lines_spec(content);
        ts_upto(lines, lines.len() as int, c.level)
    }
}

/// Rule that checks for trailing whitespace.
#[derive(Debug)]
pub struct TrailingSpacesRule;

impl TrailingSpacesRule {
    pub fn new() -> (r: TrailingSpacesRule) {
        TrailingSpacesRule
    }

    /// The unique identifier for this rule.
    pub fn id(&self) -> (r: &'static str)
        ensures
            r@ == "trailing-spaces"@,
    {
        "trailing-spaces"
    }

    /// A human-readable description of this rule.
    pub fn description(&self) -> (r: &'static str)
        ensures
            r@ == "Checks for trailing whitespace at the end of lines"@,
    {
        "Checks for trailing whitespace at the end of lines"
    }

    /// The default configuration: enabled, at `Error`.
    pub fn default_config(&self) -> (r: RuleConfig)
        ensures
            r@ == (RuleConfigV { enabled: true, level: Level::Error, params: Seq::empty() }),
    {
        RuleConfig::new(true, Level::Error)
    }

    /// Accepts any configuration.
    pub fn validate_config(&self, _config: &RuleConfig) -> (r: Result<(), ConfigError>)
        ensures
            r is Ok,
    {
        Ok(())
    }

    /// Report each line that ends in whitespace.
    pub fn check(&self, context: &LintContext, config: &RuleConfig) -> (r: Result<
        Vec<Problem>,
        RuleError,
    >)
        requires
            context.wf(),
        ensures
            match r {
                Ok(ps) => pview(ps@) == ts_check_spec(context.content@, config@),
                Err(_) => false,
            },
    {
        let mut problems: Vec<Problem> = Vec::new();
        if !config.enabled {
            proof {
                assert(pview(problems@) =~= Seq::<ProblemV>::empty());
            }
            return Ok(problems);
        }
        let level = config.level;
        let ghost linesv = lines_spec(context.content@);
        let n = context.lines.len();
        let mut i: usize = 0;
        proof {
            assert(views_of(context.lines@) == linesv);
            assert(pview(problems@) =~= ts_upto(linesv, 0, level));
        }
        while i < n
            invariant
                0 <= i <= n,
                context.wf(),
                n == context.lines@.len(),
                linesv == lines_spec(context.content@),
                views_of(context.lines@) == linesv,
                level == config@.level,
                pview(problems@) == ts_upto(linesv, i as int, level),
            decreases n - i,
        {
            let line: &Vec<char> = &context.lines[i];
            proof {
                assert(linesv[i as int] == line@);
            }
            match trailing_ws_start_chars(line.as_slice()) {
                Some(start) => {
                    let llen = line.len();
                    proof {
                        crate::chars::lemma_ws_suffix_le_len(line@.drop_last());
                        assert(crate::chars::ws_suffix_len(line@) >= 1);
                        assert(start < llen);
                    }
                    let p = Problem::new(i + 1, start + 1, level, "trailing-spaces",
                        "trailing whitespace");
                    let ghost pre = problems@;
                    problems.push(p);
                    proof {
                        assert(pview(problems@) =~= pview(pre) + seq![p@]);
                    }
                },
                None => {},
            }
            proof {
                assert(ts_upto(linesv, i + 1, level) == ts_upto(linesv, i as int, level) + ts_line(
                    linesv[i as int],
                    i + 1,
                    level,
                ));
                assert(pview(problems@) =~= ts_upto(linesv, i + 1, level));
            }
            i = i + 1;
        }
        Ok(problems)
    }
}

/// The default `empty-lines` configuration value.
pub open spec fn el_default_spec() -> RuleConfigV {
    RuleConfigV {
        enabled: false,
        level: Level::Error,
        params: crate::rules::params_set(
            crate::rules::params_set(
                crate::rules::params_set(
                    Seq::empty(),
                    "max"@,
                    crate::rules::ConfigValueV::Int(2),
                ),
                "max-start"@,
                crate::rules::ConfigValueV::Int(0),
            ),
            "max-end"@,
            crate::rules::ConfigValueV::Int(1),
        ),
    }
}

/// A line holding only whitespace.
pub open spec fn is_blank(l: Seq<char>) -> bool {
    trim_spec(l).len() == 0
}

/// The run of blank lines starting at index `i`.
pub open spec fn blank_run_from(lines: Seq<Seq<char>>, i: int) -> int
    decreases lines.len() - i,
{
    if i < 0 || i >= lines.len() || !is_blank(lines[i]) {
        0
    } else {
        1 + blank_run_from(lines, i + 1)
    }
}

/// The run of blank lines at the end.
pub open spec fn blank_run_at_end(lines: Seq<Seq<char>>) -> int
    decreases lines.len(),
{
    if lines.len() == 0 || !is_blank(lines[lines.len() - 1]) {
        0
    } else {
        1 + blank_run_at_end(lines.drop_last())
    }
}

/// The `empty-lines` message for a run at the start of the file.
pub open spec fn el_start_msg(count: int, max: int) -> Seq<char> {
    "too many blank lines at beginning of file ("@ + dec_digits(count as nat) + " > "@
        + dec_digits(max as nat) + ")"@
}

/// The `empty-lines` message for a run at the end of the file.
pub open spec fn el_end_msg(count: int, max: int) -> Seq<char> {
    "too many blank lines at end of file ("@ + dec_digits(count as nat) + " > "@ + dec_digits(
        max as nat,
    ) + ")"@
}

/// The `empty-lines` message for a run in the middle of the file.
pub open spec fn el_mid_msg(count: int, max: int) -> Seq<char> {
    "too many blank lines ("@ + dec_digits(count as nat) + " > "@ + dec_digits(max as nat) + ")"@
}

/// The problems for overlong blank runs in the middle: a run is charged to
/// the index of the line that ends it.
pub open spec fn el_mid_from(
    lines: Seq<Seq<char>>,
    i: int,
    run: int,
    maxe: int,
    level: Level,
) -> Seq<ProblemV>
    decreases lines.len() - i,
{
    if i < 0 || i >= lines.len() {
        Seq::empty()
    } else if is_blank(lines[i]) {
        el_mid_from(lines, i + 1, run + 1, maxe, level)
    } else {
        (if maxe >= 0 && run > maxe {
            seq![
                ProblemV {
                    line: i,
                    column: 1,
                    level: level,
                    rule: "empty-lines"@,
                    message: el_mid_msg(run, maxe),
                    suggestion: None,
                },
            ]
        } else {
            Seq::empty()
        }) + el_mid_from(lines, i + 1, 0, maxe, level)
    }
}

/// What `empty-lines` reports: runs of blank lines past the allowed counts
/// at the start, at the end, and in the middle of the file.
pub open spec fn el_check_spec(content: Seq<char>, c: RuleConfigV) -> Seq<ProblemV> {
    if !c.enabled {
        Seq::empty()
    } else {
        let lines = lines_spec(content);
        if lines.len() == 0 {
            Seq::empty()
        } else {
            let maxe = int_param_or(c, "max"@, 2);
            let maxs = int_param_or(c, "max-start"@, 0);
            let maxen = int_param_or(c, "max-end"@, 1);
            let start_run = blank_run_from(lines, 0);
            let end_run = blank_run_at_end(lines);
            (if maxs >= 0 && start_run > maxs {
                seq![
                    ProblemV {
                        line: 1,
                        column: 1,
                        level: c.level,
                        rule: "empty-lines"@,
                        message: el_start_msg(start_run, maxs),
                        suggestion: None,
                    },
                ]
            } else {
                Seq::empty()
            }) + (if maxen >= 0 && end_run > maxen {
                seq![
                    ProblemV {
                        line: lines.len() as int,
                        column: 1,
                        level: c.level,
                        rule: "empty-lines"@,
                        message: el_end_msg(end_run, maxen),
                        suggestion: None,
                    },
                ]
            } else {
                Seq::empty()
            }) + el_mid_from(lines, 0, 0, maxe, c.level)
        }
    }
}

/// Rule that manages empty lines.
#[derive(Debug)]
pub struct EmptyLinesRule;

impl EmptyLinesRule {
    pub fn new() -> (r: EmptyLinesRule) {
        EmptyLinesRule
    }

    /// The unique identifier for this rule.
    pub fn id(&self) -> (r: &'static str)
        ensures
            r@ == "empty-lines"@,
    {
        "empty-lines"
    }

    /// A human-readable description of this rule.
    pub fn description(&self) -> (r: &'static str)
        ensures
            r@ == "Controls the number of empty lines"@,
    {
        "Controls the number of empty lines"
    }

    /// The default configuration: disabled; at most 2 blank lines in the
    /// middle, 0 at the start, 1 at the end.
    pub fn default_config(&self) -> (r: RuleConfig)
        ensures
            r@ == el_default_spec(),
            rc_get_int(r@, "max"@) == Some(2int),
            rc_get_int(r@, "max-start"@) == Some(0int),
            rc_get_int(r@, "max-end"@) == Some(1int),
    {
        let mut config = RuleConfig::new(false, Level::Error);
        config.set_param("max", ConfigValue::Int(2));
        config.set_param("max-start", ConfigValue::Int(0));
        config.set_param("max-end", ConfigValue::Int(1));
        proof {
            reveal_strlit("max");
            reveal_strlit("max-start");
            reveal_strlit("max-end");
            assert(("max"@).len() == 3);
            assert(("max-start"@).len() == 9);
            assert(("max-end"@).len() == 7);
            assert("max"@ != "max-start"@ && "max"@ != "max-end"@ && "max-start"@ != "max-end"@);
            lemma_three_param_gets(
                crate::rules::ConfigValueV::Int(2),
                crate::rules::ConfigValueV::Int(0),
                crate::rules::ConfigValueV::Int(1),
                "max"@,
                "max-start"@,
                "max-end"@,
            );
        }
        config
    }

    /// Accepts any configuration.
    pub fn validate_config(&self, _config: &RuleConfig) -> (r: Result<(), ConfigError>)
        ensures
            r is Ok,
    {
        Ok(())
    }

    /// Report overlong runs of blank lines.
    pub fn check(&self, context: &LintContext, config: &RuleConfig) -> (r: Result<
        Vec<Problem>,
        RuleError,
    >)
        requires
            context.wf(),
        ensures
            match r {
                Ok(ps) => pview(ps@) == el_check_spec(context.content@, config@),
                Err(_) => false,
            },
    {
        let mut problems: Vec<Problem> = Vec::new();
        if !config.enabled {
            proof {
                assert(pview(problems@) =~= Seq::<ProblemV>::empty());
            }
            return Ok(problems);
        }
        let ghost linesv = lines_spec(context.content@);
        let n = context.lines.len();
        proof {
            assert(views_of(context.lines@) == linesv);
        }
        if n == 0 {
            proof {
                assert(pview(problems@) =~= Seq::<ProblemV>::empty());
            }
            return Ok(problems);
        }
        let maxe = config.int_or("max", 2);
        let maxs = config.int_or("max-start", 0);
        let maxen = config.int_or("max-end", 1);
        let level = config.level;

        let mut start_run: usize = 0;
        while start_run < n && line_is_blank(&context.lines[start_run])
            invariant
                0 <= start_run <= n,
                context.wf(),
                n == context.lines@.len(),
                linesv == lines_spec(context.content@),
                views_of(context.lines@) == linesv,
                blank_run_from(linesv, 0) == start_run + blank_run_from(linesv, start_run as int),
            decreases n - start_run,
        {
            proof {
                assert(linesv[start_run as int] == context.lines@[start_run as int]@);
            }
            start_run = start_run + 1;
        }
        proof {
            if start_run < n {
                assert(linesv[start_run as int] == context.lines@[start_run as int]@);
            }
            assert(blank_run_from(linesv, start_run as int) == 0);
        }
        if maxs >= 0 && start_run as u64 > (maxs as u64) {
            let mut msg = "too many blank lines at beginning of file (".to_owned();
            let a = usize_to_string(start_run);
            msg.append(a.as_str());
            msg.append(" > ");
            let b = u64_to_string(maxs as u64);
            msg.append(b.as_str());
            msg.append(")");
            let p = Problem::new(1, 1, level, "empty-lines", msg.as_str());
            problems.push(p);
            proof {
                assert(pview(problems@) =~= seq![p@]);
            }
        }
        let ghost after_start = pview(problems@);

        let mut end_run: usize = 0;
        proof {
            assert(linesv.take(n as int) =~= linesv);
        }
        while end_run < n && line_is_blank(&context.lines[n - 1 - end_run])
            invariant
                0 <= end_run <= n,
                context.wf(),
                n == context.lines@.len(),
                linesv == lines_spec(context.content@),
                views_of(context.lines@) == linesv,
                blank_run_at_end(linesv) == end_run + blank_run_at_end(
                    linesv.take((n - end_run) as int),
                ),
            decreases n - end_run,
        {
            proof {
                let t = linesv.take((n - end_run) as int);
                assert(t[t.len() - 1] == linesv[n - 1 - end_run]);
                assert(linesv[n - 1 - end_run] == context.lines@[n - 1 - end_run]@);
                assert(t.drop_last() =~= linesv.take((n - end_run - 1) as int));
            }
            end_run = end_run + 1;
        }
        proof {
            let t = linesv.take((n - end_run) as int);
            if end_run < n {
                assert(t[t.len() - 1] == linesv[n - 1 - end_run]);
                assert(linesv[n - 1 - end_run] == context.lines@[n - 1 - end_run]@);
            }
            assert(blank_run_at_end(t) == 0);
        }
        if maxen >= 0 && end_run as u64 > (maxen as u64) {
            let mut msg = "too many blank lines at end of file (".to_owned();
            let a = usize_to_string(end_run);
            msg.append(a.as_str());
            msg.append(" > ");
            let b = u64_to_string(maxen as u64);
            msg.append(b.as_str());
            msg.append(")");
            let p = Problem::new(n, 1, level, "empty-lines", msg.as_str());
            let ghost pre = problems@;
            problems.push(p);
            proof {
                assert(pview(problems@) =~= pview(pre) + seq![p@]);
            }
        }
        let ghost after_edges = pview(problems@);

        let mut run: usize = 0;
        let mut i: usize = 0;
        while i < n
            invariant
                0 <= i <= n,
                0 <= run <= i,
                context.wf(),
                n == context.lines@.len(),
                linesv == lines_spec(context.content@),
                views_of(context.lines@) == linesv,
                level == config@.level,
                maxe as int == int_param_or(config@, "max"@, 2),
                pview(problems@) + el_mid_from(linesv, i as int, run as int, maxe as int, level)
                    == after_edges + el_mid_from(linesv, 0, 0, maxe as int, level),
            decreases n - i,
        {
            proof {
                assert(linesv[i as int] == context.lines@[i as int]@);
            }
            if line_is_blank(&context.lines[i]) {
                run = run + 1;
            } else {
                if maxe >= 0 && run as u64 > (maxe as u64) {
                    let mut msg = "too many blank lines (".to_owned();
                    let a = usize_to_string(run);
                    msg.append(a.as_str());
                    msg.append(" > ");
                    let b = u64_to_string(maxe as u64);
                    msg.append(b.as_str());
                    msg.append(")");
                    let p = Problem::new(i, 1, level, "empty-lines", msg.as_str());
                    let ghost pre = problems@;
                    problems.push(p);
                    proof {
                        assert(pview(problems@) =~= pview(pre) + seq![p@]);
                        assert(pview(pre) + (seq![p@] + el_mid_from(
                            linesv,
                            i + 1,
                            0,
                            maxe as int,
                            level,
                        )) =~= (pview(pre) + seq![p@]) + el_mid_from(
                            linesv,
                            i + 1,
                            0,
                            maxe as int,
                            level,
                        ));
                    }
                }
                run = 0;
            }
            i = i + 1;
        }
        proof {
            assert(el_mid_from(linesv, n as int, run as int, maxe as int, level)
                =~= Seq::<ProblemV>::empty());
            assert(pview(problems@) + Seq::<ProblemV>::empty() =~= pview(problems@));
            assert(after_edges + el_mid_from(linesv, 0, 0, maxe as int, level) =~= el_check_spec(
                context.content@,
                config@,
            ));
        }
        Ok(problems)
    }
}

/// Three distinct parameters set in order are each readable.
proof fn lemma_three_param_gets(
    v1: crate::rules::ConfigValueV,
    v2: crate::rules::ConfigValueV,
    v3: crate::rules::ConfigValueV,
    k1: Seq<char>,
    k2: Seq<char>,
    k3: Seq<char>,
)
    requires
        k1 != k2,
        k1 != k3,
        k2 != k3,
    ensures
        ({
            let p = crate::rules::params_set(
                crate::rules::params_set(
                    crate::rules::params_set(Seq::empty(), k1, v1),
                    k2,
                    v2,
                ),
                k3,
                v3,
            );
            crate::rules::params_get(p, k1) == Some(v1) && crate::rules::params_get(p, k2)
                == Some(v2) && crate::rules::params_get(p, k3) == Some(v3)
        }),
{
    let p1 = crate::rules::params_set(Seq::<(Seq<char>, crate::rules::ConfigValueV)>::empty(), k1, v1);
    let p2 = crate::rules::params_set(p1, k2, v2);
    let p3 = crate::rules::params_set(p2, k3, v3);
    crate::rules::lemma_params_get_set(Seq::empty(), k1, v1, k1);
    crate::rules::lemma_params_get_set(Seq::empty(), k1, v1, k2);
    crate::rules::lemma_params_get_set(Seq::empty(), k1, v1, k3);
    crate::rules::lemma_params_get_set(p1, k2, v2, k1);
    crate::rules::lemma_params_get_set(p1, k2, v2, k2);
    crate::rules::lemma_params_get_set(p1, k2, v2, k3);
    crate::rules::lemma_params_get_set(p2, k3, v3, k1);
    crate::rules::lemma_params_get_set(p2, k3, v3, k2);
    crate::rules::lemma_params_get_set(p2, k3, v3, k3);
}

fn line_is_blank(line: &Vec<char>) -> (r: bool)
    ensures
        r == is_blank(line@),
{
    let t = crate::chars::trim_slice(line.as_slice());
    t.len() == 0
}

/// The `indentation` message for a misaligned line.
pub open spec fn ind_msg(spaces: int, indent: int) -> Seq<char> {
    "wrong indentation: expected multiple of "@ + dec_digits(spaces as nat) + ", got "@
        + dec_digits(indent as nat)
}

/// The `indentation` problems for one line.
pub open spec fn ind_line(
    line: Seq<char>,
    lineno: int,
    spaces: int,
    indent_seq: bool,
    cms: bool,
) -> Seq<ProblemV> {
    let t = trim_spec(line);
    let ts = trim_start_spec(line);
    if t.len() == 0 || (t[0] == '#' && !cms) {
        Seq::empty()
    } else if find_char_spec(line, '\t') is Some {
        seq![
            ProblemV {
                line: lineno,
                column: find_char_spec(line, '\t')->Some_0 + 1,
                level: Level::Error,
                rule: "indentation"@,
                message: "found character '\\t' instead of spaces"@,
                suggestion: None,
            },
        ]
    } else {
        let indent = lead_ws_len(line);
        let is_seq_item = ts.len() > 1 && ts[0] == '-' && crate::chars::is_ws_char(ts[1]);
        let checked = if is_seq_item {
            indent_seq
        } else {
            true
        };
        if checked && indent % spaces != 0 {
            seq![
                ProblemV {
                    line: lineno,
                    column: 1,
                    level: Level::Error,
                    rule: "indentation"@,
                    message: ind_msg(spaces, indent),
                    suggestion: None,
                },
            ]
        } else {
            Seq::empty()
        }
    }
}

/// The `indentation` problems for the first `n` lines.
pub open spec fn ind_upto(
    lines: Seq<Seq<char>>,
    n: int,
    spaces: int,
    indent_seq: bool,
    cms: bool,
) -> Seq<ProblemV>
    decreases n,
{
    if n <= 0 {
        Seq::empty()
    } else {
        ind_upto(lines, n - 1, spaces, indent_seq, cms) + ind_line(
            lines[n - 1],
            n,
            spaces,
            indent_seq,
            cms,
        )
    }
}

/// What `indentation` reports: tabs, and indents that are not a multiple of
/// the configured step.
pub open spec fn ind_check_spec(content: Seq<char>, c: RuleConfigV) -> Seq<ProblemV> {
    if !c.enabled {
        Seq::empty()
    } else {
        let lines = lines_spec(content);
        ind_upto(lines, lines.len() as int, int_param_or(c, "spaces"@, 2), bool_param_or(
            c,
            "indent-sequences"@,
            true,
        ), bool_param_or(c, "check-multi-line-strings"@, false))
    }
}

/// The default `indentation` configuration value.
pub open spec fn ind_default_spec() -> RuleConfigV {
    RuleConfigV {
        enabled: false,
        level: Level::Error,
        params: crate::rules::params_set(
            crate::rules::params_set(
                crate::rules::params_set(
                    Seq::empty(),
                    "spaces"@,
                    crate::rules::ConfigValueV::Int(2),
                ),
                "indent-sequences"@,
                crate::rules::ConfigValueV::Bool(true),
            ),
            "check-multi-line-strings"@,
            crate::rules::ConfigValueV::Bool(false),
        ),
    }
}

/// The configured step is positive and within the machine's address width.
pub open spec fn ind_cfg_ok(c: RuleConfigV) -> bool {
    match rc_get_int(c, "spaces"@) {
        Some(i) => 0 < i <= usize::MAX as int,
        None => true,
    }
}

/// Rule that checks indentation consistency.
#[derive(Debug)]
pub struct IndentationRule;

impl IndentationRule {
    pub fn new() -> (r: IndentationRule) {
        IndentationRule
    }

    /// Accepts a configuration whose `spaces`, if set, is positive and
    /// within the machine's address width.
    pub fn validate_config(&self, config: &RuleConfig) -> (r: Result<(), ConfigError>)
        ensures
            r is Ok <==> ind_cfg_ok(config@),
    {
        match config.get_int("spaces") {
            Some(spaces) => {
                if spaces <= 0 {
                    let mut m = "spaces must be a positive integer, got ".to_owned();
                    let d = crate::chars::i64_to_string(spaces);
                    m.append(d.as_str());
                    Err(ConfigError { message: m })
                } else if (spaces as u64) > (usize::MAX as u64) {
                    let mut m = "spaces does not fit this machine, got ".to_owned();
                    let d = crate::chars::i64_to_string(spaces);
                    m.append(d.as_str());
                    Err(ConfigError { message: m })
                } else {
                    Ok(())
                }
            },
            None => Ok(()),
        }
    }

    /// The unique identifier for this rule.
    pub fn id(&self) -> (r: &'static str)
        ensures
            r@ == "indentation"@,
    {
        "indentation"
    }

    /// A human-readable description of this rule.
    pub fn description(&self) -> (r: &'static str)
        ensures
            r@ == "Controls indentation consistency"@,
    {
        "Controls indentation consistency"
    }

    /// The default configuration: disabled; two spaces, sequences indented,
    /// multi-line strings not checked.
    pub fn default_config(&self) -> (r: RuleConfig)
        ensures
            r@ == ind_default_spec(),
            rc_get_int(r@, "spaces"@) == Some(2int),
            crate::rules::rc_get_bool(r@, "indent-sequences"@) == Some(true),
            crate::rules::rc_get_bool(r@, "check-multi-line-strings"@) == Some(false),
    {
        let mut config = RuleConfig::new(false, Level::Error);
        config.set_param("spaces", ConfigValue::Int(2));
        config.set_param("indent-sequences", ConfigValue::Bool(true));
        config.set_param("check-multi-line-strings", ConfigValue::Bool(false));
        proof {
            reveal_strlit("spaces");
            reveal_strlit("indent-sequences");
            reveal_strlit("check-multi-line-strings");
            assert(("spaces"@).len() == 6);
            assert(("indent-sequences"@).len() == 16);
            assert(("check-multi-line-strings"@).len() == 24);
            assert("spaces"@ != "indent-sequences"@ && "spaces"@ != "check-multi-line-strings"@
                && "indent-sequences"@ != "check-multi-line-strings"@);
            lemma_three_param_gets(
                crate::rules::ConfigValueV::Int(2),
                crate::rules::ConfigValueV::Bool(true),
                crate::rules::ConfigValueV::Bool(false),
                "spaces"@,
                "indent-sequences"@,
                "check-multi-line-strings"@,
            );
        }
        config
    }

    /// Report tab characters and misaligned indents.
    pub fn check(&self, context: &LintContext, config: &RuleConfig) -> (r: Result<
        Vec<Problem>,
        RuleError,
    >)
        requires
            context.wf(),
            ind_cfg_ok(config@),
            context.content@.len() < usize::MAX as int,
        ensures
            match r {
                Ok(ps) => pview(ps@) == ind_check_spec(context.content@, config@),
                Err(_) => false,
            },
    {
        let mut problems: Vec<Problem> = Vec::new();
        if !config.enabled {
            proof {
                assert(pview(problems@) =~= Seq::<ProblemV>::empty());
            }
            return Ok(problems);
        }
        let spaces64 = config.int_or("spaces", 2);
        let spaces: usize = spaces64 as usize;
        let indent_seq = config.bool_or("indent-sequences", true);
        let cms = config.bool_or("check-multi-line-strings", false);
        let ghost linesv = lines_spec(context.content@);
        let n = context.lines.len();
        let mut i: usize = 0;
        proof {
            assert(views_of(context.lines@) == linesv);
            assert(pview(problems@) =~= ind_upto(linesv, 0, spaces as int, indent_seq, cms));
        }
        while i < n
            invariant
                0 <= i <= n,
                context.wf(),
                context.content@.len() < usize::MAX as int,
                n == context.lines@.len(),
                linesv == lines_spec(context.content@),
                views_of(context.lines@) == linesv,
                spaces >= 1,
                spaces as int == int_param_or(config@, "spaces"@, 2),
                indent_seq == bool_param_or(config@, "indent-sequences"@, true),
                cms == bool_param_or(config@, "check-multi-line-strings"@, false),
                pview(problems@) == ind_upto(linesv, i as int, spaces as int, indent_seq, cms),
            decreases n - i,
        {
            let line: &Vec<char> = &context.lines[i];
            proof {
                assert(linesv[i as int] == line@);
                crate::chars::lemma_lines_len_le(context.content@);
                assert(line@.len() <= context.content@.len());
            }
            let t = crate::chars::trim_slice(line.as_slice());
            let skip_line = t.len() == 0 || (t[0] == '#' && !cms);
            if !skip_line {
                match find_char(line.as_slice(), '\t') {
                    Some(tab) => {
                        proof {
                            crate::chars::lemma_find_char_spec(line@, '\t');
                        }
                        let p = Problem::new(i + 1, tab + 1, Level::Error, "indentation",
                            "found character '\\t' instead of spaces");
                        let ghost pre = problems@;
                        problems.push(p);
                        proof {
                            assert(pview(problems@) =~= pview(pre) + seq![p@]);
                        }
                    },
                    None => {
                        let indent = count_leading_ws_chars(line.as_slice());
                        let ts = crate::chars::trim_start_slice(line.as_slice());
                        let is_seq_item = ts.len() > 1 && ts[0] == '-' && crate::chars::is_ws(
                            ts[1],
                        );
                        let checked = if is_seq_item {
                            indent_seq
                        } else {
                            true
                        };
                        if checked && indent % spaces != 0 {
                            let mut msg =
                                "wrong indentation: expected multiple of ".to_owned();
                            let a = usize_to_string(spaces);
                            msg.append(a.as_str());
                            msg.append(", got ");
                            let b = usize_to_string(indent);
                            msg.append(b.as_str());
                            let p = Problem::new(i + 1, 1, Level::Error, "indentation",
                                msg.as_str());
                            let ghost pre = problems@;
                            problems.push(p);
                            proof {
                                assert(pview(problems@) =~= pview(pre) + seq![p@]);
                            }
                        }
                    },
                }
            }
            proof {
                assert(ind_upto(linesv, i + 1, spaces as int, indent_seq, cms) == ind_upto(
                    linesv,
                    i as int,
                    spaces as int,
                    indent_seq,
                    cms,
                ) + ind_line(linesv[i as int], i + 1, spaces as int, indent_seq, cms));
                assert(pview(problems@) =~= ind_upto(
                    linesv,
                    i + 1,
                    spaces as int,
                    indent_seq,
                    cms,
                ));
            }
            i = i + 1;
        }
        Ok(problems)
    }
}

/// What `new-line-at-end-of-file` reports: when enabled and the content is
/// non-empty without a final newline, one problem at the end of the last
/// line.
pub open spec fn nl_check_spec(content: Seq<char>, c: RuleConfigV) -> Seq<ProblemV> {
    if !c.enabled {
        Seq::empty()
    } else if content.len() > 0 && content[content.len() - 1] != '\n' {
        let lines = lines_spec(content);
        let last_len: int = if lines.len() > 0 {
            lines[lines.len() - 1].len() as int
        } else {
            0
        };
        seq![
            ProblemV {
                line: lines.len() as int,
                column: last_len + 1,
                level: c.level,
                rule: "new-line-at-end-of-file"@,
                message: "missing newline at end of file"@,
                suggestion: None,
            },
        ]
    } else {
        Seq::empty()
    }
}

/// Rule that ensures files end with a newline.
#[derive(Debug)]
pub struct NewLineAtEndOfFileRule;

impl NewLineAtEndOfFileRule {
    pub fn new() -> (r: NewLineAtEndOfFileRule) {
        NewLineAtEndOfFileRule
    }

    /// The unique identifier for this rule.
    pub fn id(&self) -> (r: &'static str)
        ensures
            r@ == "new-line-at-end-of-file"@,
    {
        "new-line-at-end-of-file"
    }

    /// A human-readable description of this rule.
    pub fn description(&self) -> (r: &'static str)
        ensures
            r@ == "Requires a new line character at the end of files"@,
    {
        "Requires a new line character at the end of files"
    }

    /// The default configuration: disabled, at `Error`.
    pub fn default_config(&self) -> (r: RuleConfig)
        ensures
            r@ == (RuleConfigV { enabled: false, level: Level::Error, params: Seq::empty() }),
    {
        RuleConfig::new(false, Level::Error)
    }

    /// Accepts any configuration.
    pub fn validate_config(&self, _config: &RuleConfig) -> (r: Result<(), ConfigError>)
        ensures
            r is Ok,
    {
        Ok(())
    }

    /// Report a missing final newline.
    pub fn check(&self, context: &LintContext, config: &RuleConfig) -> (r: Result<
        Vec<Problem>,
        RuleError,
    >)
        requires
            context.wf(),
            context.content@.len() < usize::MAX as int,
        ensures
            match r {
                Ok(ps) => pview(ps@) == nl_check_spec(context.content@, config@),
                Err(_) => false,
            },
    {
        let mut problems: Vec<Problem> = Vec::new();
        if !config.enabled {
            proof {
                assert(pview(problems@) =~= Seq::<ProblemV>::empty());
            }
            return Ok(problems);
        }
        let clen = context.chars.len();
        if clen > 0 && context.chars[clen - 1] != '\n' {
            let lc = context.lines.len();
            let last_len: usize = if lc > 0 {
                context.lines[lc - 1].len()
            } else {
                0
            };
            proof {
                assert(views_of(context.lines@).len() == context.lines@.len());
                if lc > 0 {
                    assert(views_of(context.lines@)[lc - 1] == context.lines@[lc - 1]@);
                    crate::chars::lemma_lines_len_le(context.content@);
                    assert(lines_spec(context.content@)[lc - 1].len() <= context.content@.len());
                }
            }
            let p = Problem::new(lc, last_len + 1, config.level, "new-line-at-end-of-file",
                "missing newline at end of file");
            problems.push(p);
            proof {
                assert(pview(problems@) =~= seq![p@]);
            }
        } else {
            proof {
                assert(pview(problems@) =~= Seq::<ProblemV>::empty());
            }
        }
        Ok(problems)
    }
}

} // verus!
