//! Formatting rules: spacing around brackets, braces, colons, commas and
//! hyphens.

use vstd::prelude::*;
use crate::chars::{
    dec_digits, lines_spec, trim_spec, trim_start_spec, trim_end_spec, usize_to_string, views_of,
};
use crate::linter::context::LintContext;
use crate::linter::problem::{pview, Level, Problem, ProblemV};
use crate::rules::{
    int_param_or, rc_get_int, ConfigError, ConfigValue, RuleConfig, RuleConfigV, RuleError,
};

verus! {

/// Length of the run of spaces ending just before index `i`.
pub open spec fn space_run_left(line: Seq<char>, i: int) -> int
    decreases i,
{
    if i <= 0 || i > line.len() || line[i - 1] != ' ' {
        0
    } else {
        1 + space_run_left(line, i - 1)
    }
}

/// Length of the run of spaces starting at index `i`.
pub open spec fn space_run_right(line: Seq<char>, i: int) -> int
    decreases line.len() - i,
{
    if i < 0 || i >= line.len() || line[i] != ' ' {
        0
    } else {
        1 + space_run_right(line, i + 1)
    }
}

fn spaces_left(v: &[char], i: usize) -> (r: usize)
    requires
        i <= v@.len(),
    ensures
        r == space_run_left(v@, i as int),
        r <= i,
{
    let mut j: usize = i;
    while j > 0 && v[j - 1] == ' '
        invariant
            0 <= j <= i <= v@.len(),
            space_run_left(v@, i as int) == (i - j) + space_run_left(v@, j as int),
        decreases j,
    {
        j = j - 1;
    }
    proof {
        assert(space_run_left(v@, j as int) == 0);
    }
    i - j
}

fn spaces_right(v: &[char], i: usize) -> (r: usize)
    requires
        i <= v@.len(),
    ensures
        r == space_run_right(v@, i as int),
        i + r <= v@.len(),
{
    let n = v.len();
    let mut j: usize = i;
    while j < n && v[j] == ' '
        invariant
            i <= j <= n,
            n == v@.len(),
            space_run_right(v@, i as int) == (j - i) + space_run_right(v@, j as int),
        decreases n - j,
    {
        j = j + 1;
    }
    proof {
        assert(space_run_right(v@, j as int) == 0);
    }
    j - i
}

/// The problems one separator occurrence yields: spaces before past the
/// maximum, then spaces after outside the range when content follows.
pub open spec fn sep_probs(
    line: Seq<char>,
    lineno: int,
    i: int,
    id: Seq<char>,
    m_before: Seq<char>,
    m_few: Seq<char>,
    m_many: Seq<char>,
    maxb: int,
    mina: int,
    maxa: int,
) -> Seq<ProblemV> {
    let before = space_run_left(line, i);
    let after = space_run_right(line, i + 1);
    (if maxb >= 0 && before > maxb {
        seq![
            ProblemV {
                line: lineno,
                column: i + 1,
                level: Level::Error,
                rule: id,
                message: m_before + dec_digits(maxb as nat),
                suggestion: None,
            },
        ]
    } else {
        Seq::empty()
    }) + (if i + 1 + after < line.len() {
        if after < mina {
            seq![
                ProblemV {
                    line: lineno,
                    column: i + 2,
                    level: Level::Error,
                    rule: id,
                    message: m_few + dec_digits(mina as nat),
                    suggestion: None,
                },
            ]
        } else if maxa >= 0 && after > maxa {
            seq![
                ProblemV {
                    line: lineno,
                    column: i + 2,
                    level: Level::Error,
                    rule: id,
                    message: m_many + dec_digits(maxa as nat),
                    suggestion: None,
                },
            ]
        } else {
            Seq::empty()
        }
    } else {
        Seq::empty()
    })
}

/// The string-aware scan for separator problems from index `i` on.
pub open spec fn sep_scan(
    line: Seq<char>,
    lineno: int,
    i: int,
    in_str: bool,
    sc: char,
    sep: char,
    id: Seq<char>,
    m_before: Seq<char>,
    m_few: Seq<char>,
    m_many: Seq<char>,
    maxb: int,
    mina: int,
    maxa: int,
) -> Seq<ProblemV>
    decreases line.len() - i,
{
    if i < 0 || i >= line.len() {
        Seq::empty()
    } else {
        let c = line[i];
        if (c == '"' || c == '\'') && !in_str {
            sep_scan(line, lineno, i + 1, true, c, sep, id, m_before, m_few, m_many, maxb, mina,
                maxa)
        } else if in_str && c == sc {
            sep_scan(line, lineno, i + 1, false, sc, sep, id, m_before, m_few, m_many, maxb, mina,
                maxa)
        } else if c == sep && !in_str {
            sep_probs(line, lineno, i, id, m_before, m_few, m_many, maxb, mina, maxa) + sep_scan(
                line,
                lineno,
                i + 1,
                in_str,
                sc,
                sep,
                id,
                m_before,
                m_few,
                m_many,
                maxb,
                mina,
                maxa,
            )
        } else {
            sep_scan(line, lineno, i + 1, in_str, sc, sep, id, m_before, m_few, m_many, maxb,
                mina, maxa)
        }
    }
}

/// The separator problems of one line: empty and comment lines are skipped.
pub open spec fn sep_line(
    line: Seq<char>,
    lineno: int,
    sep: char,
    id: Seq<char>,
    m_before: Seq<char>,
    m_few: Seq<char>,
    m_many: Seq<char>,
    maxb: int,
    mina: int,
    maxa: int,
) -> Seq<ProblemV> {
    let t = trim_spec(line);
    if t.len() == 0 || t[0] == '#' {
        Seq::empty()
    } else {
        sep_scan(line, lineno, 0, false, '\0', sep, id, m_before, m_few, m_many, maxb, mina, maxa)
    }
}

/// The separator problems of the first `n` lines.
pub open spec fn sep_upto(
    lines: Seq<Seq<char>>,
    n: int,
    sep: char,
    id: Seq<char>,
    m_before: Seq<char>,
    m_few: Seq<char>,
    m_many: Seq<char>,
    maxb: int,
    mina: int,
    maxa: int,
) -> Seq<ProblemV>
    decreases n,
{
    if n <= 0 {
        Seq::empty()
    } else {
        sep_upto(lines, n - 1, sep, id, m_before, m_few, m_many, maxb, mina, maxa) + sep_line(
            lines[n - 1],
            n,
            sep,
            id,
            m_before,
            m_few,
            m_many,
            maxb,
            mina,
            maxa,
        )
    }
}

/// The `min-spaces-after` parameter stays non-negative: the comparison and
/// its message render it at the machine's word width otherwise.
pub open spec fn sep_cfg_ok(c: RuleConfigV) -> bool {
    int_param_or(c, "min-spaces-after"@, 1) >= 0
}

/// The shared check for the `colons` and `commas` rules.
fn sep_check(
    context: &LintContext,
    config: &RuleConfig,
    sep: char,
    id: &str,
    m_before: &str,
    m_few: &str,
    m_many: &str,
) -> (r: Vec<Problem>)
    requires
        context.wf(),
        sep_cfg_ok(config@),
        context.content@.len() + 1 < usize::MAX as int,
    ensures
        pview(r@) == ({
            let lines = lines_spec(context.content@);
            sep_upto(
                lines,
                lines.len() as int,
                sep,
                id@,
                m_before@,
                m_few@,
                m_many@,
                int_param_or(config@, "max-spaces-before"@, 0),
                int_param_or(config@, "min-spaces-after"@, 1),
                int_param_or(config@, "max-spaces-after"@, 1),
            )
        }),
{
    let maxb = config.int_or("max-spaces-before", 0);
    let mina = config.int_or("min-spaces-after", 1);
    let maxa = config.int_or("max-spaces-after", 1);
    let ghost linesv = lines_spec(context.content@);
    let mut problems: Vec<Problem> = Vec::new();
    let n = context.lines.len();
    let mut li: usize = 0;
    proof {
        assert(views_of(context.lines@) == linesv);
        assert(pview(problems@) =~= sep_upto(
            linesv,
            0,
            sep,
            id@,
            m_before@,
            m_few@,
            m_many@,
            maxb as int,
            mina as int,
            maxa as int,
        ));
    }
    while li < n
        invariant
            0 <= li <= n,
            context.wf(),
            context.content@.len() + 1 < usize::MAX as int,
            n == context.lines@.len(),
            linesv == lines_spec(context.content@),
            views_of(context.lines@) == linesv,
            maxb as int == int_param_or(config@, "max-spaces-before"@, 0),
            mina as int == int_param_or(config@, "min-spaces-after"@, 1),
            mina >= 0,
            maxa as int == int_param_or(config@, "max-spaces-after"@, 1),
            pview(problems@) == sep_upto(
                linesv,
                li as int,
                sep,
                id@,
                m_before@,
                m_few@,
                m_many@,
                maxb as int,
                mina as int,
                maxa as int,
            ),
        decreases n - li,
    {
        let line: &Vec<char> = &context.lines[li];
        proof {
            assert(linesv[li as int] == line@);
            crate::chars::lemma_lines_len_le(context.content@);
            assert(line@.len() <= context.content@.len());
        }
        let t = crate::chars::trim_slice(line.as_slice());
        if !(t.len() == 0 || t[0] == '#') {
            let llen = line.len();
            let mut i: usize = 0;
            let mut in_str = false;
            let mut sc: char = '\0';
            while i < llen
                invariant
                    0 <= li < n,
                    n == context.lines@.len(),
                    0 <= i <= llen,
                    llen == line@.len(),
                    line@.len() <= context.content@.len(),
                    context.content@.len() + 1 < usize::MAX as int,
                    mina >= 0,
                    pview(problems@) + sep_scan(
                        line@,
                        li + 1,
                        i as int,
                        in_str,
                        sc,
                        sep,
                        id@,
                        m_before@,
                        m_few@,
                        m_many@,
                        maxb as int,
                        mina as int,
                        maxa as int,
                    ) == sep_upto(
                        linesv,
                        li as int,
                        sep,
                        id@,
                        m_before@,
                        m_few@,
                        m_many@,
                        maxb as int,
                        mina as int,
                        maxa as int,
                    ) + sep_scan(
                        line@,
                        li + 1,
                        0,
                        false,
                        '\0',
                        sep,
                        id@,
                        m_before@,
                        m_few@,
                        m_many@,
                        maxb as int,
                        mina as int,
                        maxa as int,
                    ),
                decreases llen - i,
            {
                let c = line[i];
                if (c == '"' || c == '\'') && !in_str {
                    in_str = true;
                    sc = c;
                } else if in_str && c == sc {
                    in_str = false;
                } else if c == sep && !in_str {
                    let before = spaces_left(line.as_slice(), i);
                    let after = spaces_right(line.as_slice(), i + 1);
                    if maxb >= 0 && before as u64 > (maxb as u64) {
                        let mut msg = m_before.to_owned();
                        let a = crate::chars::u64_to_string(maxb as u64);
                        msg.append(a.as_str());
                        let p = Problem::new(li + 1, i + 1, Level::Error, id, msg.as_str());
                        let ghost pre = problems@;
                        problems.push(p);
                        proof {
                            assert(pview(problems@) =~= pview(pre) + seq![p@]);
                        }
                    }
                    if i + 1 + after < llen {
                        if (after as u64) < (mina as u64) {
                            let mut msg = m_few.to_owned();
                            let a = crate::chars::u64_to_string(mina as u64);
                            msg.append(a.as_str());
                            let p = Problem::new(li + 1, i + 2, Level::Error, id, msg.as_str());
                            let ghost pre = problems@;
                            problems.push(p);
                            proof {
                                assert(pview(problems@) =~= pview(pre) + seq![p@]);
                            }
                        } else if maxa >= 0 && after as u64 > (maxa as u64) {
                            let mut msg = m_many.to_owned();
                            let a = crate::chars::u64_to_string(maxa as u64);
                            msg.append(a.as_str());
                            let p = Problem::new(li + 1, i + 2, Level::Error, id, msg.as_str());
                            let ghost pre = problems@;
                            problems.push(p);
                            proof {
                                assert(pview(problems@) =~= pview(pre) + seq![p@]);
                            }
                        }
                    }
                    proof {
                        lemma_seq_assoc3(
                            sep_upto(
                                linesv,
                                li as int,
                                sep,
                                id@,
                                m_before@,
                                m_few@,
                                m_many@,
                                maxb as int,
                                mina as int,
                                maxa as int,
                            ),
                            sep_probs(
                                line@,
                                li + 1,
                                i as int,
                                id@,
                                m_before@,
                                m_few@,
                                m_many@,
                                maxb as int,
                                mina as int,
                                maxa as int,
                            ),
                            sep_scan(
                                line@,
                                li + 1,
                                i + 1,
                                in_str,
                                sc,
                                sep,
                                id@,
                                m_before@,
                                m_few@,
                                m_many@,
                                maxb as int,
                                mina as int,
                                maxa as int,
                            ),
                        );
                    }
                }
                i = i + 1;
            }
            proof {
                assert(sep_scan(
                    line@,
                    li + 1,
                    llen as int,
                    in_str,
                    sc,
                    sep,
                    id@,
                    m_before@,
                    m_few@,
                    m_many@,
                    maxb as int,
                    mina as int,
                    maxa as int,
                ) =~= Seq::<ProblemV>::empty());
            }
        }
        proof {
            assert(sep_upto(
                linesv,
                li + 1,
                sep,
                id@,
                m_before@,
                m_few@,
                m_many@,
                maxb as int,
                mina as int,
                maxa as int,
            ) == sep_upto(
                linesv,
                li as int,
                sep,
                id@,
                m_before@,
                m_few@,
                m_many@,
                maxb as int,
                mina as int,
                maxa as int,
            ) + sep_line(
                linesv[li as int],
                li + 1,
                sep,
                id@,
                m_before@,
                m_few@,
                m_many@,
                maxb as int,
                mina as int,
                maxa as int,
            ));
        }
        li = li + 1;
    }
    problems
}

/// Concatenation associates.
proof fn lemma_seq_assoc3(a: Seq<ProblemV>, b: Seq<ProblemV>, c: Seq<ProblemV>)
    ensures
        a + (b + c) == (a + b) + c,
{
    assert(a + (b + c) =~= (a + b) + c);
}

/// The default configuration value shared by `colons` and `commas`.
pub open spec fn sep_default_spec() -> RuleConfigV {
    RuleConfigV {
        enabled: false,
        level: Level::Error,
        params: crate::rules::params_set(
            crate::rules::params_set(
                crate::rules::params_set(
                    Seq::empty(),
                    "max-spaces-before"@,
                    crate::rules::ConfigValueV::Int(0),
                ),
                "min-spaces-after"@,
                crate::rules::ConfigValueV::Int(1),
            ),
            "max-spaces-after"@,
            crate::rules::ConfigValueV::Int(1),
        ),
    }
}

/// The shared validator for `colons` and `commas`: `min-spaces-after`, if
/// set, must be non-negative.
fn sep_validate(config: &RuleConfig) -> (r: Result<(), ConfigError>)
    ensures
        r is Ok <==> sep_cfg_ok(config@),
{
    match config.get_int("min-spaces-after") {
        Some(min) => {
            if min < 0 {
                let mut m = "min-spaces-after must be non-negative, got ".to_owned();
                let d = crate::chars::i64_to_string(min);
                m.append(d.as_str());
                Err(ConfigError { message: m })
            } else {
                Ok(())
            }
        },
        None => Ok(()),
    }
}

/// The shared validator for `brackets` and `braces`: the `min-spaces-inside`
/// parameters, if set, must be non-negative.
fn pairs_validate(config: &RuleConfig) -> (r: Result<(), ConfigError>)
    ensures
        r is Ok <==> pairs_cfg_ok(config@),
{
    match config.get_int("min-spaces-inside") {
        Some(min) => {
            if min < 0 {
                let mut m = "min-spaces-inside must be non-negative, got ".to_owned();
                let d = crate::chars::i64_to_string(min);
                m.append(d.as_str());
                return Err(ConfigError { message: m });
            }
        },
        None => {},
    }
    match config.get_int("min-spaces-inside-empty") {
        Some(min) => {
            if min < 0 {
                let mut m = "min-spaces-inside-empty must be non-negative, got ".to_owned();
                let d = crate::chars::i64_to_string(min);
                m.append(d.as_str());
                return Err(ConfigError { message: m });
            }
        },
        None => {},
    }
    Ok(())
}

/// The shared default configuration for `colons` and `commas`.
fn sep_default_config() -> (r: RuleConfig)
    ensures
        r@ == sep_default_spec(),
        r@.enabled == false,
        r@.level == Level::Error,
        rc_get_int(r@, "max-spaces-before"@) == Some(0int),
        rc_get_int(r@, "min-spaces-after"@) == Some(1int),
        rc_get_int(r@, "max-spaces-after"@) == Some(1int),
{
    let mut config = RuleConfig::new(false, Level::Error);
    config.set_param("max-spaces-before", ConfigValue::Int(0));
    config.set_param("min-spaces-after", ConfigValue::Int(1));
    config.set_param("max-spaces-after", ConfigValue::Int(1));
    proof {
        reveal_strlit("max-spaces-before");
        reveal_strlit("min-spaces-after");
        reveal_strlit("max-spaces-after");
        assert(("max-spaces-before"@).len() == 17);
        assert(("min-spaces-after"@).len() == 16);
        assert(("max-spaces-after"@).len() == 16);
        assert(("min-spaces-after"@)[1] == 'i');
        assert(("max-spaces-after"@)[1] == 'a');
        assert("max-spaces-before"@ != "min-spaces-after"@);
        assert("max-spaces-before"@ != "max-spaces-after"@);
        assert("min-spaces-after"@ != "max-spaces-after"@);
        crate::rules::lemma_params_get_set(Seq::empty(), "max-spaces-before"@,
            crate::rules::ConfigValueV::Int(0), "max-spaces-before"@);
        crate::rules::lemma_params_get_set(Seq::empty(), "max-spaces-before"@,
            crate::rules::ConfigValueV::Int(0), "min-spaces-after"@);
        crate::rules::lemma_params_get_set(Seq::empty(), "max-spaces-before"@,
            crate::rules::ConfigValueV::Int(0), "max-spaces-after"@);
        let p1 = crate::rules::params_set(Seq::empty(), "max-spaces-before"@,
            crate::rules::ConfigValueV::Int(0));
        crate::rules::lemma_params_get_set(p1, "min-spaces-after"@,
            crate::rules::ConfigValueV::Int(1), "max-spaces-before"@);
        crate::rules::lemma_params_get_set(p1, "min-spaces-after"@,
            crate::rules::ConfigValueV::Int(1), "min-spaces-after"@);
        crate::rules::lemma_params_get_set(p1, "min-spaces-after"@,
            crate::rules::ConfigValueV::Int(1), "max-spaces-after"@);
        let p2 = crate::rules::params_set(p1, "min-spaces-after"@,
            crate::rules::ConfigValueV::Int(1));
        crate::rules::lemma_params_get_set(p2, "max-spaces-after"@,
            crate::rules::ConfigValueV::Int(1), "max-spaces-before"@);
        crate::rules::lemma_params_get_set(p2, "max-spaces-after"@,
            crate::rules::ConfigValueV::Int(1), "min-spaces-after"@);
        crate::rules::lemma_params_get_set(p2, "max-spaces-after"@,
            crate::rules::ConfigValueV::Int(1), "max-spaces-after"@);
    }
    config
}

/// The position of the closing delimiter matching an opener before `j`,
/// given `depth` open delimiters so far.
pub open spec fn close_of(line: Seq<char>, j: int, depth: int, open: char, close: char) -> Option<
    int,
>
    decreases line.len() - j,
{
    if j < 0 || j >= line.len() {
        None
    } else if line[j] == open {
        close_of(line, j + 1, depth + 1, open, close)
    } else if line[j] == close {
        if depth == 1 {
            Some(j)
        } else {
            close_of(line, j + 1, depth - 1, open, close)
        }
    } else {
        close_of(line, j + 1, depth, open, close)
    }
}

/// The problems one delimiter pair yields.
pub open spec fn pair_probs(
    line: Seq<char>,
    lineno: int,
    op: int,
    cl: int,
    id: Seq<char>,
    m_few_empty: Seq<char>,
    m_many_empty: Seq<char>,
    m_few: Seq<char>,
    m_many: Seq<char>,
    mins: int,
    maxs: int,
    mine: int,
    maxe: int,
) -> Seq<ProblemV> {
    let content = line.subrange(op + 1, cl);
    if trim_spec(content).len() == 0 {
        if content.len() < mine {
            seq![
                ProblemV {
                    line: lineno,
                    column: op + 1,
                    level: Level::Error,
                    rule: id,
                    message: m_few_empty + dec_digits(mine as nat),
                    suggestion: None,
                },
            ]
        } else if maxe >= 0 && content.len() > maxe {
            seq![
                ProblemV {
                    line: lineno,
                    column: op + 1,
                    level: Level::Error,
                    rule: id,
                    message: m_many_empty + dec_digits(maxe as nat),
                    suggestion: None,
                },
            ]
        } else {
            Seq::empty()
        }
    } else {
        let leading = crate::chars::ws_prefix_len(content);
        let trailing = crate::chars::ws_suffix_len(content);
        (if leading < mins {
            seq![
                ProblemV {
                    line: lineno,
                    column: op + 1,
                    level: Level::Error,
                    rule: id,
                    message: m_few + dec_digits(mins as nat),
                    suggestion: None,
                },
            ]
        } else if maxs >= 0 && leading > maxs {
            seq![
                ProblemV {
                    line: lineno,
                    column: op + 1,
                    level: Level::Error,
                    rule: id,
                    message: m_many + dec_digits(maxs as nat),
                    suggestion: None,
                },
            ]
        } else {
            Seq::empty()
        }) + (if trailing < mins {
            seq![
                ProblemV {
                    line: lineno,
                    column: cl + 1,
                    level: Level::Error,
                    rule: id,
                    message: m_few + dec_digits(mins as nat),
                    suggestion: None,
                },
            ]
        } else if maxs >= 0 && trailing > maxs {
            seq![
                ProblemV {
                    line: lineno,
                    column: cl + 1,
                    level: Level::Error,
                    rule: id,
                    message: m_many + dec_digits(maxs as nat),
                    suggestion: None,
                },
            ]
        } else {
            Seq::empty()
        })
    }
}

/// The pair problems of a line from index `i` on: each opener with a match
/// contributes its pair's problems.
pub open spec fn pairs_scan(
    line: Seq<char>,
    lineno: int,
    i: int,
    open: char,
    close: char,
    id: Seq<char>,
    m_few_empty: Seq<char>,
    m_many_empty: Seq<char>,
    m_few: Seq<char>,
    m_many: Seq<char>,
    mins: int,
    maxs: int,
    mine: int,
    maxe: int,
) -> Seq<ProblemV>
    decreases line.len() - i,
{
    if i < 0 || i >= line.len() {
        Seq::empty()
    } else {
        (if line[i] == open {
            match close_of(line, i + 1, 1, open, close) {
                Some(cl) => pair_probs(line, lineno, i, cl, id, m_few_empty, m_many_empty, m_few,
                    m_many, mins, maxs, mine, maxe),
                None => Seq::empty(),
            }
        } else {
            Seq::empty()
        }) + pairs_scan(line, lineno, i + 1, open, close, id, m_few_empty, m_many_empty, m_few,
            m_many, mins, maxs, mine, maxe)
    }
}

/// The pair problems of the first `n` lines.
pub open spec fn pairs_upto(
    lines: Seq<Seq<char>>,
    n: int,
    open: char,
    close: char,
    id: Seq<char>,
    m_few_empty: Seq<char>,
    m_many_empty: Seq<char>,
    m_few: Seq<char>,
    m_many: Seq<char>,
    mins: int,
    maxs: int,
    mine: int,
    maxe: int,
) -> Seq<ProblemV>
    decreases n,
{
    if n <= 0 {
        Seq::empty()
    } else {
        pairs_upto(lines, n - 1, open, close, id, m_few_empty, m_many_empty, m_few, m_many, mins,
            maxs, mine, maxe) + pairs_scan(lines[n - 1], n, 0, open, close, id, m_few_empty,
            m_many_empty, m_few, m_many, mins, maxs, mine, maxe)
    }
}

/// The `min-spaces-inside` parameters stay non-negative: the comparisons and
/// their messages render them at the machine's word width otherwise.
pub open spec fn pairs_cfg_ok(c: RuleConfigV) -> bool {
    int_param_or(c, "min-spaces-inside"@, 0) >= 0 && int_param_or(c, "min-spaces-inside-empty"@, 0)
        >= 0
}

/// The shared check for the `brackets` and `braces` rules.
fn pairs_check(
    context: &LintContext,
    config: &RuleConfig,
    open: char,
    close: char,
    id: &str,
    m_few_empty: &str,
    m_many_empty: &str,
    m_few: &str,
    m_many: &str,
) -> (r: Vec<Problem>)
    requires
        context.wf(),
        pairs_cfg_ok(config@),
        context.content@.len() + 1 < usize::MAX as int,
    ensures
        pview(r@) == ({
            let lines = lines_spec(context.content@);
            pairs_upto(
                lines,
                lines.len() as int,
                open,
                close,
                id@,
                m_few_empty@,
                m_many_empty@,
                m_few@,
                m_many@,
                int_param_or(config@, "min-spaces-inside"@, 0),
                int_param_or(config@, "max-spaces-inside"@, 1),
                int_param_or(config@, "min-spaces-inside-empty"@, 0),
                int_param_or(config@, "max-spaces-inside-empty"@, 0),
            )
        }),
{
    let mins = config.int_or("min-spaces-inside", 0);
    let maxs = config.int_or("max-spaces-inside", 1);
    let mine = config.int_or("min-spaces-inside-empty", 0);
    let maxe = config.int_or("max-spaces-inside-empty", 0);
    let ghost linesv = lines_spec(context.content@);
    let mut problems: Vec<Problem> = Vec::new();
    let n = context.lines.len();
    let mut li: usize = 0;
    proof {
        assert(views_of(context.lines@) == linesv);
        assert(pview(problems@) =~= pairs_upto(
            linesv,
            0,
            open,
            close,
            id@,
            m_few_empty@,
            m_many_empty@,
            m_few@,
            m_many@,
            mins as int,
            maxs as int,
            mine as int,
            maxe as int,
        ));
    }
    while li < n
        invariant
            0 <= li <= n,
            context.wf(),
            context.content@.len() + 1 < usize::MAX as int,
            n == context.lines@.len(),
            linesv == lines_spec(context.content@),
            views_of(context.lines@) == linesv,
            mins as int == int_param_or(config@, "min-spaces-inside"@, 0),
            mins >= 0,
            maxs as int == int_param_or(config@, "max-spaces-inside"@, 1),
            mine as int == int_param_or(config@, "min-spaces-inside-empty"@, 0),
            mine >= 0,
            maxe as int == int_param_or(config@, "max-spaces-inside-empty"@, 0),
            pview(problems@) == pairs_upto(
                linesv,
                li as int,
                open,
                close,
                id@,
                m_few_empty@,
                m_many_empty@,
                m_few@,
                m_many@,
                mins as int,
                maxs as int,
                mine as int,
                maxe as int,
            ),
        decreases n - li,
    {
        let line: &Vec<char> = &context.lines[li];
        proof {
            assert(linesv[li as int] == line@);
            crate::chars::lemma_lines_len_le(context.content@);
            assert(line@.len() <= context.content@.len());
        }
        let llen = line.len();
        let mut i: usize = 0;
        while i < llen
            invariant
                0 <= li < n,
                n == context.lines@.len(),
                0 <= i <= llen,
                llen == line@.len(),
                line@.len() <= context.content@.len(),
                context.content@.len() + 1 < usize::MAX as int,
                mins >= 0,
                mine >= 0,
                pview(problems@) + pairs_scan(
                    line@,
                    li + 1,
                    i as int,
                    open,
                    close,
                    id@,
                    m_few_empty@,
                    m_many_empty@,
                    m_few@,
                    m_many@,
                    mins as int,
                    maxs as int,
                    mine as int,
                    maxe as int,
                ) == pairs_upto(
                    linesv,
                    li as int,
                    open,
                    close,
                    id@,
                    m_few_empty@,
                    m_many_empty@,
                    m_few@,
                    m_many@,
                    mins as int,
                    maxs as int,
                    mine as int,
                    maxe as int,
                ) + pairs_scan(
                    line@,
                    li + 1,
                    0,
                    open,
                    close,
                    id@,
                    m_few_empty@,
                    m_many_empty@,
                    m_few@,
                    m_many@,
                    mins as int,
                    maxs as int,
                    mine as int,
                    maxe as int,
                ),
            decreases llen - i,
        {
            let c = line[i];
            let ghost emitted = pview(problems@);
            if c == open {
                let mut j: usize = i + 1;
                let mut depth: usize = 1;
                while j < llen && depth > 0
                    invariant
                        i + 1 <= j <= llen,
                        llen == line@.len(),
                        depth <= j - i,
                        depth == 0 ==> j >= i + 2,
                        close_of(line@, i + 1, 1, open, close) == (if depth == 0 {
                            Some(j - 1)
                        } else {
                            close_of(line@, j as int, depth as int, open, close)
                        }),
                    decreases llen - j,
                {
                    let cj = line[j];
                    if cj == open {
                        depth = depth + 1;
                    } else if cj == close {
                        depth = depth - 1;
                    }
                    j = j + 1;
                }
                if depth == 0 {
                    let cl = j - 1;
                    proof {
                        assert(close_of(line@, i + 1, 1, open, close) == Some(cl as int));
                    }
                    let content = &line.as_slice()[i + 1..cl];
                    proof {
                        assert(content@ =~= line@.subrange(i + 1, cl as int));
                    }
                    let tc = crate::chars::trim_slice(content);
                    if tc.len() == 0 {
                        let count = content.len();
                        if (count as u64) < (mine as u64) {
                            let mut msg = m_few_empty.to_owned();
                            let a = crate::chars::u64_to_string(mine as u64);
                            msg.append(a.as_str());
                            let p = Problem::new(li + 1, i + 1, Level::Error, id, msg.as_str());
                            let ghost pre = problems@;
                            problems.push(p);
                            proof {
                                assert(pview(problems@) =~= pview(pre) + seq![p@]);
                            }
                        } else if maxe >= 0 && count as u64 > (maxe as u64) {
                            let mut msg = m_many_empty.to_owned();
                            let a = crate::chars::u64_to_string(maxe as u64);
                            msg.append(a.as_str());
                            let p = Problem::new(li + 1, i + 1, Level::Error, id, msg.as_str());
                            let ghost pre = problems@;
                            problems.push(p);
                            proof {
                                assert(pview(problems@) =~= pview(pre) + seq![p@]);
                            }
                        }
                    } else {
                        let leading = crate::chars::ws_prefix(content);
                        let trailing = crate::chars::ws_suffix(content);
                        if (leading as u64) < (mins as u64) {
                            let mut msg = m_few.to_owned();
                            let a = crate::chars::u64_to_string(mins as u64);
                            msg.append(a.as_str());
                            let p = Problem::new(li + 1, i + 1, Level::Error, id, msg.as_str());
                            let ghost pre = problems@;
                            problems.push(p);
                            proof {
                                assert(pview(problems@) =~= pview(pre) + seq![p@]);
                            }
                        } else if maxs >= 0 && leading as u64 > (maxs as u64) {
                            let mut msg = m_many.to_owned();
                            let a = crate::chars::u64_to_string(maxs as u64);
                            msg.append(a.as_str());
                            let p = Problem::new(li + 1, i + 1, Level::Error, id, msg.as_str());
                            let ghost pre = problems@;
                            problems.push(p);
                            proof {
                                assert(pview(problems@) =~= pview(pre) + seq![p@]);
                            }
                        }
                        if (trailing as u64) < (mins as u64) {
                            let mut msg = m_few.to_owned();
                            let a = crate::chars::u64_to_string(mins as u64);
                            msg.append(a.as_str());
                            let p = Problem::new(li + 1, cl + 1, Level::Error, id, msg.as_str());
                            let ghost pre = problems@;
                            problems.push(p);
                            proof {
                                assert(pview(problems@) =~= pview(pre) + seq![p@]);
                            }
                        } else if maxs >= 0 && trailing as u64 > (maxs as u64) {
                            let mut msg = m_many.to_owned();
                            let a = crate::chars::u64_to_string(maxs as u64);
                            msg.append(a.as_str());
                            let p = Problem::new(li + 1, cl + 1, Level::Error, id, msg.as_str());
                            let ghost pre = problems@;
                            problems.push(p);
                            proof {
                                assert(pview(problems@) =~= pview(pre) + seq![p@]);
                            }
                        }
                    }
                    proof {
                        lemma_seq_assoc3(
                            emitted,
                            pair_probs(
                                line@,
                                li + 1,
                                i as int,
                                cl as int,
                                id@,
                                m_few_empty@,
                                m_many_empty@,
                                m_few@,
                                m_many@,
                                mins as int,
                                maxs as int,
                                mine as int,
                                maxe as int,
                            ),
                            pairs_scan(
                                line@,
                                li + 1,
                                i + 1,
                                open,
                                close,
                                id@,
                                m_few_empty@,
                                m_many_empty@,
                                m_few@,
                                m_many@,
                                mins as int,
                                maxs as int,
                                mine as int,
                                maxe as int,
                            ),
                        );
                    }
                } else {
                    proof {
                        assert(close_of(line@, i + 1, 1, open, close) is None);
                    }
                }
            }
            i = i + 1;
        }
        proof {
            assert(pairs_scan(
                line@,
                li + 1,
                llen as int,
                open,
                close,
                id@,
                m_few_empty@,
                m_many_empty@,
                m_few@,
                m_many@,
                mins as int,
                maxs as int,
                mine as int,
                maxe as int,
            ) =~= Seq::<ProblemV>::empty());
            assert(pairs_upto(
                linesv,
                li + 1,
                open,
                close,
                id@,
                m_few_empty@,
                m_many_empty@,
                m_few@,
                m_many@,
                mins as int,
                maxs as int,
                mine as int,
                maxe as int,
            ) == pairs_upto(
                linesv,
                li as int,
                open,
                close,
                id@,
                m_few_empty@,
                m_many_empty@,
                m_few@,
                m_many@,
                mins as int,
                maxs as int,
                mine as int,
                maxe as int,
            ) + pairs_scan(
                linesv[li as int],
                li + 1,
                0,
                open,
                close,
                id@,
                m_few_empty@,
                m_many_empty@,
                m_few@,
                m_many@,
                mins as int,
                maxs as int,
                mine as int,
                maxe as int,
            ));
        }
        li = li + 1;
    }
    problems
}

/// The default configuration value shared by `brackets` and `braces`.
pub open spec fn pairs_default_spec() -> RuleConfigV {
    RuleConfigV {
        enabled: false,
        level: Level::Error,
        params: crate::rules::params_set(
            crate::rules::params_set(
                crate::rules::params_set(
                    crate::rules::params_set(
                        Seq::empty(),
                        "min-spaces-inside"@,
                        crate::rules::ConfigValueV::Int(0),
                    ),
                    "max-spaces-inside"@,
                    crate::rules::ConfigValueV::Int(1),
                ),
                "min-spaces-inside-empty"@,
                crate::rules::ConfigValueV::Int(0),
            ),
            "max-spaces-inside-empty"@,
            crate::rules::ConfigValueV::Int(0),
        ),
    }
}

/// The shared default configuration for `brackets` and `braces`.
fn pairs_default_config() -> (r: RuleConfig)
    ensures
        r@ == pairs_default_spec(),
        r@.enabled == false,
        r@.level == Level::Error,
        rc_get_int(r@, "min-spaces-inside"@) == Some(0int),
        rc_get_int(r@, "max-spaces-inside"@) == Some(1int),
        rc_get_int(r@, "min-spaces-inside-empty"@) == Some(0int),
        rc_get_int(r@, "max-spaces-inside-empty"@) == Some(0int),
{
    let mut config = RuleConfig::new(false, Level::Error);
    config.set_param("min-spaces-inside", ConfigValue::Int(0));
    config.set_param("max-spaces-inside", ConfigValue::Int(1));
    config.set_param("min-spaces-inside-empty", ConfigValue::Int(0));
    config.set_param("max-spaces-inside-empty", ConfigValue::Int(0));
    proof {
        reveal_strlit("min-spaces-inside");
        reveal_strlit("max-spaces-inside");
        reveal_strlit("min-spaces-inside-empty");
        reveal_strlit("max-spaces-inside-empty");
        assert(("min-spaces-inside"@).len() == 17);
        assert(("max-spaces-inside"@).len() == 17);
        assert(("min-spaces-inside-empty"@).len() == 23);
        assert(("max-spaces-inside-empty"@).len() == 23);
        assert(("min-spaces-inside"@)[1] == 'i');
        assert(("max-spaces-inside"@)[1] == 'a');
        assert(("min-spaces-inside-empty"@)[1] == 'i');
        assert(("max-spaces-inside-empty"@)[1] == 'a');
        let k1 = "min-spaces-inside"@;
        let k2 = "max-spaces-inside"@;
        let k3 = "min-spaces-inside-empty"@;
        let k4 = "max-spaces-inside-empty"@;
        assert(k1 != k2 && k1 != k3 && k1 != k4 && k2 != k3 && k2 != k4 && k3 != k4);
        let zero = crate::rules::ConfigValueV::Int(0);
        let one = crate::rules::ConfigValueV::Int(1);
        let p0 = Seq::<(Seq<char>, crate::rules::ConfigValueV)>::empty();
        let p1 = crate::rules::params_set(p0, k1, zero);
        let p2 = crate::rules::params_set(p1, k2, one);
        let p3 = crate::rules::params_set(p2, k3, zero);
        crate::rules::lemma_params_get_set(p0, k1, zero, k1);
        crate::rules::lemma_params_get_set(p0, k1, zero, k2);
        crate::rules::lemma_params_get_set(p0, k1, zero, k3);
        crate::rules::lemma_params_get_set(p0, k1, zero, k4);
        crate::rules::lemma_params_get_set(p1, k2, one, k1);
        crate::rules::lemma_params_get_set(p1, k2, one, k2);
        crate::rules::lemma_params_get_set(p1, k2, one, k3);
        crate::rules::lemma_params_get_set(p1, k2, one, k4);
        crate::rules::lemma_params_get_set(p2, k3, zero, k1);
        crate::rules::lemma_params_get_set(p2, k3, zero, k2);
        crate::rules::lemma_params_get_set(p2, k3, zero, k3);
        crate::rules::lemma_params_get_set(p2, k3, zero, k4);
        crate::rules::lemma_params_get_set(p3, k4, zero, k1);
        crate::rules::lemma_params_get_set(p3, k4, zero, k2);
        crate::rules::lemma_params_get_set(p3, k4, zero, k3);
        crate::rules::lemma_params_get_set(p3, k4, zero, k4);
    }
    config
}

/// What the `brackets` rule reports.
pub open spec fn brackets_check_spec(content: Seq<char>, c: RuleConfigV) -> Seq<ProblemV> {
    let lines = lines_spec(content);
    pairs_upto(
        lines,
        lines.len() as int,
        '[',
        ']',
        "brackets"@,
        "too few spaces inside empty brackets, expected at least "@,
        "too many spaces inside empty brackets, expected at most "@,
        "too few spaces inside brackets, expected at least "@,
        "too many spaces inside brackets, expected at most "@,
        int_param_or(c, "min-spaces-inside"@, 0),
        int_param_or(c, "max-spaces-inside"@, 1),
        int_param_or(c, "min-spaces-inside-empty"@, 0),
        int_param_or(c, "max-spaces-inside-empty"@, 0),
    )
}

/// Rule that checks bracket spacing and style.
#[derive(Debug)]
pub struct BracketsRule;

impl BracketsRule {
    pub fn new() -> (r: BracketsRule) {
        BracketsRule
    }

    /// The unique identifier for this rule.
    pub fn id(&self) -> (r: &'static str)
        ensures
            r@ == "brackets"@,
    {
        "brackets"
    }

    /// A human-readable description of this rule.
    pub fn description(&self) -> (r: &'static str)
        ensures
            r@ == "Controls the use of brackets within sequences"@,
    {
        "Controls the use of brackets within sequences"
    }

    /// The default configuration: disabled; no spaces inside empty pairs, at
    /// most one inside non-empty ones.
    pub fn default_config(&self) -> (r: RuleConfig)
        ensures
            r@ == pairs_default_spec(),
            rc_get_int(r@, "min-spaces-inside"@) == Some(0int),
            rc_get_int(r@, "max-spaces-inside"@) == Some(1int),
            rc_get_int(r@, "min-spaces-inside-empty"@) == Some(0int),
            rc_get_int(r@, "max-spaces-inside-empty"@) == Some(0int),
    {
        pairs_default_config()
    }

    /// Accepts a configuration whose `min-spaces-inside` parameters, if
    /// set, are non-negative.
    pub fn validate_config(&self, config: &RuleConfig) -> (r: Result<(), ConfigError>)
        ensures
            r is Ok <==> pairs_cfg_ok(config@),
    {
        pairs_validate(config)
    }

    /// Report bracket-spacing problems.
    pub fn check(&self, context: &LintContext, config: &RuleConfig) -> (r: Result<
        Vec<Problem>,
        RuleError,
    >)
        requires
            context.wf(),
            pairs_cfg_ok(config@),
            context.content@.len() + 1 < usize::MAX as int,
        ensures
            match r {
                Ok(ps) => pview(ps@) == brackets_check_spec(context.content@, config@),
                Err(_) => false,
            },
    {
        Ok(
            pairs_check(
                context,
                config,
                '[',
                ']',
                "brackets",
                "too few spaces inside empty brackets, expected at least ",
                "too many spaces inside empty brackets, expected at most ",
                "too few spaces inside brackets, expected at least ",
                "too many spaces inside brackets, expected at most ",
            ),
        )
    }
}

/// What the `braces` rule reports.
pub open spec fn braces_check_spec(content: Seq<char>, c: RuleConfigV) -> Seq<ProblemV> {
    let lines = lines_spec(content);
    pairs_upto(
        lines,
        lines.len() as int,
        '{',
        '}',
        "braces"@,
        "too few spaces inside empty braces, expected at least "@,
        "too many spaces inside empty braces, expected at most "@,
        "too few spaces inside braces, expected at least "@,
        "too many spaces inside braces, expected at most "@,
        int_param_or(c, "min-spaces-inside"@, 0),
        int_param_or(c, "max-spaces-inside"@, 1),
        int_param_or(c, "min-spaces-inside-empty"@, 0),
        int_param_or(c, "max-spaces-inside-empty"@, 0),
    )
}

/// Rule that checks brace spacing and style.
#[derive(Debug)]
pub struct BracesRule;

impl BracesRule {
    pub fn new() -> (r: BracesRule) {
        BracesRule
    }

    /// The unique identifier for this rule.
    pub fn id(&self) -> (r: &'static str)
        ensures
            r@ == "braces"@,
    {
        "braces"
    }

    /// A human-readable description of this rule.
    pub fn description(&self) -> (r: &'static str)
        ensures
            r@ == "Controls the use of braces within mappings"@,
    {
        "Controls the use of braces within mappings"
    }

    /// The default configuration: disabled; no spaces inside empty pairs, at
    /// most one inside non-empty ones.
    pub fn default_config(&self) -> (r: RuleConfig)
        ensures
            r@ == pairs_default_spec(),
            rc_get_int(r@, "min-spaces-inside"@) == Some(0int),
            rc_get_int(r@, "max-spaces-inside"@) == Some(1int),
            rc_get_int(r@, "min-spaces-inside-empty"@) == Some(0int),
            rc_get_int(r@, "max-spaces-inside-empty"@) == Some(0int),
    {
        pairs_default_config()
    }

    /// Accepts a configuration whose `min-spaces-inside` parameters, if
    /// set, are non-negative.
    pub fn validate_config(&self, config: &RuleConfig) -> (r: Result<(), ConfigError>)
        ensures
            r is Ok <==> pairs_cfg_ok(config@),
    {
        pairs_validate(config)
    }

    /// Report brace-spacing problems.
    pub fn check(&self, context: &LintContext, config: &RuleConfig) -> (r: Result<
        Vec<Problem>,
        RuleError,
    >)
        requires
            context.wf(),
            pairs_cfg_ok(config@),
            context.content@.len() + 1 < usize::MAX as int,
        ensures
            match r {
                Ok(ps) => pview(ps@) == braces_check_spec(context.content@, config@),
                Err(_) => false,
            },
    {
        Ok(
            pairs_check(
                context,
                config,
                '{',
                '}',
                "braces",
                "too few spaces inside empty braces, expected at least ",
                "too many spaces inside empty braces, expected at most ",
                "too few spaces inside braces, expected at least ",
                "too many spaces inside braces, expected at most ",
            ),
        )
    }
}

/// The `hyphens` problems of one line: sequence items only, at the first
/// hyphen.
pub open spec fn hy_line(line: Seq<char>, lineno: int, maxa: int) -> Seq<ProblemV> {
    let ts = trim_start_spec(line);
    if ts.len() == 0 || ts[0] == '#' {
        Seq::empty()
    } else if ts[0] == '-' {
        match crate::chars::find_char_spec(line, '-') {
            Some(h) => {
                let after = space_run_right(line, h + 1);
                if h + 1 + after < line.len() {
                    if after == 0 {
                        seq![
                            ProblemV {
                                line: lineno,
                                column: h + 2,
                                level: Level::Error,
                                rule: "hyphens"@,
                                message: "missing space after hyphen"@,
                                suggestion: None,
                            },
                        ]
                    } else if maxa >= 0 && after > maxa {
                        seq![
                            ProblemV {
                                line: lineno,
                                column: h + 2,
                                level: Level::Error,
                                rule: "hyphens"@,
                                message: "too many spaces after hyphen, expected at most "@
                                    + dec_digits(maxa as nat),
                                suggestion: None,
                            },
                        ]
                    } else {
                        Seq::empty()
                    }
                } else {
                    Seq::empty()
                }
            },
            None => Seq::empty(),
        }
    } else {
        Seq::empty()
    }
}

/// The `hyphens` problems of the first `n` lines.
pub open spec fn hy_upto(lines: Seq<Seq<char>>, n: int, maxa: int) -> Seq<ProblemV>
    decreases n,
{
    if n <= 0 {
        Seq::empty()
    } else {
        hy_upto(lines, n - 1, maxa) + hy_line(lines[n - 1], n, maxa)
    }
}

/// What the `hyphens` rule reports.
pub open spec fn hyphens_check_spec(content: Seq<char>, c: RuleConfigV) -> Seq<ProblemV> {
    let lines = lines_spec(content);
    hy_upto(lines, lines.len() as int, int_param_or(c, "max-spaces-after"@, 1))
}

/// The default `hyphens` configuration value.
pub open spec fn hy_default_spec() -> RuleConfigV {
    RuleConfigV {
        enabled: false,
        level: Level::Error,
        params: crate::rules::params_set(
            Seq::empty(),
            "max-spaces-after"@,
            crate::rules::ConfigValueV::Int(1),
        ),
    }
}

/// Rule that checks hyphen spacing in sequences.
#[derive(Debug)]
pub struct HyphensRule;

impl HyphensRule {
    pub fn new() -> (r: HyphensRule) {
        HyphensRule
    }

    /// The unique identifier for this rule.
    pub fn id(&self) -> (r: &'static str)
        ensures
            r@ == "hyphens"@,
    {
        "hyphens"
    }

    /// A human-readable description of this rule.
    pub fn description(&self) -> (r: &'static str)
        ensures
            r@ == "Controls the use of hyphens in sequences"@,
    {
        "Controls the use of hyphens in sequences"
    }

    /// The default configuration: disabled; at most one space after.
    pub fn default_config(&self) -> (r: RuleConfig)
        ensures
            r@ == hy_default_spec(),
            rc_get_int(r@, "max-spaces-after"@) == Some(1int),
    {
        let mut config = RuleConfig::new(false, Level::Error);
        config.set_param("max-spaces-after", ConfigValue::Int(1));
        proof {
            crate::rules::lemma_params_get_set(Seq::empty(), "max-spaces-after"@,
                crate::rules::ConfigValueV::Int(1), "max-spaces-after"@);
        }
        config
    }

    /// Accepts any configuration.
    pub fn validate_config(&self, _config: &RuleConfig) -> (r: Result<(), ConfigError>)
        ensures
            r is Ok,
    {
        Ok(())
    }

    /// Report hyphen-spacing problems.
    pub fn check(&self, context: &LintContext, config: &RuleConfig) -> (r: Result<
        Vec<Problem>,
        RuleError,
    >)
        requires
            context.wf(),
            context.content@.len() + 1 < usize::MAX as int,
        ensures
            match r {
                Ok(ps) => pview(ps@) == hyphens_check_spec(context.content@, config@),
                Err(_) => false,
            },
    {
        let maxa = config.int_or("max-spaces-after", 1);
        let ghost linesv = lines_spec(context.content@);
        let mut problems: Vec<Problem> = Vec::new();
        let n = context.lines.len();
        let mut li: usize = 0;
        proof {
            assert(views_of(context.lines@) == linesv);
            assert(pview(problems@) =~= hy_upto(linesv, 0, maxa as int));
        }
        while li < n
            invariant
                0 <= li <= n,
                context.wf(),
                context.content@.len() + 1 < usize::MAX as int,
                n == context.lines@.len(),
                linesv == lines_spec(context.content@),
                views_of(context.lines@) == linesv,
                maxa as int == int_param_or(config@, "max-spaces-after"@, 1),
                pview(problems@) == hy_upto(linesv, li as int, maxa as int),
            decreases n - li,
        {
            let line: &Vec<char> = &context.lines[li];
            proof {
                assert(linesv[li as int] == line@);
                crate::chars::lemma_lines_len_le(context.content@);
                assert(line@.len() <= context.content@.len());
            }
            let ts = crate::chars::trim_start_slice(line.as_slice());
            if !(ts.len() == 0 || ts[0] == '#') && ts[0] == '-' {
                match crate::chars::find_char(line.as_slice(), '-') {
                    Some(h) => {
                        proof {
                            crate::chars::lemma_find_char_spec(line@, '-');
                        }
                        let after = spaces_right(line.as_slice(), h + 1);
                        if h + 1 + after < line.len() {
                            if after == 0 {
                                let p = Problem::new(li + 1, h + 2, Level::Error, "hyphens",
                                    "missing space after hyphen");
                                let ghost pre = problems@;
                                problems.push(p);
                                proof {
                                    assert(pview(problems@) =~= pview(pre) + seq![p@]);
                                }
                            } else if maxa >= 0 && after as u64 > (maxa as u64) {
                                let mut msg =
                                    "too many spaces after hyphen, expected at most ".to_owned();
                                let a = crate::chars::u64_to_string(maxa as u64);
                                msg.append(a.as_str());
                                let p = Problem::new(li + 1, h + 2, Level::Error, "hyphens",
                                    msg.as_str());
                                let ghost pre = problems@;
                                problems.push(p);
                                proof {
                                    assert(pview(problems@) =~= pview(pre) + seq![p@]);
                                }
                            }
                        }
                    },
                    None => {
                        proof {
                            crate::chars::lemma_find_char_spec(line@, '-');
                            crate::chars::lemma_ws_prefix_le_len(line@);
                            assert(line@[crate::chars::ws_prefix_len(line@)] == '-');
                            assert(false);
                        }
                    },
                }
            }
            proof {
                assert(hy_upto(linesv, li + 1, maxa as int) == hy_upto(linesv, li as int, maxa as int)
                    + hy_line(linesv[li as int], li + 1, maxa as int));
                assert(pview(problems@) =~= hy_upto(linesv, li + 1, maxa as int));
            }
            li = li + 1;
        }
        Ok(problems)
    }
}

/// What the `colons` rule reports.
pub open spec fn colons_check_spec(content: Seq<char>, c: RuleConfigV) -> Seq<ProblemV> {
    let lines = lines_spec(content);
    sep_upto(
        lines,
        lines.len() as int,
        ':',
        "colons"@,
        "too many spaces before colon, expected at most "@,
        "too few spaces after colon, expected at least "@,
        "too many spaces after colon, expected at most "@,
        int_param_or(c, "max-spaces-before"@, 0),
        int_param_or(c, "min-spaces-after"@, 1),
        int_param_or(c, "max-spaces-after"@, 1),
    )
}

/// Rule that checks colon spacing.
#[derive(Debug)]
pub struct ColonsRule;

impl ColonsRule {
    pub fn new() -> (r: ColonsRule) {
        ColonsRule
    }

    /// The unique identifier for this rule.
    pub fn id(&self) -> (r: &'static str)
        ensures
            r@ == "colons"@,
    {
        "colons"
    }

    /// A human-readable description of this rule.
    pub fn description(&self) -> (r: &'static str)
        ensures
            r@ == "Controls the use of colons within mappings"@,
    {
        "Controls the use of colons within mappings"
    }

    /// The default configuration: disabled; no space before, one after.
    pub fn default_config(&self) -> (r: RuleConfig)
        ensures
            r@ == sep_default_spec(),
            rc_get_int(r@, "max-spaces-before"@) == Some(0int),
            rc_get_int(r@, "min-spaces-after"@) == Some(1int),
            rc_get_int(r@, "max-spaces-after"@) == Some(1int),
    {
        sep_default_config()
    }

    /// Accepts a configuration whose `min-spaces-after`, if set, is
    /// non-negative.
    pub fn validate_config(&self, config: &RuleConfig) -> (r: Result<(), ConfigError>)
        ensures
            r is Ok <==> sep_cfg_ok(config@),
    {
        sep_validate(config)
    }

    /// Report colon-spacing problems.
    pub fn check(&self, context: &LintContext, config: &RuleConfig) -> (r: Result<
        Vec<Problem>,
        RuleError,
    >)
        requires
            context.wf(),
            sep_cfg_ok(config@),
            context.content@.len() + 1 < usize::MAX as int,
        ensures
            match r {
                Ok(ps) => pview(ps@) == colons_check_spec(context.content@, config@),
                Err(_) => false,
            },
    {
        Ok(
            sep_check(
                context,
                config,
                ':',
                "colons",
                "too many spaces before colon, expected at most ",
                "too few spaces after colon, expected at least ",
                "too many spaces after colon, expected at most ",
            ),
        )
    }
}

/// What the `commas` rule reports.
pub open spec fn commas_check_spec(content: Seq<char>, c: RuleConfigV) -> Seq<ProblemV> {
    let lines = lines_spec(content);
    sep_upto(
        lines,
        lines.len() as int,
        ',',
        "commas"@,
        "too many spaces before comma, expected at most "@,
        "too few spaces after comma, expected at least "@,
        "too many spaces after comma, expected at most "@,
        int_param_or(c, "max-spaces-before"@, 0),
        int_param_or(c, "min-spaces-after"@, 1),
        int_param_or(c, "max-spaces-after"@, 1),
    )
}

/// Rule that checks comma spacing.
#[derive(Debug)]
pub struct CommasRule;

impl CommasRule {
    pub fn new() -> (r: CommasRule) {
        CommasRule
    }

    /// The unique identifier for this rule.
    pub fn id(&self) -> (r: &'static str)
        ensures
            r@ == "commas"@,
    {
        "commas"
    }

    /// A human-readable description of this rule.
    pub fn description(&self) -> (r: &'static str)
        ensures
            r@ == "Controls the use of commas in sequences and mappings"@,
    {
        "Controls the use of commas in sequences and mappings"
    }

    /// The default configuration: disabled; no space before, one after.
    pub fn default_config(&self) -> (r: RuleConfig)
        ensures
            r@ == sep_default_spec(),
            rc_get_int(r@, "max-spaces-before"@) == Some(0int),
            rc_get_int(r@, "min-spaces-after"@) == Some(1int),
            rc_get_int(r@, "max-spaces-after"@) == Some(1int),
    {
        sep_default_config()
    }

    /// Accepts a configuration whose `min-spaces-after`, if set, is
    /// non-negative.
    pub fn validate_config(&self, config: &RuleConfig) -> (r: Result<(), ConfigError>)
        ensures
            r is Ok <==> sep_cfg_ok(config@),
    {
        sep_validate(config)
    }

    /// Report comma-spacing problems.
    pub fn check(&self, context: &LintContext, config: &RuleConfig) -> (r: Result<
        Vec<Problem>,
        RuleError,
    >)
        requires
            context.wf(),
            sep_cfg_ok(config@),
            context.content@.len() + 1 < usize::MAX as int,
        ensures
            match r {
                Ok(ps) => pview(ps@) == commas_check_spec(context.content@, config@),
                Err(_) => false,
            },
    {
        Ok(
            sep_check(
                context,
                config,
                ',',
                "commas",
                "too many spaces before comma, expected at most ",
                "too few spaces after comma, expected at least ",
                "too many spaces after comma, expected at most ",
            ),
        )
    }
}

} // verus!
