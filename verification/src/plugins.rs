//! The plugin capability and the built-in example.
//!
//! Loading rule implementations from shared libraries crosses an unsafe
//! module boundary and stays outside the verified library; the capability
//! each plugin offers, and the example instance, are here.

use vstd::prelude::*;
use crate::chars::{find_sub, find_sub_spec, lines_spec, views_of};
use crate::linter::context::LintContext;
use crate::linter::problem::{pview, Level, Problem, ProblemV};
use crate::rules::{ConfigError, RuleConfig, RuleError};

verus! {

/// What a plugin names about itself.
pub trait RulePlugin {
    /// The plugin name.
    fn name(&self) -> &'static str;

    /// The plugin version.
    fn version(&self) -> &'static str;

    /// The plugin description.
    fn description(&self) -> &'static str;
}

/// Example built-in plugin for demonstration.
#[derive(Debug)]
pub struct ExamplePlugin;

impl RulePlugin for ExamplePlugin {
    fn name(&self) -> &'static str {
        "example-plugin"
    }

    fn version(&self) -> &'static str {
        "1.0.0"
    }

    fn description(&self) -> &'static str {
        "Example plugin demonstrating the plugin system"
    }
}

/// The problems the example rule reports for the first `n` lines: each line
/// that mentions a to-do marker, at the marker's position.
pub open spec fn ex_upto(lines: Seq<Seq<char>>, n: int) -> Seq<ProblemV>
    decreases n,
{
    if n <= 0 {
        Seq::empty()
    } else {
        ex_upto(lines, n - 1) + (match find_sub_spec(lines[n - 1], "TODO"@) {
            Some(i) => seq![
                ProblemV {
                    line: n,
                    column: i + 1,
                    level: Level::Info,
                    rule: "example-rule"@,
                    message: "Found TODO comment"@,
                    suggestion: None,
                },
            ],
            None => Seq::empty(),
        })
    }
}

/// Example rule for the example plugin.
#[derive(Debug)]
pub struct ExampleRule;

impl ExampleRule {
    /// The unique identifier for this rule.
    pub fn id(&self) -> (r: &'static str)
        ensures
            r@ == "example-rule"@,
    {
        "example-rule"
    }

    /// A human-readable description of this rule.
    pub fn description(&self) -> (r: &'static str)
        ensures
            r@ == "Example rule from plugin system"@,
    {
        "Example rule from plugin system"
    }

    /// The default configuration: disabled, at `Info`.
    pub fn default_config(&self) -> (r: RuleConfig)
        ensures
            r@ == (crate::rules::RuleConfigV {
                enabled: false,
                level: Level::Info,
                params: Seq::empty(),
            }),
    {
        RuleConfig::new(false, Level::Info)
    }

    /// Accepts any configuration.
    pub fn validate_config(&self, _config: &RuleConfig) -> (r: Result<(), ConfigError>)
        ensures
            r is Ok,
    {
        Ok(())
    }

    /// Report each line that mentions a to-do marker.
    pub fn check(&self, context: &LintContext, _config: &RuleConfig) -> (r: Result<
        Vec<Problem>,
        RuleError,
    >)
        requires
            context.wf(),
            context.content@.len() + 1 < usize::MAX as int,
        ensures
            match r {
                Ok(ps) => pview(ps@) == ({
                    let lines = lines_spec(context.content@);
                    ex_upto(lines, lines.len() as int)
                }),
                Err(_) => false,
            },
    {
        let ghost linesv = lines_spec(context.content@);
        let mut problems: Vec<Problem> = Vec::new();
        let n = context.lines.len();
        let mut li: usize = 0;
        proof {
            assert(views_of(context.lines@) == linesv);
            assert(pview(problems@) =~= ex_upto(linesv, 0));
        }
        while li < n
            invariant
                0 <= li <= n,
                context.wf(),
                context.content@.len() + 1 < usize::MAX as int,
                n == context.lines@.len(),
                linesv == lines_spec(context.content@),
                views_of(context.lines@) == linesv,
                pview(problems@) == ex_upto(linesv, li as int),
            decreases n - li,
        {
            let line: &Vec<char> = &context.lines[li];
            proof {
                assert(linesv[li as int] == line@);
                crate::chars::lemma_lines_len_le(context.content@);
                assert(line@.len() <= context.content@.len());
            }
            match find_sub(line.as_slice(), "TODO") {
                Some(i) => {
                    proof {
                        crate::chars::lemma_find_sub_spec(line@, "TODO"@);
                        reveal_strlit("TODO");
                        assert(("TODO"@).len() == 4);
                    }
                    let p = Problem::new(li + 1, i + 1, Level::Info, "example-rule",
                        "Found TODO comment");
                    let ghost pre = problems@;
                    problems.push(p);
                    proof {
                        assert(pview(problems@) =~= pview(pre) + seq![p@]);
                    }
                },
                None => {},
            }
            proof {
                assert(ex_upto(linesv, li + 1) == ex_upto(linesv, li as int) + (
                match find_sub_spec(linesv[li as int], "TODO"@) {
                    Some(i2) => seq![
                        ProblemV {
                            line: li + 1,
                            column: i2 + 1,
                            level: Level::Info,
                            rule: "example-rule"@,
                            message: "Found TODO comment"@,
                            suggestion: None,
                        },
                    ],
                    None => Seq::empty(),
                }));
                assert(pview(problems@) =~= ex_upto(linesv, li + 1));
            }
            li = li + 1;
        }
        Ok(problems)
    }
}

} // verus!
