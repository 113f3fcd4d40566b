//! The command-line surface: options, subcommands, and the helpers that
//! turn them into configuration.

use vstd::prelude::*;
use crate::chars::{str_chars, string_from_chars, strings_view, trim_spec};
use crate::config::Config;
use crate::linter::problem::{pview, Level, Problem, ProblemV};
use crate::parser::comments::rule_list_spec;
use crate::rules::{reg_wf, ConfigValue, RuleConfig, RuleRegistry};

verus! {

/// Output format for linting results.
#[derive(Debug, Clone, PartialEq, Eq, Structural)]
pub enum OutputFormat {
    /// Human-readable output with colors.
    Human,
    /// JSON format for machine processing.
    Json,
}

impl Default for OutputFormat {
    /// Human-readable output.
    fn default() -> (r: OutputFormat)
        ensures
            r == OutputFormat::Human,
    {
        OutputFormat::Human
    }
}

/// Migration subcommands.
#[derive(Debug, Clone)]
pub enum MigrateCommands {
    /// Convert a yamllint configuration to this linter's format.
    Config { input: String, output: Option<String> },
    /// Convert yamllint directives in YAML files.
    Directives { files: Vec<String> },
    /// Migrate an entire project.
    Project { path: String },
}

/// Plugin subcommands.
#[derive(Debug, Clone)]
pub enum PluginCommands {
    /// List loaded plugins.
    List,
    /// Load plugins from a directory.
    Load { directory: String },
}

/// Available subcommands.
#[derive(Debug, Clone)]
pub enum Commands {
    /// Start the editor-protocol server.
    Lsp,
    /// Fix auto-fixable problems in files.
    Fix { files: Vec<String>, dry_run: bool },
    /// Migrate from yamllint configuration and directives.
    Migrate { migrate_command: MigrateCommands },
    /// Plugin management.
    Plugin { plugin_command: PluginCommands },
}

/// Command-line options for the linter.
#[derive(Debug)]
pub struct Cli {
    pub command: Option<Commands>,
    /// Files or directories to lint.
    pub files: Vec<String>,
    /// Configuration file path.
    pub config: Option<String>,
    /// Output format.
    pub format: OutputFormat,
    /// Show only errors, suppress warnings.
    pub errors_only: bool,
    /// Disable specific rules (comma-separated).
    pub disable: Vec<String>,
    /// Enable specific rules (comma-separated).
    pub enable: Vec<String>,
    /// Set rule parameters (`rule.param=value`).
    pub set: Vec<String>,
    /// List all available rules and exit.
    pub list_rules: bool,
    /// Show the effective configuration and exit.
    pub show_config: bool,
    /// Enable verbose output.
    pub verbose: bool,
}

impl Default for Cli {
    /// No subcommand, no files, everything off.
    fn default() -> (r: Cli)
        ensures
            r.command is None,
            r.files@.len() == 0,
            r.config is None,
            r.format == OutputFormat::Human,
            !r.errors_only,
            r.disable@.len() == 0,
            r.enable@.len() == 0,
            r.set@.len() == 0,
            !r.list_rules,
            !r.show_config,
            !r.verbose,
    {
        Cli {
            command: None,
            files: Vec::new(),
            config: None,
            format: OutputFormat::Human,
            errors_only: false,
            disable: Vec::new(),
            enable: Vec::new(),
            set: Vec::new(),
            list_rules: false,
            show_config: false,
            verbose: false,
        }
    }
}

/// The rule names of a list of comma-separated options, in order, trimmed,
/// empty entries dropped.
pub open spec fn rule_names_spec(opts: Seq<Seq<char>>) -> Seq<Seq<char>>
    decreases opts.len(),
{
    if opts.len() == 0 {
        Seq::empty()
    } else {
        rule_list_spec(opts[0]) + rule_names_spec(opts.skip(1))
    }
}

/// One `rule.param=value` option decomposed at its first `=` and `.`.
pub open spec fn setting_spec(s: Seq<char>) -> Option<(Seq<char>, Seq<char>, Seq<char>)> {
    match crate::chars::find_char_spec(s, '=') {
        Some(e) => {
            let keypart = s.take(e);
            let value = trim_spec(s.skip(e + 1));
            match crate::chars::find_char_spec(keypart, '.') {
                Some(d) => Some(
                    (trim_spec(keypart.take(d)), trim_spec(keypart.skip(d + 1)), value),
                ),
                None => None,
            }
        },
        None => None,
    }
}

/// The well-formed settings of the `set` options, in order.
pub open spec fn settings_spec(opts: Seq<Seq<char>>) -> Seq<(Seq<char>, Seq<char>, Seq<char>)>
    decreases opts.len(),
{
    if opts.len() == 0 {
        Seq::empty()
    } else {
        (match setting_spec(opts[0]) {
            Some(t) => seq![t],
            None => Seq::empty(),
        }) + settings_spec(opts.skip(1))
    }
}

impl Cli {
    /// Parse the disable options into rule names.
    pub fn get_disabled_rules(&self) -> (r: Vec<String>)
        ensures
            strings_view(r@) == rule_names_spec(strings_view(self.disable@)),
    {
        split_rule_options(&self.disable)
    }

    /// Parse the enable options into rule names.
    pub fn get_enabled_rules(&self) -> (r: Vec<String>)
        ensures
            strings_view(r@) == rule_names_spec(strings_view(self.enable@)),
    {
        split_rule_options(&self.enable)
    }

    /// Parse the `rule.param=value` settings; malformed entries are dropped.
    pub fn get_rule_settings(&self) -> (r: Vec<(String, String, String)>)
        ensures
            Seq::new(r@.len(), |i: int| (r@[i].0@, r@[i].1@, r@[i].2@)) == settings_spec(
                strings_view(self.set@),
            ),
    {
        let ghost opts = strings_view(self.set@);
        let mut out: Vec<(String, String, String)> = Vec::new();
        let n = self.set.len();
        let mut i: usize = 0;
        proof {
            assert(opts.skip(0) =~= opts);
            assert(Seq::new(out@.len(), |k: int| (out@[k].0@, out@[k].1@, out@[k].2@))
                + settings_spec(opts.skip(0)) =~= settings_spec(opts));
        }
        while i < n
            invariant
                0 <= i <= n,
                n == self.set@.len(),
                opts == strings_view(self.set@),
                Seq::new(out@.len(), |k: int| (out@[k].0@, out@[k].1@, out@[k].2@))
                    + settings_spec(opts.skip(i as int)) == settings_spec(opts),
            decreases n - i,
        {
            let ghost outv = Seq::new(out@.len(), |k: int| (out@[k].0@, out@[k].1@, out@[k].2@));
            let chars = str_chars(self.set[i].as_str());
            proof {
                assert(opts[i as int] == self.set@[i as int]@);
                assert(opts.skip(i as int)[0] == opts[i as int]);
                assert(opts.skip(i as int).skip(1) =~= opts.skip(i + 1));
            }
            let clen = chars.len();
            match crate::chars::find_char(chars.as_slice(), '=') {
                Some(e) => {
                    proof {
                        crate::chars::lemma_find_char_spec(chars@, '=');
                    }
                    let keysub = &chars.as_slice()[0..e];
                    let valsub = &chars.as_slice()[e + 1..clen];
                    proof {
                        assert(keysub@ =~= chars@.take(e as int));
                        assert(valsub@ =~= chars@.skip(e + 1));
                    }
                    match crate::chars::find_char(keysub, '.') {
                        Some(d) => {
                            proof {
                                crate::chars::lemma_find_char_spec(keysub@, '.');
                            }
                            let klen = keysub.len();
                            let rsub = &keysub[0..d];
                            let psub = &keysub[d + 1..klen];
                            proof {
                                assert(rsub@ =~= keysub@.take(d as int));
                                assert(psub@ =~= keysub@.skip(d + 1));
                            }
                            let rulec = crate::chars::trim_slice(rsub);
                            let paramc = crate::chars::trim_slice(psub);
                            let valc = crate::chars::trim_slice(valsub);
                            let t = (
                                string_from_chars(rulec),
                                string_from_chars(paramc),
                                string_from_chars(valc),
                            );
                            out.push(t);
                            proof {
                                assert(Seq::new(
                                    out@.len(),
                                    |k: int| (out@[k].0@, out@[k].1@, out@[k].2@),
                                ) =~= outv + seq![
                                    (
                                        trim_spec(chars@.take(e as int).take(d as int)),
                                        trim_spec(chars@.take(e as int).skip(d + 1)),
                                        trim_spec(chars@.skip(e + 1)),
                                    ),
                                ]);
                            }
                        },
                        None => {
                            proof {
                                assert(outv + Seq::<(Seq<char>, Seq<char>, Seq<char>)>::empty()
                                    =~= outv);
                            }
                        },
                    }
                },
                None => {
                    proof {
                        assert(outv + Seq::<(Seq<char>, Seq<char>, Seq<char>)>::empty() =~= outv);
                    }
                },
            }
            i = i + 1;
        }
        proof {
            assert(settings_spec(opts.skip(n as int)) =~= Seq::<(
                Seq<char>,
                Seq<char>,
                Seq<char>,
            )>::empty());
            assert(Seq::new(out@.len(), |k: int| (out@[k].0@, out@[k].1@, out@[k].2@))
                + Seq::<(Seq<char>, Seq<char>, Seq<char>)>::empty() =~= Seq::new(
                out@.len(),
                |k: int| (out@[k].0@, out@[k].1@, out@[k].2@),
            ));
        }
        out
    }

    /// The files to process: the given list, or the current directory.
    pub fn get_files(&self) -> (r: Vec<String>)
        ensures
            self.files@.len() > 0 ==> strings_view(r@) == strings_view(self.files@),
            self.files@.len() == 0 ==> strings_view(r@) == seq!["."@],
    {
        if self.files.len() == 0 {
            let mut out: Vec<String> = Vec::new();
            out.push(".".to_owned());
            proof {
                assert(strings_view(out@) =~= seq!["."@]);
            }
            out
        } else {
            let n = self.files.len();
            let mut out: Vec<String> = Vec::new();
            let mut i: usize = 0;
            while i < n
                invariant
                    0 <= i <= n,
                    n == self.files@.len(),
                    out@.len() == i,
                    forall|k: int| 0 <= k < i ==> #[trigger] out@[k]@ == self.files@[k]@,
                decreases n - i,
            {
                out.push(self.files[i].clone());
                i = i + 1;
            }
            proof {
                assert(strings_view(out@) =~= strings_view(self.files@));
            }
            out
        }
    }
}

/// Split comma-separated options into names, trimmed and non-empty.
fn split_rule_options(opts: &Vec<String>) -> (r: Vec<String>)
    ensures
        strings_view(r@) == rule_names_spec(strings_view(opts@)),
{
    let ghost ov = strings_view(opts@);
    let mut out: Vec<String> = Vec::new();
    let n = opts.len();
    let mut i: usize = 0;
    proof {
        assert(ov.skip(0) =~= ov);
        assert(strings_view(out@) + rule_names_spec(ov.skip(0)) =~= rule_names_spec(ov));
    }
    while i < n
        invariant
            0 <= i <= n,
            n == opts@.len(),
            ov == strings_view(opts@),
            strings_view(out@) + rule_names_spec(ov.skip(i as int)) == rule_names_spec(ov),
        decreases n - i,
    {
        let ghost outv = strings_view(out@);
        let chars = str_chars(opts[i].as_str());
        proof {
            assert(ov[i as int] == opts@[i as int]@);
            assert(ov.skip(i as int)[0] == ov[i as int]);
            assert(ov.skip(i as int).skip(1) =~= ov.skip(i + 1));
        }
        let mut names = crate::parser::comments::parse_rule_list(chars.as_slice());
        let ghost namesv = strings_view(names@);
        out.append(&mut names);
        proof {
            assert(strings_view(out@) =~= outv + namesv);
        }
        i = i + 1;
    }
    proof {
        assert(rule_names_spec(ov.skip(n as int)) =~= Seq::<Seq<char>>::empty());
        assert(strings_view(out@) + Seq::<Seq<char>>::empty() =~= strings_view(out@));
    }
    out
}

/// Parse a string value into a configuration value: boolean, else integer,
/// else string.
pub fn parse_config_value(value: &str) -> (r: Result<
    ConfigValue,
    crate::parser::comments::DirectiveParseError,
>)
    ensures
        match r {
            Ok(v) => v@ == crate::config::inline::coerce_value_spec(value@),
            Err(_) => false,
        },
{
    crate::config::inline::InlineConfigManager::parse_config_value(value)
}

/// Keep every problem, or only the errors, as the options direct.
pub open spec fn filter_results_spec(
    rs: Seq<(Seq<char>, Seq<ProblemV>)>,
    errors_only: bool,
) -> Seq<(Seq<char>, Seq<ProblemV>)> {
    if !errors_only {
        rs
    } else {
        Seq::new(rs.len(), |i: int| (rs[i].0, errors_of(rs[i].1)))
    }
}

/// Only the problems at `Error` level.
pub open spec fn errors_of(ps: Seq<ProblemV>) -> Seq<ProblemV>
    decreases ps.len(),
{
    if ps.len() == 0 {
        ps
    } else {
        (if ps[0].level == Level::Error {
            seq![ps[0]]
        } else {
            Seq::empty()
        }) + errors_of(ps.skip(1))
    }
}

/// Filter results based on the command-line options.
pub fn filter_results(results: Vec<(String, Vec<Problem>)>, cli: &Cli) -> (r: Vec<
    (String, Vec<Problem>),
>)
    ensures
        crate::output::results_view(r@) == filter_results_spec(
            crate::output::results_view(results@),
            cli.errors_only,
        ),
{
    if !cli.errors_only {
        return results;
    }
    let ghost rv = crate::output::results_view(results@);
    let mut out: Vec<(String, Vec<Problem>)> = Vec::new();
    let mut rest = results;
    let ghost total = rv.len();
    while rest.len() > 0
        invariant
            rest@.len() <= total,
            total == rv.len(),
            crate::output::results_view(rest@) == rv.skip(total - rest@.len()),
            out@.len() == total - rest@.len(),
            forall|k: int|
                0 <= k < out@.len() ==> (#[trigger] out@[k].0@, pview(out@[k].1@)) == (
                    rv[k].0,
                    errors_of(rv[k].1),
                ),
        decreases rest@.len(),
    {
        let ghost i = total - rest@.len();
        let (path, probs) = rest.remove(0);
        proof {
            assert(crate::output::results_view(rest@) =~= rv.skip(i).skip(1));
            assert(rv.skip(i).skip(1) =~= rv.skip(i + 1));
            assert((path@, pview(probs@)) == rv.skip(i)[0]);
            assert(rv.skip(i)[0] == rv[i]);
        }
        let ghost pv = pview(probs@);
        let mut kept: Vec<Problem> = Vec::new();
        let mut prest = probs;
        proof {
            assert(pview(prest@) =~= pv.skip(0));
            assert(pview(kept@) + errors_of(pv.skip(0)) =~= errors_of(pv));
        }
        while prest.len() > 0
            invariant
                pview(prest@).len() == prest@.len(),
                pview(kept@) + errors_of(pview(prest@)) == errors_of(pv),
            decreases prest@.len(),
        {
            let ghost restv = pview(prest@);
            let p = prest.remove(0);
            proof {
                assert(pview(prest@) =~= restv.skip(1));
                assert(p@ == restv[0]);
            }
            let keep = match p.level {
                Level::Error => true,
                _ => false,
            };
            if keep {
                let ghost pre = pview(kept@);
                kept.push(p);
                proof {
                    assert(pview(kept@) =~= pre + seq![p@]);
                    crate::linter::problem::lemma_pv_assoc(
                        pre,
                        seq![p@],
                        errors_of(restv.skip(1)),
                    );
                }
            } else {
                proof {
                    assert(errors_of(restv) =~= Seq::<ProblemV>::empty() + errors_of(
                        restv.skip(1),
                    ));
                    assert(Seq::<ProblemV>::empty() + errors_of(restv.skip(1)) =~= errors_of(
                        restv.skip(1),
                    ));
                }
            }
        }
        proof {
            assert(errors_of(pview(prest@)) =~= Seq::<ProblemV>::empty());
            assert(pview(kept@) + Seq::<ProblemV>::empty() =~= pview(kept@));
        }
        out.push((path, kept));
    }
    proof {
        assert(crate::output::results_view(out@) =~= filter_results_spec(rv, true));
    }
    out
}

/// Apply command-line overrides to a configuration: disable and enable the
/// named rules, then apply the parameter settings.
pub fn apply_cli_overrides(config: &mut Config, cli: &Cli) -> (r: Result<
    (),
    crate::parser::comments::DirectiveParseError,
>)
    ensures
        r is Err ==> exists|k: int|
            0 <= k < settings_spec(strings_view(cli.set@)).len() && (#[trigger] settings_spec(
                strings_view(cli.set@),
            )[k]).1 == "enabled"@ && crate::chars::parse_bool_spec(
                settings_spec(strings_view(cli.set@))[k].2,
            ) is None,
{
    let registry = RuleRegistry::with_default_rules();
    let disabled = cli.get_disabled_rules();
    let dn = disabled.len();
    let mut i: usize = 0;
    while i < dn
        invariant
            0 <= i <= dn,
            dn == disabled@.len(),
            reg_wf(registry.rules@),
        decreases dn - i,
    {
        let rid = disabled[i].as_str();
        let mut cfg = match config.rules.get(rid) {
            Some(c) => c.duplicate(),
            None => {
                match registry.get(rid) {
                    Some(rule) => {
                        proof {
                            crate::config::lemma_reg_find_wf(registry.rules@, rid@);
                        }
                        rule.default_config()
                    },
                    None => RuleConfig::new(true, Level::Error),
                }
            },
        };
        cfg.enabled = false;
        config.rules.set(rid.to_owned(), cfg);
        i = i + 1;
    }
    let enabled = cli.get_enabled_rules();
    let en = enabled.len();
    let mut j: usize = 0;
    while j < en
        invariant
            0 <= j <= en,
            en == enabled@.len(),
            reg_wf(registry.rules@),
        decreases en - j,
    {
        let rid = enabled[j].as_str();
        let mut cfg = match config.rules.get(rid) {
            Some(c) => c.duplicate(),
            None => {
                match registry.get(rid) {
                    Some(rule) => {
                        proof {
                            crate::config::lemma_reg_find_wf(registry.rules@, rid@);
                        }
                        rule.default_config()
                    },
                    None => RuleConfig::new(true, Level::Error),
                }
            },
        };
        cfg.enabled = true;
        config.rules.set(rid.to_owned(), cfg);
        j = j + 1;
    }
    let settings = cli.get_rule_settings();
    let ghost ssv = settings_spec(strings_view(cli.set@));
    let sn = settings.len();
    let mut s: usize = 0;
    while s < sn
        invariant
            0 <= s <= sn,
            sn == settings@.len(),
            reg_wf(registry.rules@),
            ssv == settings_spec(strings_view(cli.set@)),
            Seq::new(settings@.len(), |k: int| (settings@[k].0@, settings@[k].1@, settings@[k].2@))
                == ssv,
        decreases sn - s,
    {
        let rid = settings[s].0.as_str();
        let param = settings[s].1.as_str();
        let value = settings[s].2.as_str();
        let mut cfg = match config.rules.get(rid) {
            Some(c) => c.duplicate(),
            None => {
                match registry.get(rid) {
                    Some(rule) => {
                        proof {
                            crate::config::lemma_reg_find_wf(registry.rules@, rid@);
                        }
                        rule.default_config()
                    },
                    None => RuleConfig::new(true, Level::Error),
                }
            },
        };
        let is_enabled_key = crate::chars::str_eq(param, "enabled");
        if is_enabled_key {
            let vchars = str_chars(value);
            match crate::chars::parse_bool(vchars.as_slice()) {
                Some(b) => {
                    cfg.enabled = b;
                },
                None => {
                    proof {
                        assert(ssv[s as int] == (
                            settings@[s as int].0@,
                            settings@[s as int].1@,
                            settings@[s as int].2@,
                        ));
                        assert(ssv[s as int].1 == "enabled"@ && crate::chars::parse_bool_spec(
                            ssv[s as int].2,
                        ) is None);
                    }
                    return Err(
                        crate::parser::comments::DirectiveParseError {
                            message: "Invalid boolean value for enabled".to_owned(),
                        },
                    );
                },
            }
        } else {
            match parse_config_value(value) {
                Ok(v) => {
                    cfg.set_param(param, v);
                },
                Err(_) => {
                    proof {
                        assert(false);
                    }
                },
            }
        }
        config.rules.set(rid.to_owned(), cfg);
        s = s + 1;
    }
    Ok(())
}

} // verus!
