//! Configuration: base settings and per-file inline overrides.

pub mod inline;

use vstd::prelude::*;
use crate::chars::{
    find_sub, find_sub_spec, is_prefix_spec, prefix_at, replace_all, replace_all_spec, str_chars,
    string_from_chars, strings_view,
};
use crate::config::inline::{cfg_get, cfg_set, CfgMapV, ConfigMap};
use crate::linter::problem::Level;
use crate::rules::{
    reg_find, rule_default_of, rule_id_of, rule_wf, AnyRule, RuleConfig, RuleConfigV,
    RuleRegistry,
};

verus! {

/// What a compiled pattern reports for a text: whether the expression,
/// compiled as a regular expression, matches somewhere in the text; `false`
/// also stands for a pattern that does not compile.
pub uninterp spec fn regex_search(pattern: Seq<char>, text: Seq<char>) -> bool;

/// Relies on regex::Regex::new and Regex::is_match: compiling a pattern and
/// matching it against a text depend on the pattern and the text alone.
#[verifier::external_body]
fn regex_is_match(pattern: &str, text: &str) -> (r: bool)
    ensures
        r == regex_search(pattern@, text@),
{
    regex::Regex::new(pattern).map(|re| re.is_match(text)).unwrap_or(false)
}

/// The mathematical value of a `Config`.
pub ghost struct ConfigV {
    pub extends: Option<Seq<char>>,
    pub rules: CfgMapV,
    pub ignore: Seq<Seq<char>>,
    pub yaml_files: Seq<Seq<char>>,
}

/// Main configuration for the linter.
#[derive(Debug)]
pub struct Config {
    /// Base configuration to extend from.
    pub extends: Option<String>,
    /// Rule-specific configurations.
    pub rules: ConfigMap,
    /// File patterns to ignore.
    pub ignore: Vec<String>,
    /// File patterns that should be treated as YAML files.
    pub yaml_files: Vec<String>,
}

impl View for Config {
    type V = ConfigV;

    open spec fn view(&self) -> ConfigV {
        ConfigV {
            extends: match self.extends {
                Some(ref s) => Some(s@),
                None => None,
            },
            rules: self.rules@,
            ignore: strings_view(self.ignore@),
            yaml_files: strings_view(self.yaml_files@),
        }
    }
}

/// Whether one ignore or yaml-file pattern applies to a path: a pattern with
/// a `*` is tried as a regular expression with each `*` widened, a plain
/// ignore pattern by substring, a plain yaml-file pattern by suffix.
pub open spec fn pattern_hits(pat: Seq<char>, path: Seq<char>, suffix_mode: bool) -> bool {
    if crate::chars::find_char_spec(pat, '*') is Some {
        regex_search(replace_all_spec(pat, "*"@, ".*"@), path)
    } else if suffix_mode {
        pat.len() <= path.len() && path.skip(path.len() - pat.len()) == pat
    } else {
        find_sub_spec(path, pat) is Some
    }
}

/// Whether any pattern in the list applies.
pub open spec fn any_pattern_hits(
    pats: Seq<Seq<char>>,
    path: Seq<char>,
    suffix_mode: bool,
) -> bool
    decreases pats.len(),
{
    if pats.len() == 0 {
        false
    } else {
        pattern_hits(pats[0], path, suffix_mode) || any_pattern_hits(
            pats.skip(1),
            path,
            suffix_mode,
        )
    }
}

/// The effective configuration of one rule against a base configuration: an
/// explicit entry, else the registry rule's default, else the generic
/// default.
pub open spec fn resolve_base(cfgv: ConfigV, regs: Seq<AnyRule>, id: Seq<char>) -> RuleConfigV {
    match cfg_get(cfgv.rules, id) {
        Some(c) => c,
        None => match reg_find(regs, id) {
            Some(r) => rule_default_of(r),
            None => RuleConfigV { enabled: true, level: Level::Error, params: Seq::empty() },
        },
    }
}

/// The rule map built from a registry's defaults.
pub open spec fn build_default_rules(rs: Seq<AnyRule>, acc: CfgMapV) -> CfgMapV
    decreases rs.len(),
{
    if rs.len() == 0 {
        acc
    } else {
        build_default_rules(rs.skip(1), cfg_set(acc, rule_id_of(rs[0]), rule_default_of(rs[0])))
    }
}

/// The default configuration value: every built-in rule at its own default,
/// with the stock ignore and yaml-file patterns.
pub open spec fn default_config_spec() -> ConfigV {
    ConfigV {
        extends: None,
        rules: build_default_rules(crate::rules::default_registry_seq(), Seq::empty()),
        ignore: seq!["*.generated.yaml"@, "*.generated.yml"@, ".git/**"@, "node_modules/**"@],
        yaml_files: seq!["*.yaml"@, "*.yml"@, ".yamllint"@],
    }
}

/// A rule map with every entry's level replaced.
pub open spec fn set_levels(m: CfgMapV, lvl: Level) -> CfgMapV {
    Seq::new(
        m.len(),
        |i: int|
            (
                m[i].0,
                RuleConfigV { enabled: m[i].1.enabled, level: lvl, params: m[i].1.params },
            ),
    )
}

impl Config {
    /// Get the effective configuration for a rule.
    pub fn get_rule_config(&self, rule_id: &str, registry: &RuleRegistry) -> (r: RuleConfig)
        requires
            crate::rules::reg_wf(registry.rules@),
        ensures
            r@ == resolve_base(self@, registry.rules@, rule_id@),
    {
        match self.rules.get(rule_id) {
            Some(c) => c.duplicate(),
            None => {
                match registry.get(rule_id) {
                    Some(rule) => {
                        proof {
                            lemma_reg_find_wf(registry.rules@, rule_id@);
                        }
                        rule.default_config()
                    },
                    None => RuleConfig::new(true, Level::Error),
                }
            },
        }
    }

    /// Whether a path is excluded by the ignore patterns.
    pub fn is_file_ignored(&self, file_path: &str) -> (r: bool)
        ensures
            r == any_pattern_hits(self@.ignore, file_path@, false),
    {
        let n = self.ignore.len();
        let mut i: usize = 0;
        let ghost pats = strings_view(self.ignore@);
        proof {
            assert(pats.skip(0) =~= pats);
        }
        while i < n
            invariant
                0 <= i <= n,
                n == self.ignore@.len(),
                pats == strings_view(self.ignore@),
                any_pattern_hits(pats, file_path@, false) == any_pattern_hits(
                    pats.skip(i as int),
                    file_path@,
                    false,
                ),
            decreases n - i,
        {
            proof {
                assert(pats.skip(i as int)[0] == pats[i as int]);
                assert(pats[i as int] == self.ignore@[i as int]@);
                assert(pats.skip(i as int).skip(1) =~= pats.skip(i + 1));
            }
            if pattern_applies(self.ignore[i].as_str(), file_path, false) {
                return true;
            }
            i = i + 1;
        }
        false
    }

    /// Whether a path should be treated as a YAML file.
    pub fn is_yaml_file(&self, file_path: &str) -> (r: bool)
        ensures
            r == any_pattern_hits(self@.yaml_files, file_path@, true),
    {
        let n = self.yaml_files.len();
        let mut i: usize = 0;
        let ghost pats = strings_view(self.yaml_files@);
        proof {
            assert(pats.skip(0) =~= pats);
        }
        while i < n
            invariant
                0 <= i <= n,
                n == self.yaml_files@.len(),
                pats == strings_view(self.yaml_files@),
                any_pattern_hits(pats, file_path@, true) == any_pattern_hits(
                    pats.skip(i as int),
                    file_path@,
                    true,
                ),
            decreases n - i,
        {
            proof {
                assert(pats.skip(i as int)[0] == pats[i as int]);
                assert(pats[i as int] == self.yaml_files@[i as int]@);
                assert(pats.skip(i as int).skip(1) =~= pats.skip(i + 1));
            }
            if pattern_applies(self.yaml_files[i].as_str(), file_path, true) {
                return true;
            }
            i = i + 1;
        }
        false
    }

    /// Merge this configuration with a base configuration: explicit rules
    /// win, empty pattern lists fall back to the base.
    pub fn merge_with_base(self, base: Config) -> (r: Config)
        ensures
            r@.extends == self@.extends,
            r@.rules == merged_rules_spec(base@.rules, self@.rules),
            r@.ignore == (if self@.ignore.len() == 0 {
                base@.ignore
            } else {
                self@.ignore
            }),
            r@.yaml_files == (if self@.yaml_files.len() == 0 {
                base@.yaml_files
            } else {
                self@.yaml_files
            }),
    {
        let ghost selfv = self@;
        let ghost basev = base@;
        let mut merged = base.rules;
        let ghost own = self.rules@;
        let mut rest = self.rules;
        let n = rest.entries.len();
        let mut i: usize = 0;
        proof {
            assert(own.skip(0) =~= own);
        }
        while i < n
            invariant
                0 <= i <= n,
                n == rest.entries@.len(),
                own == rest@,
                merged_rules_spec(merged@, own.skip(i as int)) == merged_rules_spec(
                    basev.rules,
                    own,
                ),
            decreases n - i,
        {
            let name = rest.entries[i].0.clone();
            let value = rest.entries[i].1.duplicate();
            proof {
                assert(own[i as int] == (rest.entries@[i as int].0@, rest.entries@[i as int].1@));
                assert(own.skip(i as int)[0] == own[i as int]);
                assert(own.skip(i as int).skip(1) =~= own.skip(i + 1));
            }
            merged.set(name, value);
            i = i + 1;
        }
        proof {
            assert(merged_rules_spec(merged@, own.skip(n as int)) == merged@);
        }
        let ignore = if self.ignore.len() == 0 {
            base.ignore
        } else {
            self.ignore
        };
        let yaml_files = if self.yaml_files.len() == 0 {
            base.yaml_files
        } else {
            self.yaml_files
        };
        let r = Config { extends: self.extends, rules: merged, ignore, yaml_files };
        proof {
            if selfv.ignore.len() == 0 {
                assert(strings_view(r.ignore@) == basev.ignore);
            }
            if selfv.yaml_files.len() == 0 {
                assert(strings_view(r.yaml_files@) == basev.yaml_files);
            }
        }
        r
    }

    /// A configuration whose rules all report at `Error` level.
    pub fn strict() -> (r: Config)
        ensures
            r@ == (ConfigV { rules: set_levels(default_config_spec().rules, Level::Error), ..default_config_spec() }),
    {
        let base = Config::default();
        relevel(base, Level::Error)
    }

    /// A configuration whose rules all report at `Warning` level.
    pub fn relaxed() -> (r: Config)
        ensures
            r@ == (ConfigV { rules: set_levels(default_config_spec().rules, Level::Warning), ..default_config_spec() }),
    {
        let base = Config::default();
        relevel(base, Level::Warning)
    }
}

/// The base rule map with every own entry bound on top.
pub open spec fn merged_rules_spec(base: CfgMapV, own: CfgMapV) -> CfgMapV
    decreases own.len(),
{
    if own.len() == 0 {
        base
    } else {
        merged_rules_spec(cfg_set(base, own[0].0, own[0].1), own.skip(1))
    }
}

/// A well-formed registry's find yields a well-formed rule.
pub proof fn lemma_reg_find_wf(rs: Seq<AnyRule>, id: Seq<char>)
    requires
        crate::rules::reg_wf(rs),
    ensures
        match reg_find(rs, id) {
            Some(r) => rule_wf(r),
            None => true,
        },
    decreases rs.len(),
{
    if rs.len() == 0 {
    } else if rule_id_of(rs[0]) == id {
        assert(rule_wf(rs[0]));
    } else {
        assert forall|i: int| 0 <= i < rs.skip(1).len() implies rule_wf(
            #[trigger] rs.skip(1)[i],
        ) by {
            assert(rs.skip(1)[i] == rs[i + 1]);
        }
        lemma_reg_find_wf(rs.skip(1), id);
    }
}

/// Whether one pattern applies to a path.
fn pattern_applies(pat: &str, path: &str, suffix_mode: bool) -> (r: bool)
    ensures
        r == pattern_hits(pat@, path@, suffix_mode),
{
    let patc = str_chars(pat);
    let pathc = str_chars(path);
    match crate::chars::find_char(patc.as_slice(), '*') {
        Some(_) => {
            let widened = replace_all(patc.as_slice(), "*", ".*");
            let ws = string_from_chars(widened.as_slice());
            regex_is_match(ws.as_str(), path)
        },
        None => {
            if suffix_mode {
                let plen = patc.len();
                let slen = pathc.len();
                if plen > slen {
                    return false;
                }
                let hit = prefix_at(pathc.as_slice(), slen - plen, pat);
                proof {
                    if is_prefix_spec(pat@, path@.skip(slen - plen)) {
                        assert(path@.skip(slen - plen).subrange(0, pat@.len() as int)
                            =~= path@.skip(slen - plen));
                    }
                    if path@.skip(slen - plen) == pat@ {
                        assert(path@.skip(slen - plen).subrange(0, pat@.len() as int)
                            =~= path@.skip(slen - plen));
                    }
                }
                hit
            } else {
                match find_sub(pathc.as_slice(), pat) {
                    Some(_) => true,
                    None => false,
                }
            }
        },
    }
}

/// A configuration with every rule's level replaced.
fn relevel(base: Config, lvl: Level) -> (r: Config)
    ensures
        r@ == (ConfigV { rules: set_levels(base@.rules, lvl), ..base@ }),
{
    let mut entries: Vec<(String, RuleConfig)> = Vec::new();
    let n = base.rules.entries.len();
    let mut i: usize = 0;
    while i < n
        invariant
            0 <= i <= n,
            n == base.rules.entries@.len(),
            entries@.len() == i,
            forall|k: int|
                0 <= k < i ==> (#[trigger] entries@[k].0@, entries@[k].1@) == (
                    base.rules@[k].0,
                    RuleConfigV {
                        enabled: base.rules@[k].1.enabled,
                        level: lvl,
                        params: base.rules@[k].1.params,
                    },
                ),
        decreases n - i,
    {
        let name = base.rules.entries[i].0.clone();
        let mut cfg = base.rules.entries[i].1.duplicate();
        cfg.level = lvl;
        proof {
            assert(base.rules@[i as int] == (
                base.rules.entries@[i as int].0@,
                base.rules.entries@[i as int].1@,
            ));
        }
        entries.push((name, cfg));
        i = i + 1;
    }
    let r = Config {
        extends: base.extends,
        rules: ConfigMap { entries },
        ignore: base.ignore,
        yaml_files: base.yaml_files,
    };
    proof {
        assert(r.rules@ =~~= set_levels(base.rules@, lvl));
    }
    r
}

impl Default for Config {
    /// Every built-in rule at its own default, with the stock ignore and
    /// yaml-file patterns.
    fn default() -> (r: Config)
        ensures
            r@ == default_config_spec(),
    {
        let registry = RuleRegistry::with_default_rules();
        let mut rules = ConfigMap::new();
        let n = registry.rules.len();
        let mut i: usize = 0;
        let ghost regs = registry.rules@;
        proof {
            assert(regs.skip(0) =~= regs);
        }
        while i < n
            invariant
                0 <= i <= n,
                n == registry.rules@.len(),
                regs == registry.rules@,
                regs == crate::rules::default_registry_seq(),
                crate::rules::reg_wf(regs),
                build_default_rules(regs.skip(i as int), rules@) == build_default_rules(
                    regs,
                    Seq::empty(),
                ),
            decreases n - i,
        {
            let rule = &registry.rules[i];
            let id = rule.id().to_owned();
            let cfg = rule.default_config();
            proof {
                assert(regs.skip(i as int)[0] == regs[i as int]);
                assert(regs.skip(i as int).skip(1) =~= regs.skip(i + 1));
            }
            rules.set(id, cfg);
            i = i + 1;
        }
        proof {
            assert(build_default_rules(regs.skip(n as int), rules@) == rules@);
        }
        let mut ignore: Vec<String> = Vec::new();
        ignore.push("*.generated.yaml".to_owned());
        ignore.push("*.generated.yml".to_owned());
        ignore.push(".git/**".to_owned());
        ignore.push("node_modules/**".to_owned());
        let mut yaml_files: Vec<String> = Vec::new();
        yaml_files.push("*.yaml".to_owned());
        yaml_files.push("*.yml".to_owned());
        yaml_files.push(".yamllint".to_owned());
        let r = Config { extends: None, rules, ignore, yaml_files };
        proof {
            assert(strings_view(r.ignore@) =~= default_config_spec().ignore);
            assert(strings_view(r.yaml_files@) =~= default_config_spec().yaml_files);
        }
        r
    }
}

} // verus!
