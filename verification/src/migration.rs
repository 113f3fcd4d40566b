//! Conversion from yamllint configuration names and directives.

use vstd::prelude::*;
use crate::chars::{
    find_char_spec, find_sub, find_sub_spec, is_prefix_spec, lemma_find_sub_spec, prefix_at,
    replace_all, replace_all_spec, str_chars, str_eq, string_from_chars,
};
use crate::config::Config;
use crate::linter::problem::{level_name, Level};
use crate::rules::RuleConfig;

verus! {

/// The rule this linter uses for a yamllint rule name; unknown names pass
/// through.
pub open spec fn convert_rule_name_spec(n: Seq<char>) -> Seq<char> {
    if n == "comments-indentation"@ {
        "comments"@
    } else if n == "document-end"@ {
        "document-structure"@
    } else if n == "document-start"@ {
        "document-structure"@
    } else if n == "empty-values"@ {
        "truthy"@
    } else {
        n
    }
}

/// Migration utilities for converting from yamllint.
#[derive(Debug)]
pub struct YamllintMigrator;

impl YamllintMigrator {
    /// The rule this linter uses for a yamllint rule name.
    pub fn convert_rule_name(yamllint_name: &str) -> (r: String)
        ensures
            r@ == convert_rule_name_spec(yamllint_name@),
    {
        if str_eq(yamllint_name, "comments-indentation") {
            "comments".to_owned()
        } else if str_eq(yamllint_name, "document-end") {
            "document-structure".to_owned()
        } else if str_eq(yamllint_name, "document-start") {
            "document-structure".to_owned()
        } else if str_eq(yamllint_name, "empty-values") {
            "truthy".to_owned()
        } else {
            yamllint_name.to_owned()
        }
    }

    /// The extends name this linter uses for a yamllint extends name;
    /// every name passes through.
    pub fn convert_extends(extends: &str) -> (r: String)
        ensures
            r@ == extends@,
    {
        extends.to_owned()
    }

    /// Convert yamllint directives in YAML content to this linter's
    /// directives: the rule-naming forms first, the bare forms after.
    pub fn convert_directives(content: &str) -> (r: String) {
        let chars = str_chars(content);
        let s1 = convert_rule_directive(
            chars.as_slice(),
            "# yamllint disable-line rule:",
            "# yl:disable-line ",
        );
        let s2 = convert_rule_directive(
            s1.as_slice(),
            "# yamllint disable rule:",
            "# yl:disable ",
        );
        let s3 = convert_rule_directive(
            s2.as_slice(),
            "# yamllint enable rule:",
            "# yl:enable ",
        );
        let s4 = replace_all(s3.as_slice(), "# yamllint disable-line", "# yl:disable-line");
        let s5 = replace_all(s4.as_slice(), "# yamllint disable", "# yl:disable");
        let s6 = replace_all(s5.as_slice(), "# yamllint enable", "# yl:enable");
        string_from_chars(s6.as_slice())
    }

    /// Render a migration report for a converted configuration.
    pub fn generate_migration_report(_original_config: &str, converted_config: &Config) -> (r:
        Result<String, crate::rules::RuleError>)
        ensures
            r is Ok,
    {
        let mut report = "# YL Migration Report\n\n".to_owned();
        report.append("## Original yamllint configuration converted to yl format\n\n");
        match &converted_config.extends {
            Some(extends) => {
                report.append("**Extends**: ");
                report.append(extends.as_str());
                report.append("\n\n");
            },
            None => {},
        }
        report.append("## Converted Rules\n\n");
        let n = converted_config.rules.entries.len();
        let mut i: usize = 0;
        while i < n
            invariant
                0 <= i <= n,
                n == converted_config.rules.entries@.len(),
            decreases n - i,
        {
            let name = &converted_config.rules.entries[i].0;
            let cfg: &RuleConfig = &converted_config.rules.entries[i].1;
            report.append("- **");
            report.append(name.as_str());
            report.append("**: ");
            if cfg.enabled {
                report.append("enabled (");
                let lvl = cfg.level.to_string();
                report.append(lvl.as_str());
                report.append(")");
            } else {
                report.append("disabled");
            }
            let pn = cfg.params.entries.len();
            if pn > 0 {
                report.append(" with parameters:");
                let mut k: usize = 0;
                while k < pn
                    invariant
                        0 <= k <= pn,
                        0 <= i < n,
                        n == converted_config.rules.entries@.len(),
                        pn == converted_config.rules.entries@[i as int].1.params.entries@.len(),
                    decreases pn - k,
                {
                    report.append("\n  - ");
                    report.append(
                        converted_config.rules.entries[i].1.params.entries[k].0.as_str(),
                    );
                    report.append(": ");
                    let rendered = render_value(
                        &converted_config.rules.entries[i].1.params.entries[k].1,
                    );
                    report.append(rendered.as_str());
                    k = k + 1;
                }
            }
            report.append("\n");
            i = i + 1;
        }
        if converted_config.ignore.len() > 0 {
            report.append("\n## Ignore Patterns\n\n");
            let gn = converted_config.ignore.len();
            let mut g: usize = 0;
            while g < gn
                invariant
                    0 <= g <= gn,
                    gn == converted_config.ignore@.len(),
                decreases gn - g,
            {
                report.append("- ");
                report.append(converted_config.ignore[g].as_str());
                report.append("\n");
                g = g + 1;
            }
        }
        report.append("\n## Migration Notes\n\n");
        report.append(
            "- All yamllint directives in YAML files should be converted using `yl migrate-directives`\n",
        );
        report.append("- Some rule names may have been mapped to equivalent yl rules\n");
        report.append("- Review the converted configuration and adjust as needed\n");
        Ok(report)
    }
}

/// Render a configuration value for the report.
fn render_value(v: &crate::rules::ConfigValue) -> (r: String)
    decreases *v,
{
    match v {
        crate::rules::ConfigValue::Bool(b) => {
            if *b {
                "Bool(true)".to_owned()
            } else {
                "Bool(false)".to_owned()
            }
        },
        crate::rules::ConfigValue::Int(iv) => {
            let mut out = "Int(".to_owned();
            let neg = *iv < 0;
            let mag: u64 = if *iv == i64::MIN {
                9223372036854775808u64
            } else if neg {
                (-*iv) as u64
            } else {
                *iv as u64
            };
            if neg {
                out.append("-");
            }
            let d = crate::chars::u64_to_string(mag);
            out.append(d.as_str());
            out.append(")");
            out
        },
        crate::rules::ConfigValue::String(sv) => {
            let mut out = "String(\"".to_owned();
            out.append(sv.as_str());
            out.append("\")");
            out
        },
        crate::rules::ConfigValue::Array(a) => {
            let mut out = "Array[".to_owned();
            let n = a.len();
            let mut i: usize = 0;
            while i < n
                invariant
                    0 <= i <= n,
                    n == a@.len(),
                    v == crate::rules::ConfigValue::Array(*a),
                decreases n - i,
            {
                proof {
                    assert(*a == v->Array_0);
                    assert(decreases_to!(*v => v->Array_0));
                    vstd::std_specs::vec::axiom_vec_index_decreases(*a, i as int);
                    assert(decreases_to!(*v => a@[i as int]));
                }
                if i > 0 {
                    out.append(", ");
                }
                let item = render_value(&a[i]);
                out.append(item.as_str());
                i = i + 1;
            }
            out.append("]");
            out
        },
    }
}

/// Replace each `lit` followed by a rule name with `rep` followed by the
/// same name, left to right.
fn convert_rule_directive(v: &[char], lit: &str, rep: &str) -> (r: Vec<char>)
    decreases v@.len(),
{
    let litc = str_chars(lit);
    let llen = litc.len();
    if llen == 0 {
        return vstd::slice::slice_to_vec(v);
    }
    let vlen = v.len();
    let mut i: usize = 0;
    while i < vlen
        invariant
            0 <= i <= vlen,
            vlen == v@.len(),
            llen == lit@.len(),
            llen >= 1,
        decreases vlen - i,
    {
        if prefix_at(v, i, lit) {
            // A match only counts when a rule name follows.
            if i + llen < vlen && is_ident_exec(v[i + llen]) {
                let run = ident_span(v, i + llen);
                let mut out: Vec<char> = vstd::slice::slice_to_vec(&v[0..i]);
                let mut repv = str_chars(rep);
                out.append(&mut repv);
                let mut namev = vstd::slice::slice_to_vec(&v[i + llen..i + llen + run]);
                out.append(&mut namev);
                let tail = &v[i + llen + run..vlen];
                let mut restv = convert_rule_directive(tail, lit, rep);
                out.append(&mut restv);
                return out;
            }
        }
        i = i + 1;
    }
    vstd::slice::slice_to_vec(v)
}

fn is_ident_exec(c: char) -> (r: bool)
    ensures
        r == crate::parser::comments::is_ident_char(c),
{
    let code: u32 = c as u32;
    (97 <= code && code <= 122) || (65 <= code && code <= 90) || (48 <= code && code <= 57)
        || c == '_' || c == '-'
}

/// Length of the rule-name run of `v` starting at `i`.
fn ident_span(v: &[char], i: usize) -> (r: usize)
    requires
        i <= v@.len(),
    ensures
        i + r <= v@.len(),
{
    let vlen = v.len();
    let mut k: usize = i;
    while k < vlen && is_ident_exec(v[k])
        invariant
            i <= k <= vlen,
            vlen == v@.len(),
        decreases vlen - k,
    {
        k = k + 1;
    }
    k - i
}

} // verus!
