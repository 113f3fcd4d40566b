//! Human-readable output formatting.

use vstd::prelude::*;
use crate::chars::{dec_digits, usize_to_string};
use crate::linter::problem::{level_name, Level, Problem};
use crate::output::LintStats;

verus! {

/// Human-readable output formatter.
#[derive(Debug)]
pub struct HumanFormatter {
    pub use_colors: bool,
}

/// A level rendered for people: its name, wrapped in a color code when
/// colors are on.
pub open spec fn format_level_spec(use_colors: bool, l: Level) -> Seq<char> {
    if use_colors {
        match l {
            Level::Error => "\x1b[31merror\x1b[0m"@,
            Level::Warning => "\x1b[33mwarning\x1b[0m"@,
            Level::Info => "\x1b[36minfo\x1b[0m"@,
        }
    } else {
        level_name(l)
    }
}

/// A position rendered as `line:column`, wrapped in a color code when colors
/// are on.
pub open spec fn format_position_spec(use_colors: bool, line: int, column: int) -> Seq<char> {
    if use_colors {
        "\x1b[36m"@ + dec_digits(line as nat) + ":"@ + dec_digits(column as nat) + "\x1b[0m"@
    } else {
        dec_digits(line as nat) + ":"@ + dec_digits(column as nat)
    }
}

/// A rule id rendered in parentheses, wrapped in a color code when colors
/// are on.
pub open spec fn format_rule_spec(use_colors: bool, rule: Seq<char>) -> Seq<char> {
    if use_colors {
        "\x1b[90m("@ + rule + ")\x1b[0m"@
    } else {
        "("@ + rule + ")"@
    }
}

impl HumanFormatter {
    /// Create a new human formatter with an explicit color setting.
    pub fn with_colors(use_colors: bool) -> (r: HumanFormatter)
        ensures
            r.use_colors == use_colors,
    {
        HumanFormatter { use_colors }
    }

    /// Format a problem level.
    pub fn format_level(&self, level: &Level) -> (r: String)
        ensures
            r@ == format_level_spec(self.use_colors, *level),
    {
        if self.use_colors {
            match level {
                Level::Error => "\x1b[31merror\x1b[0m".to_owned(),
                Level::Warning => "\x1b[33mwarning\x1b[0m".to_owned(),
                Level::Info => "\x1b[36minfo\x1b[0m".to_owned(),
            }
        } else {
            level.to_string()
        }
    }

    /// Format a file path.
    pub fn format_path(&self, path: &str) -> (r: String)
        ensures
            r@ == (if self.use_colors {
                "\x1b[1m"@ + path@ + "\x1b[0m"@
            } else {
                path@
            }),
    {
        if self.use_colors {
            let mut out = "\x1b[1m".to_owned();
            out.append(path);
            out.append("\x1b[0m");
            out
        } else {
            path.to_owned()
        }
    }

    /// Format line and column numbers.
    pub fn format_position(&self, line: usize, column: usize) -> (r: String)
        ensures
            r@ == format_position_spec(self.use_colors, line as int, column as int),
    {
        if self.use_colors {
            let mut out = "\x1b[36m".to_owned();
            let a = usize_to_string(line);
            out.append(a.as_str());
            out.append(":");
            let b = usize_to_string(column);
            out.append(b.as_str());
            out.append("\x1b[0m");
            out
        } else {
            let mut out = usize_to_string(line);
            out.append(":");
            let b = usize_to_string(column);
            out.append(b.as_str());
            out
        }
    }

    /// Format a rule id.
    pub fn format_rule(&self, rule: &str) -> (r: String)
        ensures
            r@ == format_rule_spec(self.use_colors, rule@),
    {
        if self.use_colors {
            let mut out = "\x1b[90m(".to_owned();
            out.append(rule);
            out.append(")\x1b[0m");
            out
        } else {
            let mut out = "(".to_owned();
            out.append(rule);
            out.append(")");
            out
        }
    }

    /// Format a statistics summary: counts with plural marks, or a note that
    /// nothing was found.
    pub fn format_stats(&self, stats: &LintStats) -> (r: String) {
        let mut parts: Vec<String> = Vec::new();
        if stats.errors > 0 {
            let mut text = if self.use_colors {
                "\x1b[31m".to_owned()
            } else {
                String::new()
            };
            let a = usize_to_string(stats.errors);
            text.append(a.as_str());
            text.append(" error");
            if stats.errors != 1 {
                text.append("s");
            }
            if self.use_colors {
                text.append("\x1b[0m");
            }
            parts.push(text);
        }
        if stats.warnings > 0 {
            let mut text = if self.use_colors {
                "\x1b[33m".to_owned()
            } else {
                String::new()
            };
            let a = usize_to_string(stats.warnings);
            text.append(a.as_str());
            text.append(" warning");
            if stats.warnings != 1 {
                text.append("s");
            }
            if self.use_colors {
                text.append("\x1b[0m");
            }
            parts.push(text);
        }
        if stats.info > 0 {
            let mut text = if self.use_colors {
                "\x1b[36m".to_owned()
            } else {
                String::new()
            };
            let a = usize_to_string(stats.info);
            text.append(a.as_str());
            text.append(" info");
            if self.use_colors {
                text.append("\x1b[0m");
            }
            parts.push(text);
        }
        if parts.len() == 0 {
            if self.use_colors {
                "\x1b[32mNo problems found\x1b[0m".to_owned()
            } else {
                "No problems found".to_owned()
            }
        } else {
            let mut out = "Found ".to_owned();
            let n = parts.len();
            let mut i: usize = 0;
            while i < n
                invariant
                    0 <= i <= n,
                    n == parts@.len(),
                decreases n - i,
            {
                if i > 0 {
                    out.append(", ");
                }
                out.append(parts[i].as_str());
                i = i + 1;
            }
            out
        }
    }

    /// Format the linting results for output: each file with problems, its
    /// problems and suggestions indented under it, and a summary line.
    pub fn format_results(&self, results: &Vec<(String, Vec<Problem>)>) -> (r: String)
        requires
            crate::output::all_probs(crate::output::results_view(results@)).len()
                <= usize::MAX as int,
    {
        let stats = LintStats::from_results(results);
        let mut lines: Vec<String> = Vec::new();
        let n = results.len();
        let mut i: usize = 0;
        while i < n
            invariant
                0 <= i <= n,
                n == results@.len(),
            decreases n - i,
        {
            let probs: &Vec<Problem> = &results[i].1;
            if probs.len() > 0 {
                lines.push(self.format_path(results[i].0.as_str()));
                let pn = probs.len();
                let mut k: usize = 0;
                while k < pn
                    invariant
                        0 <= k <= pn,
                        0 <= i < n,
                        n == results@.len(),
                        pn == results@[i as int].1@.len(),
                    decreases pn - k,
                {
                    let p = &results[i].1[k];
                    let mut line = "  ".to_owned();
                    let pos = self.format_position(p.line, p.column);
                    line.append(pos.as_str());
                    line.append(": ");
                    let lvl = self.format_level(&p.level);
                    line.append(lvl.as_str());
                    line.append(" ");
                    line.append(p.message.as_str());
                    line.append(" ");
                    let rl = self.format_rule(p.rule.as_str());
                    line.append(rl.as_str());
                    lines.push(line);
                    match &p.suggestion {
                        Some(sug) => {
                            let mut sline = if self.use_colors {
                                "    \x1b[36mSuggestion:\x1b[0m ".to_owned()
                            } else {
                                "    Suggestion: ".to_owned()
                            };
                            sline.append(sug.as_str());
                            lines.push(sline);
                        },
                        None => {},
                    }
                    k = k + 1;
                }
                lines.push(String::new());
            }
            i = i + 1;
        }
        let summary = self.format_stats(&stats);
        lines.push(summary);
        let mut out = String::new();
        let ln = lines.len();
        let mut j: usize = 0;
        while j < ln
            invariant
                0 <= j <= ln,
                ln == lines@.len(),
            decreases ln - j,
        {
            if j > 0 {
                out.append("\n");
            }
            out.append(lines[j].as_str());
            j = j + 1;
        }
        out
    }
}

} // verus!
