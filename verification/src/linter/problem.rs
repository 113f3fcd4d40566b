//! Diagnostics: a severity level and a positioned problem record.

use vstd::prelude::*;
use crate::chars::{string_from_chars, usize_to_string};

verus! {

/// Severity of a linting problem; `Info < Warning < Error`.
#[derive(Debug, Clone, Copy, PartialEq, Eq, Structural, PartialOrd, Ord, Hash)]
pub enum Level {
    Info,
    Warning,
    Error,
}

/// Numeric rank of a level, for use as an ordering tiebreaker.
pub open spec fn level_rank(l: Level) -> int {
    match l {
        Level::Info => 0,
        Level::Warning => 1,
        Level::Error => 2,
    }
}

/// The lower-case name of a level.
pub open spec fn level_name(l: Level) -> Seq<char> {
    match l {
        Level::Info => "info"@,
        Level::Warning => "warning"@,
        Level::Error => "error"@,
    }
}

impl Level {
    /// The level's lower-case name.
    pub fn to_string(&self) -> (r: String)
        ensures
            r@ == level_name(*self),
    {
        match self {
            Level::Info => "info".to_owned(),
            Level::Warning => "warning".to_owned(),
            Level::Error => "error".to_owned(),
        }
    }
}

/// The mathematical value of a `Problem`.
pub ghost struct ProblemV {
    pub line: int,
    pub column: int,
    pub level: Level,
    pub rule: Seq<char>,
    pub message: Seq<char>,
    pub suggestion: Option<Seq<char>>,
}

/// A linting problem found in a YAML file; positions are 1-based.
#[derive(Debug, Clone)]
pub struct Problem {
    /// Line number where the problem was found (1-based).
    pub line: usize,
    /// Column number where the problem was found (1-based).
    pub column: usize,
    /// Severity level of the problem.
    pub level: Level,
    /// ID of the rule that detected the problem.
    pub rule: String,
    /// Human-readable description of the problem.
    pub message: String,
    /// Optional suggestion for fixing the problem.
    pub suggestion: Option<String>,
}

impl View for Problem {
    type V = ProblemV;

    open spec fn view(&self) -> ProblemV {
        ProblemV {
            line: self.line as int,
            column: self.column as int,
            level: self.level,
            rule: self.rule@,
            message: self.message@,
            suggestion: match self.suggestion {
                Some(s) => Some(s@),
                None => None,
            },
        }
    }
}

/// The views of a sequence of problems.
pub open spec fn pview(s: Seq<Problem>) -> Seq<ProblemV> {
    s.map_values(|p: Problem| p@)
}

/// Concatenation of problem sequences associates.
pub proof fn lemma_pv_assoc(a: Seq<ProblemV>, b: Seq<ProblemV>, c: Seq<ProblemV>)
    ensures
        a + (b + c) == (a + b) + c,
{
    assert(a + (b + c) =~= (a + b) + c);
}

/// Total order on problems: by line, then column, then severity.
pub open spec fn problem_le(a: ProblemV, b: ProblemV) -> bool {
    if a.line != b.line {
        a.line < b.line
    } else if a.column != b.column {
        a.column < b.column
    } else {
        level_rank(a.level) <= level_rank(b.level)
    }
}

impl Problem {
    /// Create a new problem.
    pub fn new(line: usize, column: usize, level: Level, rule: &str, message: &str) -> (r: Problem)
        ensures
            r@ == (ProblemV {
                line: line as int,
                column: column as int,
                level: level,
                rule: rule@,
                message: message@,
                suggestion: None,
            }),
    {
        Problem {
            line,
            column,
            level,
            rule: rule.to_owned(),
            message: message.to_owned(),
            suggestion: None,
        }
    }

    /// Create a new problem with a suggestion.
    pub fn with_suggestion(
        line: usize,
        column: usize,
        level: Level,
        rule: &str,
        message: &str,
        suggestion: &str,
    ) -> (r: Problem)
        ensures
            r@ == (ProblemV {
                line: line as int,
                column: column as int,
                level: level,
                rule: rule@,
                message: message@,
                suggestion: Some(suggestion@),
            }),
    {
        Problem {
            line,
            column,
            level,
            rule: rule.to_owned(),
            message: message.to_owned(),
            suggestion: Some(suggestion.to_owned()),
        }
    }

    /// The message followed by the rule id in parentheses.
    pub fn formatted_message(&self) -> (r: String)
        ensures
            r@ == self.message@ + " ("@ + self.rule@ + ")"@,
    {
        let mut out = self.message.clone();
        out.append(" (");
        out.append(self.rule.as_str());
        out.append(")");
        out
    }

    /// `line:column: message (rule)`, the problem's display form.
    pub fn to_string(&self) -> (r: String)
        ensures
            r@ == crate::chars::dec_digits(self.line as nat) + ":"@
                + crate::chars::dec_digits(self.column as nat) + ": "@
                + self.message@ + " ("@ + self.rule@ + ")"@,
    {
        let mut out = usize_to_string(self.line);
        out.append(":");
        let col = usize_to_string(self.column);
        out.append(col.as_str());
        out.append(": ");
        let m = self.formatted_message();
        out.append(m.as_str());
        out
    }
}

impl PartialEq for Problem {
    fn eq(&self, other: &Problem) -> (r: bool) {
        self.line == other.line && self.column == other.column && self.level == other.level
            && self.rule == other.rule && self.message == other.message
            && match (&self.suggestion, &other.suggestion) {
                (Some(a), Some(b)) => *a == *b,
                (None, None) => true,
                _ => false,
            }
    }
}

impl Eq for Problem {}

impl vstd::std_specs::cmp::PartialEqSpecImpl for Problem {
    open spec fn obeys_eq_spec() -> bool {
        true
    }

    open spec fn eq_spec(&self, other: &Problem) -> bool {
        self@ == other@
    }
}

impl PartialOrd for Problem {
    fn partial_cmp(&self, other: &Problem) -> (r: Option<core::cmp::Ordering>) {
        if self.line < other.line {
            Some(core::cmp::Ordering::Less)
        } else if self.line > other.line {
            Some(core::cmp::Ordering::Greater)
        } else if self.column < other.column {
            Some(core::cmp::Ordering::Less)
        } else if self.column > other.column {
            Some(core::cmp::Ordering::Greater)
        } else {
            let a = level_rank_exec(self.level);
            let b = level_rank_exec(other.level);
            if a < b {
                Some(core::cmp::Ordering::Less)
            } else if a > b {
                Some(core::cmp::Ordering::Greater)
            } else {
                Some(core::cmp::Ordering::Equal)
            }
        }
    }
}

impl vstd::std_specs::cmp::PartialOrdSpecImpl for Problem {
    open spec fn obeys_partial_cmp_spec() -> bool {
        true
    }

    open spec fn partial_cmp_spec(&self, other: &Problem) -> Option<core::cmp::Ordering> {
        if self@.line < other@.line {
            Some(core::cmp::Ordering::Less)
        } else if self@.line > other@.line {
            Some(core::cmp::Ordering::Greater)
        } else if self@.column < other@.column {
            Some(core::cmp::Ordering::Less)
        } else if self@.column > other@.column {
            Some(core::cmp::Ordering::Greater)
        } else if level_rank(self@.level) < level_rank(other@.level) {
            Some(core::cmp::Ordering::Less)
        } else if level_rank(self@.level) > level_rank(other@.level) {
            Some(core::cmp::Ordering::Greater)
        } else {
            Some(core::cmp::Ordering::Equal)
        }
    }
}

/// Executable counterpart of `level_rank`.
pub fn level_rank_exec(l: Level) -> (r: u8)
    ensures
        r as int == level_rank(l),
{
    match l {
        Level::Info => 0,
        Level::Warning => 1,
        Level::Error => 2,
    }
}

} // verus!
