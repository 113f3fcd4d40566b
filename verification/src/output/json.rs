//! Machine-readable output shapes.

use vstd::prelude::*;
use crate::linter::problem::{level_name, Problem};
use crate::output::LintStats;

verus! {

/// JSON output formatter.
#[derive(Debug)]
pub struct JsonFormatter;

impl JsonFormatter {
    /// Create a new JSON formatter.
    pub fn new() -> (r: JsonFormatter) {
        JsonFormatter
    }
}

impl Default for JsonFormatter {
    fn default() -> Self {
        JsonFormatter
    }
}

/// The flat record of one problem, ready for export.
#[derive(Debug)]
pub struct JsonProblem {
    pub line: usize,
    pub column: usize,
    pub level: String,
    pub rule: String,
    pub message: String,
    pub suggestion: Option<String>,
}

impl JsonProblem {
    /// Build the flat record of a problem, with the level as its name.
    pub fn of_problem(problem: &Problem) -> (r: JsonProblem)
        ensures
            r.line == problem.line,
            r.column == problem.column,
            r.level@ == level_name(problem.level),
            r.rule@ == problem.rule@,
            r.message@ == problem.message@,
            match (r.suggestion, problem.suggestion) {
                (Some(a), Some(b)) => a@ == b@,
                (None, None) => true,
                _ => false,
            },
    {
        JsonProblem {
            line: problem.line,
            column: problem.column,
            level: problem.level.to_string(),
            rule: problem.rule.clone(),
            message: problem.message.clone(),
            suggestion: match &problem.suggestion {
                Some(s) => Some(s.clone()),
                None => None,
            },
        }
    }
}

/// The flat record of a run's statistics, ready for export.
#[derive(Debug)]
pub struct JsonStats {
    pub total_files: usize,
    pub files_with_problems: usize,
    pub total_problems: usize,
    pub errors: usize,
    pub warnings: usize,
    pub info: usize,
}

impl JsonStats {
    /// Build the flat record of a run's statistics.
    pub fn of_stats(stats: &LintStats) -> (r: JsonStats)
        ensures
            r.total_files == stats.total_files,
            r.files_with_problems == stats.files_with_problems,
            r.total_problems == stats.total_problems,
            r.errors == stats.errors,
            r.warnings == stats.warnings,
            r.info == stats.info,
    {
        JsonStats {
            total_files: stats.total_files,
            files_with_problems: stats.files_with_problems,
            total_problems: stats.total_problems,
            errors: stats.errors,
            warnings: stats.warnings,
            info: stats.info,
        }
    }
}

/// The flat record of one file's results.
#[derive(Debug)]
pub struct JsonFileResult {
    pub path: String,
    pub problems: Vec<JsonProblem>,
}

/// The flat record of a whole run.
#[derive(Debug)]
pub struct JsonOutput {
    pub stats: JsonStats,
    pub files: Vec<JsonFileResult>,
}

impl JsonOutput {
    /// Build the flat record of a whole run.
    pub fn of_results(results: &Vec<(String, Vec<Problem>)>) -> (r: JsonOutput)
        requires
            crate::output::all_probs(crate::output::results_view(results@)).len()
                <= usize::MAX as int,
        ensures
            r.files@.len() == results@.len(),
    {
        let stats = LintStats::from_results(results);
        let mut files: Vec<JsonFileResult> = Vec::new();
        let n = results.len();
        let mut i: usize = 0;
        while i < n
            invariant
                0 <= i <= n,
                n == results@.len(),
                files@.len() == i,
            decreases n - i,
        {
            let probs: &Vec<Problem> = &results[i].1;
            let mut out_probs: Vec<JsonProblem> = Vec::new();
            let pn = probs.len();
            let mut k: usize = 0;
            while k < pn
                invariant
                    0 <= k <= pn,
                    0 <= i < n,
                    n == results@.len(),
                    pn == results@[i as int].1@.len(),
                decreases pn - k,
            {
                let jp = JsonProblem::of_problem(&results[i].1[k]);
                out_probs.push(jp);
                k = k + 1;
            }
            files.push(JsonFileResult { path: results[i].0.clone(), problems: out_probs });
            i = i + 1;
        }
        JsonOutput { stats: JsonStats::of_stats(&stats), files }
    }
}

} // verus!
