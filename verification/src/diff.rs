//! Diff-aware linting support: changed ranges and the problems inside them.

use vstd::prelude::*;
use crate::config::Config;
use crate::linter::engine::Linter;
use crate::linter::problem::{pview, Problem, ProblemV};

verus! {

/// A changed line range in a file (1-based, inclusive).
#[derive(Debug, Clone, PartialEq, Eq, Structural)]
pub struct ChangedRange {
    pub start_line: usize,
    pub end_line: usize,
    pub change_type: ChangeType,
}

/// The kind of change in a range.
#[derive(Debug, Clone, PartialEq, Eq, Structural)]
pub enum ChangeType {
    Modified,
}

/// One changed file of a repository diff.
#[derive(Debug, Clone)]
pub struct GitDiff {
    pub file_path: String,
    pub is_new_file: bool,
    pub is_deleted_file: bool,
}

/// A linter that reports only on changed lines and their neighborhood.
#[derive(Debug)]
pub struct DiffLinter {
    pub base_linter: Linter,
    pub context_lines: usize,
}

/// Whether a problem's line falls within `context` lines of a changed range.
pub open spec fn in_ranges(
    line: int,
    ranges: Seq<ChangedRange>,
    context: int,
) -> bool {
    exists|k: int|
        0 <= k < ranges.len() && (#[trigger] ranges[k]).start_line - context <= line
            <= ranges[k].end_line + context
}

impl DiffLinter {
    /// Create a new diff-aware linter with three context lines.
    pub fn new(config: Config) -> (r: DiffLinter)
        ensures
            r.context_lines == 3,
            r.base_linter.config@ == config@,
    {
        DiffLinter { base_linter: Linter::new(config), context_lines: 3 }
    }

    /// Set the number of context lines to include around changes.
    pub fn with_context_lines(self, context_lines: usize) -> (r: DiffLinter)
        ensures
            r.context_lines == context_lines,
            r.base_linter == self.base_linter,
    {
        DiffLinter { base_linter: self.base_linter, context_lines }
    }

    /// The ranges where the new content differs from the old, by a two-way
    /// line walk.
    pub fn calculate_diff(&self, old_content: &str, new_content: &str) -> (r: Result<
        Vec<ChangedRange>,
        crate::rules::RuleError,
    >)
        requires
            new_content@.len() < usize::MAX as int,
        ensures
            r is Ok,
    {
        let oldc = crate::chars::str_chars(old_content);
        let newc = crate::chars::str_chars(new_content);
        let old_lines = crate::chars::split_lines(oldc.as_slice());
        let new_lines = crate::chars::split_lines(newc.as_slice());
        let on = old_lines.len();
        let nn = new_lines.len();
        proof {
            crate::chars::lemma_lines_count_le(new_content@);
        }
        let mut ranges: Vec<ChangedRange> = Vec::new();
        let mut i: usize = 0;
        let mut j: usize = 0;
        while i < on || j < nn
            invariant
                0 <= i <= on,
                0 <= j <= nn,
                on == old_lines@.len(),
                nn == new_lines@.len(),
                nn < usize::MAX,
            decreases (on - i) + (nn - j),
        {
            if i < on && j < nn && lines_equal(&old_lines[i], &new_lines[j]) {
                i = i + 1;
                j = j + 1;
            } else {
                let ghost ie = i;
                let ghost je = j;
                let start_line = j + 1;
                let mut end_line = start_line;
                // At least one side advances on a mismatch.
                if i < on && (j >= nn || !lines_equal(&old_lines[i], &new_lines[j])) {
                    i = i + 1;
                } else {
                    proof {
                        assert(j < nn);
                    }
                    j = j + 1;
                    end_line = j;
                }
                while i < on && (j >= nn || !lines_equal(&old_lines[i], &new_lines[j]))
                    invariant
                        0 <= i <= on,
                        0 <= j <= nn,
                        on == old_lines@.len(),
                        nn == new_lines@.len(),
                        i + j >= ie + je + 1,
                    decreases on - i,
                {
                    i = i + 1;
                }
                while j < nn && (i >= on || !lines_equal(&old_lines[i], &new_lines[j]))
                    invariant
                        0 <= i <= on,
                        0 <= j <= nn,
                        on == old_lines@.len(),
                        nn == new_lines@.len(),
                        i + j >= ie + je + 1,
                        je <= j,
                        end_line <= nn + 1,
                    decreases nn - j,
                {
                    j = j + 1;
                    end_line = j;
                }
                if end_line >= start_line {
                    ranges.push(
                        ChangedRange { start_line, end_line, change_type: ChangeType::Modified },
                    );
                }
            }
        }
        Ok(ranges)
    }

    /// Keep the problems whose line falls within the context window of some
    /// changed range.
    pub fn filter_problems_by_changes(
        &self,
        problems: Vec<Problem>,
        changed_ranges: &Vec<ChangedRange>,
    ) -> (r: Vec<Problem>)
        ensures
            forall|k: int|
                0 <= k < r@.len() ==> in_ranges(
                    (#[trigger] r@[k]).line as int,
                    changed_ranges@,
                    self.context_lines as int,
                ),
    {
        let mut out: Vec<Problem> = Vec::new();
        let mut rest = problems;
        while rest.len() > 0
            invariant
                forall|k: int|
                    0 <= k < out@.len() ==> in_ranges(
                        (#[trigger] out@[k]).line as int,
                        changed_ranges@,
                        self.context_lines as int,
                    ),
            decreases rest@.len(),
        {
            let p = rest.remove(0);
            let mut relevant = false;
            let rn = changed_ranges.len();
            let mut k: usize = 0;
            while k < rn
                invariant
                    0 <= k <= rn,
                    rn == changed_ranges@.len(),
                    relevant ==> in_ranges(
                        p.line as int,
                        changed_ranges@,
                        self.context_lines as int,
                    ),
                decreases rn - k,
            {
                let range = &changed_ranges[k];
                let lo_ok = if range.start_line >= self.context_lines {
                    range.start_line - self.context_lines <= p.line
                } else {
                    true
                };
                let hi_ok = p.line <= range.end_line || p.line - range.end_line
                    <= self.context_lines;
                if lo_ok && hi_ok {
                    proof {
                        assert(changed_ranges@[k as int].start_line - self.context_lines
                            <= p.line as int <= changed_ranges@[k as int].end_line
                            + self.context_lines);
                    }
                    relevant = true;
                }
                k = k + 1;
            }
            if relevant {
                out.push(p);
            }
        }
        out
    }
}

/// Whether two lines hold the same characters.
fn lines_equal(a: &Vec<char>, b: &Vec<char>) -> (r: bool)
    ensures
        r == (a@ == b@),
{
    if a.len() != b.len() {
        return false;
    }
    let n = a.len();
    let mut i: usize = 0;
    while i < n
        invariant
            0 <= i <= n,
            n == a@.len(),
            n == b@.len(),
            forall|k: int| 0 <= k < i ==> a@[k] == b@[k],
        decreases n - i,
    {
        if a[i] != b[i] {
            return false;
        }
        i = i + 1;
    }
    proof {
        assert(a@ =~= b@);
    }
    true
}

} // verus!
