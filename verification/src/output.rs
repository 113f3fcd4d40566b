//! Output shaping: statistics and the result formatters.

pub mod human;
pub mod json;

use vstd::prelude::*;
use crate::linter::problem::{pview, Level, Problem, ProblemV};

verus! {

/// How many problems of a level a result set holds.
pub open spec fn count_level(ps: Seq<ProblemV>, l: Level) -> int
    decreases ps.len(),
{
    if ps.len() == 0 {
        0
    } else {
        (if ps[0].level == l {
            1int
        } else {
            0int
        }) + count_level(ps.skip(1), l)
    }
}

/// The per-file problem views of a result list.
pub open spec fn results_view(rs: Seq<(String, Vec<Problem>)>) -> Seq<(Seq<char>, Seq<ProblemV>)> {
    Seq::new(rs.len(), |i: int| (rs[i].0@, pview(rs[i].1@)))
}

/// The problems of every file, in order.
pub open spec fn all_probs(rs: Seq<(Seq<char>, Seq<ProblemV>)>) -> Seq<ProblemV>
    decreases rs.len(),
{
    if rs.len() == 0 {
        Seq::empty()
    } else {
        rs[0].1 + all_probs(rs.skip(1))
    }
}

/// How many files hold at least one problem.
pub open spec fn count_nonempty(rs: Seq<(Seq<char>, Seq<ProblemV>)>) -> int
    decreases rs.len(),
{
    if rs.len() == 0 {
        0
    } else {
        (if rs[0].1.len() > 0 {
            1int
        } else {
            0int
        }) + count_nonempty(rs.skip(1))
    }
}

/// Statistics about linting results.
#[derive(Debug, PartialEq, Eq, Structural)]
pub struct LintStats {
    pub total_files: usize,
    pub files_with_problems: usize,
    pub total_problems: usize,
    pub errors: usize,
    pub warnings: usize,
    pub info: usize,
}

impl Default for LintStats {
    /// All counts zero.
    fn default() -> (r: LintStats)
        ensures
            r.total_files == 0 && r.files_with_problems == 0 && r.total_problems == 0 && r.errors
                == 0 && r.warnings == 0 && r.info == 0,
    {
        LintStats {
            total_files: 0,
            files_with_problems: 0,
            total_problems: 0,
            errors: 0,
            warnings: 0,
            info: 0,
        }
    }
}

proof fn lemma_count_level_bound(ps: Seq<ProblemV>, l: Level)
    ensures
        0 <= count_level(ps, l) <= ps.len(),
    decreases ps.len(),
{
    if ps.len() > 0 {
        lemma_count_level_bound(ps.skip(1), l);
    }
}

impl LintStats {
    /// Calculate statistics from linting results.
    pub fn from_results(results: &Vec<(String, Vec<Problem>)>) -> (r: LintStats)
        requires
            all_probs(results_view(results@)).len() <= usize::MAX as int,
        ensures
            r.total_files == results@.len(),
            r.files_with_problems as int == count_nonempty(results_view(results@)),
            r.total_problems as int == all_probs(results_view(results@)).len(),
            r.errors as int == count_level(all_probs(results_view(results@)), Level::Error),
            r.warnings as int == count_level(all_probs(results_view(results@)), Level::Warning),
            r.info as int == count_level(all_probs(results_view(results@)), Level::Info),
    {
        let ghost rv = results_view(results@);
        let mut stats = LintStats {
            total_files: results.len(),
            files_with_problems: 0,
            total_problems: 0,
            errors: 0,
            warnings: 0,
            info: 0,
        };
        let n = results.len();
        let mut i: usize = 0;
        proof {
            assert(rv.skip(0) =~= rv);
            assert(all_probs(rv.skip(0)) =~= all_probs(rv));
        }
        while i < n
            invariant
                0 <= i <= n,
                n == results@.len(),
                rv == results_view(results@),
                stats.total_files == n,
                stats.files_with_problems + count_nonempty(rv.skip(i as int)) == count_nonempty(
                    rv,
                ),
                stats.total_problems + all_probs(rv.skip(i as int)).len() == all_probs(rv).len(),
                all_probs(rv).len() <= usize::MAX as int,
                stats.errors + count_level(all_probs(rv.skip(i as int)), Level::Error)
                    == count_level(all_probs(rv), Level::Error),
                stats.warnings + count_level(all_probs(rv.skip(i as int)), Level::Warning)
                    == count_level(all_probs(rv), Level::Warning),
                stats.info + count_level(all_probs(rv.skip(i as int)), Level::Info) == count_level(
                    all_probs(rv),
                    Level::Info,
                ),
                stats.files_with_problems <= i,
                stats.total_problems <= all_probs(rv).len() - all_probs(rv.skip(i as int)).len(),
            decreases n - i,
        {
            let probs: &Vec<Problem> = &results[i].1;
            proof {
                assert(rv[i as int] == (results@[i as int].0@, pview(results@[i as int].1@)));
                assert(rv.skip(i as int)[0] == rv[i as int]);
                assert(rv.skip(i as int).skip(1) =~= rv.skip(i + 1));
                lemma_count_split(rv[i as int].1, rv.skip(i + 1));
                assert(all_probs(rv.skip(i as int)) =~= rv[i as int].1 + all_probs(
                    rv.skip(i + 1),
                ));
                lemma_count_level_bound(all_probs(rv.skip(i + 1)), Level::Error);
            }
            if probs.len() > 0 {
                stats.files_with_problems = stats.files_with_problems + 1;
            }
            stats.total_problems = stats.total_problems + probs.len();
            let pn = probs.len();
            let ghost pv = pview(probs@);
            let mut k: usize = 0;
            proof {
                assert(pv.skip(0) =~= pv);
            }
            while k < pn
                invariant
                    0 <= k <= pn,
                    0 <= i < n,
                    n == results@.len(),
                    rv == results_view(results@),
                    pn == probs@.len(),
                    pv == pview(probs@),
                    pv == rv[i as int].1,
                    stats.total_files == n,
                    stats.files_with_problems + count_nonempty(rv.skip(i + 1)) == count_nonempty(
                        rv,
                    ),
                    stats.files_with_problems <= i + 1,
                    stats.total_problems + all_probs(rv.skip(i + 1)).len() == all_probs(rv).len(),
                    stats.total_problems <= all_probs(rv).len() - all_probs(rv.skip(i + 1)).len(),
                    stats.errors + count_level(pv.skip(k as int), Level::Error) + count_level(
                        all_probs(rv.skip(i + 1)),
                        Level::Error,
                    ) == count_level(all_probs(rv), Level::Error),
                    stats.warnings + count_level(pv.skip(k as int), Level::Warning) + count_level(
                        all_probs(rv.skip(i + 1)),
                        Level::Warning,
                    ) == count_level(all_probs(rv), Level::Warning),
                    stats.info + count_level(pv.skip(k as int), Level::Info) + count_level(
                        all_probs(rv.skip(i + 1)),
                        Level::Info,
                    ) == count_level(all_probs(rv), Level::Info),
                    all_probs(rv).len() <= usize::MAX as int,
                decreases pn - k,
            {
                proof {
                    assert(pv.skip(k as int)[0] == pv[k as int]);
                    assert(pv[k as int] == probs@[k as int]@);
                    assert(pv.skip(k as int).skip(1) =~= pv.skip(k + 1));
                    lemma_count_level_bound(all_probs(rv), Level::Error);
                    lemma_count_level_bound(all_probs(rv), Level::Warning);
                    lemma_count_level_bound(all_probs(rv), Level::Info);
                    lemma_count_level_bound(pv.skip(k as int), Level::Error);
                    lemma_count_level_bound(pv.skip(k as int), Level::Warning);
                    lemma_count_level_bound(pv.skip(k as int), Level::Info);
                    lemma_count_level_bound(all_probs(rv.skip(i + 1)), Level::Error);
                    lemma_count_level_bound(all_probs(rv.skip(i + 1)), Level::Warning);
                    lemma_count_level_bound(all_probs(rv.skip(i + 1)), Level::Info);
                    lemma_count_level_bound(pv.skip(k + 1), Level::Error);
                    lemma_count_level_bound(pv.skip(k + 1), Level::Warning);
                    lemma_count_level_bound(pv.skip(k + 1), Level::Info);
                }
                match probs[k].level {
                    Level::Error => {
                        stats.errors = stats.errors + 1;
                    },
                    Level::Warning => {
                        stats.warnings = stats.warnings + 1;
                    },
                    Level::Info => {
                        stats.info = stats.info + 1;
                    },
                }
                k = k + 1;
            }
            proof {
                assert(pv.skip(pn as int) =~= Seq::<ProblemV>::empty());
            }
            i = i + 1;
        }
        proof {
            assert(rv.skip(n as int) =~= Seq::<(Seq<char>, Seq<ProblemV>)>::empty());
            assert(all_probs(rv.skip(n as int)) =~= Seq::<ProblemV>::empty());
        }
        stats
    }

    /// Check if there are any errors.
    pub fn has_errors(&self) -> (r: bool)
        ensures
            r == (self.errors > 0),
    {
        self.errors > 0
    }

    /// Check if there are any problems.
    pub fn has_problems(&self) -> (r: bool)
        ensures
            r == (self.total_problems > 0),
    {
        self.total_problems > 0
    }
}

/// The level counts of a concatenation split into its parts.
proof fn lemma_count_split(a: Seq<ProblemV>, rs: Seq<(Seq<char>, Seq<ProblemV>)>)
    ensures
        count_level(a + all_probs(rs), Level::Error) == count_level(a, Level::Error)
            + count_level(all_probs(rs), Level::Error),
        count_level(a + all_probs(rs), Level::Warning) == count_level(a, Level::Warning)
            + count_level(all_probs(rs), Level::Warning),
        count_level(a + all_probs(rs), Level::Info) == count_level(a, Level::Info) + count_level(
            all_probs(rs),
            Level::Info,
        ),
    decreases a.len(),
{
    if a.len() == 0 {
        assert(a + all_probs(rs) =~= all_probs(rs));
    } else {
        assert((a + all_probs(rs)).skip(1) =~= a.skip(1) + all_probs(rs));
        assert((a + all_probs(rs))[0] == a[0]);
        lemma_count_split(a.skip(1), rs);
    }
}

} // verus!
