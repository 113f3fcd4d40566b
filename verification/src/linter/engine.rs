//! The lint orchestrator: resolve each rule's configuration, run it, filter
//! its findings through the inline directives, and sort.

use vstd::prelude::*;
use crate::config::inline::{
    cfg_get, is_rule_disabled_spec, process_file_spec, InlineConfigManager, InlineV,
};
use crate::config::{resolve_base, Config, ConfigV};
use crate::linter::context::LintContext;
use crate::linter::problem::{lemma_pv_assoc, problem_le, pview, Level, Problem, ProblemV};
use crate::rules::{
    params_set, reg_wf, rule_cfg_ok, rule_check_of, rule_id_of, rule_validate_ok, AnyRule,
    ParamsV, RuleConfig, RuleRegistry,
};

verus! {

/// Why a file's lint was abandoned.
pub ghost enum LintErrK {
    /// A malformed inline directive.
    DirectiveParse,
    /// A resolved configuration that a rule's validator rejected.
    ConfigValidation { rule: Seq<char> },
}

/// Why a file's lint was abandoned, with the offending pieces named.
#[derive(Debug, Clone, PartialEq)]
pub enum LintError {
    /// A malformed inline directive.
    DirectiveParse { message: String },
    /// A resolved configuration that a rule's validator rejected.
    ConfigValidation { rule: String, message: String },
    /// A rule's check failed at runtime.
    RuleExecution { rule: String, path: String, message: String },
}

impl LintError {
    /// The error's display text.
    pub fn to_string(&self) -> (r: String)
        ensures
            r@ == (match self {
                LintError::DirectiveParse { message } => message@,
                LintError::ConfigValidation { rule: _, message } => message@,
                LintError::RuleExecution { rule: _, path: _, message } => message@,
            }),
    {
        match self {
            LintError::DirectiveParse { message } => message.clone(),
            LintError::ConfigValidation { rule: _, message } => message.clone(),
            LintError::RuleExecution { rule: _, path: _, message } => message.clone(),
        }
    }
}

/// Directive parameters merged over configuration parameters, in order.
pub open spec fn merge_params(ov: ParamsV, acc: ParamsV) -> ParamsV
    decreases ov.len(),
{
    if ov.len() == 0 {
        acc
    } else {
        merge_params(ov.skip(1), params_set(acc, ov[0].0, ov[0].1))
    }
}

/// The configuration a rule runs under: the base resolution, with inline
/// parameter overrides merged on top; enablement and level stay the base's.
pub open spec fn resolved_cfg(
    cfgv: ConfigV,
    regs: Seq<AnyRule>,
    st: InlineV,
    r: AnyRule,
) -> crate::rules::RuleConfigV {
    let base = resolve_base(cfgv, regs, rule_id_of(r));
    match cfg_get(st.overrides, rule_id_of(r)) {
        Some(ov) => crate::rules::RuleConfigV {
            enabled: base.enabled,
            level: base.level,
            params: merge_params(ov.params, base.params),
        },
        None => base,
    }
}

/// The problems kept: those whose rule is not disabled at their line.
pub open spec fn filter_disabled(ps: Seq<ProblemV>, st: InlineV) -> Seq<ProblemV>
    decreases ps.len(),
{
    if ps.len() == 0 {
        ps
    } else {
        (if !is_rule_disabled_spec(st, ps[0].rule, ps[0].line) {
            seq![ps[0]]
        } else {
            Seq::empty()
        }) + filter_disabled(ps.skip(1), st)
    }
}

/// The rules from index `i` on, run in registry order: skip the disabled,
/// abort on a rejected configuration, and keep the filtered findings.
pub open spec fn run_rules_spec(
    regs: Seq<AnyRule>,
    i: int,
    content: Seq<char>,
    cfgv: ConfigV,
    st: InlineV,
) -> Result<Seq<ProblemV>, LintErrK>
    decreases regs.len() - i,
{
    if i < 0 || i >= regs.len() {
        Ok(Seq::empty())
    } else {
        let r = regs[i];
        let rc = resolved_cfg(cfgv, regs, st, r);
        if !rc.enabled {
            run_rules_spec(regs, i + 1, content, cfgv, st)
        } else if !rule_validate_ok(r, rc) {
            Err(LintErrK::ConfigValidation { rule: rule_id_of(r) })
        } else {
            match run_rules_spec(regs, i + 1, content, cfgv, st) {
                Err(e) => Err(e),
                Ok(rest) => Ok(filter_disabled(rule_check_of(r, content, rc), st) + rest),
            }
        }
    }
}

/// Insertion of a problem into a sorted run, after any equal keys.
pub open spec fn sorted_insert(s: Seq<ProblemV>, p: ProblemV) -> Seq<ProblemV>
    decreases s.len(),
{
    if s.len() == 0 {
        seq![p]
    } else if problem_le(s[s.len() - 1], p) {
        s.push(p)
    } else {
        sorted_insert(s.drop_last(), p).push(s[s.len() - 1])
    }
}

/// The stable sort of a problem sequence by (line, column, severity).
pub open spec fn sort_spec(s: Seq<ProblemV>) -> Seq<ProblemV>
    decreases s.len(),
{
    if s.len() == 0 {
        s
    } else {
        sorted_insert(sort_spec(s.drop_last()), s[s.len() - 1])
    }
}

/// Non-decreasing by the problem order.
pub open spec fn sorted_probs(s: Seq<ProblemV>) -> bool {
    forall|i: int| 0 <= i < s.len() - 1 ==> problem_le(#[trigger] s[i], s[i + 1])
}

/// What linting one file yields: the fate of the directives, then every
/// enabled rule's filtered findings, sorted.
pub open spec fn lint_content_spec(
    content: Seq<char>,
    cfgv: ConfigV,
    regs: Seq<AnyRule>,
) -> Result<Seq<ProblemV>, LintErrK> {
    match process_file_spec(content) {
        Err(_) => Err(LintErrK::DirectiveParse),
        Ok(st) => {
            if st.file_ignored {
                Ok(Seq::empty())
            } else {
                match run_rules_spec(regs, 0, content, cfgv, st) {
                    Err(e) => Err(e),
                    Ok(acc) => Ok(sort_spec(acc)),
                }
            }
        },
    }
}

/// Whether `a` orders at or before `b`.
pub fn problem_le_exec(a: &Problem, b: &Problem) -> (r: bool)
    ensures
        r == problem_le(a@, b@),
{
    if a.line != b.line {
        a.line < b.line
    } else if a.column != b.column {
        a.column < b.column
    } else {
        crate::linter::problem::level_rank_exec(a.level) <= crate::linter::problem::level_rank_exec(
            b.level,
        )
    }
}

/// Inserting at the first position from the right whose predecessor orders
/// at or before the new problem realizes `sorted_insert`.
proof fn lemma_sorted_insert_at(s: Seq<ProblemV>, p: ProblemV, j: int)
    requires
        0 <= j <= s.len(),
        forall|k: int| j <= k < s.len() ==> !problem_le(#[trigger] s[k], p),
        j > 0 ==> problem_le(s[j - 1], p),
    ensures
        sorted_insert(s, p) == s.take(j) + seq![p] + s.skip(j),
    decreases s.len(),
{
    if s.len() == 0 {
        assert(sorted_insert(s, p) =~= s.take(0) + seq![p] + s.skip(0));
    } else if problem_le(s[s.len() - 1], p) {
        assert(j == s.len());
        assert(s.push(p) =~= s.take(j) + seq![p] + s.skip(j));
    } else {
        assert(j < s.len());
        let dl = s.drop_last();
        assert forall|k: int| j <= k < dl.len() implies !problem_le(#[trigger] dl[k], p) by {
            assert(dl[k] == s[k]);
        }
        if j > 0 {
            assert(dl[j - 1] == s[j - 1]);
        }
        lemma_sorted_insert_at(dl, p, j);
        assert((dl.take(j) + seq![p] + dl.skip(j)).push(s[s.len() - 1]) =~= s.take(j) + seq![p]
            + s.skip(j));
    }
}

/// `sorted_insert` keeps a sorted run sorted.
proof fn lemma_sorted_insert_sorted(s: Seq<ProblemV>, p: ProblemV)
    requires
        sorted_probs(s),
    ensures
        sorted_probs(sorted_insert(s, p)),
    decreases s.len(),
{
    if s.len() == 0 {
    } else if problem_le(s[s.len() - 1], p) {
        let r = s.push(p);
        assert forall|i: int| 0 <= i < r.len() - 1 implies problem_le(
            #[trigger] r[i],
            r[i + 1],
        ) by {
            if i < s.len() - 1 {
                assert(r[i] == s[i] && r[i + 1] == s[i + 1]);
            } else {
                assert(r[i] == s[s.len() - 1] && r[i + 1] == p);
            }
        }
    } else {
        let dl = s.drop_last();
        assert forall|i: int| 0 <= i < dl.len() - 1 implies problem_le(
            #[trigger] dl[i],
            dl[i + 1],
        ) by {
            assert(dl[i] == s[i] && dl[i + 1] == s[i + 1]);
        }
        lemma_sorted_insert_sorted(dl, p);
        let inner = sorted_insert(dl, p);
        let last = s[s.len() - 1];
        lemma_sorted_insert_last(dl, p, last);
        let r = inner.push(last);
        assert forall|i: int| 0 <= i < r.len() - 1 implies problem_le(
            #[trigger] r[i],
            r[i + 1],
        ) by {
            if i < inner.len() - 1 {
                assert(r[i] == inner[i] && r[i + 1] == inner[i + 1]);
            } else {
                assert(r[i] == inner[inner.len() - 1] && r[i + 1] == last);
            }
        }
    }
}

/// When the run's last element orders strictly after `p`, it still orders at
/// or after everything `sorted_insert` leaves at the end.
proof fn lemma_sorted_insert_last(dl: Seq<ProblemV>, p: ProblemV, last: ProblemV)
    requires
        sorted_probs(dl),
        !problem_le(last, p),
        dl.len() > 0 ==> problem_le(dl[dl.len() - 1], last),
    ensures
        problem_le(sorted_insert(dl, p)[sorted_insert(dl, p).len() - 1], last),
    decreases dl.len(),
{
    if dl.len() == 0 {
        assert(sorted_insert(dl, p) =~= seq![p]);
        assert(problem_le(p, last));
    } else if problem_le(dl[dl.len() - 1], p) {
        assert(sorted_insert(dl, p)[sorted_insert(dl, p).len() - 1] == p);
        assert(problem_le(p, last));
    } else {
        assert(sorted_insert(dl, p)[sorted_insert(dl, p).len() - 1] == dl[dl.len() - 1]);
    }
}

/// The sort's output is sorted.
pub proof fn lemma_sort_spec_sorted(s: Seq<ProblemV>)
    ensures
        sorted_probs(sort_spec(s)),
    decreases s.len(),
{
    if s.len() > 0 {
        lemma_sort_spec_sorted(s.drop_last());
        lemma_sorted_insert_sorted(sort_spec(s.drop_last()), s[s.len() - 1]);
    }
}

/// `sorted_insert` adds exactly the new problem: the multiset grows by `p`
/// and nothing else.
proof fn lemma_sorted_insert_multiset(s: Seq<ProblemV>, p: ProblemV)
    ensures
        sorted_insert(s, p).to_multiset() == s.to_multiset().insert(p),
    decreases s.len(),
{
    broadcast use vstd::seq_lib::group_to_multiset_ensures;

    if s.len() == 0 || problem_le(s[s.len() - 1], p) {
    } else {
        let dl = s.drop_last();
        let last = s[s.len() - 1];
        lemma_sorted_insert_multiset(dl, p);
        assert(s =~= dl.push(last));
        assert(sorted_insert(s, p) == sorted_insert(dl, p).push(last));
        assert(sorted_insert(dl, p).push(last).to_multiset() =~= sorted_insert(
            dl,
            p,
        ).to_multiset().insert(last));
        assert(dl.push(last).to_multiset() =~= dl.to_multiset().insert(last));
        assert(dl.to_multiset().insert(p).insert(last) =~= dl.to_multiset().insert(
            last,
        ).insert(p));
    }
}

/// The sort only reorders: its output holds the same problems, with the
/// same multiplicities, as its input.
pub proof fn lemma_sort_spec_multiset(s: Seq<ProblemV>)
    ensures
        sort_spec(s).to_multiset() == s.to_multiset(),
    decreases s.len(),
{
    broadcast use vstd::seq_lib::group_to_multiset_ensures;

    if s.len() > 0 {
        let dl = s.drop_last();
        let last = s[s.len() - 1];
        lemma_sort_spec_multiset(dl);
        lemma_sorted_insert_multiset(sort_spec(dl), last);
        assert(s =~= dl.push(last));
        assert(dl.push(last).to_multiset() =~= dl.to_multiset().insert(last));
        assert(sort_spec(s).to_multiset() =~= s.to_multiset());
    }
}

/// Insert one problem into an already-sorted vector.
fn insert_sorted(out: &mut Vec<Problem>, p: Problem)
    ensures
        pview(final(out)@) == sorted_insert(pview(old(out)@), p@),
{
    let ghost sv = pview(out@);
    let mut j: usize = out.len();
    while j > 0 && !problem_le_exec(&out[j - 1], &p)
        invariant
            0 <= j <= out@.len(),
            out@ == old(out)@,
            sv == pview(out@),
            forall|k: int| j <= k < sv.len() ==> !problem_le(#[trigger] sv[k], p@),
        decreases j,
    {
        proof {
            assert(sv[j - 1] == out@[j - 1]@);
        }
        j = j - 1;
    }
    proof {
        if j > 0 {
            assert(sv[j - 1] == out@[j - 1]@);
        }
    }
    let ghost pv = p@;
    out.insert(j, p);
    proof {
        lemma_sorted_insert_at(sv, pv, j as int);
        assert(pview(out@) =~= sv.take(j as int) + seq![pv] + sv.skip(j as int));
    }
}

/// Sort problems by (line, column, severity), keeping the relative order of
/// equal keys.
pub fn sort_problems(problems: Vec<Problem>) -> (r: Vec<Problem>)
    ensures
        pview(r@) == sort_spec(pview(problems@)),
        sorted_probs(pview(r@)),
{
    let ghost orig = pview(problems@);
    let mut out: Vec<Problem> = Vec::new();
    let mut rest = problems;
    proof {
        assert(pview(rest@) =~= orig.skip(0));
        assert(orig.take(0) =~= Seq::<ProblemV>::empty());
        assert(pview(out@) =~= sort_spec(orig.take(0)));
    }
    while rest.len() > 0
        invariant
            pview(rest@) == orig.skip(orig.len() - rest@.len()),
            rest@.len() <= orig.len(),
            pview(out@) == sort_spec(orig.take(orig.len() - rest@.len())),
        decreases rest@.len(),
    {
        let ghost i = orig.len() - rest@.len();
        let p = rest.remove(0);
        proof {
            assert(pview(rest@) =~= orig.skip(i).skip(1));
            assert(orig.skip(i).skip(1) =~= orig.skip(i + 1));
            assert(p@ == orig.skip(i)[0]);
            assert(orig.skip(i)[0] == orig[i]);
            assert(orig.take(i + 1).drop_last() =~= orig.take(i));
            assert(orig.take(i + 1)[i] == orig[i]);
        }
        insert_sorted(&mut out, p);
    }
    proof {
        assert(orig.take(orig.len() - rest@.len()) =~= orig);
        lemma_sort_spec_sorted(orig);
    }
    out
}

/// Main linting engine that coordinates rule execution.
#[derive(Debug)]
pub struct Linter {
    pub registry: RuleRegistry,
    pub config: Config,
}

impl Linter {
    /// Create a new linter with the given configuration and the built-in
    /// rules.
    pub fn new(config: Config) -> (r: Linter)
        ensures
            r.registry.rules@ == crate::rules::default_registry_seq(),
            reg_wf(r.registry.rules@),
            r.config@ == config@,
    {
        Linter { registry: RuleRegistry::with_default_rules(), config }
    }

    /// Lint content with a given file path context.
    pub fn lint_content(&self, file_path: &str, content: &str) -> (r: Result<
        Vec<Problem>,
        LintError,
    >)
        requires
            reg_wf(self.registry.rules@),
            content@.len() + 1 < usize::MAX as int,
        ensures
            match r {
                Ok(ps) => lint_content_spec(content@, self.config@, self.registry.rules@)
                    == Ok::<_, LintErrK>(pview(ps@)) && sorted_probs(pview(ps@)),
                Err(e) => {
                    let sr = lint_content_spec(content@, self.config@, self.registry.rules@);
                    &&& sr is Err
                    &&& match e {
                        LintError::DirectiveParse { .. } => sr->Err_0 == LintErrK::DirectiveParse,
                        LintError::ConfigValidation { rule, .. } => sr->Err_0 matches
                            LintErrK::ConfigValidation { rule: rk } && rule@ == rk,
                        LintError::RuleExecution { .. } => false,
                    }
                },
            },
    {
        let context = LintContext::new(file_path, content);
        let mut inline = InlineConfigManager::new();
        match inline.process_file(content) {
            Ok(_) => {},
            Err(e) => {
                return Err(LintError::DirectiveParse { message: e.message });
            },
        }
        let ghost st = inline@;
        if inline.is_file_ignored() {
            let empty_out: Vec<Problem> = Vec::new();
            proof {
                assert(pview(empty_out@) =~= Seq::<ProblemV>::empty());
            }
            return Ok(empty_out);
        }
        let ghost cfgv = self.config@;
        let ghost regs = self.registry.rules@;
        let mut all_problems: Vec<Problem> = Vec::new();
        let n = self.registry.rules.len();
        let mut i: usize = 0;
        proof {
            assert(pview(all_problems@) =~= Seq::<ProblemV>::empty());
        }
        while i < n
            invariant
                0 <= i <= n,
                n == self.registry.rules@.len(),
                regs == self.registry.rules@,
                cfgv == self.config@,
                reg_wf(regs),
                st == inline@,
                !st.file_ignored,
                context.wf(),
                context.content@ == content@,
                content@.len() + 1 < usize::MAX as int,
                process_file_spec(content@) == Ok::<_, ()>(st),
                run_rules_spec(regs, 0, content@, cfgv, st) == (match run_rules_spec(
                    regs,
                    i as int,
                    content@,
                    cfgv,
                    st,
                ) {
                    Ok(rest) => Ok::<Seq<ProblemV>, LintErrK>(pview(all_problems@) + rest),
                    Err(e) => Err(e),
                }),
            decreases n - i,
        {
            let rule = &self.registry.rules[i];
            let ghost rv = regs[i as int];
            let ghost rc_spec = resolved_cfg(cfgv, regs, st, rv);
            let mut rule_config = self.config.get_rule_config(rule.id(), &self.registry);
            match inline.get_rule_config(rule.id(), 0) {
                Some(ov) => {
                    let ghost base_params = rule_config@.params;
                    let ghost ovp = ov@.params;
                    let kn = ov.params.entries.len();
                    let ghost ovpm = ov.params@;
                    let mut k: usize = 0;
                    proof {
                        assert(ovpm.skip(0) =~= ovpm);
                    }
                    while k < kn
                        invariant
                            0 <= k <= kn,
                            kn == ov.params.entries@.len(),
                            ovpm == ov.params@,
                            rule_config@.enabled == rc_spec.enabled,
                            rule_config@.level == rc_spec.level,
                            merge_params(ovpm.skip(k as int), rule_config@.params)
                                == merge_params(ovpm, base_params),
                            merge_params(ovpm, base_params) == rc_spec.params,
                        decreases kn - k,
                    {
                        let key = &ov.params.entries[k].0;
                        let value = ov.params.entries[k].1.clone();
                        proof {
                            assert(ovpm[k as int] == (
                                ov.params.entries@[k as int].0@,
                                ov.params.entries@[k as int].1@,
                            ));
                            assert(ovpm.skip(k as int)[0] == ovpm[k as int]);
                            assert(ovpm.skip(k as int).skip(1) =~= ovpm.skip(k + 1));
                        }
                        rule_config.set_param(key.as_str(), value);
                        k = k + 1;
                    }
                    proof {
                        assert(merge_params(ovpm.skip(kn as int), rule_config@.params)
                            == rule_config@.params);
                        assert(rule_config@ == rc_spec);
                    }
                },
                None => {
                    proof {
                        assert(rule_config@ == rc_spec);
                    }
                },
            }
            if rule_config.enabled {
                match rule.validate_config(&rule_config) {
                    Ok(_) => {},
                    Err(ce) => {
                        let mut msg = "Invalid configuration for rule '".to_owned();
                        msg.append(rule.id());
                        msg.append("': ");
                        msg.append(ce.message.as_str());
                        return Err(
                            LintError::ConfigValidation {
                                rule: rule.id().to_owned(),
                                message: msg,
                            },
                        );
                    },
                }
                proof {
                    crate::rules::lemma_validate_implies_cfg_ok(rv, rc_spec);
                }
                match rule.check(&context, &rule_config) {
                    Ok(ps) => {
                        let ghost psv = pview(ps@);
                        let ghost accv = pview(all_problems@);
                        let mut rest_ps = ps;
                        proof {
                            assert(pview(rest_ps@) =~= psv.skip(0));
                            assert(accv + filter_disabled(psv.skip(0), st) =~= accv
                                + filter_disabled(psv, st));
                        }
                        while rest_ps.len() > 0
                            invariant
                                st == inline@,
                                pview(rest_ps@).len() == rest_ps@.len(),
                                pview(all_problems@) + filter_disabled(pview(rest_ps@), st)
                                    == accv + filter_disabled(psv, st),
                            decreases rest_ps@.len(),
                        {
                            let ghost restv = pview(rest_ps@);
                            let p = rest_ps.remove(0);
                            proof {
                                assert(pview(rest_ps@) =~= restv.skip(1));
                                assert(p@ == restv[0]);
                            }
                            let disabled = inline.is_rule_disabled(p.rule.as_str(), p.line);
                            if !disabled {
                                let ghost pre = pview(all_problems@);
                                all_problems.push(p);
                                proof {
                                    assert(pview(all_problems@) =~= pre + seq![p@]);
                                    lemma_pv_assoc(
                                        pre,
                                        seq![p@],
                                        filter_disabled(restv.skip(1), st),
                                    );
                                }
                            } else {
                                proof {
                                    assert(filter_disabled(restv, st)
                                        =~= Seq::<ProblemV>::empty() + filter_disabled(
                                        restv.skip(1),
                                        st,
                                    ));
                                    assert(Seq::<ProblemV>::empty() + filter_disabled(
                                        restv.skip(1),
                                        st,
                                    ) =~= filter_disabled(restv.skip(1), st));
                                }
                            }
                        }
                        proof {
                            assert(filter_disabled(pview(rest_ps@), st)
                                =~= Seq::<ProblemV>::empty());
                            assert(pview(all_problems@) =~= accv + filter_disabled(psv, st));
                            if run_rules_spec(regs, i + 1, content@, cfgv, st) is Ok {
                                lemma_pv_assoc(
                                    accv,
                                    filter_disabled(psv, st),
                                    run_rules_spec(regs, i + 1, content@, cfgv, st)->Ok_0,
                                );
                            }
                        }
                    },
                    Err(_) => {
                        proof {
                            assert(false);
                        }
                        return Err(
                            LintError::RuleExecution {
                                rule: rule.id().to_owned(),
                                path: file_path.to_owned(),
                                message: "rule failed".to_owned(),
                            },
                        );
                    },
                }
            }
            i = i + 1;
        }
        proof {
            assert(run_rules_spec(regs, n as int, content@, cfgv, st) == Ok::<
                Seq<ProblemV>,
                LintErrK,
            >(Seq::empty()));
            assert(pview(all_problems@) + Seq::<ProblemV>::empty() =~= pview(all_problems@));
        }
        let sorted = sort_problems(all_problems);
        Ok(sorted)
    }
}


/// Every successful lint is sorted non-decreasingly by line, then column,
/// then severity.
pub proof fn lemma_lint_sorted(
    content: Seq<char>,
    cfgv: ConfigV,
    regs: Seq<AnyRule>,
    ps: Seq<ProblemV>,
)
    requires
        lint_content_spec(content, cfgv, regs) == Ok::<_, LintErrK>(ps),
    ensures
        sorted_probs(ps),
{
    match process_file_spec(content) {
        Err(_) => {},
        Ok(st) => {
            if st.file_ignored {
            } else {
                match run_rules_spec(regs, 0, content, cfgv, st) {
                    Err(_) => {},
                    Ok(acc) => {
                        lemma_sort_spec_sorted(acc);
                    },
                }
            }
        },
    }
}

/// Sorting is all the final pass does: for a file that is not ignored, the
/// reported problems are, as a multiset, exactly the union of the problems
/// the enabled rules yielded, after the inline-directive filter.
pub proof fn lemma_lint_permutation(
    content: Seq<char>,
    cfgv: ConfigV,
    regs: Seq<AnyRule>,
    ps: Seq<ProblemV>,
)
    requires
        lint_content_spec(content, cfgv, regs) == Ok::<_, LintErrK>(ps),
    ensures
        process_file_spec(content) is Ok,
        process_file_spec(content)->Ok_0.file_ignored ==> ps == Seq::<ProblemV>::empty(),
        !process_file_spec(content)->Ok_0.file_ignored ==> {
            let st = process_file_spec(content)->Ok_0;
            &&& run_rules_spec(regs, 0, content, cfgv, st) is Ok
            &&& ps.to_multiset() == run_rules_spec(regs, 0, content, cfgv, st)->Ok_0.to_multiset()
        },
{
    match process_file_spec(content) {
        Err(_) => {},
        Ok(st) => {
            if st.file_ignored {
            } else {
                match run_rules_spec(regs, 0, content, cfgv, st) {
                    Err(_) => {},
                    Ok(acc) => {
                        lemma_sort_spec_multiset(acc);
                    },
                }
            }
        },
    }
}

/// Linting the same content under the same configuration and registry can
/// yield only one list of problems: two results both meeting the contract
/// are equal.
pub proof fn lemma_lint_idempotent(
    content: Seq<char>,
    cfgv: ConfigV,
    regs: Seq<AnyRule>,
    r1: Seq<ProblemV>,
    r2: Seq<ProblemV>,
)
    requires
        lint_content_spec(content, cfgv, regs) == Ok::<_, LintErrK>(r1),
        lint_content_spec(content, cfgv, regs) == Ok::<_, LintErrK>(r2),
    ensures
        r1 == r2,
{
}

/// When the directives parse and some line carries the ignore-file
/// directive, the lint returns no problems, whatever else the content
/// holds.
pub proof fn lemma_ignore_file_empties(
    content: Seq<char>,
    cfgv: ConfigV,
    regs: Seq<AnyRule>,
    i: int,
)
    requires
        process_file_spec(content) is Ok,
        0 <= i < crate::chars::lines_spec(content).len(),
        crate::config::inline::line_directive_spec(crate::chars::lines_spec(content)[i]) == Ok::<
            _,
            (),
        >(Some(crate::parser::comments::DirectiveV::IgnoreFile)),
    ensures
        lint_content_spec(content, cfgv, regs) == Ok::<_, LintErrK>(Seq::<ProblemV>::empty()),
{
    crate::config::inline::lemma_fold_ignore_file(
        crate::config::inline::inline_init(),
        crate::chars::lines_spec(content),
        1,
        i,
    );
}

} // verus!
