//! Automatic fixes for a few mechanical problems.

use vstd::prelude::*;
use crate::chars::{
    find_sub, find_sub_spec, lines_spec, split_lines, str_chars, str_eq, string_from_chars,
    trim_end_spec, trim_spec, views_of,
};
use crate::linter::problem::Problem;
use crate::rules::RuleError;

verus! {

/// The lines joined with `\n`.
pub open spec fn join_nl(parts: Seq<Seq<char>>) -> Seq<char>
    decreases parts.len(),
{
    if parts.len() == 0 {
        Seq::empty()
    } else if parts.len() == 1 {
        parts[0]
    } else {
        join_nl(parts.drop_last()) + "\n"@ + parts[parts.len() - 1]
    }
}

/// Join lines with `\n`.
fn join_lines(parts: &Vec<Vec<char>>) -> (r: String)
    ensures
        r@ == join_nl(views_of(parts@)),
{
    let mut out = String::new();
    let n = parts.len();
    let ghost pv = views_of(parts@);
    let mut i: usize = 0;
    proof {
        assert(pv.take(0) =~= Seq::<Seq<char>>::empty());
        assert(out@ =~= join_nl(pv.take(0)));
    }
    while i < n
        invariant
            0 <= i <= n,
            n == parts@.len(),
            pv == views_of(parts@),
            out@ == join_nl(pv.take(i as int)),
        decreases n - i,
    {
        if i > 0 {
            out.append("\n");
        }
        let s = string_from_chars(parts[i].as_slice());
        out.append(s.as_str());
        proof {
            assert(pv.take(i + 1).drop_last() =~= pv.take(i as int));
            assert(pv.take(i + 1)[i as int] == parts@[i as int]@);
        }
        i = i + 1;
    }
    proof {
        assert(pv.take(n as int) =~= pv);
    }
    out
}

/// What removing the trailing whitespace of one line leaves.
pub open spec fn ts_fix_spec(content: Seq<char>, lineno: int) -> Seq<char> {
    let lines = lines_spec(content);
    let fixed = Seq::new(
        lines.len(),
        |i: int|
            if i == lineno - 1 {
                trim_end_spec(lines[i])
            } else {
                lines[i]
            },
    );
    join_nl(fixed) + (if content.len() > 0 && content[content.len() - 1] == '\n' {
        "\n"@
    } else {
        Seq::empty()
    })
}

/// Fix for trailing spaces.
#[derive(Debug)]
pub struct TrailingSpacesFix;

impl TrailingSpacesFix {
    /// Whether this fix handles the given problem.
    pub fn can_fix(&self, problem: &Problem) -> (r: bool)
        ensures
            r == (problem.rule@ == "trailing-spaces"@),
    {
        str_eq(problem.rule.as_str(), "trailing-spaces")
    }

    /// Remove the trailing whitespace of the problem's line.
    pub fn apply_fix(&self, content: &str, problem: &Problem) -> (r: Result<String, RuleError>)
        ensures
            match r {
                Ok(s) => s@ == ts_fix_spec(content@, problem.line as int),
                Err(_) => false,
            },
    {
        let chars = str_chars(content);
        let lines = split_lines(chars.as_slice());
        let ghost linesv = lines_spec(content@);
        let mut fixed: Vec<Vec<char>> = Vec::new();
        let n = lines.len();
        let mut i: usize = 0;
        let ghost target = Seq::new(
            linesv.len(),
            |k: int|
                if k == problem.line - 1 {
                    trim_end_spec(linesv[k])
                } else {
                    linesv[k]
                },
        );
        proof {
            assert(views_of(lines@) == linesv);
        }
        while i < n
            invariant
                0 <= i <= n,
                n == lines@.len(),
                views_of(lines@) == linesv,
                target == Seq::new(
                    linesv.len(),
                    |k: int|
                        if k == problem.line - 1 {
                            trim_end_spec(linesv[k])
                        } else {
                            linesv[k]
                        },
                ),
                fixed@.len() == i,
                forall|k: int| 0 <= k < i ==> #[trigger] fixed@[k]@ == target[k],
            decreases n - i,
        {
            proof {
                assert(linesv[i as int] == lines@[i as int]@);
            }
            if i + 1 == problem.line {
                let t = crate::chars::trim_end_slice(lines[i].as_slice());
                fixed.push(vstd::slice::slice_to_vec(t));
            } else {
                let whole = vstd::slice::slice_to_vec(lines[i].as_slice());
                fixed.push(whole);
            }
            i = i + 1;
        }
        let mut out = join_lines(&fixed);
        proof {
            assert(views_of(fixed@) =~= target);
        }
        let clen = chars.len();
        if clen > 0 && chars[clen - 1] == '\n' {
            out.append("\n");
        } else {
            proof {
                assert(out@ + Seq::<char>::empty() =~= out@);
            }
        }
        Ok(out)
    }
}

/// What appending a missing final newline leaves.
pub open spec fn nl_fix_spec(content: Seq<char>) -> Seq<char> {
    if content.len() == 0 {
        content
    } else if content[content.len() - 1] == '\n' {
        content
    } else {
        content + "\n"@
    }
}

/// Fix for a missing newline at the end of the file.
#[derive(Debug)]
pub struct NewLineAtEndOfFileFix;

impl NewLineAtEndOfFileFix {
    /// Whether this fix handles the given problem.
    pub fn can_fix(&self, problem: &Problem) -> (r: bool)
        ensures
            r == (problem.rule@ == "new-line-at-end-of-file"@),
    {
        str_eq(problem.rule.as_str(), "new-line-at-end-of-file")
    }

    /// Append a final newline when the content lacks one.
    pub fn apply_fix(&self, content: &str, _problem: &Problem) -> (r: Result<String, RuleError>)
        ensures
            match r {
                Ok(s) => s@ == nl_fix_spec(content@),
                Err(_) => false,
            },
    {
        let chars = str_chars(content);
        let clen = chars.len();
        if clen == 0 {
            return Ok(content.to_owned());
        }
        if chars[clen - 1] == '\n' {
            Ok(content.to_owned())
        } else {
            let mut out = content.to_owned();
            out.append("\n");
            Ok(out)
        }
    }
}

/// Fix for empty-lines issues: trims a blank run at the start or the end,
/// or caps runs in the middle, as the problem's message directs.
#[derive(Debug)]
pub struct EmptyLinesFix;

impl EmptyLinesFix {
    /// Whether this fix handles the given problem.
    pub fn can_fix(&self, problem: &Problem) -> (r: bool)
        ensures
            r == (problem.rule@ == "empty-lines"@ && (find_sub_spec(
                problem.message@,
                "too many blank lines"@,
            ) is Some || find_sub_spec(problem.message@, "at beginning"@) is Some
                || find_sub_spec(problem.message@, "at end"@) is Some)),
    {
        if !str_eq(problem.rule.as_str(), "empty-lines") {
            return false;
        }
        let msgc = str_chars(problem.message.as_str());
        let a = match find_sub(msgc.as_slice(), "too many blank lines") {
            Some(_) => true,
            None => false,
        };
        let b = match find_sub(msgc.as_slice(), "at beginning") {
            Some(_) => true,
            None => false,
        };
        let c = match find_sub(msgc.as_slice(), "at end") {
            Some(_) => true,
            None => false,
        };
        a || b || c
    }

    /// Apply the transformation the message directs; the first matching
    /// direction wins.
    pub fn apply_fix(&self, content: &str, problem: &Problem) -> (r: Result<String, RuleError>)
        ensures
            r is Ok,
    {
        let chars = str_chars(content);
        let lines = split_lines(chars.as_slice());
        let msgc = str_chars(problem.message.as_str());
        let n = lines.len();
        match find_sub(msgc.as_slice(), "at beginning") {
            Some(_) => {
                let mut start: usize = 0;
                let mut i: usize = 0;
                let mut found = false;
                while i < n
                    invariant
                        0 <= i <= n,
                        n == lines@.len(),
                        start <= i,
                        found ==> start < n,
                    decreases n - i,
                {
                    let t = crate::chars::trim_slice(lines[i].as_slice());
                    if t.len() > 0 {
                        start = i;
                        found = true;
                        break ;
                    }
                    i = i + 1;
                }
                if !found {
                    start = 0;
                }
                let mut kept: Vec<Vec<char>> = Vec::new();
                let mut k: usize = start;
                while k < n
                    invariant
                        start <= k <= n,
                        n == lines@.len(),
                    decreases n - k,
                {
                    kept.push(vstd::slice::slice_to_vec(lines[k].as_slice()));
                    k = k + 1;
                }
                return Ok(join_lines(&kept));
            },
            None => {},
        }
        match find_sub(msgc.as_slice(), "at end") {
            Some(_) => {
                let mut end_index: usize = n;
                let mut empty_count: usize = 0;
                let mut i: usize = n;
                while i > 0
                    invariant
                        0 <= i <= n,
                        n == lines@.len(),
                        end_index <= n,
                        empty_count <= n,
                    decreases i,
                {
                    let t = crate::chars::trim_slice(lines[i - 1].as_slice());
                    if t.len() == 0 {
                        if empty_count < n {
                            empty_count = empty_count + 1;
                        }
                    } else {
                        end_index = i;
                        break ;
                    }
                    i = i - 1;
                }
                if i == 0 {
                    end_index = n;
                }
                if empty_count > 1 {
                    let mut kept: Vec<Vec<char>> = Vec::new();
                    let mut k: usize = 0;
                    let stop = if i == 0 {
                        n
                    } else {
                        end_index
                    };
                    while k < stop
                        invariant
                            0 <= k <= stop <= n,
                            n == lines@.len(),
                        decreases stop - k,
                    {
                        kept.push(vstd::slice::slice_to_vec(lines[k].as_slice()));
                        k = k + 1;
                    }
                    if stop < n {
                        kept.push(Vec::new());
                    }
                    return Ok(join_lines(&kept));
                }
            },
            None => {},
        }
        match find_sub(msgc.as_slice(), "too many blank lines") {
            Some(_) => {
                let mut kept: Vec<Vec<char>> = Vec::new();
                let mut consecutive: usize = 0;
                let mut k: usize = 0;
                while k < n
                    invariant
                        0 <= k <= n,
                        n == lines@.len(),
                        consecutive <= n,
                    decreases n - k,
                {
                    let t = crate::chars::trim_slice(lines[k].as_slice());
                    if t.len() == 0 {
                        if consecutive < n {
                            consecutive = consecutive + 1;
                        }
                        if consecutive <= 2 {
                            kept.push(vstd::slice::slice_to_vec(lines[k].as_slice()));
                        }
                    } else {
                        consecutive = 0;
                        kept.push(vstd::slice::slice_to_vec(lines[k].as_slice()));
                    }
                    k = k + 1;
                }
                return Ok(join_lines(&kept));
            },
            None => {},
        }
        Ok(content.to_owned())
    }
}

/// One registered fix.
#[derive(Debug)]
pub enum AnyFix {
    TrailingSpaces(TrailingSpacesFix),
    NewLineAtEndOfFile(NewLineAtEndOfFileFix),
    EmptyLines(EmptyLinesFix),
}

impl AnyFix {
    /// Whether this fix handles the given problem.
    pub fn can_fix(&self, problem: &Problem) -> (r: bool) {
        match self {
            AnyFix::TrailingSpaces(f) => f.can_fix(problem),
            AnyFix::NewLineAtEndOfFile(f) => f.can_fix(problem),
            AnyFix::EmptyLines(f) => f.can_fix(problem),
        }
    }

    /// Apply the fix to the content.
    pub fn apply_fix(&self, content: &str, problem: &Problem) -> (r: Result<String, RuleError>)
        ensures
            r is Ok,
    {
        match self {
            AnyFix::TrailingSpaces(f) => f.apply_fix(content, problem),
            AnyFix::NewLineAtEndOfFile(f) => f.apply_fix(content, problem),
            AnyFix::EmptyLines(f) => f.apply_fix(content, problem),
        }
    }
}

/// Engine for applying automatic fixes to content.
#[derive(Debug)]
pub struct FixEngine {
    pub fixes: Vec<(String, AnyFix)>,
}

impl FixEngine {
    /// Create a new fix engine with the default fixes.
    pub fn new() -> (r: FixEngine)
        ensures
            r.fixes@.len() == 3,
    {
        let mut engine = FixEngine { fixes: Vec::new() };
        engine.register_fix("trailing-spaces", AnyFix::TrailingSpaces(TrailingSpacesFix));
        engine.register_fix(
            "new-line-at-end-of-file",
            AnyFix::NewLineAtEndOfFile(NewLineAtEndOfFileFix),
        );
        engine.register_fix("empty-lines", AnyFix::EmptyLines(EmptyLinesFix));
        engine
    }

    /// Register a fix for a rule.
    pub fn register_fix(&mut self, rule_id: &str, fix: AnyFix)
        ensures
            final(self).fixes@.len() == old(self).fixes@.len() + 1,
    {
        let owned = rule_id.to_owned();
        self.fixes.push((owned, fix));
    }

    /// The registered fix for a rule, if any.
    fn fix_for(&self, rule_id: &str) -> (r: Option<&AnyFix>) {
        let n = self.fixes.len();
        let mut i: usize = 0;
        while i < n
            invariant
                0 <= i <= n,
                n == self.fixes@.len(),
            decreases n - i,
        {
            if str_eq(self.fixes[i].0.as_str(), rule_id) {
                return Some(&self.fixes[i].1);
            }
            i = i + 1;
        }
        None
    }

    /// Apply fixes to content for the given problems: rule by rule in
    /// ascending rule-id order, each rule's problems from the last line up.
    pub fn fix_problems(&self, content: &str, problems: &Vec<Problem>) -> (r: Result<
        String,
        RuleError,
    >)
        ensures
            r is Ok,
    {
        // Collect the distinct rule ids, in first-appearance order.
        let mut rule_ids: Vec<String> = Vec::new();
        let pn = problems.len();
        let mut i: usize = 0;
        while i < pn
            invariant
                0 <= i <= pn,
                pn == problems@.len(),
            decreases pn - i,
        {
            let rid = problems[i].rule.as_str();
            let mut seen = false;
            let mut k: usize = 0;
            let rn = rule_ids.len();
            while k < rn
                invariant
                    0 <= k <= rn,
                    rn == rule_ids@.len(),
                decreases rn - k,
            {
                if str_eq(rule_ids[k].as_str(), rid) {
                    seen = true;
                }
                k = k + 1;
            }
            if !seen {
                rule_ids.push(rid.to_owned());
            }
            i = i + 1;
        }
        // Sort the ids ascending for a consistent application order.
        let mut sorted_ids: Vec<String> = Vec::new();
        let mut rest = rule_ids;
        while rest.len() > 0
            decreases rest@.len(),
        {
            let id = rest.remove(0);
            let mut j: usize = sorted_ids.len();
            while j > 0 && str_lt(id.as_str(), sorted_ids[j - 1].as_str())
                invariant
                    0 <= j <= sorted_ids@.len(),
                decreases j,
            {
                j = j - 1;
            }
            sorted_ids.insert(j, id);
        }
        // Apply each rule's fix, that rule's problems from the last line up.
        let mut fixed = content.to_owned();
        let sn = sorted_ids.len();
        let mut s: usize = 0;
        while s < sn
            invariant
                0 <= s <= sn,
                sn == sorted_ids@.len(),
                pn == problems@.len(),
            decreases sn - s,
        {
            match self.fix_for(sorted_ids[s].as_str()) {
                Some(_) => {
                    // Order this rule's problems by line, descending, keeping
                    // the original order of equal lines.
                    let mut ordered: Vec<usize> = Vec::new();
                    let mut p: usize = 0;
                    while p < pn
                        invariant
                            0 <= p <= pn,
                            0 <= s < sn,
                            sn == sorted_ids@.len(),
                            pn == problems@.len(),
                            forall|m: int| 0 <= m < ordered@.len() ==> #[trigger] ordered@[m] < pn,
                        decreases pn - p,
                    {
                        if str_eq(problems[p].rule.as_str(), sorted_ids[s].as_str()) {
                            let mut j: usize = ordered.len();
                            while j > 0 && problems[ordered[j - 1]].line < problems[p].line
                                invariant
                                    0 <= j <= ordered@.len(),
                                    p < pn,
                                    pn == problems@.len(),
                                    forall|m: int|
                                        0 <= m < ordered@.len() ==> #[trigger] ordered@[m] < pn,
                                decreases j,
                            {
                                j = j - 1;
                            }
                            ordered.insert(j, p);
                        }
                        p = p + 1;
                    }
                    let on = ordered.len();
                    let mut o: usize = 0;
                    while o < on
                        invariant
                            0 <= o <= on,
                            0 <= s < sn,
                            sn == sorted_ids@.len(),
                            on == ordered@.len(),
                            pn == problems@.len(),
                            forall|m: int| 0 <= m < ordered@.len() ==> #[trigger] ordered@[m] < pn,
                        decreases on - o,
                    {
                        let pr = &problems[ordered[o]];
                        match self.fix_for(sorted_ids[s].as_str()) {
                            Some(f2) => {
                                if f2.can_fix(pr) {
                                    match f2.apply_fix(fixed.as_str(), pr) {
                                        Ok(nf) => {
                                            fixed = nf;
                                        },
                                        Err(e) => {
                                            proof {
                                                assert(false);
                                            }
                                            return Err(e);
                                        },
                                    }
                                }
                            },
                            None => {},
                        }
                        o = o + 1;
                    }
                },
                None => {},
            }
            s = s + 1;
        }
        Ok(fixed)
    }
}

/// Whether `a` orders strictly before `b`, by code point.
fn str_lt(a: &str, b: &str) -> (r: bool)
    ensures
        r == crate::chars::lex_lt(a@, b@),
{
    let av = str_chars(a);
    let bv = str_chars(b);
    crate::chars::chars_lt(av.as_slice(), bv.as_slice())
}

impl Default for FixEngine {
    fn default() -> Self {
        FixEngine::new()
    }
}

} // verus!
