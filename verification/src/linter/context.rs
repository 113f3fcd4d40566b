//! The read-only per-file view handed to rules.

use serde_yaml::Value;
use vstd::prelude::*;
use crate::chars::{
    find_char, find_char_spec, lines_spec, split_lines, str_chars, str_eq, string_from_chars,
    strings_view, views_of,
};

verus! {

/// What `serde_yaml` reports for a text: the parse error's display text when
/// the text is not valid YAML, and otherwise the string keys of every mapping
/// in the document, mapping by mapping in depth-first document order.
pub uninterp spec fn yaml_summary(s: Seq<char>) -> (Option<Seq<char>>, Seq<Seq<Seq<char>>>);

/// The string keys of each mapping of a parsed document, mapping by mapping
/// in depth-first document order, descending only below string keys.
pub uninterp spec fn doc_mapping_keys(v: Value) -> Seq<Seq<Seq<char>>>;

/// The views of a vector of string vectors.
pub open spec fn key_lists_view(s: Seq<Vec<String>>) -> Seq<Seq<Seq<char>>> {
    s.map_values(|v: Vec<String>| strings_view(v@))
}

#[verifier::external_type_specification]
#[verifier::external_body]
pub struct ExValue(Value);

/// Relies on serde_yaml::from_str for Value: parsing is deterministic, and a
/// failed parse's error text names a position.
#[verifier::external_body]
fn parse_yaml(content: &str) -> (r: Result<Value, String>)
    ensures
        (match r {
            Ok(_) => yaml_summary(content@).0 is None,
            Err(e) => yaml_summary(content@).0 == Some(e@),
        }),
        r matches Ok(v) ==> doc_mapping_keys(v) == yaml_summary(content@).1,
{
    serde_yaml::from_str::<Value>(content).map_err(|e| e.to_string())
}

/// Relies on serde_yaml's Mapping: its iteration follows document order, so
/// the walk yields each mapping's keys in depth-first document order.
#[verifier::external_body]
fn mapping_key_lists(root: Value) -> (r: Vec<Vec<String>>)
    ensures
        key_lists_view(r@) == doc_mapping_keys(root),
{
    let (mut o, mut st) = (vec![], vec![root]);
    while let Some(v) = st.pop() {
        if let Value::Mapping(m) = v {
            o.push(m.keys().filter_map(|k| k.as_str().map(str::to_string)).collect());
            let kids: Vec<Value> = m.into_iter().filter(|e| e.0.as_str().is_some()).map(|e| e.1).collect();
            st.extend(kids.into_iter().rev());
        } else if let Value::Sequence(s) = v {
            st.extend(s.into_iter().rev());
        }
    }
    o
}

/// Context information available to rules during linting.
#[derive(Debug)]
pub struct LintContext {
    /// Path of the file being linted.
    pub file_path: String,
    /// Content of the file being linted.
    pub content: String,
    /// The content's characters.
    pub chars: Vec<char>,
    /// The content's lines.
    pub lines: Vec<Vec<char>>,
    /// Current line number being processed (1-based).
    pub current_line: usize,
    /// Path within the YAML structure.
    pub yaml_path: Vec<String>,
    /// The parse error reported for the content, if it is not valid YAML.
    pub parse_error: Option<String>,
    /// String keys of each mapping of the parsed document, document order.
    pub mapping_keys: Vec<Vec<String>>,
}

impl LintContext {
    /// The context is faithful to its content.
    pub open spec fn wf(&self) -> bool {
        &&& self.chars@ == self.content@
        &&& views_of(self.lines@) == lines_spec(self.content@)
        &&& match self.parse_error {
            Some(e) => yaml_summary(self.content@).0 == Some(e@) && self.mapping_keys@.len()
                == 0,
            None => yaml_summary(self.content@).0 is None && key_lists_view(self.mapping_keys@)
                == yaml_summary(self.content@).1,
        }
    }

    /// Create a new lint context.
    pub fn new(file_path: &str, content: &str) -> (r: LintContext)
        ensures
            r.wf(),
            r.file_path@ == file_path@,
            r.content@ == content@,
            r.current_line == 0,
            r.yaml_path@.len() == 0,
    {
        let chars = str_chars(content);
        let lines = split_lines(chars.as_slice());
        let (parse_error, mapping_keys): (Option<String>, Vec<Vec<String>>) = match parse_yaml(
            content,
        ) {
            Ok(root) => (None, mapping_key_lists(root)),
            Err(e) => (Some(e), Vec::new()),
        };
        LintContext {
            file_path: file_path.to_owned(),
            content: content.to_owned(),
            chars,
            lines,
            current_line: 0,
            yaml_path: Vec::new(),
            parse_error,
            mapping_keys,
        }
    }

    /// The file name: what follows the last slash, or `<unknown>` when that
    /// is empty.
    pub fn file_name(&self) -> (r: String)
        ensures
            r@ == file_name_spec(self.file_path@),
    {
        let chars = str_chars(self.file_path.as_str());
        let n = chars.len();
        let mut i: usize = n;
        while i > 0
            invariant
                0 <= i <= n,
                n == chars@.len(),
                chars@ == self.file_path@,
                forall|k: int| i <= k < n ==> chars@[k] != '/',
            decreases i,
        {
            if chars[i - 1] == '/' {
                proof {
                    lemma_last_slash(self.file_path@, i as int);
                }
                let tail = &chars.as_slice()[i..n];
                if tail.len() == 0 {
                    return "<unknown>".to_owned();
                }
                let r = string_from_chars(tail);
                proof {
                    assert(tail@ =~= self.file_path@.skip(i as int));
                }
                return r;
            }
            i = i - 1;
        }
        proof {
            lemma_last_slash(self.file_path@, 0);
            assert(self.file_path@.skip(0) =~= self.file_path@);
        }
        if chars.len() == 0 {
            return "<unknown>".to_owned();
        }
        string_from_chars(chars.as_slice())
    }

    /// The total number of lines.
    pub fn line_count(&self) -> (r: usize)
        requires
            self.wf(),
        ensures
            r == lines_spec(self.content@).len(),
    {
        self.lines.len()
    }

    /// A specific line by 1-based number.
    pub fn get_line(&self, line_number: usize) -> (r: Option<String>)
        requires
            self.wf(),
        ensures
            match r {
                Some(s) => 1 <= line_number <= lines_spec(self.content@).len() && s@ == lines_spec(
                    self.content@,
                )[line_number - 1],
                None => line_number == 0 || line_number > lines_spec(self.content@).len(),
            },
    {
        if line_number == 0 || line_number > self.lines.len() {
            return None;
        }
        let line = &self.lines[line_number - 1];
        Some(string_from_chars(line.as_slice()))
    }

    /// Whether the YAML parsed successfully.
    pub fn has_valid_yaml(&self) -> (r: bool)
        requires
            self.wf(),
        ensures
            r == (yaml_summary(self.content@).0 is None),
    {
        self.parse_error.is_none()
    }

    /// Whether the current YAML path matches a dot-separated pattern, where
    /// `*` matches any one segment.
    pub fn yaml_path_matches(&self, pattern: &str) -> (r: bool)
        ensures
            r == path_matches_spec(strings_view(self.yaml_path@), pattern@),
    {
        let chars = str_chars(pattern);
        let parts = split_dots(chars.as_slice());
        let ghost partsv = split_dots_spec(pattern@);
        if parts.len() != self.yaml_path.len() {
            return false;
        }
        let n = parts.len();
        let mut i: usize = 0;
        while i < n
            invariant
                0 <= i <= n,
                n == parts@.len(),
                n == self.yaml_path@.len(),
                views_of(parts@) == partsv,
                partsv == split_dots_spec(pattern@),
                partsv.len() == strings_view(self.yaml_path@).len(),
                forall|k: int|
                    0 <= k < i ==> (#[trigger] partsv[k] == "*"@ || partsv[k] == strings_view(
                        self.yaml_path@,
                    )[k]),
            decreases n - i,
        {
            let part = &parts[i];
            let is_star = crate::chars::eq_chars_str(part.as_slice(), "*");
            let same = crate::chars::eq_chars_str(part.as_slice(), self.yaml_path[i].as_str());
            proof {
                assert(views_of(parts@)[i as int] == parts@[i as int]@);
                assert(strings_view(self.yaml_path@)[i as int] == self.yaml_path@[i as int]@);
            }
            if !is_star && !same {
                return false;
            }
            i = i + 1;
        }
        true
    }

    /// The current YAML path as a dot-separated string.
    pub fn yaml_path_string(&self) -> (r: String)
        ensures
            r@ == join_dots_spec(strings_view(self.yaml_path@)),
    {
        let mut out = String::new();
        let n = self.yaml_path.len();
        let ghost pv = strings_view(self.yaml_path@);
        let mut i: usize = 0;
        proof {
            assert(pv.take(0) =~= Seq::<Seq<char>>::empty());
            assert(out@ =~= join_dots_spec(pv.take(0)));
        }
        while i < n
            invariant
                0 <= i <= n,
                n == self.yaml_path@.len(),
                pv == strings_view(self.yaml_path@),
                out@ == join_dots_spec(pv.take(i as int)),
            decreases n - i,
        {
            if i > 0 {
                out.append(".");
            }
            out.append(self.yaml_path[i].as_str());
            proof {
                assert(pv.take(i + 1).drop_last() =~= pv.take(i as int));
                assert(pv.take(i + 1)[i as int] == self.yaml_path@[i as int]@);
            }
            i = i + 1;
        }
        proof {
            assert(pv.take(n as int) =~= pv);
        }
        out
    }
}

/// The path's final component: everything after the last `/`.
pub open spec fn file_name_spec(p: Seq<char>) -> Seq<char> {
    let t = tail_after_last_slash(p);
    if t.len() == 0 {
        "<unknown>"@
    } else {
        t
    }
}

/// Everything after the last `/`.
pub open spec fn tail_after_last_slash(p: Seq<char>) -> Seq<char>
    decreases p.len(),
{
    if p.len() == 0 {
        p
    } else if p[p.len() - 1] == '/' {
        Seq::empty()
    } else {
        tail_after_last_slash(p.drop_last()).push(p[p.len() - 1])
    }
}

proof fn lemma_last_slash(p: Seq<char>, i: int)
    requires
        0 <= i <= p.len(),
        i > 0 ==> p[i - 1] == '/',
        forall|k: int| i <= k < p.len() ==> p[k] != '/',
    ensures
        tail_after_last_slash(p) == p.skip(i),
    decreases p.len() - i,
{
    if i == p.len() {
        if i > 0 {
            assert(p.skip(i) =~= Seq::<char>::empty());
        } else {
            assert(p.skip(0) =~= p);
        }
    } else {
        assert(p[p.len() - 1] != '/');
        assert forall|k: int| i <= k < p.drop_last().len() implies #[trigger] p.drop_last()[k]
            != '/' by {
            assert(p.drop_last()[k] == p[k]);
        }
        lemma_last_slash(p.drop_last(), i);
        assert(p.drop_last().skip(i).push(p[p.len() - 1]) =~= p.skip(i));
    }
}

/// Split on dots, keeping every segment.
fn split_dots(s: &[char]) -> (r: Vec<Vec<char>>)
    ensures
        views_of(r@) == split_dots_spec(s@),
    decreases s@.len(),
{
    let slen = s.len();
    let mut out: Vec<Vec<char>> = Vec::new();
    match find_char(s, '.') {
        Some(c) => {
            proof {
                crate::chars::lemma_find_char_spec(s@, '.');
            }
            let head = vstd::slice::slice_to_vec(&s[0..c]);
            proof {
                assert(head@ =~= s@.take(c as int));
            }
            out.push(head);
            let restsub = &s[c + 1..slen];
            proof {
                assert(restsub@ =~= s@.skip(c + 1));
            }
            let mut rest = split_dots(restsub);
            let ghost outpre = out@;
            let ghost restv = rest@;
            out.append(&mut rest);
            proof {
                assert(views_of(out@) =~= views_of(outpre) + views_of(restv));
                assert(views_of(out@) =~= split_dots_spec(s@));
            }
        },
        None => {
            let whole = vstd::slice::slice_to_vec(s);
            out.push(whole);
            proof {
                assert(views_of(out@) =~= seq![s@]);
            }
        },
    }
    out
}

/// A dot-separated join.
pub open spec fn join_dots_spec(parts: Seq<Seq<char>>) -> Seq<char>
    decreases parts.len(),
{
    if parts.len() == 0 {
        Seq::empty()
    } else if parts.len() == 1 {
        parts[0]
    } else {
        join_dots_spec(parts.drop_last()) + "."@ + parts[parts.len() - 1]
    }
}

/// The dot-split of a pattern.
pub open spec fn split_dots_spec(s: Seq<char>) -> Seq<Seq<char>>
    decreases s.len(),
    via split_dots_spec_dec
{
    match find_char_spec(s, '.') {
        Some(i) => seq![s.take(i)] + split_dots_spec(s.skip(i + 1)),
        None => seq![s],
    }
}

#[via_fn]
proof fn split_dots_spec_dec(s: Seq<char>) {
    crate::chars::lemma_find_char_spec(s, '.');
}

/// Whether each pattern segment matches the corresponding path segment,
/// where `*` matches anything, and the lengths agree.
pub open spec fn path_matches_spec(path: Seq<Seq<char>>, pattern: Seq<char>) -> bool {
    let parts = split_dots_spec(pattern);
    parts.len() == path.len() && forall|k: int|
        0 <= k < parts.len() ==> (#[trigger] parts[k] == "*"@ || parts[k] == path[k])
}

} // verus!
