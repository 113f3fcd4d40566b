//! Rule configuration: typed parameter values, per-rule settings, and the
//! rule registry.

pub mod common;
pub mod formatting;
pub mod semantic;
pub mod style;
pub mod syntax;

use vstd::prelude::*;
use crate::linter::problem::Level;

verus! {

broadcast use vstd::seq::axiom_seq_index_decreases, vstd::std_specs::vec::axiom_vec_decreases_to_view, vstd::std_specs::vec::axiom_vec_index_decreases;

/// The mathematical value of a `ConfigValue`.
pub ghost enum ConfigValueV {
    Bool(bool),
    Int(int),
    Str(Seq<char>),
    Array(Seq<ConfigValueV>),
}

/// A typed value usable as a rule parameter.
#[derive(Debug)]
pub enum ConfigValue {
    Bool(bool),
    Int(i64),
    String(String),
    Array(Vec<ConfigValue>),
}

/// The view of a configuration value, with nested arrays viewed elementwise.
pub open spec fn cv_view(v: ConfigValue) -> ConfigValueV
    decreases v,
{
    match v {
        ConfigValue::Bool(b) => ConfigValueV::Bool(b),
        ConfigValue::Int(i) => ConfigValueV::Int(i as int),
        ConfigValue::String(s) => ConfigValueV::Str(s@),
        ConfigValue::Array(a) => ConfigValueV::Array(
            Seq::new(
                a@.len(),
                |i: int|
                    if 0 <= i < a@.len() {
                        cv_view(a@[i])
                    } else {
                        ConfigValueV::Bool(false)
                    },
            ),
        ),
    }
}

impl View for ConfigValue {
    type V = ConfigValueV;

    open spec fn view(&self) -> ConfigValueV {
        cv_view(*self)
    }
}

impl ConfigValue {
    /// The value as a boolean, if it is one.
    pub fn as_bool(&self) -> (r: Option<bool>)
        ensures
            r == (match self@ {
                ConfigValueV::Bool(b) => Some(b),
                _ => None::<bool>,
            }),
    {
        match self {
            ConfigValue::Bool(b) => Some(*b),
            _ => None,
        }
    }

    /// The value as an integer, if it is one.
    pub fn as_int(&self) -> (r: Option<i64>)
        ensures
            match r {
                Some(i) => self@ == ConfigValueV::Int(i as int),
                None => !(self@ is Int),
            },
    {
        match self {
            ConfigValue::Int(i) => Some(*i),
            _ => None,
        }
    }

    /// The value as a string, if it is one.
    pub fn as_string(&self) -> (r: Option<&str>)
        ensures
            match r {
                Some(s) => self@ == ConfigValueV::Str(s@),
                None => !(self@ is Str),
            },
    {
        match self {
            ConfigValue::String(s) => Some(s.as_str()),
            _ => None,
        }
    }

    /// The value as an array, if it is one.
    pub fn as_array(&self) -> (r: Option<&Vec<ConfigValue>>)
        ensures
            match r {
                Some(a) => self@ is Array && a@.len() == self@->Array_0.len(),
                None => !(self@ is Array),
            },
    {
        match self {
            ConfigValue::Array(a) => Some(a),
            _ => None,
        }
    }
}

impl Clone for ConfigValue {
    fn clone(&self) -> (r: ConfigValue)
        ensures
            r@ == self@,
        decreases *self,
    {
        match self {
            ConfigValue::Bool(b) => ConfigValue::Bool(*b),
            ConfigValue::Int(i) => ConfigValue::Int(*i),
            ConfigValue::String(s) => ConfigValue::String(s.clone()),
            ConfigValue::Array(a) => {
                let mut out: Vec<ConfigValue> = Vec::new();
                let mut i: usize = 0;
                while i < a.len()
                    invariant
                        0 <= i <= a@.len(),
                        self == ConfigValue::Array(*a),
                        out@.len() == i,
                        forall|k: int| 0 <= k < i ==> cv_view(#[trigger] out@[k]) == cv_view(a@[k]),
                    decreases a@.len() - i,
                {
                    proof {
                        assert(*a == self->Array_0);
                        assert(decreases_to!(*self => self->Array_0));
                        vstd::std_specs::vec::axiom_vec_index_decreases(*a, i as int);
                        assert(decreases_to!(*self => a@[i as int]));
                    }
                    let c = a[i].clone();
                    out.push(c);
                    i = i + 1;
                }
                proof {
                    assert(cv_view(ConfigValue::Array(out))->Array_0 =~= self@->Array_0);
                }
                ConfigValue::Array(out)
            },
        }
    }
}

impl PartialEq for ConfigValue {
    fn eq(&self, other: &ConfigValue) -> (r: bool)
        decreases *self,
    {
        match (self, other) {
            (ConfigValue::Bool(a), ConfigValue::Bool(b)) => *a == *b,
            (ConfigValue::Int(a), ConfigValue::Int(b)) => *a == *b,
            (ConfigValue::String(a), ConfigValue::String(b)) => *a == *b,
            (ConfigValue::Array(a), ConfigValue::Array(b)) => {
                if a.len() != b.len() {
                    proof {
                        assert(self@->Array_0.len() != other@->Array_0.len());
                    }
                    false
                } else {
                    let mut i: usize = 0;
                    let mut same = true;
                    while i < a.len()
                        invariant
                            0 <= i <= a@.len(),
                            a@.len() == b@.len(),
                            self == ConfigValue::Array(*a),
                            other == ConfigValue::Array(*b),
                            same == (forall|k: int|
                                0 <= k < i ==> cv_view(a@[k]) == cv_view(b@[k])),
                        decreases a@.len() - i,
                    {
                        proof {
                            assert(*a == self->Array_0);
                            assert(decreases_to!(*self => self->Array_0));
                            vstd::std_specs::vec::axiom_vec_index_decreases(*a, i as int);
                            assert(decreases_to!(*self => a@[i as int]));
                        }
                        let e = a[i].eq(&b[i]);
                        same = same && e;
                        i = i + 1;
                    }
                    proof {
                        if same {
                            assert(self@->Array_0 =~= other@->Array_0);
                        } else {
                            assert(exists|k: int|
                                0 <= k < a@.len() && cv_view(a@[k]) != cv_view(b@[k]));
                            let k = choose|k: int|
                                0 <= k < a@.len() && cv_view(a@[k]) != cv_view(b@[k]);
                            assert(self@->Array_0[k] != other@->Array_0[k]);
                        }
                    }
                    same
                }
            },
            _ => false,
        }
    }
}

impl Eq for ConfigValue {}

impl vstd::std_specs::cmp::PartialEqSpecImpl for ConfigValue {
    open spec fn obeys_eq_spec() -> bool {
        true
    }

    open spec fn eq_spec(&self, other: &ConfigValue) -> bool {
        self@ == other@
    }
}

impl From<bool> for ConfigValue {
    fn from(value: bool) -> (r: ConfigValue) {
        ConfigValue::Bool(value)
    }
}

impl vstd::std_specs::convert::FromSpecImpl<bool> for ConfigValue {
    open spec fn obeys_from_spec() -> bool {
        true
    }

    open spec fn from_spec(value: bool) -> ConfigValue {
        ConfigValue::Bool(value)
    }
}

impl From<i64> for ConfigValue {
    fn from(value: i64) -> (r: ConfigValue) {
        ConfigValue::Int(value)
    }
}

impl vstd::std_specs::convert::FromSpecImpl<i64> for ConfigValue {
    open spec fn obeys_from_spec() -> bool {
        true
    }

    open spec fn from_spec(value: i64) -> ConfigValue {
        ConfigValue::Int(value)
    }
}

impl From<String> for ConfigValue {
    fn from(value: String) -> (r: ConfigValue) {
        ConfigValue::String(value)
    }
}

impl vstd::std_specs::convert::FromSpecImpl<String> for ConfigValue {
    open spec fn obeys_from_spec() -> bool {
        true
    }

    open spec fn from_spec(value: String) -> ConfigValue {
        ConfigValue::String(value)
    }
}

impl From<Vec<ConfigValue>> for ConfigValue {
    fn from(value: Vec<ConfigValue>) -> (r: ConfigValue) {
        ConfigValue::Array(value)
    }
}

impl vstd::std_specs::convert::FromSpecImpl<Vec<ConfigValue>> for ConfigValue {
    open spec fn obeys_from_spec() -> bool {
        true
    }

    open spec fn from_spec(value: Vec<ConfigValue>) -> ConfigValue {
        ConfigValue::Array(value)
    }
}

/// An association sequence: parameter names to values, in insertion order.
pub type ParamsV = Seq<(Seq<char>, ConfigValueV)>;

/// First value bound to `k`, if any.
pub open spec fn params_get(s: ParamsV, k: Seq<char>) -> Option<ConfigValueV>
    decreases s.len(),
{
    if s.len() == 0 {
        None
    } else if s[0].0 == k {
        Some(s[0].1)
    } else {
        params_get(s.skip(1), k)
    }
}

/// Bind `k` to `v`: replace the first binding of `k`, or append one.
pub open spec fn params_set(s: ParamsV, k: Seq<char>, v: ConfigValueV) -> ParamsV
    decreases s.len(),
{
    if s.len() == 0 {
        seq![(k, v)]
    } else if s[0].0 == k {
        seq![(k, v)] + s.skip(1)
    } else {
        seq![s[0]] + params_set(s.skip(1), k, v)
    }
}

/// Named parameters of one rule, in insertion order.
#[derive(Debug, Clone)]
pub struct Params {
    pub entries: Vec<(String, ConfigValue)>,
}

impl View for Params {
    type V = ParamsV;

    open spec fn view(&self) -> ParamsV {
        Seq::new(self.entries@.len(), |i: int| (self.entries@[i].0@, self.entries@[i].1@))
    }
}

impl Params {
    /// An empty parameter map.
    pub fn new() -> (r: Params)
        ensures
            r@ == Seq::<(Seq<char>, ConfigValueV)>::empty(),
    {
        let r = Params { entries: Vec::new() };
        proof {
            assert(r@ =~= Seq::<(Seq<char>, ConfigValueV)>::empty());
        }
        r
    }

    /// Whether no parameter is set.
    pub fn is_empty(&self) -> (r: bool)
        ensures
            r == (self@.len() == 0),
    {
        self.entries.is_empty()
    }

    /// The number of parameters.
    pub fn len(&self) -> (r: usize)
        ensures
            r == self@.len(),
    {
        self.entries.len()
    }

    /// The entries, in insertion order.
    pub fn entries(&self) -> (r: &Vec<(String, ConfigValue)>)
        ensures
            r@.len() == self@.len(),
            forall|i: int|
                0 <= i < self@.len() ==> (#[trigger] r@[i].0@, r@[i].1@) == self@[i],
    {
        &self.entries
    }

    /// Look a parameter up by name.
    pub fn get(&self, key: &str) -> (r: Option<&ConfigValue>)
        ensures
            match r {
                Some(v) => params_get(self@, key@) == Some(v@),
                None => params_get(self@, key@) is None,
            },
    {
        let n = self.entries.len();
        let mut i: usize = 0;
        proof {
            assert(self@.skip(0) =~= self@);
        }
        while i < n
            invariant
                0 <= i <= n,
                n == self.entries@.len(),
                params_get(self@, key@) == params_get(self@.skip(i as int), key@),
            decreases n - i,
        {
            let hit = crate::chars::str_eq(self.entries[i].0.as_str(), key);
            proof {
                assert(self@.skip(i as int)[0] == self@[i as int]);
                assert(self@.skip(i as int).skip(1) =~= self@.skip(i + 1));
            }
            if hit {
                return Some(&self.entries[i].1);
            }
            i = i + 1;
        }
        None
    }

    /// Set a parameter, replacing any earlier value under the same name.
    pub fn set(&mut self, key: &str, value: ConfigValue)
        ensures
            final(self)@ == params_set(old(self)@, key@, value@),
    {
        let ghost kseq = key@;
        let ghost orig = self@;
        let n = self.entries.len();
        let mut i: usize = 0;
        while i < n
            invariant
                0 <= i <= n,
                kseq == key@,
                self@ == orig,
                orig == old(self)@,
                n == self.entries@.len(),
                forall|k: int| 0 <= k < i ==> #[trigger] orig[k].0 != kseq,
            decreases n - i,
        {
            let hit = crate::chars::str_eq(self.entries[i].0.as_str(), key);
            proof {
                assert(orig[i as int] == (self.entries@[i as int].0@, self.entries@[i as int].1@));
            }
            if hit {
                let owned = key.to_owned();
                proof {
                    assert(orig[i as int].0 == kseq);
                }
                self.entries.set(i, (owned, value));
                proof {
                    assert(self@ =~~= orig.update(i as int, (kseq, value@)));
                    lemma_params_set_at(orig, kseq, value@, i as int);
                }
                return ;
            }
            proof {
                assert(orig[i as int].0 != kseq);
            }
            i = i + 1;
        }
        let owned = key.to_owned();
        self.entries.push((owned, value));
        proof {
            lemma_params_set_absent(orig, kseq, value@);
            assert(self@ =~~= orig + seq![(kseq, value@)]);
        }
    }
}

/// When the first binding of `k` is at index `i`, `params_set` replaces it
/// in place.
proof fn lemma_params_set_at(s: ParamsV, k: Seq<char>, v: ConfigValueV, i: int)
    requires
        0 <= i < s.len(),
        s[i].0 == k,
        forall|m: int| 0 <= m < i ==> #[trigger] s[m].0 != k,
    ensures
        params_set(s, k, v) == s.update(i, (k, v)),
    decreases i,
{
    if i == 0 {
        assert(params_set(s, k, v) == seq![(k, v)] + s.skip(1));
        assert(seq![(k, v)] + s.skip(1) =~= s.update(0, (k, v)));
    } else {
        assert(s.skip(1)[i - 1].0 == s[i].0);
        assert forall|m: int| 0 <= m < i - 1 implies #[trigger] s.skip(1)[m].0 != k by {
            assert(s.skip(1)[m] == s[m + 1]);
        }
        lemma_params_set_at(s.skip(1), k, v, i - 1);
        assert(seq![s[0]] + s.skip(1).update(i - 1, (k, v)) =~= s.update(i, (k, v)));
    }
}

/// When `k` is unbound, `params_set` appends.
proof fn lemma_params_set_absent(s: ParamsV, k: Seq<char>, v: ConfigValueV)
    requires
        forall|m: int| 0 <= m < s.len() ==> #[trigger] s[m].0 != k,
    ensures
        params_set(s, k, v) == s + seq![(k, v)],
    decreases s.len(),
{
    if s.len() == 0 {
        assert(params_set(s, k, v) =~= s + seq![(k, v)]);
    } else {
        assert forall|m: int| 0 <= m < s.skip(1).len() implies #[trigger] s.skip(1)[m].0
            != k by {
            assert(s.skip(1)[m] == s[m + 1]);
        }
        lemma_params_set_absent(s.skip(1), k, v);
        assert(seq![s[0]] + (s.skip(1) + seq![(k, v)]) =~= s + seq![(k, v)]);
    }
}

/// A rule configuration rejected by a rule's validator.
#[derive(Debug, Clone, PartialEq)]
pub struct ConfigError {
    pub message: String,
}

/// A rule's check failed at runtime.
#[derive(Debug, Clone, PartialEq)]
pub struct RuleError {
    pub message: String,
}

/// Reading back through a set: the set key answers the new value, any other
/// key is unchanged.
pub proof fn lemma_params_get_set(s: ParamsV, k1: Seq<char>, v: ConfigValueV, k2: Seq<char>)
    ensures
        params_get(params_set(s, k1, v), k2) == (if k1 == k2 {
            Some(v)
        } else {
            params_get(s, k2)
        }),
    decreases s.len(),
{
    if s.len() == 0 {
        let r = seq![(k1, v)];
        assert(r[0] == (k1, v));
        assert(r.skip(1) =~= Seq::<(Seq<char>, ConfigValueV)>::empty());
        assert(params_get(r.skip(1), k2) is None);
    } else if s[0].0 == k1 {
        let r = seq![(k1, v)] + s.skip(1);
        assert(params_set(s, k1, v) == r);
        assert(r[0] == (k1, v));
        assert(r.skip(1) =~= s.skip(1));
    } else {
        lemma_params_get_set(s.skip(1), k1, v, k2);
        let r = seq![s[0]] + params_set(s.skip(1), k1, v);
        assert(params_set(s, k1, v) == r);
        assert(r[0] == s[0]);
        assert(r.skip(1) =~= params_set(s.skip(1), k1, v));
    }
}

/// Three distinct parameters set in order are each readable.
pub proof fn lemma_three_params(
    v1: ConfigValueV,
    v2: ConfigValueV,
    v3: ConfigValueV,
    k1: Seq<char>,
    k2: Seq<char>,
    k3: Seq<char>,
)
    requires
        k1 != k2,
        k1 != k3,
        k2 != k3,
    ensures
        ({
            let p = params_set(params_set(params_set(Seq::empty(), k1, v1), k2, v2), k3, v3);
            params_get(p, k1) == Some(v1) && params_get(p, k2) == Some(v2) && params_get(p, k3)
                == Some(v3)
        }),
{
    let p0 = Seq::<(Seq<char>, ConfigValueV)>::empty();
    let p1 = params_set(p0, k1, v1);
    let p2 = params_set(p1, k2, v2);
    lemma_params_get_set(p0, k1, v1, k1);
    lemma_params_get_set(p0, k1, v1, k2);
    lemma_params_get_set(p0, k1, v1, k3);
    lemma_params_get_set(p1, k2, v2, k1);
    lemma_params_get_set(p1, k2, v2, k2);
    lemma_params_get_set(p1, k2, v2, k3);
    lemma_params_get_set(p2, k3, v3, k1);
    lemma_params_get_set(p2, k3, v3, k2);
    lemma_params_get_set(p2, k3, v3, k3);
}

/// The mathematical value of a `RuleConfig`.
pub ghost struct RuleConfigV {
    pub enabled: bool,
    pub level: Level,
    pub params: ParamsV,
}

/// Configuration for a single rule.
#[derive(Debug, Clone)]
pub struct RuleConfig {
    /// Whether the rule is enabled.
    pub enabled: bool,
    /// Severity level for problems found by this rule.
    pub level: Level,
    /// Rule-specific parameters.
    pub params: Params,
}

impl View for RuleConfig {
    type V = RuleConfigV;

    open spec fn view(&self) -> RuleConfigV {
        RuleConfigV { enabled: self.enabled, level: self.level, params: self.params@ }
    }
}

/// A boolean parameter of a rule configuration, by name.
pub open spec fn rc_get_bool(c: RuleConfigV, k: Seq<char>) -> Option<bool> {
    match params_get(c.params, k) {
        Some(ConfigValueV::Bool(b)) => Some(b),
        _ => None,
    }
}

/// An integer parameter of a rule configuration, by name.
pub open spec fn rc_get_int(c: RuleConfigV, k: Seq<char>) -> Option<int> {
    match params_get(c.params, k) {
        Some(ConfigValueV::Int(i)) => Some(i),
        _ => None,
    }
}

/// A string parameter of a rule configuration, by name.
pub open spec fn rc_get_string(c: RuleConfigV, k: Seq<char>) -> Option<Seq<char>> {
    match params_get(c.params, k) {
        Some(ConfigValueV::Str(s)) => Some(s),
        _ => None,
    }
}

impl RuleConfig {
    /// A configuration with the given enablement and level, and no parameters.
    pub fn new(enabled: bool, level: Level) -> (r: RuleConfig)
        ensures
            r@ == (RuleConfigV {
                enabled: enabled,
                level: level,
                params: Seq::<(Seq<char>, ConfigValueV)>::empty(),
            }),
    {
        RuleConfig { enabled, level, params: Params::new() }
    }

    /// A boolean parameter, by name.
    pub fn get_bool(&self, key: &str) -> (r: Option<bool>)
        ensures
            r == rc_get_bool(self@, key@),
    {
        match self.params.get(key) {
            Some(v) => v.as_bool(),
            None => None,
        }
    }

    /// An integer parameter, by name.
    pub fn get_int(&self, key: &str) -> (r: Option<i64>)
        ensures
            match r {
                Some(i) => rc_get_int(self@, key@) == Some(i as int),
                None => rc_get_int(self@, key@) is None,
            },
    {
        match self.params.get(key) {
            Some(v) => v.as_int(),
            None => None,
        }
    }

    /// A string parameter, by name.
    pub fn get_string(&self, key: &str) -> (r: Option<&str>)
        ensures
            match r {
                Some(s) => rc_get_string(self@, key@) == Some(s@),
                None => rc_get_string(self@, key@) is None,
            },
    {
        match self.params.get(key) {
            Some(v) => v.as_string(),
            None => None,
        }
    }

    /// Set a parameter value.
    pub fn set_param(&mut self, key: &str, value: ConfigValue)
        ensures
            final(self)@ == (RuleConfigV {
                enabled: old(self)@.enabled,
                level: old(self)@.level,
                params: params_set(old(self)@.params, key@, value@),
            }),
    {
        self.params.set(key, value);
    }
}

/// An integer parameter, with a default when absent or not an integer.
pub open spec fn int_param_or(c: RuleConfigV, k: Seq<char>, d: int) -> int {
    match rc_get_int(c, k) {
        Some(i) => i,
        None => d,
    }
}

/// A boolean parameter, with a default when absent or not a boolean.
pub open spec fn bool_param_or(c: RuleConfigV, k: Seq<char>, d: bool) -> bool {
    match rc_get_bool(c, k) {
        Some(b) => b,
        None => d,
    }
}

impl RuleConfig {
    /// An integer parameter, with a default when absent or not an integer.
    pub fn int_or(&self, key: &str, d: i64) -> (r: i64)
        ensures
            r as int == int_param_or(self@, key@, d as int),
    {
        match self.get_int(key) {
            Some(i) => i,
            None => d,
        }
    }

    /// A boolean parameter, with a default when absent or not a boolean.
    pub fn bool_or(&self, key: &str, d: bool) -> (r: bool)
        ensures
            r == bool_param_or(self@, key@, d),
    {
        match self.get_bool(key) {
            Some(b) => b,
            None => d,
        }
    }

    /// An owned copy with the same mathematical value.
    pub fn duplicate(&self) -> (r: RuleConfig)
        ensures
            r@ == self@,
    {
        let n = self.params.entries.len();
        let mut entries: Vec<(String, ConfigValue)> = Vec::new();
        let mut i: usize = 0;
        while i < n
            invariant
                0 <= i <= n,
                n == self.params.entries@.len(),
                entries@.len() == i,
                forall|k: int|
                    0 <= k < i ==> (#[trigger] entries@[k].0@, entries@[k].1@)
                        == (self.params.entries@[k].0@, self.params.entries@[k].1@),
            decreases n - i,
        {
            let name = self.params.entries[i].0.clone();
            let value = self.params.entries[i].1.clone();
            entries.push((name, value));
            i = i + 1;
        }
        let r = RuleConfig { enabled: self.enabled, level: self.level, params: Params { entries } };
        proof {
            assert(r@.params =~= self@.params);
        }
        r
    }
}

impl Default for RuleConfig {
    /// Enabled, at `Error` level, with no parameters.
    fn default() -> (r: RuleConfig)
        ensures
            r@ == (RuleConfigV {
                enabled: true,
                level: Level::Error,
                params: Seq::<(Seq<char>, ConfigValueV)>::empty(),
            }),
    {
        RuleConfig::new(true, Level::Error)
    }
}

impl PartialEq for RuleConfig {
    fn eq(&self, other: &RuleConfig) -> (r: bool) {
        if self.enabled != other.enabled || self.level != other.level {
            return false;
        }
        let a = self.params.entries();
        let b = other.params.entries();
        if a.len() != b.len() {
            return false;
        }
        let mut i: usize = 0;
        let mut same = true;
        while i < a.len()
            invariant
                0 <= i <= a@.len(),
                a@.len() == b@.len(),
                a@.len() == self@.params.len(),
                b@.len() == other@.params.len(),
                forall|k: int|
                    0 <= k < a@.len() ==> (#[trigger] a@[k].0@, a@[k].1@) == self@.params[k],
                forall|k: int|
                    0 <= k < b@.len() ==> (#[trigger] b@[k].0@, b@[k].1@) == other@.params[k],
                same == (forall|k: int| 0 <= k < i ==> self@.params[k] == other@.params[k]),
            decreases a@.len() - i,
        {
            let keys_eq = a[i].0 == b[i].0;
            let vals_eq = a[i].1 == b[i].1;
            same = same && keys_eq && vals_eq;
            i = i + 1;
        }
        proof {
            if same {
                assert(self@.params =~= other@.params);
            } else {
                let k = choose|k: int|
                    0 <= k < a@.len() && self@.params[k] != other@.params[k];
                assert(self@.params[k] != other@.params[k]);
            }
        }
        same
    }
}

impl Eq for RuleConfig {}

impl vstd::std_specs::cmp::PartialEqSpecImpl for RuleConfig {
    open spec fn obeys_eq_spec() -> bool {
        true
    }

    open spec fn eq_spec(&self, other: &RuleConfig) -> bool {
        self@ == other@
    }
}


/// One built-in rule, behind a uniform interface.
#[derive(Debug)]
pub enum AnyRule {
    LineLength(crate::rules::style::LineLengthRule),
    TrailingSpaces(crate::rules::style::TrailingSpacesRule),
    EmptyLines(crate::rules::style::EmptyLinesRule),
    Indentation(crate::rules::style::IndentationRule),
    NewLineAtEndOfFile(crate::rules::style::NewLineAtEndOfFileRule),
    KeyDuplicates(crate::rules::syntax::KeyDuplicatesRule),
    DocumentStructure(crate::rules::syntax::DocumentStructureRule),
    Anchors(crate::rules::syntax::AnchorsRule),
    YamlSyntax(crate::rules::syntax::YamlSyntaxRule),
    Comments(crate::rules::syntax::CommentsRule),
    Brackets(crate::rules::formatting::BracketsRule),
    Braces(crate::rules::formatting::BracesRule),
    Colons(crate::rules::formatting::ColonsRule),
    Commas(crate::rules::formatting::CommasRule),
    Hyphens(crate::rules::formatting::HyphensRule),
    Truthy(crate::rules::semantic::TruthyRule),
    QuotedStrings(crate::rules::semantic::QuotedStringsRule),
    KeyOrdering(crate::rules::semantic::KeyOrderingRule),
    FloatValues(crate::rules::semantic::FloatValuesRule),
    OctalValues(crate::rules::semantic::OctalValuesRule),
}

/// The stable id of a rule.
pub open spec fn rule_id_of(r: AnyRule) -> Seq<char> {
    match r {
        AnyRule::LineLength(_) => "line-length"@,
        AnyRule::TrailingSpaces(_) => "trailing-spaces"@,
        AnyRule::EmptyLines(_) => "empty-lines"@,
        AnyRule::Indentation(_) => "indentation"@,
        AnyRule::NewLineAtEndOfFile(_) => "new-line-at-end-of-file"@,
        AnyRule::KeyDuplicates(_) => "key-duplicates"@,
        AnyRule::DocumentStructure(_) => "document-structure"@,
        AnyRule::Anchors(_) => "anchors"@,
        AnyRule::YamlSyntax(_) => "yaml-syntax"@,
        AnyRule::Comments(_) => "comments"@,
        AnyRule::Brackets(_) => "brackets"@,
        AnyRule::Braces(_) => "braces"@,
        AnyRule::Colons(_) => "colons"@,
        AnyRule::Commas(_) => "commas"@,
        AnyRule::Hyphens(_) => "hyphens"@,
        AnyRule::Truthy(_) => "truthy"@,
        AnyRule::QuotedStrings(_) => "quoted-strings"@,
        AnyRule::KeyOrdering(_) => "key-ordering"@,
        AnyRule::FloatValues(_) => "float-values"@,
        AnyRule::OctalValues(_) => "octal-values"@,
    }
}

/// The rule's own default configuration.
pub open spec fn rule_default_of(r: AnyRule) -> RuleConfigV {
    match r {
        AnyRule::LineLength(rr) => crate::rules::style::ll_default_spec(rr.default_max as int),
        AnyRule::TrailingSpaces(_) => RuleConfigV {
            enabled: true,
            level: Level::Error,
            params: Seq::empty(),
        },
        AnyRule::EmptyLines(_) => crate::rules::style::el_default_spec(),
        AnyRule::Indentation(_) => crate::rules::style::ind_default_spec(),
        AnyRule::NewLineAtEndOfFile(_) => RuleConfigV {
            enabled: false,
            level: Level::Error,
            params: Seq::empty(),
        },
        AnyRule::KeyDuplicates(_) => RuleConfigV {
            enabled: false,
            level: Level::Error,
            params: Seq::empty(),
        },
        AnyRule::DocumentStructure(_) => crate::rules::syntax::ds_default_spec(),
        AnyRule::Anchors(_) => crate::rules::syntax::an_default_spec(),
        AnyRule::YamlSyntax(_) => RuleConfigV {
            enabled: true,
            level: Level::Error,
            params: Seq::empty(),
        },
        AnyRule::Comments(_) => crate::rules::syntax::cm_default_spec(),
        AnyRule::Brackets(_) => crate::rules::formatting::pairs_default_spec(),
        AnyRule::Braces(_) => crate::rules::formatting::pairs_default_spec(),
        AnyRule::Colons(_) => crate::rules::formatting::sep_default_spec(),
        AnyRule::Commas(_) => crate::rules::formatting::sep_default_spec(),
        AnyRule::Hyphens(_) => crate::rules::formatting::hy_default_spec(),
        AnyRule::Truthy(_) => crate::rules::semantic::truthy_default_spec(),
        AnyRule::QuotedStrings(_) => crate::rules::semantic::qs_default_spec(),
        AnyRule::KeyOrdering(_) => RuleConfigV {
            enabled: false,
            level: Level::Error,
            params: Seq::empty(),
        },
        AnyRule::FloatValues(_) => crate::rules::semantic::fv_default_spec(),
        AnyRule::OctalValues(_) => crate::rules::semantic::ov_default_spec(),
    }
}

/// Whether a rule's validator accepts a configuration: positive, machine-
/// sized step parameters and non-negative minimum-spacing parameters.
pub open spec fn rule_validate_ok(r: AnyRule, c: RuleConfigV) -> bool {
    match r {
        AnyRule::LineLength(_) => match rc_get_int(c, "max"@) {
            Some(i) => 0 < i <= usize::MAX as int,
            None => true,
        },
        AnyRule::Indentation(_) => crate::rules::style::ind_cfg_ok(c),
        AnyRule::Colons(_) => crate::rules::formatting::sep_cfg_ok(c),
        AnyRule::Commas(_) => crate::rules::formatting::sep_cfg_ok(c),
        AnyRule::Brackets(_) => crate::rules::formatting::pairs_cfg_ok(c),
        AnyRule::Braces(_) => crate::rules::formatting::pairs_cfg_ok(c),
        AnyRule::Comments(_) => crate::rules::syntax::cm_cfg_ok(c),
        _ => true,
    }
}

/// A configuration the validator accepts meets the check's side conditions.
pub proof fn lemma_validate_implies_cfg_ok(r: AnyRule, c: RuleConfigV)
    requires
        rule_validate_ok(r, c),
    ensures
        rule_cfg_ok(r, c),
{
}

/// What a rule's check reports for a content under a configuration.
pub open spec fn rule_check_of(r: AnyRule, content: Seq<char>, c: RuleConfigV) -> Seq<
    crate::linter::problem::ProblemV,
> {
    match r {
        AnyRule::LineLength(rr) => crate::rules::style::ll_check_spec(
            content,
            c,
            rr.default_max as int,
        ),
        AnyRule::TrailingSpaces(_) => crate::rules::style::ts_check_spec(content, c),
        AnyRule::EmptyLines(_) => crate::rules::style::el_check_spec(content, c),
        AnyRule::Indentation(_) => crate::rules::style::ind_check_spec(content, c),
        AnyRule::NewLineAtEndOfFile(_) => crate::rules::style::nl_check_spec(content, c),
        AnyRule::KeyDuplicates(_) => crate::rules::syntax::kd_check_spec(content, c),
        AnyRule::DocumentStructure(_) => crate::rules::syntax::ds_check_spec(content, c),
        AnyRule::Anchors(_) => crate::rules::syntax::an_check_spec(content, c),
        AnyRule::YamlSyntax(_) => crate::rules::syntax::ys_check_spec(content, c),
        AnyRule::Comments(_) => crate::rules::syntax::cm_check_spec(content, c),
        AnyRule::Brackets(_) => crate::rules::formatting::brackets_check_spec(content, c),
        AnyRule::Braces(_) => crate::rules::formatting::braces_check_spec(content, c),
        AnyRule::Colons(_) => crate::rules::formatting::colons_check_spec(content, c),
        AnyRule::Commas(_) => crate::rules::formatting::commas_check_spec(content, c),
        AnyRule::Hyphens(_) => crate::rules::formatting::hyphens_check_spec(content, c),
        AnyRule::Truthy(_) => crate::rules::semantic::truthy_check_spec(content, c),
        AnyRule::QuotedStrings(_) => crate::rules::semantic::qs_check_spec(content, c),
        AnyRule::KeyOrdering(_) => crate::rules::semantic::ko_check_spec(content, c),
        AnyRule::FloatValues(_) => crate::rules::semantic::fv_check_spec(content, c),
        AnyRule::OctalValues(_) => crate::rules::semantic::ov_check_spec(content, c),
    }
}

/// The machine-limit side conditions a rule's check asks of an enabled
/// configuration.
pub open spec fn rule_cfg_ok(r: AnyRule, c: RuleConfigV) -> bool {
    match r {
        AnyRule::LineLength(_) => crate::rules::style::ll_cfg_ok(c),
        AnyRule::Indentation(_) => crate::rules::style::ind_cfg_ok(c),
        AnyRule::Colons(_) => crate::rules::formatting::sep_cfg_ok(c),
        AnyRule::Commas(_) => crate::rules::formatting::sep_cfg_ok(c),
        AnyRule::Brackets(_) => crate::rules::formatting::pairs_cfg_ok(c),
        AnyRule::Braces(_) => crate::rules::formatting::pairs_cfg_ok(c),
        AnyRule::Comments(_) => crate::rules::syntax::cm_cfg_ok(c),
        _ => true,
    }
}

/// A rule value whose fields stay within machine limits.
pub open spec fn rule_wf(r: AnyRule) -> bool {
    match r {
        AnyRule::LineLength(rr) => rr.default_max as int <= i64::MAX as int,
        _ => true,
    }
}

/// Every rule of a registry is well-formed.
pub open spec fn reg_wf(rs: Seq<AnyRule>) -> bool {
    forall|i: int| 0 <= i < rs.len() ==> rule_wf(#[trigger] rs[i])
}

impl AnyRule {
    /// The unique identifier for this rule.
    pub fn id(&self) -> (r: &'static str)
        ensures
            r@ == rule_id_of(*self),
    {
        match self {
            AnyRule::LineLength(rr) => rr.id(),
            AnyRule::TrailingSpaces(rr) => rr.id(),
            AnyRule::EmptyLines(rr) => rr.id(),
            AnyRule::Indentation(rr) => rr.id(),
            AnyRule::NewLineAtEndOfFile(rr) => rr.id(),
            AnyRule::KeyDuplicates(rr) => rr.id(),
            AnyRule::DocumentStructure(rr) => rr.id(),
            AnyRule::Anchors(rr) => rr.id(),
            AnyRule::YamlSyntax(rr) => rr.id(),
            AnyRule::Comments(rr) => rr.id(),
            AnyRule::Brackets(rr) => rr.id(),
            AnyRule::Braces(rr) => rr.id(),
            AnyRule::Colons(rr) => rr.id(),
            AnyRule::Commas(rr) => rr.id(),
            AnyRule::Hyphens(rr) => rr.id(),
            AnyRule::Truthy(rr) => rr.id(),
            AnyRule::QuotedStrings(rr) => rr.id(),
            AnyRule::KeyOrdering(rr) => rr.id(),
            AnyRule::FloatValues(rr) => rr.id(),
            AnyRule::OctalValues(rr) => rr.id(),
        }
    }

    /// A human-readable description of this rule.
    pub fn description(&self) -> (r: &'static str) {
        match self {
            AnyRule::LineLength(rr) => rr.description(),
            AnyRule::TrailingSpaces(rr) => rr.description(),
            AnyRule::EmptyLines(rr) => rr.description(),
            AnyRule::Indentation(rr) => rr.description(),
            AnyRule::NewLineAtEndOfFile(rr) => rr.description(),
            AnyRule::KeyDuplicates(rr) => rr.description(),
            AnyRule::DocumentStructure(rr) => rr.description(),
            AnyRule::Anchors(rr) => rr.description(),
            AnyRule::YamlSyntax(rr) => rr.description(),
            AnyRule::Comments(rr) => rr.description(),
            AnyRule::Brackets(rr) => rr.description(),
            AnyRule::Braces(rr) => rr.description(),
            AnyRule::Colons(rr) => rr.description(),
            AnyRule::Commas(rr) => rr.description(),
            AnyRule::Hyphens(rr) => rr.description(),
            AnyRule::Truthy(rr) => rr.description(),
            AnyRule::QuotedStrings(rr) => rr.description(),
            AnyRule::KeyOrdering(rr) => rr.description(),
            AnyRule::FloatValues(rr) => rr.description(),
            AnyRule::OctalValues(rr) => rr.description(),
        }
    }

    /// The rule's own default configuration.
    pub fn default_config(&self) -> (r: RuleConfig)
        requires
            rule_wf(*self),
        ensures
            r@ == rule_default_of(*self),
    {
        match self {
            AnyRule::LineLength(rr) => rr.default_config(),
            AnyRule::TrailingSpaces(rr) => rr.default_config(),
            AnyRule::EmptyLines(rr) => rr.default_config(),
            AnyRule::Indentation(rr) => rr.default_config(),
            AnyRule::NewLineAtEndOfFile(rr) => rr.default_config(),
            AnyRule::KeyDuplicates(rr) => rr.default_config(),
            AnyRule::DocumentStructure(rr) => rr.default_config(),
            AnyRule::Anchors(rr) => rr.default_config(),
            AnyRule::YamlSyntax(rr) => rr.default_config(),
            AnyRule::Comments(rr) => rr.default_config(),
            AnyRule::Brackets(rr) => rr.default_config(),
            AnyRule::Braces(rr) => rr.default_config(),
            AnyRule::Colons(rr) => rr.default_config(),
            AnyRule::Commas(rr) => rr.default_config(),
            AnyRule::Hyphens(rr) => rr.default_config(),
            AnyRule::Truthy(rr) => rr.default_config(),
            AnyRule::QuotedStrings(rr) => rr.default_config(),
            AnyRule::KeyOrdering(rr) => rr.default_config(),
            AnyRule::FloatValues(rr) => rr.default_config(),
            AnyRule::OctalValues(rr) => rr.default_config(),
        }
    }

    /// Validate a configuration against the rule's own validator.
    pub fn validate_config(&self, config: &RuleConfig) -> (r: Result<(), ConfigError>)
        ensures
            r is Ok <==> rule_validate_ok(*self, config@),
    {
        match self {
            AnyRule::LineLength(rr) => rr.validate_config(config),
            AnyRule::TrailingSpaces(rr) => rr.validate_config(config),
            AnyRule::EmptyLines(rr) => rr.validate_config(config),
            AnyRule::Indentation(rr) => rr.validate_config(config),
            AnyRule::NewLineAtEndOfFile(rr) => rr.validate_config(config),
            AnyRule::KeyDuplicates(rr) => rr.validate_config(config),
            AnyRule::DocumentStructure(rr) => rr.validate_config(config),
            AnyRule::Anchors(rr) => rr.validate_config(config),
            AnyRule::YamlSyntax(rr) => rr.validate_config(config),
            AnyRule::Comments(rr) => rr.validate_config(config),
            AnyRule::Brackets(rr) => rr.validate_config(config),
            AnyRule::Braces(rr) => rr.validate_config(config),
            AnyRule::Colons(rr) => rr.validate_config(config),
            AnyRule::Commas(rr) => rr.validate_config(config),
            AnyRule::Hyphens(rr) => rr.validate_config(config),
            AnyRule::Truthy(rr) => rr.validate_config(config),
            AnyRule::QuotedStrings(rr) => rr.validate_config(config),
            AnyRule::KeyOrdering(rr) => rr.validate_config(config),
            AnyRule::FloatValues(rr) => rr.validate_config(config),
            AnyRule::OctalValues(rr) => rr.validate_config(config),
        }
    }

    /// Run the rule's check.
    pub fn check(
        &self,
        context: &crate::linter::context::LintContext,
        config: &RuleConfig,
    ) -> (r: Result<Vec<crate::linter::problem::Problem>, RuleError>)
        requires
            context.wf(),
            rule_cfg_ok(*self, config@),
            context.content@.len() + 1 < usize::MAX as int,
        ensures
            match r {
                Ok(ps) => crate::linter::problem::pview(ps@) == rule_check_of(
                    *self,
                    context.content@,
                    config@,
                ),
                Err(_) => false,
            },
    {
        match self {
            AnyRule::LineLength(rr) => rr.check(context, config),
            AnyRule::TrailingSpaces(rr) => rr.check(context, config),
            AnyRule::EmptyLines(rr) => rr.check(context, config),
            AnyRule::Indentation(rr) => rr.check(context, config),
            AnyRule::NewLineAtEndOfFile(rr) => rr.check(context, config),
            AnyRule::KeyDuplicates(rr) => rr.check(context, config),
            AnyRule::DocumentStructure(rr) => rr.check(context, config),
            AnyRule::Anchors(rr) => rr.check(context, config),
            AnyRule::YamlSyntax(rr) => rr.check(context, config),
            AnyRule::Comments(rr) => rr.check(context, config),
            AnyRule::Brackets(rr) => rr.check(context, config),
            AnyRule::Braces(rr) => rr.check(context, config),
            AnyRule::Colons(rr) => rr.check(context, config),
            AnyRule::Commas(rr) => rr.check(context, config),
            AnyRule::Hyphens(rr) => rr.check(context, config),
            AnyRule::Truthy(rr) => rr.check(context, config),
            AnyRule::QuotedStrings(rr) => rr.check(context, config),
            AnyRule::KeyOrdering(rr) => rr.check(context, config),
            AnyRule::FloatValues(rr) => rr.check(context, config),
            AnyRule::OctalValues(rr) => rr.check(context, config),
        }
    }
}

/// The built-in rules, in registration order.
pub open spec fn default_registry_seq() -> Seq<AnyRule> {
    seq![
        AnyRule::LineLength(crate::rules::style::LineLengthRule { default_max: 80 }),
        AnyRule::TrailingSpaces(crate::rules::style::TrailingSpacesRule {  }),
        AnyRule::EmptyLines(crate::rules::style::EmptyLinesRule {  }),
        AnyRule::Indentation(crate::rules::style::IndentationRule {  }),
        AnyRule::NewLineAtEndOfFile(crate::rules::style::NewLineAtEndOfFileRule {  }),
        AnyRule::KeyDuplicates(crate::rules::syntax::KeyDuplicatesRule {  }),
        AnyRule::DocumentStructure(crate::rules::syntax::DocumentStructureRule {  }),
        AnyRule::Anchors(crate::rules::syntax::AnchorsRule {  }),
        AnyRule::YamlSyntax(crate::rules::syntax::YamlSyntaxRule {  }),
        AnyRule::Comments(crate::rules::syntax::CommentsRule {  }),
        AnyRule::Brackets(crate::rules::formatting::BracketsRule {  }),
        AnyRule::Braces(crate::rules::formatting::BracesRule {  }),
        AnyRule::Colons(crate::rules::formatting::ColonsRule {  }),
        AnyRule::Commas(crate::rules::formatting::CommasRule {  }),
        AnyRule::Hyphens(crate::rules::formatting::HyphensRule {  }),
        AnyRule::Truthy(crate::rules::semantic::TruthyRule {  }),
        AnyRule::QuotedStrings(crate::rules::semantic::QuotedStringsRule {  }),
        AnyRule::KeyOrdering(crate::rules::semantic::KeyOrderingRule {  }),
        AnyRule::FloatValues(crate::rules::semantic::FloatValuesRule {  }),
        AnyRule::OctalValues(crate::rules::semantic::OctalValuesRule {  }),
    ]
}

/// The first registered rule with the given id, if any.
pub open spec fn reg_find(rs: Seq<AnyRule>, id: Seq<char>) -> Option<AnyRule>
    decreases rs.len(),
{
    if rs.len() == 0 {
        None
    } else if rule_id_of(rs[0]) == id {
        Some(rs[0])
    } else {
        reg_find(rs.skip(1), id)
    }
}

/// Registry for managing all available rules.
#[derive(Debug)]
pub struct RuleRegistry {
    pub rules: Vec<AnyRule>,
}

impl RuleRegistry {
    /// Create a new rule registry.
    pub fn new() -> (r: RuleRegistry)
        ensures
            r.rules@ =~= Seq::<AnyRule>::empty(),
    {
        RuleRegistry { rules: Vec::new() }
    }

    /// Register a rule.
    pub fn register(&mut self, rule: AnyRule)
        requires
            rule_wf(rule),
        ensures
            final(self).rules@ == old(self).rules@.push(rule),
    {
        self.rules.push(rule);
    }

    /// Get a rule by id.
    pub fn get(&self, id: &str) -> (r: Option<&AnyRule>)
        ensures
            match r {
                Some(rr) => reg_find(self.rules@, id@) == Some(*rr),
                None => reg_find(self.rules@, id@) is None,
            },
    {
        let n = self.rules.len();
        let mut i: usize = 0;
        proof {
            assert(self.rules@.skip(0) =~= self.rules@);
        }
        while i < n
            invariant
                0 <= i <= n,
                n == self.rules@.len(),
                reg_find(self.rules@, id@) == reg_find(self.rules@.skip(i as int), id@),
            decreases n - i,
        {
            let hit = crate::chars::str_eq(self.rules[i].id(), id);
            proof {
                assert(self.rules@.skip(i as int)[0] == self.rules@[i as int]);
                assert(self.rules@.skip(i as int).skip(1) =~= self.rules@.skip(i + 1));
            }
            if hit {
                return Some(&self.rules[i]);
            }
            i = i + 1;
        }
        None
    }

    /// All registered rule ids, in registration order.
    pub fn rule_ids(&self) -> (r: Vec<&'static str>)
        ensures
            r@.len() == self.rules@.len(),
            forall|i: int|
                0 <= i < r@.len() ==> #[trigger] r@[i]@ == rule_id_of(self.rules@[i]),
    {
        let n = self.rules.len();
        let mut out: Vec<&'static str> = Vec::new();
        let mut i: usize = 0;
        while i < n
            invariant
                0 <= i <= n,
                n == self.rules@.len(),
                out@.len() == i,
                forall|k: int|
                    0 <= k < i ==> #[trigger] out@[k]@ == rule_id_of(self.rules@[k]),
            decreases n - i,
        {
            let id = self.rules[i].id();
            out.push(id);
            i = i + 1;
        }
        out
    }

    /// All registered rules, in registration order.
    pub fn rules(&self) -> (r: &Vec<AnyRule>)
        ensures
            r == &self.rules,
    {
        &self.rules
    }

    /// A registry holding one instance of every built-in rule.
    pub fn with_default_rules() -> (r: RuleRegistry)
        ensures
            r.rules@ == default_registry_seq(),
            reg_wf(r.rules@),
    {
        let mut registry = RuleRegistry::new();
        registry.register(AnyRule::LineLength(crate::rules::style::LineLengthRule::new()));
        registry.register(AnyRule::TrailingSpaces(crate::rules::style::TrailingSpacesRule::new()));
        registry.register(AnyRule::EmptyLines(crate::rules::style::EmptyLinesRule::new()));
        registry.register(AnyRule::Indentation(crate::rules::style::IndentationRule::new()));
        registry.register(
            AnyRule::NewLineAtEndOfFile(crate::rules::style::NewLineAtEndOfFileRule::new()),
        );
        registry.register(AnyRule::KeyDuplicates(crate::rules::syntax::KeyDuplicatesRule::new()));
        registry.register(
            AnyRule::DocumentStructure(crate::rules::syntax::DocumentStructureRule::new()),
        );
        registry.register(AnyRule::Anchors(crate::rules::syntax::AnchorsRule::new()));
        registry.register(AnyRule::YamlSyntax(crate::rules::syntax::YamlSyntaxRule::new()));
        registry.register(AnyRule::Comments(crate::rules::syntax::CommentsRule::new()));
        registry.register(AnyRule::Brackets(crate::rules::formatting::BracketsRule::new()));
        registry.register(AnyRule::Braces(crate::rules::formatting::BracesRule::new()));
        registry.register(AnyRule::Colons(crate::rules::formatting::ColonsRule::new()));
        registry.register(AnyRule::Commas(crate::rules::formatting::CommasRule::new()));
        registry.register(AnyRule::Hyphens(crate::rules::formatting::HyphensRule::new()));
        registry.register(AnyRule::Truthy(crate::rules::semantic::TruthyRule::new()));
        registry.register(
            AnyRule::QuotedStrings(crate::rules::semantic::QuotedStringsRule::new()),
        );
        registry.register(AnyRule::KeyOrdering(crate::rules::semantic::KeyOrderingRule::new()));
        registry.register(AnyRule::FloatValues(crate::rules::semantic::FloatValuesRule::new()));
        registry.register(AnyRule::OctalValues(crate::rules::semantic::OctalValuesRule::new()));
        proof {
            assert(registry.rules@ =~= default_registry_seq());
        }
        registry
    }
}

impl Default for RuleRegistry {
    fn default() -> Self {
        RuleRegistry::new()
    }
}

} // verus!
