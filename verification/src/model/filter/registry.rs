//! Declaration, configuration and instantiation of filters.
//!
//! A filter is requested by one expression: `jaune`, `jaune:niveau=200`,
//! `noir-blanc:niveau=128,clair=ffcc00`.
//!
//! * [`FilterRequest`] splits the expression;
//! * [`FilterParams`] converts the values (always text at first);
//! * [`FilterFactory`] validates and builds the filter;
//! * [`FilterRegistry`] is the directory of the known factories.

use vstd::prelude::*;

use crate::model::error::FiltroError;
use crate::model::filter::contract::{Filter, FilterChain};
use crate::model::pixel::{parse_hex_color, Rgba8};
use crate::text::{
    find, has_ws, is_whitespace, join, lemma_find_bounds, lemma_text_lt_asymmetric,
    lemma_text_lt_irreflexive, lemma_text_lt_total, lemma_text_lt_transitive, lowercase,
    parse_unsigned, parse_unsigned_str, split_once, split_once_str, str_eq, str_to_string,
    text_less, text_lt, to_lowercase, trim, trim_str,
};

verus! {

/// One `name = value` entry, as texts.
pub type Entry = (Seq<char>, Seq<char>);

/// The value of the first entry named `name`.
pub open spec fn lookup_in<V>(entries: Seq<(Seq<char>, V)>, name: Seq<char>) -> Option<V>
    decreases entries.len(),
{
    if entries.len() == 0 {
        None
    } else if entries[0].0 == name {
        Some(entries[0].1)
    } else {
        lookup_in(entries.drop_first(), name)
    }
}

/// Entry names strictly increasing.
pub open spec fn sorted_names<V>(entries: Seq<(Seq<char>, V)>) -> bool {
    forall|i: int, j: int|
        0 <= i < j < entries.len() ==> text_lt(#[trigger] entries[i].0, #[trigger] entries[j].0)
}

proof fn lemma_lookup_at<V>(entries: Seq<(Seq<char>, V)>, i: int, name: Seq<char>)
    requires
        0 <= i < entries.len(),
        entries[i].0 == name,
        forall|j: int| 0 <= j < i ==> (#[trigger] entries[j]).0 != name,
    ensures
        lookup_in(entries, name) == Some(entries[i].1),
    decreases i,
{
    if i > 0 {
        let t = entries.drop_first();
        assert forall|j: int| 0 <= j < i - 1 implies (#[trigger] t[j]).0 != name by {
            assert(t[j] == entries[j + 1]);
        }
        lemma_lookup_at(t, i - 1, name);
    }
}

proof fn lemma_lookup_absent<V>(entries: Seq<(Seq<char>, V)>, name: Seq<char>)
    requires
        forall|j: int| 0 <= j < entries.len() ==> (#[trigger] entries[j]).0 != name,
    ensures
        lookup_in(entries, name) is None,
    decreases entries.len(),
{
    if entries.len() > 0 {
        let t = entries.drop_first();
        assert forall|j: int| 0 <= j < t.len() implies (#[trigger] t[j]).0 != name by {
            assert(t[j] == entries[j + 1]);
        }
        lemma_lookup_absent(t, name);
    }
}

/// In entries with increasing names, the value of an entry is found by its
/// name, and a name held by no entry is not found.
proof fn lemma_lookup_sorted<V>(entries: Seq<(Seq<char>, V)>, name: Seq<char>)
    requires
        sorted_names(entries),
    ensures
        forall|i: int|
            0 <= i < entries.len() && (#[trigger] entries[i]).0 == name ==> lookup_in(entries, name)
                == Some(entries[i].1),
        (forall|j: int| 0 <= j < entries.len() ==> (#[trigger] entries[j]).0 != name)
            ==> lookup_in(entries, name) is None,
{
    assert forall|i: int|
        0 <= i < entries.len() && (#[trigger] entries[i]).0 == name implies lookup_in(entries, name)
        == Some(entries[i].1) by {
        assert forall|j: int| 0 <= j < i implies (#[trigger] entries[j]).0 != name by {
            assert(text_lt(entries[j].0, entries[i].0));
            lemma_text_lt_irreflexive(name);
        }
        lemma_lookup_at(entries, i, name);
    }
    if forall|j: int| 0 <= j < entries.len() ==> (#[trigger] entries[j]).0 != name {
        lemma_lookup_absent(entries, name);
    }
}

proof fn lemma_replace<V>(s: Seq<(Seq<char>, V)>, i: int, e: (Seq<char>, V))
    requires
        sorted_names(s),
        0 <= i < s.len(),
        s[i].0 == e.0,
    ensures
        sorted_names(s.update(i, e)),
        forall|n: Seq<char>|
            #[trigger] lookup_in(s.update(i, e), n) == (if n == e.0 {
                Some(e.1)
            } else {
                lookup_in(s, n)
            }),
{
    let t = s.update(i, e);
    assert(sorted_names(t)) by {
        assert forall|a: int, b: int| 0 <= a < b < t.len() implies text_lt(
            #[trigger] t[a].0,
            #[trigger] t[b].0,
        ) by {
            assert(text_lt(s[a].0, s[b].0));
        }
    }
    assert forall|n: Seq<char>|
        #[trigger] lookup_in(t, n) == (if n == e.0 {
            Some(e.1)
        } else {
            lookup_in(s, n)
        }) by {
        lemma_lookup_sorted(s, n);
        lemma_lookup_sorted(t, n);
        if n == e.0 {
            assert(t[i].0 == n);
        } else {
            if exists|j: int| 0 <= j < s.len() && (#[trigger] s[j]).0 == n {
                let j = choose|j: int| 0 <= j < s.len() && (#[trigger] s[j]).0 == n;
                assert(j != i);
                assert(t[j] == s[j]);
            } else {
                assert forall|j: int| 0 <= j < t.len() implies (#[trigger] t[j]).0 != n by {
                    if j != i {
                        assert(t[j] == s[j]);
                    }
                }
            }
        }
    }
}

proof fn lemma_insert<V>(s: Seq<(Seq<char>, V)>, i: int, e: (Seq<char>, V))
    requires
        sorted_names(s),
        0 <= i <= s.len(),
        forall|j: int| 0 <= j < i ==> text_lt((#[trigger] s[j]).0, e.0),
        i < s.len() ==> text_lt(e.0, s[i].0),
    ensures
        sorted_names(s.insert(i, e)),
        forall|n: Seq<char>|
            #[trigger] lookup_in(s.insert(i, e), n) == (if n == e.0 {
                Some(e.1)
            } else {
                lookup_in(s, n)
            }),
{
    let t = s.insert(i, e);
    assert(sorted_names(t)) by {
        assert forall|a: int, b: int| 0 <= a < b < t.len() implies text_lt(
            #[trigger] t[a].0,
            #[trigger] t[b].0,
        ) by {
            if b < i {
                assert(text_lt(s[a].0, s[b].0));
            } else if b == i {
                assert(t[a] == s[a]);
            } else if a == i {
                if b - 1 > i {
                    assert(text_lt(s[i].0, s[b - 1].0));
                    lemma_text_lt_transitive(e.0, s[i].0, s[b - 1].0);
                }
            } else if a < i {
                assert(text_lt(s[a].0, e.0));
                if b - 1 > i {
                    assert(text_lt(s[i].0, s[b - 1].0));
                    lemma_text_lt_transitive(e.0, s[i].0, s[b - 1].0);
                }
                lemma_text_lt_transitive(s[a].0, e.0, s[b - 1].0);
            } else {
                assert(text_lt(s[a - 1].0, s[b - 1].0));
            }
        }
    }
    assert forall|n: Seq<char>|
        #[trigger] lookup_in(t, n) == (if n == e.0 {
            Some(e.1)
        } else {
            lookup_in(s, n)
        }) by {
        lemma_lookup_sorted(s, n);
        lemma_lookup_sorted(t, n);
        if n == e.0 {
            assert(t[i].0 == n);
        } else {
            if exists|j: int| 0 <= j < s.len() && (#[trigger] s[j]).0 == n {
                let j = choose|j: int| 0 <= j < s.len() && (#[trigger] s[j]).0 == n;
                if j < i {
                    assert(t[j] == s[j]);
                } else {
                    assert(t[j + 1] == s[j]);
                }
            } else {
                assert forall|j: int| 0 <= j < t.len() implies (#[trigger] t[j]).0 != n by {
                    if j < i {
                        assert(t[j] == s[j]);
                    } else if j > i {
                        assert(t[j] == s[j - 1]);
                    }
                }
            }
        }
    }
}


/// Named parameters meant for a factory.
///
/// Values are text; each accessor takes the default value, so a filter is
/// written without repetitive configuration code. Entries are kept sorted
/// by name, one entry per name.
#[derive(Debug, PartialEq, Eq)]
pub struct FilterParams {
    filter: String,
    values: Vec<(String, String)>,
}

impl Clone for FilterParams {
    fn clone(&self) -> (p: Self)
        ensures
            p.spec_filter() == self.spec_filter(),
            p.entries() == self.entries(),
    {
        proof {
            use_type_invariant(self);
        }
        let n = self.values.len();
        let mut values: Vec<(String, String)> = Vec::new();
        let mut i: usize = 0;
        while i < n
            invariant
                n == self.values@.len(),
                i <= n,
                values@.len() == i,
                forall|j: int|
                    0 <= j < i ==> (#[trigger] values@[j]).0@ == self.values@[j].0@
                        && values@[j].1@ == self.values@[j].1@,
            decreases n - i,
        {
            values.push((self.values[i].0.clone(), self.values[i].1.clone()));
            i = i + 1;
        }
        assert(values@.map_values(|e: (String, String)| (e.0@, e.1@)) =~= self.values@.map_values(
            |e: (String, String)| (e.0@, e.1@),
        ));
        FilterParams { filter: self.filter.clone(), values }
    }
}

impl Default for FilterParams {
    fn default() -> (p: Self)
        ensures
            p.spec_filter() == Seq::<char>::empty(),
            p.entries().len() == 0,
    {
        let p = FilterParams { filter: String::new(), values: Vec::new() };
        assert(p.entries() =~= Seq::<Entry>::empty());
        p
    }
}

/// The message of a value that does not convert.
pub open spec fn not_a_text(raw: Seq<char>, expected: Seq<char>) -> Seq<char> {
    "« "@ + raw + " » n'est pas "@ + expected
}

/// A text naming a boolean: `true`, `vrai`, `oui`, `1` or `false`, `faux`,
/// `non`, `0` (lower case).
pub open spec fn boolean_named(l: Seq<char>) -> Option<bool> {
    if l == "true"@ || l == "vrai"@ || l == "oui"@ || l == "1"@ {
        Some(true)
    } else if l == "false"@ || l == "faux"@ || l == "non"@ || l == "0"@ {
        Some(false)
    } else {
        None
    }
}

/// The parameter error for `name` with `reason`.
pub open spec fn is_invalid(e: FiltroError, filter: Seq<char>, name: Seq<char>, reason: Seq<char>) -> bool {
    e matches FiltroError::InvalidParameter { filter: f, name: n, reason: r } && f@ == filter
        && n@ == name && r@ == reason
}

impl FilterParams {
    #[verifier::type_invariant]
    spec fn names_sorted(self) -> bool {
        sorted_names(self.values@.map_values(|e: (String, String)| (e.0@, e.1@)))
    }

    /// The filter these parameters are meant for.
    pub closed spec fn spec_filter(&self) -> Seq<char> {
        self.filter@
    }

    /// The entries, sorted by name.
    pub closed spec fn entries(&self) -> Seq<Entry> {
        self.values@.map_values(|e: (String, String)| (e.0@, e.1@))
    }

    /// The value given to `name`, if any.
    pub open spec fn lookup(&self, name: Seq<char>) -> Option<Seq<char>> {
        lookup_in(self.entries(), name)
    }

    /// An empty set of parameters meant for `filter`.
    pub fn new(filter: &str) -> (p: Self)
        ensures
            p.spec_filter() == filter@,
            p.entries().len() == 0,
    {
        let p = FilterParams { filter: str_to_string(filter), values: Vec::new() };
        assert(p.entries() =~= Seq::<Entry>::empty());
        p
    }

    /// Gives `name` the value `value`, replacing any earlier one; returns
    /// the parameters themselves, so that calls chain.
    pub fn set(&mut self, name: &str, value: &str) -> (r: &mut Self)
        ensures
            r.spec_filter() == old(self).spec_filter(),
            forall|n: Seq<char>|
                #[trigger] r.lookup(n) == (if n == name@ {
                    Some(value@)
                } else {
                    old(self).lookup(n)
                }),
            *final(self) == *final(r),
    {
        proof {
            use_type_invariant(&*self);
        }
        let mut values: Vec<(String, String)> = Vec::new();
        std::mem::swap(&mut values, &mut self.values);
        let ghost old_entries = values@.map_values(|e: (String, String)| (e.0@, e.1@));
        assert(old_entries == old(self).entries());
        let n = values.len();
        let mut i: usize = 0;
        while i < n && text_less(values[i].0.as_str(), name)
            invariant
                n == values@.len(),
                values@ == old(self).values@,
                old_entries == values@.map_values(|e: (String, String)| (e.0@, e.1@)),
                i <= n,
                forall|j: int| 0 <= j < i ==> text_lt((#[trigger] old_entries[j]).0, name@),
            decreases n - i,
        {
            i = i + 1;
        }
        let ghost ins = (name@, value@);
        if i < n && str_eq(values[i].0.as_str(), name) {
            values.set(i, (str_to_string(name), str_to_string(value)));
            proof {
                let t = values@.map_values(|e: (String, String)| (e.0@, e.1@));
                assert(t =~= old_entries.update(i as int, ins));
                lemma_replace(old_entries, i as int, ins);
            }
        } else {
            values.insert(i, (str_to_string(name), str_to_string(value)));
            proof {
                let t = values@.map_values(|e: (String, String)| (e.0@, e.1@));
                assert(t =~= old_entries.insert(i as int, ins));
                if i < n {
                    assert(!text_lt(old_entries[i as int].0, name@));
                    lemma_text_lt_total(old_entries[i as int].0, name@);
                }
                lemma_insert(old_entries, i as int, ins);
            }
        }
        self.values = values;
        self
    }

    pub fn is_empty(&self) -> (b: bool)
        ensures
            b == (self.entries().len() == 0),
    {
        self.values.len() == 0
    }

    /// The raw value, without conversion.
    pub fn raw(&self, name: &str) -> (r: Option<&str>)
        ensures
            match r {
                Some(v) => self.lookup(name@) == Some(v@),
                None => self.lookup(name@) is None,
            },
    {
        let n = self.values.len();
        let ghost entries = self.entries();
        let mut i: usize = 0;
        while i < n
            invariant
                n == self.values@.len(),
                entries == self.entries(),
                i <= n,
                forall|j: int| 0 <= j < i ==> (#[trigger] entries[j]).0 != name@,
            decreases n - i,
        {
            if str_eq(self.values[i].0.as_str(), name) {
                proof {
                    lemma_lookup_at(entries, i as int, name@);
                }
                return Some(self.values[i].1.as_str());
            }
            i = i + 1;
        }
        proof {
            lemma_lookup_absent(entries, name@);
        }
        None
    }

    /// The text given to `name`, or `default`.
    pub open spec fn spec_text(&self, name: Seq<char>, default: Seq<char>) -> Seq<char> {
        match self.lookup(name) {
            Some(v) => v,
            None => default,
        }
    }

    /// The text value, or the default.
    pub fn text<'a>(&'a self, name: &str, default: &'a str) -> (r: &'a str)
        ensures
            r@ == self.spec_text(name@, default@),
    {
        match self.raw(name) {
            Some(v) => v,
            None => default,
        }
    }

    /// The parameter error for `name` with `reason`, for these parameters.
    pub fn invalid(&self, name: &str, reason: String) -> (e: FiltroError)
        ensures
            is_invalid(e, self.spec_filter(), name@, reason@),
    {
        FiltroError::InvalidParameter {
            filter: self.filter.clone(),
            name: str_to_string(name),
            reason,
        }
    }

    /// The value of `name` read as an unsigned integer no larger than `max`.
    pub open spec fn spec_unsigned(&self, name: Seq<char>, default: nat, max: nat) -> Option<nat> {
        match self.lookup(name) {
            None => Some(default),
            Some(raw) => parse_unsigned(trim(raw), max),
        }
    }

    fn unsigned(&self, name: &str, default: u64, max: u64, expected: &str) -> (r: Result<
        u64,
        FiltroError,
    >)
        requires
            default <= max,
        ensures
            match self.spec_unsigned(name@, default as nat, max as nat) {
                Some(v) => r == Ok::<u64, FiltroError>(v as u64),
                None => r matches Err(e) && is_invalid(
                    e,
                    self.spec_filter(),
                    name@,
                    not_a_text(self.lookup(name@)->0, expected@),
                ),
            },
    {
        match self.raw(name) {
            None => Ok(default),
            Some(raw) => match parse_unsigned_str(trim_str(raw), max) {
                Some(v) => Ok(v),
                None => {
                    let mut m = str_to_string("« ");
                    m.append(raw);
                    m.append(" » n'est pas ");
                    m.append(expected);
                    Err(self.invalid(name, m))
                },
            },
        }
    }

    /// Integer 0–255 (thresholds, components).
    pub fn u8(&self, name: &str, default: u8) -> (r: Result<u8, FiltroError>)
        ensures
            match self.spec_unsigned(name@, default as nat, 255) {
                Some(v) => r == Ok::<u8, FiltroError>(v as u8),
                None => r matches Err(e) && is_invalid(
                    e,
                    self.spec_filter(),
                    name@,
                    not_a_text(self.lookup(name@)->0, "un entier entre 0 et 255"@),
                ),
            },
    {
        match self.unsigned(name, default as u64, 255, "un entier entre 0 et 255") {
            Ok(v) => Ok(v as u8),
            Err(e) => Err(e),
        }
    }

    /// Non-negative integer.
    pub fn u32(&self, name: &str, default: u32) -> (r: Result<u32, FiltroError>)
        ensures
            match self.spec_unsigned(name@, default as nat, u32::MAX as nat) {
                Some(v) => r == Ok::<u32, FiltroError>(v as u32),
                None => r matches Err(e) && is_invalid(
                    e,
                    self.spec_filter(),
                    name@,
                    not_a_text(self.lookup(name@)->0, "un entier positif"@),
                ),
            },
    {
        match self.unsigned(name, default as u64, u32::MAX as u64, "un entier positif") {
            Ok(v) => Ok(v as u32),
            Err(e) => Err(e),
        }
    }

    /// Boolean: `true`/`vrai`/`oui`/`1` or `false`/`faux`/`non`/`0`, in any
    /// case, surrounding whitespace ignored.
    pub fn bool(&self, name: &str, default: bool) -> (r: Result<bool, FiltroError>)
        ensures
            match self.lookup(name@) {
                None => r == Ok::<bool, FiltroError>(default),
                Some(raw) => match boolean_named(lowercase(trim(raw))) {
                    Some(b) => r == Ok::<bool, FiltroError>(b),
                    None => r matches Err(e) && is_invalid(
                        e,
                        self.spec_filter(),
                        name@,
                        "« "@ + lowercase(trim(raw)) + " » n'est pas un booléen"@,
                    ),
                },
            },
    {
        match self.raw(name) {
            None => Ok(default),
            Some(raw) => {
                let l = to_lowercase(trim_str(raw));
                let s = l.as_str();
                if str_eq(s, "true") || str_eq(s, "vrai") || str_eq(s, "oui") || str_eq(s, "1") {
                    Ok(true)
                } else if str_eq(s, "false") || str_eq(s, "faux") || str_eq(s, "non") || str_eq(
                    s,
                    "0",
                ) {
                    Ok(false)
                } else {
                    let mut m = str_to_string("« ");
                    m.append(s);
                    m.append(" » n'est pas un booléen");
                    Err(self.invalid(name, m))
                }
            },
        }
    }

    /// The colour value of `name`, or the default.
    pub open spec fn spec_color(&self, name: Seq<char>, default: Rgba8) -> Option<Rgba8> {
        match self.lookup(name) {
            None => Some(default),
            Some(raw) => parse_hex_color(raw),
        }
    }

    /// Hexadecimal colour: `fefe01`, `#fefe01` or `fefe01ff` (with alpha).
    ///
    /// The comma separates parameters, so the `r,g,b` notation cannot be
    /// used here.
    pub fn color(&self, name: &str, default: Rgba8) -> (r: Result<Rgba8, FiltroError>)
        ensures
            match self.spec_color(name@, default) {
                Some(c) => r == Ok::<Rgba8, FiltroError>(c),
                None => r matches Err(e) && is_invalid(
                    e,
                    self.spec_filter(),
                    name@,
                    "« "@ + self.lookup(name@)->0
                        + " » n'est pas une couleur hexadécimale (ex. fefe01)"@,
                ),
            },
    {
        match self.raw(name) {
            None => Ok(default),
            Some(raw) => match Rgba8::from_hex(raw) {
                Some(c) => Ok(c),
                None => {
                    let mut m = str_to_string("« ");
                    m.append(raw);
                    m.append(" » n'est pas une couleur hexadécimale (ex. fefe01)");
                    Err(self.invalid(name, m))
                },
            },
        }
    }
}

/// Description of a parameter, for the online help and the detection of
/// typos.
///
/// `default` is documentation only: the value applied is the one passed to
/// the accessors of [`FilterParams`].
#[derive(Debug, Clone, Copy, PartialEq, Eq)]
pub struct ParamSpec {
    pub name: &'static str,
    pub default: &'static str,
    pub help: &'static str,
}

/// The names of parameter descriptions.
pub open spec fn spec_names(specs: Seq<ParamSpec>) -> Seq<Seq<char>> {
    specs.map_values(|p: ParamSpec| p.name@)
}

/// Index of the first entry whose name is not among `names`.
pub open spec fn first_unknown(entries: Seq<Entry>, names: Seq<Seq<char>>) -> Option<int>
    decreases entries.len(),
{
    if entries.len() == 0 {
        None
    } else if !names.contains(entries[0].0) {
        Some(0)
    } else {
        match first_unknown(entries.drop_first(), names) {
            Some(i) => Some(i + 1),
            None => None,
        }
    }
}

proof fn lemma_first_unknown_at(entries: Seq<Entry>, names: Seq<Seq<char>>, i: int)
    requires
        0 <= i < entries.len(),
        !names.contains(entries[i].0),
        forall|j: int| 0 <= j < i ==> names.contains((#[trigger] entries[j]).0),
    ensures
        first_unknown(entries, names) == Some(i),
    decreases i,
{
    if i > 0 {
        let t = entries.drop_first();
        assert forall|j: int| 0 <= j < i - 1 implies names.contains((#[trigger] t[j]).0) by {
            assert(t[j] == entries[j + 1]);
        }
        lemma_first_unknown_at(t, names, i - 1);
    }
}

proof fn lemma_first_unknown_none(entries: Seq<Entry>, names: Seq<Seq<char>>)
    requires
        forall|j: int| 0 <= j < entries.len() ==> names.contains((#[trigger] entries[j]).0),
    ensures
        first_unknown(entries, names) is None,
    decreases entries.len(),
{
    if entries.len() > 0 {
        let t = entries.drop_first();
        assert forall|j: int| 0 <= j < t.len() implies names.contains((#[trigger] t[j]).0) by {
            assert(t[j] == entries[j + 1]);
        }
        lemma_first_unknown_none(t, names);
    }
}

/// The reason given for an unknown parameter.
pub open spec fn accepted_text(names: Seq<Seq<char>>) -> Seq<char> {
    if names.len() == 0 {
        "ce filtre n'accepte aucun paramètre"@
    } else {
        "paramètres acceptés : "@ + join(names, ", "@)
    }
}

/// The names of parameter descriptions, joined by `, `.
fn join_names(specs: &[ParamSpec]) -> (s: String)
    ensures
        s@ == join(spec_names(specs@), ", "@),
{
    let n = specs.len();
    let ghost names = spec_names(specs@);
    let mut out = String::new();
    let mut i: usize = 0;
    while i < n
        invariant
            n == specs@.len(),
            names == spec_names(specs@),
            i <= n,
            out@ == join(names.subrange(0, i as int), ", "@),
        decreases n - i,
    {
        let ghost prefix = names.subrange(0, i + 1);
        assert(prefix.drop_last() =~= names.subrange(0, i as int));
        if i > 0 {
            out.append(", ");
        }
        out.append(specs[i].name);
        proof {
            if i == 0 {
                assert(out@ =~= prefix[0]);
            } else {
                assert(out@ =~= join(prefix.drop_last(), ", "@) + ", "@ + prefix.last());
            }
        }
        i = i + 1;
    }
    assert(names.subrange(0, n as int) =~= names);
    out
}

fn is_declared(specs: &[ParamSpec], name: &str) -> (r: bool)
    ensures
        r == spec_names(specs@).contains(name@),
{
    let n = specs.len();
    let ghost names = spec_names(specs@);
    let mut i: usize = 0;
    while i < n
        invariant
            n == specs@.len(),
            names == spec_names(specs@),
            i <= n,
            forall|j: int| 0 <= j < i ==> (#[trigger] names[j]) != name@,
        decreases n - i,
    {
        if str_eq(specs[i].name, name) {
            assert(names[i as int] == name@);
            return true;
        }
        i = i + 1;
    }
    false
}

impl FilterParams {
    /// Rejects the parameters that the factory does not declare, so that
    /// typos show at once; the first unknown name (in name order) is reported.
    pub fn check(&self, specs: &[ParamSpec]) -> (r: Result<(), FiltroError>)
        ensures
            match first_unknown(self.entries(), spec_names(specs@)) {
                None => r is Ok,
                Some(i) => r matches Err(e) && is_invalid(
                    e,
                    self.spec_filter(),
                    self.entries()[i].0,
                    accepted_text(spec_names(specs@)),
                ) && forall|j: int|
                    0 <= j < self.entries().len() && j != i && !spec_names(specs@).contains(
                        #[trigger] self.entries()[j].0,
                    ) ==> text_lt(self.entries()[i].0, self.entries()[j].0),
            },
    {
        proof {
            use_type_invariant(self);
        }
        let n = self.values.len();
        let ghost entries = self.entries();
        let ghost names = spec_names(specs@);
        assert(sorted_names(entries));
        let mut i: usize = 0;
        while i < n
            invariant
                n == self.values@.len(),
                entries == self.entries(),
                sorted_names(entries),
                names == spec_names(specs@),
                i <= n,
                forall|j: int| 0 <= j < i ==> names.contains((#[trigger] entries[j]).0),
            decreases n - i,
        {
            let name = self.values[i].0.as_str();
            if !is_declared(specs, name) {
                proof {
                    lemma_first_unknown_at(entries, names, i as int);
                    assert forall|j: int|
                        0 <= j < entries.len() && j != i && !names.contains(
                            #[trigger] entries[j].0,
                        ) implies text_lt(entries[i as int].0, entries[j].0) by {
                        if j < i {
                            assert(names.contains(entries[j].0));
                        }
                    }
                }
                let reason = if specs.len() == 0 {
                    str_to_string("ce filtre n'accepte aucun paramètre")
                } else {
                    let mut m = str_to_string("paramètres acceptés : ");
                    let known = join_names(specs);
                    m.append(known.as_str());
                    m
                };
                return Err(self.invalid(name, reason));
            }
            i = i + 1;
        }
        proof {
            lemma_first_unknown_none(entries, names);
        }
        Ok(())
    }
}

/// The entry a `key=value` piece gives, if it is not blank.
pub open spec fn piece_entry(piece: Seq<char>) -> Result<Option<Entry>, Seq<char>> {
    if trim(piece).len() == 0 {
        Ok(None)
    } else {
        match split_once(piece, '=') {
            None => Err(piece),
            Some((k, v)) => Ok(Some((trim(k), trim(v)))),
        }
    }
}

/// The entries a comma-separated list of `key=value` pieces gives, blank
/// pieces skipped; `Err` holds the first malformed piece.
pub open spec fn entries_of(rest: Seq<char>) -> Result<Seq<Entry>, Seq<char>>
    decreases rest.len(),
{
    let (piece, tail) = match find(rest, ',') {
        Some(i) => (rest.subrange(0, i), Some(rest.subrange(i + 1, rest.len() as int))),
        None => (rest, None),
    };
    match piece_entry(piece) {
        Err(p) => Err(p),
        Ok(head) => {
            let first = match head {
                Some(e) => seq![e],
                None => Seq::empty(),
            };
            match tail {
                None => Ok(first),
                Some(t) => if t.len() < rest.len() {
                    match entries_of(t) {
                        Err(p) => Err(p),
                        Ok(others) => Ok(first + others),
                    }
                } else {
                    Ok(first)
                },
            }
        },
    }
}

/// The value given last to `name` in a list of entries.
pub open spec fn last_value(entries: Seq<Entry>, name: Seq<char>) -> Option<Seq<char>>
    decreases entries.len(),
{
    if entries.len() == 0 {
        None
    } else if entries.last().0 == name {
        Some(entries.last().1)
    } else {
        last_value(entries.drop_last(), name)
    }
}

/// A filter requested by the user, before resolution.
#[derive(Debug, Clone, PartialEq, Eq)]
pub struct FilterRequest {
    pub id: String,
    pub params: FilterParams,
}

/// What an expression `id` or `id:key=value,key=value` describes: the
/// identifier and the entries, or the message of the configuration error.
pub open spec fn request_expression(expression: Seq<char>) -> Result<(Seq<char>, Seq<Entry>), Seq<char>> {
    let e = trim(expression);
    let (id, rest) = match split_once(e, ':') {
        Some((i, r)) => (trim(i), r),
        None => (e, Seq::empty()),
    };
    if id.len() == 0 {
        Err("expression de filtre invalide : « "@ + e + " »"@)
    } else {
        match entries_of(rest) {
            Err(piece) => Err("paramètre « "@ + trim(piece) + " » mal formé (attendu clé=valeur)"@),
            Ok(entries) => Ok((id, entries)),
        }
    }
}

/// `Ok(done + x)` for `Ok(x)`.
pub open spec fn after(done: Seq<Entry>, r: Result<Seq<Entry>, Seq<char>>) -> Result<Seq<Entry>, Seq<char>> {
    match r {
        Ok(x) => Ok(done + x),
        Err(p) => Err(p),
    }
}

proof fn lemma_last_value_push(s: Seq<Entry>, e: Entry, n: Seq<char>)
    ensures
        last_value(s.push(e), n) == (if e.0 == n {
            Some(e.1)
        } else {
            last_value(s, n)
        }),
{
    assert(s.push(e).drop_last() =~= s);
}

/// `request` is what `expression` reads as: its identifier, parameters
/// meant for that identifier, each holding the last value given to it.
pub open spec fn reads_as(expression: Seq<char>, request: FilterRequest) -> bool {
    request_expression(expression) matches Ok((id, entries)) && request.id@ == id
        && request.params.spec_filter() == id && forall|n: Seq<char>|
        #[trigger] request.params.lookup(n) == last_value(entries, n)
}

impl FilterRequest {
    /// Reads an expression `id` or `id:key=value,key=value`.
    pub fn parse(expression: &str) -> (r: Result<Self, FiltroError>)
        ensures
            match request_expression(expression@) {
                Ok(_) => r matches Ok(req) && reads_as(expression@, req),
                Err(msg) => r matches Err(FiltroError::Config(m)) && m@ == msg,
            },
    {
        let e = trim_str(expression);
        let (id, rest) = match split_once_str(e, ':') {
            Some((i, r)) => (trim_str(i), r),
            None => (e, ""),
        };
        proof {
            reveal_strlit("");
        }
        if id.unicode_len() == 0 {
            let mut m = str_to_string("expression de filtre invalide : « ");
            m.append(e);
            m.append(" »");
            return Err(FiltroError::Config(m));
        }
        let mut params = FilterParams::new(id);
        let ghost mut done: Seq<Entry> = Seq::empty();
        let mut remaining: &str = rest;
        proof {
            assert(done + Seq::<Entry>::empty() =~= Seq::<Entry>::empty());
            match entries_of(rest@) {
                Ok(x) => assert(done + x =~= x),
                Err(_) => {},
            }
        }
        assert(request_expression(expression@) == match entries_of(rest@) {
            Err(piece) => Err("paramètre « "@ + trim(piece) + " » mal formé (attendu clé=valeur)"@),
            Ok(entries) => Ok((id@, entries)),
        });
        loop
            invariant_except_break
                after(done, entries_of(remaining@)) == entries_of(rest@),
            invariant
                request_expression(expression@) == match entries_of(rest@) {
                    Err(piece) => Err(
                        "paramètre « "@ + trim(piece) + " » mal formé (attendu clé=valeur)"@,
                    ),
                    Ok(entries) => Ok((id@, entries)),
                },
                params.spec_filter() == id@,
                forall|n: Seq<char>| #[trigger] params.lookup(n) == last_value(done, n),
            ensures
                entries_of(rest@) == Ok::<Seq<Entry>, Seq<char>>(done),
            decreases remaining@.len(),
        {
            proof {
                lemma_find_bounds(remaining@, ',');
            }
            let (piece, next) = match split_once_str(remaining, ',') {
                Some((p, t)) => (p, Some(t)),
                None => (remaining, None),
            };
            let ghost head = piece_entry(piece@);
            let ghost before = done;
            if trim_str(piece).unicode_len() != 0 {
                match split_once_str(piece, '=') {
                    None => {
                        let mut m = str_to_string("paramètre « ");
                        m.append(trim_str(piece));
                        m.append(" » mal formé (attendu clé=valeur)");
                        return Err(FiltroError::Config(m));
                    },
                    Some((key, value)) => {
                        let k = trim_str(key);
                        let v = trim_str(value);
                        params.set(k, v);
                        proof {
                            done = done.push((k@, v@));
                            assert forall|n: Seq<char>| #[trigger] params.lookup(n) == last_value(
                                done,
                                n,
                            ) by {
                                lemma_last_value_push(before, (k@, v@), n);
                            }
                        }
                    },
                }
            }
            proof {
                let first = match head {
                    Ok(Some(x)) => seq![x],
                    _ => Seq::<Entry>::empty(),
                };
                assert(done =~= before + first);
                match next {
                    Some(t) => {
                        match entries_of(t@) {
                            Ok(x) => {
                                assert(before + (first + x) =~= done + x);
                            },
                            Err(_) => {},
                        }
                    },
                    None => {},
                }
            }
            match next {
                Some(t) => {
                    remaining = t;
                },
                None => {
                    break;
                },
            }
        }
        Ok(FilterRequest { id: str_to_string(id), params })
    }
}

/// Knows how to describe a filter and to build it from parameters.
pub trait FilterFactory: Send + Sync {
    /// Unique identifier, lower case, without whitespace or colon.
    open spec fn spec_id(&self) -> Seq<char> {
        Seq::empty()
    }

    /// The accepted parameters.
    open spec fn spec_parameters(&self) -> Seq<ParamSpec> {
        Seq::empty()
    }

    /// Whether `build` succeeds on these parameters.
    open spec fn spec_accepts(&self, params: FilterParams) -> bool {
        true
    }

    /// Whether `filter` is a filter the factory builds from `params`.
    open spec fn spec_makes(&self, params: FilterParams, filter: Box<dyn Filter>) -> bool {
        true
    }

    /// Unique identifier, lower case, without whitespace or colon.
    fn id(&self) -> (s: &'static str)
        ensures
            s@ == self.spec_id(),
    ;

    /// One-line summary shown by `filtro --list-filters`.
    fn description(&self) -> &'static str;

    /// Accepted parameters (an empty slice when the filter takes none).
    fn parameters(&self) -> (p: &'static [ParamSpec])
        ensures
            p@ == self.spec_parameters(),
    ;

    /// Validates the parameters and builds the filter.
    fn build(&self, params: &FilterParams) -> (r: Result<Box<dyn Filter>, FiltroError>)
        ensures
            r is Ok <==> self.spec_accepts(*params),
            r matches Ok(f) ==> self.spec_makes(*params, f),
    ;
}

/// Whether an identifier can be registered: not empty, in lower case (no
/// letter `A`–`Z`), no whitespace, no colon.
pub open spec fn valid_id(id: Seq<char>) -> bool {
    &&& id.len() > 0
    &&& !has_ws(id)
    &&& !id.contains(':')
    &&& forall|i: int| 0 <= i < id.len() ==> !is_upper(#[trigger] id[i])
}

/// An upper-case letter of the ASCII alphabet.
pub open spec fn is_upper(c: char) -> bool {
    'A' <= c <= 'Z'
}

fn check_id(id: &str) -> (r: bool)
    ensures
        r == valid_id(id@),
{
    let n = id.unicode_len();
    if n == 0 {
        return false;
    }
    let mut i: usize = 0;
    while i < n
        invariant
            n == id@.len(),
            i <= n,
            forall|j: int|
                0 <= j < i ==> !crate::text::is_ws(#[trigger] id@[j]) && id@[j] != ':' && !is_upper(
                    id@[j],
                ),
        decreases n - i,
    {
        let c = id.get_char(i);
        if is_whitespace(c) || c == ':' || ('A' <= c && c <= 'Z') {
            assert(crate::text::is_ws(id@[i as int]) || id@[i as int] == ':' || is_upper(id@[i as int]));
            return false;
        }
        i = i + 1;
    }
    true
}

/// The directory of the filters available at run time.
///
/// The core creates an empty registry; the filters join it at start-up.
/// Factories are kept sorted by identifier, one per identifier.
pub struct FilterRegistry {
    factories: Vec<(&'static str, Box<dyn FilterFactory>)>,
}

/// A list keyed by static names, its names seen as text.
pub open spec fn keyed<V>(s: Seq<(&'static str, V)>) -> Seq<(Seq<char>, V)> {
    s.map_values(|e: (&'static str, V)| (e.0@, e.1))
}

proof fn lemma_keyed_insert<V>(s: Seq<(&'static str, V)>, i: int, x: (&'static str, V))
    requires
        0 <= i <= s.len(),
    ensures
        keyed(s.insert(i, x)) == keyed(s).insert(i, (x.0@, x.1)),
{
    assert(keyed(s.insert(i, x)) =~= keyed(s).insert(i, (x.0@, x.1)));
}

proof fn lemma_pushed<A>(s: Seq<A>, a: A)
    ensures
        s.push(a).len() == s.len() + 1,
        s.push(a)[s.len() as int] == a,
        forall|j: int| 0 <= j < s.len() ==> #[trigger] s.push(a)[j] == s[j],
{
}

/// The registered identifiers of a registry's entries.
pub open spec fn ids_of<V>(entries: Seq<(Seq<char>, V)>) -> Seq<Seq<char>> {
    entries.map_values(|e: (Seq<char>, V)| e.0)
}

proof fn lemma_ids_insert<V>(s: Seq<(Seq<char>, V)>, i: int, e: (Seq<char>, V))
    requires
        0 <= i <= s.len(),
    ensures
        ids_of(s.insert(i, e)).len() == ids_of(s).len() + 1,
        forall|x: Seq<char>|
            #[trigger] ids_of(s.insert(i, e)).contains(x) <==> ids_of(s).contains(x) || x == e.0,
{
    let t = s.insert(i, e);
    assert forall|x: Seq<char>| #[trigger] ids_of(t).contains(x) <==> ids_of(s).contains(x)
        || x == e.0 by {
        if ids_of(t).contains(x) {
            let j = choose|j: int| 0 <= j < ids_of(t).len() && ids_of(t)[j] == x;
            if j < i {
                assert(ids_of(s)[j] == x);
            } else if j > i {
                assert(ids_of(s)[j - 1] == x);
            }
        }
        if ids_of(s).contains(x) {
            let j = choose|j: int| 0 <= j < ids_of(s).len() && ids_of(s)[j] == x;
            if j < i {
                assert(ids_of(t)[j] == x);
            } else {
                assert(ids_of(t)[j + 1] == x);
            }
        }
        if x == e.0 {
            assert(ids_of(t)[i] == x);
        }
    }
}

impl Default for FilterRegistry {
    fn default() -> (r: Self)
        ensures
            r.entries().len() == 0,
    {
        let r = FilterRegistry { factories: Vec::new() };
        assert(r.entries() =~= Seq::<(Seq<char>, Box<dyn FilterFactory>)>::empty());
        r
    }
}

/// The message of an invalid identifier.
pub open spec fn invalid_id_text(id: Seq<char>) -> Seq<char> {
    "identifiant de filtre invalide : « "@ + id + " »"@
}

/// The message of a duplicate identifier.
pub open spec fn duplicate_id_text(id: Seq<char>) -> Seq<char> {
    "deux filtres portent l'identifiant « "@ + id + " »"@
}

impl FilterRegistry {
    #[verifier::type_invariant]
    spec fn ids_sorted(self) -> bool {
        sorted_names(keyed(self.factories@))
    }

    /// The registered (identifier, factory) pairs, by increasing identifier.
    pub closed spec fn entries(&self) -> Seq<(Seq<char>, Box<dyn FilterFactory>)> {
        keyed(self.factories@)
    }

    /// The registered identifiers, increasing.
    pub open spec fn ids(&self) -> Seq<Seq<char>> {
        ids_of(self.entries())
    }

    /// The factory registered under `id`, if any.
    pub open spec fn spec_get(&self, id: Seq<char>) -> Option<Box<dyn FilterFactory>> {
        lookup_in(self.entries(), id)
    }

    pub fn new() -> (r: Self)
        ensures
            r.entries().len() == 0,
    {
        FilterRegistry::default()
    }

    /// Adds a factory under its identifier.
    ///
    /// Fails on a malformed identifier or one already taken; the registry is
    /// then unchanged.
    pub fn register<F: FilterFactory + 'static>(&mut self, factory: F) -> (r: Result<(), FiltroError>)
        ensures
            r is Ok <==> valid_id(factory.spec_id()) && !old(self).ids().contains(factory.spec_id()),
            !valid_id(factory.spec_id()) ==> (r matches Err(FiltroError::Config(m)) && m@
                == invalid_id_text(factory.spec_id())),
            valid_id(factory.spec_id()) && old(self).ids().contains(factory.spec_id()) ==> (r matches Err(
                FiltroError::Config(m),
            ) && m@ == duplicate_id_text(factory.spec_id())),
            r is Err ==> final(self).entries() == old(self).entries(),
            r is Ok ==> final(self).ids().len() == old(self).ids().len() + 1,
            r is Ok ==> forall|x: Seq<char>|
                #[trigger] final(self).ids().contains(x) <==> old(self).ids().contains(x) || x
                    == factory.spec_id(),
            r is Ok ==> forall|x: Seq<char>|
                x != factory.spec_id() ==> #[trigger] final(self).spec_get(x) == old(self).spec_get(x),
            r is Ok ==> final(self).spec_get(factory.spec_id()) is Some,
    {
        proof {
            use_type_invariant(&*self);
        }
        let id = factory.id();
        if !check_id(id) {
            let mut m = str_to_string("identifiant de filtre invalide : « ");
            m.append(id);
            m.append(" »");
            return Err(FiltroError::Config(m));
        }
        let mut factories: Vec<(&'static str, Box<dyn FilterFactory>)> = Vec::new();
        std::mem::swap(&mut factories, &mut self.factories);
        let ghost entries = keyed(factories@);
        let ghost before = factories@;
        assert(entries == old(self).entries());
        let n = factories.len();
        let mut i: usize = 0;
        while i < n && text_less(factories[i].0, id)
            invariant
                n == factories@.len(),
                entries == keyed(factories@),
                i <= n,
                forall|j: int| 0 <= j < i ==> text_lt((#[trigger] entries[j]).0, id@),
            decreases n - i,
        {
            i = i + 1;
        }
        if i < n && str_eq(factories[i].0, id) {
            proof {
                assert(ids_of(entries)[i as int] == id@);
            }
            std::mem::swap(&mut factories, &mut self.factories);
            let mut m = str_to_string("deux filtres portent l'identifiant « ");
            m.append(id);
            m.append(" »");
            return Err(FiltroError::Config(m));
        }
        proof {
            if i < n {
                lemma_text_lt_total(entries[i as int].0, id@);
            }
            assert forall|j: int| 0 <= j < entries.len() implies (#[trigger] entries[j]).0 != id@ by {
                if j < i {
                    lemma_text_lt_asymmetric(entries[j].0, id@);
                } else {
                    if j > i {
                        assert(text_lt(entries[i as int].0, entries[j].0));
                        lemma_text_lt_transitive(id@, entries[i as int].0, entries[j].0);
                    }
                    lemma_text_lt_asymmetric(id@, entries[j].0);
                }
            }
            assert(!ids_of(entries).contains(id@)) by {
                if ids_of(entries).contains(id@) {
                    let j = choose|j: int| 0 <= j < ids_of(entries).len() && ids_of(entries)[j] == id@;
                    assert(entries[j].0 == id@);
                }
            }
        }
        let boxed = boxed_factory(factory);
        let entry = (id, boxed);
        let ghost x = entry;
        let ghost e = (x.0@, x.1);
        factories.insert(i, entry);
        proof {
            let t = keyed(factories@);
            lemma_keyed_insert(before, i as int, x);
            lemma_insert(entries, i as int, e);
            lemma_ids_insert(entries, i as int, e);
        }
        self.factories = factories;
        Ok(())
    }

    pub fn is_empty(&self) -> (b: bool)
        ensures
            b == (self.entries().len() == 0),
    {
        self.factories.len() == 0
    }

    pub fn len(&self) -> (n: usize)
        ensures
            n == self.entries().len(),
    {
        self.factories.len()
    }

    /// The available factories, sorted by identifier.
    pub fn factories(&self) -> (v: Vec<&Box<dyn FilterFactory>>)
        ensures
            v@.len() == self.entries().len(),
            forall|i: int| 0 <= i < v@.len() ==> *#[trigger] v@[i] == self.entries()[i].1,
            forall|i: int, j: int|
                0 <= i < j < self.ids().len() ==> text_lt(
                    #[trigger] self.ids()[i],
                    #[trigger] self.ids()[j],
                ),
    {
        proof {
            use_type_invariant(self);
            assert forall|i: int, j: int| 0 <= i < j < self.ids().len() implies text_lt(
                #[trigger] self.ids()[i],
                #[trigger] self.ids()[j],
            ) by {
                assert(text_lt(self.entries()[i].0, self.entries()[j].0));
            }
        }
        let n = self.factories.len();
        let mut out: Vec<&Box<dyn FilterFactory>> = Vec::new();
        let mut i: usize = 0;
        while i < n
            invariant
                n == self.entries().len(),
                n == self.factories@.len(),
                i <= n,
                out@.len() == i,
                forall|j: int| 0 <= j < i ==> *#[trigger] out@[j] == self.entries()[j].1,
            decreases n - i,
        {
            let ghost prev = out@;
            out.push(&self.factories[i].1);
            proof {
                lemma_pushed(prev, &self.entries()[i as int].1);
            }
            i = i + 1;
        }
        out
    }

    /// The factory registered under `id`.
    pub fn get(&self, id: &str) -> (r: Option<&Box<dyn FilterFactory>>)
        ensures
            r is Some <==> self.spec_get(id@) is Some,
            r matches Some(f) ==> *f == self.spec_get(id@)->0,
    {
        proof {
            use_type_invariant(self);
        }
        let n = self.factories.len();
        let ghost entries = self.entries();
        let mut i: usize = 0;
        while i < n
            invariant
                n == self.factories@.len(),
                entries == self.entries(),
                i <= n,
                forall|j: int| 0 <= j < i ==> (#[trigger] entries[j]).0 != id@,
            decreases n - i,
        {
            if str_eq(self.factories[i].0, id) {
                proof {
                    lemma_lookup_at(entries, i as int, id@);
                }
                return Some(&self.factories[i].1);
            }
            i = i + 1;
        }
        proof {
            lemma_lookup_absent(entries, id@);
        }
        None
    }

    /// The registered identifiers joined by `, `.
    fn available(&self) -> (s: String)
        ensures
            s@ == join(self.ids(), ", "@),
    {
        let n = self.factories.len();
        let ghost ids = self.ids();
        let mut out = String::new();
        let mut i: usize = 0;
        while i < n
            invariant
                n == self.factories@.len(),
                ids == self.ids(),
                i <= n,
                out@ == join(ids.subrange(0, i as int), ", "@),
            decreases n - i,
        {
            let ghost prefix = ids.subrange(0, i + 1);
            assert(prefix.drop_last() =~= ids.subrange(0, i as int));
            if i > 0 {
                out.append(", ");
            }
            out.append(self.factories[i].0);
            proof {
                assert(ids[i as int] == self.factories@[i as int].0@);
                if i == 0 {
                    assert(out@ =~= prefix[0]);
                } else {
                    assert(out@ =~= join(prefix.drop_last(), ", "@) + ", "@ + prefix.last());
                }
            }
            i = i + 1;
        }
        assert(ids.subrange(0, n as int) =~= ids);
        out
    }

    /// Whether a request can be built: its identifier is registered, its
    /// parameters are all declared and the factory accepts them.
    pub open spec fn spec_builds(&self, request: FilterRequest) -> bool {
        match self.spec_get(request.id@) {
            None => false,
            Some(f) => first_unknown(request.params.entries(), spec_names(f.spec_parameters()))
                is None && f.spec_accepts(request.params),
        }
    }

    /// The error with which a request is refused: an unknown identifier, or
    /// the first undeclared parameter; past those, the factory's own error.
    pub open spec fn refused(&self, request: FilterRequest, e: FiltroError) -> bool {
        match self.spec_get(request.id@) {
            None => e matches FiltroError::UnknownFilter { name, available } && name@ == request.id@
                && available@ == join(self.ids(), ", "@),
            Some(f) => match first_unknown(request.params.entries(), spec_names(f.spec_parameters())) {
                Some(i) => is_invalid(
                    e,
                    request.params.spec_filter(),
                    request.params.entries()[i].0,
                    accepted_text(spec_names(f.spec_parameters())),
                ),
                None => true,
            },
        }
    }

    /// Builds a single filter.
    pub fn build(&self, request: &FilterRequest) -> (r: Result<Box<dyn Filter>, FiltroError>)
        ensures
            r is Ok <==> self.spec_builds(*request),
            r matches Err(e) ==> self.refused(*request, e),
            r matches Ok(f) ==> self.spec_get(request.id@)->0.spec_makes(request.params, f),
    {
        let factory = match self.get(request.id.as_str()) {
            Some(f) => f,
            None => {
                return Err(
                    FiltroError::UnknownFilter {
                        name: request.id.clone(),
                        available: self.available(),
                    },
                );
            },
        };
        request.params.check(factory.parameters())?;
        factory.build(&request.params)
    }

    /// `filters` holds, in order, one filter for each of `requests`, made
    /// from its parameters by the factory registered under its identifier:
    /// the chain is the chain of the requests before the last, followed by
    /// a filter made for the last request.
    pub open spec fn made_in_order(
        &self,
        requests: Seq<FilterRequest>,
        filters: Seq<Box<dyn Filter>>,
    ) -> bool
        decreases requests.len(),
    {
        if requests.len() == 0 {
            filters == Seq::<Box<dyn Filter>>::empty()
        } else {
            exists|prefix: Seq<Box<dyn Filter>>, last: Box<dyn Filter>|
                #![trigger prefix.push(last)]
                filters == prefix.push(last) && self.made_in_order(requests.drop_last(), prefix)
                    && self.spec_get(requests.last().id@)->0.spec_makes(requests.last().params, last)
        }
    }

    /// Builds a whole chain, in the given order; stops at the first request
    /// that cannot be built.
    pub fn build_chain(&self, requests: &[FilterRequest]) -> (r: Result<FilterChain, FiltroError>)
        ensures
            r is Ok <==> forall|i: int| 0 <= i < requests@.len() ==> self.spec_builds(
                #[trigger] requests@[i],
            ),
            r matches Ok(c) ==> c.filters().len() == requests@.len(),
            r matches Ok(c) ==> self.made_in_order(requests@, c.filters()),
            r matches Err(e) ==> exists|i: int|
                0 <= i < requests@.len() && (forall|j: int|
                    0 <= j < i ==> self.spec_builds(#[trigger] requests@[j]))
                    && !self.spec_builds(#[trigger] requests@[i]) && self.refused(requests@[i], e),
    {
        let n = requests.len();
        let mut filters: Vec<Box<dyn Filter>> = Vec::new();
        let mut i: usize = 0;
        while i < n
            invariant
                n == requests@.len(),
                i <= n,
                filters@.len() == i,
                forall|j: int| 0 <= j < i ==> self.spec_builds(#[trigger] requests@[j]),
                self.made_in_order(requests@.subrange(0, i as int), filters@),
            decreases n - i,
        {
            let f = self.build(&requests[i])?;
            let ghost prev = filters@;
            let ghost g = f;
            assert(self.spec_get(requests@[i as int].id@)->0.spec_makes(requests@[i as int].params, g));
            filters.push(f);
            proof {
                lemma_pushed(prev, g);
                let done = requests@.subrange(0, i + 1);
                assert(done.drop_last() =~= requests@.subrange(0, i as int));
                assert(done.last() == requests@[i as int]);
                assert(filters@ == prev.push(g));
                assert(self.made_in_order(done, filters@));
            }
            i = i + 1;
        }
        proof {
            assert(requests@.subrange(0, n as int) =~= requests@);
        }
        Ok(FilterChain::new(filters))
    }
}

/// Boxes a factory for the registry. It carries no contract: Verus does
/// not relate a trait object to the value it was made from, so what the
/// registry stores is known only through the identifier it is keyed by.
fn boxed_factory<F: FilterFactory + 'static>(factory: F) -> Box<dyn FilterFactory> {
    Box::new(factory)
}

} // verus!
