//! Matching a URI against a compiled template and reading out the values.
use vstd::prelude::*;
use vstd::string::*;
use vstd::utf8::*;

use crate::codec::{decode_str, decoded};
use crate::error::{Error, ErrorKind};
use crate::template::Operator;

verus! {

/// The regex crate's compiled regular expression, carried as an opaque value.
#[verifier::external_type_specification]
#[verifier::external_body]
pub struct ExRegex(regex::Regex);

/// Whether the regex crate accepts a pattern (`Regex::new` succeeds): a function of the
/// pattern alone.
pub uninterp spec fn regex_compiles(pattern: Seq<char>) -> bool;

/// The capture groups of the leftmost match of `pattern` in `haystack` (group 0 is the whole
/// match), each as its byte range or `None` where it took no part; `None` where nothing
/// matches. A function of the pattern and the haystack alone.
pub uninterp spec fn regex_groups(pattern: Seq<char>, haystack: Seq<char>) -> Option<
    Seq<Option<(usize, usize)>>,
>;

/// A compiled regular expression together with the pattern it was compiled from.
#[derive(Debug)]
pub struct PatternRegex {
    regex: regex::Regex,
    pattern: String,
}

impl PatternRegex {
    pub closed spec fn spec_pattern(&self) -> Seq<char> {
        self.pattern@
    }

    /// The pattern the expression was compiled from.
    pub fn pattern(&self) -> (r: &str)
        ensures
            r@ == self.spec_pattern(),
    {
        self.pattern.as_str()
    }
}

/// Relies on regex::Regex::new: compiles a pattern, or refuses it (a syntax error, or a
/// compiled program over the size limit); the outcome depends on the pattern alone.
#[verifier::external_body]
pub(crate) fn compile_regex(pattern: String) -> (r: Option<PatternRegex>)
    ensures
        r is Some <==> regex_compiles(pattern@),
        r is Some ==> r->0.spec_pattern() == pattern@,
{
    match regex::Regex::new(&pattern) {
        Ok(regex) => Some(PatternRegex { regex, pattern }),
        Err(_) => None,
    }
}

/// The byte range of a group returned with its text.
pub open spec fn span3(g: Option<(usize, usize, String)>) -> Option<(usize, usize)> {
    match g {
        Some((s, e, _)) => Some((s, e)),
        None => None,
    }
}

/// Relies on regex::Regex::captures (with Captures::iter and Match::start, end and as_str):
/// for the leftmost match of `re` in `haystack`, each capture group (group 0 is the whole
/// match) as the byte range it matched and the text there, or `None` where the group took no
/// part; `None` where nothing matches. A range lies within the haystack, with its start not
/// after its end.
#[verifier::external_body]
pub(crate) fn capture_groups(re: &PatternRegex, haystack: &str) -> (r: Option<
    Vec<Option<(usize, usize, String)>>,
>)
    ensures
        r is Some <==> regex_groups(re.spec_pattern(), haystack@) is Some,
        r is Some ==> r->0@.len() == regex_groups(re.spec_pattern(), haystack@)->0.len(),
        r is Some ==> forall|k: int|
            0 <= k < r->0@.len() ==> span3(#[trigger] r->0@[k]) == regex_groups(
                re.spec_pattern(),
                haystack@,
            )->0[k],
        r is Some ==> forall|k: int|
            0 <= k < r->0@.len() && (#[trigger] r->0@[k]) is Some ==> {
                let (s, e, text) = r->0@[k]->0;
                &&& s <= e <= haystack.spec_bytes().len()
                &&& encode_utf8(text@) == haystack.spec_bytes().subrange(s as int, e as int)
            },
{
    re.regex.captures(haystack).map(
        |c| c.iter().map(|m| m.map(|m| (m.start(), m.end(), m.as_str().to_string()))).collect(),
    )
}

/// The value matched by one expression.
#[derive(Debug)]
pub struct Match {
    name: String,
    op: Option<Operator>,
    start: usize,
    end: usize,
    text: String,
}

impl Match {
    pub closed spec fn spec_name(&self) -> Seq<char> {
        self.name@
    }

    pub closed spec fn spec_op(&self) -> Option<Operator> {
        self.op
    }

    pub closed spec fn spec_start(&self) -> usize {
        self.start
    }

    pub closed spec fn spec_end(&self) -> usize {
        self.end
    }

    /// The matched text, as it stands in the input.
    pub closed spec fn spec_text(&self) -> Seq<char> {
        self.text@
    }

    pub(crate) fn new(name: String, op: Option<Operator>, start: usize, end: usize, text: String) -> (r: Self)
        ensures
            r.spec_name() == name@,
            r.spec_op() == op,
            r.spec_start() == start,
            r.spec_end() == end,
            r.spec_text() == text@,
    {
        Match { name, op, start, end, text }
    }

    /// The raw name of the expression.
    pub fn name(&self) -> (r: &str)
        ensures
            r@ == self.spec_name(),
    {
        self.name.as_str()
    }

    /// The value: percent-decoded for an expression without operator, the matched text as it
    /// stands for `+` and `#`.
    pub fn value(&self) -> (r: Result<String, Error>)
        ensures
            self.spec_op() is Some ==> r is Ok && r->Ok_0@ == self.spec_text(),
            self.spec_op() is None ==> match decoded(self.spec_text()) {
                Ok(d) => r is Ok && r->Ok_0@ == d,
                Err(e) => r is Err && r->Err_0.spec_kind() == ErrorKind::InvalidUtf8
                    && r->Err_0.spec_source_index() == e && r->Err_0.spec_source()
                    == self.spec_text(),
            },
    {
        match self.op {
            None => decode_str(self.text.as_str()),
            Some(_) => Ok(self.text.clone()),
        }
    }

    /// The matched text, as it stands in the input.
    pub fn source(&self) -> (r: &str)
        ensures
            r@ == self.spec_text(),
    {
        self.text.as_str()
    }

    /// Byte offset in the input where the match starts.
    pub fn start(&self) -> (r: usize)
        ensures
            r == self.spec_start(),
    {
        self.start
    }

    /// Byte offset in the input where the match ends.
    pub fn end(&self) -> (r: usize)
        ensures
            r == self.spec_end(),
    {
        self.end
    }
}

/// For each expression of a template, in order, its raw name and what it matched.
#[derive(Debug)]
pub struct Captures {
    names: Vec<String>,
    ms: Vec<Option<Match>>,
}

impl Captures {
    #[verifier::type_invariant]
    spec fn inv(&self) -> bool {
        self.names@.len() == self.ms@.len()
    }

    pub closed spec fn spec_names(&self) -> Seq<Seq<char>> {
        self.names@.map_values(|n: String| n@)
    }

    pub closed spec fn spec_matches(&self) -> Seq<Option<Match>> {
        self.ms@
    }

    pub(crate) fn from_parts(names: Vec<String>, ms: Vec<Option<Match>>) -> (r: Self)
        requires
            names@.len() == ms@.len(),
        ensures
            r.spec_names() == names@.map_values(|n: String| n@),
            r.spec_matches() == ms@,
    {
        Captures { names, ms }
    }

    /// Captures of no expression at all.
    pub fn empty() -> (r: Self)
        ensures
            r.spec_names().len() == 0,
            r.spec_matches().len() == 0,
    {
        Captures { names: Vec::new(), ms: Vec::new() }
    }

    /// What the first expression named `name` matched.
    pub fn name(&self, name: &str) -> (r: Option<&Match>)
        ensures
            match r {
                Some(m) => exists|k: int|
                    0 <= k < self.spec_names().len() && self.spec_names()[k] == name@ && (forall|
                        j: int,
                    | 0 <= j < k ==> self.spec_names()[j] != name@) && self.spec_matches()[k]
                        == Some(*m),
                None => forall|k: int|
                    0 <= k < self.spec_names().len() && self.spec_names()[k] == name@ ==> (forall|
                        j: int,
                    | 0 <= j < k ==> self.spec_names()[j] != name@) ==> self.spec_matches()[k]
                        is None,
            },
    {
        proof {
            use_type_invariant(self);
        }
        let key = name.to_owned();
        let mut i: usize = 0;
        while i < self.names.len()
            invariant
                i <= self.names@.len(),
                self.names@.len() == self.ms@.len(),
                key@ == name@,
                forall|j: int| 0 <= j < i ==> self.spec_names()[j] != name@,
            decreases self.names@.len() - i,
        {
            if self.names[i] == key {
                proof {
                    assert(self.spec_names()[i as int] == name@);
                }
                return match &self.ms[i] {
                    Some(m) => {
                        assert(self.spec_matches()[i as int] == Some(*m));
                        Some(m)
                    },
                    None => None,
                };
            }
            i += 1;
        }
        None
    }

    /// What the `i`-th expression matched.
    pub fn get(&self, i: usize) -> (r: Option<&Match>)
        ensures
            match r {
                Some(m) => i < self.spec_matches().len() && self.spec_matches()[i as int] == Some(
                    *m,
                ),
                None => i >= self.spec_matches().len() || self.spec_matches()[i as int] is None,
            },
    {
        if i < self.ms.len() {
            match &self.ms[i] {
                Some(m) => Some(m),
                None => None,
            }
        } else {
            None
        }
    }

    pub fn len(&self) -> (r: usize)
        ensures
            r == self.spec_matches().len(),
    {
        self.ms.len()
    }

    pub fn is_empty(&self) -> (r: bool)
        ensures
            r == (self.spec_matches().len() == 0),
    {
        self.ms.len() == 0
    }

    /// Each expression's raw name with what it matched, in order.
    pub fn iter(&self) -> (r: Vec<(&str, Option<&Match>)>)
        ensures
            r@.len() == self.spec_matches().len(),
            forall|k: int|
                0 <= k < r@.len() ==> (#[trigger] r@[k]).0@ == self.spec_names()[k] && match r@[k].1 {
                    Some(m) => self.spec_matches()[k] == Some(*m),
                    None => self.spec_matches()[k] is None,
                },
    {
        proof {
            use_type_invariant(self);
        }
        let mut r: Vec<(&str, Option<&Match>)> = Vec::new();
        let mut i: usize = 0;
        while i < self.ms.len()
            invariant
                i <= self.ms@.len(),
                self.names@.len() == self.ms@.len(),
                r@.len() == i,
                forall|k: int|
                    0 <= k < i ==> (#[trigger] r@[k]).0@ == self.spec_names()[k] && match r@[k].1 {
                        Some(m) => self.spec_matches()[k] == Some(*m),
                        None => self.spec_matches()[k] is None,
                    },
            decreases self.ms@.len() - i,
        {
            let m = match &self.ms[i] {
                Some(m) => Some(m),
                None => None,
            };
            r.push((self.names[i].as_str(), m));
            i += 1;
        }
        r
    }
}

} // verus!
