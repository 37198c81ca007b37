//! Compiled URI templates: parsing, expansion, and synthesis of the matching pattern.
use vstd::prelude::*;
use vstd::string::*;
use vstd::utf8::encode_utf8;

use crate::codec::{
    byte_index, byte_offset, to_u8, chars_of, encode_char, encode_str_unresreved, encode_str_url, encoded_unreserved,
    encoded_url, is_reserved, is_unreserved, pct_char,
    push_char, reserved, triplet_at, unreserved,
};
use crate::error::{Error, ErrorKind};
use crate::captures::{
    capture_groups, compile_regex, span3, regex_compiles, regex_groups, Captures, Match, PatternRegex,
};
use crate::vars::Vars;

verus! {

broadcast use vstd::seq_lib::group_seq_properties;

/// The operator of an expression: `+` (reserved) or `#` (fragment).
#[derive(Clone, Copy, Debug, PartialEq, Eq, Structural)]
pub enum Operator {
    /// `+`
    Reserved,
    /// `#`
    Fragment,
}

pub open spec fn op_of(c: char) -> Option<Operator> {
    if c == '+' {
        Some(Operator::Reserved)
    } else if c == '#' {
        Some(Operator::Fragment)
    } else {
        None
    }
}

/// What an operator writes before a defined value.
pub open spec fn prefix(op: Operator) -> Seq<char> {
    match op {
        Operator::Reserved => seq![],
        Operator::Fragment => seq!['#'],
    }
}

impl Operator {
    pub fn from_char(c: char) -> (r: Option<Self>)
        ensures
            r == op_of(c),
    {
        match c {
            '+' => Some(Operator::Reserved),
            '#' => Some(Operator::Fragment),
            _ => None,
        }
    }

    pub fn to_prefix(self) -> (r: &'static str)
        ensures
            r@ == prefix(self),
    {
        proof {
            reveal_strlit("");
            reveal_strlit("#");
        }
        match self {
            Operator::Reserved => "",
            Operator::Fragment => "#",
        }
    }
}

// ---------------------------------------------------------------------------
// The grammar
/// One parsed piece of a template.
pub enum Piece {
    /// Characters written out as they are: a reserved or unreserved character, or a `%XX`
    /// sequence.
    Text(Seq<char>),
    /// A character that is written percent-encoded.
    Encoded(char),
    /// An expression: its operator and its raw variable name.
    Var(Option<Operator>, Seq<char>),
}

/// Position of the first `}` at or after `k`, or -1.
pub open spec fn close_from(t: Seq<char>, k: int) -> int
    decreases t.len() - k,
{
    if k < 0 || k >= t.len() {
        -1
    } else if t[k] == '}' {
        k
    } else {
        close_from(t, k + 1)
    }
}

pub open spec fn prepend_pieces(pre: Seq<Piece>, r: Result<Seq<Piece>, int>) -> Result<
    Seq<Piece>,
    int,
> {
    match r {
        Ok(x) => Ok(pre + x),
        Err(e) => Err(e),
    }
}

/// Where the variable name of an expression whose `{` is at `i` starts.
pub open spec fn name_start(t: Seq<char>, i: int) -> int {
    if i + 1 < t.len() && op_of(t[i + 1]) is Some {
        i + 2
    } else {
        i + 1
    }
}

pub open spec fn expr_op(t: Seq<char>, i: int) -> Option<Operator> {
    if i + 1 < t.len() {
        op_of(t[i + 1])
    } else {
        None
    }
}

/// The pieces of `t` from position `i`, or the position of a `{` that is never closed.
pub open spec fn parse_from(t: Seq<char>, i: int) -> Result<Seq<Piece>, int>
    decreases t.len() - i,
    via parse_from_decreases
{
    if i < 0 || i >= t.len() {
        Ok(seq![])
    } else if t[i] == '{' {
        let close = close_from(t, name_start(t, i));
        if close < 0 {
            Err(i)
        } else {
            prepend_pieces(
                seq![Piece::Var(expr_op(t, i), t.subrange(name_start(t, i), close))],
                parse_from(t, close + 1),
            )
        }
    } else if triplet_at(t, i) {
        prepend_pieces(seq![Piece::Text(t.subrange(i, i + 3))], parse_from(t, i + 3))
    } else if unreserved(t[i]) || reserved(t[i]) {
        prepend_pieces(seq![Piece::Text(seq![t[i]])], parse_from(t, i + 1))
    } else {
        prepend_pieces(seq![Piece::Encoded(t[i])], parse_from(t, i + 1))
    }
}

pub(crate) proof fn lemma_close_from(t: Seq<char>, k: int)
    requires
        k >= 0,
    ensures
        close_from(t, k) == -1 || (k <= close_from(t, k) < t.len() && t[close_from(t, k)] == '}'),
    decreases t.len() - k,
{
    if k < t.len() && t[k] != '}' {
        lemma_close_from(t, k + 1);
    }
}

#[via_fn]
proof fn parse_from_decreases(t: Seq<char>, i: int) {
    if 0 <= i < t.len() && t[i] == '{' {
        lemma_close_from(t, name_start(t, i));
    }
}

/// The pieces of a template, or the character position of a `{` that is never closed.
pub open spec fn parse(t: Seq<char>) -> Result<Seq<Piece>, int> {
    parse_from(t, 0)
}

/// The expressions among `ps`, in order: operator and raw name.
pub open spec fn vars_of(ps: Seq<Piece>) -> Seq<(Option<Operator>, Seq<char>)>
    decreases ps.len(),
{
    if ps.len() == 0 {
        seq![]
    } else {
        match ps.last() {
            Piece::Var(op, name) => vars_of(ps.drop_last()).push((op, name)),
            _ => vars_of(ps.drop_last()),
        }
    }
}

// ---------------------------------------------------------------------------
// Expansion
pub open spec fn value_at(vals: Seq<Option<Seq<char>>>, k: int) -> Option<Seq<char>> {
    if 0 <= k < vals.len() {
        vals[k]
    } else {
        None
    }
}

/// What an expression writes for a value: nothing when the value is absent.
pub open spec fn var_expansion(op: Option<Operator>, v: Option<Seq<char>>) -> Seq<char> {
    match v {
        None => seq![],
        Some(x) => match op {
            None => encoded_unreserved(x),
            Some(o) => prefix(o) + encoded_url(x),
        },
    }
}

pub open spec fn piece_expansion(p: Piece, v: Option<Seq<char>>) -> Seq<char> {
    match p {
        Piece::Text(x) => x,
        Piece::Encoded(c) => pct_char(c),
        Piece::Var(op, _) => var_expansion(op, v),
    }
}

/// The expansion of `ps` where the `k`-th expression has the value `vals[k]` (absent past
/// the end of `vals`).
pub open spec fn expansion(ps: Seq<Piece>, vals: Seq<Option<Seq<char>>>) -> Seq<char>
    decreases ps.len(),
{
    if ps.len() == 0 {
        seq![]
    } else {
        expansion(ps.drop_last(), vals) + piece_expansion(
            ps.last(),
            value_at(vals, vars_of(ps.drop_last()).len() as int),
        )
    }
}

// ---------------------------------------------------------------------------
// The matching pattern
/// A regular-expression meta character.
pub open spec fn meta(c: char) -> bool {
    c == '\\' || c == '.' || c == '+' || c == '*' || c == '?' || c == '(' || c == ')' || c == '|'
        || c == '[' || c == ']' || c == '{' || c == '}' || c == '^' || c == '$' || c == '#' || c
        == '&' || c == '-' || c == '~'
}

/// `s` with a backslash before each meta character.
pub open spec fn escaped(s: Seq<char>) -> Seq<char>
    decreases s.len(),
{
    if s.len() == 0 {
        seq![]
    } else {
        escaped(s.drop_last()) + if meta(s.last()) {
            seq!['\\', s.last()]
        } else {
            seq![s.last()]
        }
    }
}

/// Relies on regex::escape: a backslash before each meta character, nothing else changed.
#[verifier::external_body]
fn regex_escape(s: &str) -> (r: String)
    ensures
        r@ == escaped(s@),
{
    regex::escape(s)
}

pub open spec fn simple_group() -> Seq<char> {
    "([A-Za-z0-9\\-._~%]*)"@
}

pub open spec fn operator_group_open() -> Seq<char> {
    "(?:"@
}

pub open spec fn operator_group_close() -> Seq<char> {
    "([A-Za-z0-9\\-._~:/?#\\[\\]@!$&'()*+,;=%]*))?"@
}

/// The pattern that matches what a piece can expand to. Each expression has one capturing
/// group; an expression with an operator sits in an optional group with its prefix.
pub open spec fn piece_pattern(p: Piece) -> Seq<char> {
    match p {
        Piece::Text(x) => escaped(x),
        Piece::Encoded(c) => escaped(pct_char(c)),
        Piece::Var(None, _) => simple_group(),
        Piece::Var(Some(op), _) => operator_group_open() + escaped(prefix(op))
            + operator_group_close(),
    }
}

pub open spec fn patterns(ps: Seq<Piece>) -> Seq<char>
    decreases ps.len(),
{
    if ps.len() == 0 {
        seq![]
    } else {
        patterns(ps.drop_last()) + piece_pattern(ps.last())
    }
}

/// The whole pattern, anchored at both ends.
pub open spec fn pattern_of(ps: Seq<Piece>) -> Seq<char> {
    seq!['^'] + patterns(ps) + seq!['$']
}

// ---------------------------------------------------------------------------
// Compiled templates
/// An expression of a compiled template: its operator and its raw variable name.
#[derive(Debug)]
pub(crate) struct Expr {
    pub(crate) op: Option<Operator>,
    pub(crate) name: String,
}

/// A segment of a compiled template, holding the source text it stands for.
#[derive(Debug)]
pub(crate) enum Segment {
    /// Written out as it is: a reserved or unreserved character, or a `%XX` sequence.
    Literals { text: String },
    /// A character written percent-encoded.
    LiteralsNeedEncode { ch: char },
    /// An expression slot.
    Expr(Expr),
}

pub(crate) open spec fn expr_view(e: Expr) -> (Option<Operator>, Seq<char>) {
    (e.op, e.name@)
}

pub(crate) open spec fn piece_of(s: Segment) -> Piece {
    match s {
        Segment::Literals { text } => Piece::Text(text@),
        Segment::LiteralsNeedEncode { ch } => Piece::Encoded(ch),
        Segment::Expr(e) => Piece::Var(e.op, e.name@),
    }
}

pub(crate) open spec fn pieces_of(segs: Seq<Segment>) -> Seq<Piece> {
    segs.map_values(|s: Segment| piece_of(s))
}

pub open spec fn opt_view(o: Option<String>) -> Option<Seq<char>> {
    match o {
        Some(s) => Some(s@),
        None => None,
    }
}

impl Expr {
    /// The pattern of an expression with operator `op`: one capturing group, inside an
    /// optional group with the prefix where there is an operator.
    fn to_regex(op: Option<Operator>) -> (r: String)
        ensures
            forall|name: Seq<char>| r@ == #[trigger] piece_pattern(Piece::Var(op, name)),
    {
        match op {
            None => String::from_str("([A-Za-z0-9\\-._~%]*)"),
            Some(o) => {
                let mut p = String::from_str("(?:");
                let esc = regex_escape(o.to_prefix());
                p.append(esc.as_str());
                p.append("([A-Za-z0-9\\-._~:/?#\\[\\]@!$&'()*+,;=%]*))?");
                assert(p@ =~= operator_group_open() + escaped(prefix(o)) + operator_group_close());
                p
            },
        }
    }

    fn expand(&self, value: &Option<String>, out: &mut String)
        ensures
            final(out)@ == old(out)@ + var_expansion(self.op, opt_view(*value)),
    {
        match value {
            None => {},
            Some(v) => match self.op {
                Some(op) => {
                    out.append(op.to_prefix());
                    encode_str_url(v.as_str(), out);
                },
                None => {
                    encode_str_unresreved(v.as_str(), out);
                },
            },
        }
    }
}

impl Segment {
    fn expand(&self, values: &Vec<Option<String>>, expr_index: &mut usize, out: &mut String)
        requires
            *old(expr_index) < usize::MAX,
        ensures
            final(out)@ == old(out)@ + piece_expansion(
                piece_of(*self),
                value_at(values@.map_values(|o: Option<String>| opt_view(o)), *old(expr_index) as int),
            ),
            *final(expr_index) == *old(expr_index) + if piece_of(*self) is Var {
                1int
            } else {
                0
            },
    {
        match self {
            Segment::Literals { text } => {
                out.append(text.as_str());
            },
            Segment::LiteralsNeedEncode { ch } => {
                encode_char(*ch, out);
            },
            Segment::Expr(expr) => {
                if *expr_index < values.len() {
                    expr.expand(&values[*expr_index], out);
                }
                *expr_index += 1;
            },
        }
    }
}

/// A URI template (RFC 6570, level 2: `{var}`, `{+var}`, `{#var}`), compiled once.
#[derive(Debug)]
pub struct UriTemplate {
    source: String,
    segments: Vec<Segment>,
    exprs: Vec<Expr>,
    regex: PatternRegex,
}

impl View for UriTemplate {
    type V = Seq<char>;

    /// The template text.
    closed spec fn view(&self) -> Seq<char> {
        self.source@
    }
}

impl UriTemplate {
    #[verifier::type_invariant]
    spec fn inv(&self) -> bool {
        &&& parse(self.source@) == Ok::<Seq<Piece>, int>(pieces_of(self.segments@))
        &&& self.exprs@.map_values(|e: Expr| expr_view(e)) == vars_of(
            pieces_of(self.segments@),
        )
        &&& self.regex.spec_pattern() == pattern_of(pieces_of(self.segments@))
    }

    /// The pieces of the template.
    pub open spec fn pieces(&self) -> Seq<Piece> {
        parse(self@)->Ok_0
    }

    /// The expressions of the template, in order.
    pub open spec fn vars(&self) -> Seq<(Option<Operator>, Seq<char>)> {
        vars_of(self.pieces())
    }

    /// The synthesized matching pattern.
    pub fn pattern(&self) -> (r: &str)
        ensures
            r@ == pattern_of(self.pieces()),
    {
        proof {
            use_type_invariant(self);
        }
        self.regex.pattern()
    }

    /// The template text.
    pub fn source(&self) -> (r: &str)
        ensures
            r@ == self@,
    {
        self.source.as_str()
    }
}


proof fn lemma_pieces_of_push(segs: Seq<Segment>, seg: Segment)
    ensures
        pieces_of(segs.push(seg)) == pieces_of(segs).push(piece_of(seg)),
{
    let a = pieces_of(segs.push(seg));
    let b = pieces_of(segs).push(piece_of(seg));
    assert forall|j: int| 0 <= j < a.len() implies a[j] == b[j] by {
        if j < segs.len() {
            assert(segs.push(seg)[j] == segs[j]);
        }
    }
    assert(a =~= b);
}

proof fn lemma_exprs_push(es: Seq<Expr>, e: Expr)
    ensures
        es.push(e).map_values(|x: Expr| expr_view(x)) == es.map_values(|x: Expr| expr_view(x)).push(
            expr_view(e),
        ),
{
    let a = es.push(e).map_values(|x: Expr| expr_view(x));
    let b = es.map_values(|x: Expr| expr_view(x)).push(expr_view(e));
    assert forall|j: int| 0 <= j < a.len() implies a[j] == b[j] by {
        if j < es.len() {
            assert(es.push(e)[j] == es[j]);
        }
    }
    assert(a =~= b);
}

/// Appending one piece to a sequence of pieces.
proof fn lemma_push_piece(ps: Seq<Piece>, p: Piece, rest: Result<Seq<Piece>, int>)
    ensures
        prepend_pieces(ps, prepend_pieces(seq![p], rest)) == prepend_pieces(ps.push(p), rest),
        patterns(ps.push(p)) == patterns(ps) + piece_pattern(p),
        vars_of(ps.push(p)) == match p {
            Piece::Var(op, name) => vars_of(ps).push((op, name)),
            _ => vars_of(ps),
        },
{
    assert(ps.push(p).drop_last() =~= ps);
    match rest {
        Ok(x) => {
            assert(ps + (seq![p] + x) =~= ps.push(p) + x);
        },
        Err(_) => {},
    }
}

/// Reads the piece that starts at character `i` of `s`: its segment, its pattern, and where
/// the next piece starts.
fn parse_step(s: &str, chars: &Vec<char>, i: usize) -> (r: Result<(Segment, String, usize), Error>)
    requires
        chars@ == s@,
        i < chars@.len(),
    ensures
        match r {
            Ok((seg, pat, next)) => i < next <= chars@.len() && parse_from(s@, i as int)
                == prepend_pieces(seq![piece_of(seg)], parse_from(s@, next as int)) && pat@
                == piece_pattern(piece_of(seg)),
            Err(e) => parse_from(s@, i as int) == Err::<Seq<Piece>, int>(i as int)
                && e.spec_kind() == ErrorKind::InvalidExpression && e.spec_source_index()
                == byte_offset(s@, i as int) && e.spec_source() == s@,
        },
{
    let n = chars.len();
    let ch = chars[i];
    if ch == '{' {
        let op = if i + 1 < n {
            Operator::from_char(chars[i + 1])
        } else {
            None
        };
        let ns = if op.is_some() {
            i + 2
        } else {
            i + 1
        };
        let mut k = ns;
        while k < n && chars[k] != '}'
            invariant
                ns <= k <= n,
                chars@ == s@,
                n == s@.len(),
                close_from(s@, ns as int) == close_from(s@, k as int),
            decreases n - k,
        {
            k += 1;
        }
        if k >= n {
            let at = byte_index(s, chars, i);
            return Err(Error::new(s, at, ErrorKind::InvalidExpression));
        }
        assert(close_from(s@, k as int) == k);
        let name = s.substring_char(ns, k).to_owned();
        let pat = Expr::to_regex(op);
        let seg = Segment::Expr(Expr { op, name });
        assert(pat@ =~= piece_pattern(piece_of(seg)));
        Ok((seg, pat, k + 1))
    } else if ch == '%' && n - i > 2 && to_u8(chars[i + 1]).is_some() && to_u8(
        chars[i + 2],
    ).is_some() {
        let mut text = String::new();
        push_char(&mut text, ch);
        push_char(&mut text, chars[i + 1]);
        push_char(&mut text, chars[i + 2]);
        assert(text@ =~= s@.subrange(i as int, i + 3));
        let pat = regex_escape(text.as_str());
        Ok((Segment::Literals { text }, pat, i + 3))
    } else if is_reserved(ch) || is_unreserved(ch) {
        let mut text = String::new();
        push_char(&mut text, ch);
        assert(text@ =~= seq![ch]);
        let pat = regex_escape(text.as_str());
        Ok((Segment::Literals { text }, pat, i + 1))
    } else {
        let mut enc = String::new();
        encode_char(ch, &mut enc);
        assert(enc@ =~= pct_char(ch));
        let pat = regex_escape(enc.as_str());
        Ok((Segment::LiteralsNeedEncode { ch }, pat, i + 1))
    }
}

impl UriTemplate {
    /// Compiles a template. Fails with `InvalidExpression` at the byte offset of the first
    /// `{` that is never closed. A template without such a `{` fails only where the regex
    /// crate refuses the synthesized pattern (for instance one whose compiled program exceeds
    /// the crate's size limit): then with `InvalidPattern` at offset 0.
    pub fn new(s: &str) -> (r: Result<Self, Error>)
        ensures
            match parse(s@) {
                Ok(ps) => match r {
                    Ok(t) => t@ == s@ && regex_compiles(pattern_of(ps)),
                    Err(e) => !regex_compiles(pattern_of(ps)) && e.spec_kind()
                        == ErrorKind::InvalidPattern && e.spec_source() == s@,
                },
                Err(i) => r is Err && r->Err_0.spec_kind() == ErrorKind::InvalidExpression
                    && r->Err_0.spec_source_index() == byte_offset(s@, i) && r->Err_0.spec_source()
                    == s@,
            },
    {
        let chars = chars_of(s);
        let n = chars.len();
        let mut segments: Vec<Segment> = Vec::new();
        let mut exprs: Vec<Expr> = Vec::new();
        let mut re = String::new();
        push_char(&mut re, '^');
        let mut i: usize = 0;
        proof {
            assert(pieces_of(segments@) =~= Seq::<Piece>::empty());
            assert(exprs@.map_values(|e: Expr| expr_view(e)) =~= Seq::empty());
            assert(re@ =~= seq!['^'] + patterns(pieces_of(segments@)));
        }
        while i < n
            invariant
                chars@ == s@,
                n == s@.len(),
                i <= n,
                parse(s@) == prepend_pieces(pieces_of(segments@), parse_from(s@, i as int)),
                exprs@.map_values(|e: Expr| expr_view(e)) == vars_of(pieces_of(segments@)),
                re@ == seq!['^'] + patterns(pieces_of(segments@)),
            decreases n - i,
        {
            let (seg, pat, next) = match parse_step(s, &chars, i) {
                Ok(step) => step,
                Err(e) => {
                    return Err(e);
                },
            };
            let ghost old_pieces = pieces_of(segments@);
            let ghost old_segs = segments@;
            let ghost old_exprs = exprs@;
            let ghost p = piece_of(seg);
            proof {
                lemma_push_piece(old_pieces, p, parse_from(s@, next as int));
                lemma_pieces_of_push(old_segs, seg);
            }
            match &seg {
                Segment::Expr(e) => {
                    exprs.push(Expr { op: e.op, name: e.name.clone() });
                    proof {
                        lemma_exprs_push(old_exprs, exprs@.last());
                    }
                },
                _ => {},
            }
            segments.push(seg);
            re.append(pat.as_str());
            proof {
                assert(re@ =~= seq!['^'] + patterns(pieces_of(segments@)));
            }
            i = next;
        }
        push_char(&mut re, '$');
        proof {
            assert(re@ =~= pattern_of(pieces_of(segments@)));
            assert(parse_from(s@, i as int) == Ok::<Seq<Piece>, int>(seq![]));
            assert(pieces_of(segments@) + seq![] =~= pieces_of(segments@));
        }
        match compile_regex(re) {
            Some(regex) => Ok(UriTemplate { source: s.to_owned(), segments, exprs, regex }),
            None => Err(Error::new(s, 0, ErrorKind::InvalidPattern)),
        }
    }
}

impl UriTemplate {
    /// Expands the template where the `k`-th expression has the value `values[k]` (no value
    /// past the end of `values`).
    pub fn expand_values(&self, values: &Vec<Option<String>>) -> (r: String)
        ensures
            r@ == expansion(self.pieces(), values@.map_values(|o: Option<String>| opt_view(o))),
    {
        proof {
            use_type_invariant(self);
        }
        let ghost vals = values@.map_values(|o: Option<String>| opt_view(o));
        let ghost ps = pieces_of(self.segments@);
        let mut out = String::new();
        let mut expr_index: usize = 0;
        let mut k: usize = 0;
        proof {
            assert(ps.take(0) =~= Seq::<Piece>::empty());
        }
        while k < self.segments.len()
            invariant
                ps == pieces_of(self.segments@),
                vals == values@.map_values(|o: Option<String>| opt_view(o)),
                k <= self.segments@.len(),
                expr_index <= k,
                expr_index == vars_of(ps.take(k as int)).len(),
                out@ == expansion(ps.take(k as int), vals),
            decreases self.segments@.len() - k,
        {
            proof {
                assert(ps.take(k + 1).drop_last() =~= ps.take(k as int));
            }
            self.segments[k].expand(values, &mut expr_index, &mut out);
            k += 1;
        }
        proof {
            assert(ps.take(k as int) =~= ps);
        }
        out
    }

    /// Expands the template, asking `vars` for the value of each expression once, in order.
    /// An expression without a value writes nothing.
    pub fn expand<V: Vars>(&self, vars: V) -> (r: String)
        ensures
            r@ == expansion(self.pieces(), answers(vars, self.var_names_spec())),
    {
        proof {
            use_type_invariant(self);
            assert(self.exprs@.map_values(|e: Expr| expr_view(e)).len() == self.exprs@.len());
        }
        let ghost names = self.var_names_spec();
        let ghost start = vars;
        let mut vars = vars;
        let mut values: Vec<Option<String>> = Vec::new();
        let mut i: usize = 0;
        while i < self.exprs.len()
            invariant
                i <= self.exprs@.len(),
                self.exprs@.len() == self.vars().len(),
                self.exprs@.map_values(|e: Expr| expr_view(e)) == self.vars(),
                names == self.var_names_spec(),
                values@.len() == i,
                vars == state_after(start, names, i as int),
                forall|k: int|
                    0 <= k < i ==> opt_view(#[trigger] values@[k]) == state_after(
                        start,
                        names,
                        k,
                    ).answer(k as usize, names[k]),
            decreases self.exprs@.len() - i,
        {
            let name = self.var_name(i);
            proof {
                assert(names[i as int] == self.vars()[i as int].1);
            }
            let v = vars.var(i, name);
            values.push(v);
            i += 1;
        }
        let r = self.expand_values(&values);
        proof {
            let vals = values@.map_values(|o: Option<String>| opt_view(o));
            assert(vals =~= answers(start, names));
        }
        r
    }

    /// The raw names of the expressions, in order.
    pub open spec fn var_names_spec(&self) -> Seq<Seq<char>> {
        self.vars().map_values(|v: (Option<Operator>, Seq<char>)| v.1)
    }

    /// The raw name of the `index`-th expression.
    fn var_name(&self, index: usize) -> (r: &str)
        requires
            index < self.vars().len(),
        ensures
            r@ == self.vars()[index as int].1,
    {
        proof {
            use_type_invariant(self);
            assert(self.exprs@.map_values(|e: Expr| expr_view(e))[index as int] == expr_view(
                self.exprs@[index as int],
            ));
        }
        self.exprs[index].name.as_str()
    }

    /// The raw names of the expressions, in order.
    pub fn var_names(&self) -> (r: Vec<&str>)
        ensures
            r@.len() == self.vars().len(),
            forall|k: int| 0 <= k < r@.len() ==> r@[k]@ == self.vars()[k].1,
    {
        proof {
            use_type_invariant(self);
            assert(self.exprs@.map_values(|e: Expr| expr_view(e)).len() == self.exprs@.len());
        }
        let mut r: Vec<&str> = Vec::new();
        let mut i: usize = 0;
        while i < self.exprs.len()
            invariant
                i <= self.exprs@.len(),
                self.exprs@.len() == self.vars().len(),
                r@.len() == i,
                forall|k: int| 0 <= k < i ==> r@[k]@ == self.vars()[k].1,
            decreases self.exprs@.len() - i,
        {
            r.push(self.var_name(i));
            i += 1;
        }
        r
    }

    /// The position of the first expression whose raw name is `name`.
    pub fn find_var_name(&self, name: &str) -> (r: Option<usize>)
        ensures
            match r {
                Some(i) => i < self.vars().len() && self.vars()[i as int].1 == name@ && forall|
                    k: int,
                | 0 <= k < i ==> self.vars()[k].1 != name@,
                None => forall|k: int| 0 <= k < self.vars().len() ==> self.vars()[k].1 != name@,
            },
    {
        proof {
            use_type_invariant(self);
            assert(self.exprs@.map_values(|e: Expr| expr_view(e)).len() == self.exprs@.len());
        }
        let key = name.to_owned();
        let mut i: usize = 0;
        while i < self.exprs.len()
            invariant
                i <= self.exprs@.len(),
                self.exprs@.len() == self.vars().len(),
                key@ == name@,
                forall|k: int| 0 <= k < i ==> self.vars()[k].1 != name@,
            decreases self.exprs@.len() - i,
        {
            let cand = self.var_name(i);
            if cand.to_owned() == key {
                return Some(i);
            }
            i += 1;
        }
        None
    }
}

/// The state of `v` once it has been asked about the first `k` of the expressions named
/// `names`, in order.
pub open spec fn state_after<V: Vars>(v: V, names: Seq<Seq<char>>, k: int) -> V
    decreases k,
{
    if k <= 0 {
        v
    } else {
        state_after(v, names, k - 1).after((k - 1) as usize, names[k - 1])
    }
}

/// What `v` answers for each of the expressions named `names`, asked once each, in order.
pub open spec fn answers<V: Vars>(v: V, names: Seq<Seq<char>>) -> Seq<Option<Seq<char>>> {
    Seq::new(names.len(), |k: int| state_after(v, names, k).answer(k as usize, names[k]))
}

/// The byte range of a match, if there is one.
pub open spec fn span_of(m: Option<Match>) -> Option<(usize, usize)> {
    match m {
        Some(x) => Some((x.spec_start(), x.spec_end())),
        None => None,
    }
}

/// Group `k` of a regex match, `None` past the last group.
pub open spec fn group_at(g: Seq<Option<(usize, usize)>>, k: int) -> Option<(usize, usize)> {
    if 0 <= k < g.len() {
        g[k]
    } else {
        None
    }
}

/// `m` was matched by an expression `v` in an input whose bytes are `input`.
pub open spec fn match_fits(m: Match, v: (Option<Operator>, Seq<char>), input: Seq<u8>) -> bool {
    &&& m.spec_name() == v.1
    &&& m.spec_op() == v.0
    &&& m.spec_start() <= m.spec_end() <= input.len()
    &&& encode_utf8(m.spec_text()) == input.subrange(m.spec_start() as int, m.spec_end() as int)
}

impl UriTemplate {
    /// Matches the whole of `input` against the template. Where it matches, the `k`-th
    /// entry holds what the `k`-th expression matched, if it took part in the match.
    pub fn captures(&self, input: &str) -> (r: Option<Captures>)
        ensures
            r is Some <==> regex_groups(pattern_of(self.pieces()), input@) is Some,
            r is Some ==> forall|k: int|
                0 <= k < self.vars().len() ==> span_of(#[trigger] r->0.spec_matches()[k])
                    == group_at(regex_groups(pattern_of(self.pieces()), input@)->0, k + 1),
            r is Some ==> r->0.spec_names().len() == self.vars().len(),
            r is Some ==> r->0.spec_matches().len() == self.vars().len(),
            r is Some ==> forall|k: int|
                0 <= k < self.vars().len() ==> #[trigger] r->0.spec_names()[k] == self.vars()[k].1,
            r is Some ==> forall|k: int|
                0 <= k < self.vars().len() && #[trigger] r->0.spec_matches()[k] is Some
                    ==> match_fits(r->0.spec_matches()[k]->0, self.vars()[k], input.spec_bytes()),
    {
        proof {
            use_type_invariant(self);
            assert(self.exprs@.map_values(|e: Expr| expr_view(e)).len() == self.exprs@.len());
        }
        let groups = match capture_groups(&self.regex, input) {
            Some(g) => g,
            None => {
                return None;
            },
        };
        let mut names: Vec<String> = Vec::new();
        let mut ms: Vec<Option<Match>> = Vec::new();
        let mut i: usize = 0;
        while i < self.exprs.len()
            invariant
                i <= self.exprs@.len(),
                self.exprs@.len() == self.vars().len(),
                self.exprs@.map_values(|e: Expr| expr_view(e)) == self.vars(),
                names@.len() == i,
                ms@.len() == i,
                forall|k: int| 0 <= k < groups@.len() && (#[trigger] groups@[k]) is Some ==> {
                    let (s, e, text) = groups@[k]->0;
                    &&& s <= e <= input.spec_bytes().len()
                    &&& encode_utf8(text@) == input.spec_bytes().subrange(s as int, e as int)
                },
                self.regex.spec_pattern() == pattern_of(self.pieces()),
                regex_groups(pattern_of(self.pieces()), input@) is Some,
                groups@.len() == regex_groups(pattern_of(self.pieces()), input@)->0.len(),
                forall|k: int|
                    0 <= k < groups@.len() ==> span3(#[trigger] groups@[k]) == regex_groups(
                        pattern_of(self.pieces()),
                        input@,
                    )->0[k],
                forall|k: int|
                    0 <= k < i ==> span_of(#[trigger] ms@[k]) == group_at(
                        regex_groups(pattern_of(self.pieces()), input@)->0,
                        k + 1,
                    ),
                forall|k: int| 0 <= k < i ==> #[trigger] names@[k]@ == self.vars()[k].1,
                forall|k: int|
                    0 <= k < i && (#[trigger] ms@[k]) is Some ==> match_fits(
                        ms@[k]->0,
                        self.vars()[k],
                        input.spec_bytes(),
                    ),
            decreases self.exprs@.len() - i,
        {
            let expr = &self.exprs[i];
            proof {
                assert(expr_view(*expr) == self.vars()[i as int]);
            }
            let m = if i + 1 < groups.len() {
                match &groups[i + 1] {
                    Some((start, end, text)) => Some(
                        Match::new(expr.name.clone(), expr.op, *start, *end, text.clone()),
                    ),
                    None => None,
                }
            } else {
                None
            };
            names.push(expr.name.clone());
            ms.push(m);
            i += 1;
        }
        let c = Captures::from_parts(names, ms);
        proof {
            assert forall|k: int| 0 <= k < self.vars().len() implies #[trigger] c.spec_names()[k]
                == self.vars()[k].1 by {
                assert(c.spec_names()[k] == names@[k]@);
            }
            assert(c.spec_matches() == ms@);
        }
        let r = Some(c);
        r
    }
}

} // verus!
