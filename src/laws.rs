//! Properties that relate the encoders, the decoder and the parser.
use vstd::prelude::*;
use vstd::utf8::*;

use crate::captures::Match;
use crate::template::{
    piece_expansion,
    close_from, expansion, expr_op, lemma_close_from, name_start, parse, parse_from, Operator,
    Piece,
};
use crate::codec::{
    byte_offset, decoded, decoded_from, encoded_unreserved, encoded_url, encoded_url_from,
    hex_digit, hex_value, is_hex, pct_byte, pct_bytes, pct_char, reserved,
    triplet_at, triplet_byte, unreserved,
};

verus! {

broadcast use vstd::seq_lib::group_seq_properties;

/// What simple expansion writes for one character.
pub open spec fn unreserved_block(c: char) -> Seq<char> {
    if unreserved(c) {
        seq![c]
    } else {
        pct_char(c)
    }
}

proof fn lemma_encoded_unreserved_concat(a: Seq<char>, b: Seq<char>)
    ensures
        encoded_unreserved(a + b) == encoded_unreserved(a) + encoded_unreserved(b),
    decreases b.len(),
{
    if b.len() == 0 {
        assert(a + b =~= a);
    } else {
        lemma_encoded_unreserved_concat(a, b.drop_last());
        assert((a + b).drop_last() =~= a + b.drop_last());
    }
}

proof fn lemma_pct_bytes(bs: Seq<u8>)
    ensures
        pct_bytes(bs).len() == 3 * bs.len(),
        forall|t: int|
            0 <= t < bs.len() ==> {
                &&& #[trigger] pct_bytes(bs)[3 * t] == '%'
                &&& pct_bytes(bs)[3 * t + 1] == hex_digit(bs[t] / 16)
                &&& pct_bytes(bs)[3 * t + 2] == hex_digit(bs[t] % 16)
            },
    decreases bs.len(),
{
    if bs.len() > 0 {
        lemma_pct_bytes(bs.drop_last());
        let p = pct_bytes(bs.drop_last());
        assert forall|t: int| 0 <= t < bs.len() implies {
            &&& #[trigger] pct_bytes(bs)[3 * t] == '%'
            &&& pct_bytes(bs)[3 * t + 1] == hex_digit(bs[t] / 16)
            &&& pct_bytes(bs)[3 * t + 2] == hex_digit(bs[t] % 16)
        } by {
            if t < bs.len() - 1 {
                assert(bs.drop_last()[t] == bs[t]);
                assert(p[3 * t] == '%');
            }
        }
    }
}

proof fn lemma_hex_digit(n: u8)
    requires
        n < 16,
    ensures
        is_hex(hex_digit(n)),
        hex_value(hex_digit(n)) == n,
{
}

proof fn lemma_triplet_of_byte(s: Seq<char>, p: int, b: u8)
    requires
        0 <= p,
        p + 3 <= s.len(),
        s[p] == '%',
        s[p + 1] == hex_digit(b / 16),
        s[p + 2] == hex_digit(b % 16),
    ensures
        triplet_at(s, p),
        triplet_byte(s, p) == b,
{
    lemma_hex_digit(b / 16);
    lemma_hex_digit(b % 16);
    assert((b / 16) as int * 16 + (b % 16) as int == b as int);
}

/// Where the expansion of the `j`-th character of `v` starts.
spec fn block_start(v: Seq<char>, j: int) -> int {
    encoded_unreserved(v.subrange(0, j)).len() as int
}

proof fn lemma_block(v: Seq<char>, j: int)
    requires
        0 <= j < v.len(),
    ensures
        block_start(v, j + 1) == block_start(v, j) + unreserved_block(v[j]).len(),
        block_start(v, j + 1) <= encoded_unreserved(v).len(),
        forall|x: int|
            0 <= x < unreserved_block(v[j]).len() ==> encoded_unreserved(v)[block_start(v, j) + x]
                == #[trigger] unreserved_block(v[j])[x],
{
    let pre = v.subrange(0, j);
    let upto = v.subrange(0, j + 1);
    let rest = v.subrange(j + 1, v.len() as int);
    assert(upto.drop_last() =~= pre);
    assert(upto + rest =~= v);
    lemma_encoded_unreserved_concat(upto, rest);
    assert(encoded_unreserved(upto) == encoded_unreserved(pre) + unreserved_block(v[j]));
}

proof fn lemma_encode_one(a: Seq<char>, c: char)
    ensures
        encode_utf8(a.push(c)) == encode_utf8(a) + encode_scalar(c as u32),
{
    crate::codec::lemma_encode_utf8_concat(a, seq![c]);
    assert(a.push(c) =~= a + seq![c]);
    let one = seq![c];
    assert(one.drop_first() =~= Seq::<char>::empty());
    assert(encode_utf8(one.drop_first()) =~= Seq::<u8>::empty());
    assert(encode_utf8(one) =~= encode_scalar(c as u32));
}

/// Decoding the expansion of `v` from the `j`-th character on, with the bytes of the
/// percent-encoded characters `v[m..j]` pending, gives `v[m..]`.
proof fn lemma_decode_from_block(v: Seq<char>, j: int, m: int, at: int)
    requires
        0 <= m <= j <= v.len(),
        forall|k: int| m <= k < j ==> !unreserved(#[trigger] v[k]),
    ensures
        decoded_from(
            encoded_unreserved(v),
            block_start(v, j),
            encode_utf8(v.subrange(m, j)),
            at,
        ) == Ok::<Seq<char>, int>(v.subrange(m, v.len() as int)),
    decreases v.len() - j, 5int,
{
    broadcast use encode_utf8_decode_utf8, encode_utf8_valid_utf8;

    let e = encoded_unreserved(v);
    let run = encode_utf8(v.subrange(m, j));
    if j == v.len() {
        assert(v.subrange(0, j) =~= v);
    } else {
        lemma_block(v, j);
        let c = v[j];
        if unreserved(c) {
            assert(e[block_start(v, j)] == unreserved_block(c)[0]);
            lemma_decode_from_block(v, j + 1, j + 1, byte_offset(e, block_start(v, j) + 1));
            assert(v.subrange(j + 1, j + 1) =~= Seq::<char>::empty());
            assert(encode_utf8(Seq::<char>::empty()) =~= Seq::<u8>::empty());
            assert(v.subrange(m, j) + seq![c] + v.subrange(j + 1, v.len() as int) =~= v.subrange(
                m,
                v.len() as int,
            ));
        } else {
            assert(v.subrange(m, j + 1) =~= v.subrange(m, j).push(c));
            lemma_encode_one(v.subrange(m, j), c);
            lemma_decode_from_block(v, j + 1, m, at);
            let bs = encode_scalar(c as u32);
            lemma_pct_bytes(bs);
            char_is_scalar(c);
            lemma_decode_bytes(v, j, m, 0, at);
        }
    }
}

/// Inside the percent-encoded expansion of `v[j]`, after its first `t` bytes.
proof fn lemma_decode_bytes(v: Seq<char>, j: int, m: int, t: int, at: int)
    requires
        0 <= m <= j < v.len(),
        forall|k: int| m <= k < j ==> !unreserved(#[trigger] v[k]),
        !unreserved(v[j]),
        0 <= t <= encode_scalar(v[j] as u32).len(),
        encode_scalar(v[j] as u32).len() <= 4,
    ensures
        decoded_from(
            encoded_unreserved(v),
            block_start(v, j) + 3 * t,
            encode_utf8(v.subrange(m, j)) + encode_scalar(v[j] as u32).subrange(0, t),
            at,
        ) == Ok::<Seq<char>, int>(v.subrange(m, v.len() as int)),
    decreases v.len() - j, 4 - t,
{
    let e = encoded_unreserved(v);
    let c = v[j];
    let bs = encode_scalar(c as u32);
    let run = encode_utf8(v.subrange(m, j));
    lemma_block(v, j);
    lemma_pct_bytes(bs);
    assert(v.subrange(m, j + 1) =~= v.subrange(m, j).push(c));
    lemma_encode_one(v.subrange(m, j), c);
    char_is_scalar(c);
    if t == bs.len() {
        assert(bs.subrange(0, t) =~= bs);
        assert forall|k: int| m <= k < j + 1 implies !unreserved(#[trigger] v[k]) by {}
        lemma_decode_from_block(v, j + 1, m, at);
    } else {
        let p = block_start(v, j) + 3 * t;
        assert(e[p] == pct_char(c)[3 * t]);
        assert(e[p + 1] == pct_char(c)[3 * t + 1]);
        assert(e[p + 2] == pct_char(c)[3 * t + 2]);
        lemma_triplet_of_byte(e, p, bs[t]);
        assert((run + bs.subrange(0, t)).push(bs[t]) =~= run + bs.subrange(0, t + 1));
        lemma_decode_bytes(
            v,
            j,
            m,
            t + 1,
            if (run + bs.subrange(0, t)).len() == 0 {
                byte_offset(e, p)
            } else {
                at
            },
        );
    }
}

/// Decoding what simple expansion writes for a value gives the value back.
pub proof fn lemma_simple_round_trip(v: Seq<char>)
    ensures
        decoded(encoded_unreserved(v)) == Ok::<Seq<char>, int>(v),
{
    lemma_decode_from_block(v, 0, 0, 0);
    assert(v.subrange(0, 0) =~= Seq::<char>::empty());
    assert(encode_utf8(Seq::<char>::empty()) =~= Seq::<u8>::empty());
    assert(v.subrange(0, v.len() as int) =~= v);
    assert(encoded_unreserved(Seq::<char>::empty()).len() == 0);
}

proof fn lemma_url_from_plain(v: Seq<char>, i: int)
    requires
        0 <= i <= v.len(),
        forall|k: int| 0 <= k < v.len() ==> unreserved(#[trigger] v[k]) || reserved(v[k]),
    ensures
        encoded_url_from(v, i) == v.subrange(i, v.len() as int),
    decreases v.len() - i,
{
    if i < v.len() {
        assert(unreserved(v[i]) || reserved(v[i]));
        lemma_url_from_plain(v, i + 1);
        assert(seq![v[i]] + v.subrange(i + 1, v.len() as int) =~= v.subrange(i, v.len() as int));
    } else {
        assert(v.subrange(i, v.len() as int) =~= Seq::<char>::empty());
    }
}

/// Reserved and fragment expansion write a value made of unreserved and reserved characters
/// as it stands, and capture hands such an expression's value back as it was matched: such a
/// value comes back unchanged.
pub proof fn lemma_reserved_round_trip(v: Seq<char>)
    requires
        forall|k: int| 0 <= k < v.len() ==> unreserved(#[trigger] v[k]) || reserved(v[k]),
    ensures
        encoded_url(v) == v,
{
    lemma_url_from_plain(v, 0);
    assert(v.subrange(0, v.len() as int) =~= v);
}

/// The text of a template that a piece was read from.
pub open spec fn piece_source(p: Piece) -> Seq<char> {
    match p {
        Piece::Text(x) => x,
        Piece::Encoded(c) => seq![c],
        Piece::Var(op, name) => seq!['{'] + match op {
            None => Seq::<char>::empty(),
            Some(Operator::Reserved) => seq!['+'],
            Some(Operator::Fragment) => seq!['#'],
        } + name + seq!['}'],
    }
}

/// The text of a template that a sequence of pieces was read from.
pub open spec fn source_of(ps: Seq<Piece>) -> Seq<char>
    decreases ps.len(),
{
    if ps.len() == 0 {
        seq![]
    } else {
        source_of(ps.drop_last()) + piece_source(ps.last())
    }
}

proof fn lemma_source_of_concat(a: Seq<Piece>, b: Seq<Piece>)
    ensures
        source_of(a + b) == source_of(a) + source_of(b),
    decreases b.len(),
{
    if b.len() == 0 {
        assert(a + b =~= a);
    } else {
        lemma_source_of_concat(a, b.drop_last());
        assert((a + b).drop_last() =~= a + b.drop_last());
    }
}

/// The piece that starts at position `i` of a template.
spec fn step_piece(t: Seq<char>, i: int) -> Piece {
    if t[i] == '{' {
        Piece::Var(expr_op(t, i), t.subrange(name_start(t, i), close_from(t, name_start(t, i))))
    } else if triplet_at(t, i) {
        Piece::Text(t.subrange(i, i + 3))
    } else if unreserved(t[i]) || reserved(t[i]) {
        Piece::Text(seq![t[i]])
    } else {
        Piece::Encoded(t[i])
    }
}

/// Where the piece after the one at position `i` starts.
spec fn step_next(t: Seq<char>, i: int) -> int {
    if t[i] == '{' {
        close_from(t, name_start(t, i)) + 1
    } else if triplet_at(t, i) {
        i + 3
    } else {
        i + 1
    }
}

proof fn lemma_source_of_one(p: Piece)
    ensures
        source_of(seq![p]) == piece_source(p),
{
    assert(seq![p].drop_last() =~= Seq::<Piece>::empty());
    assert(source_of(Seq::<Piece>::empty()) =~= Seq::<char>::empty());
    assert(source_of(seq![p]) =~= piece_source(p));
}

proof fn lemma_parse_from_source(t: Seq<char>, i: int)
    requires
        0 <= i <= t.len(),
        parse_from(t, i) is Ok,
    ensures
        source_of(parse_from(t, i)->Ok_0) == t.subrange(i, t.len() as int),
    decreases t.len() - i,
{
    if i == t.len() {
        assert(t.subrange(i, t.len() as int) =~= Seq::<char>::empty());
        assert(parse_from(t, i)->Ok_0 =~= Seq::<Piece>::empty());
        assert(source_of(parse_from(t, i)->Ok_0) =~= Seq::<char>::empty());
    } else {
        let ns = name_start(t, i);
        lemma_close_from(t, ns);
        let close = close_from(t, ns);
        let p = step_piece(t, i);
        let next = step_next(t, i);
        assert(piece_source(p) =~= t.subrange(i, next));
        assert(parse_from(t, i) == Ok::<Seq<Piece>, int>(seq![p] + parse_from(t, next)->Ok_0));
        lemma_parse_from_source(t, next);
        lemma_source_of_concat(seq![p], parse_from(t, next)->Ok_0);
        lemma_source_of_one(p);
        let rest = parse_from(t, next)->Ok_0;
        assert(parse_from(t, i)->Ok_0 == seq![p] + rest);
        assert(source_of(seq![p] + rest) == piece_source(p) + source_of(rest));
        assert(source_of(rest) == t.subrange(next, t.len() as int));
        assert(t.subrange(i, next) + t.subrange(next, t.len() as int) =~= t.subrange(
            i,
            t.len() as int,
        ));
    }
}

/// The pieces of a template, in order and without gap or overlap, are read from the whole
/// of its text.
pub proof fn lemma_pieces_cover_source(t: Seq<char>)
    requires
        parse(t) is Ok,
    ensures
        source_of(parse(t)->Ok_0) == t,
{
    lemma_parse_from_source(t, 0);
    assert(t.subrange(0, t.len() as int) =~= t);
}

proof fn lemma_text_expansion(ps: Seq<Piece>, vals: Seq<Option<Seq<char>>>)
    requires
        forall|k: int| 0 <= k < ps.len() ==> (#[trigger] ps[k]) is Text,
    ensures
        expansion(ps, vals) == source_of(ps),
    decreases ps.len(),
{
    if ps.len() > 0 {
        assert(ps.last() is Text);
        lemma_text_expansion(ps.drop_last(), vals);
    }
}

/// A template without expressions whose characters all stand as they are written
/// (unreserved or reserved characters, or well-formed `%XX` sequences) expands to itself,
/// whatever the values.
pub proof fn lemma_literal_passthrough(t: Seq<char>, vals: Seq<Option<Seq<char>>>)
    requires
        parse(t) is Ok,
        forall|k: int| 0 <= k < parse(t)->Ok_0.len() ==> (#[trigger] parse(t)->Ok_0[k]) is Text,
    ensures
        expansion(parse(t)->Ok_0, vals) == t,
{
    lemma_text_expansion(parse(t)->Ok_0, vals);
    lemma_pieces_cover_source(t);
}

/// The characters that the group of a simple expression accepts.
pub open spec fn simple_class(c: char) -> bool {
    unreserved(c) || c == '%'
}

/// The characters that the group of a `+` or `#` expression accepts.
pub open spec fn reserved_class(c: char) -> bool {
    unreserved(c) || reserved(c) || c == '%'
}

proof fn lemma_pct_bytes_alphabet(bs: Seq<u8>)
    ensures
        forall|k: int| 0 <= k < pct_bytes(bs).len() ==> simple_class(#[trigger] pct_bytes(bs)[k]),
    decreases bs.len(),
{
    if bs.len() > 0 {
        lemma_pct_bytes_alphabet(bs.drop_last());
        let b = bs.last();
        let tail = pct_byte(b);
        assert(b / 16 < 16 && b % 16 < 16);
        assert(simple_class(tail[1]) && simple_class(tail[2]));
        let whole = pct_bytes(bs);
        assert forall|k: int| 0 <= k < whole.len() implies simple_class(#[trigger] whole[k]) by {
            if k >= pct_bytes(bs.drop_last()).len() {
                assert(whole[k] == tail[k - pct_bytes(bs.drop_last()).len()]);
            } else {
                assert(whole[k] == pct_bytes(bs.drop_last())[k]);
            }
        }
    }
}

/// Simple expansion writes only unreserved characters and `%`, which the group of a simple
/// expression accepts; in particular it never writes a `/`.
pub proof fn lemma_simple_expansion_alphabet(v: Seq<char>)
    ensures
        forall|k: int|
            0 <= k < encoded_unreserved(v).len() ==> simple_class(
                #[trigger] encoded_unreserved(v)[k],
            ),
    decreases v.len(),
{
    if v.len() > 0 {
        lemma_simple_expansion_alphabet(v.drop_last());
        lemma_pct_bytes_alphabet(encode_scalar(v.last() as u32));
        let pre = encoded_unreserved(v.drop_last());
        let tail = unreserved_block(v.last());
        let whole = encoded_unreserved(v);
        assert(whole == pre + tail);
        assert forall|k: int| 0 <= k < whole.len() implies simple_class(#[trigger] whole[k]) by {
            if k >= pre.len() {
                assert(whole[k] == tail[k - pre.len()]);
            } else {
                assert(whole[k] == pre[k]);
            }
        }
    }
}

proof fn lemma_url_from_alphabet(v: Seq<char>, i: int)
    ensures
        forall|k: int|
            0 <= k < encoded_url_from(v, i).len() ==> reserved_class(
                #[trigger] encoded_url_from(v, i)[k],
            ),
    decreases v.len() - i,
{
    if 0 <= i < v.len() {
        let whole = encoded_url_from(v, i);
        let (head, next) = if triplet_at(v, i) {
            (v.subrange(i, i + 3), i + 3)
        } else if unreserved(v[i]) || reserved(v[i]) {
            (seq![v[i]], i + 1)
        } else {
            (pct_char(v[i]), i + 1)
        };
        lemma_url_from_alphabet(v, next);
        lemma_pct_bytes_alphabet(encode_scalar(v[i] as u32));
        let rest = encoded_url_from(v, next);
        assert(whole == head + rest);
        assert forall|k: int| 0 <= k < whole.len() implies reserved_class(#[trigger] whole[k]) by {
            if k >= head.len() {
                assert(whole[k] == rest[k - head.len()]);
            } else {
                assert(whole[k] == head[k]);
                if triplet_at(v, i) {
                    assert(head[k] == v[i + k]);
                }
            }
        }
    }
}

/// Reserved and fragment expansion write only unreserved and reserved characters and `%`,
/// which the group of a `+` or `#` expression accepts.
pub proof fn lemma_reserved_expansion_alphabet(v: Seq<char>)
    ensures
        forall|k: int|
            0 <= k < encoded_url(v).len() ==> reserved_class(#[trigger] encoded_url(v)[k]),
{
    lemma_url_from_alphabet(v, 0);
}

/// Where a simple expression matched exactly what simple expansion writes for `v`, its
/// value (the percent-decoded match) is `v`.
pub proof fn lemma_match_value_round_trip(m: Match, v: Seq<char>)
    requires
        m.spec_op() is None,
        m.spec_text() == encoded_unreserved(v),
    ensures
        decoded(m.spec_text()) == Ok::<Seq<char>, int>(v),
{
    lemma_simple_round_trip(v);
}

/// What pieces without expressions expand to.
pub open spec fn literal_out(ps: Seq<Piece>) -> Seq<char>
    decreases ps.len(),
{
    if ps.len() == 0 {
        seq![]
    } else {
        literal_out(ps.drop_last()) + piece_expansion(ps.last(), None)
    }
}

proof fn lemma_literal_out_concat(a: Seq<Piece>, b: Seq<Piece>)
    ensures
        literal_out(a + b) == literal_out(a) + literal_out(b),
    decreases b.len(),
{
    if b.len() == 0 {
        assert(a + b =~= a);
    } else {
        lemma_literal_out_concat(a, b.drop_last());
        assert((a + b).drop_last() =~= a + b.drop_last());
    }
}

proof fn lemma_literal_out_one(p: Piece)
    ensures
        literal_out(seq![p]) == piece_expansion(p, None),
{
    assert(seq![p].drop_last() =~= Seq::<Piece>::empty());
    assert(literal_out(Seq::<Piece>::empty()) =~= Seq::<char>::empty());
    assert(literal_out(seq![p]) =~= piece_expansion(p, None));
}

proof fn lemma_expansion_without_vars(ps: Seq<Piece>, vals: Seq<Option<Seq<char>>>)
    requires
        forall|k: int| 0 <= k < ps.len() ==> !((#[trigger] ps[k]) is Var),
    ensures
        expansion(ps, vals) == literal_out(ps),
    decreases ps.len(),
{
    if ps.len() > 0 {
        assert(!(ps.last() is Var));
        lemma_expansion_without_vars(ps.drop_last(), vals);
    }
}

proof fn lemma_parse_literal_from(t: Seq<char>, i: int)
    requires
        0 <= i <= t.len(),
        forall|k: int| 0 <= k < t.len() ==> #[trigger] t[k] != '{',
    ensures
        parse_from(t, i) is Ok,
        forall|k: int|
            0 <= k < parse_from(t, i)->Ok_0.len() ==> !((#[trigger] parse_from(t, i)->Ok_0[k]) is Var),
        literal_out(parse_from(t, i)->Ok_0) == encoded_url_from(t, i),
    decreases t.len() - i,
{
    if i == t.len() {
        assert(parse_from(t, i)->Ok_0 =~= Seq::<Piece>::empty());
        assert(literal_out(parse_from(t, i)->Ok_0) =~= Seq::<char>::empty());
    } else {
        assert(t[i] != '{');
        let p = step_piece(t, i);
        let next = step_next(t, i);
        lemma_parse_literal_from(t, next);
        let rest = parse_from(t, next)->Ok_0;
        assert(parse_from(t, i) == Ok::<Seq<Piece>, int>(seq![p] + rest));
        lemma_literal_out_concat(seq![p], rest);
        lemma_literal_out_one(p);
        let all = parse_from(t, i)->Ok_0;
        assert forall|k: int| 0 <= k < all.len() implies !((#[trigger] all[k]) is Var) by {
            if k > 0 {
                assert(all[k] == rest[k - 1]);
            }
        }
    }
}

/// A template without expressions expands, whatever the values, to its text with each
/// well-formed `%XX` sequence copied as written, each unreserved and reserved character kept,
/// and every other character (a `%` that starts no `%XX` sequence among them) percent-encoded.
pub proof fn lemma_literal_expansion(t: Seq<char>, vals: Seq<Option<Seq<char>>>)
    requires
        forall|k: int| 0 <= k < t.len() ==> #[trigger] t[k] != '{',
    ensures
        parse(t) is Ok,
        expansion(parse(t)->Ok_0, vals) == encoded_url(t),
{
    lemma_parse_literal_from(t, 0);
    lemma_expansion_without_vars(parse(t)->Ok_0, vals);
}

} // verus!
