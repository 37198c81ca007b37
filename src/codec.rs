//! Percent-encoding and percent-decoding of URI text.
use vstd::prelude::*;
use vstd::string::*;
use vstd::utf8::*;

use crate::error::{Error, ErrorKind};

verus! {

broadcast use vstd::seq_lib::group_seq_properties;

// ---------------------------------------------------------------------------
// Character classes
/// RFC 3986 unreserved characters: `A-Z a-z 0-9 - . _ ~`.
pub open spec fn unreserved(c: char) -> bool {
    ('A' <= c <= 'Z') || ('a' <= c <= 'z') || ('0' <= c <= '9') || c == '-' || c == '.' || c == '_'
        || c == '~'
}

/// RFC 3986 reserved characters (gen-delims and sub-delims, with the apostrophe).
pub open spec fn reserved(c: char) -> bool {
    c == ':' || c == '/' || c == '?' || c == '#' || c == '[' || c == ']' || c == '@' || c == '!'
        || c == '$' || c == '&' || c == '\'' || c == '(' || c == ')' || c == '*' || c == '+' || c
        == ',' || c == ';' || c == '='
}

pub fn is_unreserved(c: char) -> (r: bool)
    ensures
        r == unreserved(c),
{
    ('A' <= c && c <= 'Z') || ('a' <= c && c <= 'z') || ('0' <= c && c <= '9') || c == '-' || c
        == '.' || c == '_' || c == '~'
}

pub fn is_reserved(c: char) -> (r: bool)
    ensures
        r == reserved(c),
{
    match c {
        ':' | '/' | '?' | '#' | '[' | ']' | '@' | '!' | '$' | '&' | '\'' | '(' | ')' | '*' | '+'
        | ',' | ';' | '=' => true,
        _ => false,
    }
}

// ---------------------------------------------------------------------------
// Hex digits and percent triplets
pub open spec fn is_hex(c: char) -> bool {
    ('0' <= c <= '9') || ('a' <= c <= 'f') || ('A' <= c <= 'F')
}

pub open spec fn hex_value(c: char) -> int {
    if '0' <= c <= '9' {
        c as int - '0' as int
    } else if 'a' <= c <= 'f' {
        c as int - 'a' as int + 10
    } else {
        c as int - 'A' as int + 10
    }
}

/// The value of a hexadecimal digit, either case.
pub fn to_u8(c: char) -> (r: Option<u8>)
    ensures
        r is Some <==> is_hex(c),
        r is Some ==> r->0 as int == hex_value(c),
{
    if '0' <= c && c <= '9' {
        Some((c as u32 - '0' as u32) as u8)
    } else if 'a' <= c && c <= 'f' {
        Some((c as u32 - 'a' as u32 + 10) as u8)
    } else if 'A' <= c && c <= 'F' {
        Some((c as u32 - 'A' as u32 + 10) as u8)
    } else {
        None
    }
}

/// A well-formed `%XX` sequence starts at position `i` of `s`.
pub open spec fn triplet_at(s: Seq<char>, i: int) -> bool {
    0 <= i && i + 2 < s.len() && s[i] == '%' && is_hex(s[i + 1]) && is_hex(s[i + 2])
}

/// The byte that the `%XX` sequence at position `i` stands for.
pub open spec fn triplet_byte(s: Seq<char>, i: int) -> u8 {
    (hex_value(s[i + 1]) * 16 + hex_value(s[i + 2])) as u8
}

/// The upper-case hexadecimal digit of `n < 16`.
pub open spec fn hex_digit(n: u8) -> char {
    if n < 10 {
        ((n + 48) as u8) as char
    } else {
        ((n + 55) as u8) as char
    }
}

/// `%XX` with upper-case digits for one byte.
pub open spec fn pct_byte(b: u8) -> Seq<char> {
    seq!['%', hex_digit(b / 16), hex_digit(b % 16)]
}

/// `%XX` for each byte of `bs`.
pub open spec fn pct_bytes(bs: Seq<u8>) -> Seq<char>
    decreases bs.len(),
{
    if bs.len() == 0 {
        seq![]
    } else {
        pct_bytes(bs.drop_last()) + pct_byte(bs.last())
    }
}

/// A character written as `%XX` for each byte of its UTF-8 encoding.
pub open spec fn pct_char(c: char) -> Seq<char> {
    pct_bytes(encode_scalar(c as u32))
}

/// Simple expansion: unreserved characters stay, every other one is percent-encoded.
pub open spec fn encoded_unreserved(s: Seq<char>) -> Seq<char>
    decreases s.len(),
{
    if s.len() == 0 {
        seq![]
    } else {
        encoded_unreserved(s.drop_last()) + if unreserved(s.last()) {
            seq![s.last()]
        } else {
            pct_char(s.last())
        }
    }
}

/// Reserved expansion of `s` from position `i`: well-formed `%XX` sequences are kept as
/// written, unreserved and reserved characters stay, every other character is
/// percent-encoded.
pub open spec fn encoded_url_from(s: Seq<char>, i: int) -> Seq<char>
    decreases s.len() - i,
{
    if i < 0 || i >= s.len() {
        seq![]
    } else if triplet_at(s, i) {
        s.subrange(i, i + 3) + encoded_url_from(s, i + 3)
    } else if unreserved(s[i]) || reserved(s[i]) {
        seq![s[i]] + encoded_url_from(s, i + 1)
    } else {
        pct_char(s[i]) + encoded_url_from(s, i + 1)
    }
}

pub open spec fn encoded_url(s: Seq<char>) -> Seq<char> {
    encoded_url_from(s, 0)
}

// ---------------------------------------------------------------------------
// UTF-8 facts
/// Number of bytes of the UTF-8 encoding of the first `i` characters of `s`.
pub open spec fn byte_offset(s: Seq<char>, i: int) -> int {
    encode_utf8(s.subrange(0, i)).len() as int
}

pub proof fn lemma_encode_utf8_concat(a: Seq<char>, b: Seq<char>)
    ensures
        encode_utf8(a + b) == encode_utf8(a) + encode_utf8(b),
    decreases a.len(),
{
    if a.len() == 0 {
        assert(a + b =~= b);
    } else {
        lemma_encode_utf8_concat(a.drop_first(), b);
        assert((a + b).drop_first() =~= a.drop_first() + b);
    }
}

pub proof fn lemma_byte_offset_step(s: Seq<char>, i: int)
    requires
        0 <= i < s.len(),
    ensures
        byte_offset(s, i + 1) == byte_offset(s, i) + encode_scalar(s[i] as u32).len(),
        byte_offset(s, i + 1) <= byte_offset(s, s.len() as int),
{
    lemma_encode_utf8_concat(s.subrange(0, i), seq![s[i]]);
    assert(s.subrange(0, i + 1) =~= s.subrange(0, i) + seq![s[i]]);
    let one = seq![s[i]];
    assert(one.drop_first() =~= Seq::<char>::empty());
    assert(encode_utf8(one.drop_first()) =~= Seq::<u8>::empty());
    assert(encode_utf8(one) =~= encode_scalar(s[i] as u32));
    lemma_encode_utf8_concat(s.subrange(0, i + 1), s.subrange(i + 1, s.len() as int));
    assert(s.subrange(0, s.len() as int) =~= s.subrange(0, i + 1) + s.subrange(
        i + 1,
        s.len() as int,
    ));
}

/// The UTF-8 encoding of a character.
pub fn utf8_bytes(c: char) -> (r: Vec<u8>)
    ensures
        r@ == encode_scalar(c as u32),
{
    let v = c as u32;
    let mut r: Vec<u8> = Vec::new();
    if v <= 0x7F {
        r.push((v & 0x7F) as u8);
    } else if v <= 0x7FF {
        r.push(0xC0 | ((v >> 6) & 0x1F) as u8);
        r.push(0x80 | (v & 0x3F) as u8);
    } else if v <= 0xFFFF {
        r.push(0xE0 | ((v >> 12) & 0x0F) as u8);
        r.push(0x80 | ((v >> 6) & 0x3F) as u8);
        r.push(0x80 | (v & 0x3F) as u8);
    } else {
        r.push(0xF0 | ((v >> 18) & 0x7) as u8);
        r.push(0x80 | ((v >> 12) & 0x3F) as u8);
        r.push(0x80 | ((v >> 6) & 0x3F) as u8);
        r.push(0x80 | (v & 0x3F) as u8);
    }
    proof {
        char_is_scalar(c);
        assert(r@ =~= encode_scalar(v));
    }
    r
}

/// Length in bytes of the UTF-8 encoding of a character.
pub fn len_utf8(c: char) -> (r: usize)
    ensures
        r == encode_scalar(c as u32).len(),
{
    let v = c as u32;
    proof {
        char_is_scalar(c);
    }
    if v <= 0x7F {
        1
    } else if v <= 0x7FF {
        2
    } else if v <= 0xFFFF {
        3
    } else {
        4
    }
}

/// The characters of `s`, in order.
pub fn chars_of(s: &str) -> (r: Vec<char>)
    ensures
        r@ == s@,
{
    let mut v: Vec<char> = Vec::new();
    for c in it: s.chars()
        invariant
            v@ == it.seq().take(it.index() as int),
    {
        v.push(c);
    }
    v
}

/// Relies on String::push: appends one character.
#[verifier::external_body]
pub(crate) fn push_char(s: &mut String, c: char)
    ensures
        final(s)@ == old(s)@.push(c),
{
    s.push(c)
}

/// Largest `m <= n` such that the first `m` bytes of `b` are valid UTF-8.
pub open spec fn valid_prefix_len(b: Seq<u8>, n: int) -> int
    decreases n,
{
    if n <= 0 {
        0
    } else if valid_utf8(b.subrange(0, n)) {
        n
    } else {
        valid_prefix_len(b, n - 1)
    }
}

/// Relies on std::str::from_utf8: succeeds exactly on valid UTF-8 and returns the characters
/// it encodes; on failure, Utf8Error::valid_up_to is the longest valid prefix.
#[verifier::external_body]
fn utf8_to_string(b: &[u8]) -> (r: Result<String, usize>)
    ensures
        r is Ok <==> valid_utf8(b@),
        r is Ok ==> r->Ok_0@ == decode_utf8(b@),
        r is Err ==> r->Err_0 == valid_prefix_len(b@, b@.len() as int),
{
    match std::str::from_utf8(b) {
        Ok(s) => Ok(s.to_string()),
        Err(e) => Err(e.valid_up_to()),
    }
}

// ---------------------------------------------------------------------------
// Encoding
/// Appends `%XX` (upper-case) for every UTF-8 byte of `ch`.
pub fn encode_char(ch: char, out: &mut String)
    ensures
        final(out)@ == old(out)@ + pct_char(ch),
{
    let bytes = utf8_bytes(ch);
    let ghost start = out@;
    let mut i: usize = 0;
    while i < bytes.len()
        invariant
            i <= bytes@.len(),
            out@ == start + pct_bytes(bytes@.take(i as int)),
        decreases bytes@.len() - i,
    {
        let b = bytes[i];
        push_char(out, '%');
        push_char(out, hex_upper(b / 16));
        push_char(out, hex_upper(b % 16));
        proof {
            assert(bytes@.take(i as int + 1).drop_last() =~= bytes@.take(i as int));
        }
        i += 1;
    }
    proof {
        assert(bytes@.take(i as int) =~= bytes@);
    }
}

fn hex_upper(n: u8) -> (c: char)
    requires
        n < 16,
    ensures
        c == hex_digit(n),
{
    if n < 10 {
        (n + 48) as char
    } else {
        (n + 55) as char
    }
}

/// Appends `s` with every character that is not unreserved percent-encoded.
pub fn encode_str_unresreved(s: &str, out: &mut String)
    ensures
        final(out)@ == old(out)@ + encoded_unreserved(s@),
{
    let chars = chars_of(s);
    let ghost start = out@;
    let mut i: usize = 0;
    while i < chars.len()
        invariant
            i <= chars@.len(),
            chars@ == s@,
            out@ == start + encoded_unreserved(chars@.take(i as int)),
        decreases chars@.len() - i,
    {
        let ch = chars[i];
        proof {
            assert(chars@.take(i as int + 1).drop_last() =~= chars@.take(i as int));
        }
        if is_unreserved(ch) {
            push_char(out, ch);
        } else {
            encode_char(ch, out);
        }
        proof {
            assert(out@ =~= start + encoded_unreserved(chars@.take(i as int + 1)));
        }
        i += 1;
    }
    proof {
        assert(chars@.take(i as int) =~= chars@);
    }
}

/// Appends `s` for reserved expansion: well-formed `%XX` sequences are copied as written,
/// unreserved and reserved characters stay, every other character is percent-encoded.
pub fn encode_str_url(s: &str, out: &mut String)
    ensures
        final(out)@ == old(out)@ + encoded_url(s@),
{
    let mut iter = DecodedIter::new(s);
    let ghost start = out@;
    loop
        invariant
            iter.wf(),
            iter.chars@ == s@,
            start + encoded_url(s@) == out@ + encoded_url_from(s@, iter.pos as int),
        ensures
            start + encoded_url(s@) == out@,
        decreases iter.chars@.len() - iter.pos,
    {
        let ghost at = iter.pos as int;
        match iter.next() {
            None => {
                assert(out@ + encoded_url_from(s@, at) =~= out@);
                break ;
            },
            Some(Decoded::Char { index, ch }) => {
                let ghost before = out@;
                if is_unreserved(ch) || is_reserved(ch) {
                    push_char(out, ch);
                } else {
                    encode_char(ch, out);
                }
                assert(before + encoded_url_from(s@, at) =~= out@ + encoded_url_from(
                    s@,
                    at + 1,
                ));
            },
            Some(Decoded::Byte { index, b }) => {
                let ghost before = out@;
                push_char(out, iter.chars[index]);
                push_char(out, iter.chars[index + 1]);
                push_char(out, iter.chars[index + 2]);
                assert(before + encoded_url_from(s@, at) =~= out@ + encoded_url_from(
                    s@,
                    at + 3,
                ));
            },
        }
    }
}

// ---------------------------------------------------------------------------
// Decoding cursor
/// One logical position of a decoded string: a character taken as it is, or a byte written
/// as `%XX` (three characters). `index` is the character position in the source.
#[derive(Clone, Copy, Debug, PartialEq, Eq)]
pub enum Decoded {
    Char { index: usize, ch: char },
    Byte { index: usize, b: u8 },
}

impl Decoded {
    pub fn ch(&self) -> (r: Option<char>)
        ensures
            r == (match *self {
                Decoded::Char { ch, .. } => Some(ch),
                Decoded::Byte { .. } => None,
            }),
    {
        match self {
            Decoded::Char { ch, .. } => Some(*ch),
            Decoded::Byte { .. } => None,
        }
    }

    pub fn index(&self) -> (r: usize)
        ensures
            r == (match *self {
                Decoded::Char { index, .. } => index,
                Decoded::Byte { index, .. } => index,
            }),
    {
        match self {
            Decoded::Char { index, .. } => *index,
            Decoded::Byte { index, .. } => *index,
        }
    }
}

/// Forward cursor over a string that reads `%XX` as one byte and anything else (including a
/// `%` not followed by two hexadecimal digits) as a character.
pub struct DecodedIter {
    pub chars: Vec<char>,
    pub pos: usize,
}

impl DecodedIter {
    pub open spec fn wf(&self) -> bool {
        self.pos <= self.chars@.len()
    }

    pub fn new(source: &str) -> (r: Self)
        ensures
            r.wf(),
            r.chars@ == source@,
            r.pos == 0,
    {
        DecodedIter { chars: chars_of(source), pos: 0 }
    }

    /// The item at the cursor; the cursor moves past it.
    pub fn next(&mut self) -> (r: Option<Decoded>)
        requires
            old(self).wf(),
        ensures
            final(self).wf(),
            final(self).chars == old(self).chars,
            ({
                let s = old(self).chars@;
                let i = old(self).pos as int;
                if i >= s.len() {
                    r is None && final(self).pos == i
                } else if triplet_at(s, i) {
                    r == Some(Decoded::Byte { index: i as usize, b: triplet_byte(s, i) })
                        && final(self).pos == i + 3
                } else {
                    r == Some(Decoded::Char { index: i as usize, ch: s[i] }) && final(self).pos
                        == i + 1
                }
            }),
    {
        if self.pos >= self.chars.len() {
            return None;
        }
        let index = self.pos;
        let ch = self.chars[index];
        self.pos = index + 1;
        if ch == '%' {
            let saved = self.pos;
            match next_decoded_u8(&self.chars, &mut self.pos) {
                Some(b) => {
                    return Some(Decoded::Byte { index, b });
                },
                None => {
                    self.pos = saved;
                },
            }
        }
        Some(Decoded::Char { index, ch })
    }
}

/// Reads two hexadecimal digits at `*pos` as one byte.
fn next_decoded_u8(chars: &Vec<char>, pos: &mut usize) -> (r: Option<u8>)
    requires
        *old(pos) <= chars@.len(),
    ensures
        *final(pos) <= chars@.len(),
        *final(pos) <= *old(pos) + 2,
        ({
            let i = *old(pos) as int;
            if i + 1 < chars@.len() && is_hex(chars@[i]) && is_hex(chars@[i + 1]) {
                r == Some((hex_value(chars@[i]) * 16 + hex_value(chars@[i + 1])) as u8)
                    && *final(pos) == i + 2
            } else {
                r is None
            }
        }),
{
    let c0 = next_hex(chars, pos);
    if c0.is_none() {
        return None;
    }
    let c1 = next_hex(chars, pos);
    match (c0, c1) {
        (Some(a), Some(b)) => Some(a * 16 + b),
        _ => None,
    }
}

/// Reads one hexadecimal digit at `*pos`.
fn next_hex(chars: &Vec<char>, pos: &mut usize) -> (r: Option<u8>)
    requires
        *old(pos) <= chars@.len(),
    ensures
        *final(pos) <= chars@.len(),
        *final(pos) <= *old(pos) + 1,
        ({
            let i = *old(pos) as int;
            if i < chars@.len() && is_hex(chars@[i]) {
                r == Some(hex_value(chars@[i]) as u8) && *final(pos) == i + 1
            } else {
                r is None
            }
        }),
{
    if *pos >= chars.len() {
        return None;
    }
    let c = chars[*pos];
    *pos = *pos + 1;
    to_u8(c)
}

} // verus!

verus! {

// ---------------------------------------------------------------------------
// Full decoding
/// Committing a run of percent-decoded bytes that began at byte offset `at`: its characters,
/// or the byte offset of the `%XX` that holds its first invalid byte.
pub open spec fn run_result(run: Seq<u8>, at: int) -> Result<Seq<char>, int> {
    if valid_utf8(run) {
        Ok(decode_utf8(run))
    } else {
        Err(at + 3 * valid_prefix_len(run, run.len() as int))
    }
}

/// Full decoding of `s` from position `i`, where `run` holds the bytes decoded since the last
/// plain character, starting at byte offset `at`. Each maximal run of `%XX` bytes must be
/// valid UTF-8 on its own; plain characters are kept.
pub open spec fn decoded_from(s: Seq<char>, i: int, run: Seq<u8>, at: int) -> Result<
    Seq<char>,
    int,
>
    decreases s.len() - i,
{
    if i < 0 || i >= s.len() {
        run_result(run, at)
    } else if triplet_at(s, i) {
        decoded_from(
            s,
            i + 3,
            run.push(triplet_byte(s, i)),
            if run.len() == 0 {
                byte_offset(s, i)
            } else {
                at
            },
        )
    } else {
        match run_result(run, at) {
            Ok(d) => match decoded_from(s, i + 1, seq![], byte_offset(s, i + 1)) {
                Ok(rest) => Ok(d + seq![s[i]] + rest),
                Err(e) => Err(e),
            },
            Err(e) => Err(e),
        }
    }
}

/// Full percent-decoding of `s`: the decoded text, or the byte offset of the first
/// invalid byte.
pub open spec fn decoded(s: Seq<char>) -> Result<Seq<char>, int> {
    decoded_from(s, 0, seq![], 0)
}

pub open spec fn prepend(pre: Seq<char>, r: Result<Seq<char>, int>) -> Result<Seq<char>, int> {
    match r {
        Ok(x) => Ok(pre + x),
        Err(e) => Err(e),
    }
}

proof fn lemma_valid_prefix_len_bound(b: Seq<u8>, n: int)
    ensures
        0 <= valid_prefix_len(b, n) <= if n < 0 {
            0
        } else {
            n
        },
    decreases n,
{
    if n > 0 {
        lemma_valid_prefix_len_bound(b, n - 1);
    }
}

proof fn lemma_ascii_width(c: char)
    requires
        c as u32 <= 0x7F,
    ensures
        encode_scalar(c as u32).len() == 1,
{
}

struct Decoder<'a> {
    source: &'a str,
    source_index: usize,
    out: String,
    bytes: Vec<u8>,
}

impl<'a> Decoder<'a> {
    fn new(source: &'a str, source_index: usize) -> (r: Self)
        ensures
            r.source == source,
            r.source_index == source_index,
            r.out@ == Seq::<char>::empty(),
            r.bytes@ == Seq::<u8>::empty(),
    {
        Decoder { source, source_index, out: String::new(), bytes: Vec::new() }
    }

    fn push_char(&mut self, ch: char) -> (r: Result<(), Error>)
        requires
            old(self).source_index + 3 * old(self).bytes@.len() + encode_scalar(ch as u32).len()
                <= usize::MAX,
        ensures
            final(self).source == old(self).source,
            match run_result(old(self).bytes@, old(self).source_index as int) {
                Ok(d) => r is Ok && final(self).out@ == old(self).out@ + d + seq![ch]
                    && final(self).bytes@.len() == 0 && final(self).source_index
                    == old(self).source_index + 3 * old(self).bytes@.len() + encode_scalar(
                    ch as u32,
                ).len(),
                Err(e) => r is Err && r->Err_0.spec_source_index() == e
                    && r->Err_0.spec_kind() == ErrorKind::InvalidUtf8
                    && r->Err_0.spec_source() == old(self).source@ && final(self).out
                    == old(self).out,
            },
    {
        self.commit_bytes()?;
        self.source_index += len_utf8(ch);
        push_char(&mut self.out, ch);
        Ok(())
    }

    fn push_byte(&mut self, b: u8)
        ensures
            final(self).source == old(self).source,
            final(self).source_index == old(self).source_index,
            final(self).out == old(self).out,
            final(self).bytes@ == old(self).bytes@.push(b),
    {
        self.bytes.push(b);
    }

    fn commit_bytes(&mut self) -> (r: Result<(), Error>)
        requires
            old(self).source_index + 3 * old(self).bytes@.len() <= usize::MAX,
        ensures
            final(self).source == old(self).source,
            match run_result(old(self).bytes@, old(self).source_index as int) {
                Ok(d) => r is Ok && final(self).out@ == old(self).out@ + d
                    && final(self).bytes@.len() == 0 && final(self).source_index
                    == old(self).source_index + 3 * old(self).bytes@.len(),
                Err(e) => r is Err && r->Err_0.spec_source_index() == e
                    && r->Err_0.spec_kind() == ErrorKind::InvalidUtf8
                    && r->Err_0.spec_source() == old(self).source@ && final(self).out
                    == old(self).out,
            },
    {
        match utf8_to_string(self.bytes.as_slice()) {
            Ok(valid) => {
                self.out.append(valid.as_str());
                self.source_index += 3 * self.bytes.len();
                self.bytes.clear();
                Ok(())
            },
            Err(n) => {
                proof {
                    lemma_valid_prefix_len_bound(self.bytes@, self.bytes@.len() as int);
                }
                Err(Error::new(self.source, self.source_index + 3 * n, ErrorKind::InvalidUtf8))
            },
        }
    }

    fn build(self) -> (r: Result<String, Error>)
        requires
            self.source_index + 3 * self.bytes@.len() <= usize::MAX,
        ensures
            match run_result(self.bytes@, self.source_index as int) {
                Ok(d) => r is Ok && r->Ok_0@ == self.out@ + d,
                Err(e) => r is Err && r->Err_0.spec_source_index() == e
                    && r->Err_0.spec_kind() == ErrorKind::InvalidUtf8
                    && r->Err_0.spec_source() == self.source@,
            },
    {
        let mut d = self;
        d.commit_bytes()?;
        Ok(d.out)
    }
}

/// Percent-decodes `s`; runs of `%XX` bytes must be valid UTF-8.
pub fn decode_str(s: &str) -> (r: Result<String, Error>)
    ensures
        match decoded(s@) {
            Ok(d) => r is Ok && r->Ok_0@ == d,
            Err(e) => r is Err && r->Err_0.spec_source_index() == e && r->Err_0.spec_kind()
                == ErrorKind::InvalidUtf8 && r->Err_0.spec_source() == s@,
        },
{
    let total = s.as_bytes().len();
    let mut out = Decoder::new(s, 0);
    let mut iter = DecodedIter::new(s);
    proof {
        assert(s@.subrange(0, s@.len() as int) =~= s@);
        assert(s@.subrange(0, 0) =~= Seq::<char>::empty());
    }
    loop
        invariant
            iter.wf(),
            iter.chars@ == s@,
            out.source == s,
            total == byte_offset(s@, s@.len() as int),
            out.source_index + 3 * out.bytes@.len() == byte_offset(s@, iter.pos as int),
            byte_offset(s@, iter.pos as int) <= total,
            decoded(s@) == prepend(
                out.out@,
                decoded_from(s@, iter.pos as int, out.bytes@, out.source_index as int),
            ),
        ensures
            iter.pos >= s@.len(),
            out.source == s,
            out.source_index + 3 * out.bytes@.len() <= usize::MAX,
            decoded(s@) == prepend(out.out@, run_result(out.bytes@, out.source_index as int)),
        decreases iter.chars@.len() - iter.pos,
    {
        let ghost i = iter.pos as int;
        let ghost run = out.bytes@;
        let ghost pre = out.out@;
        let ghost at = out.source_index as int;
        match iter.next() {
            None => {
                break ;
            },
            Some(Decoded::Char { ch, .. }) => {
                proof {
                    lemma_byte_offset_step(s@, i);
                }
                let r = out.push_char(ch);
                if r.is_err() {
                    return Err(r.unwrap_err());
                }
                proof {
                    let d = run_result(run, at)->Ok_0;
                    let rest = decoded_from(s@, i + 1, seq![], byte_offset(s@, i + 1));
                    assert(pre + d + seq![s@[i]] == out.out@);
                    match rest {
                        Ok(x) => {
                            assert(pre + (d + seq![s@[i]] + x) =~= out.out@ + x);
                        },
                        Err(e) => {},
                    }
                }
            },
            Some(Decoded::Byte { b, .. }) => {
                proof {
                    lemma_byte_offset_step(s@, i);
                    lemma_byte_offset_step(s@, i + 1);
                    lemma_byte_offset_step(s@, i + 2);
                    lemma_ascii_width(s@[i]);
                    lemma_ascii_width(s@[i + 1]);
                    lemma_ascii_width(s@[i + 2]);
                }
                out.push_byte(b);
            },
        }
    }
    out.build()
}

} // verus!

verus! {

/// Byte offset in `s` of its `i`-th character.
pub(crate) fn byte_index(s: &str, chars: &Vec<char>, i: usize) -> (r: usize)
    requires
        chars@ == s@,
        i <= chars@.len(),
    ensures
        r == byte_offset(s@, i as int),
{
    let total = s.as_bytes().len();
    let mut b: usize = 0;
    let mut j: usize = 0;
    proof {
        assert(s@.subrange(0, s@.len() as int) =~= s@);
        assert(s@.subrange(0, 0) =~= Seq::<char>::empty());
    }
    while j < i
        invariant
            j <= i,
            i <= chars@.len(),
            chars@ == s@,
            total == byte_offset(s@, s@.len() as int),
            b == byte_offset(s@, j as int),
        decreases i - j,
    {
        proof {
            lemma_byte_offset_step(s@, j as int);
        }
        b = b + len_utf8(chars[j]);
        j += 1;
    }
    b
}

} // verus!
