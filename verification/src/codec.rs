//! A structured byte encoding of parameter nodes.
//!
//! Every field of a node is written, in declaration order, to a flat byte
//! sequence: strings as a character count followed by one word per
//! character, spans as three words, flags as one byte each. Words are
//! 64-bit little-endian. Decoding reverses the encoding exactly and
//! rejects every byte sequence that no node produces; the round-trip law
//! [`lemma_round_trip`] is proved below.

use crate::function_input::{FunctionInputVariable, ParamView};
use crate::identifier::{Identifier, IdentifierView};
use crate::span::Span;
use crate::ty::Type;
use vstd::prelude::*;

verus! {

/// Why a byte sequence was rejected by [`decode`].
#[derive(Clone, Copy, PartialEq, Eq, Structural, Debug)]
pub enum DecodeError {
    /// The input ends before the encoding of the node does.
    Truncated,
    /// A character word does not hold a Unicode scalar value.
    InvalidChar,
    /// A flag byte holds something other than 0 or 1.
    InvalidFlag,
    /// A span word does not fit the span's 32-bit fields.
    OutOfRange,
    /// Bytes remain after the encoding of the node.
    TrailingBytes,
}

/// The eight little-endian bytes of a word.
pub open spec fn enc_u64(x: u64) -> Seq<u8> {
    seq![
        x as u8,
        (x >> 8) as u8,
        (x >> 16) as u8,
        (x >> 24) as u8,
        (x >> 32) as u8,
        (x >> 40) as u8,
        (x >> 48) as u8,
        (x >> 56) as u8,
    ]
}

/// The word held by the eight little-endian bytes at `i`.
pub open spec fn le8_at(b: Seq<u8>, i: int) -> u64
    recommends
        0 <= i,
        i + 8 <= b.len(),
{
    (b[i] as u64) | ((b[i + 1] as u64) << 8) | ((b[i + 2] as u64) << 16) | ((b[i + 3] as u64)
        << 24) | ((b[i + 4] as u64) << 32) | ((b[i + 5] as u64) << 40) | ((b[i + 6] as u64) << 48)
        | ((b[i + 7] as u64) << 56)
}

/// One word per character, each holding the character's scalar value.
pub open spec fn enc_chars(s: Seq<char>) -> Seq<u8>
    decreases s.len(),
{
    if s.len() == 0 {
        Seq::<u8>::empty()
    } else {
        enc_u64((s[0] as u32) as u64) + enc_chars(s.drop_first())
    }
}

/// A string: its character count, then its characters.
pub open spec fn enc_str(s: Seq<char>) -> Seq<u8> {
    enc_u64(s.len() as u64) + enc_chars(s)
}

/// A flag: one byte, 1 for true and 0 for false.
pub open spec fn enc_flag(v: bool) -> Seq<u8> {
    seq![if v { 1u8 } else { 0u8 }]
}

/// A span: its three fields, each as one word.
pub open spec fn enc_span(s: Span) -> Seq<u8> {
    enc_u64(s.lo as u64) + enc_u64(s.hi as u64) + enc_u64(s.file as u64)
}

/// The encoding of a whole node: every field, in declaration order.
pub open spec fn encode_spec(v: ParamView) -> Seq<u8> {
    enc_str(v.identifier.name) + (enc_span(v.identifier.span) + (enc_flag(v.const_) + (enc_flag(
        v.public,
    ) + (enc_flag(v.mutable) + (enc_str(v.type_) + enc_span(v.span))))))
}

/// Reads one word; fails when fewer than eight bytes remain.
pub open spec fn parse_u64(b: Seq<u8>, i: int) -> Result<(u64, int), DecodeError> {
    if 0 <= i && i + 8 <= b.len() {
        Ok((le8_at(b, i), i + 8))
    } else {
        Err(DecodeError::Truncated)
    }
}

/// True when the word is the scalar value of some character.
pub open spec fn word_is_char(w: u64) -> bool {
    w <= 0xFFFF_FFFFu64 && vstd::utf8::is_scalar(w as u32)
}

/// Reads `n` characters, one word each.
pub open spec fn parse_chars(b: Seq<u8>, i: int, n: nat) -> Result<(Seq<char>, int), DecodeError>
    decreases n,
{
    if n == 0 {
        Ok((Seq::<char>::empty(), i))
    } else {
        match parse_u64(b, i) {
            Err(e) => Err(e),
            Ok((w, j)) => if !word_is_char(w) {
                Err(DecodeError::InvalidChar)
            } else {
                match parse_chars(b, j, (n - 1) as nat) {
                    Err(e) => Err(e),
                    Ok((s, k)) => Ok((seq![(w as u32) as char] + s, k)),
                }
            },
        }
    }
}

/// Reads a string: its character count, then its characters.
pub open spec fn parse_str(b: Seq<u8>, i: int) -> Result<(Seq<char>, int), DecodeError> {
    match parse_u64(b, i) {
        Err(e) => Err(e),
        Ok((n, j)) => parse_chars(b, j, n as nat),
    }
}

/// Reads a flag byte; only 0 and 1 are accepted.
pub open spec fn parse_flag(b: Seq<u8>, i: int) -> Result<(bool, int), DecodeError> {
    if 0 <= i && i + 1 <= b.len() {
        if b[i] == 0u8 {
            Ok((false, i + 1))
        } else if b[i] == 1u8 {
            Ok((true, i + 1))
        } else {
            Err(DecodeError::InvalidFlag)
        }
    } else {
        Err(DecodeError::Truncated)
    }
}

/// Reads a span: three words, each of which must fit a 32-bit field.
pub open spec fn parse_span(b: Seq<u8>, i: int) -> Result<(Span, int), DecodeError> {
    match parse_u64(b, i) {
        Err(e) => Err(e),
        Ok((lo, j)) => match parse_u64(b, j) {
            Err(e) => Err(e),
            Ok((hi, k)) => match parse_u64(b, k) {
                Err(e) => Err(e),
                Ok((file, m)) => if lo <= 0xFFFF_FFFFu64 && hi <= 0xFFFF_FFFFu64 && file
                    <= 0xFFFF_FFFFu64 {
                    Ok((Span { lo: lo as u32, hi: hi as u32, file: file as u32 }, m))
                } else {
                    Err(DecodeError::OutOfRange)
                },
            },
        },
    }
}

/// Parses a whole node from a byte sequence. Exactly the sequences that
/// [`encode_spec`] produces are accepted, and every accepted sequence
/// yields the one node that produced it.
#[verifier::opaque]
pub open spec fn decode_spec(b: Seq<u8>) -> Result<ParamView, DecodeError> {
    match parse_str(b, 0) {
        Err(e) => Err(e),
        Ok((name, i)) => match parse_span(b, i) {
            Err(e) => Err(e),
            Ok((id_span, i)) => match parse_flag(b, i) {
                Err(e) => Err(e),
                Ok((const_, i)) => match parse_flag(b, i) {
                    Err(e) => Err(e),
                    Ok((public, i)) => match parse_flag(b, i) {
                        Err(e) => Err(e),
                        Ok((mutable, i)) => match parse_str(b, i) {
                            Err(e) => Err(e),
                            Ok((type_, i)) => match parse_span(b, i) {
                                Err(e) => Err(e),
                                Ok((span, i)) => if i == b.len() {
                                    Ok(
                                        ParamView {
                                            identifier: IdentifierView { name, span: id_span },
                                            const_,
                                            public,
                                            mutable,
                                            type_,
                                            span,
                                        },
                                    )
                                } else {
                                    Err(DecodeError::TrailingBytes)
                                },
                            },
                        },
                    },
                },
            },
        },
    }
}

/// The character words of a string take eight bytes per character.
proof fn lemma_enc_chars_len(s: Seq<char>)
    ensures
        enc_chars(s).len() == 8 * s.len(),
    decreases s.len(),
{
    if s.len() > 0 {
        lemma_enc_chars_len(s.drop_first());
    }
}

/// Appending a character to a string appends its word to the string's
/// character bytes.
proof fn lemma_enc_chars_push(s: Seq<char>, c: char)
    ensures
        enc_chars(s.push(c)) == enc_chars(s) + enc_u64((c as u32) as u64),
    decreases s.len(),
{
    if s.len() == 0 {
        assert(s.push(c)[0] == c);
        assert(s.push(c).drop_first() =~= Seq::<char>::empty());
        assert(enc_chars(s.push(c)) == enc_u64((c as u32) as u64) + enc_chars(
            Seq::<char>::empty(),
        ));
        assert(enc_chars(s.push(c)) =~= enc_chars(s) + enc_u64((c as u32) as u64));
    } else {
        assert(s.push(c)[0] == s[0]);
        assert(s.push(c).drop_first() =~= s.drop_first().push(c));
        lemma_enc_chars_push(s.drop_first(), c);
        assert(enc_chars(s.push(c)) =~= enc_chars(s) + enc_u64((c as u32) as u64));
    }
}

/// Reading a word back from its eight bytes yields the word.
proof fn lemma_parse_u64_enc(b: Seq<u8>, i: int, x: u64)
    requires
        0 <= i,
        i + 8 <= b.len(),
        b.subrange(i, i + 8) == enc_u64(x),
    ensures
        parse_u64(b, i) == Ok::<(u64, int), DecodeError>((x, i + 8)),
{
    assert forall|k: int| 0 <= k < 8 implies b[i + k] == enc_u64(x)[k] by {
        assert(b.subrange(i, i + 8)[k] == b[i + k]);
    }
    assert(((x as u8) as u64) | ((((x >> 8) as u8) as u64) << 8) | ((((x >> 16) as u8) as u64)
        << 16) | ((((x >> 24) as u8) as u64) << 24) | ((((x >> 32) as u8) as u64) << 32) | ((((x
        >> 40) as u8) as u64) << 40) | ((((x >> 48) as u8) as u64) << 48) | ((((x >> 56) as u8)
        as u64) << 56) == x) by (bit_vector);
    assert(le8_at(b, i) == x);
}

/// Reading characters back from their words yields the characters.
proof fn lemma_parse_chars_enc(b: Seq<u8>, i: int, s: Seq<char>)
    requires
        0 <= i,
        i + 8 * s.len() <= b.len(),
        b.subrange(i, i + 8 * s.len()) == enc_chars(s),
    ensures
        parse_chars(b, i, s.len()) == Ok::<(Seq<char>, int), DecodeError>((s, i + 8 * s.len())),
    decreases s.len(),
{
    if s.len() == 0 {
        assert(Seq::<char>::empty() =~= s);
    } else {
        let c = s[0];
        let w = (c as u32) as u64;
        let rest = s.drop_first();
        lemma_enc_chars_len(rest);
        assert(enc_chars(s) == enc_u64(w) + enc_chars(rest));
        assert(b.subrange(i, i + 8) =~= enc_u64(w)) by {
            assert forall|k: int| 0 <= k < 8 implies b.subrange(i, i + 8)[k] == enc_u64(w)[k] by {
                assert(b.subrange(i, i + 8 * s.len())[k] == b[i + k]);
                assert((enc_u64(w) + enc_chars(rest))[k] == enc_u64(w)[k]);
            }
        }
        lemma_parse_u64_enc(b, i, w);
        vstd::utf8::char_is_scalar(c);
        assert(word_is_char(w));
        assert((w as u32) == (c as u32));
        vstd::utf8::char_u32_cast(c, w as u32);
        assert(((w as u32) as char) == c);
        assert(b.subrange(i + 8, i + 8 + 8 * rest.len()) =~= enc_chars(rest)) by {
            assert forall|k: int| 0 <= k < 8 * rest.len() implies b.subrange(
                i + 8,
                i + 8 + 8 * rest.len(),
            )[k] == enc_chars(rest)[k] by {
                assert(b.subrange(i, i + 8 * s.len())[8 + k] == b[i + 8 + k]);
                assert((enc_u64(w) + enc_chars(rest))[8 + k] == enc_chars(rest)[k]);
            }
        }
        lemma_parse_chars_enc(b, i + 8, rest);
        assert(seq![(w as u32) as char] + rest =~= s);
    }
}

/// Reading a string back from its count and words yields the string.
proof fn lemma_parse_str_enc(b: Seq<u8>, i: int, s: Seq<char>)
    requires
        0 <= i,
        s.len() < 0x1_0000_0000_0000_0000,
        i + 8 + 8 * s.len() <= b.len(),
        b.subrange(i, i + 8 + 8 * s.len()) == enc_str(s),
    ensures
        parse_str(b, i) == Ok::<(Seq<char>, int), DecodeError>((s, i + 8 + 8 * s.len())),
{
    let n = s.len() as u64;
    lemma_enc_chars_len(s);
    assert(enc_str(s) == enc_u64(n) + enc_chars(s));
    assert(b.subrange(i, i + 8) =~= enc_u64(n)) by {
        assert forall|k: int| 0 <= k < 8 implies b.subrange(i, i + 8)[k] == enc_u64(n)[k] by {
            assert(b.subrange(i, i + 8 + 8 * s.len())[k] == b[i + k]);
            assert((enc_u64(n) + enc_chars(s))[k] == enc_u64(n)[k]);
        }
    }
    lemma_parse_u64_enc(b, i, n);
    assert(n as nat == s.len());
    assert(b.subrange(i + 8, i + 8 + 8 * s.len()) =~= enc_chars(s)) by {
        assert forall|k: int| 0 <= k < 8 * s.len() implies b.subrange(
            i + 8,
            i + 8 + 8 * s.len(),
        )[k] == enc_chars(s)[k] by {
            assert(b.subrange(i, i + 8 + 8 * s.len())[8 + k] == b[i + 8 + k]);
            assert((enc_u64(n) + enc_chars(s))[8 + k] == enc_chars(s)[k]);
        }
    }
    lemma_parse_chars_enc(b, i + 8, s);
}

/// Reading a flag back from its byte yields the flag.
proof fn lemma_parse_flag_enc(b: Seq<u8>, i: int, v: bool)
    requires
        0 <= i,
        i + 1 <= b.len(),
        b.subrange(i, i + 1) == enc_flag(v),
    ensures
        parse_flag(b, i) == Ok::<(bool, int), DecodeError>((v, i + 1)),
{
    assert(b[i] == enc_flag(v)[0]) by {
        assert(b.subrange(i, i + 1)[0] == b[i]);
    }
}

/// Reading a span back from its three words yields the span.
proof fn lemma_parse_span_enc(b: Seq<u8>, i: int, s: Span)
    requires
        0 <= i,
        i + 24 <= b.len(),
        b.subrange(i, i + 24) == enc_span(s),
    ensures
        parse_span(b, i) == Ok::<(Span, int), DecodeError>((s, i + 24)),
{
    let words: Seq<u64> = seq![s.lo as u64, s.hi as u64, s.file as u64];
    assert forall|m: int| 0 <= m < 3 implies b.subrange(i + 8 * m, i + 8 * m + 8) == enc_u64(
        words[m],
    ) by {
        assert forall|k: int| 0 <= k < 8 implies b.subrange(i + 8 * m, i + 8 * m + 8)[k] == enc_u64(
            words[m],
        )[k] by {
            assert(b.subrange(i, i + 24)[8 * m + k] == b[i + 8 * m + k]);
            assert(enc_span(s)[8 * m + k] == enc_u64(words[m])[k]);
        }
        assert(b.subrange(i + 8 * m, i + 8 * m + 8) =~= enc_u64(words[m]));
    }
    assert(b.subrange(i, i + 8) == enc_u64(s.lo as u64)) by {
        assert(b.subrange(i + 8 * 0, i + 8 * 0 + 8) == enc_u64(words[0]));
    }
    assert(b.subrange(i + 8, i + 16) == enc_u64(s.hi as u64)) by {
        assert(b.subrange(i + 8 * 1, i + 8 * 1 + 8) == enc_u64(words[1]));
    }
    assert(b.subrange(i + 16, i + 24) == enc_u64(s.file as u64)) by {
        assert(b.subrange(i + 8 * 2, i + 8 * 2 + 8) == enc_u64(words[2]));
    }
    lemma_parse_u64_enc(b, i, s.lo as u64);
    lemma_parse_u64_enc(b, i + 8, s.hi as u64);
    lemma_parse_u64_enc(b, i + 16, s.file as u64);
}

/// A subrange known to hold a concatenation splits into a subrange
/// holding each part.
proof fn lemma_split_concat(b: Seq<u8>, o: int, x: Seq<u8>, y: Seq<u8>)
    requires
        0 <= o,
        o + x.len() + y.len() <= b.len(),
        b.subrange(o, o + x.len() + y.len()) == x + y,
    ensures
        b.subrange(o, o + x.len()) == x,
        b.subrange(o + x.len(), o + x.len() + y.len()) == y,
{
    let whole = b.subrange(o, o + x.len() + y.len());
    assert forall|k: int| 0 <= k < x.len() implies b.subrange(o, o + x.len())[k] == x[k] by {
        assert(whole[k] == b[o + k]);
        assert((x + y)[k] == x[k]);
    }
    assert(b.subrange(o, o + x.len()) =~= x);
    assert forall|k: int| 0 <= k < y.len() implies b.subrange(
        o + x.len(),
        o + x.len() + y.len(),
    )[k] == y[k] by {
        assert(whole[x.len() + k] == b[o + x.len() + k]);
        assert((x + y)[x.len() + k] == y[k]);
    }
    assert(b.subrange(o + x.len(), o + x.len() + y.len()) =~= y);
}

/// A node parses back field by field from any byte sequence on which
/// the seven field parsers succeed in order with the node's fields.
proof fn lemma_decode_eval(b: Seq<u8>, v: ParamView, o1: int, o2: int, o3: int, o4: int, o5: int, o6: int)
    requires
        parse_str(b, 0) == Ok::<(Seq<char>, int), DecodeError>((v.identifier.name, o1)),
        parse_span(b, o1) == Ok::<(Span, int), DecodeError>((v.identifier.span, o2)),
        parse_flag(b, o2) == Ok::<(bool, int), DecodeError>((v.const_, o3)),
        parse_flag(b, o3) == Ok::<(bool, int), DecodeError>((v.public, o4)),
        parse_flag(b, o4) == Ok::<(bool, int), DecodeError>((v.mutable, o5)),
        parse_str(b, o5) == Ok::<(Seq<char>, int), DecodeError>((v.type_, o6)),
        parse_span(b, o6) == Ok::<(Span, int), DecodeError>((v.span, b.len() as int)),
    ensures
        decode_spec(b) == Ok::<ParamView, DecodeError>(v),
{
    reveal(decode_spec);
    assert(decode_spec(b) matches Ok(w) && w =~= v);
}

/// With every field's bytes in place, the whole byte sequence decodes
/// to the node.
proof fn lemma_parse_fields(b: Seq<u8>, v: ParamView, o1: int, o2: int, o3: int, o4: int, o5: int, o6: int)
    requires
        v.identifier.name.len() < 0x1_0000_0000_0000_0000,
        v.type_.len() < 0x1_0000_0000_0000_0000,
        o1 == 8 + 8 * v.identifier.name.len(),
        o2 == o1 + 24,
        o3 == o2 + 1,
        o4 == o3 + 1,
        o5 == o4 + 1,
        o6 == o5 + 8 + 8 * v.type_.len(),
        b.len() == o6 + 24,
        b.subrange(0, o1) == enc_str(v.identifier.name),
        b.subrange(o1, o2) == enc_span(v.identifier.span),
        b.subrange(o2, o3) == enc_flag(v.const_),
        b.subrange(o3, o4) == enc_flag(v.public),
        b.subrange(o4, o5) == enc_flag(v.mutable),
        b.subrange(o5, o6) == enc_str(v.type_),
        b.subrange(o6, o6 + 24) == enc_span(v.span),
    ensures
        decode_spec(b) == Ok::<ParamView, DecodeError>(v),
{
    lemma_parse_str_enc(b, 0, v.identifier.name);
    lemma_parse_span_enc(b, o1, v.identifier.span);
    lemma_parse_flag_enc(b, o2, v.const_);
    lemma_parse_flag_enc(b, o3, v.public);
    lemma_parse_flag_enc(b, o4, v.mutable);
    lemma_parse_str_enc(b, o5, v.type_);
    lemma_parse_span_enc(b, o6, v.span);
    lemma_decode_eval(b, v, o1, o2, o3, o4, o5, o6);
}

/// The round-trip law: decoding the encoding of any node yields that
/// node back, every field — the spans included — exactly as it was.
pub proof fn lemma_round_trip(v: ParamView)
    requires
        v.identifier.name.len() < 0x1_0000_0000_0000_0000,
        v.type_.len() < 0x1_0000_0000_0000_0000,
    ensures
        decode_spec(encode_spec(v)) == Ok::<ParamView, DecodeError>(v),
{
    let b = encode_spec(v);
    let b_name = enc_str(v.identifier.name);
    let b_id_span = enc_span(v.identifier.span);
    let b_const = enc_flag(v.const_);
    let b_public = enc_flag(v.public);
    let b_mutable = enc_flag(v.mutable);
    let b_type = enc_str(v.type_);
    let b_span = enc_span(v.span);
    lemma_enc_chars_len(v.identifier.name);
    lemma_enc_chars_len(v.type_);
    let l1 = 8 + 8 * v.identifier.name.len();
    let l6 = 8 + 8 * v.type_.len();
    assert(b_name.len() == l1);
    assert(b_id_span.len() == 24);
    assert(b_const.len() == 1 && b_public.len() == 1 && b_mutable.len() == 1);
    assert(b_type.len() == l6);
    assert(b_span.len() == 24);
    let o1 = l1 as int;
    let o2 = o1 + 24;
    let o3 = o2 + 1;
    let o4 = o3 + 1;
    let o5 = o4 + 1;
    let o6 = o5 + l6;
    let o7 = o6 + 24;
    assert(b.len() == o7);
    let tail_type = b_type + b_span;
    let tail_mutable = b_mutable + tail_type;
    let tail_public = b_public + tail_mutable;
    let tail_const = b_const + tail_public;
    let tail_id_span = b_id_span + tail_const;
    assert(b == b_name + tail_id_span);
    assert(b.subrange(0, o7) =~= b);
    lemma_split_concat(b, 0, b_name, tail_id_span);
    lemma_split_concat(b, o1, b_id_span, tail_const);
    lemma_split_concat(b, o2, b_const, tail_public);
    lemma_split_concat(b, o3, b_public, tail_mutable);
    lemma_split_concat(b, o4, b_mutable, tail_type);
    lemma_split_concat(b, o5, b_type, b_span);
    lemma_parse_fields(b, v, o1, o2, o3, o4, o5, o6);
}

/// Appends the eight little-endian bytes of `x`.
fn push_u64(out: &mut Vec<u8>, x: u64)
    ensures
        final(out)@ == old(out)@ + enc_u64(x),
{
    out.push(x as u8);
    out.push((x >> 8) as u8);
    out.push((x >> 16) as u8);
    out.push((x >> 24) as u8);
    out.push((x >> 32) as u8);
    out.push((x >> 40) as u8);
    out.push((x >> 48) as u8);
    out.push((x >> 56) as u8);
    proof {
        assert(out@ =~= old(out)@ + enc_u64(x));
    }
}

/// Appends the flag byte of `v`.
fn push_flag(out: &mut Vec<u8>, v: bool)
    ensures
        final(out)@ == old(out)@ + enc_flag(v),
{
    out.push(if v { 1u8 } else { 0u8 });
    proof {
        assert(out@ =~= old(out)@ + enc_flag(v));
    }
}

/// Appends the three words of a span.
fn push_span(out: &mut Vec<u8>, s: Span)
    ensures
        final(out)@ == old(out)@ + enc_span(s),
{
    push_u64(out, s.lo as u64);
    push_u64(out, s.hi as u64);
    push_u64(out, s.file as u64);
    proof {
        assert(out@ =~= old(out)@ + enc_span(s));
    }
}

/// Appends the character count and character words of a string.
fn push_str(out: &mut Vec<u8>, s: &String)
    ensures
        final(out)@ == old(out)@ + enc_str(s@),
{
    let ghost start: Seq<u8> = out@;
    let n: usize = s.as_str().unicode_len();
    push_u64(out, n as u64);
    let mut i: usize = 0;
    while i < n
        invariant
            n == s@.len(),
            i <= n,
            out@ == start + enc_u64(n as u64) + enc_chars(s@.subrange(0, i as int)),
        decreases n - i,
    {
        let c: char = s.as_str().get_char(i);
        push_u64(out, (c as u32) as u64);
        proof {
            assert(s@.subrange(0, i + 1 as int) =~= s@.subrange(0, i as int).push(s@[i as int]));
            lemma_enc_chars_push(s@.subrange(0, i as int), s@[i as int]);
            assert(out@ =~= start + enc_u64(n as u64) + enc_chars(s@.subrange(0, i + 1 as int)));
        }
        i = i + 1;
    }
    proof {
        assert(s@.subrange(0, n as int) =~= s@);
        assert(out@ =~= start + enc_str(s@));
    }
}

/// Relies on `char::from_u32`: it returns the character with the given
/// scalar value, and `None` exactly when the value is no Unicode scalar
/// (a surrogate, or above the largest code point).
pub assume_specification[ char::from_u32 ](u: u32) -> (r: Option<char>)
    ensures
        r is Some <==> vstd::utf8::is_scalar(u),
        r matches Some(c) ==> c as u32 == u,
;

/// Relies on `collect` from an iterator over `char`s into a `String`:
/// the string's characters are exactly the collected characters, in
/// order.
#[verifier::external_body]
fn string_from_chars(v: &Vec<char>) -> (r: String)
    ensures
        r@ == v@,
{
    v.iter().collect()
}

/// Reads one little-endian word at `i`.
fn read_u64(b: &Vec<u8>, i: usize) -> (r: Result<(u64, usize), DecodeError>)
    ensures
        (match r {
            Ok(p) => parse_u64(b@, i as int) == Ok::<(u64, int), DecodeError>((p.0, p.1 as int)),
            Err(e) => parse_u64(b@, i as int) == Err::<(u64, int), DecodeError>(e),
        }),
{
    if i <= b.len() && b.len() - i >= 8 {
        let x: u64 = (b[i] as u64) | ((b[i + 1] as u64) << 8) | ((b[i + 2] as u64) << 16) | ((b[i
            + 3] as u64) << 24) | ((b[i + 4] as u64) << 32) | ((b[i + 5] as u64) << 40) | ((b[i
            + 6] as u64) << 48) | ((b[i + 7] as u64) << 56);
        Ok((x, i + 8))
    } else {
        Err(DecodeError::Truncated)
    }
}

/// Reads one flag byte at `i`.
fn read_flag(b: &Vec<u8>, i: usize) -> (r: Result<(bool, usize), DecodeError>)
    ensures
        (match r {
            Ok(p) => parse_flag(b@, i as int) == Ok::<(bool, int), DecodeError>((p.0, p.1 as int)),
            Err(e) => parse_flag(b@, i as int) == Err::<(bool, int), DecodeError>(e),
        }),
{
    if i < b.len() {
        if b[i] == 0u8 {
            Ok((false, i + 1))
        } else if b[i] == 1u8 {
            Ok((true, i + 1))
        } else {
            Err(DecodeError::InvalidFlag)
        }
    } else {
        Err(DecodeError::Truncated)
    }
}

/// Reads the three words of a span at `i`.
fn read_span(b: &Vec<u8>, i: usize) -> (r: Result<(Span, usize), DecodeError>)
    ensures
        (match r {
            Ok(p) => parse_span(b@, i as int) == Ok::<(Span, int), DecodeError>((p.0, p.1 as int)),
            Err(e) => parse_span(b@, i as int) == Err::<(Span, int), DecodeError>(e),
        }),
{
    let (lo, j) = match read_u64(b, i) {
        Ok(p) => p,
        Err(e) => {
            return Err(e);
        },
    };
    let (hi, k) = match read_u64(b, j) {
        Ok(p) => p,
        Err(e) => {
            return Err(e);
        },
    };
    let (file, m) = match read_u64(b, k) {
        Ok(p) => p,
        Err(e) => {
            return Err(e);
        },
    };
    if lo <= 0xFFFF_FFFFu64 && hi <= 0xFFFF_FFFFu64 && file <= 0xFFFF_FFFFu64 {
        Ok((Span { lo: lo as u32, hi: hi as u32, file: file as u32 }, m))
    } else {
        Err(DecodeError::OutOfRange)
    }
}

/// Reads a string at `i`: its character count, then its characters.
fn read_str(b: &Vec<u8>, i: usize) -> (r: Result<(String, usize), DecodeError>)
    ensures
        (match r {
            Ok(p) => parse_str(b@, i as int) == Ok::<(Seq<char>, int), DecodeError>(
                (p.0@, p.1 as int),
            ),
            Err(e) => parse_str(b@, i as int) == Err::<(Seq<char>, int), DecodeError>(e),
        }),
{
    let (n, start) = match read_u64(b, i) {
        Ok(p) => p,
        Err(e) => {
            return Err(e);
        },
    };
    let ghost j0: int = start as int;
    let mut pos: usize = start;
    let mut chars: Vec<char> = Vec::new();
    let mut k: u64 = 0;
    while k < n
        invariant
            k <= n,
            parse_u64(b@, i as int) == Ok::<(u64, int), DecodeError>((n, j0)),
            parse_chars(b@, j0, n as nat) == (match parse_chars(b@, pos as int, (n - k) as nat) {
                Ok(p) => Ok::<(Seq<char>, int), DecodeError>((chars@ + p.0, p.1)),
                Err(e) => Err::<(Seq<char>, int), DecodeError>(e),
            }),
        decreases n - k,
    {
        let (w, pos2) = match read_u64(b, pos) {
            Ok(p) => p,
            Err(e) => {
                return Err(e);
            },
        };
        if w > 0xFFFF_FFFFu64 {
            return Err(DecodeError::InvalidChar);
        }
        let c: char = match char::from_u32(w as u32) {
            Some(c) => c,
            None => {
                return Err(DecodeError::InvalidChar);
            },
        };
        proof {
            assert(word_is_char(w));
            vstd::utf8::char_u32_cast(c, w as u32);
            assert(((w as u32) as char) == c);
        }
        let ghost prev: Seq<char> = chars@;
        chars.push(c);
        proof {
            assert(chars@ == prev.push(c));
            assert forall|tail_id_span: Seq<char>| (prev + (seq![c] + tail_id_span)) =~= (chars@ + tail_id_span) by {}
        }
        pos = pos2;
        k = k + 1;
    }
    proof {
        assert(parse_chars(b@, pos as int, 0) == Ok::<(Seq<char>, int), DecodeError>(
            (Seq::<char>::empty(), pos as int),
        ));
        assert(chars@ + Seq::<char>::empty() =~= chars@);
    }
    let s = string_from_chars(&chars);
    Ok((s, pos))
}

impl FunctionInputVariable {
    /// Encodes the node as its flat byte form. The bytes are a function
    /// of the node's value alone, so equal nodes encode equally.
    pub fn encode(&self) -> (r: Vec<u8>)
        ensures
            r@ == encode_spec(self@),
    {
        let mut out: Vec<u8> = Vec::new();
        push_str(&mut out, &self.identifier.name);
        push_span(&mut out, self.identifier.span);
        push_flag(&mut out, self.const_);
        push_flag(&mut out, self.public);
        push_flag(&mut out, self.mutable);
        push_str(&mut out, &self.type_.text);
        push_span(&mut out, self.span);
        proof {
            assert(out@ =~= encode_spec(self@));
        }
        out
    }

    /// Decodes a node from its flat byte form. Exactly the byte
    /// sequences that [`Self::encode`] produces are accepted — decoding
    /// reports [`decode_spec`]'s verdict on the bytes — and by
    /// [`lemma_round_trip`] the encoding of any node decodes to that
    /// node again.
    pub fn decode(b: &Vec<u8>) -> (r: Result<FunctionInputVariable, DecodeError>)
        ensures
            (match r {
                Ok(n) => decode_spec(b@) == Ok::<ParamView, DecodeError>(n@),
                Err(e) => decode_spec(b@) == Err::<ParamView, DecodeError>(e),
            }),
    {
        proof {
            reveal(decode_spec);
        }
        let (name, i) = match read_str(b, 0) {
            Ok(p) => p,
            Err(e) => {
                return Err(e);
            },
        };
        let (id_span, i) = match read_span(b, i) {
            Ok(p) => p,
            Err(e) => {
                return Err(e);
            },
        };
        let (const_, i) = match read_flag(b, i) {
            Ok(p) => p,
            Err(e) => {
                return Err(e);
            },
        };
        let (public, i) = match read_flag(b, i) {
            Ok(p) => p,
            Err(e) => {
                return Err(e);
            },
        };
        let (mutable, i) = match read_flag(b, i) {
            Ok(p) => p,
            Err(e) => {
                return Err(e);
            },
        };
        let (type_text, i) = match read_str(b, i) {
            Ok(p) => p,
            Err(e) => {
                return Err(e);
            },
        };
        let (span, i) = match read_span(b, i) {
            Ok(p) => p,
            Err(e) => {
                return Err(e);
            },
        };
        if i != b.len() {
            return Err(DecodeError::TrailingBytes);
        }
        let node = FunctionInputVariable {
            identifier: Identifier { name, span: id_span },
            const_,
            public,
            mutable,
            type_: Type { text: type_text },
            span,
        };
        proof {
            assert(decode_spec(b@) matches Ok(w) && w =~= node@);
        }
        Ok(node)
    }
}

} // verus!
