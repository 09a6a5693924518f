//! The token marshaling protocol: the byte encoding that carries a token
//! stream across the host/guest boundary, and its decoder.
//!
//! The wire layout is private to one build of the bridge and its paired
//! modules.  Each token is a one-byte kind tag, an eight-byte position tag,
//! and a payload; a grouping token wraps its encoded sub-stream between an
//! opening and a closing tag.  The governing law is round-trip fidelity:
//! decoding an encoded stream yields the stream back, including nested
//! groups and position tags (`lemma_round_trip`).

use vstd::prelude::*;

use crate::bytes::{le32, lemma_le32_rt, push_le32, rd32, rd32_at};
use crate::token::{Delim, Span, Token, TokenV, stream_model};

verus! {

pub const TAG_IDENT: u8 = 1;

pub const TAG_LITERAL: u8 = 2;

pub const TAG_PUNCT: u8 = 3;

pub const TAG_OPEN: u8 = 4;

pub const TAG_CLOSE: u8 = 5;

/// The byte a delimiter is written as.
pub open spec fn delim_byte(d: Delim) -> u8 {
    match d {
        Delim::Paren => 1,
        Delim::Bracket => 2,
        Delim::Brace => 3,
    }
}

/// The delimiter a byte stands for, if any.
pub open spec fn byte_delim(b: u8) -> Option<Delim> {
    if b == 1 {
        Some(Delim::Paren)
    } else if b == 2 {
        Some(Delim::Bracket)
    } else if b == 3 {
        Some(Delim::Brace)
    } else {
        None
    }
}

/// The eight bytes of a position tag.
pub open spec fn enc_span(s: Span) -> Seq<u8> {
    le32(s.lo) + le32(s.hi)
}

/// The byte encoding of one token.
pub open spec fn enc_token(t: TokenV) -> Seq<u8>
    decreases t,
{
    match t {
        TokenV::Ident(txt, sp) => seq![TAG_IDENT] + enc_span(sp) + le32(txt.len() as u32) + txt,
        TokenV::Literal(txt, sp) => seq![TAG_LITERAL] + enc_span(sp) + le32(txt.len() as u32)
            + txt,
        TokenV::Punct(c, j, sp) => seq![TAG_PUNCT] + enc_span(sp) + seq![
            c,
            if j {
                1u8
            } else {
                0u8
            },
        ],
        TokenV::Group(d, body, sp) => seq![TAG_OPEN] + enc_span(sp) + seq![delim_byte(d)]
            + enc_stream(body) + seq![TAG_CLOSE],
    }
}

/// The byte encoding of a token stream: the encodings of its tokens, in
/// order.
pub open spec fn enc_stream(ts: Seq<TokenV>) -> Seq<u8>
    decreases ts,
{
    if ts.len() == 0 {
        Seq::empty()
    } else {
        enc_token(ts[0]) + enc_stream(ts.drop_first())
    }
}

/// A token the protocol can carry: every piece of identifier or literal
/// text is short enough for its four-byte length prefix.
pub open spec fn token_wf(t: TokenV) -> bool
    decreases t,
{
    match t {
        TokenV::Ident(txt, _) => txt.len() < 0x1_0000_0000,
        TokenV::Literal(txt, _) => txt.len() < 0x1_0000_0000,
        TokenV::Punct(_, _, _) => true,
        TokenV::Group(_, body, _) => stream_wf(body),
    }
}

/// A stream the protocol can carry: every token in it is.
pub open spec fn stream_wf(ts: Seq<TokenV>) -> bool
    decreases ts,
{
    forall|i: int| 0 <= i < ts.len() ==> token_wf(#[trigger] ts[i])
}

/// Decodes one token from the front of `b`; returns it with the bytes that
/// follow it.  Returns `None` when no token of the protocol starts `b`.
pub open spec fn dec_token(b: Seq<u8>) -> Option<(TokenV, Seq<u8>)>
    decreases b.len(), 0int,
{
    if b.len() < 1 {
        None
    } else {
        let tag = b[0];
        if tag == TAG_IDENT || tag == TAG_LITERAL {
            if b.len() < 13 {
                None
            } else {
                let sp = Span { lo: rd32(b.subrange(1, 5)), hi: rd32(b.subrange(5, 9)) };
                let n = rd32(b.subrange(9, 13)) as int;
                if b.len() < 13 + n {
                    None
                } else {
                    let txt = b.subrange(13, 13 + n);
                    let rest = b.skip(13 + n);
                    if tag == TAG_IDENT {
                        Some((TokenV::Ident(txt, sp), rest))
                    } else {
                        Some((TokenV::Literal(txt, sp), rest))
                    }
                }
            }
        } else if tag == TAG_PUNCT {
            if b.len() < 11 {
                None
            } else {
                let sp = Span { lo: rd32(b.subrange(1, 5)), hi: rd32(b.subrange(5, 9)) };
                let jb = b[10];
                if jb == 0 || jb == 1 {
                    Some((TokenV::Punct(b[9], jb == 1, sp), b.skip(11)))
                } else {
                    None
                }
            }
        } else if tag == TAG_OPEN {
            if b.len() < 10 {
                None
            } else {
                let sp = Span { lo: rd32(b.subrange(1, 5)), hi: rd32(b.subrange(5, 9)) };
                match byte_delim(b[9]) {
                    None => None,
                    Some(d) => match dec_stream(b.skip(10)) {
                        None => None,
                        Some((body, rest1)) => {
                            if rest1.len() >= 1 && rest1[0] == TAG_CLOSE {
                                Some((TokenV::Group(d, body, sp), rest1.drop_first()))
                            } else {
                                None
                            }
                        },
                    },
                }
            }
        } else {
            None
        }
    }
}

/// Decodes tokens from the front of `b` until the input ends or a closing
/// tag is next; returns them with the unconsumed bytes.
pub open spec fn dec_stream(b: Seq<u8>) -> Option<(Seq<TokenV>, Seq<u8>)>
    decreases b.len(), 1int,
{
    if b.len() == 0 || b[0] == TAG_CLOSE {
        Some((Seq::empty(), b))
    } else {
        match dec_token(b) {
            None => None,
            Some((t, rest)) => {
                if rest.len() < b.len() {
                    match dec_stream(rest) {
                        None => None,
                        Some((s2, rest2)) => Some((seq![t] + s2, rest2)),
                    }
                } else {
                    None
                }
            },
        }
    }
}

/// Decoding consumes part of its input: what a successful decode leaves
/// over is never longer than what it was given, and strictly shorter for a
/// single token.
pub proof fn lemma_dec_consumes(b: Seq<u8>)
    ensures
        dec_token(b) matches Some((t, rest)) ==> rest.len() < b.len(),
        dec_stream(b) matches Some((s, rest)) ==> rest.len() <= b.len(),
    decreases b.len(),
{
    if b.len() >= 10 && b[0] == TAG_OPEN {
        lemma_dec_consumes(b.skip(10));
    }
    if !(b.len() == 0 || b[0] == TAG_CLOSE) {
        match dec_token(b) {
            Some((t, rest)) => {
                if rest.len() < b.len() {
                    lemma_dec_consumes(rest);
                }
            },
            None => {},
        }
    }
}

/// The first byte of an encoded token is its kind tag, never a closing tag.
pub proof fn lemma_enc_token_shape(t: TokenV)
    ensures
        enc_token(t).len() >= 11,
        1 <= enc_token(t)[0] <= 4,
{
    match t {
        TokenV::Ident(txt, sp) => {},
        TokenV::Literal(txt, sp) => {},
        TokenV::Punct(c, j, sp) => {},
        TokenV::Group(d, body, sp) => {},
    }
}

/// Round trip for one token: decoding its encoding, with anything after
/// it, yields the token and leaves exactly that remainder.
pub proof fn lemma_rt_token(t: TokenV, rest: Seq<u8>)
    requires
        token_wf(t),
    ensures
        dec_token(enc_token(t) + rest) == Some((t, rest)),
    decreases t,
{
    let b = enc_token(t) + rest;
    match t {
        TokenV::Ident(txt, sp) => {
            lemma_le32_rt(sp.lo);
            lemma_le32_rt(sp.hi);
            lemma_le32_rt(txt.len() as u32);
            let n = txt.len() as int;
            assert(b.subrange(1, 5) =~= le32(sp.lo));
            assert(b.subrange(5, 9) =~= le32(sp.hi));
            assert(b.subrange(9, 13) =~= le32(txt.len() as u32));
            assert(b.subrange(13, 13 + n) =~= txt);
            assert(b.skip(13 + n) =~= rest);
        },
        TokenV::Literal(txt, sp) => {
            lemma_le32_rt(sp.lo);
            lemma_le32_rt(sp.hi);
            lemma_le32_rt(txt.len() as u32);
            let n = txt.len() as int;
            assert(b.subrange(1, 5) =~= le32(sp.lo));
            assert(b.subrange(5, 9) =~= le32(sp.hi));
            assert(b.subrange(9, 13) =~= le32(txt.len() as u32));
            assert(b.subrange(13, 13 + n) =~= txt);
            assert(b.skip(13 + n) =~= rest);
        },
        TokenV::Punct(c, j, sp) => {
            lemma_le32_rt(sp.lo);
            lemma_le32_rt(sp.hi);
            assert(b.subrange(1, 5) =~= le32(sp.lo));
            assert(b.subrange(5, 9) =~= le32(sp.hi));
            assert(b.skip(11) =~= rest);
        },
        TokenV::Group(d, body, sp) => {
            lemma_le32_rt(sp.lo);
            lemma_le32_rt(sp.hi);
            assert(b.subrange(1, 5) =~= le32(sp.lo));
            assert(b.subrange(5, 9) =~= le32(sp.hi));
            let after = seq![TAG_CLOSE] + rest;
            assert(b.skip(10) =~= enc_stream(body) + after);
            lemma_rt_stream(body, after);
            assert(after.drop_first() =~= rest);
        },
    }
}

/// Round trip for a stream: decoding its encoding, followed by either
/// nothing or a closing tag, yields the stream and stops exactly there.
pub proof fn lemma_rt_stream(ts: Seq<TokenV>, rest: Seq<u8>)
    requires
        stream_wf(ts),
        rest.len() == 0 || rest[0] == TAG_CLOSE,
    ensures
        dec_stream(enc_stream(ts) + rest) == Some((ts, rest)),
    decreases ts,
{
    let b = enc_stream(ts) + rest;
    if ts.len() == 0 {
        assert(b =~= rest);
        assert(ts =~= Seq::<TokenV>::empty());
    } else {
        let t0 = ts[0];
        let tl = ts.drop_first();
        let mid = enc_stream(tl) + rest;
        lemma_enc_token_shape(t0);
        assert(b =~= enc_token(t0) + mid);
        assert(b[0] == enc_token(t0)[0]);
        lemma_rt_token(t0, mid);
        lemma_dec_consumes(b);
        lemma_rt_stream(tl, rest);
        assert(seq![t0] + tl =~= ts);
    }
}

/// Round-trip fidelity: for every stream the protocol supports, decoding
/// the encoding yields the stream back, whole, with nothing left over.
pub proof fn lemma_round_trip(ts: Seq<TokenV>)
    requires
        stream_wf(ts),
    ensures
        dec_stream(enc_stream(ts)) == Some((ts, Seq::<u8>::empty())),
{
    lemma_rt_stream(ts, Seq::<u8>::empty());
    assert(enc_stream(ts) + Seq::<u8>::empty() =~= enc_stream(ts));
}

/// Extending a stream extends its encoding on the right.
pub proof fn lemma_enc_stream_push(s: Seq<TokenV>, x: TokenV)
    ensures
        enc_stream(s.push(x)) == enc_stream(s) + enc_token(x),
    decreases s,
{
    let sp = s.push(x);
    if s.len() == 0 {
        assert(sp =~= seq![x]);
        assert(sp.drop_first() =~= Seq::<TokenV>::empty());
        assert(sp[0] == x);
        assert(enc_stream(sp) == enc_token(x) + enc_stream(Seq::<TokenV>::empty()));
        assert(s =~= Seq::<TokenV>::empty());
        assert(enc_stream(sp) =~= enc_stream(s) + enc_token(x));
    } else {
        assert(sp.drop_first() =~= s.drop_first().push(x));
        assert(sp[0] == s[0]);
        lemma_enc_stream_push(s.drop_first(), x);
        assert(enc_stream(sp) == enc_token(s[0]) + (enc_stream(s.drop_first()) + enc_token(x)));
        assert(enc_token(s[0]) + (enc_stream(s.drop_first()) + enc_token(x)) =~= (enc_token(s[0])
            + enc_stream(s.drop_first())) + enc_token(x));
    }
}

/// Why a stream could not be encoded.
#[derive(Clone, Copy, PartialEq, Eq, Structural, Debug)]
pub enum EncodeError {
    /// A piece of identifier or literal text is too long for its four-byte
    /// length prefix.
    OversizedText,
}

/// Why a byte buffer could not be decoded as a token stream.
#[derive(Clone, Copy, PartialEq, Eq, Structural, Debug)]
pub enum DecodeError {
    /// The bytes are not an encoding of any supported token stream.
    Malformed,
}

/// Whether this token is one the protocol can carry.
#[verifier::loop_isolation(false)]
pub fn token_is_wf(t: &Token) -> (r: bool)
    ensures
        r == token_wf(t.model()),
    decreases *t,
{
    match t {
        Token::Ident(txt, _) => (txt.len() as u64) < 0x1_0000_0000u64,
        Token::Literal(txt, _) => (txt.len() as u64) < 0x1_0000_0000u64,
        Token::Punct(_, _, _) => true,
        Token::Group(_, ts, _) => {
            let mut i: usize = 0;
            while i < ts.len()
                invariant
                    i <= ts@.len(),
                    forall|k: int|
                        0 <= k < i ==> token_wf(#[trigger] stream_model(ts@)[k]),
                decreases ts@.len() - i,
            {
                if !token_is_wf(&ts[i]) {
                    assert(!token_wf(stream_model(ts@)[i as int]));
                    return false;
                }
                i += 1;
            }
            true
        },
    }
}

/// Whether every token of this stream is one the protocol can carry.
pub fn stream_is_wf(ts: &Vec<Token>) -> (r: bool)
    ensures
        r == stream_wf(stream_model(ts@)),
{
    let mut i: usize = 0;
    while i < ts.len()
        invariant
            i <= ts@.len(),
            forall|k: int| 0 <= k < i ==> token_wf(#[trigger] stream_model(ts@)[k]),
        decreases ts@.len() - i,
    {
        if !token_is_wf(&ts[i]) {
            assert(!token_wf(stream_model(ts@)[i as int]));
            return false;
        }
        i += 1;
    }
    true
}


#[verifier::loop_isolation(false)]
fn write_token(t: &Token, out: &mut Vec<u8>)
    requires
        token_wf(t.model()),
    ensures
        final(out)@ == old(out)@ + enc_token(t.model()),
    decreases *t,
{
    match t {
        Token::Ident(txt, sp) => {
            out.push(TAG_IDENT);
            push_le32(out, sp.lo);
            push_le32(out, sp.hi);
            push_le32(out, txt.len() as u32);
            let ghost base = out@;
            let mut k: usize = 0;
            while k < txt.len()
                invariant
                    k <= txt@.len(),
                    out@ == base + txt@.take(k as int),
                decreases txt@.len() - k,
            {
                out.push(txt[k]);
                assert(out@ =~= base + txt@.take(k + 1));
                k += 1;
            }
            assert(txt@.take(txt@.len() as int) =~= txt@);
            assert(out@ =~= old(out)@ + enc_token(t.model()));
        },
        Token::Literal(txt, sp) => {
            out.push(TAG_LITERAL);
            push_le32(out, sp.lo);
            push_le32(out, sp.hi);
            push_le32(out, txt.len() as u32);
            let ghost base = out@;
            let mut k: usize = 0;
            while k < txt.len()
                invariant
                    k <= txt@.len(),
                    out@ == base + txt@.take(k as int),
                decreases txt@.len() - k,
            {
                out.push(txt[k]);
                assert(out@ =~= base + txt@.take(k + 1));
                k += 1;
            }
            assert(txt@.take(txt@.len() as int) =~= txt@);
            assert(out@ =~= old(out)@ + enc_token(t.model()));
        },
        Token::Punct(c, j, sp) => {
            out.push(TAG_PUNCT);
            push_le32(out, sp.lo);
            push_le32(out, sp.hi);
            out.push(*c);
            out.push(if *j { 1u8 } else { 0u8 });
            assert(out@ =~= old(out)@ + enc_token(t.model()));
        },
        Token::Group(d, ts, sp) => {
            out.push(TAG_OPEN);
            push_le32(out, sp.lo);
            push_le32(out, sp.hi);
            out.push(
                match d {
                    Delim::Paren => 1u8,
                    Delim::Bracket => 2u8,
                    Delim::Brace => 3u8,
                },
            );
            let ghost base = out@;
            let ghost body = stream_model(ts@);
            let mut k: usize = 0;
            while k < ts.len()
                invariant
                    k <= ts@.len(),
                    body == stream_model(ts@),
                    stream_wf(body),
                    out@ == base + enc_stream(body.take(k as int)),
                decreases ts@.len() - k,
            {
                assert(token_wf(body[k as int]));
                write_token(&ts[k], out);
                proof {
                    lemma_enc_stream_push(body.take(k as int), body[k as int]);
                    assert(body.take(k as int).push(body[k as int]) =~= body.take(k + 1));
                }
                k += 1;
            }
            assert(body.take(ts@.len() as int) =~= body);
            out.push(TAG_CLOSE);
            assert(out@ =~= old(out)@ + enc_token(t.model()));
        },
    }
}

/// Encodes a token stream into the byte form that crosses into guest
/// memory.  Fails exactly when the stream is outside the supported
/// grammar (a piece of text too long for its length prefix).
pub fn encode_stream(ts: &Vec<Token>) -> (r: Result<Vec<u8>, EncodeError>)
    ensures
        match r {
            Ok(b) => stream_wf(stream_model(ts@)) && b@ == enc_stream(stream_model(ts@)),
            Err(_) => !stream_wf(stream_model(ts@)),
        },
{
    if !stream_is_wf(ts) {
        return Err(EncodeError::OversizedText);
    }
    let mut out: Vec<u8> = Vec::new();
    let ghost body = stream_model(ts@);
    let mut k: usize = 0;
    while k < ts.len()
        invariant
            k <= ts@.len(),
            body == stream_model(ts@),
            stream_wf(body),
            out@ == enc_stream(body.take(k as int)),
        decreases ts@.len() - k,
    {
        assert(token_wf(body[k as int]));
        write_token(&ts[k], &mut out);
        proof {
            lemma_enc_stream_push(body.take(k as int), body[k as int]);
            assert(body.take(k as int).push(body[k as int]) =~= body.take(k + 1));
        }
        k += 1;
    }
    assert(body.take(ts@.len() as int) =~= body);
    Ok(out)
}


fn d_token(b: &Vec<u8>, pos: usize) -> (r: Result<(Token, usize), DecodeError>)
    requires
        pos <= b@.len(),
    ensures
        match r {
            Ok((t, p2)) => pos < p2 <= b@.len() && dec_token(b@.skip(pos as int)) == Some(
                (t.model(), b@.skip(p2 as int)),
            ),
            Err(_) => dec_token(b@.skip(pos as int)) is None,
        },
    decreases b@.len() - pos, 0int,
{
    let ghost s = b@.skip(pos as int);
    let n = b.len();
    if n - pos < 1 {
        return Err(DecodeError::Malformed);
    }
    let tag = b[pos];
    assert(tag == s[0]);
    if tag == TAG_IDENT || tag == TAG_LITERAL {
        if n - pos < 13 {
            return Err(DecodeError::Malformed);
        }
        assert(b@.subrange(pos + 1, pos + 5) =~= s.subrange(1, 5));
        assert(b@.subrange(pos + 5, pos + 9) =~= s.subrange(5, 9));
        assert(b@.subrange(pos + 9, pos + 13) =~= s.subrange(9, 13));
        let lo = rd32_at(b, pos + 1);
        let hi = rd32_at(b, pos + 5);
        let ln = rd32_at(b, pos + 9);
        let ln_us = ln as usize;
        if n - pos - 13 < ln_us {
            return Err(DecodeError::Malformed);
        }
        let start = pos + 13;
        let mut txt: Vec<u8> = Vec::new();
        let mut k: usize = 0;
        while k < ln_us
            invariant
                k <= ln_us,
                start + ln_us <= b@.len(),
                b@.len() <= usize::MAX,
                txt@ == b@.subrange(start as int, start + k),
            decreases ln_us - k,
        {
            txt.push(b[start + k]);
            assert(txt@ =~= b@.subrange(start as int, start + k + 1));
            k += 1;
        }
        let p2 = start + ln_us;
        proof {
            assert(txt@ =~= s.subrange(13, 13 + ln_us));
            assert(b@.skip(p2 as int) =~= s.skip(13 + ln_us));
        }
        let sp = Span { lo, hi };
        if tag == TAG_IDENT {
            Ok((Token::Ident(txt, sp), p2))
        } else {
            Ok((Token::Literal(txt, sp), p2))
        }
    } else if tag == TAG_PUNCT {
        if n - pos < 11 {
            return Err(DecodeError::Malformed);
        }
        assert(b@.subrange(pos + 1, pos + 5) =~= s.subrange(1, 5));
        assert(b@.subrange(pos + 5, pos + 9) =~= s.subrange(5, 9));
        let lo = rd32_at(b, pos + 1);
        let hi = rd32_at(b, pos + 5);
        let c = b[pos + 9];
        let jb = b[pos + 10];
        assert(c == s[9] && jb == s[10]);
        if jb == 0 || jb == 1 {
            proof {
                assert(b@.skip(pos + 11) =~= s.skip(11));
            }
            Ok((Token::Punct(c, jb == 1, Span { lo, hi }), pos + 11))
        } else {
            Err(DecodeError::Malformed)
        }
    } else if tag == TAG_OPEN {
        if n - pos < 10 {
            return Err(DecodeError::Malformed);
        }
        assert(b@.subrange(pos + 1, pos + 5) =~= s.subrange(1, 5));
        assert(b@.subrange(pos + 5, pos + 9) =~= s.subrange(5, 9));
        let lo = rd32_at(b, pos + 1);
        let hi = rd32_at(b, pos + 5);
        let db = b[pos + 9];
        assert(db == s[9]);
        let d = if db == 1 {
            Delim::Paren
        } else if db == 2 {
            Delim::Bracket
        } else if db == 3 {
            Delim::Brace
        } else {
            return Err(DecodeError::Malformed);
        };
        proof {
            assert(b@.skip(pos + 10) =~= s.skip(10));
        }
        match d_stream(b, pos + 10) {
            Err(e) => Err(e),
            Ok((body, p1)) => {
                proof {
                    assert(b@.skip(p1 as int) =~= s.skip(10).skip((p1 - pos - 10) as int));
                }
                if p1 < n && b[p1] == TAG_CLOSE {
                    proof {
                        let rest1 = b@.skip(p1 as int);
                        assert(rest1[0] == b@[p1 as int]);
                        assert(rest1.drop_first() =~= b@.skip(p1 + 1));
                    }
                    Ok((Token::Group(d, body, Span { lo, hi }), p1 + 1))
                } else {
                    proof {
                        let rest1 = b@.skip(p1 as int);
                        if p1 < n {
                            assert(rest1[0] == b@[p1 as int]);
                        }
                    }
                    Err(DecodeError::Malformed)
                }
            },
        }
    } else {
        Err(DecodeError::Malformed)
    }
}

fn d_stream(b: &Vec<u8>, pos: usize) -> (r: Result<(Vec<Token>, usize), DecodeError>)
    requires
        pos <= b@.len(),
    ensures
        match r {
            Ok((ts, p2)) => pos <= p2 <= b@.len() && dec_stream(b@.skip(pos as int)) == Some(
                (stream_model(ts@), b@.skip(p2 as int)),
            ),
            Err(_) => dec_stream(b@.skip(pos as int)) is None,
        },
    decreases b@.len() - pos, 1int,
{
    let ghost s = b@.skip(pos as int);
    let n = b.len();
    if pos == n || b[pos] == TAG_CLOSE {
        let ts: Vec<Token> = Vec::new();
        proof {
            if pos < n {
                assert(s[0] == b@[pos as int]);
            }
            assert(stream_model(ts@) =~= Seq::<TokenV>::empty());
        }
        return Ok((ts, pos));
    }
    assert(s[0] == b@[pos as int]);
    match d_token(b, pos) {
        Err(e) => Err(e),
        Ok((t, p1)) => {
            proof {
                assert(b@.skip(p1 as int).len() < s.len());
            }
            match d_stream(b, p1) {
                Err(e) => {
                    proof {
                        assert(dec_stream(s) is None);
                    }
                    Err(e)
                },
                Ok((ts2, p2)) => {
                    let ghost tail = ts2@;
                    let mut ts = ts2;
                    ts.insert(0, t);
                    proof {
                        assert(ts@ =~= seq![t] + tail);
                        assert(stream_model(ts@) =~= seq![t.model()] + stream_model(tail));
                    }
                    Ok((ts, p2))
                },
            }
        },
    }
}

/// Decodes a byte buffer as a whole token stream.  Succeeds exactly when
/// the buffer is the encoding of a supported stream with nothing left
/// over, and then returns that stream.
pub fn decode_stream(b: &Vec<u8>) -> (r: Result<Vec<Token>, DecodeError>)
    ensures
        match r {
            Ok(ts) => dec_stream(b@) == Some((stream_model(ts@), Seq::<u8>::empty())),
            Err(_) => dec_stream(b@) is None || (dec_stream(b@) matches Some((s2, rest))
                && rest.len() > 0),
        },
{
    proof {
        assert(b@.skip(0) =~= b@);
    }
    match d_stream(b, 0) {
        Err(_) => Err(DecodeError::Malformed),
        Ok((ts, p)) => {
            if p == b.len() {
                proof {
                    assert(b@.skip(p as int) =~= Seq::<u8>::empty());
                }
                Ok(ts)
            } else {
                Err(DecodeError::Malformed)
            }
        },
    }
}

} // verus!
