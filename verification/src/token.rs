//! The host-side token data model: an ordered, position-annotated sequence
//! of lexical tokens, where a grouping token carries a nested sub-stream.

use vstd::prelude::*;

verus! {

/// Position tag attached to every token: a half-open byte range in the
/// original source, kept so that a diagnostic produced by a guest module can
/// be attributed to the source location the token came from.
#[derive(Clone, Copy, PartialEq, Eq, Structural, Debug)]
pub struct Span {
    pub lo: u32,
    pub hi: u32,
}

/// The delimiter of a grouping token.
#[derive(Clone, Copy, PartialEq, Eq, Structural, Debug)]
pub enum Delim {
    Paren,
    Bracket,
    Brace,
}

/// One lexical token.  Identifier and literal text is carried as bytes, the
/// form in which it crosses the host/guest boundary.  A grouping token holds
/// a nested sub-stream, so the type is a tree.
pub enum Token {
    Ident(Vec<u8>, Span),
    Literal(Vec<u8>, Span),
    Punct(u8, bool, Span),
    Group(Delim, Vec<Token>, Span),
}

/// Mathematical model of a token: the same tree over `Seq` instead of `Vec`.
/// All contracts of the marshaling codec speak of this model.
pub enum TokenV {
    Ident(Seq<u8>, Span),
    Literal(Seq<u8>, Span),
    Punct(u8, bool, Span),
    Group(Delim, Seq<TokenV>, Span),
}

impl Token {
    /// The mathematical model of this token.
    pub open spec fn model(&self) -> TokenV
        decreases self,
    {
        match self {
            Token::Ident(t, s) => TokenV::Ident(t@, *s),
            Token::Literal(t, s) => TokenV::Literal(t@, *s),
            Token::Punct(c, j, s) => TokenV::Punct(*c, *j, *s),
            Token::Group(d, ts, s) => TokenV::Group(*d, stream_model(ts@), *s),
        }
    }
}

/// The mathematical model of a token stream.
pub open spec fn stream_model(ts: Seq<Token>) -> Seq<TokenV>
    decreases ts,
{
    Seq::new(
        ts.len(),
        |i: int|
            if 0 <= i < ts.len() {
                ts[i].model()
            } else {
                arbitrary()
            },
    )
}

} // verus!
