use macro_bridge::codec::{decode_stream, encode_stream, DecodeError};
use macro_bridge::token::{Delim, Span, Token};

fn sp(lo: u32, hi: u32) -> Span {
    Span { lo, hi }
}

fn ident(text: &str, lo: u32, hi: u32) -> Token {
    Token::Ident(text.as_bytes().to_vec(), sp(lo, hi))
}

fn literal(text: &str, lo: u32, hi: u32) -> Token {
    Token::Literal(text.as_bytes().to_vec(), sp(lo, hi))
}

fn punct(c: u8, joint: bool, lo: u32, hi: u32) -> Token {
    Token::Punct(c, joint, sp(lo, hi))
}

fn group(d: Delim, body: Vec<Token>, lo: u32, hi: u32) -> Token {
    Token::Group(d, body, sp(lo, hi))
}

fn token_eq(a: &Token, b: &Token) -> bool {
    match (a, b) {
        (Token::Ident(t1, s1), Token::Ident(t2, s2)) => t1 == t2 && s1 == s2,
        (Token::Literal(t1, s1), Token::Literal(t2, s2)) => t1 == t2 && s1 == s2,
        (Token::Punct(c1, j1, s1), Token::Punct(c2, j2, s2)) => {
            c1 == c2 && j1 == j2 && s1 == s2
        }
        (Token::Group(d1, b1, s1), Token::Group(d2, b2, s2)) => {
            d1 == d2 && s1 == s2 && stream_eq(b1, b2)
        }
        _ => false,
    }
}

fn stream_eq(a: &[Token], b: &[Token]) -> bool {
    a.len() == b.len() && a.iter().zip(b.iter()).all(|(x, y)| token_eq(x, y))
}

fn round_trip(ts: &Vec<Token>) -> Vec<Token> {
    let bytes = encode_stream(ts).expect("stream should encode");
    decode_stream(&bytes).expect("encoded stream should decode")
}

#[test]
fn empty_stream_round_trips() {
    let ts: Vec<Token> = Vec::new();
    let back = round_trip(&ts);
    assert!(back.is_empty());
}

#[test]
fn flat_tokens_round_trip() {
    let ts = vec![
        ident("fn", 0, 2),
        ident("answer", 3, 9),
        punct(b'-', true, 10, 11),
        punct(b'>', false, 11, 12),
        literal("42", 13, 15),
    ];
    let back = round_trip(&ts);
    assert!(stream_eq(&ts, &back));
}

#[test]
fn nested_groups_round_trip_at_depth_three() {
    // (( [ {x} y ] ) z) with distinct position tags everywhere.
    let deepest = group(Delim::Brace, vec![ident("x", 5, 6)], 4, 7);
    let mid = group(Delim::Bracket, vec![deepest, ident("y", 8, 9)], 3, 10);
    let inner = group(Delim::Paren, vec![mid], 2, 11);
    let ts = vec![group(Delim::Paren, vec![inner, ident("z", 12, 13)], 1, 14)];
    let back = round_trip(&ts);
    assert!(stream_eq(&ts, &back));
}

#[test]
fn position_tags_survive_the_round_trip() {
    let ts = vec![ident("spanned", 0xdead_beef, 0xfeed_f00d)];
    let back = round_trip(&ts);
    match &back[0] {
        Token::Ident(text, s) => {
            assert_eq!(text, b"spanned");
            assert_eq!(s.lo, 0xdead_beef);
            assert_eq!(s.hi, 0xfeed_f00d);
        }
        _ => panic!("wrong token kind after round trip"),
    }
}

#[test]
fn empty_group_round_trips() {
    let ts = vec![group(Delim::Bracket, Vec::new(), 0, 2)];
    let back = round_trip(&ts);
    assert!(stream_eq(&ts, &back));
}

#[test]
fn encoding_is_deterministic() {
    let ts = vec![ident("stable", 1, 7), punct(b';', false, 7, 8)];
    let once = encode_stream(&ts).unwrap();
    let twice = encode_stream(&ts).unwrap();
    assert_eq!(once, twice);
}

#[test]
fn unknown_tag_is_rejected() {
    assert!(matches!(decode_stream(&vec![9u8]), Err(DecodeError::Malformed)));
}

#[test]
fn truncated_ident_is_rejected() {
    // A valid stream cut short in the middle of the length prefix.
    let full = encode_stream(&vec![ident("abcdef", 0, 6)]).unwrap();
    let cut = full[..10].to_vec();
    assert!(matches!(decode_stream(&cut), Err(DecodeError::Malformed)));
}

#[test]
fn close_without_open_is_rejected() {
    // Tag 5 is the closing tag; a stream may not begin with it... the
    // decoder stops there and the leftover byte makes the buffer invalid.
    assert!(matches!(decode_stream(&vec![5u8]), Err(DecodeError::Malformed)));
}

#[test]
fn open_without_close_is_rejected() {
    let mut bytes = encode_stream(&vec![group(Delim::Paren, Vec::new(), 0, 1)]).unwrap();
    bytes.pop();
    assert!(matches!(decode_stream(&bytes), Err(DecodeError::Malformed)));
}

#[test]
fn bad_joint_flag_is_rejected() {
    let mut bytes = encode_stream(&vec![punct(b'+', false, 0, 1)]).unwrap();
    let last = bytes.len() - 1;
    bytes[last] = 7;
    assert!(matches!(decode_stream(&bytes), Err(DecodeError::Malformed)));
}

#[test]
fn bad_delimiter_is_rejected() {
    let mut bytes = encode_stream(&vec![group(Delim::Paren, Vec::new(), 0, 1)]).unwrap();
    bytes[9] = 0;
    assert!(matches!(decode_stream(&bytes), Err(DecodeError::Malformed)));
}

#[test]
fn trailing_bytes_are_rejected() {
    let mut bytes = encode_stream(&vec![ident("x", 0, 1)]).unwrap();
    bytes.push(0);
    assert!(matches!(decode_stream(&bytes), Err(DecodeError::Malformed)));
}

#[test]
fn well_formed_streams_pass_the_grammar_check() {
    let ts = vec![
        ident("ok", 0, 2),
        group(Delim::Brace, vec![literal("1", 3, 4)], 2, 5),
    ];
    assert!(macro_bridge::codec::stream_is_wf(&ts));
    assert!(encode_stream(&ts).is_ok());
}

