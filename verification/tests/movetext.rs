use pgn::{Move, PgnErrorKind};

// A brace comment attaches to the move it immediately follows; the next
// move carries none.
#[test]
fn move_comment_association() {
    let (rest, moves) = Move::parse_movetext(b"1. e4 {good move} 1... e5 *").unwrap();
    assert_eq!(rest, b"".as_slice());
    assert_eq!(moves.len(), 2);
    assert_eq!(moves[0].san, b"e4".as_slice());
    assert_eq!(moves[0].comment, Some(b"good move".as_slice()));
    assert_eq!(moves[1].san, b"e5".as_slice());
    assert_eq!(moves[1].comment, None);
}

// A semicolon comment runs to the end of its line.
#[test]
fn semicolon_comment() {
    let (rest, moves) = Move::parse_movetext(b"1. e4 ;king pawn\ne5 1-0").unwrap();
    assert_eq!(rest, b"".as_slice());
    assert_eq!(moves.len(), 2);
    assert_eq!(moves[0].comment, Some(b"king pawn".as_slice()));
    assert_eq!(moves[1].comment, None);
}

// A move-number label directly after a comment belongs to the next move and
// is discarded.
#[test]
fn comment_then_move_number() {
    let (rest, moves) = Move::parse_movetext(b"1. e4 {x} 2. d4 1-0").unwrap();
    assert_eq!(rest, b"".as_slice());
    assert_eq!(moves.len(), 2);
    assert_eq!(moves[0].san, b"e4".as_slice());
    assert_eq!(moves[0].comment, Some(b"x".as_slice()));
    assert_eq!(moves[1].san, b"d4".as_slice());
    assert_eq!(moves[1].comment, None);
}

// Movetext that runs out of input without a result token or a following
// header fails with a move-grammar error instead of returning a truncated
// list.
#[test]
fn exhaustion_without_terminator() {
    let err = Move::parse_movetext(b"1. e4 e5").unwrap_err();
    assert_eq!(err.kind, PgnErrorKind::MoveGrammar);

    let err = Move::parse_movetext(b"1. e4 e5 2. Nf3").unwrap_err();
    assert_eq!(err.kind, PgnErrorKind::MoveGrammar);
}

// An immediate result token yields an empty move list; trailing whitespace
// after it is consumed.
#[test]
fn empty_movetext() {
    let (rest, moves) = Move::parse_movetext(b"1/2-1/2\n\nnext").unwrap();
    assert_eq!(moves.len(), 0);
    assert_eq!(rest, b"next".as_slice());

    let (rest, moves) = Move::parse_movetext(b"  [Event ...").unwrap();
    assert_eq!(moves.len(), 0);
    assert_eq!(rest, b"  [Event ...".as_slice());
}

// Tabs and carriage returns count as whitespace between tokens.
#[test]
fn tab_and_newline_whitespace() {
    let (rest, moves) = Move::parse_movetext(b"1.\te4\ne5 *").unwrap();
    assert_eq!(rest, b"".as_slice());
    assert_eq!(moves.len(), 2);
    assert_eq!(moves[0].san, b"e4".as_slice());
    assert_eq!(moves[1].san, b"e5".as_slice());
}

// The result token is recognized only at a move boundary position, not
// inside a notation token.
#[test]
fn result_token_ends_the_movetext() {
    let (rest, moves) = Move::parse_movetext(b"1. e4 e5 1-0 junk").unwrap();
    assert_eq!(moves.len(), 2);
    assert_eq!(rest, b"junk".as_slice());
}
