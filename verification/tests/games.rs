use pgn::{PgnErrorKind, PgnGame, PgnGameResult};

const GAME: &str = "[Event \"F/S Return Match\"]\n[Site \"Belgrade, Serbia JUG\"]\n[Date \"1992.11.04\"]\n[Round \"29\"]\n[White \"Fischer, Robert J.\"]\n[Black \"Spassky, Boris V.\"]\n[Result \"1/2-1/2\"]\n1. e4 e5 2. Nf3 Nc6 3. Bb5 a6 1/2-1/2\n";

const BARE_HEAD: &str = "[Event \"e\"]\n[Site \"s\"]\n[Date \"d\"]\n[Round \"r\"]\n[White \"w\"]\n[Black \"b\"]\n[Result \"*\"]\n";

#[test]
fn single_game() {
    let (rest, game) = PgnGame::parse_game(GAME.as_bytes()).unwrap();
    assert_eq!(rest, b"".as_slice());
    assert_eq!(game.header.event, b"F/S Return Match".as_slice());
    assert_eq!(game.header.white, b"Fischer, Robert J.".as_slice());
    assert_eq!(game.header.black, b"Spassky, Boris V.".as_slice());
    assert!(matches!(game.header.result, PgnGameResult::Draw));
    assert_eq!(game.moves.len(), 6);
    assert_eq!(game.moves[0].san, b"e4".as_slice());
    assert_eq!(game.moves[5].san, b"a6".as_slice());
}

#[test]
fn multiple_games() {
    let doc = GAME.repeat(16);
    let (rest, games) = PgnGame::parse_games(doc.as_bytes()).unwrap();
    assert_eq!(rest, b"".as_slice());
    assert_eq!(games.len(), 16);
    for game in &games {
        assert_eq!(game.moves.len(), 6);
    }
}

// A well-formed game consumes exactly its own text: the remainder is
// whatever followed it in the source.
#[test]
fn remainder_is_following_text() {
    let doc = format!("{}not pgn at all", GAME);
    let (rest, game) = PgnGame::parse_game(doc.as_bytes()).unwrap();
    assert_eq!(rest, b"not pgn at all".as_slice());
    assert_eq!(game.moves.len(), 6);
}

// Two concatenated games stay separate: the first game's moves take nothing
// from the second game's header.
#[test]
fn two_game_boundary() {
    let second = GAME.replace("1/2-1/2", "1-0");
    let doc = format!("{}{}", GAME, second);
    let (rest, games) = PgnGame::parse_games(doc.as_bytes()).unwrap();
    assert_eq!(rest, b"".as_slice());
    assert_eq!(games.len(), 2);
    assert!(matches!(games[0].header.result, PgnGameResult::Draw));
    assert!(matches!(games[1].header.result, PgnGameResult::WhiteWin));
    assert_eq!(games[0].moves.len(), 6);
    for mv in &games[0].moves {
        assert!(!mv.san.starts_with(b"["));
        assert_ne!(mv.san, b"[Event".as_slice());
    }
}

// A movetext without a result token ends at the lookahead onto the next
// game's header, leaving the `[` for the next parse.
#[test]
fn lookahead_boundary_without_result_token() {
    let doc = format!("{}1. e4 e5 {}", BARE_HEAD, GAME);
    let (rest, games) = PgnGame::parse_games(doc.as_bytes()).unwrap();
    assert_eq!(rest, b"".as_slice());
    assert_eq!(games.len(), 2);
    assert_eq!(games[0].moves.len(), 2);
    assert_eq!(games[0].moves[0].san, b"e4".as_slice());
    assert_eq!(games[0].moves[1].san, b"e5".as_slice());
    assert_eq!(games[1].moves.len(), 6);
}

// A document with no complete game at its start fails with a game-count
// error.
#[test]
fn zero_games_is_an_error() {
    let err = PgnGame::parse_games(b"no games here").unwrap_err();
    assert_eq!(err.kind, PgnErrorKind::GameCount);
    assert_eq!(err.pos, 0);

    let err = PgnGame::parse_games(b"").unwrap_err();
    assert_eq!(err.kind, PgnErrorKind::GameCount);
}
