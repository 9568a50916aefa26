use pgn::{PgnErrorKind, PgnGameHeader, PgnGameResult};

const MANDATORY: &str = "[Event \"e\"]\n[Site \"s\"]\n[Date \"d\"]\n[Round \"r\"]\n[White \"w\"]\n[Black \"b\"]\n[Result \"*\"]\n";

// A header with every recognized optional tag fills each optional field
// with exactly the quoted value from its line, and overflows nothing.
#[test]
fn all_recognized_optional_fields_round_trip() {
    let doc = format!(
        "{}[Annotator \"ann\"]\n[PlyCount \"40\"]\n[TimeControl \"40/7200\"]\n[Time \"12:00:00\"]\n[Termination \"normal\"]\n[Mode \"OTB\"]\n[FEN \"8/8/8/8\"]\n",
        MANDATORY
    );
    let (rest, h) = PgnGameHeader::parse_header(doc.as_bytes()).unwrap();
    assert_eq!(rest, b"".as_slice());
    assert_eq!(h.annotator, Some(b"ann".as_slice()));
    assert_eq!(h.ply_count, Some(b"40".as_slice()));
    assert_eq!(h.time_control, Some(b"40/7200".as_slice()));
    assert_eq!(h.time, Some(b"12:00:00".as_slice()));
    assert_eq!(h.termination, Some(b"normal".as_slice()));
    assert_eq!(h.mode, Some(b"OTB".as_slice()));
    assert_eq!(h.fen, Some(b"8/8/8/8".as_slice()));
    assert!(h.others.is_empty());
}

// Unrecognized tags land in the overflow list in input order.
#[test]
fn overflow_keeps_input_order() {
    let doc = format!("{}[TagA \"valueA\"]\n[TagB \"valueB\"]\n", MANDATORY);
    let (_, h) = PgnGameHeader::parse_header(doc.as_bytes()).unwrap();
    assert_eq!(h.others.len(), 2);
    assert_eq!(h.others[0], (b"TagA".as_slice(), b"valueA".as_slice()));
    assert_eq!(h.others[1], (b"TagB".as_slice(), b"valueB".as_slice()));
    assert!(h.annotator.is_none());
}

// A repeated recognized tag keeps its last value.
#[test]
fn repeated_optional_tag_last_wins() {
    let doc = format!("{}[Annotator \"first\"]\n[Annotator \"second\"]\n", MANDATORY);
    let (_, h) = PgnGameHeader::parse_header(doc.as_bytes()).unwrap();
    assert_eq!(h.annotator, Some(b"second".as_slice()));
    assert!(h.others.is_empty());
}

// Each result literal maps to its outcome; any other value is a
// result-literal error.
#[test]
fn result_literal_mapping() {
    let wins = MANDATORY.replace("\"*\"", "\"1-0\"");
    let (_, h) = PgnGameHeader::parse_header(wins.as_bytes()).unwrap();
    assert!(matches!(h.result, PgnGameResult::WhiteWin));

    let loses = MANDATORY.replace("\"*\"", "\"0-1\"");
    let (_, h) = PgnGameHeader::parse_header(loses.as_bytes()).unwrap();
    assert!(matches!(h.result, PgnGameResult::BlackWin));

    let draws = MANDATORY.replace("\"*\"", "\"1/2-1/2\"");
    let (_, h) = PgnGameHeader::parse_header(draws.as_bytes()).unwrap();
    assert!(matches!(h.result, PgnGameResult::Draw));

    let (_, h) = PgnGameHeader::parse_header(MANDATORY.as_bytes()).unwrap();
    assert!(matches!(h.result, PgnGameResult::Other));

    let bad = MANDATORY.replace("\"*\"", "\"2-0\"");
    let err = PgnGameHeader::parse_header(bad.as_bytes()).unwrap_err();
    assert_eq!(err.kind, PgnErrorKind::ResultLiteral);

    let trailing = MANDATORY.replace("\"*\"", "\"1-0 extra\"");
    let err = PgnGameHeader::parse_header(trailing.as_bytes()).unwrap_err();
    assert_eq!(err.kind, PgnErrorKind::ResultLiteral);
}

// A header lacking a mandatory tag fails with a mandatory-tag error at the
// position where that tag was expected.
#[test]
fn missing_mandatory_tag() {
    let doc = MANDATORY.replace("[Black \"b\"]\n", "");
    let err = PgnGameHeader::parse_header(doc.as_bytes()).unwrap_err();
    assert_eq!(err.kind, PgnErrorKind::MandatoryTag);
    assert_eq!(err.pos, doc.find("[Result").unwrap());
}

// Mandatory tags out of their fixed order fail like missing ones.
#[test]
fn out_of_order_mandatory_tags() {
    let doc = MANDATORY.replace(
        "[Event \"e\"]\n[Site \"s\"]\n",
        "[Site \"s\"]\n[Event \"e\"]\n",
    );
    let err = PgnGameHeader::parse_header(doc.as_bytes()).unwrap_err();
    assert_eq!(err.kind, PgnErrorKind::MandatoryTag);
    assert_eq!(err.pos, 0);
}

// Malformed tag-pair lines fail the header.
#[test]
fn malformed_tag_lines() {
    let err = PgnGameHeader::parse_header(b"[Event \"e\"][Site \"s\"]\n").unwrap_err();
    assert_eq!(err.kind, PgnErrorKind::MandatoryTag);

    let err = PgnGameHeader::parse_header(b"[Event e]\n").unwrap_err();
    assert_eq!(err.kind, PgnErrorKind::MandatoryTag);

    let err = PgnGameHeader::parse_header(b"[Event \"\"]\n").unwrap_err();
    assert_eq!(err.kind, PgnErrorKind::MandatoryTag);
}
