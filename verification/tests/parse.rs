use cube_reorient::moves::Axis;
use cube_reorient::moves::Move;
use cube_reorient::moves::TurnMultiple;
use cube_reorient::notation::display_move;
use cube_reorient::notation::parse_moves;

fn parse(s: &str) -> Result<Vec<Move>, String> {
    parse_moves(&s.to_string())
}

#[test]
fn parses_each_face_letter() {
    let v = parse("R U F L D B").unwrap();
    assert_eq!(v[0], Move::new(Axis::X, TurnMultiple::Cw, TurnMultiple::Zero));
    assert_eq!(v[1], Move::new(Axis::Y, TurnMultiple::Cw, TurnMultiple::Zero));
    assert_eq!(v[2], Move::new(Axis::Z, TurnMultiple::Cw, TurnMultiple::Zero));
    assert_eq!(v[3], Move::new(Axis::X, TurnMultiple::Zero, TurnMultiple::Cw));
    assert_eq!(v[4], Move::new(Axis::Y, TurnMultiple::Zero, TurnMultiple::Cw));
    assert_eq!(v[5], Move::new(Axis::Z, TurnMultiple::Zero, TurnMultiple::Cw));
}

#[test]
fn parses_suffixes() {
    let v = parse("R2 U' D2 B'").unwrap();
    assert_eq!(v[0], Move::new(Axis::X, TurnMultiple::Half, TurnMultiple::Zero));
    assert_eq!(v[1], Move::new(Axis::Y, TurnMultiple::Ccw, TurnMultiple::Zero));
    assert_eq!(v[2], Move::new(Axis::Y, TurnMultiple::Zero, TurnMultiple::Half));
    assert_eq!(v[3], Move::new(Axis::Z, TurnMultiple::Zero, TurnMultiple::Ccw));
}

#[test]
fn parses_whitespace_variants() {
    let v = parse("  R\tU2\n F'  ").unwrap();
    assert_eq!(v.len(), 3);
    assert!(parse("").unwrap().is_empty());
    assert!(parse("   \t\n").unwrap().is_empty());
}

#[test]
fn unknown_token_reports_its_text() {
    assert_eq!(parse("R X U"), Err("unknown move \"X\"".to_string()));
    assert_eq!(parse("Rw"), Err("unknown move \"Rw\"".to_string()));
    assert_eq!(parse("r"), Err("unknown move \"r\"".to_string()));
    assert_eq!(parse("2"), Err("unknown move \"2\"".to_string()));
    assert_eq!(parse("'"), Err("unknown move \"'\"".to_string()));
    // The first bad token wins.
    assert_eq!(parse("Q Z"), Err("unknown move \"Q\"".to_string()));
}

#[test]
fn suffix_stripping_order() {
    // A trailing apostrophe is stripped first, then a trailing 2, so "R2'"
    // reads as a half turn.
    let v = parse("R2'").unwrap();
    assert_eq!(v[0], Move::new(Axis::X, TurnMultiple::Half, TurnMultiple::Zero));
    // The other order is not valid notation.
    assert_eq!(parse("R'2"), Err("unknown move \"R'2\"".to_string()));
}

#[test]
fn display_round_trips_tokens() {
    for tok in [
        "R", "R2", "R'", "L", "L2", "L'", "U", "U2", "U'", "D", "D2", "D'", "F", "F2", "F'",
        "B", "B2", "B'",
    ] {
        let v = parse(tok).unwrap();
        assert_eq!(display_move(v[0]), tok);
    }
}

#[test]
fn display_prints_both_faces() {
    // A move turning both faces prints the positive face's part first.
    let m = Move::new(Axis::X, TurnMultiple::Cw, TurnMultiple::Ccw);
    assert_eq!(display_move(m), "RL'");
    let e = Move::new(Axis::Y, TurnMultiple::Zero, TurnMultiple::Zero);
    assert_eq!(display_move(e), "");
}
