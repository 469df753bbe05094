use cube_reorient::moves::Axis;
use cube_reorient::moves::Move;
use cube_reorient::moves::TurnMultiple;

fn multiples() -> Vec<TurnMultiple> {
    vec![TurnMultiple::Zero, TurnMultiple::Cw, TurnMultiple::Half, TurnMultiple::Ccw]
}

fn axes() -> Vec<Axis> {
    vec![Axis::X, Axis::Y, Axis::Z]
}

fn moves_on(axis: Axis) -> Vec<Move> {
    let mut out = Vec::new();
    for p in multiples() {
        for n in multiples() {
            out.push(Move::new(axis, p, n));
        }
    }
    out
}

#[test]
fn turn_multiple_addition_table() {
    // The 4x4 table of addition mod 4, checked exhaustively.
    for a in multiples() {
        for b in multiples() {
            let sum = a.add_mod4(b);
            assert_eq!(sum.as_u8(), (a.as_u8() + b.as_u8()) % 4);
        }
    }
}

#[test]
fn compose_is_associative_on_shared_axis() {
    for axis in axes() {
        for a in moves_on(axis) {
            for b in moves_on(axis) {
                for c in moves_on(axis) {
                    assert_eq!(a.compose(b).compose(c), a.compose(b.compose(c)));
                }
            }
        }
    }
}

#[test]
fn compose_with_identity_is_neutral() {
    for axis in axes() {
        let ident = Move::new(axis, TurnMultiple::Zero, TurnMultiple::Zero);
        assert!(ident.is_ident());
        for m in moves_on(axis) {
            assert_eq!(m.compose(ident), m);
            assert_eq!(ident.compose(m), m);
        }
    }
}

#[test]
fn compose_with_inverse_is_identity() {
    for axis in axes() {
        for m in moves_on(axis) {
            assert!(m.compose(m.invert()).is_ident());
            assert!(m.invert().compose(m).is_ident());
        }
    }
}

#[test]
fn identity_and_double_predicates() {
    let r = Move::new(Axis::X, TurnMultiple::Cw, TurnMultiple::Zero);
    assert!(!r.is_ident());
    assert!(!r.is_double_move());
    let rl = Move::new(Axis::X, TurnMultiple::Cw, TurnMultiple::Ccw);
    assert!(!rl.is_ident());
    assert!(rl.is_double_move());
    let e = Move::new(Axis::Y, TurnMultiple::Zero, TurnMultiple::Zero);
    assert!(e.is_ident());
    assert!(!e.is_double_move());
}
