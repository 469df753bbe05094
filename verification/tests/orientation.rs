use cube_reorient::moves::Axis;
use cube_reorient::moves::Move;
use cube_reorient::moves::TurnMultiple;
use cube_reorient::orientation::Orientation;
use cube_reorient::reorient::Reorient;

fn catalog() -> Vec<Reorient> {
    (0..24).map(Reorient::from_ordinal).collect()
}

fn sample_moves() -> Vec<Move> {
    let mut out = Vec::new();
    let mults =
        [TurnMultiple::Zero, TurnMultiple::Cw, TurnMultiple::Half, TurnMultiple::Ccw];
    for axis in [Axis::X, Axis::Y, Axis::Z] {
        for p in mults {
            for n in mults {
                out.push(Move::new(axis, p, n));
            }
        }
    }
    out
}

#[test]
fn identity_orientation_fixes_every_move() {
    let id = Orientation::default();
    for m in sample_moves() {
        assert_eq!(id.transform_move(m), m);
    }
}

#[test]
fn transform_round_trips_through_inverse() {
    // Transforming through a reorientation and then through its
    // orientation's inverse restores every move.
    for r in catalog() {
        let o = r.orientation();
        let inv = o.inverse();
        for m in sample_moves() {
            assert_eq!(inv.transform_move(o.transform_move(m)), m);
        }
    }
}

#[test]
fn catalog_orientations_are_distinct() {
    let cat = catalog();
    for a in 0..24 {
        for b in 0..24 {
            if a != b {
                assert_ne!(cat[a].orientation(), cat[b].orientation());
            }
        }
    }
}

#[test]
fn catalog_is_closed_under_composition() {
    // Composing any two of the 24 catalog orientations lands on exactly one
    // of the 24 catalog orientations.
    let cat = catalog();
    for a in &cat {
        for b in &cat {
            let c = a.orientation().transform_orientation(b.orientation());
            let hits =
                cat.iter().filter(|r| r.orientation() == c).count();
            assert_eq!(hits, 1);
        }
    }
}

#[test]
fn composition_is_not_commutative() {
    let r = Reorient::R.orientation();
    let u = Reorient::U.orientation();
    assert_ne!(r.transform_orientation(u), u.transform_orientation(r));
}

#[test]
fn composing_with_identity_is_neutral() {
    let id = Orientation::default();
    for r in catalog() {
        let o = r.orientation();
        assert_eq!(o.transform_orientation(id), o);
        assert_eq!(id.transform_orientation(o), o);
    }
}

#[test]
fn sign_flip_swaps_turn_fields() {
    // R maps the Y axis to Z with a sign flip, so a U move's two faces
    // trade places on the new axis.
    let o = Reorient::R.orientation();
    let u = Move::new(Axis::Y, TurnMultiple::Cw, TurnMultiple::Zero);
    let t = o.transform_move(u);
    assert_eq!(t, Move::new(Axis::Z, TurnMultiple::Zero, TurnMultiple::Cw));
}
