use cube_reorient::moves::Axis;
use cube_reorient::moves::Move;
use cube_reorient::notation::parse_moves;
use cube_reorient::state::CubeState;

fn fold(tokens: &str) -> CubeState {
    let moves = parse_moves(&tokens.to_string()).unwrap();
    let mut st = CubeState::empty();
    for m in moves {
        st = st.apply_move(m);
    }
    st
}

fn axis_code(a: Axis) -> u8 {
    match a {
        Axis::X => 0,
        Axis::Y => 1,
        Axis::Z => 2,
    }
}

fn key(st: &CubeState) -> Vec<(u8, u8, u8)> {
    st.entries
        .iter()
        .map(|m| (axis_code(m.axis), m.positive.as_u8(), m.negative.as_u8()))
        .collect()
}

#[test]
fn free_reduction_cancels_and_merges() {
    assert!(fold("").is_solved());
    assert!(fold("R R'").is_solved());
    assert!(fold("R U2 U2 R'").is_solved());
    assert!(fold("R2 R2").is_solved());
    assert!(fold("R U U' R2 R").is_solved());
    assert!(fold("R").is_one_from_solved());
    assert!(fold("R U U'").is_one_from_solved());
    assert!(!fold("R U").is_one_from_solved());
}

#[test]
fn merged_entries_share_no_adjacent_axis() {
    let st = fold("R L U D F R R'");
    let entries = &st.entries;
    for w in entries.windows(2) {
        assert_ne!(axis_code(w[0].axis), axis_code(w[1].axis));
    }
    for e in entries {
        assert!(!e.is_ident());
    }
}

#[test]
fn apply_then_inverse_restores_state() {
    // Cancellation correctness on several prior states and moves.
    let priors = ["", "R", "R U", "R U F2", "R2 U' F"];
    let moves = parse_moves(&"R R' R2 U U2 F' L D B2".to_string()).unwrap();
    for p in priors {
        for &m in &moves {
            let st = fold(p);
            let before = key(&st);
            let after = st.apply_move(m).apply_move(m.invert());
            assert_eq!(key(&after), before, "prior {:?}", p);
        }
    }
}

#[test]
fn lower_bound_counts_double_entries_twice() {
    assert_eq!(fold("").lower_bound(), 0);
    assert_eq!(fold("R").lower_bound(), 1);
    assert_eq!(fold("R U").lower_bound(), 2);
    // R followed by L merges into one entry turning both faces of X.
    assert_eq!(fold("R L").lower_bound(), 2);
    assert_eq!(fold("R L U").lower_bound(), 3);
    assert_eq!(fold("R U2 F'").lower_bound(), 3);
}

#[test]
fn lower_bound_is_admissible_on_small_states() {
    // Exhaustive breadth-first search over single face turns: no state can
    // be solved in fewer physical turns than its lower bound claims.
    let single_moves = parse_moves(&"R R' R2 L L' L2 U U' U2 D D' D2 F F' F2 B B' B2".to_string())
        .unwrap();
    for tokens in ["R", "R U", "R L", "R U F", "R2 U2", "R L U"] {
        let start = fold(tokens);
        let bound = start.lower_bound() as usize;
        // Breadth-first search for the true minimum number of single turns.
        let mut frontier = vec![start.duplicate()];
        let mut depth = 0usize;
        let mut solved_at = None;
        let mut seen = std::collections::HashSet::new();
        seen.insert(key(&start));
        while solved_at.is_none() && depth <= bound + 1 {
            if frontier.iter().any(|s| s.is_solved()) {
                solved_at = Some(depth);
                break;
            }
            let mut next = Vec::new();
            for st in &frontier {
                for &m in &single_moves {
                    let child = st.duplicate().apply_move(m);
                    if seen.insert(key(&child)) {
                        next.push(child);
                    }
                }
            }
            frontier = next;
            depth += 1;
        }
        let true_min = solved_at.expect("solvable within bound + 1");
        assert!(bound <= true_min, "bound {} exceeds true minimum {} for {:?}", bound, true_min, tokens);
    }
}

#[test]
fn last_mut_borrows_the_last_entry() {
    let moves = parse_moves(&"R U".to_string()).unwrap();
    let mut st = CubeState::empty().push(moves[0]).push(moves[1]);
    if let Some(m) = st.last_mut() {
        *m = moves[0];
    }
    assert_eq!(st.entries, vec![moves[0], moves[0]]);
    let mut empty = CubeState::empty();
    assert!(empty.last_mut().is_none());
}

#[test]
fn push_pop_and_last() {
    let moves = parse_moves(&"R U".to_string()).unwrap();
    let st = CubeState::empty().push(moves[0]).push(moves[1]);
    assert_eq!(st.last(), Some(moves[1]));
    let st = st.pop();
    assert_eq!(st.last(), Some(moves[0]));
    let st = st.pop();
    assert_eq!(st.last(), None);
    let st = st.pop();
    assert!(st.is_solved());
}
