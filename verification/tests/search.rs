use cube_reorient::moves::Move;
use cube_reorient::notation::cheap_mask;
use cube_reorient::notation::parse_moves;
use cube_reorient::orientation::Orientation;
use cube_reorient::reorient::Reorient;
use cube_reorient::search::dfs;
use cube_reorient::search::filter_min_cost;
use cube_reorient::search::iddfs;
use cube_reorient::solution::Solution;
use cube_reorient::state::CubeState;

fn parse(s: &str) -> Vec<Move> {
    parse_moves(&s.to_string()).unwrap()
}

fn run(s: &str, depth: usize) -> (usize, Vec<(usize, String)>) {
    iddfs(&parse(s), depth, false, 0)
}

fn dfs_count(moves: &Vec<Move>, budget: usize) -> usize {
    let mut out: Vec<Solution> = Vec::new();
    dfs(
        CubeState::empty(),
        Orientation::default(),
        moves,
        0,
        Solution::empty(),
        budget,
        &mut out,
    );
    out.len()
}

#[test]
fn trivial_inputs_need_no_search() {
    let (k, sols) = run("", 5);
    assert_eq!(k, 0);
    assert_eq!(sols, vec![(0, "".to_string())]);
    let (k, sols) = run("R2", 5);
    assert_eq!(k, 0);
    assert_eq!(sols, vec![(0, "R2".to_string())]);
}

#[test]
fn rotation_free_input_solves_with_zero_reorients() {
    // The residue cancels completely, so level zero already accepts.
    let (k, sols) = run("R U2 U2 R'", 5);
    assert_eq!(k, 0);
    assert_eq!(sols, vec![(0, "RU2U2R'".to_string())]);
}

#[test]
fn two_gen_nine_mover_needs_two_reorients() {
    // No adjacent moves share an axis, so the proxy cancels nothing until
    // reorientations fold the sequence onto itself: the minimum is two.
    let (k, sols) = run("R U2 R2 U' R2 U' R2 U2 R", 5);
    assert_eq!(k, 2);
    assert_eq!(sols.len(), 5);
    assert_eq!(sols[0], (2, "RU2R2U' Oz' R2 Oz U'R2U2R".to_string()));
    assert_eq!(sols[1], (6, "RU2R2U' Ozx2 R2 Ozx2 U'R2U2R".to_string()));
    assert_eq!(sols[2], (4, "RU2R2U' Oy'x' R2 Oxy U'R2U2R".to_string()));
    assert_eq!(sols[3], (4, "RU2R2U' Oyx R2 Oxy' U'R2U2R".to_string()));
    assert_eq!(sols[4], (6, "RU2 Ozx2 R2U'R2U'R2 Ozx2 U2R".to_string()));
}

#[test]
fn one_reorient_input_reports_level_one_and_position() {
    // "R U" closes only after one reorientation inserted before the second
    // move; the symbol appears at that position.
    let (k, sols) = run("R U", 5);
    assert_eq!(k, 1);
    assert_eq!(
        sols,
        vec![
            (1, "R Oz U".to_string()),
            (3, "R Ozx2 U".to_string()),
            (2, "R Oxy U".to_string()),
            (2, "R Oxy' U".to_string()),
        ]
    );
}

#[test]
fn deeper_bounds_never_lose_solutions() {
    // Iterative deepening monotonicity on a fixed input: raising the budget
    // never decreases the number of records the depth-first pass finds.
    let alg = parse("R U2 R2 U' R2 U' R2 U2 R");
    let counts: Vec<usize> = (0..4).map(|b| dfs_count(&alg, b)).collect();
    assert_eq!(counts, vec![0, 0, 5, 159]);
    for w in counts.windows(2) {
        assert!(w[0] <= w[1]);
    }
    // The reported level is the least with any solution, whatever the bound.
    assert_eq!(run("R U2 R2 U' R2 U' R2 U2 R", 1).1.len(), 0);
    assert_eq!(run("R U2 R2 U' R2 U' R2 U2 R", 2).0, 2);
    assert_eq!(run("R U2 R2 U' R2 U' R2 U2 R", 5).0, 2);
}

#[test]
fn exhausted_depth_reports_nothing() {
    let (k, sols) = run("R U", 0);
    assert_eq!(k, 0);
    assert!(sols.is_empty());
}

#[test]
fn cheap_mask_matches_catalog_names() {
    assert_eq!(cheap_mask(&"".to_string()), 0);
    assert_eq!(cheap_mask(&"bogus".to_string()), 0);
    // "zx2" names the edge reorientation written " Ozx2 ", catalog entry 11.
    assert_eq!(cheap_mask(&"zx2".to_string()), 1 << 11);
    assert_eq!(cheap_mask(&"x y2".to_string()), (1 << 1) | (1 << 8));
    // Matching is case-sensitive and exact.
    assert_eq!(cheap_mask(&"ZX2".to_string()), 0);
}

#[test]
fn reorient_costs_follow_catalog_and_cheap_set() {
    assert_eq!(Reorient::Ident.cost(0), 0);
    assert_eq!(Reorient::R.cost(0), 1);
    assert_eq!(Reorient::R2.cost(0), 2);
    assert_eq!(Reorient::UR.cost(0), 3);
    assert_eq!(Reorient::UFR.cost(0), 2);
    // The cheap set overrides a cost to one; the identity stays free.
    assert_eq!(Reorient::UR.cost(1 << 11), 1);
    assert_eq!(Reorient::Ident.cost(u32::MAX), 0);
}

#[test]
fn cheap_set_pulls_a_solution_into_the_minimal_bucket() {
    // Without the cheap set the edge reorientation costs 3 and falls out of
    // the minimal-cost bucket; marking "zx2" cheap reduces it to 1, tying
    // the nominally cheaper face rotation.
    let alg = parse("R U");
    let (_, plain) = iddfs(&alg, 5, false, 0);
    let (min_plain, kept_plain) = filter_min_cost(plain);
    assert_eq!(min_plain, 1);
    assert_eq!(kept_plain, vec![(1, "R Oz U".to_string())]);

    let mask = cheap_mask(&"zx2".to_string());
    let (_, cheap) = iddfs(&alg, 5, false, mask);
    let (min_cheap, kept_cheap) = filter_min_cost(cheap);
    assert_eq!(min_cheap, 1);
    assert_eq!(
        kept_cheap,
        vec![(1, "R Oz U".to_string()), (1, "R Ozx2 U".to_string())]
    );
}

#[test]
fn sticker_notation_renders_the_other_symbols() {
    let (k, sols) = iddfs(&parse("R U"), 5, true, 0);
    assert_eq!(k, 1);
    assert_eq!(sols[0].1, "R 23I:B U");
    assert_eq!(sols[1].1, "R 23I:UR U");
}
