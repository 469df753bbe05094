use cube_reorient::reorient::Reorient;
use cube_reorient::solution::Solution;

#[test]
fn record_keeps_only_nontrivial_reorients() {
    let sol = Solution::empty()
        .push_if_not_ident(Reorient::Ident, 1)
        .push_if_not_ident(Reorient::R, 2)
        .push_if_not_ident(Reorient::Ident, 3)
        .push_if_not_ident(Reorient::UF, 4);
    assert_eq!(sol.entries, vec![(2, Reorient::R), (4, Reorient::UF)]);
    let sol = sol.pop();
    assert_eq!(sol.entries, vec![(2, Reorient::R)]);
    let sol = sol.pop().pop();
    assert!(sol.entries.is_empty());
}

#[test]
fn expansion_is_dense_and_aligned() {
    let sol = Solution::empty()
        .push_if_not_ident(Reorient::U2, 1)
        .push_if_not_ident(Reorient::DFL, 3);
    let dense = sol.reorients(5);
    assert_eq!(
        dense,
        vec![None, Some(Reorient::U2), None, Some(Reorient::DFL), None]
    );
}

#[test]
fn record_cost_sums_entry_costs() {
    let sol = Solution::empty()
        .push_if_not_ident(Reorient::R, 1)
        .push_if_not_ident(Reorient::UR, 2)
        .push_if_not_ident(Reorient::F2, 3);
    assert_eq!(sol.cost(0), 1 + 3 + 2);
    // Marking the edge rotation cheap lowers only that entry.
    assert_eq!(sol.cost(1 << 11), 1 + 1 + 2);
    assert_eq!(Solution::empty().cost(0), 0);
}

#[test]
fn symbols_cover_both_notations() {
    assert_eq!(Reorient::Ident.symbol(false), " ");
    assert_eq!(Reorient::Ident.symbol(true), " ");
    assert_eq!(Reorient::R.symbol(false), " Ox ");
    assert_eq!(Reorient::R.symbol(true), " 23I:L ");
    assert_eq!(Reorient::DBL.symbol(false), " Oy'x' ");
    assert_eq!(Reorient::DBL.symbol(true), " 23I:UFR ");
}
