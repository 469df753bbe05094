//! The search engine: an iterative-deepening depth-first search over
//! reorientation insertion points. The depth-first pass threads a puzzle
//! state proxy and an orientation through the move sequence, trying every
//! catalog reorientation at each choice point and pruning with the proxy's
//! admissible lower bound. The deepening pass stops at the first budget
//! level that yields a result, so the returned solutions use the fewest
//! reorientations possible.

use vstd::prelude::*;
use crate::moves::Move;
use crate::moves::all_proper;
use crate::moves::all_single;
use crate::orientation::Orientation;
use crate::reorient::Reorient;
use crate::state::CubeState;
use crate::state::apply_move_spec;
use crate::state::lower_bound_spec;
use crate::state::reduced;
use crate::state::STATE_CAPACITY;
use crate::solution::Solution;
use crate::solution::push_if_spec;

verus! {

/// Whether a residue counts as a success: fully cancelled, or a single
/// entry that takes one physical turn.
pub open spec fn search_accepts(s: Seq<Move>) -> bool {
    s.len() == 0 || (s.len() == 1 && !s[0].is_double())
}

/// The mathematical view of each record in a list of solutions.
pub open spec fn views_of(sols: Seq<Solution>) -> Seq<Seq<(u8, Reorient)>> {
    sols.map_values(|sol: Solution| sol@)
}

/// The residue after folding the moves from position `i` on into `s`, each
/// transformed through the fixed orientation `o`.
pub open spec fn fold_moves_spec(s: Seq<Move>, o: Orientation, moves: Seq<Move>, i: int) -> Seq<
    Move,
>
    decreases moves.len() - i,
{
    if 0 <= i < moves.len() {
        fold_moves_spec(apply_move_spec(s, o.spec_transform_move(moves[i])), o, moves, i + 1)
    } else {
        s
    }
}

/// The solution records the depth-first search emits from this node, in the
/// order it visits them. At a terminal node (one move left, or no budget)
/// the remaining moves are folded in and the accumulated record is emitted
/// exactly when the residue counts as a success; a node whose lower bound
/// exceeds the remaining moves plus the one-turn slack is pruned; any other
/// node folds in one move and branches over the whole catalog.
pub open spec fn dfs_spec(
    s: Seq<Move>,
    o: Orientation,
    moves: Seq<Move>,
    pos: int,
    sol: Seq<(u8, Reorient)>,
    budget: int,
) -> Seq<Seq<(u8, Reorient)>>
    decreases moves.len() - pos, 1int, 0int,
{
    if pos < 0 || pos > moves.len() {
        Seq::empty()
    } else if moves.len() - pos <= 1 || budget <= 0 {
        if search_accepts(fold_moves_spec(s, o, moves, pos)) {
            seq![sol]
        } else {
            Seq::empty()
        }
    } else if lower_bound_spec(s) > moves.len() - pos + 1 {
        Seq::empty()
    } else {
        branches_spec(
            apply_move_spec(s, o.spec_transform_move(moves[pos])),
            o,
            moves,
            pos,
            sol,
            budget,
            0,
        )
    }
}

/// The concatenation of the child searches for catalog entries `k` and up:
/// each child recurses past the move at `pos` with the composed
/// orientation, a budget lowered for a non-trivial reorientation, and the
/// record extended at index `pos + 1`.
pub open spec fn branches_spec(
    ns: Seq<Move>,
    o: Orientation,
    moves: Seq<Move>,
    pos: int,
    sol: Seq<(u8, Reorient)>,
    budget: int,
    k: int,
) -> Seq<Seq<(u8, Reorient)>>
    decreases moves.len() - pos, 0int, 24 - k,
{
    if pos < 0 || pos >= moves.len() || !(0 <= k < 24) {
        Seq::empty()
    } else {
        let r = Reorient::spec_from_ordinal(k);
        let child = dfs_spec(
            ns,
            r.spec_orientation().spec_compose(o),
            moves,
            pos + 1,
            push_if_spec(sol, r, (pos + 1) as u8),
            if r == Reorient::Ident {
                budget
            } else {
                budget - 1
            },
        );
        child + branches_spec(ns, o, moves, pos, sol, budget, k + 1)
    }
}

/// Explores every placement of at most `max_reorients` further
/// reorientations between the moves from `pos` on, appending every
/// successful record to `output` in visit order.
pub fn dfs(
    state: CubeState,
    orientation: Orientation,
    moves: &Vec<Move>,
    pos: usize,
    solution: Solution,
    max_reorients: usize,
    output: &mut Vec<Solution>,
)
    requires
        state.wf(),
        orientation.wf(),
        moves@.len() <= STATE_CAPACITY,
        pos <= moves@.len(),
        state@.len() <= pos,
        all_proper(moves@),
    ensures
        views_of(final(output)@) == views_of(old(output)@) + dfs_spec(
            state@,
            orientation,
            moves@,
            pos as int,
            solution@,
            max_reorients as int,
        ),
    decreases moves@.len() - pos,
{
    let n = moves.len();
    if n - pos <= 1 || max_reorients == 0 {
        // No more reorientations allowed: fold the remaining moves in and
        // test the residue.
        let mut st = state;
        let mut i: usize = pos;
        while i < n
            invariant
                pos <= i <= n,
                n == moves@.len(),
                n <= STATE_CAPACITY,
                st.wf(),
                st@.len() <= i,
                all_proper(moves@),
                orientation.wf(),
                fold_moves_spec(st@, orientation, moves@, i as int) == fold_moves_spec(
                    state@,
                    orientation,
                    moves@,
                    pos as int,
                ),
            decreases n - i,
        {
            proof {
                crate::orientation::lemma_transform_move_shape(orientation, moves@[i as int]);
            }
            st = st.apply_move(orientation.transform_move(moves[i]));
            i = i + 1;
        }
        if st.is_solved() || st.is_one_from_solved() {
            output.push(solution);
            proof {
                assert(views_of(output@) =~= views_of(old(output)@) + seq![solution@]);
            }
        } else {
            proof {
                assert(views_of(output@) =~= views_of(old(output)@) + Seq::<
                    Seq<(u8, Reorient)>,
                >::empty());
            }
        }
    } else if state.lower_bound() as usize > n - pos + 1 {
        // The admissible bound already exceeds what the remaining moves
        // plus the one-turn slack could cancel: prune.
        proof {
            assert(views_of(output@) =~= views_of(old(output)@) + Seq::<
                Seq<(u8, Reorient)>,
            >::empty());
        }
    } else {
        proof {
            crate::orientation::lemma_transform_move_shape(orientation, moves@[pos as int]);
        }
        let new_state = state.apply_move(orientation.transform_move(moves[pos]));
        let ghost ns = new_state@;
        let mut k: usize = 0;
        while k < 24
            invariant
                k <= 24,
                pos < n,
                n - pos > 1,
                n == moves@.len(),
                n <= STATE_CAPACITY,
                max_reorients >= 1,
                new_state.wf(),
                new_state@ == ns,
                new_state@.len() <= pos + 1,
                orientation.wf(),
                all_proper(moves@),
                views_of(output@) + branches_spec(
                    ns,
                    orientation,
                    moves@,
                    pos as int,
                    solution@,
                    max_reorients as int,
                    k as int,
                ) == views_of(old(output)@) + branches_spec(
                    ns,
                    orientation,
                    moves@,
                    pos as int,
                    solution@,
                    max_reorients as int,
                    0,
                ),
            decreases 24 - k,
        {
            let ghost pre = views_of(output@);
            let reorient = Reorient::from_ordinal(k);
            let remaining_reorients = if reorient.is_none() {
                max_reorients
            } else {
                max_reorients - 1
            };
            let new_orientation = reorient.orientation().transform_orientation(orientation);
            let new_solution = solution.duplicate().push_if_not_ident(
                reorient,
                (pos + 1) as u8,
            );
            dfs(
                new_state.duplicate(),
                new_orientation,
                moves,
                pos + 1,
                new_solution,
                remaining_reorients,
                output,
            );
            proof {
                let ghost child = dfs_spec(
                    ns,
                    reorient.spec_orientation().spec_compose(orientation),
                    moves@,
                    pos as int + 1,
                    push_if_spec(solution@, reorient, (pos + 1) as u8),
                    remaining_reorients as int,
                );
                assert(views_of(output@) =~= pre + child);
                assert(branches_spec(
                    ns,
                    orientation,
                    moves@,
                    pos as int,
                    solution@,
                    max_reorients as int,
                    k as int,
                ) == child + branches_spec(
                    ns,
                    orientation,
                    moves@,
                    pos as int,
                    solution@,
                    max_reorients as int,
                    k as int + 1,
                ));
                assert((pre + child) + branches_spec(
                    ns,
                    orientation,
                    moves@,
                    pos as int,
                    solution@,
                    max_reorients as int,
                    k as int + 1,
                ) =~= pre + (child + branches_spec(
                    ns,
                    orientation,
                    moves@,
                    pos as int,
                    solution@,
                    max_reorients as int,
                    k as int + 1,
                )));
            }
            k = k + 1;
        }
        proof {
            assert(branches_spec(
                ns,
                orientation,
                moves@,
                pos as int,
                solution@,
                max_reorients as int,
                24,
            ) == Seq::<Seq<(u8, Reorient)>>::empty());
            assert(views_of(output@) + Seq::<Seq<(u8, Reorient)>>::empty() =~= views_of(
                output@,
            ));
            assert(dfs_spec(
                state@,
                orientation,
                moves@,
                pos as int,
                solution@,
                max_reorients as int,
            ) == branches_spec(
                ns,
                orientation,
                moves@,
                pos as int,
                solution@,
                max_reorients as int,
                0,
            ));
        }
    }
}

/// How many budget levels the deepening loop attempts for `n` moves and a
/// configured depth bound `d`: every level below `n`, capped at `d + 1`.
pub open spec fn search_levels(n: int, d: int) -> int {
    if n < d + 1 {
        n
    } else {
        d + 1
    }
}

/// The solutions the depth-first search finds for a whole move sequence at
/// one reorientation budget, from the solved state and the identity
/// orientation.
pub open spec fn level_solutions(moves: Seq<Move>, budget: int) -> Seq<Seq<(u8, Reorient)>> {
    dfs_spec(
        Seq::empty(),
        Orientation::spec_identity(),
        moves,
        0,
        Seq::empty(),
        budget,
    )
}

/// A record fits its move sequence: no more entries than moves, every
/// index within the sequence.
pub open spec fn sol_shape_ok(x: Seq<(u8, Reorient)>, len: int) -> bool {
    x.len() <= len && (forall|i: int| 0 <= i < x.len() ==> (#[trigger] x[i]).0 < len)
}

/// Every record the search emits fits the move sequence.
pub proof fn lemma_dfs_shape(
    s: Seq<Move>,
    o: Orientation,
    moves: Seq<Move>,
    pos: int,
    sol: Seq<(u8, Reorient)>,
    budget: int,
)
    requires
        0 <= pos <= moves.len(),
        sol.len() <= pos,
        forall|t: int| 0 <= t < sol.len() ==> (#[trigger] sol[t]).0 < moves.len(),
    ensures
        forall|xi: int|
            0 <= xi < dfs_spec(s, o, moves, pos, sol, budget).len() ==> sol_shape_ok(
                #[trigger] dfs_spec(s, o, moves, pos, sol, budget)[xi],
                moves.len() as int,
            ),
    decreases moves.len() - pos, 1int, 0int,
{
    if moves.len() - pos <= 1 || budget <= 0 {
        if search_accepts(fold_moves_spec(s, o, moves, pos)) {
            assert(dfs_spec(s, o, moves, pos, sol, budget) == seq![sol]);
            assert(dfs_spec(s, o, moves, pos, sol, budget)[0] == sol);
            assert(sol_shape_ok(sol, moves.len() as int));
        } else {
            assert(dfs_spec(s, o, moves, pos, sol, budget).len() == 0);
        }
    } else if lower_bound_spec(s) > moves.len() - pos + 1 {
        assert(dfs_spec(s, o, moves, pos, sol, budget).len() == 0);
    } else {
        let group = branches_spec(
            apply_move_spec(s, o.spec_transform_move(moves[pos])),
            o,
            moves,
            pos,
            sol,
            budget,
            0,
        );
        lemma_branches_shape(
            apply_move_spec(s, o.spec_transform_move(moves[pos])),
            o,
            moves,
            pos,
            sol,
            budget,
            0,
        );
        assert(dfs_spec(s, o, moves, pos, sol, budget) == group);
        assert forall|xi: int|
            0 <= xi < dfs_spec(s, o, moves, pos, sol, budget).len() implies sol_shape_ok(
            #[trigger] dfs_spec(s, o, moves, pos, sol, budget)[xi],
            moves.len() as int,
        ) by {
            assert(dfs_spec(s, o, moves, pos, sol, budget)[xi] == group[xi]);
        }
    }
}

/// Every record a branch group emits fits the move sequence.
proof fn lemma_branches_shape(
    ns: Seq<Move>,
    o: Orientation,
    moves: Seq<Move>,
    pos: int,
    sol: Seq<(u8, Reorient)>,
    budget: int,
    k: int,
)
    requires
        0 <= pos,
        moves.len() - pos >= 2,
        sol.len() <= pos,
        forall|t: int| 0 <= t < sol.len() ==> (#[trigger] sol[t]).0 < moves.len(),
    ensures
        forall|xi: int|
            0 <= xi < branches_spec(ns, o, moves, pos, sol, budget, k).len() ==> sol_shape_ok(
                #[trigger] branches_spec(ns, o, moves, pos, sol, budget, k)[xi],
                moves.len() as int,
            ),
    decreases moves.len() - pos, 0int, 24 - k,
{
    if pos < 0 || pos >= moves.len() || !(0 <= k < 24) {
    } else {
        let r = Reorient::spec_from_ordinal(k);
        let sol2 = push_if_spec(sol, r, (pos + 1) as u8);
        let child = dfs_spec(
            ns,
            r.spec_orientation().spec_compose(o),
            moves,
            pos + 1,
            sol2,
            if r == Reorient::Ident {
                budget
            } else {
                budget - 1
            },
        );
        let rest = branches_spec(ns, o, moves, pos, sol, budget, k + 1);
        assert forall|t: int| 0 <= t < sol2.len() implies (#[trigger] sol2[t]).0
            < moves.len() by {
            if t < sol.len() {
                assert(sol2[t] == sol[t]);
            }
        }
        lemma_dfs_shape(
            ns,
            r.spec_orientation().spec_compose(o),
            moves,
            pos + 1,
            sol2,
            if r == Reorient::Ident {
                budget
            } else {
                budget - 1
            },
        );
        lemma_branches_shape(ns, o, moves, pos, sol, budget, k + 1);
        assert forall|xi: int| 0 <= xi < (child + rest).len() implies sol_shape_ok(
            #[trigger] (child + rest)[xi],
            moves.len() as int,
        ) by {
            if xi < child.len() {
                assert((child + rest)[xi] == child[xi]);
            } else {
                assert((child + rest)[xi] == rest[xi - child.len()]);
            }
        }
    }
}

/// Runs the iterative-deepening search: tries each reorientation budget in
/// turn and stops at the first level that yields a result, so the returned
/// records use the fewest reorientations possible. Each result pairs the
/// total reorientation cost with the annotated move text. An input of at
/// most one move needs no search and yields that move's text at cost zero;
/// an exhausted depth bound yields an empty list.
pub fn iddfs(moves: &Vec<Move>, max_depth: usize, sticker: bool, cheap_mask: u32) -> (r: (
    usize,
    Vec<(usize, String)>,
))
    requires
        moves@.len() <= STATE_CAPACITY,
        all_proper(moves@),
    ensures
        moves@.len() <= 1 ==> r.0 == 0 && r.1@.len() == 1 && r.1@[0].0 == 0 && r.1@[0].1@ == (
        if moves@.len() == 1 {
            crate::notation::display_move_spec(moves@[0])
        } else {
            Seq::<char>::empty()
        }),
        moves@.len() > 1 && r.1@.len() > 0 ==> {
            &&& (r.0 as int) < search_levels(moves@.len() as int, max_depth as int)
            &&& level_solutions(moves@, r.0 as int).len() == r.1@.len()
            &&& (forall|j: int| 0 <= j < r.0 ==> level_solutions(moves@, j).len() == 0)
            &&& (forall|i: int|
                0 <= i < r.1@.len() ==> (#[trigger] r.1@[i]).0 as nat == crate::solution::cost_spec(
                    level_solutions(moves@, r.0 as int)[i],
                    cheap_mask,
                ) && r.1@[i].1@ == crate::notation::render_spec(
                    level_solutions(moves@, r.0 as int)[i],
                    moves@,
                    sticker,
                ))
        },
        moves@.len() > 1 && r.1@.len() == 0 ==> r.0 == 0 && (forall|j: int|
            0 <= j < search_levels(moves@.len() as int, max_depth as int)
                ==> level_solutions(moves@, j).len() == 0),
{
    let n = moves.len();
    if n <= 1 {
        let text = if n == 1 {
            crate::notation::display_move(moves[0])
        } else {
            String::new()
        };
        let mut list: Vec<(usize, String)> = Vec::new();
        list.push((0, text));
        return (0, list);
    }
    let max_levels = if max_depth >= n {
        n
    } else {
        max_depth + 1
    };
    let mut max_reorients: usize = 0;
    while max_reorients < max_levels
        invariant
            2 <= n == moves@.len() <= STATE_CAPACITY,
            all_proper(moves@),
            max_reorients <= max_levels,
            max_levels == search_levels(moves@.len() as int, max_depth as int),
            forall|j: int| 0 <= j < max_reorients ==> level_solutions(moves@, j).len() == 0,
        decreases max_levels - max_reorients,
    {
        let mut found: Vec<Solution> = Vec::new();
        dfs(
            CubeState::empty(),
            Orientation::default(),
            moves,
            0,
            Solution::empty(),
            max_reorients,
            &mut found,
        );
        let ghost lv = level_solutions(moves@, max_reorients as int);
        proof {
            assert(Seq::<Seq<(u8, Reorient)>>::empty() + lv =~= lv);
            assert(views_of(found@) == lv);
            lemma_dfs_shape(
                Seq::empty(),
                Orientation::spec_identity(),
                moves@,
                0,
                Seq::empty(),
                max_reorients as int,
            );
        }
        let count = found.len();
        if count > 0 {
            let mut list: Vec<(usize, String)> = Vec::new();
            let mut i: usize = 0;
            while i < count
                invariant
                    i <= count,
                    count == found@.len(),
                    n == moves@.len() <= STATE_CAPACITY,
                    views_of(found@) == lv,
                    forall|xi: int|
                        0 <= xi < lv.len() ==> sol_shape_ok(#[trigger] lv[xi], moves@.len() as int),
                    list@.len() == i,
                    forall|t: int|
                        0 <= t < i ==> (#[trigger] list@[t]).0 as nat
                            == crate::solution::cost_spec(lv[t], cheap_mask) && list@[t].1@
                            == crate::notation::render_spec(lv[t], moves@, sticker),
                decreases count - i,
            {
                proof {
                    assert(found@[i as int]@ == lv[i as int]);
                    crate::solution::lemma_cost_linear(lv[i as int], cheap_mask);
                }
                let cost = found[i].cost(cheap_mask);
                let text = crate::notation::render_solution(&found[i], moves, sticker);
                list.push((cost, text));
                i = i + 1;
            }
            return (max_reorients, list);
        }
        max_reorients = max_reorients + 1;
    }
    (0, Vec::new())
}

/// The solutions whose total cost is exactly `c`, in their original order.
pub open spec fn min_filtered(s: Seq<(usize, String)>, c: usize) -> Seq<(usize, String)> {
    s.filter(|p: (usize, String)| p.0 == c)
}

/// Keeps, of the reported solutions, only those whose total cost is the
/// minimum, preserving their order; also returns that minimum. This is the
/// caller-side filter applied when not all solutions are wanted.
pub fn filter_min_cost(solutions: Vec<(usize, String)>) -> (r: (usize, Vec<(usize, String)>))
    requires
        solutions@.len() > 0,
    ensures
        exists|i: int| 0 <= i < solutions@.len() && (#[trigger] solutions@[i]).0 == r.0,
        forall|i: int| 0 <= i < solutions@.len() ==> (#[trigger] solutions@[i]).0 >= r.0,
        r.1@ == min_filtered(solutions@, r.0),
{
    let n = solutions.len();
    let mut min_cost: usize = solutions[0].0;
    let mut i: usize = 1;
    while i < n
        invariant
            1 <= i <= n,
            n == solutions@.len(),
            exists|t: int| 0 <= t < i && (#[trigger] solutions@[t]).0 == min_cost,
            forall|t: int| 0 <= t < i ==> (#[trigger] solutions@[t]).0 >= min_cost,
        decreases n - i,
    {
        if solutions[i].0 < min_cost {
            min_cost = solutions[i].0;
        }
        i = i + 1;
    }
    let ghost all = solutions@;
    let mut rest = solutions;
    let mut kept: Vec<(usize, String)> = Vec::new();
    let ghost mut consumed: int = 0;
    proof {
        reveal(Seq::filter);
        assert(kept@ =~= min_filtered(all.subrange(0, 0), min_cost));
        assert(rest@ =~= all.subrange(0, all.len() as int));
    }
    while rest.len() > 0
        invariant
            0 <= consumed <= all.len(),
            rest@ == all.subrange(consumed, all.len() as int),
            kept@ == min_filtered(all.subrange(0, consumed), min_cost),
        decreases rest@.len(),
    {
        let ghost old_rest = rest@;
        let p = rest.remove(0);
        let ghost old_consumed = consumed;
        proof {
            consumed = consumed + 1;
        }
        if p.0 == min_cost {
            kept.push(p);
        }
        proof {
            reveal(Seq::filter);
            assert(p == all[old_consumed]);
            assert(rest@ =~= all.subrange(consumed, all.len() as int));
            assert(all.subrange(0, consumed).drop_last() =~= all.subrange(0, old_consumed));
            assert(all.subrange(0, consumed).last() == all[old_consumed]);
            assert(kept@ == min_filtered(all.subrange(0, consumed), min_cost));
        }
    }
    proof {
        assert(all.subrange(0, all.len() as int) =~= all);
        assert(kept@ == min_filtered(all, min_cost));
    }
    (min_cost, kept)
}

/// An element lies in a concatenation exactly when it lies in one part.
proof fn lemma_concat_contains<T>(a: Seq<T>, b: Seq<T>, x: T)
    ensures
        (a + b).contains(x) <==> (a.contains(x) || b.contains(x)),
{
    if (a + b).contains(x) {
        let i = choose|i: int| 0 <= i < (a + b).len() && (a + b)[i] == x;
        if i < a.len() {
            assert(a[i] == x);
        } else {
            assert(b[i - a.len()] == x);
        }
    }
    if a.contains(x) {
        let i = choose|i: int| 0 <= i < a.len() && a[i] == x;
        assert((a + b)[i] == x);
    }
    if b.contains(x) {
        let i = choose|i: int| 0 <= i < b.len() && b[i] == x;
        assert((a + b)[a.len() + i] == x);
    }
}

/// Folding single-face moves keeps the residue reduced, and lowers the
/// admissible bound by at most one per move folded.
proof fn lemma_fold_props(s: Seq<Move>, o: Orientation, moves: Seq<Move>, i: int)
    requires
        reduced(s),
        all_proper(moves),
        all_single(moves),
        0 <= i <= moves.len(),
    ensures
        reduced(fold_moves_spec(s, o, moves, i)),
        lower_bound_spec(fold_moves_spec(s, o, moves, i)) + (moves.len() - i)
            >= lower_bound_spec(s),
    decreases moves.len() - i,
{
    if i < moves.len() {
        let t = o.spec_transform_move(moves[i]);
        crate::orientation::lemma_transform_move_shape(o, moves[i]);
        crate::state::lemma_apply_move_reduced(s, t);
        crate::state::lemma_apply_move_lower_bound(s, t);
        lemma_fold_props(apply_move_spec(s, t), o, moves, i + 1);
    }
}

/// An accepted residue is at most one physical turn from solved.
proof fn lemma_accept_lower_bound(f: Seq<Move>)
    requires
        search_accepts(f),
    ensures
        lower_bound_spec(f) <= 1,
{
    if f.len() == 1 {
        assert(f.last() == f[0]);
        assert(f.drop_last().len() == 0);
        assert(lower_bound_spec(f.drop_last()) == 0);
        assert(lower_bound_spec(f) == lower_bound_spec(f.drop_last()) + (if f.last().is_double() {
            2nat
        } else {
            1nat
        }));
    }
}

/// Searching one level deeper never loses a solution: every record found
/// for a move sequence at one reorientation budget is found again at every
/// higher budget.
pub proof fn lemma_level_monotone(moves: Seq<Move>, j: int, k: int, x: Seq<(u8, Reorient)>)
    requires
        all_proper(moves),
        all_single(moves),
        j <= k,
        level_solutions(moves, j).contains(x),
    ensures
        level_solutions(moves, k).contains(x),
{
    let empty = Seq::<(u8, Reorient)>::empty();
    if k <= 0 {
        // Both budgets take the terminal step at once.
    } else {
        lemma_dfs_count(
            Seq::empty(),
            Orientation::spec_identity(),
            moves,
            0,
            empty,
            j,
            x,
        );
        lemma_dfs_budget_lower(
            Seq::empty(),
            Orientation::spec_identity(),
            moves,
            0,
            empty,
            j,
            k,
            x,
        );
    }
}

/// The lower bound is admissible with respect to the proxy: no sequence of
/// single face turns shorter than the bound can cancel the residue.
pub proof fn lemma_lower_bound_admissible(s: Seq<Move>, ms: Seq<Move>)
    requires
        reduced(s),
        all_proper(ms),
        all_single(ms),
        fold_moves_spec(s, Orientation::spec_identity(), ms, 0).len() == 0,
    ensures
        lower_bound_spec(s) <= ms.len(),
{
    lemma_fold_props(s, Orientation::spec_identity(), ms, 0);
}

/// Every emitted record extends the accumulated one.
proof fn lemma_dfs_extends(
    s: Seq<Move>,
    o: Orientation,
    moves: Seq<Move>,
    pos: int,
    sol: Seq<(u8, Reorient)>,
    budget: int,
    x: Seq<(u8, Reorient)>,
)
    requires
        0 <= pos <= moves.len(),
        dfs_spec(s, o, moves, pos, sol, budget).contains(x),
    ensures
        x.len() >= sol.len(),
        x.subrange(0, sol.len() as int) == sol,
    decreases moves.len() - pos, 1int, 0int,
{
    if moves.len() - pos <= 1 || budget <= 0 {
        assert(x == sol);
        assert(x.subrange(0, sol.len() as int) =~= sol);
    } else if lower_bound_spec(s) > moves.len() - pos + 1 {
    } else {
        let ns = apply_move_spec(s, o.spec_transform_move(moves[pos]));
        lemma_branches_extends(ns, o, moves, pos, sol, budget, 0, x);
    }
}

/// Every record a branch group emits extends the accumulated one.
proof fn lemma_branches_extends(
    ns: Seq<Move>,
    o: Orientation,
    moves: Seq<Move>,
    pos: int,
    sol: Seq<(u8, Reorient)>,
    budget: int,
    k: int,
    x: Seq<(u8, Reorient)>,
)
    requires
        0 <= pos < moves.len(),
        branches_spec(ns, o, moves, pos, sol, budget, k).contains(x),
    ensures
        x.len() >= sol.len(),
        x.subrange(0, sol.len() as int) == sol,
    decreases moves.len() - pos, 0int, 24 - k,
{
    if !(0 <= k < 24) {
    } else {
        let r = Reorient::spec_from_ordinal(k);
        let sol2 = push_if_spec(sol, r, (pos + 1) as u8);
        let cb = if r == Reorient::Ident {
            budget
        } else {
            budget - 1
        };
        let child = dfs_spec(
            ns,
            r.spec_orientation().spec_compose(o),
            moves,
            pos + 1,
            sol2,
            cb,
        );
        let rest = branches_spec(ns, o, moves, pos, sol, budget, k + 1);
        lemma_concat_contains(child, rest, x);
        if child.contains(x) {
            lemma_dfs_extends(
                ns,
                r.spec_orientation().spec_compose(o),
                moves,
                pos + 1,
                sol2,
                cb,
                x,
            );
            assert forall|t: int| 0 <= t < sol.len() implies x.subrange(0, sol.len() as int)[t]
                == sol[t] by {
                assert(x.subrange(0, sol2.len() as int)[t] == sol2[t]);
                assert(x[t] == sol2[t]);
            }
            assert(x.subrange(0, sol.len() as int) =~= sol);
        } else {
            lemma_branches_extends(ns, o, moves, pos, sol, budget, k + 1, x);
        }
    }
}

/// A record never holds more new reorientations than the budget allows.
proof fn lemma_dfs_count(
    s: Seq<Move>,
    o: Orientation,
    moves: Seq<Move>,
    pos: int,
    sol: Seq<(u8, Reorient)>,
    budget: int,
    x: Seq<(u8, Reorient)>,
)
    requires
        0 <= pos <= moves.len(),
        dfs_spec(s, o, moves, pos, sol, budget).contains(x),
    ensures
        budget >= 0 ==> x.len() <= sol.len() + budget,
        budget < 0 ==> x.len() == sol.len(),
    decreases moves.len() - pos, 1int, 0int,
{
    if moves.len() - pos <= 1 || budget <= 0 {
        assert(x == sol);
    } else if lower_bound_spec(s) > moves.len() - pos + 1 {
    } else {
        let ns = apply_move_spec(s, o.spec_transform_move(moves[pos]));
        lemma_branches_count(ns, o, moves, pos, sol, budget, 0, x);
    }
}

/// A branch group's records never hold more new reorientations than the
/// budget allows.
proof fn lemma_branches_count(
    ns: Seq<Move>,
    o: Orientation,
    moves: Seq<Move>,
    pos: int,
    sol: Seq<(u8, Reorient)>,
    budget: int,
    k: int,
    x: Seq<(u8, Reorient)>,
)
    requires
        0 <= pos < moves.len(),
        budget >= 1,
        branches_spec(ns, o, moves, pos, sol, budget, k).contains(x),
    ensures
        x.len() <= sol.len() + budget,
    decreases moves.len() - pos, 0int, 24 - k,
{
    if !(0 <= k < 24) {
    } else {
        let r = Reorient::spec_from_ordinal(k);
        let sol2 = push_if_spec(sol, r, (pos + 1) as u8);
        let cb = if r == Reorient::Ident {
            budget
        } else {
            budget - 1
        };
        let child = dfs_spec(
            ns,
            r.spec_orientation().spec_compose(o),
            moves,
            pos + 1,
            sol2,
            cb,
        );
        let rest = branches_spec(ns, o, moves, pos, sol, budget, k + 1);
        lemma_concat_contains(child, rest, x);
        if child.contains(x) {
            lemma_dfs_count(
                ns,
                r.spec_orientation().spec_compose(o),
                moves,
                pos + 1,
                sol2,
                cb,
                x,
            );
        } else {
            lemma_branches_count(ns, o, moves, pos, sol, budget, k + 1, x);
        }
    }
}

/// Branch groups past the trivial reorientation only emit records strictly
/// longer than the accumulated one.
proof fn lemma_branches_longer(
    ns: Seq<Move>,
    o: Orientation,
    moves: Seq<Move>,
    pos: int,
    sol: Seq<(u8, Reorient)>,
    budget: int,
    k: int,
    x: Seq<(u8, Reorient)>,
)
    requires
        0 <= pos < moves.len(),
        1 <= k,
        branches_spec(ns, o, moves, pos, sol, budget, k).contains(x),
    ensures
        x.len() > sol.len(),
    decreases moves.len() - pos, 0int, 24 - k,
{
    if !(0 <= k < 24) {
    } else {
        let r = Reorient::spec_from_ordinal(k);
        let sol2 = push_if_spec(sol, r, (pos + 1) as u8);
        let cb = if r == Reorient::Ident {
            budget
        } else {
            budget - 1
        };
        let child = dfs_spec(
            ns,
            r.spec_orientation().spec_compose(o),
            moves,
            pos + 1,
            sol2,
            cb,
        );
        let rest = branches_spec(ns, o, moves, pos, sol, budget, k + 1);
        lemma_concat_contains(child, rest, x);
        if child.contains(x) {
            assert(r != Reorient::Ident);
            assert(sol2.len() == sol.len() + 1);
            lemma_dfs_extends(
                ns,
                r.spec_orientation().spec_compose(o),
                moves,
                pos + 1,
                sol2,
                cb,
                x,
            );
        } else {
            lemma_branches_longer(ns, o, moves, pos, sol, budget, k + 1, x);
        }
    }
}

/// Any budget at least as large as the number of reorientations a record
/// adds suffices to find it again.
proof fn lemma_dfs_budget_lower(
    s: Seq<Move>,
    o: Orientation,
    moves: Seq<Move>,
    pos: int,
    sol: Seq<(u8, Reorient)>,
    budget: int,
    other: int,
    x: Seq<(u8, Reorient)>,
)
    requires
        reduced(s),
        o.wf(),
        all_proper(moves),
        all_single(moves),
        0 <= pos <= moves.len(),
        dfs_spec(s, o, moves, pos, sol, budget).contains(x),
        other >= x.len() - sol.len(),
    ensures
        dfs_spec(s, o, moves, pos, sol, other).contains(x),
    decreases moves.len() - pos, 1int, 0int,
{
    lemma_dfs_extends(s, o, moves, pos, sol, budget, x);
    if moves.len() - pos <= 1 {
        // Terminal at every budget, with the same fold.
    } else if budget <= 0 {
        assert(search_accepts(fold_moves_spec(s, o, moves, pos)));
        assert(x == sol);
        if other <= 0 {
        } else {
            lemma_fold_props(s, o, moves, pos);
            lemma_accept_lower_bound(fold_moves_spec(s, o, moves, pos));
            assert(!(lower_bound_spec(s) > moves.len() - pos + 1));
            let t = o.spec_transform_move(moves[pos]);
            crate::orientation::lemma_transform_move_shape(o, moves[pos]);
            crate::state::lemma_apply_move_reduced(s, t);
            let ns = apply_move_spec(s, t);
            assert(Reorient::spec_from_ordinal(0) == Reorient::Ident);
            assert(Reorient::Ident.spec_orientation() == Orientation::spec_identity());
            crate::orientation::lemma_compose_identity(o);
            assert(push_if_spec(sol, Reorient::Ident, (pos + 1) as u8) == sol);
            assert(fold_moves_spec(ns, o, moves, pos + 1) == fold_moves_spec(s, o, moves, pos));
            assert(dfs_spec(ns, o, moves, pos + 1, sol, 0) == seq![sol]);
            assert(dfs_spec(ns, o, moves, pos + 1, sol, 0).contains(x));
            lemma_dfs_budget_lower(ns, o, moves, pos + 1, sol, 0, other, x);
            let child = dfs_spec(ns, o, moves, pos + 1, sol, other);
            let rest = branches_spec(ns, o, moves, pos, sol, other, 1);
            assert(branches_spec(ns, o, moves, pos, sol, other, 0) == child + rest);
            lemma_concat_contains(child, rest, x);
            assert(dfs_spec(s, o, moves, pos, sol, other) == branches_spec(
                ns,
                o,
                moves,
                pos,
                sol,
                other,
                0,
            ));
        }
    } else if lower_bound_spec(s) > moves.len() - pos + 1 {
        assert(!dfs_spec(s, o, moves, pos, sol, budget).contains(x));
    } else {
        let t = o.spec_transform_move(moves[pos]);
        crate::orientation::lemma_transform_move_shape(o, moves[pos]);
        crate::state::lemma_apply_move_reduced(s, t);
        let ns = apply_move_spec(s, t);
        assert(dfs_spec(s, o, moves, pos, sol, budget) == branches_spec(
            ns,
            o,
            moves,
            pos,
            sol,
            budget,
            0,
        ));
        if other <= 0 {
            // The record adds nothing, so it came through the trivial
            // child, whose fold equals this node's terminal fold.
            assert(x.len() == sol.len());
            assert(x =~= sol);
            let r = Reorient::spec_from_ordinal(0);
            assert(r == Reorient::Ident);
            assert(r.spec_orientation() == Orientation::spec_identity());
            crate::orientation::lemma_compose_identity(o);
            assert(push_if_spec(sol, r, (pos + 1) as u8) == sol);
            let child = dfs_spec(ns, o, moves, pos + 1, sol, budget);
            let rest = branches_spec(ns, o, moves, pos, sol, budget, 1);
            assert(branches_spec(ns, o, moves, pos, sol, budget, 0) == child + rest);
            lemma_concat_contains(child, rest, x);
            if rest.contains(x) {
                lemma_branches_longer(ns, o, moves, pos, sol, budget, 1, x);
                assert(false);
            }
            lemma_dfs_budget_lower(ns, o, moves, pos + 1, sol, budget, 0, x);
            assert(dfs_spec(ns, o, moves, pos + 1, sol, 0).contains(x));
            assert(search_accepts(fold_moves_spec(ns, o, moves, pos + 1)));
            assert(fold_moves_spec(ns, o, moves, pos + 1) == fold_moves_spec(s, o, moves, pos));
            assert(dfs_spec(s, o, moves, pos, sol, other) == seq![sol]);
        } else {
            lemma_branches_budget(ns, o, moves, pos, sol, budget, other, 0, x);
            assert(dfs_spec(s, o, moves, pos, sol, other) == branches_spec(
                ns,
                o,
                moves,
                pos,
                sol,
                other,
                0,
            ));
        }
    }
}

/// The branch-group form of the budget-sufficiency argument.
proof fn lemma_branches_budget(
    ns: Seq<Move>,
    o: Orientation,
    moves: Seq<Move>,
    pos: int,
    sol: Seq<(u8, Reorient)>,
    budget: int,
    other: int,
    k: int,
    x: Seq<(u8, Reorient)>,
)
    requires
        reduced(ns),
        o.wf(),
        all_proper(moves),
        all_single(moves),
        0 <= pos < moves.len(),
        branches_spec(ns, o, moves, pos, sol, budget, k).contains(x),
        other >= x.len() - sol.len(),
        other >= 1,
    ensures
        branches_spec(ns, o, moves, pos, sol, other, k).contains(x),
    decreases moves.len() - pos, 0int, 24 - k,
{
    if !(0 <= k < 24) {
        assert(!branches_spec(ns, o, moves, pos, sol, budget, k).contains(x));
    } else {
        let r = Reorient::spec_from_ordinal(k);
        let o2 = r.spec_orientation().spec_compose(o);
        let sol2 = push_if_spec(sol, r, (pos + 1) as u8);
        let cb = if r == Reorient::Ident {
            budget
        } else {
            budget - 1
        };
        let cb2 = if r == Reorient::Ident {
            other
        } else {
            other - 1
        };
        let child = dfs_spec(ns, o2, moves, pos + 1, sol2, cb);
        let rest = branches_spec(ns, o, moves, pos, sol, budget, k + 1);
        assert(branches_spec(ns, o, moves, pos, sol, budget, k) == child + rest);
        lemma_concat_contains(child, rest, x);
        crate::reorient::lemma_catalog_rotation(r);
        crate::orientation::lemma_compose_wf(r.spec_orientation(), o);
        let child2 = dfs_spec(ns, o2, moves, pos + 1, sol2, cb2);
        let rest2 = branches_spec(ns, o, moves, pos, sol, other, k + 1);
        if child.contains(x) {
            lemma_dfs_extends(ns, o2, moves, pos + 1, sol2, cb, x);
            lemma_dfs_budget_lower(ns, o2, moves, pos + 1, sol2, cb, cb2, x);
            assert(child2.contains(x));
        } else {
            assert(rest.contains(x));
            lemma_branches_budget(ns, o, moves, pos, sol, budget, other, k + 1, x);
            assert(rest2.contains(x));
        }
        lemma_concat_contains(child2, rest2, x);
        assert(branches_spec(ns, o, moves, pos, sol, other, k) == child2 + rest2);
    }
}

/// At the first budget level with any solutions, every record inserts
/// exactly that many reorientations: the reported count is the true
/// minimum, not an artifact of the deepening order.
pub proof fn lemma_first_level_exact(moves: Seq<Move>, k: int, x: Seq<(u8, Reorient)>)
    requires
        all_proper(moves),
        all_single(moves),
        0 <= k,
        level_solutions(moves, k).contains(x),
        forall|j: int| 0 <= j < k ==> level_solutions(moves, j).len() == 0,
    ensures
        x.len() == k,
{
    let empty = Seq::<(u8, Reorient)>::empty();
    lemma_dfs_extends(
        Seq::empty(),
        Orientation::spec_identity(),
        moves,
        0,
        empty,
        k,
        x,
    );
    lemma_dfs_count(
        Seq::empty(),
        Orientation::spec_identity(),
        moves,
        0,
        empty,
        k,
        x,
    );
    if x.len() < k {
        lemma_dfs_budget_lower(
            Seq::empty(),
            Orientation::spec_identity(),
            moves,
            0,
            empty,
            k,
            x.len() as int,
            x,
        );
        assert(level_solutions(moves, x.len() as int).contains(x));
        assert(level_solutions(moves, x.len() as int).len() == 0);
        assert(false);
    }
}

} // verus!
