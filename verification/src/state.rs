//! The puzzle state proxy: a bounded ordered sequence of moves holding the
//! uncancelled residue of the input after free reduction. Consecutive moves
//! on one axis are composed; a composition that reaches the identity is
//! dropped; a move on a new axis is appended. Entries therefore alternate
//! axes. The proxy approximates distance from solved and yields a fast
//! admissible lower bound for search pruning.

use vstd::prelude::*;
use crate::moves::Move;

verus! {

/// The proxy's fixed capacity; one entry per input move at most.
pub const STATE_CAPACITY: usize = 31;

/// The result of free reduction: pushes `m`, cancels it against the last
/// entry, or merges it into the last entry, as the axes dictate.
pub open spec fn apply_move_spec(s: Seq<Move>, m: Move) -> Seq<Move> {
    if s.len() > 0 && s.last().axis == m.axis {
        let merged = s.last().spec_compose(m);
        if merged.is_identity() {
            s.drop_last()
        } else {
            s.drop_last().push(merged)
        }
    } else {
        s.push(m)
    }
}

/// No entry is the identity, and adjacent entries lie on different axes.
pub open spec fn reduced(s: Seq<Move>) -> bool {
    (forall|i: int| 0 <= i < s.len() ==> !(#[trigger] s[i]).is_identity()) && (forall|
        i: int,
        j: int,
    |
        0 <= i && j == i + 1 && j < s.len() ==> (#[trigger] s[i]).axis != (#[trigger] s[j]).axis)
}

/// The number of physical turns the entries stand for: 2 for an entry that
/// turns both faces of its axis, 1 otherwise.
pub open spec fn lower_bound_spec(s: Seq<Move>) -> nat
    decreases s.len(),
{
    if s.len() == 0 {
        0
    } else {
        lower_bound_spec(s.drop_last()) + (if s.last().is_double() { 2nat } else { 1nat })
    }
}

/// A bounded, order-sensitive reduced sequence of per-axis move entries
/// approximating distance from solved.
#[derive(Debug)]
pub struct CubeState {
    pub entries: Vec<Move>,
}

impl View for CubeState {
    type V = Seq<Move>;

    open spec fn view(&self) -> Seq<Move> {
        self.entries@
    }
}

impl CubeState {
    /// The state invariant: within capacity and freely reduced.
    pub open spec fn wf(self) -> bool {
        self@.len() <= STATE_CAPACITY && reduced(self@)
    }

    /// The empty proxy: the solved state.
    pub fn empty() -> (r: CubeState)
        ensures
            r@ == Seq::<Move>::empty(),
            r.wf(),
    {
        let r = CubeState { entries: Vec::new() };
        proof {
            assert(r@ =~= Seq::<Move>::empty());
        }
        r
    }

    /// An identical copy of this state.
    pub fn duplicate(&self) -> (r: CubeState)
        ensures
            r@ == self@,
    {
        let mut entries: Vec<Move> = Vec::new();
        let n = self.entries.len();
        let mut i: usize = 0;
        while i < n
            invariant
                i <= n,
                n == self@.len(),
                entries@ == self@.subrange(0, i as int),
            decreases n - i,
        {
            entries.push(self.entries[i]);
            proof {
                assert(entries@ =~= self@.subrange(0, i + 1 as int));
            }
            i = i + 1;
        }
        proof {
            assert(self@.subrange(0, n as int) =~= self@);
        }
        CubeState { entries }
    }

    /// Folds one move into the proxy by free reduction.
    #[verifier::spinoff_prover]
    #[verifier::rlimit(100)]
    pub fn apply_move(self, m: Move) -> (r: CubeState)
        requires
            self.wf(),
            !m.is_identity(),
            self@.len() < STATE_CAPACITY,
        ensures
            r@ == apply_move_spec(self@, m),
            r@.len() <= self@.len() + 1,
            r.wf(),
    {
        let ghost s = self@;
        proof {
            lemma_apply_move_reduced(s, m);
        }
        let mut entries = self.entries;
        let n = entries.len();
        if n > 0 {
            let last = entries[n - 1];
            if last.axis == m.axis {
                let merged = last.compose(m);
                entries.pop();
                proof {
                    assert(entries@ =~= s.drop_last());
                }
                if !merged.is_ident() {
                    entries.push(merged);
                    proof {
                        assert(entries@ =~= s.drop_last().push(merged));
                    }
                }
                return CubeState { entries };
            }
        }
        entries.push(m);
        proof {
            assert(entries@ =~= s.push(m));
        }
        CubeState { entries }
    }

    /// Appends a move without reduction.
    pub fn push(self, m: Move) -> (r: CubeState)
        requires
            self@.len() < STATE_CAPACITY,
        ensures
            r@ == self@.push(m),
    {
        let mut entries = self.entries;
        entries.push(m);
        CubeState { entries }
    }

    /// Removes the last entry; leaves an empty state unchanged.
    pub fn pop(self) -> (r: CubeState)
        ensures
            self@.len() > 0 ==> r@ == self@.drop_last(),
            self@.len() == 0 ==> r@ == self@,
    {
        let mut entries = self.entries;
        if entries.len() > 0 {
            entries.pop();
            proof {
                assert(entries@ =~= self@.drop_last());
            }
        }
        CubeState { entries }
    }

    /// A mutable borrow of the last entry, if any.
    pub fn last_mut(&mut self) -> (r: Option<&mut Move>)
        ensures
            old(self)@.len() == 0 ==> r is None && final(self)@ == old(self)@,
            old(self)@.len() > 0 ==> match r {
                Some(m) => *m == old(self)@.last() && final(self)@ == old(self)@.update(
                    old(self)@.len() - 1,
                    *final(m),
                ),
                None => false,
            },
    {
        let n = self.entries.len();
        if n > 0 {
            Some(&mut self.entries[n - 1])
        } else {
            None
        }
    }

    /// The last entry, if any.
    pub fn last(&self) -> (r: Option<Move>)
        ensures
            self@.len() > 0 ==> r == Some(self@.last()),
            self@.len() == 0 ==> r is None,
    {
        let n = self.entries.len();
        if n > 0 {
            Some(self.entries[n - 1])
        } else {
            None
        }
    }

    /// Whether the residue is empty: every move cancelled out.
    pub fn is_solved(&self) -> (r: bool)
        ensures
            r == (self@.len() == 0),
    {
        self.entries.len() == 0
    }

    /// Whether exactly one entry remains and it takes a single physical
    /// turn.
    pub fn is_one_from_solved(&self) -> (r: bool)
        ensures
            r == (self@.len() == 1 && !self@[0].is_double()),
    {
        self.entries.len() == 1 && !self.entries[0].is_double_move()
    }

    /// An admissible lower bound on the physical turns still needed: the
    /// sum over entries of 1, or 2 for an entry turning both faces.
    pub fn lower_bound(&self) -> (r: u8)
        requires
            self.wf(),
        ensures
            r as nat == lower_bound_spec(self@),
    {
        let n = self.entries.len();
        let mut sum: u8 = 0;
        let mut i: usize = 0;
        while i < n
            invariant
                i <= n,
                n == self@.len(),
                n <= STATE_CAPACITY,
                sum as nat == lower_bound_spec(self@.subrange(0, i as int)),
                sum <= 2 * i,
            decreases n - i,
        {
            proof {
                assert(self@.subrange(0, i + 1 as int).drop_last() =~= self@.subrange(
                    0,
                    i as int,
                ));
                assert(self@.subrange(0, i + 1 as int).last() == self@[i as int]);
            }
            if self.entries[i].is_double_move() {
                sum = sum + 2;
            } else {
                sum = sum + 1;
            }
            i = i + 1;
        }
        proof {
            assert(self@.subrange(0, n as int) =~= self@);
        }
        sum
    }
}

/// Composing a move with another on the same axis and then with that
/// other's inverse gives the move back.
proof fn lemma_compose_then_invert(a: Move, m: Move)
    requires
        a.axis == m.axis,
    ensures
        a.spec_compose(m).spec_compose(m.spec_invert()) == a,
{
    crate::moves::lemma_compose_assoc(a, m, m.spec_invert());
    crate::moves::lemma_compose_invert(m);
    crate::moves::lemma_compose_identity(a, m.spec_compose(m.spec_invert()));
}

/// Applying a non-identity move and then its inverse restores the prior
/// reduced state.
#[verifier::spinoff_prover]
#[verifier::rlimit(100)]
pub proof fn lemma_apply_cancel(s: Seq<Move>, m: Move)
    requires
        reduced(s),
        !m.is_identity(),
    ensures
        apply_move_spec(apply_move_spec(s, m), m.spec_invert()) == s,
{
    let mi = m.spec_invert();
    if s.len() > 0 && s.last().axis == m.axis {
        let merged = s.last().spec_compose(m);
        lemma_compose_then_invert(s.last(), m);
        if merged.is_identity() {
            // The move cancelled the last entry, so its inverse must equal
            // that entry, and pushing it back restores the sequence.
            let t = s.drop_last();
            assert(apply_move_spec(s, m) == t);
            crate::moves::lemma_compose_identity(mi, merged);
            assert(mi == s.last());
            if t.len() > 0 {
                assert(t.last() == s[s.len() - 2]);
                assert(t.last().axis != m.axis);
            }
            assert(apply_move_spec(t, mi) == t.push(mi));
            assert(t.push(mi) =~= s);
        } else {
            let t = s.drop_last().push(merged);
            assert(apply_move_spec(s, m) == t);
            assert(t.last() == merged);
            assert(merged.spec_compose(mi) == s.last());
            assert(!s.last().is_identity());
            assert(apply_move_spec(t, mi) == t.drop_last().push(s.last()));
            assert(t.drop_last() =~= s.drop_last());
            assert(s.drop_last().push(s.last()) =~= s);
        }
    } else {
        let t = s.push(m);
        assert(apply_move_spec(s, m) == t);
        assert(t.last() == m);
        crate::moves::lemma_compose_invert(m);
        assert(apply_move_spec(t, mi) == t.drop_last());
        assert(t.drop_last() =~= s);
    }
}

/// Dropping the last entry keeps a sequence reduced.
proof fn lemma_reduced_drop(s: Seq<Move>)
    requires
        reduced(s),
        s.len() > 0,
    ensures
        reduced(s.drop_last()),
{
    let t = s.drop_last();
    assert forall|i: int| 0 <= i < t.len() implies !(#[trigger] t[i]).is_identity() by {
        assert(t[i] == s[i]);
    }
    assert forall|i: int, j: int| 0 <= i && j == i + 1 && j < t.len() implies (
    #[trigger] t[i]).axis != (#[trigger] t[j]).axis by {
        assert(t[i] == s[i]);
        assert(t[j] == s[j]);
    }
}

/// Replacing the last entry by a non-identity move on the same axis keeps a
/// sequence reduced.
proof fn lemma_reduced_replace_last(s: Seq<Move>, c: Move)
    requires
        reduced(s),
        s.len() > 0,
        !c.is_identity(),
        c.axis == s.last().axis,
    ensures
        reduced(s.drop_last().push(c)),
{
    let t = s.update(s.len() - 1, c);
    assert forall|i: int| 0 <= i < t.len() implies !(#[trigger] t[i]).is_identity() by {
        if i < t.len() - 1 {
            assert(t[i] == s[i]);
        } else {
            assert(t[i] == c);
        }
    }
    assert forall|i: int, j: int| 0 <= i && j == i + 1 && j < t.len() implies (
    #[trigger] t[i]).axis != (#[trigger] t[j]).axis by {
        assert(t[i] == s[i]);
        if j < t.len() - 1 {
            assert(t[j] == s[j]);
        } else {
            assert(t[j] == c);
            assert(s[i].axis != s[j].axis);
        }
    }
    assert(s.drop_last().push(c) =~= t);
}

/// Appending a non-identity move on a fresh axis keeps a sequence reduced.
proof fn lemma_reduced_append(s: Seq<Move>, m: Move)
    requires
        reduced(s),
        !m.is_identity(),
        s.len() > 0 ==> s.last().axis != m.axis,
    ensures
        reduced(s.push(m)),
{
    let t = s.push(m);
    assert forall|i: int| 0 <= i < t.len() implies !(#[trigger] t[i]).is_identity() by {
        if i < t.len() - 1 {
            assert(t[i] == s[i]);
        } else {
            assert(t[i] == m);
        }
    }
    assert forall|i: int, j: int| 0 <= i && j == i + 1 && j < t.len() implies (
    #[trigger] t[i]).axis != (#[trigger] t[j]).axis by {
        assert(t[i] == s[i]);
        if j < t.len() - 1 {
            assert(t[j] == s[j]);
        } else {
            assert(t[j] == m);
        }
    }
}

/// Free reduction keeps the state invariant.
#[verifier::spinoff_prover]
#[verifier::rlimit(100)]
pub proof fn lemma_apply_move_reduced(s: Seq<Move>, m: Move)
    requires
        reduced(s),
        !m.is_identity(),
    ensures
        reduced(apply_move_spec(s, m)),
        apply_move_spec(s, m).len() <= s.len() + 1,
{
    if s.len() > 0 && s.last().axis == m.axis {
        let merged = s.last().spec_compose(m);
        if merged.is_identity() {
            lemma_reduced_drop(s);
        } else {
            lemma_reduced_replace_last(s, merged);
        }
    } else {
        lemma_reduced_append(s, m);
    }
}

/// One single-turn move lowers the admissible bound by at most one: free
/// reduction can cancel at most one physical turn per physical turn spent.
#[verifier::spinoff_prover]
#[verifier::rlimit(100)]
pub proof fn lemma_apply_move_lower_bound(s: Seq<Move>, m: Move)
    requires
        reduced(s),
        !m.is_identity(),
        !m.is_double(),
    ensures
        lower_bound_spec(apply_move_spec(s, m)) + 1 >= lower_bound_spec(s),
{
    let r = apply_move_spec(s, m);
    if s.len() > 0 && s.last().axis == m.axis {
        let merged = s.last().spec_compose(m);
        assert(lower_bound_spec(s) == lower_bound_spec(s.drop_last()) + (
        if s.last().is_double() {
            2nat
        } else {
            1nat
        }));
        if merged.is_identity() {
            // Both fields of the merged move are zero; since `m` turns only
            // one face, the cancelled entry turned only one face as well.
            assert(!s.last().is_double());
        } else {
            assert(r.drop_last() =~= s.drop_last());
            assert(r.last() == merged);
            // A single-turn move changes one field of the last entry, so the
            // merged entry keeps at least one of two non-zero fields.
            if s.last().is_double() {
                assert(!merged.is_identity());
            }
        }
    } else {
        assert(r.drop_last() =~= s);
    }
}

} // verus!
