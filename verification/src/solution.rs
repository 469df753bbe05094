//! The solution record: the non-identity reorientation insertions chosen
//! along one search path, each tagged with the move index it is inserted
//! before. A record expands on demand into a dense per-position sequence of
//! optional reorientations aligned with the original move list.

use vstd::prelude::*;
use vstd::pervasive::VecAdditionalExecFns;
use crate::reorient::Reorient;

verus! {

/// Appends `(index, reorient)` unless the reorientation is trivial.
pub open spec fn push_if_spec(s: Seq<(u8, Reorient)>, reorient: Reorient, index: u8) -> Seq<
    (u8, Reorient),
> {
    if reorient == Reorient::Ident {
        s
    } else {
        s.push((index, reorient))
    }
}

/// The dense expansion of a record over `movecount` positions: no
/// reorientation anywhere, overwritten at each recorded index in order.
pub open spec fn expand_spec(s: Seq<(u8, Reorient)>, movecount: nat) -> Seq<Option<Reorient>>
    decreases s.len(),
{
    if s.len() == 0 {
        Seq::new(movecount, |i: int| None)
    } else {
        expand_spec(s.drop_last(), movecount).update(s.last().0 as int, Some(s.last().1))
    }
}

/// The total cost of the recorded reorientations under a cheap-set mask.
pub open spec fn cost_spec(s: Seq<(u8, Reorient)>, cheap_mask: u32) -> nat
    decreases s.len(),
{
    if s.len() == 0 {
        0
    } else {
        cost_spec(s.drop_last(), cheap_mask) + s.last().1.spec_cost(cheap_mask) as nat
    }
}

/// The reorientations inserted between moves along one search path.
#[derive(Debug)]
pub struct Solution {
    pub entries: Vec<(u8, Reorient)>,
}

impl View for Solution {
    type V = Seq<(u8, Reorient)>;

    open spec fn view(&self) -> Seq<(u8, Reorient)> {
        self.entries@
    }
}

impl Solution {
    /// The empty record.
    pub fn empty() -> (r: Solution)
        ensures
            r@ == Seq::<(u8, Reorient)>::empty(),
    {
        let r = Solution { entries: Vec::new() };
        proof {
            assert(r@ =~= Seq::<(u8, Reorient)>::empty());
        }
        r
    }

    /// An identical copy of this record.
    pub fn duplicate(&self) -> (r: Solution)
        ensures
            r@ == self@,
    {
        let mut entries: Vec<(u8, Reorient)> = Vec::new();
        let n = self.entries.len();
        let mut i: usize = 0;
        while i < n
            invariant
                i <= n,
                n == self@.len(),
                entries@ == self@.subrange(0, i as int),
            decreases n - i,
        {
            let (index, reorient) = self.entries[i];
            entries.push((index, reorient));
            proof {
                assert(entries@ =~= self@.subrange(0, i + 1 as int));
            }
            i = i + 1;
        }
        proof {
            assert(self@.subrange(0, n as int) =~= self@);
        }
        Solution { entries }
    }

    /// Records a reorientation at `index` unless it is the trivial one.
    pub fn push_if_not_ident(self, reorient: Reorient, index: u8) -> (r: Solution)
        ensures
            r@ == push_if_spec(self@, reorient, index),
    {
        let mut entries = self.entries;
        if !reorient.is_none() {
            entries.push((index, reorient));
        }
        Solution { entries }
    }

    /// Removes the most recent entry; leaves an empty record unchanged.
    pub fn pop(self) -> (r: Solution)
        ensures
            self@.len() > 0 ==> r@ == self@.drop_last(),
            self@.len() == 0 ==> r@ == self@,
    {
        let mut entries = self.entries;
        if entries.len() > 0 {
            entries.pop();
            proof {
                assert(entries@ =~= self@.drop_last());
            }
        }
        Solution { entries }
    }

    /// Expands the record into one optional reorientation per move
    /// position.
    pub fn reorients(&self, movecount: usize) -> (r: Vec<Option<Reorient>>)
        requires
            forall|i: int| 0 <= i < self@.len() ==> (#[trigger] self@[i]).0 < movecount,
        ensures
            r@ == expand_spec(self@, movecount as nat),
    {
        let mut r: Vec<Option<Reorient>> = Vec::new();
        let mut i: usize = 0;
        while i < movecount
            invariant
                i <= movecount,
                r@.len() == i,
                forall|j: int| 0 <= j < i ==> (#[trigger] r@[j]) is None,
            decreases movecount - i,
        {
            r.push(None);
            i = i + 1;
        }
        proof {
            assert(r@ =~= expand_spec(self@.subrange(0, 0), movecount as nat));
        }
        let n = self.entries.len();
        let mut k: usize = 0;
        while k < n
            invariant
                k <= n,
                n == self@.len(),
                forall|i: int| 0 <= i < self@.len() ==> (#[trigger] self@[i]).0 < movecount,
                r@.len() == movecount,
                r@ == expand_spec(self@.subrange(0, k as int), movecount as nat),
            decreases n - k,
        {
            let (index, reorient) = self.entries[k];
            r.set(index as usize, Some(reorient));
            proof {
                let pre = self@.subrange(0, k as int);
                let post = self@.subrange(0, k + 1 as int);
                assert(post.drop_last() =~= pre);
                assert(post.last() == self@[k as int]);
            }
            k = k + 1;
        }
        proof {
            assert(self@.subrange(0, n as int) =~= self@);
        }
        r
    }

    /// Sums the costs of the recorded reorientations.
    pub fn cost(&self, cheap_mask: u32) -> (c: usize)
        requires
            cost_spec(self@, cheap_mask) <= usize::MAX,
        ensures
            c as nat == cost_spec(self@, cheap_mask),
    {
        let n = self.entries.len();
        let mut c: usize = 0;
        let mut i: usize = 0;
        while i < n
            invariant
                i <= n,
                n == self@.len(),
                cost_spec(self@, cheap_mask) <= usize::MAX,
                c as nat == cost_spec(self@.subrange(0, i as int), cheap_mask),
            decreases n - i,
        {
            proof {
                let pre = self@.subrange(0, i as int);
                let post = self@.subrange(0, i + 1 as int);
                assert(post.drop_last() =~= pre);
                assert(post.last() == self@[i as int]);
                lemma_cost_prefix(self@, i + 1, cheap_mask);
            }
            let (_, reorient) = self.entries[i];
            c = c + reorient.cost(cheap_mask);
            i = i + 1;
        }
        proof {
            assert(self@.subrange(0, n as int) =~= self@);
        }
        c
    }
}

/// A record whose indices lie in range expands to exactly one optional
/// reorientation per position.
pub proof fn lemma_expand_len(s: Seq<(u8, Reorient)>, movecount: nat)
    requires
        forall|i: int| 0 <= i < s.len() ==> (#[trigger] s[i]).0 < movecount,
    ensures
        expand_spec(s, movecount).len() == movecount,
    decreases s.len(),
{
    if s.len() > 0 {
        assert forall|i: int| 0 <= i < s.drop_last().len() implies (#[trigger] s.drop_last()[
            i
        ]).0 < movecount by {
            assert(s.drop_last()[i] == s[i]);
        }
        lemma_expand_len(s.drop_last(), movecount);
        assert(s.last() == s[s.len() - 1]);
    }
}

/// The cost of a prefix of a record never exceeds the cost of the whole.
pub proof fn lemma_cost_prefix(s: Seq<(u8, Reorient)>, i: int, cheap_mask: u32)
    requires
        0 <= i <= s.len(),
    ensures
        cost_spec(s.subrange(0, i), cheap_mask) <= cost_spec(s, cheap_mask),
    decreases s.len() - i,
{
    if i == s.len() {
        assert(s.subrange(0, i) =~= s);
    } else {
        lemma_cost_prefix(s, i + 1, cheap_mask);
        assert(s.subrange(0, i + 1).drop_last() =~= s.subrange(0, i));
    }
}

/// A record's cost is at most three physical turns per entry.
pub proof fn lemma_cost_linear(s: Seq<(u8, Reorient)>, cheap_mask: u32)
    ensures
        cost_spec(s, cheap_mask) <= 3 * s.len(),
    decreases s.len(),
{
    if s.len() > 0 {
        lemma_cost_linear(s.drop_last(), cheap_mask);
    }
}

} // verus!
