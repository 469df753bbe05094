//! The move algebra: face turns on one of three orthogonal axes, with a
//! signed turn amount on each of the axis's two opposite faces.
//!
//! Composition is defined only between moves sharing an axis; it adds the
//! two turn-multiple pairs component-wise mod 4.

use vstd::prelude::*;

verus! {

/// One of the three mutually orthogonal turn axes.
#[derive(Debug, Copy, Clone, PartialEq, Eq, Structural)]
pub enum Axis {
    X,
    Y,
    Z,
}

/// A number of quarter turns mod 4: a cyclic group of order 4 under addition.
#[derive(Debug, Copy, Clone, PartialEq, Eq, Structural)]
pub enum TurnMultiple {
    Zero,
    Cw,
    Half,
    Ccw,
}

/// The turn multiple whose numeric value is `n` mod 4.
pub open spec fn tm_of(n: int) -> TurnMultiple {
    if n % 4 == 0 {
        TurnMultiple::Zero
    } else if n % 4 == 1 {
        TurnMultiple::Cw
    } else if n % 4 == 2 {
        TurnMultiple::Half
    } else {
        TurnMultiple::Ccw
    }
}

impl TurnMultiple {
    /// The number of quarter turns this value stands for, in 0..4.
    pub open spec fn val(self) -> int {
        match self {
            TurnMultiple::Zero => 0,
            TurnMultiple::Cw => 1,
            TurnMultiple::Half => 2,
            TurnMultiple::Ccw => 3,
        }
    }

    /// Addition mod 4.
    pub open spec fn spec_add(self, other: TurnMultiple) -> TurnMultiple {
        tm_of(self.val() + other.val())
    }

    /// The additive inverse mod 4.
    pub open spec fn spec_neg(self) -> TurnMultiple {
        tm_of(4 - self.val())
    }

    /// Adds two turn multiples mod 4.
    pub fn add_mod4(self, other: TurnMultiple) -> (r: TurnMultiple)
        ensures
            r == self.spec_add(other),
    {
        let a: u8 = self.as_u8();
        let b: u8 = other.as_u8();
        tm_from_u8((a + b) % 4)
    }

    /// The turn multiple that cancels this one.
    pub fn negate(self) -> (r: TurnMultiple)
        ensures
            r == self.spec_neg(),
    {
        let a: u8 = self.as_u8();
        tm_from_u8((4 - a) % 4)
    }

    /// The numeric value of this turn multiple.
    pub fn as_u8(self) -> (n: u8)
        ensures
            n as int == self.val(),
    {
        match self {
            TurnMultiple::Zero => 0,
            TurnMultiple::Cw => 1,
            TurnMultiple::Half => 2,
            TurnMultiple::Ccw => 3,
        }
    }
}

/// The turn multiple whose numeric value is `n`.
pub fn tm_from_u8(n: u8) -> (t: TurnMultiple)
    requires
        n < 4,
    ensures
        t == tm_of(n as int),
{
    if n == 0 {
        TurnMultiple::Zero
    } else if n == 1 {
        TurnMultiple::Cw
    } else if n == 2 {
        TurnMultiple::Half
    } else {
        TurnMultiple::Ccw
    }
}

/// A face turn: an axis together with a turn multiple for the positive face
/// of that axis and one for the negative (opposite) face.
#[derive(Debug, Copy, Clone, PartialEq, Eq, Structural)]
pub struct Move {
    pub axis: Axis,
    pub positive: TurnMultiple,
    pub negative: TurnMultiple,
}

impl Move {
    /// A move is the identity iff both turn fields are zero.
    pub open spec fn is_identity(self) -> bool {
        self.positive == TurnMultiple::Zero && self.negative == TurnMultiple::Zero
    }

    /// A move requires two physical turns iff both turn fields are non-zero.
    pub open spec fn is_double(self) -> bool {
        self.positive != TurnMultiple::Zero && self.negative != TurnMultiple::Zero
    }

    /// Component-wise addition mod 4 of two moves on the same axis.
    pub open spec fn spec_compose(self, other: Move) -> Move {
        Move {
            axis: self.axis,
            positive: self.positive.spec_add(other.positive),
            negative: self.negative.spec_add(other.negative),
        }
    }

    /// The move that undoes this one: same axis, each field negated.
    pub open spec fn spec_invert(self) -> Move {
        Move {
            axis: self.axis,
            positive: self.positive.spec_neg(),
            negative: self.negative.spec_neg(),
        }
    }

    /// Builds a move from its parts.
    pub fn new(axis: Axis, positive: TurnMultiple, negative: TurnMultiple) -> (m: Move)
        ensures
            m == (Move { axis, positive, negative }),
    {
        Move { axis, positive, negative }
    }

    /// Whether both turn fields are zero.
    pub fn is_ident(self) -> (r: bool)
        ensures
            r == self.is_identity(),
    {
        matches!(self.positive, TurnMultiple::Zero) && matches!(self.negative, TurnMultiple::Zero)
    }

    /// Whether both turn fields are non-zero, so that executing the move
    /// takes two physical turns.
    pub fn is_double_move(self) -> (r: bool)
        ensures
            r == self.is_double(),
    {
        !matches!(self.positive, TurnMultiple::Zero)
            && !matches!(self.negative, TurnMultiple::Zero)
    }

    /// Composes two moves sharing an axis.
    pub fn compose(self, rhs: Move) -> (r: Move)
        requires
            self.axis == rhs.axis,
        ensures
            r == self.spec_compose(rhs),
    {
        Move {
            axis: self.axis,
            positive: self.positive.add_mod4(rhs.positive),
            negative: self.negative.add_mod4(rhs.negative),
        }
    }

    /// The move that undoes this one.
    pub fn invert(self) -> (r: Move)
        ensures
            r == self.spec_invert(),
    {
        Move {
            axis: self.axis,
            positive: self.positive.negate(),
            negative: self.negative.negate(),
        }
    }
}

/// No move in the sequence is the identity.
pub open spec fn all_proper(moves: Seq<Move>) -> bool {
    forall|i: int| 0 <= i < moves.len() ==> !(#[trigger] moves[i]).is_identity()
}

/// Every move in the sequence turns a single face: one of its two turn
/// fields is zero.
pub open spec fn all_single(moves: Seq<Move>) -> bool {
    forall|i: int| 0 <= i < moves.len() ==> !(#[trigger] moves[i]).is_double()
}

/// Addition of turn multiples is associative.
proof fn lemma_tm_add_assoc(a: TurnMultiple, b: TurnMultiple, c: TurnMultiple)
    ensures
        a.spec_add(b).spec_add(c) == a.spec_add(b.spec_add(c)),
{
    let x = a.val();
    let y = b.val();
    let z = c.val();
    assert(((x + y) % 4 + z) % 4 == (x + y + z) % 4) by (nonlinear_arith)
        requires
            0 <= x < 4,
            0 <= y < 4,
            0 <= z < 4,
    ;
    assert((x + (y + z) % 4) % 4 == (x + y + z) % 4) by (nonlinear_arith)
        requires
            0 <= x < 4,
            0 <= y < 4,
            0 <= z < 4,
    ;
    assert(a.spec_add(b).spec_add(c) == tm_of((x + y) % 4 + z));
    assert(a.spec_add(b.spec_add(c)) == tm_of(x + (y + z) % 4));
}

/// Composition of moves on a shared axis is associative.
pub proof fn lemma_compose_assoc(a: Move, b: Move, c: Move)
    requires
        a.axis == b.axis,
        b.axis == c.axis,
    ensures
        a.spec_compose(b).spec_compose(c) == a.spec_compose(b.spec_compose(c)),
{
    lemma_tm_add_assoc(a.positive, b.positive, c.positive);
    lemma_tm_add_assoc(a.negative, b.negative, c.negative);
}

/// The identity move on an axis is neutral for composition, on both sides.
pub proof fn lemma_compose_identity(m: Move, e: Move)
    requires
        e.axis == m.axis,
        e.is_identity(),
    ensures
        m.spec_compose(e) == m,
        e.spec_compose(m) == m,
{
}

/// Composing a move with its inverse yields the identity move on that axis.
pub proof fn lemma_compose_invert(m: Move)
    ensures
        m.spec_compose(m.spec_invert()).is_identity(),
        m.spec_invert().spec_compose(m).is_identity(),
{
}

} // verus!
