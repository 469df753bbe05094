//! The reorientation catalog: the 24 named whole-object rotations, each with
//! its orientation value, its display text in two interchangeable notations,
//! and its physical execution cost.
//!
//! The catalog covers the full rotation group of the cube: the identity, six
//! face quarter rotations, three face half rotations, six edge-axis half
//! rotations, and eight corner-axis third rotations.

use vstd::prelude::*;
use crate::moves::Axis;
use crate::orientation::Orientation;

verus! {

/// A named whole-object rotation. `Ident` is the trivial reorientation; the
/// others are named by the face, edge or corner their rotation axis passes
/// through.
#[derive(Debug, Copy, Clone, PartialEq, Eq, Structural, Hash)]
pub enum Reorient {
    Ident,
    R,
    L,
    U,
    D,
    F,
    B,
    R2,
    U2,
    F2,
    UF,
    UR,
    FR,
    DF,
    UL,
    BR,
    UFR,
    DBL,
    UFL,
    DBR,
    DFR,
    UBL,
    UBR,
    DFL,
}

impl Reorient {
    /// The orientation this reorientation puts the puzzle in, starting from
    /// the identity orientation.
    pub open spec fn spec_orientation(self) -> Orientation {
        match self {
            Reorient::Ident => ori(Axis::X, false, Axis::Y, false, false),
            Reorient::R => ori(Axis::X, false, Axis::Z, true, false),
            Reorient::L => ori(Axis::X, false, Axis::Z, false, true),
            Reorient::U => ori(Axis::Z, false, Axis::Y, false, true),
            Reorient::D => ori(Axis::Z, true, Axis::Y, false, false),
            Reorient::F => ori(Axis::Y, true, Axis::X, false, false),
            Reorient::B => ori(Axis::Y, false, Axis::X, true, false),
            Reorient::R2 => ori(Axis::X, false, Axis::Y, true, true),
            Reorient::U2 => ori(Axis::X, true, Axis::Y, false, true),
            Reorient::F2 => ori(Axis::X, true, Axis::Y, true, false),
            Reorient::UF => ori(Axis::X, true, Axis::Z, false, false),
            Reorient::UR => ori(Axis::Y, false, Axis::X, false, true),
            Reorient::FR => ori(Axis::Z, false, Axis::Y, true, false),
            Reorient::DF => ori(Axis::X, true, Axis::Z, true, true),
            Reorient::UL => ori(Axis::Y, true, Axis::X, true, true),
            Reorient::BR => ori(Axis::Z, true, Axis::Y, true, true),
            Reorient::UFR => ori(Axis::Z, false, Axis::X, false, false),
            Reorient::DBL => ori(Axis::Y, false, Axis::Z, false, false),
            Reorient::UFL => ori(Axis::Y, true, Axis::Z, false, true),
            Reorient::DBR => ori(Axis::Z, true, Axis::X, false, true),
            Reorient::DFR => ori(Axis::Y, true, Axis::Z, true, false),
            Reorient::UBL => ori(Axis::Z, true, Axis::X, true, false),
            Reorient::UBR => ori(Axis::Y, false, Axis::Z, true, true),
            Reorient::DFL => ori(Axis::Z, false, Axis::X, true, true),
        }
    }

    /// This reorientation's position in catalog order, in 0..24.
    pub open spec fn spec_ordinal(self) -> u32 {
        match self {
            Reorient::Ident => 0,
            Reorient::R => 1,
            Reorient::L => 2,
            Reorient::U => 3,
            Reorient::D => 4,
            Reorient::F => 5,
            Reorient::B => 6,
            Reorient::R2 => 7,
            Reorient::U2 => 8,
            Reorient::F2 => 9,
            Reorient::UF => 10,
            Reorient::UR => 11,
            Reorient::FR => 12,
            Reorient::DF => 13,
            Reorient::UL => 14,
            Reorient::BR => 15,
            Reorient::UFR => 16,
            Reorient::DBL => 17,
            Reorient::UFL => 18,
            Reorient::DBR => 19,
            Reorient::DFR => 20,
            Reorient::UBL => 21,
            Reorient::UBR => 22,
            Reorient::DFL => 23,
        }
    }

    /// The catalog entry at position `i`, in catalog order.
    pub open spec fn spec_from_ordinal(i: int) -> Reorient {
        if i == 0 {
            Reorient::Ident
        } else if i == 1 {
            Reorient::R
        } else if i == 2 {
            Reorient::L
        } else if i == 3 {
            Reorient::U
        } else if i == 4 {
            Reorient::D
        } else if i == 5 {
            Reorient::F
        } else if i == 6 {
            Reorient::B
        } else if i == 7 {
            Reorient::R2
        } else if i == 8 {
            Reorient::U2
        } else if i == 9 {
            Reorient::F2
        } else if i == 10 {
            Reorient::UF
        } else if i == 11 {
            Reorient::UR
        } else if i == 12 {
            Reorient::FR
        } else if i == 13 {
            Reorient::DF
        } else if i == 14 {
            Reorient::UL
        } else if i == 15 {
            Reorient::BR
        } else if i == 16 {
            Reorient::UFR
        } else if i == 17 {
            Reorient::DBL
        } else if i == 18 {
            Reorient::UFL
        } else if i == 19 {
            Reorient::DBR
        } else if i == 20 {
            Reorient::DFR
        } else if i == 21 {
            Reorient::UBL
        } else if i == 22 {
            Reorient::UBR
        } else {
            Reorient::DFL
        }
    }

    /// The physical cost of this reorientation before any cheap-set
    /// override: 0 for the identity, 1 for a face quarter rotation, 2 for a
    /// face half rotation, 3 for an edge-axis rotation, 2 for a corner-axis
    /// rotation.
    pub open spec fn spec_base_cost(self) -> usize {
        match self {
            Reorient::Ident => 0,
            Reorient::R | Reorient::L | Reorient::U | Reorient::D | Reorient::F
                | Reorient::B => 1,
            Reorient::R2 | Reorient::U2 | Reorient::F2 => 2,
            Reorient::UF | Reorient::UR | Reorient::FR | Reorient::DF | Reorient::UL
                | Reorient::BR => 3,
            Reorient::UFR | Reorient::DBL | Reorient::UFL | Reorient::DBR | Reorient::DFR
                | Reorient::UBL | Reorient::UBR | Reorient::DFL => 2,
        }
    }

    /// The cost of this reorientation: overridden to 1 when its bit is set
    /// in the cheap set, except for the identity, which is always free.
    pub open spec fn spec_cost(self, cheap_mask: u32) -> usize {
        if self != Reorient::Ident && (cheap_mask >> self.spec_ordinal()) & 1 == 1 {
            1
        } else {
            self.spec_base_cost()
        }
    }

    /// Computes the orientation of this reorientation.
    pub fn orientation(self) -> (r: Orientation)
        ensures
            r == self.spec_orientation(),
            r.wf(),
    {
        match self {
            Reorient::Ident => build_ori(Axis::X, false, Axis::Y, false, false),
            Reorient::R => build_ori(Axis::X, false, Axis::Z, true, false),
            Reorient::L => build_ori(Axis::X, false, Axis::Z, false, true),
            Reorient::U => build_ori(Axis::Z, false, Axis::Y, false, true),
            Reorient::D => build_ori(Axis::Z, true, Axis::Y, false, false),
            Reorient::F => build_ori(Axis::Y, true, Axis::X, false, false),
            Reorient::B => build_ori(Axis::Y, false, Axis::X, true, false),
            Reorient::R2 => build_ori(Axis::X, false, Axis::Y, true, true),
            Reorient::U2 => build_ori(Axis::X, true, Axis::Y, false, true),
            Reorient::F2 => build_ori(Axis::X, true, Axis::Y, true, false),
            Reorient::UF => build_ori(Axis::X, true, Axis::Z, false, false),
            Reorient::UR => build_ori(Axis::Y, false, Axis::X, false, true),
            Reorient::FR => build_ori(Axis::Z, false, Axis::Y, true, false),
            Reorient::DF => build_ori(Axis::X, true, Axis::Z, true, true),
            Reorient::UL => build_ori(Axis::Y, true, Axis::X, true, true),
            Reorient::BR => build_ori(Axis::Z, true, Axis::Y, true, true),
            Reorient::UFR => build_ori(Axis::Z, false, Axis::X, false, false),
            Reorient::DBL => build_ori(Axis::Y, false, Axis::Z, false, false),
            Reorient::UFL => build_ori(Axis::Y, true, Axis::Z, false, true),
            Reorient::DBR => build_ori(Axis::Z, true, Axis::X, false, true),
            Reorient::DFR => build_ori(Axis::Y, true, Axis::Z, true, false),
            Reorient::UBL => build_ori(Axis::Z, true, Axis::X, true, false),
            Reorient::UBR => build_ori(Axis::Y, false, Axis::Z, true, true),
            Reorient::DFL => build_ori(Axis::Z, false, Axis::X, true, true),
        }
    }

    /// Computes this reorientation's position in catalog order.
    pub fn ordinal(self) -> (n: u32)
        ensures
            n == self.spec_ordinal(),
            n < 24,
    {
        match self {
            Reorient::Ident => 0,
            Reorient::R => 1,
            Reorient::L => 2,
            Reorient::U => 3,
            Reorient::D => 4,
            Reorient::F => 5,
            Reorient::B => 6,
            Reorient::R2 => 7,
            Reorient::U2 => 8,
            Reorient::F2 => 9,
            Reorient::UF => 10,
            Reorient::UR => 11,
            Reorient::FR => 12,
            Reorient::DF => 13,
            Reorient::UL => 14,
            Reorient::BR => 15,
            Reorient::UFR => 16,
            Reorient::DBL => 17,
            Reorient::UFL => 18,
            Reorient::DBR => 19,
            Reorient::DFR => 20,
            Reorient::UBL => 21,
            Reorient::UBR => 22,
            Reorient::DFL => 23,
        }
    }

    /// Looks up the catalog entry at position `i`.
    pub fn from_ordinal(i: usize) -> (r: Reorient)
        requires
            i < 24,
        ensures
            r == Reorient::spec_from_ordinal(i as int),
            r.spec_ordinal() == i,
    {
        if i == 0 {
            Reorient::Ident
        } else if i == 1 {
            Reorient::R
        } else if i == 2 {
            Reorient::L
        } else if i == 3 {
            Reorient::U
        } else if i == 4 {
            Reorient::D
        } else if i == 5 {
            Reorient::F
        } else if i == 6 {
            Reorient::B
        } else if i == 7 {
            Reorient::R2
        } else if i == 8 {
            Reorient::U2
        } else if i == 9 {
            Reorient::F2
        } else if i == 10 {
            Reorient::UF
        } else if i == 11 {
            Reorient::UR
        } else if i == 12 {
            Reorient::FR
        } else if i == 13 {
            Reorient::DF
        } else if i == 14 {
            Reorient::UL
        } else if i == 15 {
            Reorient::BR
        } else if i == 16 {
            Reorient::UFR
        } else if i == 17 {
            Reorient::DBL
        } else if i == 18 {
            Reorient::UFL
        } else if i == 19 {
            Reorient::DBR
        } else if i == 20 {
            Reorient::DFR
        } else if i == 21 {
            Reorient::UBL
        } else if i == 22 {
            Reorient::UBR
        } else {
            Reorient::DFL
        }
    }

    /// Computes this reorientation's cost under a cheap-set override mask.
    pub fn cost(self, cheap_mask: u32) -> (c: usize)
        ensures
            c == self.spec_cost(cheap_mask),
    {
        let n: u32 = self.ordinal();
        if !self.is_none() && (cheap_mask >> n) & 1 == 1 {
            return 1;
        }
        match self {
            Reorient::Ident => 0,
            Reorient::R | Reorient::L | Reorient::U | Reorient::D | Reorient::F
                | Reorient::B => 1,
            Reorient::R2 | Reorient::U2 | Reorient::F2 => 2,
            Reorient::UF | Reorient::UR | Reorient::FR | Reorient::DF | Reorient::UL
                | Reorient::BR => 3,
            Reorient::UFR | Reorient::DBL | Reorient::UFL | Reorient::DBR | Reorient::DFR
                | Reorient::UBL | Reorient::UBR | Reorient::DFL => 2,
        }
    }

    /// Whether this is the trivial reorientation.
    pub fn is_none(self) -> (r: bool)
        ensures
            r == (self == Reorient::Ident),
    {
        matches!(self, Reorient::Ident)
    }
}

/// Shorthand for an orientation value in the catalog table.
pub open spec fn ori(x_to: Axis, x_flip: bool, y_to: Axis, y_flip: bool, z_flip: bool)
    -> Orientation {
    Orientation { x_to, x_flip, y_to, y_flip, z_flip }
}

/// Builds an orientation value for the catalog table.
fn build_ori(x_to: Axis, x_flip: bool, y_to: Axis, y_flip: bool, z_flip: bool)
    -> (r: Orientation)
    ensures
        r == ori(x_to, x_flip, y_to, y_flip, z_flip),
{
    Orientation { x_to, x_flip, y_to, y_flip, z_flip }
}

/// Whether the axis permutation of `o` is even, that is, a rotation of the
/// three axes rather than a swap of two.
pub open spec fn perm_even(o: Orientation) -> bool {
    (o.x_to == Axis::X && o.y_to == Axis::Y) || (o.x_to == Axis::Y && o.y_to == Axis::Z)
        || (o.x_to == Axis::Z && o.y_to == Axis::X)
}

/// Whether an even number of sign flags is set.
pub open spec fn flips_even(o: Orientation) -> bool {
    !(o.x_flip ^ o.y_flip ^ o.z_flip)
}

/// Whether `o` is a proper rotation: a well-formed signed permutation whose
/// determinant is positive, that is, whose permutation parity matches its
/// sign-flag parity.
pub open spec fn is_rotation(o: Orientation) -> bool {
    o.wf() && (perm_even(o) <==> flips_even(o))
}

/// Every catalog entry is a proper rotation.
pub proof fn lemma_catalog_rotation(r: Reorient)
    ensures
        is_rotation(r.spec_orientation()),
{
}

/// Proper rotations are closed under composition.
pub proof fn lemma_rotation_closed(o1: Orientation, o2: Orientation)
    requires
        is_rotation(o1),
        is_rotation(o2),
    ensures
        is_rotation(o1.spec_compose(o2)),
{
}

/// Every proper rotation is a catalog entry.
pub proof fn lemma_rotation_in_catalog(o: Orientation)
    requires
        is_rotation(o),
    ensures
        exists|r: Reorient| o == #[trigger] r.spec_orientation(),
{
    if o.x_to == Axis::X && o.y_to == Axis::Y {
        if !o.x_flip && !o.y_flip {
            assert(o == Reorient::Ident.spec_orientation());
        } else if o.x_flip && o.y_flip {
            assert(o == Reorient::F2.spec_orientation());
        } else if o.x_flip {
            assert(o == Reorient::U2.spec_orientation());
        } else {
            assert(o == Reorient::R2.spec_orientation());
        }
    } else if o.x_to == Axis::X && o.y_to == Axis::Z {
        if !o.x_flip && o.y_flip {
            assert(o == Reorient::R.spec_orientation());
        } else if !o.x_flip && !o.y_flip {
            assert(o == Reorient::L.spec_orientation());
        } else if o.x_flip && !o.y_flip {
            assert(o == Reorient::UF.spec_orientation());
        } else {
            assert(o == Reorient::DF.spec_orientation());
        }
    } else if o.x_to == Axis::Z && o.y_to == Axis::Y {
        if !o.x_flip && !o.y_flip {
            assert(o == Reorient::U.spec_orientation());
        } else if o.x_flip && !o.y_flip {
            assert(o == Reorient::D.spec_orientation());
        } else if !o.x_flip && o.y_flip {
            assert(o == Reorient::FR.spec_orientation());
        } else {
            assert(o == Reorient::BR.spec_orientation());
        }
    } else if o.x_to == Axis::Y && o.y_to == Axis::X {
        if o.x_flip && !o.y_flip {
            assert(o == Reorient::F.spec_orientation());
        } else if !o.x_flip && o.y_flip {
            assert(o == Reorient::B.spec_orientation());
        } else if !o.x_flip && !o.y_flip {
            assert(o == Reorient::UR.spec_orientation());
        } else {
            assert(o == Reorient::UL.spec_orientation());
        }
    } else if o.x_to == Axis::Y && o.y_to == Axis::Z {
        if !o.x_flip && !o.y_flip {
            assert(o == Reorient::DBL.spec_orientation());
        } else if o.x_flip && !o.y_flip {
            assert(o == Reorient::UFL.spec_orientation());
        } else if o.x_flip && o.y_flip {
            assert(o == Reorient::DFR.spec_orientation());
        } else {
            assert(o == Reorient::UBR.spec_orientation());
        }
    } else {
        if !o.x_flip && !o.y_flip {
            assert(o == Reorient::UFR.spec_orientation());
        } else if o.x_flip && !o.y_flip {
            assert(o == Reorient::DBR.spec_orientation());
        } else if o.x_flip && o.y_flip {
            assert(o == Reorient::UBL.spec_orientation());
        } else {
            assert(o == Reorient::DFL.spec_orientation());
        }
    }
}

/// The catalog names each orientation at most once.
pub proof fn lemma_catalog_injective(r1: Reorient, r2: Reorient)
    requires
        r1 != r2,
    ensures
        r1.spec_orientation() != r2.spec_orientation(),
{
}

/// Composing any two catalog orientations lands on exactly one catalog
/// orientation: the group of 24 is closed.
pub proof fn lemma_reorient_closure(a: Reorient, b: Reorient)
    ensures
        exists|c: Reorient|
            a.spec_orientation().spec_compose(b.spec_orientation())
                == #[trigger] c.spec_orientation(),
{
    lemma_catalog_rotation(a);
    lemma_catalog_rotation(b);
    lemma_rotation_closed(a.spec_orientation(), b.spec_orientation());
    lemma_rotation_in_catalog(a.spec_orientation().spec_compose(b.spec_orientation()));
}

} // verus!
