//! The orientation algebra: the 24-element rotation group of the puzzle,
//! represented as a signed permutation of the three axes.
//!
//! An orientation stores which physical axis each of X and Y maps to, with a
//! sign flag per axis; Z maps to the axis not used by X or Y. Composition is
//! group multiplication and is non-commutative.

use vstd::prelude::*;
use crate::moves::Axis;
use crate::moves::Move;

verus! {

/// The axis that is neither `a` nor `b`; meaningful when `a != b`.
pub open spec fn third_axis(a: Axis, b: Axis) -> Axis {
    if a != Axis::X && b != Axis::X {
        Axis::X
    } else if a != Axis::Y && b != Axis::Y {
        Axis::Y
    } else {
        Axis::Z
    }
}

/// Computes the axis that is neither `a` nor `b`.
pub fn remaining_axis(a: Axis, b: Axis) -> (r: Axis)
    ensures
        r == third_axis(a, b),
{
    if !matches!(a, Axis::X) && !matches!(b, Axis::X) {
        Axis::X
    } else if !matches!(a, Axis::Y) && !matches!(b, Axis::Y) {
        Axis::Y
    } else {
        Axis::Z
    }
}

/// A signed permutation of the axes. Well-formed values map X and Y to two
/// distinct axes; Z's image is the remaining axis.
#[derive(Debug, Copy, Clone, PartialEq, Eq, Structural)]
pub struct Orientation {
    pub x_to: Axis,
    pub x_flip: bool,
    pub y_to: Axis,
    pub y_flip: bool,
    pub z_flip: bool,
}

impl Orientation {
    /// X and Y map to distinct axes, so the permutation is a bijection.
    pub open spec fn wf(self) -> bool {
        self.x_to != self.y_to
    }

    /// The physical axis that logical axis `a` maps to.
    pub open spec fn image(self, a: Axis) -> Axis {
        match a {
            Axis::X => self.x_to,
            Axis::Y => self.y_to,
            Axis::Z => third_axis(self.x_to, self.y_to),
        }
    }

    /// Whether the sign of axis `a` is flipped by this orientation.
    pub open spec fn flip(self, a: Axis) -> bool {
        match a {
            Axis::X => self.x_flip,
            Axis::Y => self.y_flip,
            Axis::Z => self.z_flip,
        }
    }

    /// The identity orientation: each axis maps to itself, no sign flips.
    pub open spec fn spec_identity() -> Orientation {
        Orientation {
            x_to: Axis::X,
            x_flip: false,
            y_to: Axis::Y,
            y_flip: false,
            z_flip: false,
        }
    }

    /// The move equivalent to `m` after this reorientation: the axis is
    /// remapped, and if the orientation flips that axis's sign, the two
    /// opposite faces trade places.
    pub open spec fn spec_transform_move(self, m: Move) -> Move {
        if self.flip(m.axis) {
            Move { axis: self.image(m.axis), positive: m.negative, negative: m.positive }
        } else {
            Move { axis: self.image(m.axis), positive: m.positive, negative: m.negative }
        }
    }

    /// Group multiplication: the orientation whose effect is `other`
    /// followed by `self`.
    pub open spec fn spec_compose(self, other: Orientation) -> Orientation {
        Orientation {
            x_to: self.image(other.image(Axis::X)),
            x_flip: other.flip(Axis::X) ^ self.flip(other.image(Axis::X)),
            y_to: self.image(other.image(Axis::Y)),
            y_flip: other.flip(Axis::Y) ^ self.flip(other.image(Axis::Y)),
            z_flip: other.flip(Axis::Z) ^ self.flip(other.image(Axis::Z)),
        }
    }

    /// The orientation that undoes this one: it maps each image axis back,
    /// carrying the same sign flag.
    pub open spec fn spec_inverse(self) -> Orientation {
        Orientation {
            x_to: self.preimage(Axis::X),
            x_flip: self.flip(self.preimage(Axis::X)),
            y_to: self.preimage(Axis::Y),
            y_flip: self.flip(self.preimage(Axis::Y)),
            z_flip: self.flip(self.preimage(Axis::Z)),
        }
    }

    /// The logical axis whose image is `b`; meaningful when `self.wf()`.
    pub open spec fn preimage(self, b: Axis) -> Axis {
        if self.x_to == b {
            Axis::X
        } else if self.y_to == b {
            Axis::Y
        } else {
            Axis::Z
        }
    }

    /// Remaps an axis through this orientation, returning its physical image
    /// and whether its sign is flipped.
    pub fn transform_axis(&self, a: Axis) -> (r: (Axis, bool))
        ensures
            r.0 == self.image(a),
            r.1 == self.flip(a),
    {
        match a {
            Axis::X => (self.x_to, self.x_flip),
            Axis::Y => (self.y_to, self.y_flip),
            Axis::Z => (remaining_axis(self.x_to, self.y_to), self.z_flip),
        }
    }

    /// Remaps a signed axis: the sign flags combine by exclusive or.
    fn transform_signed_axis(&self, a: (Axis, bool)) -> (r: (Axis, bool))
        ensures
            r.0 == self.image(a.0),
            r.1 == (a.1 ^ self.flip(a.0)),
    {
        let (axis, sign) = a;
        let (axis2, sign2) = self.transform_axis(axis);
        (axis2, sign ^ sign2)
    }

    /// Maps a move through this orientation.
    pub fn transform_move(&self, m: Move) -> (r: Move)
        ensures
            r == self.spec_transform_move(m),
    {
        let (axis, sign_flip) = self.transform_axis(m.axis);
        if sign_flip {
            Move { axis, positive: m.negative, negative: m.positive }
        } else {
            Move { axis, positive: m.positive, negative: m.negative }
        }
    }

    /// Composes this orientation with `other`: the result represents
    /// applying `other`, then this one.
    pub fn transform_orientation(&self, other: Orientation) -> (r: Orientation)
        requires
            self.wf(),
            other.wf(),
        ensures
            r == self.spec_compose(other),
            r.wf(),
    {
        let (x_to, x_flip) = self.transform_signed_axis(other.transform_axis(Axis::X));
        let (y_to, y_flip) = self.transform_signed_axis(other.transform_axis(Axis::Y));
        let (_, z_flip) = self.transform_signed_axis(other.transform_axis(Axis::Z));
        Orientation { x_to, x_flip, y_to, y_flip, z_flip }
    }

    /// Computes the orientation that undoes this one.
    pub fn inverse(&self) -> (r: Orientation)
        requires
            self.wf(),
        ensures
            r == self.spec_inverse(),
            r.wf(),
    {
        let x_from = self.preimage_axis(Axis::X);
        let y_from = self.preimage_axis(Axis::Y);
        let z_from = self.preimage_axis(Axis::Z);
        let (_, x_flip) = self.transform_axis(x_from);
        let (_, y_flip) = self.transform_axis(y_from);
        let (_, z_flip) = self.transform_axis(z_from);
        Orientation { x_to: x_from, x_flip, y_to: y_from, y_flip, z_flip }
    }

    /// Computes the logical axis whose image is `b`.
    pub fn preimage_axis(&self, b: Axis) -> (r: Axis)
        ensures
            r == self.preimage(b),
    {
        if self.x_to == b {
            Axis::X
        } else if self.y_to == b {
            Axis::Y
        } else {
            Axis::Z
        }
    }
}

impl Default for Orientation {
    /// The identity orientation.
    fn default() -> (r: Self)
        ensures
            r == Orientation::spec_identity(),
            r.wf(),
    {
        Orientation {
            x_to: Axis::X,
            x_flip: false,
            y_to: Axis::Y,
            y_flip: false,
            z_flip: false,
        }
    }
}

/// Composition of well-formed orientations is well-formed.
pub proof fn lemma_compose_wf(o1: Orientation, o2: Orientation)
    requires
        o1.wf(),
        o2.wf(),
    ensures
        o1.spec_compose(o2).wf(),
{
}

/// The composed orientation acts on every axis as `o2` followed by `o1`,
/// both on the axis image and on the sign.
pub proof fn lemma_compose_action(o1: Orientation, o2: Orientation, a: Axis)
    requires
        o1.wf(),
        o2.wf(),
    ensures
        o1.spec_compose(o2).image(a) == o1.image(o2.image(a)),
        o1.spec_compose(o2).flip(a) == (o2.flip(a) ^ o1.flip(o2.image(a))),
{
}

/// The identity orientation is neutral for composition.
pub proof fn lemma_compose_identity(o: Orientation)
    requires
        o.wf(),
    ensures
        Orientation::spec_identity().spec_compose(o) == o,
        o.spec_compose(Orientation::spec_identity()) == o,
{
}

/// The inverse of a well-formed orientation is well-formed and undoes it
/// on every axis.
pub proof fn lemma_inverse_action(o: Orientation, a: Axis)
    requires
        o.wf(),
    ensures
        o.spec_inverse().wf(),
        o.spec_inverse().image(o.image(a)) == a,
        o.spec_inverse().flip(o.image(a)) == o.flip(a),
{
}

/// Transforming a move and then transforming the result through the
/// inverse orientation restores the original move.
pub proof fn lemma_transform_move_round_trip(o: Orientation, m: Move)
    requires
        o.wf(),
    ensures
        o.spec_inverse().spec_transform_move(o.spec_transform_move(m)) == m,
{
    lemma_inverse_action(o, m.axis);
}

/// A transformed move is the identity exactly when the original is, and
/// takes two physical turns exactly when the original does.
pub proof fn lemma_transform_move_shape(o: Orientation, m: Move)
    ensures
        o.spec_transform_move(m).is_identity() == m.is_identity(),
        o.spec_transform_move(m).is_double() == m.is_double(),
{
}

} // verus!
