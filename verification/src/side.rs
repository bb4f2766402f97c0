//! Which side of a plane a point lies on.

use vstd::prelude::*;
use crate::bits::{is_number, lemma_zero_magnitude, magnitude_bits, scaled_value, sign_bit, INFINITY_BITS};

verus! {

/// Position of a point relative to an oriented plane, read off the sign of
/// its signed distance to the plane along the plane normal.
#[derive(Clone, Copy, Debug, PartialEq, Eq, Structural)]
pub enum Side {
    /// The distance is strictly positive.
    Front,
    /// The distance is neither positive nor negative: the point lies on the
    /// plane, or the distance is not a number.
    On,
    /// The distance is strictly negative.
    Behind,
}

/// The side told by a signed distance that is given as the bit pattern of a
/// single-precision number: in front for a positive distance, infinite too,
/// behind for a negative one, and on the plane for a zero of either sign and
/// for what is not a number.
pub open spec fn side_of_bits(bits: u32) -> Side {
    if magnitude_bits(bits) == 0 || magnitude_bits(bits) > INFINITY_BITS {
        Side::On
    } else if sign_bit(bits) {
        Side::Behind
    } else {
        Side::Front
    }
}

impl Side {
    /// Reads the side off a signed distance, given as the bit pattern of a
    /// single-precision number.
    pub fn of_bits(bits: u32) -> (side: Side)
        ensures
            side == side_of_bits(bits),
    {
        let magnitude = bits & 0x7fff_ffff;
        if magnitude == 0 || magnitude > INFINITY_BITS {
            Side::On
        } else if bits & 0x8000_0000 != 0 {
            Side::Behind
        } else {
            Side::Front
        }
    }

    /// A vertex survives clipping only when it lies strictly in front of the
    /// clip plane. A vertex on the plane counts as outside.
    pub open spec fn is_inside(self) -> bool {
        self == Side::Front
    }

    /// A face is drawn only when the viewer lies strictly in front of it,
    /// that is when the ray from the viewer to the face runs against the
    /// face normal. A face seen exactly edge-on is discarded.
    pub open spec fn is_facing_viewer(self) -> bool {
        self == Side::Behind
    }

    /// Tells whether a vertex on this side of a clip plane is kept.
    pub fn inside(self) -> (b: bool)
        ensures
            b == self.is_inside(),
    {
        match self {
            Side::Front => true,
            Side::On => false,
            Side::Behind => false,
        }
    }

    /// Visibility test of back-face culling. `self` is the side on which the
    /// ray from the viewer to a point of the face lies with respect to the
    /// plane through the origin whose normal is the face normal.
    pub fn faces_viewer(self) -> (b: bool)
        ensures
            b == self.is_facing_viewer(),
    {
        match self {
            Side::Front => false,
            Side::On => false,
            Side::Behind => true,
        }
    }
}

/// The side read off a bit pattern is the sign of the number it encodes:
/// in front for a positive number, behind for a negative number, on the
/// plane for zero. A pattern that encodes no number reads as on the plane.
pub proof fn lemma_side_is_sign(bits: u32)
    ensures
        is_number(bits) ==> (side_of_bits(bits) == Side::Front <==> scaled_value(bits) > 0),
        is_number(bits) ==> (side_of_bits(bits) == Side::Behind <==> scaled_value(bits) < 0),
        is_number(bits) ==> (side_of_bits(bits) == Side::On <==> scaled_value(bits) == 0),
        !is_number(bits) ==> side_of_bits(bits) == Side::On,
{
    lemma_zero_magnitude(bits);
}

} // verus!
