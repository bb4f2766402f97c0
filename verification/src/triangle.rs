//! Triangles over an arbitrary vertex type.

use vstd::prelude::*;
use crate::bits::magnitude_bits;
use crate::color::Color;

verus! {

/// Three vertices in a fixed winding order and two colours: the base colour
/// the face was created with, and the colour it is currently drawn in.
#[derive(Debug)]
pub struct Triangle<V> {
    pub p: [V; 3],
    pub base_color: Color,
    pub color: Color,
}

impl<V: Copy> Copy for Triangle<V> {

}

impl<V: Copy> Clone for Triangle<V> {
    fn clone(&self) -> (t: Self)
        ensures
            t == *self,
    {
        *self
    }
}

/// The colour a new triangle starts with: the one given, or opaque white.
pub open spec fn initial_color(base_color: Option<Color>) -> Color {
    match base_color {
        Some(c) => c,
        None => Color::white(),
    }
}

/// Whether `after` is what the perspective divide makes of the vertex
/// `before`: the vertex itself if `w_bits` gives a zero for it, else a
/// vertex that `divide` gives.
pub open spec fn divided<V, W: Fn(&V) -> u32, D: Fn(&V) -> V>(
    w_bits: W,
    divide: D,
    before: V,
    after: V,
) -> bool {
    exists|bits: u32| #[trigger]
        call_ensures(w_bits, (&before,), bits) && if magnitude_bits(bits) == 0 {
            after == before
        } else {
            call_ensures(divide, (&before,), after)
        }
}

/// The perspective divide of one vertex.
fn divide_vertex<V: Copy, W: Fn(&V) -> u32, D: Fn(&V) -> V>(w_bits: &W, divide: &D, v: &V) -> (out:
    V)
    requires
        call_requires(w_bits, (v,)),
        call_requires(divide, (v,)),
    ensures
        divided(*w_bits, *divide, *v, out),
{
    let bits = w_bits(v);
    if bits & 0x7fff_ffff == 0 {
        *v
    } else {
        divide(v)
    }
}

impl<V> Triangle<V> {
    /// Creates a triangle with the given vertices, in order. Both of its
    /// colours are `base_color`, or opaque white when none is given.
    pub fn new(a: V, b: V, c: V, base_color: Option<Color>) -> (t: Self)
        ensures
            t.p@ == seq![a, b, c],
            t.base_color == initial_color(base_color),
            t.color == initial_color(base_color),
    {
        let color = match base_color {
            Some(c) => c,
            None => Color::white(),
        };
        Triangle { p: [a, b, c], base_color: color, color }
    }

    /// Creates the triangle whose vertices are the images of the vertices of
    /// `origin` under the transform `m`, taken in order. The colours are
    /// carried over unchanged.
    pub fn from_matrix_application<M: Fn(&V) -> V>(m: &M, origin: &Triangle<V>) -> (t: Self)
        requires
            forall|i: int| 0 <= i < 3 ==> call_requires(m, (&#[trigger] origin.p[i],)),
        ensures
            forall|i: int| 0 <= i < 3 ==> call_ensures(m, (&origin.p[i],), #[trigger] t.p[i]),
            t.base_color == origin.base_color,
            t.color == origin.color,
    {
        let a = m(&origin.p[0]);
        let b = m(&origin.p[1]);
        let c = m(&origin.p[2]);
        Triangle { p: [a, b, c], base_color: origin.base_color, color: origin.color }
    }

    /// Perspective divide: every vertex whose fourth coordinate is not zero
    /// is replaced by what `divide` makes of it; a vertex whose fourth
    /// coordinate is exactly zero, of either sign, stays as it is. `w_bits`
    /// gives the fourth coordinate of a vertex as the bit pattern of a
    /// single-precision number. The colours stay as they are.
    pub fn normalize<W: Fn(&V) -> u32, D: Fn(&V) -> V>(&mut self, w_bits: &W, divide: &D) where
        V: Copy,

        requires
            forall|i: int| 0 <= i < 3 ==> call_requires(w_bits, (&#[trigger] old(self).p[i],)),
            forall|i: int| 0 <= i < 3 ==> call_requires(divide, (&#[trigger] old(self).p[i],)),
        ensures
            forall|i: int|
                0 <= i < 3 ==> divided(*w_bits, *divide, old(self).p[i], #[trigger] final(self).p[i]),
            final(self).base_color == old(self).base_color,
            final(self).color == old(self).color,
    {
        let a = divide_vertex(w_bits, divide, &self.p[0]);
        let b = divide_vertex(w_bits, divide, &self.p[1]);
        let c = divide_vertex(w_bits, divide, &self.p[2]);
        self.p = [a, b, c];
    }

    /// Recomputes the colour in which the triangle is drawn from its base
    /// colour: `dim` is applied to the red, the green and the blue channel of
    /// the base colour, in this order. The base colour, the opacity of the
    /// drawn colour and the vertices stay as they are.
    pub fn shade<D: Fn(u8) -> u8>(&mut self, dim: &D)
        requires
            call_requires(dim, (old(self).base_color.r,)),
            call_requires(dim, (old(self).base_color.g,)),
            call_requires(dim, (old(self).base_color.b,)),
        ensures
            final(self).p == old(self).p,
            final(self).base_color == old(self).base_color,
            final(self).color.a == old(self).color.a,
            call_ensures(dim, (old(self).base_color.r,), final(self).color.r),
            call_ensures(dim, (old(self).base_color.g,), final(self).color.g),
            call_ensures(dim, (old(self).base_color.b,), final(self).color.b),
    {
        let r = dim(self.base_color.r);
        let g = dim(self.base_color.g);
        let b = dim(self.base_color.b);
        self.color = Color { r, g, b, a: self.color.a };
    }
}

} // verus!
