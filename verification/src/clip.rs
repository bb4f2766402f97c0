//! Clipping of one triangle against one plane.

use vstd::prelude::*;
use crate::clip_lemmas::{lemma_inside_passes_unchanged, lemma_outside_returns_nothing};
use crate::side::Side;
use crate::triangle::Triangle;

verus! {

/// A vertex of a clipped triangle, named by where it comes from in the
/// triangle that was clipped.
#[derive(Clone, Copy, Debug, PartialEq, Eq, Structural)]
pub enum Corner {
    /// Vertex number `0`, `1` or `2` of the input, unchanged.
    Kept(usize),
    /// The point where the edge from input vertex `from` to input vertex `to`
    /// meets the plane.
    Cut { from: usize, to: usize },
}

/// The positions in `sides`, ascending, of the vertices that are inside
/// (`inside == true`) or outside (`inside == false`).
pub open spec fn indices_on(sides: Seq<Side>, inside: bool) -> Seq<usize>
    decreases sides.len(),
{
    if sides.len() == 0 {
        Seq::empty()
    } else {
        let rest = indices_on(sides.drop_last(), inside);
        if sides.last().is_inside() == inside {
            rest.push((sides.len() - 1) as usize)
        } else {
            rest
        }
    }
}

/// The triangles that remain of a triangle whose three vertices lie on
/// `sides` of a plane, in the order in which they are produced.
///
/// - Three vertices inside: the triangle itself.
/// - One inside: the inside vertex and the two cuts towards the outside
///   vertices.
/// - Two inside: the quadrilateral between the two inside vertices and the
///   two cuts towards the outside vertex, split along the diagonal from the
///   second inside vertex to the first cut.
/// - None inside: nothing.
pub open spec fn clip_plan(sides: Seq<Side>) -> Seq<[Corner; 3]> {
    let ins = indices_on(sides, true);
    let outs = indices_on(sides, false);
    if ins.len() == 3 {
        seq![[Corner::Kept(ins[0]), Corner::Kept(ins[1]), Corner::Kept(ins[2])]]
    } else if ins.len() == 1 && outs.len() == 2 {
        seq![
            [
                Corner::Kept(ins[0]),
                Corner::Cut { from: ins[0], to: outs[0] },
                Corner::Cut { from: ins[0], to: outs[1] },
            ],
        ]
    } else if ins.len() == 2 && outs.len() == 1 {
        seq![
            [
                Corner::Kept(ins[0]),
                Corner::Kept(ins[1]),
                Corner::Cut { from: ins[0], to: outs[0] },
            ],
            [
                Corner::Kept(ins[1]),
                Corner::Cut { from: ins[0], to: outs[0] },
                Corner::Cut { from: ins[1], to: outs[0] },
            ],
        ]
    } else {
        Seq::empty()
    }
}

/// The entries of `out` that are present, in order.
pub open spec fn fragments<T>(out: Seq<Option<T>>) -> Seq<T>
    decreases out.len(),
{
    if out.len() == 0 {
        Seq::empty()
    } else {
        let rest = fragments(out.drop_last());
        match out.last() {
            Some(t) => rest.push(t),
            None => rest,
        }
    }
}

/// What [`fragments`] makes of a pair whose second entry is present only if
/// the first is.
pub proof fn lemma_fragments_pair<T>(out: Seq<Option<T>>)
    requires
        out.len() == 2,
        out[0] is None ==> out[1] is None,
    ensures
        out[0] is None ==> fragments(out) == Seq::<T>::empty(),
        out[0] is Some && out[1] is None ==> fragments(out) == seq![out[0]->0],
        out[0] is Some && out[1] is Some ==> fragments(out) == seq![out[0]->0, out[1]->0],
{
    reveal_with_fuel(fragments, 3);
    assert(out.drop_last() =~= seq![out[0]]);
    assert(out.drop_last().drop_last() =~= Seq::<Option<T>>::empty());
    if out[0] is Some && out[1] is None {
        assert(fragments(out) =~= seq![out[0]->0]);
    }
    if out[0] is Some && out[1] is Some {
        assert(fragments(out) =~= seq![out[0]->0, out[1]->0]);
    }
}

/// Sorts the three vertex positions into those inside and those outside,
/// each in ascending order. Only the first `n_in` entries of the first array
/// and the first `n_out` entries of the second are meaningful.
fn split_indices(sides: &[Side; 3]) -> (r: ([usize; 3], usize, [usize; 3], usize))
    ensures
        r.1 + r.3 == 3,
        r.0@.take(r.1 as int) == indices_on(sides@, true),
        r.2@.take(r.3 as int) == indices_on(sides@, false),
{
    let mut ins: [usize; 3] = [0, 0, 0];
    let mut outs: [usize; 3] = [0, 0, 0];
    let mut n_in: usize = 0;
    let mut n_out: usize = 0;
    let mut i: usize = 0;
    while i < 3
        invariant
            i <= 3,
            n_in + n_out == i,
            ins@.take(n_in as int) == indices_on(sides@.take(i as int), true),
            outs@.take(n_out as int) == indices_on(sides@.take(i as int), false),
        decreases 3 - i,
    {
        proof {
            assert(sides@.take(i + 1).drop_last() == sides@.take(i as int));
        }
        if sides[i].inside() {
            ins[n_in] = i;
            n_in = n_in + 1;
        } else {
            outs[n_out] = i;
            n_out = n_out + 1;
        }
        i = i + 1;
    }
    proof {
        assert(sides@.take(3) == sides@);
    }
    (ins, n_in, outs, n_out)
}

/// Plans the clipping of a triangle from the sides its vertices lie on.
/// The result holds the triangles of [`clip_plan`], the first of them first.
pub fn plan_clipping(sides: &[Side; 3]) -> (out: [Option<[Corner; 3]>; 2])
    ensures
        fragments(out@) == clip_plan(sides@),
        out[0] is None ==> out[1] is None,
{
    let (ins, n_in, outs, n_out) = split_indices(sides);
    let out = if n_in == 3 {
        [Some([Corner::Kept(ins[0]), Corner::Kept(ins[1]), Corner::Kept(ins[2])]), None]
    } else if n_in == 1 && n_out == 2 {
        [
            Some(
                [
                    Corner::Kept(ins[0]),
                    Corner::Cut { from: ins[0], to: outs[0] },
                    Corner::Cut { from: ins[0], to: outs[1] },
                ],
            ),
            None,
        ]
    } else if n_in == 2 && n_out == 1 {
        [
            Some(
                [
                    Corner::Kept(ins[0]),
                    Corner::Kept(ins[1]),
                    Corner::Cut { from: ins[0], to: outs[0] },
                ],
            ),
            Some(
                [
                    Corner::Kept(ins[1]),
                    Corner::Cut { from: ins[0], to: outs[0] },
                    Corner::Cut { from: ins[1], to: outs[0] },
                ],
            ),
        ]
    } else {
        [None, None]
    };
    proof {
        lemma_fragments_pair(out@);
        assert(fragments(out@) =~= clip_plan(sides@));
    }
    out
}

/// Every position listed by [`indices_on`] is a position of `sides` on the
/// asked side, the positions ascend, and each position of `sides` is listed
/// on exactly one of the two sides.
pub proof fn lemma_indices_on(sides: Seq<Side>, inside: bool)
    requires
        sides.len() <= usize::MAX,
    ensures
        indices_on(sides, true).len() + indices_on(sides, false).len() == sides.len(),
        forall|k: int|
            0 <= k < indices_on(sides, inside).len() ==> {
                let i = #[trigger] indices_on(sides, inside)[k];
                0 <= i < sides.len() && sides[i as int].is_inside() == inside
            },
        forall|k: int, l: int|
            0 <= k < l < indices_on(sides, inside).len() ==> indices_on(sides, inside)[k]
                < indices_on(sides, inside)[l],
        (forall|i: int| 0 <= i < sides.len() ==> sides[i].is_inside() == inside) <==> indices_on(
            sides,
            inside,
        ).len() == sides.len(),
    decreases sides.len(),
{
    if sides.len() > 0 {
        lemma_indices_on(sides.drop_last(), inside);
        lemma_indices_on(sides.drop_last(), !inside);
        let rest = indices_on(sides.drop_last(), inside);
        let all = indices_on(sides, inside);
        assert forall|k: int| 0 <= k < all.len() implies {
            let i = #[trigger] all[k];
            0 <= i < sides.len() && sides[i as int].is_inside() == inside
        } by {
            if k < rest.len() {
                assert(all[k] == rest[k]);
                assert(sides.drop_last()[rest[k] as int] == sides[rest[k] as int]);
            }
        }
        assert forall|k: int, l: int| 0 <= k < l < all.len() implies all[k] < all[l] by {
            assert(all[k] == rest[k]);
            if l < rest.len() {
                assert(all[l] == rest[l]);
            }
        }
        if indices_on(sides, inside).len() == sides.len() {
            assert forall|i: int| 0 <= i < sides.len() implies sides[i].is_inside() == inside by {
                if i < sides.len() - 1 {
                    assert(sides.drop_last()[i] == sides[i]);
                }
            }
        }
        if forall|i: int| 0 <= i < sides.len() ==> sides[i].is_inside() == inside {
            assert forall|i: int| 0 <= i < sides.drop_last().len() implies sides.drop_last()[i].is_inside()
                == inside by {
                assert(sides.drop_last()[i] == sides[i]);
            }
        }
    }
}

/// Whether `v` may stand at corner `c` of a fragment of the triangle with
/// vertices `p`: a kept corner is the vertex itself, a cut corner is a point
/// that `cut` gives for the edge between the two vertices.
pub open spec fn corner_is<P, V, C: Fn(&P, &V, &V) -> V>(
    c: Corner,
    plane: P,
    p: Seq<V>,
    cut: C,
    v: V,
) -> bool {
    match c {
        Corner::Kept(i) => v == p[i as int],
        Corner::Cut { from, to } => call_ensures(cut, (&plane, &p[from as int], &p[to as int]), v),
    }
}

/// Whether `out` is a clipping of triangle `t`, whose vertices lie on `sides`
/// of `plane`, with the cut points taken from `cut`.
///
/// The fragments are those of [`clip_plan`], in its order. A corner that two
/// fragments share is one and the same point in both. All fragments are
/// drawn in the colour of `t`. A triangle that lies inside with all three
/// vertices keeps its base colour too; the fragments of any other take the
/// colour of `t` for their base colour.
pub open spec fn clip_result<P, V, C: Fn(&P, &V, &V) -> V>(
    sides: Seq<Side>,
    plane: P,
    t: Triangle<V>,
    cut: C,
    out: Seq<Triangle<V>>,
) -> bool {
    let plan = clip_plan(sides);
    &&& out.len() == plan.len()
    &&& forall|k: int, j: int|
        0 <= k < plan.len() && 0 <= j < 3 ==> corner_is(
            plan[k][j],
            plane,
            t.p@,
            cut,
            #[trigger] out[k].p[j],
        )
    &&& forall|k: int, j: int, l: int, m: int|
        0 <= k < plan.len() && 0 <= j < 3 && 0 <= l < plan.len() && 0 <= m < 3 && plan[k][j]
            == plan[l][m] ==> #[trigger] out[k].p[j] == #[trigger] out[l].p[m]
    &&& forall|k: int| 0 <= k < plan.len() ==> (#[trigger] out[k]).color == t.color
    &&& forall|k: int|
        0 <= k < plan.len() ==> (#[trigger] out[k]).base_color == if indices_on(sides, true).len()
            == 3 {
            t.base_color
        } else {
            t.color
        }
}

/// Clips `triangle` against `plane`, given the side of the plane on which
/// each of its vertices lies. `cut` is asked for the point where an edge from
/// an inside vertex to an outside vertex meets the plane, once for each such
/// point of the result.
pub fn clip_classified<P, V: Copy, C: Fn(&P, &V, &V) -> V>(
    sides: &[Side; 3],
    plane: &P,
    cut: &C,
    triangle: &Triangle<V>,
) -> (out: [Option<Triangle<V>>; 2])
    requires
        forall|i: int, j: int|
            0 <= i < 3 && 0 <= j < 3 && sides[i].is_inside() && !sides[j].is_inside()
                ==> call_requires(cut, (plane, &triangle.p[i], &triangle.p[j])),
    ensures
        out[0] is None ==> out[1] is None,
        clip_result(sides@, *plane, *triangle, *cut, fragments(out@)),
        (forall|i: int| 0 <= i < 3 ==> sides[i].is_inside()) ==> out[0] == Some(*triangle)
            && out[1] is None,
        (forall|i: int| 0 <= i < 3 ==> !sides[i].is_inside()) ==> out[0] is None,
{
    let (ins, n_in, outs, n_out) = split_indices(sides);
    proof {
        lemma_indices_on(sides@, true);
        lemma_indices_on(sides@, false);
    }
    let out = if n_in == 3 {
        proof {
            assert(ins@.take(3) == ins@);
            assert(ins@[0] < ins@[1] < ins@[2] < 3);
            assert(triangle.p@ =~= seq![triangle.p[0], triangle.p[1], triangle.p[2]]);
        }
        [Some(*triangle), None]
    } else if n_in == 1 && n_out == 2 {
        proof {
            assert(ins@.take(1)[0] == ins@[0]);
            assert(outs@.take(2)[0] == outs@[0]);
            assert(outs@.take(2)[1] == outs@[1]);
        }
        let inner = triangle.p[ins[0]];
        let first = cut(plane, &inner, &triangle.p[outs[0]]);
        let second = cut(plane, &inner, &triangle.p[outs[1]]);
        [Some(Triangle::new(inner, first, second, Some(triangle.color))), None]
    } else if n_in == 2 && n_out == 1 {
        proof {
            assert(ins@.take(2)[0] == ins@[0]);
            assert(ins@.take(2)[1] == ins@[1]);
            assert(outs@.take(1)[0] == outs@[0]);
        }
        let inner0 = triangle.p[ins[0]];
        let inner1 = triangle.p[ins[1]];
        let outer = triangle.p[outs[0]];
        let first = cut(plane, &inner0, &outer);
        let second = cut(plane, &inner1, &outer);
        [
            Some(Triangle::new(inner0, inner1, first, Some(triangle.color))),
            Some(Triangle::new(inner1, first, second, Some(triangle.color))),
        ]
    } else {
        [None, None]
    };
    proof {
        lemma_fragments_pair(out@);
        if forall|i: int| 0 <= i < 3 ==> sides[i].is_inside() {
            lemma_inside_passes_unchanged(
                sides@,
                *plane,
                *triangle,
                *cut,
                fragments(out@),
            );
        }
        if forall|i: int| 0 <= i < 3 ==> !sides[i].is_inside() {
            lemma_outside_returns_nothing(
                sides@,
                *plane,
                *triangle,
                *cut,
                fragments(out@),
            );
        }
    }
    out
}

/// Whether `sides` are sides that `side_of` gives for the three vertices of
/// `t`, in order.
pub open spec fn classified<P, V, S: Fn(&P, &V) -> Side>(
    plane: P,
    t: Triangle<V>,
    side_of: S,
    sides: Seq<Side>,
) -> bool {
    &&& sides.len() == 3
    &&& forall|i: int| 0 <= i < 3 ==> call_ensures(side_of, (&plane, &t.p[i]), #[trigger] sides[i])
}

/// Whether `out` is a clipping of `t` against `plane`, with the sides of the
/// vertices taken from `side_of` and the cut points from `cut`.
pub open spec fn clipped<P, V, S: Fn(&P, &V) -> Side, C: Fn(&P, &V, &V) -> V>(
    plane: P,
    t: Triangle<V>,
    side_of: S,
    cut: C,
    out: Seq<Triangle<V>>,
) -> bool {
    exists|sides: Seq<Side>| #[trigger]
        classified(plane, t, side_of, sides) && clip_result(sides, plane, t, cut, out)
}

/// Whether `side_of` places every vertex of `t` inside `plane`.
pub open spec fn fully_inside<P, V, S: Fn(&P, &V) -> Side>(
    plane: P,
    t: Triangle<V>,
    side_of: S,
) -> bool {
    forall|i: int, s: Side|
        0 <= i < 3 && #[trigger] call_ensures(side_of, (&plane, &t.p[i]), s) ==> s.is_inside()
}

/// Whether `side_of` places no vertex of `t` inside `plane`.
pub open spec fn fully_outside<P, V, S: Fn(&P, &V) -> Side>(
    plane: P,
    t: Triangle<V>,
    side_of: S,
) -> bool {
    forall|i: int, s: Side|
        0 <= i < 3 && #[trigger] call_ensures(side_of, (&plane, &t.p[i]), s) ==> !s.is_inside()
}

/// Whether `side_of` may be asked for each vertex of `t`.
pub open spec fn may_classify<P, V, S: Fn(&P, &V) -> Side>(
    plane: P,
    t: Triangle<V>,
    side_of: S,
) -> bool {
    forall|i: int| 0 <= i < 3 ==> call_requires(side_of, (&plane, &#[trigger] t.p[i]))
}

/// Whether `cut` may be asked for every edge of `t` that is to be cut: one
/// that runs from a vertex which `side_of` may find inside to a vertex which
/// it may find not inside.
pub open spec fn may_cut<P, V, S: Fn(&P, &V) -> Side, C: Fn(&P, &V, &V) -> V>(
    plane: P,
    t: Triangle<V>,
    side_of: S,
    cut: C,
) -> bool {
    forall|i: int, j: int, from: Side, to: Side|
        0 <= i < 3 && 0 <= j < 3 && #[trigger] call_ensures(side_of, (&plane, &t.p[i]), from)
            && #[trigger] call_ensures(side_of, (&plane, &t.p[j]), to) && from.is_inside()
            && !to.is_inside() ==> call_requires(cut, (&plane, &t.p[i], &t.p[j]))
}

/// Checks a triangle against a plane and returns what remains of it on the
/// inside: nothing, the triangle itself, one smaller triangle, or the two
/// halves of a quadrilateral.
///
/// `side_of` tells on which side of the plane a vertex lies; it is asked once
/// for each vertex, in order. `cut` gives the point where an edge from an
/// inside vertex to an outside vertex meets the plane.
pub fn clipping<P, V: Copy, S: Fn(&P, &V) -> Side, C: Fn(&P, &V, &V) -> V>(
    plane: &P,
    side_of: &S,
    cut: &C,
    triangle: &Triangle<V>,
) -> (out: [Option<Triangle<V>>; 2])
    requires
        may_classify(*plane, *triangle, *side_of),
        may_cut(*plane, *triangle, *side_of, *cut),
    ensures
        out[0] is None ==> out[1] is None,
        clipped(*plane, *triangle, *side_of, *cut, fragments(out@)),
        fully_inside(*plane, *triangle, *side_of) ==> out[0] == Some(*triangle) && out[1] is None,
        fully_outside(*plane, *triangle, *side_of) ==> out[0] is None,
{
    let sides = [
        side_of(plane, &triangle.p[0]),
        side_of(plane, &triangle.p[1]),
        side_of(plane, &triangle.p[2]),
    ];
    proof {
        assert(classified(*plane, *triangle, *side_of, sides@));
        assert forall|i: int, j: int|
            0 <= i < 3 && 0 <= j < 3 && sides[i].is_inside() && !sides[j].is_inside() implies call_requires(
            cut,
            (plane, &triangle.p[i], &triangle.p[j]),
        ) by {
            assert(call_ensures(*side_of, (plane, &triangle.p[i]), sides[i]));
            assert(call_ensures(*side_of, (plane, &triangle.p[j]), sides[j]));
        }
    }
    clip_classified(&sides, plane, cut, triangle)
}

} // verus!
