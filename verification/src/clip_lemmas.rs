//! What holds of clipping one triangle against one plane.

use vstd::prelude::*;
use crate::clip::{classified, clip_plan, clip_result, clipped, corner_is, indices_on, Corner};
use crate::clip::{fully_inside, fully_outside};
use crate::side::Side;
use crate::triangle::Triangle;

verus! {

/// The position `i` if `listed`, else nothing.
spec fn listed_position(listed: bool, i: usize) -> Seq<usize> {
    if listed {
        seq![i]
    } else {
        Seq::empty()
    }
}

/// [`indices_on`] written out for three vertices.
proof fn lemma_indices_of_three(sides: Seq<Side>, inside: bool)
    requires
        sides.len() == 3,
    ensures
        indices_on(sides, inside) == listed_position(sides[0].is_inside() == inside, 0)
            + listed_position(sides[1].is_inside() == inside, 1) + listed_position(
            sides[2].is_inside() == inside,
            2,
        ),
{
    reveal_with_fuel(indices_on, 4);
    let two = sides.drop_last();
    let one = two.drop_last();
    assert(one.drop_last() =~= Seq::<Side>::empty());
    assert(two[0] == sides[0] && two[1] == sides[1] && one[0] == sides[0]);
    assert(indices_on(one, inside) =~= listed_position(sides[0].is_inside() == inside, 0));
    assert(indices_on(two, inside) =~= listed_position(sides[0].is_inside() == inside, 0)
        + listed_position(sides[1].is_inside() == inside, 1));
    assert(indices_on(sides, inside) =~= listed_position(sides[0].is_inside() == inside, 0)
        + listed_position(sides[1].is_inside() == inside, 1) + listed_position(
        sides[2].is_inside() == inside,
        2,
    ));
}

/// A triangle that lies inside the plane with all three vertices is planned
/// to pass as it is.
pub proof fn lemma_plan_all_inside(sides: Seq<Side>)
    requires
        sides.len() == 3,
        forall|i: int| 0 <= i < 3 ==> sides[i].is_inside(),
    ensures
        clip_plan(sides) == seq![[Corner::Kept(0), Corner::Kept(1), Corner::Kept(2)]],
{
    lemma_indices_of_three(sides, true);
    lemma_indices_of_three(sides, false);
    assert(clip_plan(sides) =~= seq![[Corner::Kept(0), Corner::Kept(1), Corner::Kept(2)]]);
}

/// Nothing is planned to remain of a triangle that has no vertex inside.
pub proof fn lemma_plan_none_inside(sides: Seq<Side>)
    requires
        sides.len() == 3,
        forall|i: int| 0 <= i < 3 ==> !sides[i].is_inside(),
    ensures
        clip_plan(sides) == Seq::<[Corner; 3]>::empty(),
{
    lemma_indices_of_three(sides, true);
    lemma_indices_of_three(sides, false);
}

/// Of a triangle with exactly the vertex `a` inside, one triangle is planned
/// to remain: `a` and the cuts on its edges towards the two other vertices,
/// the lower-numbered first.
pub proof fn lemma_plan_one_inside(sides: Seq<Side>, a: usize, b: usize, c: usize)
    requires
        sides.len() == 3,
        a < 3 && b < c < 3 && a != b && a != c,
        sides[a as int].is_inside(),
        !sides[b as int].is_inside(),
        !sides[c as int].is_inside(),
    ensures
        clip_plan(sides) == seq![
            [Corner::Kept(a), Corner::Cut { from: a, to: b }, Corner::Cut { from: a, to: c }],
        ],
{
    lemma_indices_of_three(sides, true);
    lemma_indices_of_three(sides, false);
    assert(clip_plan(sides) =~= seq![
        [Corner::Kept(a), Corner::Cut { from: a, to: b }, Corner::Cut { from: a, to: c }],
    ]);
}

/// Of a triangle with exactly the vertices `a` and `b` inside, two triangles
/// are planned to remain. They tile the quadrilateral `a`, `b`, cut of `b`
/// towards `c`, cut of `a` towards `c`, and meet along its diagonal from `b`
/// to the cut of `a`.
pub proof fn lemma_plan_two_inside(sides: Seq<Side>, a: usize, b: usize, c: usize)
    requires
        sides.len() == 3,
        a < b < 3 && c < 3 && a != c && b != c,
        sides[a as int].is_inside(),
        sides[b as int].is_inside(),
        !sides[c as int].is_inside(),
    ensures
        clip_plan(sides) == seq![
            [Corner::Kept(a), Corner::Kept(b), Corner::Cut { from: a, to: c }],
            [Corner::Kept(b), Corner::Cut { from: a, to: c }, Corner::Cut { from: b, to: c }],
        ],
{
    lemma_indices_of_three(sides, true);
    lemma_indices_of_three(sides, false);
    assert(clip_plan(sides) =~= seq![
        [Corner::Kept(a), Corner::Kept(b), Corner::Cut { from: a, to: c }],
        [Corner::Kept(b), Corner::Cut { from: a, to: c }, Corner::Cut { from: b, to: c }],
    ]);
}

/// How many triangles remain: as many as there are vertices inside, except
/// that a triangle with all three inside remains as one.
pub proof fn lemma_plan_len(sides: Seq<Side>)
    requires
        sides.len() == 3,
    ensures
        clip_plan(sides).len() == if indices_on(sides, true).len() == 3 {
            1nat
        } else {
            indices_on(sides, true).len()
        },
        clip_plan(sides).len() <= 2,
{
    lemma_indices_of_three(sides, true);
    lemma_indices_of_three(sides, false);
}

/// Every corner of a planned triangle is a vertex that lies inside, or the
/// cut of an edge that runs from a vertex inside to a vertex that does not.
pub proof fn lemma_plan_corners(sides: Seq<Side>, k: int, j: int)
    requires
        sides.len() == 3,
        0 <= k < clip_plan(sides).len(),
        0 <= j < 3,
    ensures
        match clip_plan(sides)[k][j] {
            Corner::Kept(i) => i < 3 && sides[i as int].is_inside(),
            Corner::Cut { from, to } => from < 3 && to < 3 && sides[from as int].is_inside()
                && !sides[to as int].is_inside(),
        },
{
    lemma_indices_of_three(sides, true);
    lemma_indices_of_three(sides, false);
}

/// Clipping a triangle that lies inside the plane with all three vertices
/// returns exactly that triangle, vertex for vertex and with both colours.
pub proof fn lemma_inside_passes_unchanged<P, V, C: Fn(&P, &V, &V) -> V>(
    sides: Seq<Side>,
    plane: P,
    t: Triangle<V>,
    cut: C,
    out: Seq<Triangle<V>>,
)
    requires
        sides.len() == 3,
        forall|i: int| 0 <= i < 3 ==> sides[i].is_inside(),
        clip_result(sides, plane, t, cut, out),
    ensures
        out == seq![t],
{
    lemma_plan_all_inside(sides);
    lemma_indices_of_three(sides, true);
    let plan = clip_plan(sides);
    assert(plan[0][0] == Corner::Kept(0) && plan[0][1] == Corner::Kept(1) && plan[0][2]
        == Corner::Kept(2));
    assert(out[0].p[0] == t.p[0] && out[0].p[1] == t.p[1] && out[0].p[2] == t.p[2]);
    assert(out[0].p =~= t.p);
    assert(out[0] == t);
    assert(out =~= seq![t]);
}

/// Clipping a triangle that has no vertex inside the plane returns nothing.
pub proof fn lemma_outside_returns_nothing<P, V, C: Fn(&P, &V, &V) -> V>(
    sides: Seq<Side>,
    plane: P,
    t: Triangle<V>,
    cut: C,
    out: Seq<Triangle<V>>,
)
    requires
        sides.len() == 3,
        forall|i: int| 0 <= i < 3 ==> !sides[i].is_inside(),
        clip_result(sides, plane, t, cut, out),
    ensures
        out.len() == 0,
{
    lemma_plan_none_inside(sides);
}

/// Clipping a triangle with exactly the vertex `a` inside returns exactly one
/// triangle. Its first vertex is `a`; the two others are cut points of the
/// edges from `a` to the two vertices that are not inside. It is drawn in the
/// colour of the input, which is its base colour too.
pub proof fn lemma_one_inside_returns_one<P, V, C: Fn(&P, &V, &V) -> V>(
    sides: Seq<Side>,
    plane: P,
    t: Triangle<V>,
    cut: C,
    out: Seq<Triangle<V>>,
    a: usize,
    b: usize,
    c: usize,
)
    requires
        sides.len() == 3,
        a < 3 && b < c < 3 && a != b && a != c,
        sides[a as int].is_inside(),
        !sides[b as int].is_inside(),
        !sides[c as int].is_inside(),
        clip_result(sides, plane, t, cut, out),
    ensures
        out.len() == 1,
        out[0].p[0] == t.p[a as int],
        call_ensures(cut, (&plane, &t.p[a as int], &t.p[b as int]), out[0].p[1]),
        call_ensures(cut, (&plane, &t.p[a as int], &t.p[c as int]), out[0].p[2]),
        out[0].color == t.color,
        out[0].base_color == t.color,
{
    lemma_plan_one_inside(sides, a, b, c);
    lemma_indices_of_three(sides, true);
    let plan = clip_plan(sides);
    assert(plan[0][0] == Corner::Kept(a));
    assert(plan[0][1] == Corner::Cut { from: a, to: b });
    assert(plan[0][2] == Corner::Cut { from: a, to: c });
    assert(corner_is(plan[0][0], plane, t.p@, cut, out[0].p[0]));
    assert(corner_is(plan[0][1], plane, t.p@, cut, out[0].p[1]));
    assert(corner_is(plan[0][2], plane, t.p@, cut, out[0].p[2]));
}

/// Clipping a triangle with exactly the vertices `a` and `b` inside returns
/// exactly two triangles. With `x` and `y` the cut points of the edges from
/// `a` and from `b` to the third vertex, they are `a, b, x` and `b, x, y`:
/// the two halves of the quadrilateral `a, b, y, x`, which share the edge
/// from `b` to `x` and no more. Both are drawn in the colour of the input,
/// which is their base colour too.
pub proof fn lemma_two_inside_returns_two<P, V, C: Fn(&P, &V, &V) -> V>(
    sides: Seq<Side>,
    plane: P,
    t: Triangle<V>,
    cut: C,
    out: Seq<Triangle<V>>,
    a: usize,
    b: usize,
    c: usize,
)
    requires
        sides.len() == 3,
        a < b < 3 && c < 3 && a != c && b != c,
        sides[a as int].is_inside(),
        sides[b as int].is_inside(),
        !sides[c as int].is_inside(),
        clip_result(sides, plane, t, cut, out),
    ensures
        out.len() == 2,
        out[0].p[0] == t.p[a as int],
        out[0].p[1] == t.p[b as int],
        call_ensures(cut, (&plane, &t.p[a as int], &t.p[c as int]), out[0].p[2]),
        out[1].p[0] == t.p[b as int],
        out[1].p[1] == out[0].p[2],
        call_ensures(cut, (&plane, &t.p[b as int], &t.p[c as int]), out[1].p[2]),
        out[0].color == t.color && out[1].color == t.color,
        out[0].base_color == t.color && out[1].base_color == t.color,
{
    lemma_plan_two_inside(sides, a, b, c);
    lemma_indices_of_three(sides, true);
    let plan = clip_plan(sides);
    assert(plan[0][0] == Corner::Kept(a));
    assert(plan[0][1] == Corner::Kept(b));
    assert(plan[0][2] == Corner::Cut { from: a, to: c });
    assert(plan[1][0] == Corner::Kept(b));
    assert(plan[1][1] == Corner::Cut { from: a, to: c });
    assert(plan[1][2] == Corner::Cut { from: b, to: c });
    assert(corner_is(plan[0][0], plane, t.p@, cut, out[0].p[0]));
    assert(corner_is(plan[0][1], plane, t.p@, cut, out[0].p[1]));
    assert(corner_is(plan[0][2], plane, t.p@, cut, out[0].p[2]));
    assert(corner_is(plan[1][0], plane, t.p@, cut, out[1].p[0]));
    assert(corner_is(plan[1][2], plane, t.p@, cut, out[1].p[2]));
    assert(out[1].p[1] == out[0].p[2]);
}

/// Whether the numeric kernel is exact on `plane` with respect to `lies`,
/// which tells on which side of a plane a point really lies: `side_of` finds
/// that side, and the point that `cut` gives for an edge from the inside to
/// the outside lies on the plane.
pub open spec fn kernel_is_exact<P, V, S: Fn(&P, &V) -> Side, C: Fn(&P, &V, &V) -> V>(
    plane: P,
    side_of: S,
    cut: C,
    lies: spec_fn(P, V) -> Side,
) -> bool {
    &&& forall|v: V, s: Side| #[trigger]
        call_ensures(side_of, (&plane, &v), s) ==> s == lies(plane, v)
    &&& forall|a: V, b: V, x: V|
        lies(plane, a).is_inside() && !lies(plane, b).is_inside() && #[trigger] call_ensures(
            cut,
            (&plane, &a, &b),
            x,
        ) ==> lies(plane, x) == Side::On
}

/// Whether a point `x` that `cut` gives on `plane` for the edge from `a` to
/// `b` stays on the near side of the plane `other` when `a` and `b` are
/// there: a half-space holds every segment between two of its points.
pub open spec fn cut_stays_within<P, V, C: Fn(&P, &V, &V) -> V>(
    plane: P,
    other: P,
    cut: C,
    lies: spec_fn(P, V) -> Side,
    a: V,
    b: V,
    x: V,
) -> bool {
    lies(other, a) != Side::Behind && lies(other, b) != Side::Behind && call_ensures(
        cut,
        (&plane, &a, &b),
        x,
    ) ==> lies(other, x) != Side::Behind
}

/// With an exact kernel, no vertex of what clipping returns lies behind the
/// plane: each lies in front of it or on it.
pub proof fn lemma_fragments_not_behind<P, V, S: Fn(&P, &V) -> Side, C: Fn(&P, &V, &V) -> V>(
    plane: P,
    t: Triangle<V>,
    side_of: S,
    cut: C,
    out: Seq<Triangle<V>>,
    lies: spec_fn(P, V) -> Side,
)
    requires
        clipped(plane, t, side_of, cut, out),
        kernel_is_exact(plane, side_of, cut, lies),
    ensures
        forall|k: int, j: int|
            0 <= k < out.len() && 0 <= j < 3 ==> lies(plane, #[trigger] out[k].p[j])
                != Side::Behind,
{
    let sides = choose|sides: Seq<Side>| #[trigger]
        classified(plane, t, side_of, sides) && clip_result(sides, plane, t, cut, out);
    let plan = clip_plan(sides);
    assert forall|k: int, j: int| 0 <= k < out.len() && 0 <= j < 3 implies lies(
        plane,
        #[trigger] out[k].p[j],
    ) != Side::Behind by {
        lemma_plan_corners(sides, k, j);
        assert(corner_is(plan[k][j], plane, t.p@, cut, out[k].p[j]));
        match plan[k][j] {
            Corner::Kept(i) => {
                assert(call_ensures(side_of, (&plane, &t.p[i as int]), sides[i as int]));
            },
            Corner::Cut { from, to } => {
                assert(call_ensures(side_of, (&plane, &t.p[from as int]), sides[from as int]));
                assert(call_ensures(side_of, (&plane, &t.p[to as int]), sides[to as int]));
            },
        }
    }
}

/// Whether a point `x` that `cut` gives on `plane` for the edge from `a` to
/// `b` lies in `region` when `a` and `b` do.
pub open spec fn cut_stays_in<P, V, C: Fn(&P, &V, &V) -> V>(
    plane: P,
    cut: C,
    region: spec_fn(V) -> bool,
    a: V,
    b: V,
    x: V,
) -> bool {
    region(a) && region(b) && call_ensures(cut, (&plane, &a, &b), x) ==> region(x)
}

/// If every vertex of a triangle lies in a region, and cutting on `plane`
/// stays in the region, then every vertex of what clipping against `plane`
/// returns lies in the region.
pub proof fn lemma_fragments_stay_in<P, V, S: Fn(&P, &V) -> Side, C: Fn(&P, &V, &V) -> V>(
    plane: P,
    t: Triangle<V>,
    side_of: S,
    cut: C,
    out: Seq<Triangle<V>>,
    region: spec_fn(V) -> bool,
)
    requires
        clipped(plane, t, side_of, cut, out),
        forall|i: int| 0 <= i < 3 ==> region(#[trigger] t.p[i]),
        forall|a: V, b: V, x: V| #[trigger] cut_stays_in(plane, cut, region, a, b, x),
    ensures
        forall|k: int, j: int| 0 <= k < out.len() && 0 <= j < 3 ==> region(#[trigger] out[k].p[j]),
{
    let sides = choose|sides: Seq<Side>| #[trigger]
        classified(plane, t, side_of, sides) && clip_result(sides, plane, t, cut, out);
    let plan = clip_plan(sides);
    assert forall|k: int, j: int| 0 <= k < out.len() && 0 <= j < 3 implies region(
        #[trigger] out[k].p[j],
    ) by {
        lemma_plan_corners(sides, k, j);
        assert(corner_is(plan[k][j], plane, t.p@, cut, out[k].p[j]));
        match plan[k][j] {
            Corner::Kept(i) => {},
            Corner::Cut { from, to } => {
                assert(cut_stays_in(
                    plane,
                    cut,
                    region,
                    t.p[from as int],
                    t.p[to as int],
                    out[k].p[j],
                ));
            },
        }
    }
}

/// Whatever sides `side_of` gives, clipping a triangle that it places inside
/// the plane with all three vertices returns exactly that triangle.
pub proof fn lemma_clipped_inside<P, V, S: Fn(&P, &V) -> Side, C: Fn(&P, &V, &V) -> V>(
    plane: P,
    t: Triangle<V>,
    side_of: S,
    cut: C,
    out: Seq<Triangle<V>>,
)
    requires
        clipped(plane, t, side_of, cut, out),
        fully_inside(plane, t, side_of),
    ensures
        out == seq![t],
{
    let sides = choose|sides: Seq<Side>| #[trigger]
        classified(plane, t, side_of, sides) && clip_result(sides, plane, t, cut, out);
    assert forall|i: int| 0 <= i < 3 implies sides[i].is_inside() by {
        assert(call_ensures(side_of, (&plane, &t.p[i]), sides[i]));
    }
    lemma_inside_passes_unchanged(sides, plane, t, cut, out);
}

/// Whatever sides `side_of` gives, clipping a triangle of which it places no
/// vertex inside the plane returns nothing.
pub proof fn lemma_clipped_outside<P, V, S: Fn(&P, &V) -> Side, C: Fn(&P, &V, &V) -> V>(
    plane: P,
    t: Triangle<V>,
    side_of: S,
    cut: C,
    out: Seq<Triangle<V>>,
)
    requires
        clipped(plane, t, side_of, cut, out),
        fully_outside(plane, t, side_of),
    ensures
        out.len() == 0,
{
    let sides = choose|sides: Seq<Side>| #[trigger]
        classified(plane, t, side_of, sides) && clip_result(sides, plane, t, cut, out);
    assert forall|i: int| 0 <= i < 3 implies !sides[i].is_inside() by {
        assert(call_ensures(side_of, (&plane, &t.p[i]), sides[i]));
    }
    lemma_outside_returns_nothing(sides, plane, t, cut, out);
}

/// Whether `area` measures a triangle alike in whatever order its corners
/// are named.
pub open spec fn area_is_symmetric<V>(area: spec_fn(V, V, V) -> int) -> bool {
    forall|u: V, v: V, w: V|
        #![trigger area(u, v, w)]
        area(u, v, w) == area(v, u, w) && area(u, v, w) == area(u, w, v)
}

/// Whether a point `x` that `cut` gives on `plane` for the edge from `a` to
/// `b` splits the triangle `a`, `b`, `c` into two that have its area between
/// them: the point lies on the edge.
pub open spec fn cut_splits_area<P, V, C: Fn(&P, &V, &V) -> V>(
    plane: P,
    cut: C,
    area: spec_fn(V, V, V) -> int,
    a: V,
    b: V,
    x: V,
    c: V,
) -> bool {
    call_ensures(cut, (&plane, &a, &b), x) ==> area(a, b, c) == area(a, x, c) + area(x, b, c)
}

/// With cut points that lie on their edges, the two triangles that remain of
/// a triangle with exactly the vertices `a` and `b` inside cover its inside
/// part without gap or overlap: their areas and the area of the corner that
/// is cut off, between the two cut points and the vertex `c`, make up the
/// area of the whole.
pub proof fn lemma_two_inside_cover_the_inside_part<P, V, C: Fn(&P, &V, &V) -> V>(
    sides: Seq<Side>,
    plane: P,
    t: Triangle<V>,
    cut: C,
    out: Seq<Triangle<V>>,
    a: usize,
    b: usize,
    c: usize,
    area: spec_fn(V, V, V) -> int,
)
    requires
        sides.len() == 3,
        a < b < 3 && c < 3 && a != c && b != c,
        sides[a as int].is_inside(),
        sides[b as int].is_inside(),
        !sides[c as int].is_inside(),
        clip_result(sides, plane, t, cut, out),
        area_is_symmetric(area),
        forall|u: V, v: V, x: V, w: V| #[trigger] cut_splits_area(plane, cut, area, u, v, x, w),
    ensures
        out.len() == 2,
        area(out[0].p[0], out[0].p[1], out[0].p[2]) + area(out[1].p[0], out[1].p[1], out[1].p[2])
            + area(out[0].p[2], out[1].p[2], t.p[c as int]) == area(t.p[0], t.p[1], t.p[2]),
{
    lemma_two_inside_returns_two(sides, plane, t, cut, out, a, b, c);
    let va = t.p[a as int];
    let vb = t.p[b as int];
    let vc = t.p[c as int];
    let x = out[0].p[2];
    let y = out[1].p[2];
    // the whole, named from the vertices inside
    assert(area(t.p[0], t.p[1], t.p[2]) == area(va, vc, vb)) by {
        assert(area(va, vb, vc) == area(va, vc, vb));
        assert(area(vb, va, vc) == area(va, vb, vc));
        assert(area(vb, vc, va) == area(vb, va, vc));
        assert(area(vc, vb, va) == area(vb, vc, va));
        assert(area(vc, va, vb) == area(vc, vb, va));
    }
    // the first cut splits the whole, the second splits what lies beyond
    assert(cut_splits_area(plane, cut, area, va, vc, x, vb));
    assert(cut_splits_area(plane, cut, area, vb, vc, y, x));
    assert(area(va, x, vb) == area(va, vb, x));
    assert(area(x, vc, vb) == area(vb, vc, x)) by {
        assert(area(x, vc, vb) == area(x, vb, vc));
        assert(area(vb, x, vc) == area(x, vb, vc));
        assert(area(vb, x, vc) == area(vb, vc, x));
    }
    assert(area(vb, y, x) == area(vb, x, y));
    assert(area(y, vc, x) == area(x, y, vc)) by {
        assert(area(y, vc, x) == area(y, x, vc));
        assert(area(x, y, vc) == area(y, x, vc));
    }
}

} // verus!
