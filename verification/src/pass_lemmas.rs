//! What holds of clipping a working set against a list of planes.

use vstd::prelude::*;
use crate::clip::{clipped, fully_inside, fully_outside};
use crate::clip_lemmas::{cut_stays_in, cut_stays_within, kernel_is_exact};
use crate::clip_lemmas::{lemma_clipped_inside, lemma_clipped_outside};
use crate::clip_lemmas::{lemma_fragments_not_behind, lemma_fragments_stay_in};
use crate::passes::{chain_result, pass_result, pieces_of};
use crate::side::Side;
use crate::triangle::Triangle;

verus! {

/// Every item of a flattened sequence is an item of one of its parts.
pub proof fn lemma_flatten_item<A>(parts: Seq<Seq<A>>, n: int) -> (at: (int, int))
    requires
        0 <= n < parts.flatten().len(),
    ensures
        0 <= at.0 < parts.len(),
        0 <= at.1 < parts[at.0].len(),
        parts.flatten()[n] == parts[at.0][at.1],
    decreases parts.len(),
{
    if n < parts.first().len() {
        (0, n)
    } else {
        let rest = parts.drop_first();
        let (i, j) = lemma_flatten_item(rest, n - parts.first().len());
        assert(rest[i] == parts[i + 1]);
        (i + 1, j)
    }
}

/// Flattening parts that are all empty gives nothing.
pub proof fn lemma_flatten_of_empties<A>(parts: Seq<Seq<A>>)
    requires
        forall|i: int| 0 <= i < parts.len() ==> (#[trigger] parts[i]).len() == 0,
    ensures
        parts.flatten().len() == 0,
{
    if parts.flatten().len() > 0 {
        let (i, j) = lemma_flatten_item(parts, 0);
        assert(parts[i].len() == 0);
    }
}

/// Flattening parts that each hold one item gives the items.
pub proof fn lemma_flatten_of_singles<A>(parts: Seq<Seq<A>>, items: Seq<A>)
    requires
        parts.len() == items.len(),
        forall|i: int| 0 <= i < parts.len() ==> #[trigger] parts[i] == seq![items[i]],
    ensures
        parts.flatten() == items,
    decreases parts.len(),
{
    if parts.len() == 0 {
        assert(items =~= Seq::<A>::empty());
    } else {
        let shorter = parts.drop_last();
        let fewer = items.drop_last();
        assert forall|i: int| 0 <= i < shorter.len() implies #[trigger] shorter[i] == seq![
            fewer[i],
        ] by {
            assert(shorter[i] == parts[i]);
        }
        lemma_flatten_of_singles(shorter, fewer);
        shorter.lemma_flatten_push(parts.last());
        assert(shorter.push(parts.last()) == parts);
        assert(parts.last() == seq![items.last()]);
        assert(fewer + seq![items.last()] == items);
    }
}

/// A pass over a working set that lies inside the plane with every vertex
/// leaves the working set as it is.
pub proof fn lemma_pass_inside<P, V, S: Fn(&P, &V) -> Side, C: Fn(&P, &V, &V) -> V>(
    plane: P,
    work: Seq<Triangle<V>>,
    side_of: S,
    cut: C,
    out: Seq<Triangle<V>>,
)
    requires
        pass_result(plane, work, side_of, cut, out),
        forall|i: int| 0 <= i < work.len() ==> fully_inside(plane, #[trigger] work[i], side_of),
    ensures
        out == work,
{
    let pieces = choose|pieces: Seq<Seq<Triangle<V>>>| #[trigger]
        pieces_of(plane, work, side_of, cut, pieces) && out == pieces.flatten();
    assert forall|i: int| 0 <= i < pieces.len() implies #[trigger] pieces[i] == seq![work[i]] by {
        assert(clipped(plane, work[i], side_of, cut, pieces[i]));
        assert(fully_inside(plane, work[i], side_of));
        lemma_clipped_inside(plane, work[i], side_of, cut, pieces[i]);
    }
    lemma_flatten_of_singles(pieces, work);
}

/// A pass over a working set of which no vertex lies inside the plane leaves
/// nothing.
pub proof fn lemma_pass_outside<P, V, S: Fn(&P, &V) -> Side, C: Fn(&P, &V, &V) -> V>(
    plane: P,
    work: Seq<Triangle<V>>,
    side_of: S,
    cut: C,
    out: Seq<Triangle<V>>,
)
    requires
        pass_result(plane, work, side_of, cut, out),
        forall|i: int| 0 <= i < work.len() ==> fully_outside(plane, #[trigger] work[i], side_of),
    ensures
        out.len() == 0,
{
    let pieces = choose|pieces: Seq<Seq<Triangle<V>>>| #[trigger]
        pieces_of(plane, work, side_of, cut, pieces) && out == pieces.flatten();
    assert forall|i: int| 0 <= i < pieces.len() implies (#[trigger] pieces[i]).len() == 0 by {
        assert(clipped(plane, work[i], side_of, cut, pieces[i]));
        assert(fully_outside(plane, work[i], side_of));
        lemma_clipped_outside(plane, work[i], side_of, cut, pieces[i]);
    }
    lemma_flatten_of_empties(pieces);
}

/// Clipping a triangle against planes that it lies inside of with every
/// vertex leaves the triangle alone and as it is.
pub proof fn lemma_chain_inside<P, V, S: Fn(&P, &V) -> Side, C: Fn(&P, &V, &V) -> V>(
    planes: Seq<P>,
    t: Triangle<V>,
    side_of: S,
    cut: C,
    out: Seq<Triangle<V>>,
)
    requires
        chain_result(planes, seq![t], side_of, cut, out),
        forall|e: int| 0 <= e < planes.len() ==> fully_inside(#[trigger] planes[e], t, side_of),
    ensures
        out == seq![t],
    decreases planes.len(),
{
    if planes.len() > 0 {
        let earlier = planes.drop_last();
        let mid = choose|mid: Seq<Triangle<V>>|
            chain_result(earlier, seq![t], side_of, cut, mid) && #[trigger] pass_result(
                planes.last(),
                mid,
                side_of,
                cut,
                out,
            );
        assert forall|e: int| 0 <= e < earlier.len() implies fully_inside(
            #[trigger] earlier[e],
            t,
            side_of,
        ) by {
            assert(earlier[e] == planes[e]);
        }
        lemma_chain_inside(earlier, t, side_of, cut, mid);
        assert(fully_inside(planes[planes.len() - 1], t, side_of));
        assert forall|i: int| 0 <= i < mid.len() implies fully_inside(
            planes.last(),
            #[trigger] mid[i],
            side_of,
        ) by {}
        lemma_pass_inside(planes.last(), mid, side_of, cut, out);
    }
}

/// With an exact kernel, no vertex of what a pass leaves lies behind its
/// plane.
pub proof fn lemma_pass_leaves_nothing_behind<
    P,
    V,
    S: Fn(&P, &V) -> Side,
    C: Fn(&P, &V, &V) -> V,
>(
    plane: P,
    work: Seq<Triangle<V>>,
    side_of: S,
    cut: C,
    out: Seq<Triangle<V>>,
    lies: spec_fn(P, V) -> Side,
)
    requires
        pass_result(plane, work, side_of, cut, out),
        kernel_is_exact(plane, side_of, cut, lies),
    ensures
        forall|k: int, j: int|
            0 <= k < out.len() && 0 <= j < 3 ==> lies(plane, #[trigger] out[k].p[j])
                != Side::Behind,
{
    let pieces = choose|pieces: Seq<Seq<Triangle<V>>>| #[trigger]
        pieces_of(plane, work, side_of, cut, pieces) && out == pieces.flatten();
    assert forall|k: int, j: int| 0 <= k < out.len() && 0 <= j < 3 implies lies(
        plane,
        #[trigger] out[k].p[j],
    ) != Side::Behind by {
        let (i, m) = lemma_flatten_item(pieces, k);
        assert(clipped(plane, work[i], side_of, cut, pieces[i]));
        lemma_fragments_not_behind(plane, work[i], side_of, cut, pieces[i], lies);
        assert(lies(plane, pieces[i][m].p[j]) != Side::Behind);
    }
}

/// If every vertex of the working set lies in a region, and cutting on
/// `plane` stays in the region, then every vertex of what a pass for `plane`
/// leaves lies in the region.
pub proof fn lemma_pass_stays_in<P, V, S: Fn(&P, &V) -> Side, C: Fn(&P, &V, &V) -> V>(
    plane: P,
    work: Seq<Triangle<V>>,
    side_of: S,
    cut: C,
    out: Seq<Triangle<V>>,
    region: spec_fn(V) -> bool,
)
    requires
        pass_result(plane, work, side_of, cut, out),
        forall|k: int, j: int| 0 <= k < work.len() && 0 <= j < 3 ==> region(#[trigger] work[k].p[j]),
        forall|a: V, b: V, x: V| #[trigger] cut_stays_in(plane, cut, region, a, b, x),
    ensures
        forall|k: int, j: int| 0 <= k < out.len() && 0 <= j < 3 ==> region(#[trigger] out[k].p[j]),
{
    let pieces = choose|pieces: Seq<Seq<Triangle<V>>>| #[trigger]
        pieces_of(plane, work, side_of, cut, pieces) && out == pieces.flatten();
    assert forall|k: int, j: int| 0 <= k < out.len() && 0 <= j < 3 implies region(
        #[trigger] out[k].p[j],
    ) by {
        let (i, m) = lemma_flatten_item(pieces, k);
        assert(clipped(plane, work[i], side_of, cut, pieces[i]));
        assert forall|n: int| 0 <= n < 3 implies region(#[trigger] work[i].p[n]) by {}
        lemma_fragments_stay_in(plane, work[i], side_of, cut, pieces[i], region);
        assert(region(pieces[i][m].p[j]));
    }
}

/// If every vertex of the working set lies in a region, and cutting on each
/// of `planes` stays in the region, then every vertex of what remains after
/// clipping against all of `planes` lies in the region.
pub proof fn lemma_chain_stays_in<P, V, S: Fn(&P, &V) -> Side, C: Fn(&P, &V, &V) -> V>(
    planes: Seq<P>,
    start: Seq<Triangle<V>>,
    side_of: S,
    cut: C,
    out: Seq<Triangle<V>>,
    region: spec_fn(V) -> bool,
)
    requires
        chain_result(planes, start, side_of, cut, out),
        forall|k: int, j: int|
            0 <= k < start.len() && 0 <= j < 3 ==> region(#[trigger] start[k].p[j]),
        forall|e: int, a: V, b: V, x: V|
            0 <= e < planes.len() ==> #[trigger] cut_stays_in(planes[e], cut, region, a, b, x),
    ensures
        forall|k: int, j: int| 0 <= k < out.len() && 0 <= j < 3 ==> region(#[trigger] out[k].p[j]),
    decreases planes.len(),
{
    if planes.len() > 0 {
        let earlier = planes.drop_last();
        let last = planes.last();
        let mid = choose|mid: Seq<Triangle<V>>|
            chain_result(earlier, start, side_of, cut, mid) && #[trigger] pass_result(
                last,
                mid,
                side_of,
                cut,
                out,
            );
        assert forall|e: int, a: V, b: V, x: V| 0 <= e < earlier.len() implies #[trigger] cut_stays_in(
            earlier[e],
            cut,
            region,
            a,
            b,
            x,
        ) by {
            assert(cut_stays_in(planes[e], cut, region, a, b, x));
        }
        lemma_chain_stays_in(earlier, start, side_of, cut, mid, region);
        assert forall|a: V, b: V, x: V| #[trigger] cut_stays_in(last, cut, region, a, b, x) by {
            assert(cut_stays_in(planes[planes.len() - 1], cut, region, a, b, x));
        }
        lemma_pass_stays_in(last, mid, side_of, cut, out, region);
    }
}

/// With an exact kernel whose cuts stay within every plane, what remains
/// after clipping against all of `planes` lies behind none of them: every
/// vertex of every remaining triangle is in front of or on each plane.
pub proof fn lemma_chain_leaves_nothing_behind<
    P,
    V,
    S: Fn(&P, &V) -> Side,
    C: Fn(&P, &V, &V) -> V,
>(
    planes: Seq<P>,
    start: Seq<Triangle<V>>,
    side_of: S,
    cut: C,
    out: Seq<Triangle<V>>,
    lies: spec_fn(P, V) -> Side,
)
    requires
        chain_result(planes, start, side_of, cut, out),
        forall|e: int|
            0 <= e < planes.len() ==> kernel_is_exact(#[trigger] planes[e], side_of, cut, lies),
        forall|e: int, q: int, a: V, b: V, x: V|
            0 <= e < planes.len() && 0 <= q < planes.len() ==> #[trigger] cut_stays_within(
                planes[e],
                planes[q],
                cut,
                lies,
                a,
                b,
                x,
            ),
    ensures
        forall|q: int, k: int, j: int|
            0 <= q < planes.len() && 0 <= k < out.len() && 0 <= j < 3 ==> lies(
                #[trigger] planes[q],
                #[trigger] out[k].p[j],
            ) != Side::Behind,
    decreases planes.len(),
{
    if planes.len() > 0 {
        let earlier = planes.drop_last();
        let last = planes.last();
        let mid = choose|mid: Seq<Triangle<V>>|
            chain_result(earlier, start, side_of, cut, mid) && #[trigger] pass_result(
                last,
                mid,
                side_of,
                cut,
                out,
            );
        assert forall|e: int| 0 <= e < earlier.len() implies kernel_is_exact(
            #[trigger] earlier[e],
            side_of,
            cut,
            lies,
        ) by {
            assert(earlier[e] == planes[e]);
        }
        assert forall|e: int, q: int, a: V, b: V, x: V|
            0 <= e < earlier.len() && 0 <= q < earlier.len() implies #[trigger] cut_stays_within(
            earlier[e],
            earlier[q],
            cut,
            lies,
            a,
            b,
            x,
        ) by {
            assert(cut_stays_within(planes[e], planes[q], cut, lies, a, b, x));
        }
        lemma_chain_leaves_nothing_behind(earlier, start, side_of, cut, mid, lies);
        assert forall|q: int, k: int, j: int|
            0 <= q < planes.len() && 0 <= k < out.len() && 0 <= j < 3 implies lies(
            #[trigger] planes[q],
            #[trigger] out[k].p[j],
        ) != Side::Behind by {
            if q < earlier.len() {
                assert(earlier[q] == planes[q]);
                let region = |v: V| lies(planes[q], v) != Side::Behind;
                assert forall|a: V, b: V, x: V| #[trigger]
                    cut_stays_in(last, cut, region, a, b, x) by {
                    assert(cut_stays_within(
                        planes[planes.len() - 1],
                        planes[q],
                        cut,
                        lies,
                        a,
                        b,
                        x,
                    ));
                }
                assert forall|k: int, j: int| 0 <= k < mid.len() && 0 <= j < 3 implies region(
                    #[trigger] mid[k].p[j],
                ) by {
                    assert(lies(earlier[q], mid[k].p[j]) != Side::Behind);
                }
                lemma_pass_stays_in(last, mid, side_of, cut, out, region);
                assert(region(out[k].p[j]));
            } else {
                assert(kernel_is_exact(planes[q], side_of, cut, lies));
                lemma_pass_leaves_nothing_behind(last, mid, side_of, cut, out, lies);
            }
        }
    }
}

/// Whether a point `x` that `cut` gives on `plane` for the edge from `a` to
/// `b` is not inside the plane `other` when neither `a` nor `b` is: the
/// outside of a plane, the plane included, holds every segment between two
/// of its points.
pub open spec fn cut_stays_outside<P, V, C: Fn(&P, &V, &V) -> V>(
    plane: P,
    other: P,
    cut: C,
    lies: spec_fn(P, V) -> Side,
    a: V,
    b: V,
    x: V,
) -> bool {
    !lies(other, a).is_inside() && !lies(other, b).is_inside() && call_ensures(
        cut,
        (&plane, &a, &b),
        x,
    ) ==> !lies(other, x).is_inside()
}

/// Nothing remains of a working set that has no vertex inside plane number
/// `q`, if `side_of` finds the true side on that plane and the cuts on the
/// planes before it stay outside of it.
pub proof fn lemma_chain_leaves_nothing_of_outside<
    P,
    V,
    S: Fn(&P, &V) -> Side,
    C: Fn(&P, &V, &V) -> V,
>(
    planes: Seq<P>,
    start: Seq<Triangle<V>>,
    side_of: S,
    cut: C,
    out: Seq<Triangle<V>>,
    lies: spec_fn(P, V) -> Side,
    q: int,
)
    requires
        chain_result(planes, start, side_of, cut, out),
        0 <= q < planes.len(),
        forall|v: V, s: Side| #[trigger]
            call_ensures(side_of, (&planes[q], &v), s) ==> s == lies(planes[q], v),
        forall|k: int, j: int|
            0 <= k < start.len() && 0 <= j < 3 ==> !lies(planes[q], #[trigger] start[k].p[j]).is_inside(),
        forall|e: int, a: V, b: V, x: V|
            0 <= e < q ==> #[trigger] cut_stays_outside(planes[e], planes[q], cut, lies, a, b, x),
    ensures
        out.len() == 0,
    decreases planes.len(),
{
    let earlier = planes.drop_last();
    let last = planes.last();
    let mid = choose|mid: Seq<Triangle<V>>|
        chain_result(earlier, start, side_of, cut, mid) && #[trigger] pass_result(
            last,
            mid,
            side_of,
            cut,
            out,
        );
    if q < earlier.len() {
        assert(earlier[q] == planes[q]);
        assert forall|e: int, a: V, b: V, x: V| 0 <= e < q implies #[trigger] cut_stays_outside(
            earlier[e],
            earlier[q],
            cut,
            lies,
            a,
            b,
            x,
        ) by {
            assert(cut_stays_outside(planes[e], planes[q], cut, lies, a, b, x));
        }
        lemma_chain_leaves_nothing_of_outside(earlier, start, side_of, cut, mid, lies, q);
        assert forall|i: int| 0 <= i < mid.len() implies fully_outside(
            last,
            #[trigger] mid[i],
            side_of,
        ) by {}
        lemma_pass_outside(last, mid, side_of, cut, out);
    } else {
        let region = |v: V| !lies(planes[q], v).is_inside();
        assert forall|e: int, a: V, b: V, x: V| 0 <= e < earlier.len() implies #[trigger] cut_stays_in(
            earlier[e],
            cut,
            region,
            a,
            b,
            x,
        ) by {
            assert(cut_stays_outside(planes[e], planes[q], cut, lies, a, b, x));
        }
        assert forall|k: int, j: int| 0 <= k < start.len() && 0 <= j < 3 implies region(
            #[trigger] start[k].p[j],
        ) by {}
        lemma_chain_stays_in(earlier, start, side_of, cut, mid, region);
        assert forall|i: int| 0 <= i < mid.len() implies fully_outside(
            last,
            #[trigger] mid[i],
            side_of,
        ) by {
            assert forall|n: int, s: Side|
                0 <= n < 3 && #[trigger] call_ensures(side_of, (&last, &mid[i].p[n]), s) implies !s.is_inside() by {
                assert(region(mid[i].p[n]));
            }
        }
        lemma_pass_outside(last, mid, side_of, cut, out);
    }
}

} // verus!
