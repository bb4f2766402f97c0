//! Clipping of a working set of triangles against a list of planes, one
//! plane after the other.

use vstd::prelude::*;
use vstd::arithmetic::power2::{lemma2_to64, lemma_pow2_unfold, pow2};
use crate::clip::{clipped, clipping, fragments, fully_inside, lemma_fragments_pair};
use crate::clip::{may_classify, may_cut};
use crate::side::Side;
use crate::triangle::Triangle;

verus! {

/// Whether `pieces` holds, for each triangle of `work` in order, a clipping
/// of that triangle against `plane`.
pub open spec fn pieces_of<P, V, S: Fn(&P, &V) -> Side, C: Fn(&P, &V, &V) -> V>(
    plane: P,
    work: Seq<Triangle<V>>,
    side_of: S,
    cut: C,
    pieces: Seq<Seq<Triangle<V>>>,
) -> bool {
    &&& pieces.len() == work.len()
    &&& forall|i: int|
        0 <= i < work.len() ==> clipped(plane, work[i], side_of, cut, #[trigger] pieces[i])
}

/// Whether `out` is what one pass over `work` leaves: every triangle of
/// `work` is clipped against `plane`, and what remains of the first comes
/// first, then what remains of the second, and so on.
pub open spec fn pass_result<P, V, S: Fn(&P, &V) -> Side, C: Fn(&P, &V, &V) -> V>(
    plane: P,
    work: Seq<Triangle<V>>,
    side_of: S,
    cut: C,
    out: Seq<Triangle<V>>,
) -> bool {
    exists|pieces: Seq<Seq<Triangle<V>>>| #[trigger]
        pieces_of(plane, work, side_of, cut, pieces) && out == pieces.flatten()
}

/// Whether `out` is what remains of the working set `start` after one pass
/// for each of `planes`, in order. Each pass takes the whole result of the
/// pass before it.
pub open spec fn chain_result<P, V, S: Fn(&P, &V) -> Side, C: Fn(&P, &V, &V) -> V>(
    planes: Seq<P>,
    start: Seq<Triangle<V>>,
    side_of: S,
    cut: C,
    out: Seq<Triangle<V>>,
) -> bool
    decreases planes.len(),
{
    if planes.len() == 0 {
        out == start
    } else {
        exists|mid: Seq<Triangle<V>>|
            chain_result(planes.drop_last(), start, side_of, cut, mid) && #[trigger] pass_result(
                planes.last(),
                mid,
                side_of,
                cut,
                out,
            )
    }
}

/// One more pass extends a chain of passes by one plane.
proof fn lemma_chain_step<P, V, S: Fn(&P, &V) -> Side, C: Fn(&P, &V, &V) -> V>(
    planes: Seq<P>,
    start: Seq<Triangle<V>>,
    side_of: S,
    cut: C,
    mid: Seq<Triangle<V>>,
    out: Seq<Triangle<V>>,
)
    requires
        planes.len() > 0,
        chain_result(planes.drop_last(), start, side_of, cut, mid),
        pass_result(planes.last(), mid, side_of, cut, out),
    ensures
        chain_result(planes, start, side_of, cut, out),
{
}

/// Clips every triangle of `work` against `plane` and collects what remains,
/// in the order of `work`.
pub fn clip_pass<P, V: Copy, S: Fn(&P, &V) -> Side, C: Fn(&P, &V, &V) -> V>(
    plane: &P,
    side_of: &S,
    cut: &C,
    work: &Vec<Triangle<V>>,
) -> (out: Vec<Triangle<V>>)
    requires
        forall|k: int| 0 <= k < work.len() ==> may_classify(*plane, #[trigger] work[k], *side_of),
        forall|k: int| 0 <= k < work.len() ==> may_cut(*plane, #[trigger] work[k], *side_of, *cut),
    ensures
        pass_result(*plane, work@, *side_of, *cut, out@),
        out.len() <= 2 * work.len(),
        (forall|i: int| 0 <= i < work.len() ==> fully_inside(*plane, #[trigger] work[i], *side_of))
            ==> out@ == work@,
{
    let mut out: Vec<Triangle<V>> = Vec::new();
    let ghost mut pieces: Seq<Seq<Triangle<V>>> = Seq::empty();
    let mut k: usize = 0;
    while k < work.len()
        invariant
            k <= work.len(),
            forall|k: int|
                0 <= k < work.len() ==> may_classify(*plane, #[trigger] work[k], *side_of),
            forall|k: int|
                0 <= k < work.len() ==> may_cut(*plane, #[trigger] work[k], *side_of, *cut),
            pieces_of(*plane, work@.take(k as int), *side_of, *cut, pieces),
            out@ == pieces.flatten(),
            out.len() <= 2 * k,
            (forall|i: int|
                0 <= i < work.len() ==> fully_inside(*plane, #[trigger] work[i], *side_of))
                ==> out@ == work@.take(k as int),
        decreases work.len() - k,
    {
        let res = clipping(plane, side_of, cut, &work[k]);
        proof {
            let piece = fragments(res@);
            lemma_fragments_pair(res@);
            pieces.lemma_flatten_push(piece);
            let longer = pieces.push(piece);
            assert(pieces_of(*plane, work@.take(k + 1), *side_of, *cut, longer)) by {
                assert forall|i: int| 0 <= i < k + 1 implies clipped(
                    *plane,
                    work@.take(k + 1)[i],
                    *side_of,
                    *cut,
                    #[trigger] longer[i],
                ) by {
                    if i < k {
                        assert(work@.take(k as int)[i] == work@.take(k + 1)[i]);
                        assert(longer[i] == pieces[i]);
                    }
                }
            }
            if forall|i: int|
                0 <= i < work.len() ==> fully_inside(*plane, #[trigger] work[i], *side_of) {
                assert(fully_inside(*plane, work[k as int], *side_of));
                assert(piece == seq![work[k as int]]);
                assert(work@.take(k + 1) == work@.take(k as int) + piece);
            }
            pieces = longer;
        }
        if let Some(t) = res[0] {
            out.push(t);
        }
        if let Some(t) = res[1] {
            out.push(t);
        }
        k = k + 1;
    }
    proof {
        assert(work@.take(k as int) == work@);
    }
    out
}

/// Clips `triangle` against each of `planes` in turn. The working set
/// starts as the triangle alone; each plane is applied to all that the
/// planes before it have left, and what it leaves is the working set for the
/// next. The result is the working set after the last plane.
pub fn clip_against_planes<P, V: Copy, S: Fn(&P, &V) -> Side, C: Fn(&P, &V, &V) -> V>(
    planes: &[P],
    side_of: &S,
    cut: &C,
    triangle: Triangle<V>,
) -> (out: Vec<Triangle<V>>)
    requires
        forall|e: int, v: V| 0 <= e < planes.len() ==> call_requires(side_of, (&planes[e], &v)),
        forall|e: int, a: V, b: V| 0 <= e < planes.len() ==> call_requires(cut, (&planes[e], &a, &b)),
    ensures
        chain_result(planes@, seq![triangle], *side_of, *cut, out@),
        out.len() <= pow2(planes.len() as nat),
        (forall|e: int| 0 <= e < planes.len() ==> fully_inside(#[trigger] planes[e], triangle, *side_of))
            ==> out@ == seq![triangle],
{
    let mut work: Vec<Triangle<V>> = Vec::new();
    work.push(triangle);
    let mut e: usize = 0;
    proof {
        assert(planes@.take(0).len() == 0);
        assert(work@ == seq![triangle]);
        lemma2_to64();
    }
    while e < planes.len()
        invariant
            e <= planes.len(),
            forall|e: int, v: V| 0 <= e < planes.len() ==> call_requires(side_of, (&planes[e], &v)),
            forall|e: int, a: V, b: V|
                0 <= e < planes.len() ==> call_requires(cut, (&planes[e], &a, &b)),
            chain_result(planes@.take(e as int), seq![triangle], *side_of, *cut, work@),
            work.len() <= pow2(e as nat),
            (forall|e: int|
                0 <= e < planes.len() ==> fully_inside(#[trigger] planes[e], triangle, *side_of))
                ==> work@ == seq![triangle],
        decreases planes.len() - e,
    {
        let ghost before = work@;
        let next = clip_pass(&planes[e], side_of, cut, &work);
        proof {
            let upto = planes@.take(e + 1);
            assert(upto.drop_last() == planes@.take(e as int));
            assert(upto.last() == planes[e as int]);
            assert(chain_result(upto.drop_last(), seq![triangle], *side_of, *cut, before));
            assert(pass_result(upto.last(), before, *side_of, *cut, next@));
            lemma_chain_step(upto, seq![triangle], *side_of, *cut, before, next@);
            lemma_pow2_unfold((e + 1) as nat);
            if forall|e: int|
                0 <= e < planes.len() ==> fully_inside(#[trigger] planes[e], triangle, *side_of) {
                assert(fully_inside(planes[e as int], triangle, *side_of));
                assert(before[0] == triangle);
            }
        }
        work = next;
        e = e + 1;
    }
    proof {
        assert(planes@.take(e as int) == planes@);
    }
    work
}

} // verus!
