//! One frame: from the faces of a scene to the triangles to draw, in the
//! order in which to draw them.
//!
//! The stages run in a fixed order. A face that is not turned to the viewer
//! is dropped. A face that is seen is taken to view space and clipped
//! against the near plane. Each fragment that the near plane leaves is taken
//! to the screen and clipped against the screen planes, one after the other.
//! What remains of all faces is collected in the order of the faces, and only
//! then sorted into painter's order.

use vstd::prelude::*;
use crate::clip::{clipped, clipping, fragments, fully_inside, lemma_fragments_pair};
use crate::clip_lemmas::lemma_clipped_inside;
use crate::depth::{depth_sort, painted};
use crate::pass_lemmas::{lemma_chain_inside, lemma_flatten_of_empties};
use crate::passes::{chain_result, clip_against_planes};
use crate::side::Side;
use crate::triangle::Triangle;

verus! {

/// Whether `part` is what remains on the screen of the near fragment
/// `fragment` of `face`: `image` is its image on the screen, and `part` is
/// the image clipped against the screen planes.
pub open spec fn fragment_result<
    P,
    V,
    N: Fn(&Triangle<V>, &Triangle<V>) -> Triangle<V>,
    S: Fn(&P, &V) -> Side,
    C: Fn(&P, &V, &V) -> V,
>(
    face: Triangle<V>,
    fragment: Triangle<V>,
    to_screen: N,
    screen: Seq<P>,
    side_of: S,
    cut: C,
    image: Triangle<V>,
    part: Seq<Triangle<V>>,
) -> bool {
    &&& call_ensures(to_screen, (&face, &fragment), image)
    &&& chain_result(screen, seq![image], side_of, cut, part)
}

/// Whether `images` and `parts` hold, for each near fragment in order, its
/// image on the screen and what remains of that image.
pub open spec fn fragments_result<
    P,
    V,
    N: Fn(&Triangle<V>, &Triangle<V>) -> Triangle<V>,
    S: Fn(&P, &V) -> Side,
    C: Fn(&P, &V, &V) -> V,
>(
    face: Triangle<V>,
    near_fragments: Seq<Triangle<V>>,
    to_screen: N,
    screen: Seq<P>,
    side_of: S,
    cut: C,
    images: Seq<Triangle<V>>,
    parts: Seq<Seq<Triangle<V>>>,
) -> bool {
    &&& images.len() == near_fragments.len()
    &&& parts.len() == near_fragments.len()
    &&& forall|k: int|
        0 <= k < near_fragments.len() ==> fragment_result(
            face,
            near_fragments[k],
            to_screen,
            screen,
            side_of,
            cut,
            images[k],
            #[trigger] parts[k],
        )
}

/// Whether `entry` is what remains of a face that is seen: `viewed` is the
/// face in view space, `near_fragments` is what the near plane leaves of it,
/// and `entry` holds what remains on the screen of the first fragment, then
/// of the second.
pub open spec fn seen_result<
    P,
    V,
    W: Fn(&Triangle<V>) -> Triangle<V>,
    N: Fn(&Triangle<V>, &Triangle<V>) -> Triangle<V>,
    S: Fn(&P, &V) -> Side,
    C: Fn(&P, &V, &V) -> V,
>(
    face: Triangle<V>,
    to_view: W,
    near: P,
    to_screen: N,
    screen: Seq<P>,
    side_of: S,
    cut: C,
    viewed: Triangle<V>,
    near_fragments: Seq<Triangle<V>>,
    images: Seq<Triangle<V>>,
    parts: Seq<Seq<Triangle<V>>>,
    entry: Seq<Triangle<V>>,
) -> bool {
    &&& call_ensures(to_view, (&face,), viewed)
    &&& clipped(near, viewed, side_of, cut, near_fragments)
    &&& fragments_result(face, near_fragments, to_screen, screen, side_of, cut, images, parts)
    &&& entry == parts.flatten()
}

/// Whether `entry` is what remains of a face that is seen, for some view of
/// it, some near fragments and some images of them.
pub open spec fn seen<
    P,
    V,
    W: Fn(&Triangle<V>) -> Triangle<V>,
    N: Fn(&Triangle<V>, &Triangle<V>) -> Triangle<V>,
    S: Fn(&P, &V) -> Side,
    C: Fn(&P, &V, &V) -> V,
>(
    face: Triangle<V>,
    to_view: W,
    near: P,
    to_screen: N,
    screen: Seq<P>,
    side_of: S,
    cut: C,
    entry: Seq<Triangle<V>>,
) -> bool {
    exists|
        viewed: Triangle<V>,
        near_fragments: Seq<Triangle<V>>,
        images: Seq<Triangle<V>>,
        parts: Seq<Seq<Triangle<V>>>,
    | #[trigger]
        seen_result(
            face,
            to_view,
            near,
            to_screen,
            screen,
            side_of,
            cut,
            viewed,
            near_fragments,
            images,
            parts,
            entry,
        )
}

/// Whether `entry` is what remains of `face`, given that `facing` finds the
/// viewer's ray on `side` of it: nothing unless the face is turned to the
/// viewer.
pub open spec fn face_result<
    P,
    V,
    F: Fn(&Triangle<V>) -> Side,
    W: Fn(&Triangle<V>) -> Triangle<V>,
    N: Fn(&Triangle<V>, &Triangle<V>) -> Triangle<V>,
    S: Fn(&P, &V) -> Side,
    C: Fn(&P, &V, &V) -> V,
>(
    face: Triangle<V>,
    facing: F,
    to_view: W,
    near: P,
    to_screen: N,
    screen: Seq<P>,
    side_of: S,
    cut: C,
    side: Side,
    entry: Seq<Triangle<V>>,
) -> bool {
    &&& call_ensures(facing, (&face,), side)
    &&& if side.is_facing_viewer() {
        seen(face, to_view, near, to_screen, screen, side_of, cut, entry)
    } else {
        entry.len() == 0
    }
}

/// Whether `entry` is what remains of `face`, for some side that `facing`
/// gives.
pub open spec fn face_left<
    P,
    V,
    F: Fn(&Triangle<V>) -> Side,
    W: Fn(&Triangle<V>) -> Triangle<V>,
    N: Fn(&Triangle<V>, &Triangle<V>) -> Triangle<V>,
    S: Fn(&P, &V) -> Side,
    C: Fn(&P, &V, &V) -> V,
>(
    face: Triangle<V>,
    facing: F,
    to_view: W,
    near: P,
    to_screen: N,
    screen: Seq<P>,
    side_of: S,
    cut: C,
    entry: Seq<Triangle<V>>,
) -> bool {
    exists|side: Side| #[trigger]
        face_result(face, facing, to_view, near, to_screen, screen, side_of, cut, side, entry)
}

/// Whether `left` holds, for each face in order, what remains of it.
pub open spec fn faces_result<
    P,
    V,
    F: Fn(&Triangle<V>) -> Side,
    W: Fn(&Triangle<V>) -> Triangle<V>,
    N: Fn(&Triangle<V>, &Triangle<V>) -> Triangle<V>,
    S: Fn(&P, &V) -> Side,
    C: Fn(&P, &V, &V) -> V,
>(
    faces: Seq<Triangle<V>>,
    facing: F,
    to_view: W,
    near: P,
    to_screen: N,
    screen: Seq<P>,
    side_of: S,
    cut: C,
    left: Seq<Seq<Triangle<V>>>,
) -> bool {
    &&& left.len() == faces.len()
    &&& forall|i: int|
        0 <= i < faces.len() ==> face_left(
            faces[i],
            facing,
            to_view,
            near,
            to_screen,
            screen,
            side_of,
            cut,
            #[trigger] left[i],
        )
}

/// Whether `out` is the frame of `faces`: what remains of the faces, in the
/// order of the faces, painted.
pub open spec fn frame_result<
    P,
    V,
    F: Fn(&Triangle<V>) -> Side,
    W: Fn(&Triangle<V>) -> Triangle<V>,
    N: Fn(&Triangle<V>, &Triangle<V>) -> Triangle<V>,
    S: Fn(&P, &V) -> Side,
    C: Fn(&P, &V, &V) -> V,
    K: Fn(&Triangle<V>) -> i64,
>(
    faces: Seq<Triangle<V>>,
    facing: F,
    to_view: W,
    near: P,
    to_screen: N,
    screen: Seq<P>,
    side_of: S,
    cut: C,
    depth_key: K,
    out: Seq<Triangle<V>>,
) -> bool {
    exists|left: Seq<Seq<Triangle<V>>>| #[trigger]
        faces_result(faces, facing, to_view, near, to_screen, screen, side_of, cut, left)
            && painted(left.flatten(), depth_key, out)
}

/// What remains on the screen of a face that is seen.
fn seen_face<
    P,
    V: Copy,
    W: Fn(&Triangle<V>) -> Triangle<V>,
    N: Fn(&Triangle<V>, &Triangle<V>) -> Triangle<V>,
    S: Fn(&P, &V) -> Side,
    C: Fn(&P, &V, &V) -> V,
>(
    face: &Triangle<V>,
    to_view: &W,
    near: &P,
    to_screen: &N,
    screen: &[P],
    side_of: &S,
    cut: &C,
) -> (entry: Vec<Triangle<V>>)
    requires
        forall|t: Triangle<V>| call_requires(to_view, (&t,)),
        forall|t: Triangle<V>, u: Triangle<V>| call_requires(to_screen, (&t, &u)),
        forall|v: V| call_requires(side_of, (near, &v)),
        forall|a: V, b: V| call_requires(cut, (near, &a, &b)),
        forall|e: int, v: V| 0 <= e < screen.len() ==> call_requires(side_of, (&screen[e], &v)),
        forall|e: int, a: V, b: V|
            0 <= e < screen.len() ==> call_requires(cut, (&screen[e], &a, &b)),
    ensures
        seen(*face, *to_view, *near, *to_screen, screen@, *side_of, *cut, entry@),
{
    let viewed = to_view(face);
    let near_fragments = clipping(near, side_of, cut, &viewed);
    let mut entry: Vec<Triangle<V>> = Vec::new();
    let ghost mut images: Seq<Triangle<V>> = Seq::empty();
    let ghost mut parts: Seq<Seq<Triangle<V>>> = Seq::empty();
    proof {
        lemma_fragments_pair(near_fragments@);
        assert(parts.flatten() =~= Seq::<Triangle<V>>::empty());
    }
    if let Some(fragment) = near_fragments[0] {
        let image = to_screen(face, &fragment);
        let mut part = clip_against_planes(screen, side_of, cut, image);
        proof {
            parts.lemma_flatten_push(part@);
            images = images.push(image);
            parts = parts.push(part@);
        }
        entry.append(&mut part);
    }
    if let Some(fragment) = near_fragments[1] {
        let image = to_screen(face, &fragment);
        let mut part = clip_against_planes(screen, side_of, cut, image);
        proof {
            parts.lemma_flatten_push(part@);
            images = images.push(image);
            parts = parts.push(part@);
        }
        entry.append(&mut part);
    }
    proof {
        assert(fragments_result(
            *face,
            fragments(near_fragments@),
            *to_screen,
            screen@,
            *side_of,
            *cut,
            images,
            parts,
        ));
        assert(seen_result(
            *face,
            *to_view,
            *near,
            *to_screen,
            screen@,
            *side_of,
            *cut,
            viewed,
            fragments(near_fragments@),
            images,
            parts,
            entry@,
        ));
    }
    entry
}

/// Makes the frame of `faces`: the triangles to draw, the farthest first.
///
/// - `facing` tells on which side of a face the ray from the viewer to the
///   face lies. A face is seen if the ray lies behind it, that is, runs
///   against its normal; any other face leaves nothing.
/// - `to_view` takes a face that is seen to view space, where it is clipped
///   against the plane `near`.
/// - `to_screen` takes a fragment that the near plane leaves to the screen;
///   it is given the face too, from which the fragment has its light. The
///   image is clipped against each of the planes `screen` in turn.
/// - `side_of` and `cut` are the kernel of the clipping.
/// - What remains is collected face by face in the order of `faces`, and
///   then sorted by `depth_key`, the greatest key first. A frame of fewer
///   than two triangles is not sorted.
pub fn frame<
    P,
    V: Copy,
    F: Fn(&Triangle<V>) -> Side,
    W: Fn(&Triangle<V>) -> Triangle<V>,
    N: Fn(&Triangle<V>, &Triangle<V>) -> Triangle<V>,
    S: Fn(&P, &V) -> Side,
    C: Fn(&P, &V, &V) -> V,
    K: Fn(&Triangle<V>) -> i64,
>(
    faces: &Vec<Triangle<V>>,
    facing: &F,
    to_view: &W,
    near: &P,
    to_screen: &N,
    screen: &[P],
    side_of: &S,
    cut: &C,
    depth_key: &K,
) -> (out: Vec<Triangle<V>>)
    requires
        forall|t: Triangle<V>| call_requires(facing, (&t,)),
        forall|t: Triangle<V>| call_requires(to_view, (&t,)),
        forall|t: Triangle<V>, u: Triangle<V>| call_requires(to_screen, (&t, &u)),
        forall|t: Triangle<V>| call_requires(depth_key, (&t,)),
        forall|v: V| call_requires(side_of, (near, &v)),
        forall|a: V, b: V| call_requires(cut, (near, &a, &b)),
        forall|e: int, v: V| 0 <= e < screen.len() ==> call_requires(side_of, (&screen[e], &v)),
        forall|e: int, a: V, b: V|
            0 <= e < screen.len() ==> call_requires(cut, (&screen[e], &a, &b)),
    ensures
        frame_result(
            faces@,
            *facing,
            *to_view,
            *near,
            *to_screen,
            screen@,
            *side_of,
            *cut,
            *depth_key,
            out@,
        ),
{
    let mut survivors: Vec<Triangle<V>> = Vec::new();
    let ghost mut left: Seq<Seq<Triangle<V>>> = Seq::empty();
    proof {
        assert(left.flatten() =~= Seq::<Triangle<V>>::empty());
    }
    let mut i: usize = 0;
    while i < faces.len()
        invariant
            i <= faces.len(),
            forall|t: Triangle<V>| call_requires(facing, (&t,)),
            forall|t: Triangle<V>| call_requires(to_view, (&t,)),
            forall|t: Triangle<V>, u: Triangle<V>| call_requires(to_screen, (&t, &u)),
            forall|v: V| call_requires(side_of, (near, &v)),
            forall|a: V, b: V| call_requires(cut, (near, &a, &b)),
            forall|e: int, v: V| 0 <= e < screen.len() ==> call_requires(side_of, (&screen[e], &v)),
            forall|e: int, a: V, b: V|
                0 <= e < screen.len() ==> call_requires(cut, (&screen[e], &a, &b)),
            faces_result(
                faces@.take(i as int),
                *facing,
                *to_view,
                *near,
                *to_screen,
                screen@,
                *side_of,
                *cut,
                left,
            ),
            survivors@ == left.flatten(),
        decreases faces.len() - i,
    {
        let face = &faces[i];
        let side = facing(face);
        let mut entry: Vec<Triangle<V>> = if side.faces_viewer() {
            seen_face(face, to_view, near, to_screen, screen, side_of, cut)
        } else {
            Vec::new()
        };
        proof {
            assert(face_result(
                *face,
                *facing,
                *to_view,
                *near,
                *to_screen,
                screen@,
                *side_of,
                *cut,
                side,
                entry@,
            ));
            let longer = left.push(entry@);
            left.lemma_flatten_push(entry@);
            assert forall|n: int| 0 <= n < i + 1 implies face_left(
                faces@.take(i + 1)[n],
                *facing,
                *to_view,
                *near,
                *to_screen,
                screen@,
                *side_of,
                *cut,
                #[trigger] longer[n],
            ) by {
                if n < i {
                    assert(faces@.take(i as int)[n] == faces@.take(i + 1)[n]);
                    assert(longer[n] == left[n]);
                }
            }
            left = longer;
        }
        survivors.append(&mut entry);
        i = i + 1;
    }
    proof {
        assert(faces@.take(i as int) == faces@);
    }
    depth_sort(&survivors, depth_key)
}

/// A frame of faces that are all turned away from the viewer is empty:
/// nothing is drawn.
pub proof fn lemma_frame_of_faces_turned_away<
    P,
    V,
    F: Fn(&Triangle<V>) -> Side,
    W: Fn(&Triangle<V>) -> Triangle<V>,
    N: Fn(&Triangle<V>, &Triangle<V>) -> Triangle<V>,
    S: Fn(&P, &V) -> Side,
    C: Fn(&P, &V, &V) -> V,
    K: Fn(&Triangle<V>) -> i64,
>(
    faces: Seq<Triangle<V>>,
    facing: F,
    to_view: W,
    near: P,
    to_screen: N,
    screen: Seq<P>,
    side_of: S,
    cut: C,
    depth_key: K,
    out: Seq<Triangle<V>>,
)
    requires
        frame_result(faces, facing, to_view, near, to_screen, screen, side_of, cut, depth_key, out),
        forall|i: int, side: Side|
            0 <= i < faces.len() && #[trigger] call_ensures(facing, (&faces[i],), side)
                ==> !side.is_facing_viewer(),
    ensures
        out.len() == 0,
{
    let left = choose|left: Seq<Seq<Triangle<V>>>| #[trigger]
        faces_result(faces, facing, to_view, near, to_screen, screen, side_of, cut, left)
            && painted(left.flatten(), depth_key, out);
    assert forall|i: int| 0 <= i < left.len() implies (#[trigger] left[i]).len() == 0 by {
        assert(face_left(faces[i], facing, to_view, near, to_screen, screen, side_of, cut, left[i]));
    }
    lemma_flatten_of_empties(left);
}

/// A frame of one face that is turned to the viewer, lies inside the near
/// plane and whose image lies inside every screen plane holds exactly one
/// triangle: the image of the face on the screen, as `to_screen` gives it
/// for the face in view space.
pub proof fn lemma_frame_of_one_face_seen<
    P,
    V,
    F: Fn(&Triangle<V>) -> Side,
    W: Fn(&Triangle<V>) -> Triangle<V>,
    N: Fn(&Triangle<V>, &Triangle<V>) -> Triangle<V>,
    S: Fn(&P, &V) -> Side,
    C: Fn(&P, &V, &V) -> V,
    K: Fn(&Triangle<V>) -> i64,
>(
    face: Triangle<V>,
    facing: F,
    to_view: W,
    near: P,
    to_screen: N,
    screen: Seq<P>,
    side_of: S,
    cut: C,
    depth_key: K,
    out: Seq<Triangle<V>>,
) -> (viewed: Triangle<V>)
    requires
        frame_result(
            seq![face],
            facing,
            to_view,
            near,
            to_screen,
            screen,
            side_of,
            cut,
            depth_key,
            out,
        ),
        forall|side: Side| #[trigger]
            call_ensures(facing, (&face,), side) ==> side.is_facing_viewer(),
        forall|viewed: Triangle<V>| #[trigger]
            call_ensures(to_view, (&face,), viewed) ==> fully_inside(near, viewed, side_of),
        forall|viewed: Triangle<V>, image: Triangle<V>, e: int|
            call_ensures(to_view, (&face,), viewed) && #[trigger] call_ensures(
                to_screen,
                (&face, &viewed),
                image,
            ) && 0 <= e < screen.len() ==> fully_inside(#[trigger] screen[e], image, side_of),
    ensures
        out.len() == 1,
        call_ensures(to_view, (&face,), viewed),
        call_ensures(to_screen, (&face, &viewed), out[0]),
{
    let faces = seq![face];
    let left = choose|left: Seq<Seq<Triangle<V>>>| #[trigger]
        faces_result(faces, facing, to_view, near, to_screen, screen, side_of, cut, left)
            && painted(left.flatten(), depth_key, out);
    assert(face_left(faces[0], facing, to_view, near, to_screen, screen, side_of, cut, left[0]));
    let side = choose|side: Side| #[trigger]
        face_result(face, facing, to_view, near, to_screen, screen, side_of, cut, side, left[0]);
    assert(side.is_facing_viewer());
    let (viewed, near_fragments, images, parts) = choose|
        viewed: Triangle<V>,
        near_fragments: Seq<Triangle<V>>,
        images: Seq<Triangle<V>>,
        parts: Seq<Seq<Triangle<V>>>,
    | #[trigger]
        seen_result(
            face,
            to_view,
            near,
            to_screen,
            screen,
            side_of,
            cut,
            viewed,
            near_fragments,
            images,
            parts,
            left[0],
        );
    lemma_clipped_inside(near, viewed, side_of, cut, near_fragments);
    assert(near_fragments[0] == viewed);
    assert(fragment_result(
        face,
        near_fragments[0],
        to_screen,
        screen,
        side_of,
        cut,
        images[0],
        parts[0],
    ));
    assert forall|e: int| 0 <= e < screen.len() implies fully_inside(
        #[trigger] screen[e],
        images[0],
        side_of,
    ) by {}
    lemma_chain_inside(screen, images[0], side_of, cut, parts[0]);
    assert(parts =~= seq![seq![images[0]]]);
    parts.lemma_flatten_singleton();
    assert(left =~= seq![left[0]]);
    left.lemma_flatten_singleton();
    assert(left.flatten() == seq![images[0]]);
    viewed
}

} // verus!
