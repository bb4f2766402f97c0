//! The four edges of the screen as clip planes in pixel space.

use vstd::prelude::*;
use crate::side::Side;

verus! {

/// A point or a direction of pixel space with whole-numbered coordinates.
#[derive(Clone, Copy, Debug, PartialEq, Eq, Structural)]
pub struct PixelVector {
    pub x: i64,
    pub y: i64,
    pub z: i64,
}

/// A clip plane of pixel space: a point on it, and its unit normal, which
/// points to the side that is kept.
#[derive(Clone, Copy, Debug, PartialEq, Eq, Structural)]
pub struct PixelPlane {
    pub point: PixelVector,
    pub normal: PixelVector,
}

/// The plane of screen edge `edge` for a screen of `width` by `height`
/// pixels: the top edge (0) keeps what lies below row 0, the bottom edge (1)
/// what lies above the last row, the left edge (2) what lies right of column
/// 0, the right edge (3) what lies left of the last column.
pub open spec fn screen_plane(edge: int, width: u32, height: u32) -> PixelPlane {
    if edge == 0 {
        PixelPlane {
            point: PixelVector { x: 0, y: 0, z: 0 },
            normal: PixelVector { x: 0, y: 1, z: 0 },
        }
    } else if edge == 1 {
        PixelPlane {
            point: PixelVector { x: 0, y: (height - 1) as i64, z: 0 },
            normal: PixelVector { x: 0, y: -1i64, z: 0 },
        }
    } else if edge == 2 {
        PixelPlane {
            point: PixelVector { x: 0, y: 0, z: 0 },
            normal: PixelVector { x: 1, y: 0, z: 0 },
        }
    } else {
        PixelPlane {
            point: PixelVector { x: (width - 1) as i64, y: 0, z: 0 },
            normal: PixelVector { x: -1i64, y: 0, z: 0 },
        }
    }
}

/// Signed distance of the point `(x, y, z)` to `plane`, along its normal.
pub open spec fn signed_distance(plane: PixelPlane, x: int, y: int, z: int) -> int {
    plane.normal.x * (x - plane.point.x) + plane.normal.y * (y - plane.point.y) + plane.normal.z
        * (z - plane.point.z)
}

/// The side of `plane` on which the point `(x, y, z)` lies.
pub open spec fn pixel_side(plane: PixelPlane, x: int, y: int, z: int) -> Side {
    if signed_distance(plane, x, y, z) > 0 {
        Side::Front
    } else if signed_distance(plane, x, y, z) < 0 {
        Side::Behind
    } else {
        Side::On
    }
}

/// The clip planes of the four screen edges, in the order in which a
/// triangle is clipped against them: top, bottom, left, right.
pub fn screen_planes(width: u32, height: u32) -> (planes: [PixelPlane; 4])
    ensures
        forall|edge: int| 0 <= edge < 4 ==> #[trigger] planes[edge] == screen_plane(edge, width, height),
{
    let origin = PixelVector { x: 0, y: 0, z: 0 };
    let last_row: i64 = height as i64 - 1;
    let last_column: i64 = width as i64 - 1;
    [
        PixelPlane { point: origin, normal: PixelVector { x: 0, y: 1, z: 0 } },
        PixelPlane {
            point: PixelVector { x: 0, y: last_row, z: 0 },
            normal: PixelVector { x: 0, y: -1, z: 0 },
        },
        PixelPlane { point: origin, normal: PixelVector { x: 1, y: 0, z: 0 } },
        PixelPlane {
            point: PixelVector { x: last_column, y: 0, z: 0 },
            normal: PixelVector { x: -1, y: 0, z: 0 },
        },
    ]
}

/// A point lies inside all four screen planes exactly when it lies strictly
/// between the first and the last column and strictly between the first and
/// the last row. So whatever lies inside all four is on the screen, with
/// coordinates from 0 to `width - 1` and from 0 to `height - 1`.
pub proof fn lemma_screen_planes_enclose(width: u32, height: u32, x: int, y: int, z: int)
    ensures
        (forall|edge: int|
            0 <= edge < 4 ==> (#[trigger] pixel_side(
                screen_plane(edge, width, height),
                x,
                y,
                z,
            )).is_inside()) <==> 0 < x < width - 1 && 0 < y < height - 1,
{
    let top = pixel_side(screen_plane(0, width, height), x, y, z);
    let bottom = pixel_side(screen_plane(1, width, height), x, y, z);
    let left = pixel_side(screen_plane(2, width, height), x, y, z);
    let right = pixel_side(screen_plane(3, width, height), x, y, z);
    assert(top.is_inside() <==> 0 < y);
    assert(bottom.is_inside() <==> y < height - 1);
    assert(left.is_inside() <==> 0 < x);
    assert(right.is_inside() <==> x < width - 1);
}

/// A point lies behind none of the four screen planes exactly when it is on
/// the screen: its column is between 0 and `width - 1` and its row between 0
/// and `height - 1`, the bounds included.
pub proof fn lemma_screen_planes_bound_the_screen(
    width: u32,
    height: u32,
    x: int,
    y: int,
    z: int,
)
    ensures
        (forall|edge: int|
            0 <= edge < 4 ==> #[trigger] pixel_side(screen_plane(edge, width, height), x, y, z)
                != Side::Behind) <==> 0 <= x <= width - 1 && 0 <= y <= height - 1,
{
    let top = pixel_side(screen_plane(0, width, height), x, y, z);
    let bottom = pixel_side(screen_plane(1, width, height), x, y, z);
    let left = pixel_side(screen_plane(2, width, height), x, y, z);
    let right = pixel_side(screen_plane(3, width, height), x, y, z);
    assert(top != Side::Behind <==> 0 <= y);
    assert(bottom != Side::Behind <==> y <= height - 1);
    assert(left != Side::Behind <==> 0 <= x);
    assert(right != Side::Behind <==> x <= width - 1);
}

} // verus!
