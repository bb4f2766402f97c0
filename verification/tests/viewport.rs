use naive_gfx::viewport::{screen_planes, PixelPlane, PixelVector};

fn v(x: i64, y: i64, z: i64) -> PixelVector {
    PixelVector { x, y, z }
}

#[test]
fn screen_planes_of_a_640_by_480_screen() {
    let planes = screen_planes(640, 480);
    assert_eq!(planes[0], PixelPlane { point: v(0, 0, 0), normal: v(0, 1, 0) });
    assert_eq!(planes[1], PixelPlane { point: v(0, 479, 0), normal: v(0, -1, 0) });
    assert_eq!(planes[2], PixelPlane { point: v(0, 0, 0), normal: v(1, 0, 0) });
    assert_eq!(planes[3], PixelPlane { point: v(639, 0, 0), normal: v(-1, 0, 0) });
}

#[test]
fn screen_planes_of_an_empty_screen() {
    let planes = screen_planes(0, 0);
    assert_eq!(planes[1].point, v(0, -1, 0));
    assert_eq!(planes[3].point, v(-1, 0, 0));
}

#[test]
fn screen_planes_of_the_largest_screen() {
    let planes = screen_planes(u32::MAX, u32::MAX);
    assert_eq!(planes[1].point, v(0, 4294967294, 0));
    assert_eq!(planes[3].point, v(4294967294, 0, 0));
}

#[test]
fn screen_planes_enclose_the_pixels_between_the_edges() {
    let planes = screen_planes(8, 6);
    for x in -2i64..10 {
        for y in -2i64..8 {
            let inside_all = planes.iter().all(|plane| {
                plane.normal.x * (x - plane.point.x)
                    + plane.normal.y * (y - plane.point.y)
                    + plane.normal.z * (0 - plane.point.z)
                    > 0
            });
            assert_eq!(inside_all, 0 < x && x < 7 && 0 < y && y < 5);
        }
    }
}
