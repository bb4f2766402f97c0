use std::cell::RefCell;

use naive_gfx::clip::clipping;
use naive_gfx::depth::depth_key;
use naive_gfx::viewport::{screen_planes, PixelPlane};
use naive_gfx::{Color, Side, Triangle};

const WIDTH: u32 = 640;
const HEIGHT: u32 = 480;
const NEAR: f32 = 0.1;
const FAR: f32 = 1000.0;

#[derive(Clone, Copy, Debug, PartialEq)]
struct V4 {
    x: f32,
    y: f32,
    z: f32,
    w: f32,
}

fn v(x: f32, y: f32, z: f32) -> V4 {
    V4 { x, y, z, w: 1.0 }
}

fn sub(a: &V4, b: &V4) -> V4 {
    v(a.x - b.x, a.y - b.y, a.z - b.z)
}

fn dot(a: &V4, b: &V4) -> f32 {
    a.x * b.x + a.y * b.y + a.z * b.z
}

fn cross(a: &V4, b: &V4) -> V4 {
    v(a.y * b.z - a.z * b.y, a.z * b.x - a.x * b.z, a.x * b.y - a.y * b.x)
}

fn unit(a: &V4) -> V4 {
    let l = dot(a, a).sqrt();
    v(a.x / l, a.y / l, a.z / l)
}

fn sign(d: f32) -> Side {
    Side::of_bits(d.to_bits())
}

/// A plane as a point and a normal, both as `(x, y, z)`.
type Plane = ((f32, f32, f32), (f32, f32, f32));

fn side_of(plane: &Plane, p: &V4) -> Side {
    let (o, n) = plane;
    sign(n.0 * (p.x - o.0) + n.1 * (p.y - o.1) + n.2 * (p.z - o.2))
}

fn cut(plane: &Plane, a: &V4, b: &V4) -> V4 {
    let (o, n) = plane;
    let da = n.0 * (a.x - o.0) + n.1 * (a.y - o.1) + n.2 * (a.z - o.2);
    let db = n.0 * (b.x - o.0) + n.1 * (b.y - o.1) + n.2 * (b.z - o.2);
    let t = da / (da - db);
    v(a.x + t * (b.x - a.x), a.y + t * (b.y - a.y), a.z + t * (b.z - a.z))
}

fn as_plane(plane: &PixelPlane) -> Plane {
    (
        (plane.point.x as f32, plane.point.y as f32, plane.point.z as f32),
        (plane.normal.x as f32, plane.normal.y as f32, plane.normal.z as f32),
    )
}

/// The camera stands at the origin and looks down +z with y pointing down
/// the screen, so the view transform mirrors x and y.
fn view(p: &V4) -> V4 {
    v(-p.x, -p.y, p.z)
}

/// Perspective projection with a field of view of 90 degrees.
fn project(p: &V4) -> V4 {
    let aspect = HEIGHT as f32 / WIDTH as f32;
    V4 {
        x: p.x * aspect,
        y: p.y,
        z: p.z * (FAR / (FAR - NEAR)) - FAR * NEAR / (FAR - NEAR),
        w: p.z,
    }
}

fn to_pixels(q: &V4) -> V4 {
    V4 { x: (q.x + 1.0) * 0.5 * WIDTH as f32, y: (q.y + 1.0) * 0.5 * HEIGHT as f32, z: q.z, w: q.w }
}

fn normal(face: &Triangle<V4>) -> V4 {
    unit(&cross(&sub(&face.p[1], &face.p[0]), &sub(&face.p[2], &face.p[0])))
}

/// The triangles handed to the rasterizer for one frame, in drawing order.
fn frame(mesh: &[Triangle<V4>]) -> Vec<Triangle<V4>> {
    let camera = v(0.0, 0.0, 0.0);
    let light = unit(&v(0.0, 1.0, -1.0));
    let near: Plane = ((0.0, 0.0, NEAR), (0.0, 0.0, 1.0));
    let screen: Vec<Plane> = screen_planes(WIDTH, HEIGHT).iter().map(as_plane).collect();
    naive_gfx::frame::frame(
        &mesh.to_vec(),
        &|face: &Triangle<V4>| sign(dot(&normal(face), &sub(&face.p[0], &camera))),
        &|face: &Triangle<V4>| Triangle::from_matrix_application(&view, face),
        &near,
        &|face: &Triangle<V4>, fragment: &Triangle<V4>| {
            let luminance = dot(&light, &normal(face)).max(0.1);
            let mut projected = Triangle::from_matrix_application(&project, fragment);
            projected.normalize(&|p: &V4| p.w.to_bits(), &|p: &V4| v(p.x / p.w, p.y / p.w, p.z / p.w));
            projected.shade(&|c: u8| (c as f32 * luminance) as u8);
            Triangle::from_matrix_application(&to_pixels, &projected)
        },
        &screen,
        &side_of,
        &cut,
        &|t: &Triangle<V4>| {
            depth_key(((t.p[0].z + t.p[1].z + t.p[2].z) / 3.0).to_bits()).expect("a depth")
        },
    )
}

#[test]
fn frame_draws_a_triangle_that_faces_the_camera() {
    // the normal of this winding points down -z, at the camera
    let facing = Triangle::new(v(0.0, 0.0, 5.0), v(0.0, 1.0, 5.0), v(1.0, 0.0, 5.0), None);
    let drawn = frame(&[facing]);
    assert_eq!(drawn.len(), 1);
    let t = drawn[0];
    assert!((t.p[0].x - 320.0).abs() < 1e-3 && (t.p[0].y - 240.0).abs() < 1e-3);
    assert!((t.p[1].x - 320.0).abs() < 1e-3 && (t.p[1].y - 192.0).abs() < 1e-3);
    assert!((t.p[2].x - 272.0).abs() < 1e-3 && (t.p[2].y - 240.0).abs() < 1e-3);
    // lit from above and behind the camera: luminance 1 / sqrt(2)
    assert_eq!(t.base_color, Color { r: 255, g: 255, b: 255, a: 255 });
    assert_eq!(t.color, Color { r: 180, g: 180, b: 180, a: 255 });
}

#[test]
fn frame_draws_nothing_of_a_triangle_that_faces_away() {
    let away = Triangle::new(v(0.0, 0.0, 5.0), v(1.0, 0.0, 5.0), v(0.0, 1.0, 5.0), None);
    assert!(frame(&[away]).is_empty());
}

#[test]
fn frame_draws_nothing_of_a_triangle_seen_edge_on() {
    // the plane of the triangle passes through the camera
    let edge_on = Triangle::new(v(0.0, 0.0, 5.0), v(0.0, 0.0, 6.0), v(0.0, 1.0, 5.0), None);
    assert!(frame(&[edge_on]).is_empty());
}

#[test]
fn frame_draws_nothing_of_a_triangle_behind_the_camera() {
    // faces the camera, but lies behind the near plane
    let behind = Triangle::new(v(0.0, 0.0, -5.0), v(1.0, 0.0, -5.0), v(0.0, 1.0, -5.0), None);
    assert!(frame(&[behind]).is_empty());
}

#[test]
fn frame_clips_a_triangle_that_crosses_the_near_plane() {
    // two vertices behind the camera, one in front
    let crossing = Triangle::new(v(0.0, 0.0, 2.0), v(0.1, 0.0, -1.0), v(0.0, -0.1, -1.0), None);
    let normal = cross(&sub(&crossing.p[1], &crossing.p[0]), &sub(&crossing.p[2], &crossing.p[0]));
    assert!(dot(&normal, &crossing.p[0]) < 0.0);
    let viewed = Triangle::from_matrix_application(&view, &crossing);
    let near: Plane = ((0.0, 0.0, NEAR), (0.0, 0.0, 1.0));
    let clipped = clipping(&near, &side_of, &cut, &viewed);
    let only = clipped[0].expect("one triangle remains");
    assert!(clipped[1].is_none());
    for p in only.p.iter() {
        assert!(p.z >= NEAR - 1e-6);
    }
    let drawn = frame(&[crossing]);
    assert!(!drawn.is_empty());
    for t in &drawn {
        for p in t.p.iter() {
            assert!(p.x >= -1e-2 && p.x <= (WIDTH - 1) as f32 + 1e-2);
            assert!(p.y >= -1e-2 && p.y <= (HEIGHT - 1) as f32 + 1e-2);
        }
    }
}

#[test]
fn frame_paints_the_farthest_triangle_first() {
    let at = |z: f32, c: u8| {
        Triangle::new(v(0.0, 0.0, z), v(0.0, 1.0, z), v(1.0, 0.0, z), Some(Color { r: c, g: c, b: c, a: 255 }))
    };
    let drawn = frame(&[at(5.0, 50), at(20.0, 200), at(10.0, 100)]);
    let bases: Vec<u8> = drawn.iter().map(|t| t.base_color.r).collect();
    assert_eq!(bases, vec![200, 100, 50]);
}

#[test]
fn frame_asks_the_stages_in_order() {
    // vertices are numbers; a plane keeps what is greater than it
    let log: RefCell<Vec<String>> = RefCell::new(Vec::new());
    let faces = vec![
        Triangle::new(10, 20, 30, None),  // seen, passes whole
        Triangle::new(-1, -2, -3, None),  // turned away
        Triangle::new(40, 0, 50, None),   // seen, split by the near plane
    ];
    let out = naive_gfx::frame::frame(
        &faces,
        &|face: &Triangle<i32>| {
            log.borrow_mut().push(format!("facing {:?}", face.p));
            if face.p[0] > 0 { Side::Behind } else { Side::Front }
        },
        &|face: &Triangle<i32>| {
            log.borrow_mut().push(format!("view {:?}", face.p));
            Triangle::from_matrix_application(&|p: &i32| p + 1, face)
        },
        &5,
        &|face: &Triangle<i32>, fragment: &Triangle<i32>| {
            log.borrow_mut().push(format!("screen {:?} of {:?}", fragment.p, face.p));
            Triangle::from_matrix_application(&|p: &i32| p * 2, fragment)
        },
        &[6, 7],
        &|plane: &i32, p: &i32| if p > plane { Side::Front } else { Side::Behind },
        &|plane: &i32, _: &i32, _: &i32| *plane + 1000,
        &|t: &Triangle<i32>| {
            log.borrow_mut().push(format!("key {:?}", t.p));
            (t.p[0] + t.p[1] + t.p[2]) as i64
        },
    );
    let points: Vec<[i32; 3]> = out.iter().map(|t| t.p).collect();
    // near plane 5 splits (41, 1, 51) into (41, 51, 1005) and (51, 1005, 1005)
    assert_eq!(points, vec![[102, 2010, 2010], [82, 102, 2010], [22, 42, 62]]);
    assert_eq!(
        *log.borrow(),
        vec![
            "facing [10, 20, 30]",
            "view [10, 20, 30]",
            "screen [11, 21, 31] of [10, 20, 30]",
            "facing [-1, -2, -3]",
            "facing [40, 0, 50]",
            "view [40, 0, 50]",
            "screen [41, 51, 1005] of [40, 0, 50]",
            "screen [51, 1005, 1005] of [40, 0, 50]",
            "key [22, 42, 62]",
            "key [82, 102, 2010]",
            "key [102, 2010, 2010]",
        ]
    );
}

#[test]
fn frame_of_one_triangle_is_not_sorted() {
    let face = Triangle::new(1, 2, 3, None);
    let out = naive_gfx::frame::frame(
        &vec![face],
        &|_: &Triangle<i32>| Side::Behind,
        &|face: &Triangle<i32>| *face,
        &0,
        &|_: &Triangle<i32>, fragment: &Triangle<i32>| *fragment,
        &[0],
        &|plane: &i32, p: &i32| if p > plane { Side::Front } else { Side::Behind },
        &|plane: &i32, _: &i32, _: &i32| *plane,
        &|_: &Triangle<i32>| -> i64 { panic!("no depth is asked for") },
    );
    assert_eq!(out.len(), 1);
    assert_eq!(out[0].p, [1, 2, 3]);
}

#[test]
fn frame_without_faces_is_empty() {
    let faces: Vec<Triangle<i32>> = Vec::new();
    let out = naive_gfx::frame::frame(
        &faces,
        &|_: &Triangle<i32>| Side::Behind,
        &|face: &Triangle<i32>| *face,
        &0,
        &|_: &Triangle<i32>, fragment: &Triangle<i32>| *fragment,
        &[0],
        &|_: &i32, _: &i32| Side::Front,
        &|plane: &i32, _: &i32, _: &i32| *plane,
        &|_: &Triangle<i32>| 0,
    );
    assert!(out.is_empty());
}
