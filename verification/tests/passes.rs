use std::cell::RefCell;

use naive_gfx::passes::{clip_against_planes, clip_pass};
use naive_gfx::viewport::{screen_planes, PixelPlane};
use naive_gfx::{Color, Side, Triangle};

#[derive(Clone, Copy, Debug, PartialEq)]
struct Px {
    x: f32,
    y: f32,
}

fn px(x: f32, y: f32) -> Px {
    Px { x, y }
}

fn distance(plane: &PixelPlane, v: &Px) -> f32 {
    plane.normal.x as f32 * (v.x - plane.point.x as f32)
        + plane.normal.y as f32 * (v.y - plane.point.y as f32)
}

fn pixel_side(plane: &PixelPlane, v: &Px) -> Side {
    let d = distance(plane, v);
    if d > 0.0 {
        Side::Front
    } else if d < 0.0 {
        Side::Behind
    } else {
        Side::On
    }
}

fn pixel_cut(plane: &PixelPlane, a: &Px, b: &Px) -> Px {
    let da = distance(plane, a);
    let db = distance(plane, b);
    let t = da / (da - db);
    px(a.x + t * (b.x - a.x), a.y + t * (b.y - a.y))
}

fn doubled_area(t: &Triangle<Px>) -> f64 {
    let ux = (t.p[1].x - t.p[0].x) as f64;
    let uy = (t.p[1].y - t.p[0].y) as f64;
    let vx = (t.p[2].x - t.p[0].x) as f64;
    let vy = (t.p[2].y - t.p[0].y) as f64;
    (ux * vy - uy * vx).abs()
}

#[test]
fn screen_clip_keeps_a_triangle_on_the_screen() {
    let planes = screen_planes(640, 480);
    let t = Triangle::new(px(10.0, 10.0), px(600.0, 20.0), px(300.0, 470.0), None);
    let out = clip_against_planes(&planes, &pixel_side, &pixel_cut, t);
    assert_eq!(out.len(), 1);
    assert_eq!(out[0].p, t.p);
}

#[test]
fn screen_clip_discards_a_triangle_off_the_screen() {
    let planes = screen_planes(640, 480);
    let above = Triangle::new(px(10.0, -10.0), px(600.0, -20.0), px(300.0, -470.0), None);
    assert!(clip_against_planes(&planes, &pixel_side, &pixel_cut, above).is_empty());
    let right = Triangle::new(px(640.0, 10.0), px(700.0, 20.0), px(650.0, 470.0), None);
    assert!(clip_against_planes(&planes, &pixel_side, &pixel_cut, right).is_empty());
}

#[test]
fn screen_clip_cuts_along_the_top_edge() {
    let planes = screen_planes(640, 480);
    let t = Triangle::new(px(100.0, 100.0), px(300.0, 100.0), px(100.0, -100.0), None);
    let out = clip_against_planes(&planes, &pixel_side, &pixel_cut, t);
    assert_eq!(out.len(), 2);
    assert_eq!(out[0].p, [px(100.0, 100.0), px(300.0, 100.0), px(100.0, 0.0)]);
    assert_eq!(out[1].p, [px(300.0, 100.0), px(100.0, 0.0), px(200.0, 0.0)]);
}

#[test]
fn screen_clip_leaves_fragments_on_the_screen() {
    let width = 64u32;
    let height = 48u32;
    let planes = screen_planes(width, height);
    // covers the whole screen and sticks out over every edge
    let t = Triangle::new(px(-200.0, -40.0), px(300.0, -10.0), px(30.0, 400.0), Some(Color { r: 1, g: 2, b: 3, a: 4 }));
    let out = clip_against_planes(&planes, &pixel_side, &pixel_cut, t);
    assert!(!out.is_empty());
    assert!(out.len() <= 16);
    let mut total = 0.0f64;
    for fragment in &out {
        for v in fragment.p.iter() {
            assert!(v.x >= -1e-3 && v.x <= (width - 1) as f32 + 1e-3, "x = {}", v.x);
            assert!(v.y >= -1e-3 && v.y <= (height - 1) as f32 + 1e-3, "y = {}", v.y);
        }
        assert_eq!(fragment.color, Color { r: 1, g: 2, b: 3, a: 4 });
        total += doubled_area(fragment);
    }
    // the fragments tile the rectangle between the four edges
    let screen = 2.0 * ((width - 1) as f64) * ((height - 1) as f64);
    assert!((total - screen).abs() < 1e-2 * screen, "area {} of {}", total, screen);
}

#[test]
fn clip_against_no_planes_returns_the_triangle() {
    let none: [PixelPlane; 0] = [];
    let t = Triangle::new(px(-5.0, -5.0), px(1.0, 0.0), px(0.0, 1.0), None);
    let out = clip_against_planes(&none, &pixel_side, &pixel_cut, t);
    assert_eq!(out.len(), 1);
    assert_eq!(out[0].p, t.p);
}

#[test]
fn clip_against_planes_finishes_one_plane_before_the_next() {
    // planes are numbers; a vertex is inside plane k if it is greater than k
    let asked: RefCell<Vec<i32>> = RefCell::new(Vec::new());
    let side = |plane: &i32, v: &i32| {
        asked.borrow_mut().push(*plane);
        if v > plane {
            Side::Front
        } else {
            Side::Behind
        }
    };
    let cut = |plane: &i32, _: &i32, _: &i32| *plane + 100;
    let t = Triangle::new(0, 50, 60, None);
    let out = clip_against_planes(&[10, 20, 30], &side, &cut, t);
    // plane 10 splits the triangle in two, which both pass planes 20 and 30
    assert_eq!(out.len(), 2);
    assert_eq!(out[0].p, [50, 60, 110]);
    assert_eq!(out[1].p, [60, 110, 110]);
    assert_eq!(*asked.borrow(), vec![10, 10, 10, 20, 20, 20, 20, 20, 20, 30, 30, 30, 30, 30, 30]);
}

#[test]
fn clip_pass_collects_fragments_in_the_order_of_the_work() {
    let side = |plane: &i32, v: &i32| if v > plane { Side::Front } else { Side::On };
    let cut = |plane: &i32, from: &i32, to: &i32| *plane * 1000 + *from * 10 + *to;
    let work = vec![
        Triangle::new(1, 2, 3, None),
        Triangle::new(0, 0, 0, None),
        Triangle::new(4, 0, 5, None),
        Triangle::new(0, 6, 0, None),
    ];
    let out = clip_pass(&0, &side, &cut, &work);
    let points: Vec<[i32; 3]> = out.iter().map(|t| t.p).collect();
    assert_eq!(points, vec![[1, 2, 3], [4, 5, 40], [5, 40, 50], [6, 60, 60]]);
    // the work itself stays as it was
    assert_eq!(work.len(), 4);
}

#[test]
fn clip_pass_of_nothing_is_nothing() {
    let work: Vec<Triangle<Px>> = Vec::new();
    let planes = screen_planes(10, 10);
    assert!(clip_pass(&planes[0], &pixel_side, &pixel_cut, &work).is_empty());
}

#[test]
fn screen_clip_discards_a_triangle_beyond_a_later_plane() {
    // crosses the top edge and lies wholly right of the right edge
    let planes = screen_planes(640, 480);
    let t = Triangle::new(px(700.0, -50.0), px(900.0, 100.0), px(650.0, 200.0), None);
    assert!(clip_against_planes(&planes, &pixel_side, &pixel_cut, t).is_empty());
}
