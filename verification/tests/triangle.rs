use naive_gfx::{Color, Triangle};

#[test]
fn new_triangle_without_colour_is_white() {
    let t = Triangle::new(1u8, 2u8, 3u8, None);
    assert_eq!(t.p, [1, 2, 3]);
    assert_eq!(t.base_color, Color { r: 255, g: 255, b: 255, a: 255 });
    assert_eq!(t.color, Color { r: 255, g: 255, b: 255, a: 255 });
    assert_eq!(Color::white(), Color { r: 255, g: 255, b: 255, a: 255 });
}

#[test]
fn new_triangle_takes_the_given_colour_for_both() {
    let c = Color { r: 10, g: 20, b: 30, a: 40 };
    let t = Triangle::new(7i32, 8i32, 9i32, Some(c));
    assert_eq!(t.p, [7, 8, 9]);
    assert_eq!(t.base_color, c);
    assert_eq!(t.color, c);
}

#[test]
fn matrix_application_maps_each_vertex_in_order() {
    let base = Color { r: 1, g: 2, b: 3, a: 4 };
    let drawn = Color { r: 5, g: 6, b: 7, a: 8 };
    let origin = Triangle { p: [(1.0f32, 2.0f32), (3.0, 4.0), (5.0, 6.0)], base_color: base, color: drawn };
    let moved = Triangle::from_matrix_application(&|v: &(f32, f32)| (v.0 * 2.0, v.1 + 1.0), &origin);
    assert_eq!(moved.p, [(2.0, 3.0), (6.0, 5.0), (10.0, 7.0)]);
    assert_eq!(moved.base_color, base);
    assert_eq!(moved.color, drawn);
    // the source is left as it was
    assert_eq!(origin.p, [(1.0, 2.0), (3.0, 4.0), (5.0, 6.0)]);
}

#[test]
fn shade_scales_the_base_colour_and_keeps_opacity() {
    let base = Color { r: 255, g: 100, b: 10, a: 200 };
    let mut t = Triangle { p: [0u8, 1, 2], base_color: base, color: Color { r: 9, g: 9, b: 9, a: 77 } };
    let luminance = 0.5f32;
    t.shade(&|channel: u8| (channel as f32 * luminance) as u8);
    assert_eq!(t.color, Color { r: 127, g: 50, b: 5, a: 77 });
    assert_eq!(t.base_color, base);
    assert_eq!(t.p, [0, 1, 2]);
}

#[test]
fn shade_starts_from_the_base_colour_every_time() {
    let mut t = Triangle::new(0u8, 1, 2, Some(Color { r: 200, g: 200, b: 200, a: 255 }));
    t.shade(&|channel: u8| (channel as f32 * 0.1f32) as u8);
    assert_eq!(t.color, Color { r: 20, g: 20, b: 20, a: 255 });
    t.shade(&|channel: u8| (channel as f32 * 1.0f32) as u8);
    assert_eq!(t.color, Color { r: 200, g: 200, b: 200, a: 255 });
}

#[test]
fn triangle_is_copied_by_value() {
    let t = Triangle::new(1u8, 2, 3, None);
    let mut u = t;
    u.p[0] = 9;
    let v = t.clone();
    assert_eq!(t.p, [1, 2, 3]);
    assert_eq!(u.p, [9, 2, 3]);
    assert_eq!(v.p, [1, 2, 3]);
}

#[test]
fn normalize_divides_by_the_fourth_coordinate_unless_it_is_zero() {
    let base = Color { r: 1, g: 2, b: 3, a: 4 };
    let drawn = Color { r: 5, g: 6, b: 7, a: 8 };
    let mut t = Triangle {
        p: [(8.0f32, 4.0f32, 2.0f32), (8.0, 4.0, 0.0), (8.0, 4.0, -0.0)],
        base_color: base,
        color: drawn,
    };
    t.normalize(&|v: &(f32, f32, f32)| v.2.to_bits(), &|v: &(f32, f32, f32)| (v.0 / v.2, v.1 / v.2, 1.0));
    assert_eq!(t.p[0], (4.0, 2.0, 1.0));
    assert_eq!(t.p[1], (8.0, 4.0, 0.0));
    assert_eq!(t.p[2].0, 8.0);
    assert_eq!(t.p[2].1, 4.0);
    assert_eq!(t.p[2].2.to_bits(), (-0.0f32).to_bits());
    assert_eq!(t.base_color, base);
    assert_eq!(t.color, drawn);
}

#[test]
fn normalize_divides_by_what_is_not_a_number() {
    let mut t = Triangle::new((1.0f32, f32::NAN), (1.0, f32::INFINITY), (1.0, f32::from_bits(1)), None);
    t.normalize(&|v: &(f32, f32)| v.1.to_bits(), &|v: &(f32, f32)| (v.0 / v.1, 1.0));
    assert!(t.p[0].0.is_nan());
    assert_eq!(t.p[1], (0.0, 1.0));
    assert_eq!(t.p[2], (f32::INFINITY, 1.0));
}
