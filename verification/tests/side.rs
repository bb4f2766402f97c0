use naive_gfx::Side;

#[test]
fn only_the_front_is_inside() {
    assert!(Side::Front.inside());
    assert!(!Side::On.inside());
    assert!(!Side::Behind.inside());
}

#[test]
fn only_a_face_turned_to_the_viewer_is_seen() {
    assert!(Side::Behind.faces_viewer());
    assert!(!Side::On.faces_viewer());
    assert!(!Side::Front.faces_viewer());
}

fn samples() -> Vec<f32> {
    let mut all: Vec<f32> = vec![
        0.0,
        -0.0,
        1.0,
        -1.0,
        0.1,
        -0.1,
        f32::MIN_POSITIVE,
        -f32::MIN_POSITIVE,
        f32::from_bits(1),
        -f32::from_bits(1),
        f32::from_bits(0x007f_ffff),
        f32::MAX,
        f32::MIN,
        f32::INFINITY,
        f32::NEG_INFINITY,
        f32::NAN,
        -f32::NAN,
        f32::from_bits(0x7f80_0001),
        f32::from_bits(0xffff_ffff),
        f32::EPSILON,
        1.0e-30,
        -3.5e20,
        479.0,
        639.0,
    ];
    // a fixed walk over all exponents and both signs
    let mut bits: u32 = 0x1234_5678;
    for _ in 0..2000 {
        bits = bits.wrapping_mul(1_664_525).wrapping_add(1_013_904_223);
        all.push(f32::from_bits(bits));
    }
    all
}

#[test]
fn side_of_bits_is_the_sign_of_the_number() {
    for d in samples() {
        let expected = if d > 0.0 {
            Side::Front
        } else if d < 0.0 {
            Side::Behind
        } else {
            Side::On
        };
        assert_eq!(Side::of_bits(d.to_bits()), expected, "{:?}", d);
    }
}

#[test]
fn side_of_bits_at_the_boundaries() {
    assert_eq!(Side::of_bits(0x0000_0000), Side::On);
    assert_eq!(Side::of_bits(0x8000_0000), Side::On);
    assert_eq!(Side::of_bits(0x0000_0001), Side::Front);
    assert_eq!(Side::of_bits(0x8000_0001), Side::Behind);
    assert_eq!(Side::of_bits(0x7f80_0000), Side::Front);
    assert_eq!(Side::of_bits(0xff80_0000), Side::Behind);
    assert_eq!(Side::of_bits(0x7f80_0001), Side::On);
    assert_eq!(Side::of_bits(0xff80_0001), Side::On);
    assert_eq!(Side::of_bits(0x7fc0_0000), Side::On);
    assert_eq!(Side::of_bits(0xffff_ffff), Side::On);
}
