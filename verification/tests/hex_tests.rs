use hexworld::hex::Cube;
use rand::Rng;
use hexworld::hex::FracHex;
use hexworld::hex::Hex;

#[test]
fn test_hex_to_pixel_coords() {
    let hex_coords = Hex::from_pixel_coords(156, -24);
    let converted_pixel_coords = hex_coords.to_pixel_coords();
    assert!(converted_pixel_coords.0 == 156);
}

#[test]
fn pixel_round_trip_over_grid() {
    for q in -20..=20 {
        for r in -20..=20 {
            let hex = Hex::new(q, r);
            let (px, py) = hex.to_pixel_coords();
            let back = Hex::from_pixel_coords(px, py);
            assert_eq!(back, hex);
        }
    }
}

#[test]
fn from_pixel_rounds_to_nearest_cell() {
    // A point slightly off the center of (13, -8) still maps to it.
    assert_eq!(Hex::from_pixel_coords(157, -23), Hex::new(13, -8));
    assert_eq!(Hex::from_pixel_coords(155, -26), Hex::new(13, -8));
}

#[test]
fn fractional_rounding_recovers_whole_cells() {
    // Numerators over 48: (2, -3) exactly.
    let f = FracHex::new(96, -144);
    assert_eq!(f.rounded(), Hex::new(2, -3));
}

#[test]
fn cube_axial_conversions() {
    let h = Hex::new(3, -5);
    let c = h.to_cube_coords();
    assert_eq!(c.x + c.y + c.z, 0);
    assert_eq!(c.to_axial_coords(), h);
    let c2 = Cube::new(1, -1, 0);
    assert_eq!(c2.to_axial_coords(), Hex::new(1, 0));
}

#[test]
fn distance_concrete_values() {
    let origin = Hex::new(0, 0);
    assert_eq!(origin.distance_to(&Hex::new(1, 0)), 1);
    assert_eq!(origin.distance_to(&Hex::new(2, 0)), 2);
    assert_eq!(origin.distance_to(&Hex::new(1, -1)), 1);
    assert_eq!(origin.distance_to(&Hex::new(-1, 1)), 1);
    assert_eq!(origin.distance_to(&Hex::new(3, -7)), 7);
    assert_eq!(Hex::new(2, 2).distance_to(&Hex::new(2, 2)), 0);
}

#[test]
fn distance_one_is_exactly_the_six_neighbors() {
    let neighbors = [(1, 0), (-1, 0), (0, 1), (0, -1), (1, -1), (-1, 1)];
    let origin = Hex::new(0, 0);
    for dq in -2..=2 {
        for dr in -2..=2 {
            let d = origin.distance_to(&Hex::new(dq, dr));
            assert_eq!(d == 1, neighbors.contains(&(dq, dr)));
        }
    }
}

#[test]
fn distance_metric_laws_on_random_triples() {
    let mut rng = rand::thread_rng();
    for _ in 0..200 {
        let a = Hex::new(rng.gen_range(-100..100), rng.gen_range(-100..100));
        let b = Hex::new(rng.gen_range(-100..100), rng.gen_range(-100..100));
        let c = Hex::new(rng.gen_range(-100..100), rng.gen_range(-100..100));
        assert_eq!(a.distance_to(&a), 0);
        assert_eq!(a.distance_to(&b), b.distance_to(&a));
        assert!(a.distance_to(&c) <= a.distance_to(&b) + b.distance_to(&c));
    }
}

#[test]
fn wide_distance_agrees_with_distance() {
    let a = Hex::new(-4, 9);
    let b = Hex::new(7, -2);
    assert_eq!(a.distance_i64(&b) as u32, a.distance_to(&b));
}
