use hexworld::height::isqrt;
use hexworld::height::HeightMap;
use hexworld::height::ELEV_ONE;

#[test]
fn isqrt_exact_values() {
    assert_eq!(isqrt(0), 0);
    assert_eq!(isqrt(1), 1);
    assert_eq!(isqrt(3), 1);
    assert_eq!(isqrt(4), 2);
    assert_eq!(isqrt(15), 3);
    assert_eq!(isqrt(16), 4);
    assert_eq!(isqrt(1_000_000), 1000);
    assert_eq!(isqrt(u64::MAX), 4_294_967_295);
}

#[test]
fn base_value_is_highest_at_center_and_zero_at_corner() {
    let hm = HeightMap::new(40, 40, 1);
    let center = hm.get_base_value(20, 20);
    for x in 0..40 {
        for y in 0..40 {
            assert!(hm.get_base_value(x, y) <= center);
        }
    }
    assert_eq!(hm.get_base_value(0, 0), 0);
}

#[test]
fn base_value_non_increasing_along_rays() {
    let hm = HeightMap::new(40, 40, 1);
    // Walking from the center toward a corner along a row, a column and the
    // diagonal, the falloff never rises.
    for x in (0..20).rev() {
        assert!(hm.get_base_value(x, 20) >= hm.get_base_value(x.saturating_sub(1), 20));
    }
    for y in (0..20).rev() {
        assert!(hm.get_base_value(20, y) >= hm.get_base_value(20, y.saturating_sub(1)));
    }
    for d in (0..20).rev() {
        assert!(
            hm.get_base_value(d, d) >= hm.get_base_value(d.saturating_sub(1), d.saturating_sub(1))
        );
    }
}

#[test]
fn elevation_values_stay_in_range() {
    let hm = HeightMap::new(40, 40, 99);
    for x in 0..40 {
        for y in 0..40 {
            let v = hm.get(x, y);
            assert!(0 <= v && v <= ELEV_ONE);
        }
    }
}

#[test]
fn boundary_row_and_column_are_left_empty() {
    let hm = HeightMap::new(40, 40, 5);
    for x in 0..40 {
        assert_eq!(hm.get(x, 39), 0);
    }
    for y in 0..40 {
        assert_eq!(hm.get(39, y), 0);
    }
}

#[test]
fn equal_seeds_give_the_equal_field() {
    let a = HeightMap::new(40, 40, 1234);
    let b = HeightMap::new(40, 40, 1234);
    for x in 0..40 {
        for y in 0..40 {
            assert_eq!(a.get(x, y), b.get(x, y));
        }
    }
}

#[test]
fn different_seeds_give_different_fields() {
    // The octave sum really samples the noise source: were the samples
    // independent of the seed (or constant), these two fields would agree
    // everywhere.
    let a = HeightMap::new(40, 40, 1);
    let b = HeightMap::new(40, 40, 2);
    let mut differs = false;
    for x in 0..39 {
        for y in 0..39 {
            if a.get(x, y) != b.get(x, y) {
                differs = true;
            }
        }
    }
    assert!(differs);
}

#[test]
fn sum_octave_stays_in_range() {
    let hm = HeightMap::new(40, 40, 77);
    for x in 0..40 {
        for y in 0..40 {
            let v = hm.sum_octave(x, y);
            assert!(0 <= v && v <= ELEV_ONE);
        }
    }
}
