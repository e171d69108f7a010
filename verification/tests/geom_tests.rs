use path_planner::geom::{cos_dmd, distance, isqrt, node_to_geocoord, tdiv128, Node};

const DEG: i32 = 10_000_000;

#[test]
fn cosine_at_equator_is_one() {
    assert_eq!(cos_dmd(0), 1_000_000);
}

#[test]
fn cosine_at_pole_is_zero() {
    assert_eq!(cos_dmd(900_000_000), 0);
    assert_eq!(cos_dmd(-900_000_000), 0);
}

#[test]
fn cosine_at_sixty_degrees_is_about_half() {
    let c = cos_dmd(600_000_000);
    assert!((498_000..=502_000).contains(&c), "cos(60 deg) scaled was {}", c);
}

#[test]
fn cosine_is_symmetric_in_latitude_sign() {
    for lat in [1, 123_456_789, 450_000_000, 890_000_000] {
        assert_eq!(cos_dmd(lat), cos_dmd(-lat));
    }
}

#[test]
fn distance_of_one_longitude_degree_at_equator() {
    let a = Node { lat: 0, long: 0 };
    let b = Node { lat: 0, long: DEG };
    // One degree of longitude at the equator: exactly one degree unit.
    assert_eq!(distance(&a, &b), 10_000_000_000_000);
}

#[test]
fn distance_of_one_latitude_degree() {
    let a = Node { lat: 0, long: 0 };
    let b = Node { lat: DEG, long: 0 };
    assert_eq!(distance(&a, &b), 10_000_000_000_000);
}

#[test]
fn distance_to_self_is_zero() {
    let a = Node { lat: 123_456, long: -654_321 };
    assert_eq!(distance(&a, &a), 0);
}

#[test]
fn distance_is_asymmetric_across_latitudes() {
    // The metric scales the longitude difference by the cosine of the
    // destination's latitude, a deliberate quirk of the metric: going
    // toward the equator measures longer than coming back.
    let p = Node { lat: 0, long: 0 };
    let q = Node { lat: 60 * DEG, long: DEG };
    let pq = distance(&p, &q);
    let qp = distance(&q, &p);
    assert_ne!(pq, qp);
    assert!(qp > pq);
}

#[test]
fn isqrt_exact_squares_and_neighbors() {
    assert_eq!(isqrt(0), 0);
    assert_eq!(isqrt(1), 1);
    assert_eq!(isqrt(3), 1);
    assert_eq!(isqrt(4), 2);
    assert_eq!(isqrt(99), 9);
    assert_eq!(isqrt(100), 10);
    assert_eq!(isqrt(10_000_000_000_000_000_000_000_000), 3_162_277_660_168);
}

#[test]
fn truncating_division_rounds_toward_zero() {
    assert_eq!(tdiv128(7, 2), 3);
    assert_eq!(tdiv128(-7, 2), -3);
    assert_eq!(tdiv128(0, 5), 0);
    assert_eq!(tdiv128(-1, 10), 0);
}

#[test]
fn node_coordinates_carry_over() {
    let n = Node { lat: 492_578_280, long: -1_231_539_460 };
    let c = node_to_geocoord(&n);
    assert_eq!(c.lat, 492_578_280);
    assert_eq!(c.long, -1_231_539_460);
}
