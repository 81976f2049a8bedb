use particle_sim::fixed::{isqrt, mul_div, ONE};
use particle_sim::helpers::{rand_map, Wrapping, MAX_EXTENT};
use particle_sim::vec2::Vec2;

#[test]
fn remap() {
    assert_eq!(particle_sim::helpers::remap(0, 0, ONE, 0, ONE), 0);
    assert_eq!(particle_sim::helpers::remap(0, 0, ONE, 0, ONE), 0);
    assert_eq!(particle_sim::helpers::remap(0, 0, ONE, 0, ONE), 0);
    assert_eq!(particle_sim::helpers::remap(ONE / 2, 0, ONE, 0, 2 * ONE), ONE);
}

#[test]
fn wrap() {
    let wrap = Vec2::new(200 * ONE, 200 * ONE);

    let v1 = Vec2::new(ONE, ONE);
    let v2 = Vec2::new(199 * ONE, 199 * ONE);
    assert_eq!(v1.wrap_sub(&v2, &wrap).to_array(), [2 * ONE, 2 * ONE]);

    let v2 = Vec2::new(199 * ONE, ONE);
    assert_eq!(v1.wrap_sub(&v2, &wrap).to_array(), [2 * ONE, 0]);

    let v2 = Vec2::new(ONE, 199 * ONE);
    assert_eq!(v1.wrap_sub(&v2, &wrap).to_array(), [0, 2 * ONE]);
}

#[test]
fn remap_hits_both_ends_exactly() {
    let cases: [(i64, i64, i64, i64); 5] = [
        (0, 10, 3, 7),
        (5, -5, -100, 100),
        (-3, 4, 9, -9),
        (i64::MIN, i64::MAX, i64::MAX, i64::MIN),
        (7, 8, 1, 1),
    ];
    for (a, b, c, d) in cases {
        assert_eq!(particle_sim::helpers::remap(a, a, b, c, d), c);
        assert_eq!(particle_sim::helpers::remap(b, a, b, c, d), d);
    }
}

#[test]
fn remap_rounds_towards_the_start_of_the_target() {
    // 1/3 of the way from 0 to 10 is 3.33..; from 0 to -10 it is -3.33..
    assert_eq!(particle_sim::helpers::remap(1, 0, 3, 0, 10), 3);
    assert_eq!(particle_sim::helpers::remap(1, 0, 3, 0, -10), -3);
    assert_eq!(particle_sim::helpers::remap(1, 0, 3, 100, 110), 103);
    assert_eq!(particle_sim::helpers::remap(2, 0, 3, 100, 110), 106);
    // A reversed source interval.
    assert_eq!(particle_sim::helpers::remap(2, 3, 0, 100, 110), 103);
    // Beyond the source interval the map goes on in a straight line.
    assert_eq!(particle_sim::helpers::remap(6, 0, 3, 0, 10), 20);
    assert_eq!(particle_sim::helpers::remap(-3, 0, 3, 0, 10), -10);
}

#[test]
fn remap_is_a_straight_line_where_it_is_exact() {
    for value in -20..=20 {
        assert_eq!(particle_sim::helpers::remap(value, 0, 4, 10, 18), 10 + 2 * value);
    }
}

#[test]
fn mul_div_rounds_towards_zero() {
    assert_eq!(mul_div(7, 3, 2), 10);
    assert_eq!(mul_div(-7, 3, 2), -10);
    assert_eq!(mul_div(7, -3, 2), -10);
    assert_eq!(mul_div(7, 3, -2), -10);
    assert_eq!(mul_div(-7, -3, -2), -10);
    assert_eq!(mul_div(0, 5, 3), 0);
    let big = u64::MAX as i128;
    assert_eq!(mul_div(big, big, big), big);
    assert_eq!(mul_div(-big, 1 << 62, 1), -(big << 62));
}

#[test]
fn isqrt_is_the_integer_part_of_the_root() {
    assert_eq!(isqrt(0), 0);
    assert_eq!(isqrt(1), 1);
    assert_eq!(isqrt(3), 1);
    assert_eq!(isqrt(4), 2);
    assert_eq!(isqrt(24), 4);
    assert_eq!(isqrt(25), 5);
    assert_eq!(isqrt(1 << 62), 1 << 31);
    assert_eq!(isqrt(u64::MAX as u128), (1 << 32) - 1);
    assert_eq!(isqrt((1 << 126) - 1), (1 << 63) - 1);
    assert_eq!(isqrt(u128::MAX), u64::MAX);
    for n in 0..2000u128 {
        let r = isqrt(n) as u128;
        assert!(r * r <= n && n < (r + 1) * (r + 1));
    }
}

#[test]
fn wrap_brings_points_into_the_half_open_domain() {
    let domain = Vec2::new(200, 100);
    assert_eq!(Vec2::new(0, 0).wrapped(&domain), Vec2::new(0, 0));
    assert_eq!(Vec2::new(199, 99).wrapped(&domain), Vec2::new(199, 99));
    // The far edge is the near edge.
    assert_eq!(Vec2::new(200, 100).wrapped(&domain), Vec2::new(0, 0));
    assert_eq!(Vec2::new(201, 250).wrapped(&domain), Vec2::new(1, 50));
    assert_eq!(Vec2::new(-1, -1).wrapped(&domain), Vec2::new(199, 99));
    assert_eq!(Vec2::new(-200, -300).wrapped(&domain), Vec2::new(0, 0));
    assert_eq!(Vec2::new(i64::MAX, i64::MIN).wrapped(&domain), Vec2::new(7, 92));

    let mut v = Vec2::new(-401, 1000);
    v.wrap(&domain);
    assert_eq!(v, Vec2::new(199, 0));
}

#[test]
fn wrap_is_idempotent() {
    let domain = Vec2::new(7 * ONE, 3 * ONE + 1);
    for x in [-1_000_000_007i64, -ONE, -1, 0, 1, 7 * ONE - 1, 7 * ONE, 123_456_789] {
        for y in [-999_999_937i64, -3 * ONE - 1, -1, 0, 3 * ONE, 3 * ONE + 1, 987_654_321] {
            let once = Vec2::new(x, y).wrapped(&domain);
            let twice = once.wrapped(&domain);
            assert_eq!(once, twice);
            assert!(0 <= once.x && once.x < domain.x);
            assert!(0 <= once.y && once.y < domain.y);
        }
    }
}

#[test]
fn wrap_add_wraps_the_sum() {
    let domain = Vec2::new(200, 100);
    assert_eq!(Vec2::new(150, 50).wrap_add(&Vec2::new(100, 75), &domain), Vec2::new(50, 25));
    assert_eq!(Vec2::new(10, 10).wrap_add(&Vec2::new(-30, -10), &domain), Vec2::new(180, 0));
    // The sum itself need not fit the components.
    assert_eq!(
        Vec2::new(i64::MAX, i64::MIN).wrap_add(&Vec2::new(i64::MAX, i64::MIN), &domain),
        Vec2::new(14, 84)
    );
}

#[test]
fn wrap_sub_takes_the_shortest_way_round() {
    let domain = Vec2::new(200, 100);
    // Not across an edge.
    assert_eq!(Vec2::new(50, 50).wrap_sub(&Vec2::new(40, 45), &domain), Vec2::new(10, 5));
    assert_eq!(Vec2::new(40, 45).wrap_sub(&Vec2::new(50, 50), &domain), Vec2::new(-10, -5));
    // Across each edge.
    assert_eq!(Vec2::new(199, 50).wrap_sub(&Vec2::new(1, 50), &domain), Vec2::new(-2, 0));
    assert_eq!(Vec2::new(50, 1).wrap_sub(&Vec2::new(50, 99), &domain), Vec2::new(0, 2));
    // Points outside the domain are wrapped first.
    assert_eq!(Vec2::new(401, -99).wrap_sub(&Vec2::new(-1, 199), &domain), Vec2::new(2, 2));
    // A point and itself.
    assert_eq!(Vec2::new(7, 7).wrap_sub(&Vec2::new(207, -93), &domain), Vec2::new(0, 0));
}

#[test]
fn wrap_sub_settles_ties_by_the_order_of_the_images() {
    let domain = Vec2::new(200, 100);
    // Half an extent apart along x: the image that is not shifted comes first.
    assert_eq!(Vec2::new(150, 0).wrap_sub(&Vec2::new(50, 0), &domain), Vec2::new(100, 0));
    assert_eq!(Vec2::new(50, 0).wrap_sub(&Vec2::new(150, 0), &domain), Vec2::new(-100, 0));
    // Half an extent apart along x, and across the edge along y: of the two
    // images shifted down, the one shifted right comes first.
    assert_eq!(Vec2::new(150, 1).wrap_sub(&Vec2::new(50, 99), &domain), Vec2::new(-100, 2));
    assert_eq!(Vec2::new(150, 99).wrap_sub(&Vec2::new(50, 1), &domain), Vec2::new(-100, -2));
}

#[test]
fn wrap_sub_is_no_longer_than_any_other_image() {
    let domain = Vec2::new(37, 23);
    let len_sq = |v: Vec2| v.x * v.x + v.y * v.y;
    for ax in [0i64, 5, 18, 19, 36] {
        for ay in [0i64, 11, 12, 22] {
            for bx in [0i64, 1, 18, 30, 36] {
                for by in [0i64, 7, 11, 22] {
                    let a = Vec2::new(ax, ay);
                    let b = Vec2::new(bx, by);
                    let d = a.wrap_sub(&b, &domain);
                    assert!(2 * d.x.abs() <= domain.x && 2 * d.y.abs() <= domain.y);
                    assert_eq!((d.x - (ax - bx)).rem_euclid(domain.x), 0);
                    assert_eq!((d.y - (ay - by)).rem_euclid(domain.y), 0);
                    for m in -3..=3 {
                        for n in -3..=3 {
                            let other = Vec2::new(ax - bx + m * domain.x, ay - by + n * domain.y);
                            assert!(len_sq(d) <= len_sq(other));
                        }
                    }
                }
            }
        }
    }
}

#[test]
fn wrap_sub_works_in_the_largest_domain() {
    let domain = Vec2::new(MAX_EXTENT, MAX_EXTENT);
    let a = Vec2::new(0, 0);
    let b = Vec2::new(MAX_EXTENT - 1, MAX_EXTENT - 1);
    assert_eq!(a.wrap_sub(&b, &domain), Vec2::new(1, 1));
    let c = Vec2::new(MAX_EXTENT / 2, MAX_EXTENT / 2);
    assert_eq!(c.wrap_sub(&a, &domain), Vec2::new(MAX_EXTENT / 2, MAX_EXTENT / 2));
}

#[test]
fn vectors_measure_and_scale() {
    let v = Vec2::new(3 * ONE, -4 * ONE);
    assert_eq!(v.to_array(), [3 * ONE, -4 * ONE]);
    assert_eq!(v.length_squared(), (25 * ONE * ONE) as u128);
    assert_eq!(v.length(), (5 * ONE) as u64);
    // 3/5 and -4/5 of a whole unit, rounded towards zero.
    assert_eq!(v.normalize_or_zero(), Vec2::new(39321, -52428));
    assert_eq!(Vec2::zero().normalize_or_zero(), Vec2::zero());
    assert_eq!(Vec2::new(0, -7).normalize_or_zero(), Vec2::new(0, -ONE));
    assert_eq!(Vec2::new(1, 1).length(), 1);
    assert_eq!(Vec2::new(1, 1).normalize_or_zero(), Vec2::new(ONE, ONE));
    assert_eq!(v.scale(ONE / 2), Vec2::new(3 * ONE / 2, -2 * ONE));
    assert_eq!(Vec2::new(3, -3).scale(ONE / 2), Vec2::new(1, -1));
    assert_eq!(v.scale(0), Vec2::zero());
    // The longest vector there is.
    let longest = Vec2::new(i64::MIN, i64::MIN);
    assert_eq!(longest.length_squared(), 1 << 127);
    assert_eq!(longest.length(), 13043817825332782212);
    assert_eq!(longest.normalize_or_zero(), Vec2::new(-46340, -46340));
}

#[test]
fn rand_map_stays_in_its_interval() {
    let mut rng = rand::thread_rng();
    let mut seen_low = false;
    let mut seen_high = false;
    for _ in 0..2000 {
        let r = rand_map(&mut rng, -2 * ONE, 2 * ONE);
        assert!(-2 * ONE <= r && r < 2 * ONE);
        seen_low |= r < 0;
        seen_high |= r > 0;
        let s = rand_map(&mut rng, 10, -10);
        assert!(-10 < s && s <= 10);
        assert_eq!(rand_map(&mut rng, 42, 42), 42);
    }
    assert!(seen_low && seen_high);
}
