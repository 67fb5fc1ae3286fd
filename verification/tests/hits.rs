use tracer_core::hits::{first_at_least, hit_le_exec, sort_hits, HitKey};

/// Order-preserving key of a finite hit distance: flipping the sign bit of a
/// non-negative double, and all bits of a negative one, makes unsigned
/// comparison agree with the floating-point order.
fn order_key(t: f64) -> u64 {
    let bits = t.to_bits();
    if bits >> 63 == 1 {
        !bits
    } else {
        bits | (1u64 << 63)
    }
}

/// The key of distance zero: the threshold between misses and visible hits.
fn zero_key() -> u64 {
    order_key(0.0)
}

fn keyed(ts: &[f64]) -> Vec<HitKey> {
    ts.iter()
        .enumerate()
        .map(|(tag, t)| HitKey {
            key: order_key(*t),
            tag,
        })
        .collect()
}

#[test]
fn test_default_world_intersect() {
    // The default world holds a unit sphere (hit at t = 4 and 6 by the ray
    // from (0,0,-5) along +z) and a half-scale sphere (hit at 4.5 and 5.5);
    // collecting per object then arranging by distance must give all four
    // in ascending order.
    let ts = [4.0, 6.0, 4.5, 5.5];
    let xs = sort_hits(&keyed(&ts));
    assert_eq!(xs.len(), 4);
    let sorted: Vec<f64> = xs.iter().map(|h| ts[h.tag]).collect();
    assert_eq!(sorted[0], 4.0);
    assert_eq!(sorted[1], 4.5);
    assert_eq!(sorted[2], 5.5);
    assert_eq!(sorted[3], 6.0);
}

#[test]
fn test_sort_empty() {
    let xs = sort_hits(&Vec::new());
    assert!(xs.is_empty());
}

#[test]
fn test_sort_negative_distances() {
    let ts = [1.0, -1.0, 0.0, -2.5];
    let xs = sort_hits(&keyed(&ts));
    let sorted: Vec<f64> = xs.iter().map(|h| ts[h.tag]).collect();
    assert_eq!(sorted, vec![-2.5, -1.0, 0.0, 1.0]);
}

#[test]
fn test_sort_equal_keys_keep_order() {
    let ts = [5.0, 5.0, 5.0];
    let xs = sort_hits(&keyed(&ts));
    let tags: Vec<usize> = xs.iter().map(|h| h.tag).collect();
    assert_eq!(tags, vec![0, 1, 2]);
}

#[test]
fn test_hit_all_positive() {
    // Ray outside the sphere: both hits ahead, the nearer one is visible.
    let xs = sort_hits(&keyed(&[1.0, 2.0]));
    let hit = first_at_least(&xs, zero_key());
    assert_eq!(hit, Some(0));
}

#[test]
fn test_hit_from_inside() {
    // Ray starting inside: the hit behind the origin is skipped.
    let ts = [-1.0, 1.0];
    let xs = sort_hits(&keyed(&ts));
    let hit = first_at_least(&xs, zero_key());
    assert_eq!(hit, Some(1));
    assert_eq!(ts[xs[1].tag], 1.0);
}

#[test]
fn test_hit_all_behind() {
    let xs = sort_hits(&keyed(&[-2.0, -1.0]));
    assert_eq!(first_at_least(&xs, zero_key()), None);
}

#[test]
fn test_hit_lowest_nonnegative() {
    let ts = [5.0, 7.0, -3.0, 2.0];
    let xs = sort_hits(&keyed(&ts));
    let hit = first_at_least(&xs, zero_key()).unwrap();
    assert_eq!(ts[xs[hit].tag], 2.0);
}

#[test]
fn test_hit_le_order() {
    let a = HitKey { key: 1, tag: 5 };
    let b = HitKey { key: 2, tag: 0 };
    let c = HitKey { key: 2, tag: 3 };
    assert!(hit_le_exec(&a, &b));
    assert!(!hit_le_exec(&b, &a));
    assert!(hit_le_exec(&b, &c));
    assert!(!hit_le_exec(&c, &b));
    assert!(hit_le_exec(&c, &c));
}
