use tracer_core::refraction::refraction_boundary;

/// Looks a medium key up in a refractive-index table; no key is the vacuum.
fn index_of(medium: Option<u64>, table: &[(u64, f64)]) -> f64 {
    match medium {
        None => 1.0,
        Some(k) => table.iter().find(|e| e.0 == k).unwrap().1,
    }
}

#[test]
fn test_computing_refractive_indices() {
    // Three overlapping glass spheres: A (index 1.5) encloses B (2.0) and C
    // (2.5), which overlap each other. A ray through all of them meets their
    // surfaces in the order A B C B C A; the media on either side of each
    // boundary follow from the replayed container stack.
    let a = 1u64;
    let b = 2u64;
    let c = 3u64;
    let table = [(a, 1.5), (b, 2.0), (c, 2.5)];
    let objs = vec![a, b, c, b, c, a];
    let expected = [
        (1.0, 1.5),
        (1.5, 2.0),
        (2.0, 2.5),
        (2.5, 2.5),
        (2.5, 1.5),
        (1.5, 1.0),
    ];
    for (hit, want) in expected.iter().enumerate() {
        let (m1, m2) = refraction_boundary(&objs, hit);
        let n1 = index_of(m1, &table);
        let n2 = index_of(m2, &table);
        assert_eq!((n1, n2), *want, "boundary {}", hit);
    }
}

#[test]
fn test_entering_first_object() {
    let objs = vec![7u64, 7u64];
    let (m1, m2) = refraction_boundary(&objs, 0);
    assert_eq!(m1, None);
    assert_eq!(m2, Some(7));
}

#[test]
fn test_leaving_last_object() {
    let objs = vec![7u64, 7u64];
    let (m1, m2) = refraction_boundary(&objs, 1);
    assert_eq!(m1, Some(7));
    assert_eq!(m2, None);
}

#[test]
fn test_nested_exit_returns_to_outer_medium() {
    // Entering A, entering B, leaving B: the ray is back inside A.
    let objs = vec![1u64, 2u64, 2u64, 1u64];
    let (m1, m2) = refraction_boundary(&objs, 2);
    assert_eq!(m1, Some(2));
    assert_eq!(m2, Some(1));
}

#[test]
fn test_single_boundary_of_lone_object() {
    let objs = vec![9u64];
    let (m1, m2) = refraction_boundary(&objs, 0);
    assert_eq!(m1, None);
    assert_eq!(m2, Some(9));
}

#[test]
fn test_balanced_traversal_ends_in_vacuum() {
    // Nested solids entered and left in pairs: past the last surface the ray
    // is back in the vacuum.
    let objs = vec![1u64, 2u64, 2u64, 1u64];
    let (m1, m2) = refraction_boundary(&objs, 3);
    assert_eq!(m1, Some(1));
    assert_eq!(m2, None);
}
