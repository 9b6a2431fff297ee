use raytracer::scene::{nearest_hit, shade, Shade};

#[test]
fn nearest_of_nothing_is_none() {
    assert_eq!(nearest_hit(&vec![]), None);
    assert_eq!(nearest_hit(&vec![None, None, None]), None);
}

#[test]
fn nearest_picks_smallest_key() {
    assert_eq!(nearest_hit(&vec![Some(5), None, Some(3), Some(4)]), Some(2));
    assert_eq!(nearest_hit(&vec![None, Some(9)]), Some(1));
}

#[test]
fn nearest_tie_goes_to_first() {
    assert_eq!(nearest_hit(&vec![Some(7), Some(3), None, Some(3)]), Some(1));
}

#[test]
fn nearest_ignores_zero_distance() {
    assert_eq!(nearest_hit(&vec![Some(0)]), None);
    assert_eq!(nearest_hit(&vec![Some(0), Some(0)]), None);
    assert_eq!(nearest_hit(&vec![Some(0), Some(5), Some(5)]), Some(1));
    assert_eq!(nearest_hit(&vec![Some(4), Some(0), Some(2)]), Some(2));
    assert_eq!(nearest_hit(&vec![None, Some(0), None]), None);
}

#[test]
fn nearest_orders_float_distances_by_bits() {
    let d = [2.5f64, 0.75, 1.0e10, 0.75];
    let keys: Vec<Option<u64>> = d.iter().map(|x| Some(x.to_bits())).collect();
    assert_eq!(nearest_hit(&keys), Some(1));
}

#[test]
fn shade_within_budget_uses_hit() {
    assert_eq!(shade(5, 0, Some(3)), Shade::Surface(3));
    assert_eq!(shade(5, 5, Some(0)), Shade::Surface(0));
    assert_eq!(shade(5, 2, None), Shade::Background);
}

#[test]
fn shade_past_budget_is_background() {
    assert_eq!(shade(5, 6, Some(3)), Shade::Background);
    assert_eq!(shade(0, 1, Some(0)), Shade::Background);
    assert_eq!(shade(0, 0, Some(0)), Shade::Surface(0));
}

#[test]
fn bounce_chain_is_bounded() {
    for max_bounces in 0..10u32 {
        let mut depth = 0u32;
        let mut surface_calls = 0u32;
        while let Shade::Surface(_) = shade(max_bounces, depth, Some(0)) {
            surface_calls += 1;
            depth += 1;
        }
        assert_eq!(surface_calls, max_bounces + 1);
    }
}
