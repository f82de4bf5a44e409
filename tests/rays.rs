use jtracer::hit::{nearest, occluding};

fn d(t: f64) -> Option<u64> {
    Some(t.to_bits())
}

#[test]
fn nearest_of_two_spheres() {
    assert_eq!(nearest(&vec![d(2.0), d(1.0)]), Some(1));
    assert_eq!(nearest(&vec![d(1.0), d(2.0)]), Some(0));
    assert_eq!(nearest(&vec![None, d(4.0), None, d(3.5)]), Some(3));
}

#[test]
fn tie_goes_to_the_earlier_object() {
    assert_eq!(nearest(&vec![d(3.0), d(3.0)]), Some(0));
    assert_eq!(nearest(&vec![None, d(3.0), d(3.0)]), Some(1));
}

#[test]
fn no_hit_without_objects() {
    assert_eq!(nearest(&vec![]), None);
    assert_eq!(nearest(&vec![None, None]), None);
    assert_eq!(nearest(&vec![d(f64::INFINITY)]), None);
}

#[test]
fn small_distances_order_correctly() {
    assert_eq!(nearest(&vec![d(1e-3), d(1e-300), d(0.5)]), Some(1));
}

#[test]
fn shadow_epsilon_boundary() {
    assert!(occluding(&vec![d(1.0 - 2e-5)]));
    assert!(!occluding(&vec![d(1.0)]));
    assert!(!occluding(&vec![d(1.5)]));
    assert!(!occluding(&vec![d(1.0 - 1e-5)]));
    assert!(occluding(&vec![d(0.0)]));
    assert!(occluding(&vec![d(-0.0)]));
    assert!(!occluding(&vec![d(-0.5)]));
    assert!(!occluding(&vec![d(f64::NAN)]));
}

#[test]
fn any_blocker_occludes() {
    assert!(occluding(&vec![None, d(2.0), d(0.3)]));
    assert!(!occluding(&vec![None, d(2.0)]));
    assert!(!occluding(&vec![]));
}
