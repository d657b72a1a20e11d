use blockwars::geom::sqrt_approx;
use blockwars::geom::aabb_overlap;
use blockwars::Rect;

#[test]
fn sqrt_base_cases() {
    assert_eq!(sqrt_approx(0), 0);
    assert_eq!(sqrt_approx(1), 1);
}

#[test]
fn sqrt_exact_values() {
    assert_eq!(sqrt_approx(2), 1);
    assert_eq!(sqrt_approx(3), 1);
    assert_eq!(sqrt_approx(4), 2);
    assert_eq!(sqrt_approx(24), 4);
    assert_eq!(sqrt_approx(25), 5);
    assert_eq!(sqrt_approx(26), 5);
    assert_eq!(sqrt_approx(99), 9);
    assert_eq!(sqrt_approx(100), 10);
    assert_eq!(sqrt_approx(1_000_000_000_000), 1_000_000);
}

#[test]
fn sqrt_is_floor_of_root() {
    for v in 0..5000u64 {
        let r = sqrt_approx(v);
        assert!(r * r <= v, "sqrt_approx({}) = {} overshoots", v, r);
        assert!((r + 1) * (r + 1) > v, "sqrt_approx({}) = {} undershoots", v, r);
    }
}

#[test]
fn sqrt_within_float_tolerance() {
    for &v in &[2u64, 10, 25, 50, 144, 1000, 65536, 123_456_789] {
        let approx = sqrt_approx(v) as f64;
        let exact = (v as f64).sqrt();
        assert!((approx - exact).abs() <= 1.0, "sqrt_approx({}) = {}, true {}", v, approx, exact);
    }
}

#[test]
fn aabb_overlap_cases() {
    let a = Rect { x: 10, y: 10, w: 10, h: 10 };
    // Proper overlap.
    assert!(aabb_overlap(a, Rect { x: 15, y: 15, w: 10, h: 10 }));
    // Containment.
    assert!(aabb_overlap(a, Rect { x: 12, y: 12, w: 2, h: 2 }));
    // Coincident boxes.
    assert!(aabb_overlap(a, a));
    // Edge contact is not overlap: the four-inequality form is strict.
    assert!(!aabb_overlap(a, Rect { x: 20, y: 10, w: 10, h: 10 }));
    assert!(!aabb_overlap(a, Rect { x: 10, y: 20, w: 10, h: 10 }));
    // Disjoint.
    assert!(!aabb_overlap(a, Rect { x: 40, y: 40, w: 5, h: 5 }));
}

#[test]
fn aabb_symmetric() {
    let boxes = [
        Rect { x: 0, y: 0, w: 5, h: 5 },
        Rect { x: 3, y: 4, w: 10, h: 2 },
        Rect { x: 8, y: 0, w: 1, h: 20 },
        Rect { x: 2, y: 2, w: 2, h: 2 },
        Rect { x: 100, y: 100, w: 7, h: 7 },
    ];
    for &a in &boxes {
        for &b in &boxes {
            assert_eq!(aabb_overlap(a, b), aabb_overlap(b, a));
        }
    }
}
