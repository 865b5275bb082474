use pathtracer::vec3::V;

#[test]
fn init3() {
    let v = V::new(65536, 131072, 196608);

    assert_eq!(v.x(), 65536);
    assert_eq!(v.y(), 131072);
    assert_eq!(v.z(), 196608);
}

#[test]
fn init1() {
    let v = V::from_scalar(72090);

    assert_eq!(v.x(), 72090);
    assert_eq!(v.y(), 72090);
    assert_eq!(v.z(), 72090);
}

#[test]
fn add() {
    let a = V::new(65536, 131072, 196608);
    let b = V::new(196608, 131072, 65536);

    let v = a.add(b);

    assert_eq!(v.x(), 262144);
    assert_eq!(v.y(), 262144);
    assert_eq!(v.z(), 262144);
}

#[test]
fn mul() {
    let a = V::new(131072, 262144, 524288);
    let b = V::new(65536, 32768, 16384);

    let v = a.mul(b);

    assert_eq!(v.x(), 131072);
    assert_eq!(v.y(), 131072);
    assert_eq!(v.z(), 131072);
}

#[test]
fn dot() {
    let a = V::new(131072, 262144, 524288);
    let b = V::new(65536, 32768, 16384);

    let v = a.dot(b);

    assert_eq!(v, 393216);
}

#[test]
fn dot_symmetric_pairs() {
    let pairs = [
        (V::new(65536, -131072, 196608), V::new(98304, 32768, -16384)),
        (V::new(-7, 12345, 424242), V::new(999, -42, 65536)),
        (V::new(0, 0, 0), V::new(131072, 131072, 131072)),
    ];
    for (a, b) in pairs {
        assert_eq!(a.dot(b), b.dot(a));
    }
}

#[test]
fn cross_antisymmetric_pairs() {
    let pairs = [
        (V::new(65536, -131072, 196608), V::new(98304, 32768, -16384)),
        (V::new(-7, 12345, 424242), V::new(999, -42, 65536)),
    ];
    for (a, b) in pairs {
        let ab = a.cross(b);
        let ba = b.cross(a);
        assert_eq!(ab.x(), -ba.x());
        assert_eq!(ab.y(), -ba.y());
        assert_eq!(ab.z(), -ba.z());
    }
}

#[test]
fn cross_right_handed() {
    let x = V::new(65536, 0, 0);
    let y = V::new(0, 65536, 0);
    let z = x.cross(y);
    assert_eq!(z.x(), 0);
    assert_eq!(z.y(), 0);
    assert_eq!(z.z(), 65536);
}

#[test]
fn norm_unit_length() {
    let vs = [
        V::new(196608, 262144, 0),
        V::new(65536, 65536, 65536),
        V::new(-400000, 123456, 654321),
        V::new(39322, 39322, 65536),
    ];
    for v in vs {
        let n = v.norm();
        let q = n.dot(n);
        assert!((q - 65536).abs() <= 32, "squared length {} off unit", q);
    }
}

#[test]
fn norm_zero_is_zero() {
    let n = V::new(0, 0, 0).norm();
    assert_eq!(n.x(), 0);
    assert_eq!(n.y(), 0);
    assert_eq!(n.z(), 0);
}

#[test]
fn reflect_preserves_length() {
    let d = V::new(39321, 52428, 0);
    let n = V::new(0, 65536, 0);
    let s = n.dot(d);
    let r = d.add(n.scale(-2 * s));
    assert!((r.dot(r) - d.dot(d)).abs() <= 64);
    assert_eq!(r.x(), d.x());
    assert_eq!(r.y(), -d.y());
}
