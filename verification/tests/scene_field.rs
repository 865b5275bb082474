use pathtracer::scene::{box_test, decode_segments, letter_bytes, query_database, Hit};
use pathtracer::vec3::V;

#[test]
fn origin_query_defined() {
    let (h, d) = query_database(V::new(0, 0, 0));
    assert!(h != Hit::Nothing);
    assert_eq!(h, Hit::Letter);
    assert!(d > 0 && d < 65536, "distance {} out of the expected range", d);
}

#[test]
fn stroke_table_decodes() {
    let bytes = letter_bytes();
    assert_eq!(bytes.len(), 60);
    let segs = decode_segments(&bytes);
    assert_eq!(segs.len(), 15);
    // "5O5_": from (-13, 0) to (-13, 8), in raw halves of the shifted bytes.
    assert_eq!(segs[0].0.x(), -26 * 32768);
    assert_eq!(segs[0].0.y(), 0);
    assert_eq!(segs[0].0.z(), 0);
    assert_eq!(segs[0].1.x(), -26 * 32768);
    assert_eq!(segs[0].1.y(), 16 * 32768);
}

#[test]
fn box_interior_distance() {
    // At the origin the nearest face of the outer room shell is the floor,
    // half a unit below.
    let d = box_test(
        V::new(0, 0, 0),
        V::new(-1966080, -32768, -1966080),
        V::new(1966080, 1179648, 1966080),
    );
    assert_eq!(d, -32768);
}

fn point_to_segment(px: f64, py: f64, pz: f64, ax: f64, ay: f64, bx: f64, by: f64) -> f64 {
    let ex = bx - ax;
    let ey = by - ay;
    let den = ex * ex + ey * ey;
    let mut t = ((px - ax) * ex + (py - ay) * ey) / den;
    if t < 0.0 {
        t = 0.0;
    }
    if t > 1.0 {
        t = 1.0;
    }
    let ox = px - (ax + ex * t);
    let oy = py - (ay + ey * t);
    (ox * ox + oy * oy + pz * pz).sqrt()
}

#[test]
fn letter_distance_sound() {
    let bytes = letter_bytes();
    let segs = decode_segments(&bytes);
    let to_f = |r: i64| r as f64 / 65536.0;
    let mut checked = 0;
    for gx in -16..16 {
        for gy in -2..10 {
            for gz in [-1i64, 0, 1] {
                let p = V::new(gx * 65536, gy * 65536 + 32768, gz * 32768);
                let (h, d) = query_database(p);
                if h == Hit::Letter {
                    let mut best = f64::MAX;
                    for s in segs.iter() {
                        let t = point_to_segment(
                            to_f(p.x()),
                            to_f(p.y()),
                            to_f(p.z()),
                            to_f(s.0.x()),
                            to_f(s.0.y()),
                            to_f(s.1.x()),
                            to_f(s.1.y()),
                        );
                        if t < best {
                            best = t;
                        }
                    }
                    assert!(
                        to_f(d) <= best + 1e-3,
                        "estimate {} exceeds true stroke distance {}",
                        to_f(d),
                        best
                    );
                    checked += 1;
                }
            }
        }
    }
    assert!(checked > 50, "too few letter-classified points: {}", checked);
}
