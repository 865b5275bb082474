use pathtracer::camera::{camera_basis, camera_pos, camera_ray, coords, H, W};
use pathtracer::march::ray_marching;
use pathtracer::scene::Hit;
use pathtracer::trace::{light_dir, trace_with};
use pathtracer::vec3::V;

#[test]
fn march_terminates_in_view_cone() {
    let pos = camera_pos();
    let (goal, left, up) = camera_basis();
    let mut done = 0;
    let mut y = 0;
    while y < H {
        let mut x = 0;
        while x < W {
            let dir = camera_ray(x, y, 32768, 32768, goal, left, up);
            let (_h, _p, _n) = ray_marching(pos, dir);
            done += 1;
            x += 60;
        }
        y += 60;
    }
    assert_eq!(done, 16 * 9);
}

#[test]
fn single_sample_sun_ray() {
    // No camera pixel sees the sun plane directly: a climbing ray sweeps
    // sideways through more than one window gap while crossing the pillar
    // band.  A ray fired straight up through a gap does reach it, and a
    // first-bounce sun hit is deterministic: full attenuation times the sky
    // color (50, 80, 100).
    let origin = V::new(-16 * 65536, 5 * 65536, 0);
    let up_dir = V::new(0, 65536, 0);
    let (h, p, _n) = ray_marching(origin, up_dir);
    assert_eq!(h, Hit::Sun);
    assert!((p.y() - (19 * 65536 + 58982)).abs() < 2048);
    let draws = vec![0i64, 0, 0, 0, 0, 0];
    let c = trace_with(origin, up_dir, &draws);
    assert_eq!(c.x(), 50 * 65536);
    assert_eq!(c.y(), 80 * 65536);
    assert_eq!(c.z(), 100 * 65536);
    let bytes = pathtracer::tone::tone_map(1, c);
    assert!(bytes.0 > 14 && bytes.0 < 255);
    assert!(bytes.1 > 14 && bytes.1 < 255);
    assert!(bytes.2 > 14 && bytes.2 < 255);
}

#[test]
fn first_pass_image_not_degenerate() {
    // One deterministic sample per pixel over a coarse grid: the tone-mapped
    // result is neither all-dark nor all-saturated.
    let pos = camera_pos();
    let (goal, left, up) = camera_basis();
    let draws = vec![777i64, 15000, 33333, 48000, 5000, 60000];
    let mut bytes: Vec<u8> = Vec::new();
    let mut y = 0;
    while y < H {
        let mut x = 0;
        while x < W {
            let c = pathtracer::camera::sample_with(x, y, 32768, 32768, pos, goal, left, up, &draws);
            let (r, g, b) = pathtracer::tone::tone_map(1, c);
            bytes.push(r);
            bytes.push(g);
            bytes.push(b);
            x += 120;
        }
        y += 90;
    }
    assert!(bytes.iter().any(|&b| b > 14), "image all at the ambient floor");
    assert!(bytes.iter().all(|&b| b < 255));
}

#[test]
fn shadow_ray_reaches_sun() {
    // From open floor the fixed light direction climbs through a ceiling gap
    // to the sun plane.
    let light = light_dir();
    let origin = V::new(-20 * 65536, -26214, -20 * 65536);
    let (h, _p, _n) = ray_marching(origin, light);
    assert_eq!(h, Hit::Sun);
    // The floor normal faces the light: positive incidence.
    let up = V::new(0, 65536, 0);
    assert!(up.dot(light) > 0);
}

#[test]
fn shadow_ray_blocked() {
    // Shifted sideways, the same ray runs into a ceiling pillar instead.
    let light = light_dir();
    let origin = V::new(-14 * 65536, -26214, -20 * 65536);
    let (h, _p, _n) = ray_marching(origin, light);
    assert!(h != Hit::Sun, "expected the pillar to block this ray");
}

#[test]
fn fresh_sample_in_range() {
    // Exercises the random path end to end: one jittered sample stays inside
    // the tracer's stated radiance bounds.
    let pos = camera_pos();
    let (goal, left, up) = camera_basis();
    let c = pathtracer::camera::sample(400, 200, pos, goal, left, up);
    assert!(c.x() >= 0 && c.x() <= 0x4800_0000);
    assert!(c.y() >= 0 && c.y() <= 0x4800_0000);
    assert!(c.z() >= 0 && c.z() <= 0x4800_0000);
}

#[test]
fn coords_flipped_reading_order() {
    let r = coords();
    assert_eq!(r.len(), (W * H) as usize);
    assert_eq!(r[0], (W - 1, H - 1));
    assert_eq!(r[1], (W - 2, H - 1));
    assert_eq!(r[W as usize], (W - 1, H - 2));
    assert_eq!(r[(W * H) as usize - 1], (0, 0));
}
