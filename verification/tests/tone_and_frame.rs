use pathtracer::tone::{accumulate, tone_channel, tone_map};
use pathtracer::vec3::V;

#[test]
fn zero_maps_to_ambient() {
    assert_eq!(tone_map(1, V::new(0, 0, 0)), (14, 14, 14));
    assert_eq!(tone_map(7, V::new(0, 0, 0)), (14, 14, 14));
    assert_eq!(tone_map(32, V::new(0, 0, 0)), (14, 14, 14));
}

#[test]
fn tone_known_value() {
    // One unit of average radiance: (69344 * 255) / (69344 + 65536) = 131.
    assert_eq!(tone_channel(1, 65536), 131);
}

#[test]
fn tone_monotone_concrete() {
    let mut last = 0u8;
    let mut c: i64 = 0;
    while c < 600 * 65536 {
        let b = tone_channel(4, c);
        assert!(b >= last, "byte dropped from {} to {} at {}", last, b, c);
        last = b;
        c += 650359;
    }
}

#[test]
fn tone_bytes_in_range() {
    for c in [0i64, 1, 65535, 65536, 40 * 65536, 3000 * 65536, 0x4000_0000_0000] {
        let b = tone_channel(1, c);
        assert!(b >= 1, "byte {} under the ambient floor", b);
        assert!(b < 255);
    }
}

#[test]
fn accumulate_adds_pixelwise() {
    let mut frame = vec![V::new(0, 0, 0), V::new(65536, 2, 3)];
    let fresh = vec![V::new(7, 8, 9), V::new(1, 1, 1)];
    accumulate(&mut frame, &fresh);
    assert_eq!(frame[0].x(), 7);
    assert_eq!(frame[0].y(), 8);
    assert_eq!(frame[0].z(), 9);
    assert_eq!(frame[1].x(), 65537);
    assert_eq!(frame[1].y(), 3);
    assert_eq!(frame[1].z(), 4);
}
