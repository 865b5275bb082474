use vstd::prelude::*;
use crate::fx::{
    fmul, fdiv, imin, imax, iabs, isqrt_spec, fx_mul, fx_div, fx_sqrt, fx_min, fx_max, fx_abs,
    FX_LIM, SCALE,
};
use crate::vec3::{
    V, vm, vadd, vsub, vscale, vdot, bounded3, lemma_vdot_bound, lemma_vscale_bound,
    lemma_vdot_self_nonneg,
};

verus! {

/// Which family of scene geometry produced a distance estimate.
#[derive(Clone, Copy, PartialEq, Eq, Structural, Debug)]
pub enum Hit {
    Nothing,
    Letter,
    Wall,
    Sun,
}

/// Raw magnitude bound on the positions the scene field accepts.
pub const P_LIM: i64 = 0x800_0000;

/// Raw magnitude bound on decoded stroke endpoints.
pub const SEG_LIM: i64 = 0x60_0000;

/// Starting value for the minimum-squared-distance fold over the strokes.
pub const START_SQ: i64 = 0x80_0000_0000;

/// Raw magnitude bound on the distance estimate the scene field returns.
pub const D_LIM: i64 = 0x1000_0000;

pub open spec fn p_fits(v: V) -> bool {
    bounded3(vm(v), P_LIM as int)
}

/// The stroke table: each glyph of the extruded text as line segments, four
/// bytes per segment, two endpoints of two bytes each.
pub open spec fn letter_bytes_spec() -> Seq<u8> {
    seq![
        53u8, 79, 53, 95, 53, 87, 57, 87, 53, 95, 57, 95,  // P
        65, 79, 69, 79, 67, 79, 67, 95, 65, 95, 69, 95,  // I
        73, 79, 81, 95, 73, 95, 81, 79,  // X
        85, 79, 89, 95, 89, 95, 93, 79, 87, 87, 91, 87,  // A
        97, 79, 97, 95, 97, 87, 101, 87, 97, 95, 101, 95, 99, 87, 105, 79,  // R
    ]
}

/// A stroke byte decoded to a raw 16.16 coordinate: shifted by 79 and halved.
pub open spec fn coord_of(b: u8) -> int {
    (b - 79) * 32768
}

/// The stroke bytes decoded four at a time into segment endpoints on the
/// z = 0 plane.
pub open spec fn decoded_segs(bs: Seq<u8>) -> Seq<(V, V)> {
    Seq::new(
        (bs.len() / 4) as nat,
        |i: int|
            (
                V { x: coord_of(bs[4 * i]) as i64, y: coord_of(bs[4 * i + 1]) as i64, z: 0 },
                V { x: coord_of(bs[4 * i + 2]) as i64, y: coord_of(bs[4 * i + 3]) as i64, z: 0 },
            ),
    )
}

pub open spec fn seg_fits(s: (V, V)) -> bool {
    &&& bounded3(vm(s.0), SEG_LIM as int)
    &&& bounded3(vm(s.1), SEG_LIM as int)
}

/// The stroke table as bytes.
pub fn letter_bytes() -> (r: Vec<u8>)
    ensures
        r@ == letter_bytes_spec(),
{
    let r: Vec<u8> = vec![
        53u8, 79, 53, 95, 53, 87, 57, 87, 53, 95, 57, 95,
        65, 79, 69, 79, 67, 79, 67, 95, 65, 95, 69, 95,
        73, 79, 81, 95, 73, 95, 81, 79,
        85, 79, 89, 95, 89, 95, 93, 79, 87, 87, 91, 87,
        97, 79, 97, 95, 97, 87, 101, 87, 97, 95, 101, 95, 99, 87, 105, 79,
    ];
    proof {
        assert(r@ =~= letter_bytes_spec());
    }
    r
}

/// Decodes a stroke table whose length is a whole number of segments.  The
/// table is internal data, so a ragged length is a programming fault and is
/// excluded up front.
pub fn decode_segments(bytes: &Vec<u8>) -> (r: Vec<(V, V)>)
    requires
        bytes@.len() % 4 == 0,
    ensures
        r@ == decoded_segs(bytes@),
        forall|i: int| 0 <= i < r@.len() ==> seg_fits(#[trigger] r@[i]),
{
    let n = bytes.len() / 4;
    proof {
        vstd::arithmetic::div_mod::lemma_fundamental_div_mod(bytes@.len() as int, 4);
    }
    let mut r: Vec<(V, V)> = Vec::new();
    let mut i: usize = 0;
    while i < n
        invariant
            n == bytes@.len() / 4,
            bytes@.len() == 4 * n,
            bytes@.len() <= usize::MAX,
            i <= n,
            r@ == decoded_segs(bytes@).take(i as int),
            forall|j: int| 0 <= j < r@.len() ==> seg_fits(#[trigger] r@[j]),
        decreases n - i,
    {
        let b0 = (bytes[4 * i] as i64 - 79) * 32768;
        let b1 = (bytes[4 * i + 1] as i64 - 79) * 32768;
        let b2 = (bytes[4 * i + 2] as i64 - 79) * 32768;
        let b3 = (bytes[4 * i + 3] as i64 - 79) * 32768;
        let seg = (V::new(b0, b1, 0), V::new(b2, b3, 0));
        r.push(seg);
        proof {
            assert(seg == decoded_segs(bytes@)[i as int]);
            assert(r@ =~= decoded_segs(bytes@).take(i as int + 1));
        }
        i = i + 1;
    }
    proof {
        assert(r@ =~= decoded_segs(bytes@));
    }
    r
}

/// Squared distance from `f` to the segment `a`..`b`: the closest-point
/// parameter clamped to the segment, then the squared offset.  A degenerate
/// segment counts as its first endpoint.
pub open spec fn seg_sq_spec(f: (int, int, int), a: (int, int, int), b: (int, int, int)) -> int {
    let e = vsub(b, a);
    let den = vdot(e, e);
    let num = vdot(vsub(f, a), e);
    let t = if den == 0 {
        0
    } else {
        imin(imax(fdiv(num, den), 0), SCALE as int)
    };
    let o = vsub(f, vadd(a, vscale(e, t)));
    vdot(o, o)
}

pub fn seg_dist_sq(f: V, a: V, b: V) -> (r: i64)
    requires
        p_fits(f),
        bounded3(vm(a), SEG_LIM as int),
        bounded3(vm(b), SEG_LIM as int),
    ensures
        r == seg_sq_spec(vm(f), vm(a), vm(b)),
        0 <= r <= 0x200_0000_0000,
{
    let e = b.sub(a);
    proof {
        lemma_vdot_bound(vm(e), vm(e), 2 * SEG_LIM as int, 2 * SEG_LIM as int);
        lemma_vdot_self_nonneg(vm(e));
    }
    let den = e.dot(e);
    let fa = f.sub(a);
    proof {
        lemma_vdot_bound(vm(fa), vm(e), (P_LIM + SEG_LIM) as int, 2 * SEG_LIM as int);
    }
    let num = fa.dot(e);
    let t: i64 = if den == 0 {
        0
    } else {
        fx_min(fx_max(fx_div(num, den), 0), SCALE)
    };
    proof {
        lemma_vscale_bound(vm(e), t as int, 2 * SEG_LIM as int, SCALE as int);
    }
    let o = f.sub(a.add(e.scale(t)));
    proof {
        lemma_vdot_bound(vm(o), vm(o), 0xA00_0000, 0xA00_0000);
        lemma_vdot_self_nonneg(vm(o));
    }
    o.dot(o)
}

/// Distance from `f` to one of the two circular arcs: on the open side the
/// distance to the radius-two circle, on the closed side the `y` offset is
/// pushed two units away from the axis first.
pub open spec fn arc_spec(f: (int, int, int), c: (int, int, int)) -> int {
    let o = vsub(f, c);
    if o.0 > 0 {
        let d = isqrt_spec((vdot(o, o) * SCALE) as nat) as int;
        iabs(d - 2 * SCALE)
    } else {
        let oy = if o.1 > 0 {
            o.1 - 2 * SCALE
        } else {
            o.1 + 2 * SCALE
        };
        let o2 = (o.0, oy, o.2);
        isqrt_spec((vdot(o2, o2) * SCALE) as nat) as int
    }
}

pub fn arc_dist(f: V, c: V) -> (r: i64)
    requires
        p_fits(f),
        bounded3(vm(c), 0x100_0000),
    ensures
        r == arc_spec(vm(f), vm(c)),
        0 <= r < 0x1000_0000,
{
    let o = f.sub(c);
    if o.x() > 0 {
        proof {
            lemma_vdot_bound(vm(o), vm(o), 0x900_0000, 0x900_0000);
            lemma_vdot_self_nonneg(vm(o));
        }
        let q = o.dot(o);
        proof {
            assert((0x1000_0000 as nat) * (0x1000_0000 as nat) > (q * SCALE) as nat);
            crate::fx::lemma_isqrt_lt((q * SCALE) as nat, 0x1000_0000 as nat);
        }
        let d = fx_sqrt(q);
        fx_abs(d - 131072)
    } else {
        let oy = if o.y() > 0 {
            o.y() - 131072
        } else {
            o.y() + 131072
        };
        let o2 = V::new(o.x(), oy, o.z());
        proof {
            lemma_vdot_bound(vm(o2), vm(o2), 0x920_0000, 0x920_0000);
            lemma_vdot_self_nonneg(vm(o2));
        }
        let q = o2.dot(o2);
        proof {
            assert((0x1000_0000 as nat) * (0x1000_0000 as nat) > (q * SCALE) as nat);
            crate::fx::lemma_isqrt_lt((q * SCALE) as nat, 0x1000_0000 as nat);
        }
        fx_sqrt(q)
    }
}

/// Raw clamp applied to both inputs of the superellipse blend, keeping the
/// eighth powers inside `i64`; clamping a distance down never overestimates,
/// so the field stays a sound lower bound.
pub const BLEND_CLAMP: i64 = 262144;

/// The eighth power of a clamped raw value, rescaled at every squaring.
pub open spec fn pow8_spec(a: int) -> int {
    let p2 = fmul(a, a);
    let p4 = fmul(p2, p2);
    fmul(p4, p4)
}

pub fn pow8(a: i64) -> (r: i64)
    requires
        0 <= a <= BLEND_CLAMP,
    ensures
        r == pow8_spec(a as int),
        0 <= r <= 0x1_0000_0000,
{
    proof {
        crate::vec3::lemma_fmul_square_nonneg(a as int);
        crate::vec3::lemma_fmul_bound(a as int, a as int, BLEND_CLAMP as int, BLEND_CLAMP as int);
    }
    let p2 = fx_mul(a, a);
    proof {
        crate::vec3::lemma_fmul_square_nonneg(p2 as int);
        crate::vec3::lemma_fmul_bound(p2 as int, p2 as int, 0x10_0000, 0x10_0000);
    }
    let p4 = fx_mul(p2, p2);
    proof {
        crate::vec3::lemma_fmul_square_nonneg(p4 as int);
        crate::vec3::lemma_fmul_bound(p4 as int, p4 as int, 0x100_0000, 0x100_0000);
    }
    fx_mul(p4, p4)
}

/// The superellipse blend of the planar letter distance with the extrusion
/// depth: the eighth root of the summed eighth powers, less the half-unit
/// rounding radius.
pub open spec fn superellipse_spec(d2: int, z: int) -> int {
    let dc = imin(d2, BLEND_CLAMP as int);
    let zc = imin(iabs(z), BLEND_CLAMP as int);
    let p = pow8_spec(dc) + pow8_spec(zc);
    let r1 = isqrt_spec((p * SCALE) as nat) as int;
    let r2 = isqrt_spec((r1 * SCALE) as nat) as int;
    let r3 = isqrt_spec((r2 * SCALE) as nat) as int;
    r3 - 32768
}

pub fn superellipse(d2: i64, z: i64) -> (r: i64)
    requires
        0 <= d2 < 0x1000_0000,
        -P_LIM <= z <= P_LIM,
    ensures
        r == superellipse_spec(d2 as int, z as int),
        -32768 <= r < 0x1000_0000,
{
    let dc = fx_min(d2, BLEND_CLAMP);
    let zc = fx_min(fx_abs(z), BLEND_CLAMP);
    let p = pow8(dc) + pow8(zc);
    let r1 = fx_sqrt(p);
    let r2 = fx_sqrt(r1);
    proof {
        assert((0x1000_0000 as nat) * (0x1000_0000 as nat) > (r2 * SCALE) as nat);
        crate::fx::lemma_isqrt_lt((r2 * SCALE) as nat, 0x1000_0000 as nat);
    }
    let r3 = fx_sqrt(r2);
    r3 - 32768
}

/// Interior distance of a point against an axis-aligned box: negative of the
/// smallest per-axis clearance, so positive outside the box.
pub open spec fn box_spec(p: (int, int, int), ll: (int, int, int), ur: (int, int, int)) -> int {
    let a = vsub(p, ll);
    let b = vsub(ur, p);
    -imin(imin(imin(a.0, b.0), imin(a.1, b.1)), imin(a.2, b.2))
}

pub fn box_test(position: V, lower_left: V, upper_right: V) -> (r: i64)
    requires
        p_fits(position),
        bounded3(vm(lower_left), 0x200_0000),
        bounded3(vm(upper_right), 0x200_0000),
    ensures
        r == box_spec(vm(position), vm(lower_left), vm(upper_right)),
        -0xA00_0000 <= r <= 0xA00_0000,
{
    let a = position.sub(lower_left);
    let b = upper_right.sub(position);
    -fx_min(fx_min(fx_min(a.x(), b.x()), fx_min(a.y(), b.y())), fx_min(a.z(), b.z()))
}

/// The room: an outer shell minus an inner box, unioned with a window/pillar
/// pattern repeated by folding `|x|` modulo eight units.
pub open spec fn room_spec(p: (int, int, int)) -> int {
    let a = box_spec(p, (-1966080, -32768, -1966080), (1966080, 1179648, 1966080));
    let b = box_spec(p, (-1638400, 1114112, -1638400), (1638400, 1310720, 1638400));
    let folded = (iabs(p.0) % 524288, p.1, p.2);
    let c = box_spec(folded, (98304, 1212416, -1638400), (425984, 1310720, 1638400));
    imin(-imin(a, b), c)
}

pub fn room_dist(position: V) -> (r: i64)
    requires
        p_fits(position),
    ensures
        r == room_spec(vm(position)),
        -0xA00_0000 <= r <= 0xA00_0000,
{
    let a = box_test(
        position,
        V::new(-1966080, -32768, -1966080),
        V::new(1966080, 1179648, 1966080),
    );
    let b = box_test(
        position,
        V::new(-1638400, 1114112, -1638400),
        V::new(1638400, 1310720, 1638400),
    );
    let fx = ((fx_abs(position.x()) as u64) % 524288) as i64;
    let folded = V::new(fx, position.y(), position.z());
    let c = box_test(folded, V::new(98304, 1212416, -1638400), V::new(425984, 1310720, 1638400));
    fx_min(-fx_min(a, b), c)
}

/// Height of the emissive sun plane, in raw units.
pub const SUN_HEIGHT: i64 = 1304166;

/// Minimum squared stroke distance over the first `n` segments.
pub open spec fn strokes_min_sq(f: (int, int, int), segs: Seq<(V, V)>, n: int) -> int
    decreases n,
{
    if n <= 0 {
        START_SQ as int
    } else {
        imin(
            strokes_min_sq(f, segs, n - 1),
            seg_sq_spec(f, vm(segs[n - 1].0), vm(segs[n - 1].1)),
        )
    }
}

/// Planar letter distance: the square root of the stroke minimum, unioned
/// with the two arcs.
pub open spec fn letter2d_spec(f: (int, int, int), segs: Seq<(V, V)>) -> int {
    let sq = strokes_min_sq(f, segs, segs.len() as int);
    let d = isqrt_spec((sq * SCALE) as nat) as int;
    let d1 = imin(d, arc_spec(f, (-720896, 393216, 0)));
    imin(d1, arc_spec(f, (720896, 393216, 0)))
}

/// The full scene field: the letter candidate first, then the walls if
/// strictly nearer, then the sun plane if nearer still.
#[verifier::opaque]
pub open spec fn query_spec(p: (int, int, int)) -> (Hit, int) {
    let segs = decoded_segs(letter_bytes_spec());
    let f = (p.0, p.1, 0);
    let letter = superellipse_spec(letter2d_spec(f, segs), p.2);
    let room = room_spec(p);
    let kind1 = if room < letter {
        Hit::Wall
    } else {
        Hit::Letter
    };
    let d1 = imin(room, letter);
    let sun = SUN_HEIGHT - p.1;
    if sun < d1 {
        (Hit::Sun, sun)
    } else {
        (kind1, d1)
    }
}

/// Evaluates the scene field at `position`: the nearest surface family and a
/// conservative signed distance estimate toward it.
pub fn query_database(position: V) -> (r: (Hit, i64))
    requires
        p_fits(position),
    ensures
        r.0 == query_spec(vm(position)).0,
        r.1 == query_spec(vm(position)).1,
        r.0 != Hit::Nothing,
        -D_LIM <= r.1 <= D_LIM,
{
    proof {
        reveal(query_spec);
    }
    let bytes = letter_bytes();
    let segs = decode_segments(&bytes);
    let f = V::new(position.x(), position.y(), 0);
    let ghost fm = vm(f);
    let n = segs.len();
    let mut best: i64 = START_SQ;
    let mut i: usize = 0;
    while i < n
        invariant
            n == segs@.len(),
            i <= n,
            p_fits(f),
            forall|j: int| 0 <= j < segs@.len() ==> seg_fits(#[trigger] segs@[j]),
            best == strokes_min_sq(fm, segs@, i as int),
            fm == vm(f),
            0 <= best <= FX_LIM,
        decreases n - i,
    {
        let (a, b) = segs[i];
        let sq = seg_dist_sq(f, a, b);
        best = fx_min(best, sq);
        i = i + 1;
    }
    let d0 = fx_sqrt(best);
    let d1 = fx_min(d0, arc_dist(f, V::new(-720896, 393216, 0)));
    let d2 = fx_min(d1, arc_dist(f, V::new(720896, 393216, 0)));
    let letter = superellipse(d2, position.z());
    let room = room_dist(position);
    let mut hit = Hit::Letter;
    let mut dist = letter;
    if room < dist {
        dist = room;
        hit = Hit::Wall;
    }
    let sun = SUN_HEIGHT - position.y();
    if sun < dist {
        dist = sun;
        hit = Hit::Sun;
    }
    (hit, dist)
}

} // verus!
