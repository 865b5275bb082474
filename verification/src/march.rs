use vstd::prelude::*;
use crate::fx::SCALE;
use crate::vec3::{V, vm, vadd, vsub, vscale, vnorm, bounded3, lemma_vscale_bound};
use crate::scene::{Hit, query_spec, query_database, D_LIM};

verus! {

/// Raw magnitude bound on ray origins accepted by the marcher.
pub const O_LIM: i64 = 0x380_0000;

/// Raw magnitude bound on direction components; directions are unit length,
/// with headroom for rounding.
pub const DIR_LIM: i64 = 131072;

/// The hit threshold and the normal-estimation step: a hundredth of a unit.
pub const EPS: i64 = 655;

/// Travel limit: past a hundred units the ray has escaped the scene.
pub const T_MAX: i64 = 6553600;

/// Bound on the positions the marcher hands back.
pub const POS_LIM: i64 = 0x448_0000;

/// The surface normal at a hit: forward finite differences of the scene
/// field, normalized.  A flat difference normalizes to the zero vector.
pub open spec fn normal_spec(pos: (int, int, int), d: int) -> (int, int, int) {
    let nx = query_spec(vadd(pos, (EPS as int, 0, 0))).1;
    let ny = query_spec(vadd(pos, (0, EPS as int, 0))).1;
    let nz = query_spec(vadd(pos, (0, 0, EPS as int))).1;
    vnorm((nx - d, ny - d, nz - d))
}

/// The marching recursion from travel `t` after `misses` free steps: a hit
/// when the field falls under the threshold or the miss budget runs out, an
/// escape when the travel limit is passed, otherwise one step forward.  The
/// miss budget shrinks every step, so the march always ends.
pub open spec fn march_go(o: (int, int, int), d: (int, int, int), t: int, misses: int) -> (
    Hit,
    (int, int, int),
    (int, int, int),
)
    decreases 100 - misses,
{
    if t >= T_MAX {
        (Hit::Nothing, (0, 0, 0), (0, 0, 0))
    } else {
        let pos = vadd(o, vscale(d, t));
        let q = query_spec(pos);
        if q.1 < EPS || misses + 1 > 99 {
            (q.0, pos, normal_spec(pos, q.1))
        } else {
            march_go(o, d, t + q.1, misses + 1)
        }
    }
}

/// The whole march of one ray.
pub open spec fn march_spec(o: (int, int, int), d: (int, int, int)) -> (
    Hit,
    (int, int, int),
    (int, int, int),
) {
    march_go(o, d, 0, 0)
}

/// Estimates the surface normal near `pos`, where the field reads `d`.
pub fn estimate_normal(pos: V, d: i64) -> (r: V)
    requires
        bounded3(vm(pos), POS_LIM as int),
        -D_LIM <= d <= D_LIM,
    ensures
        vm(r) == normal_spec(vm(pos), d as int),
        bounded3(vm(r), 2 * SCALE as int),
{
    let (_hx, nx) = query_database(pos.add(V::new(EPS, 0, 0)));
    let (_hy, ny) = query_database(pos.add(V::new(0, EPS, 0)));
    let (_hz, nz) = query_database(pos.add(V::new(0, 0, EPS)));
    V::new(nx - d, ny - d, nz - d).norm()
}

/// Sphere-traces one ray against the scene field.  Returns the surface
/// family, the hit position and the unit normal there, or an escape marked
/// `Hit::Nothing` with zero vectors.  The miss budget bounds the loop, so the
/// march terminates on every ray.
pub fn ray_marching(origin: V, direction: V) -> (r: (Hit, V, V))
    requires
        bounded3(vm(origin), O_LIM as int),
        bounded3(vm(direction), DIR_LIM as int),
    ensures
        (r.0, vm(r.1), vm(r.2)) == march_spec(vm(origin), vm(direction)),
        bounded3(vm(r.1), POS_LIM as int),
        bounded3(vm(r.2), 2 * SCALE as int),
        r.0 == Hit::Nothing || bounded3(vsub(vm(r.1), vm(origin)), 0xC8_0000),
{
    let mut total: i64 = 0;
    let mut misses: i64 = 0;
    while total < T_MAX
        invariant
            0 <= total <= T_MAX + D_LIM,
            0 <= misses <= 99,
            bounded3(vm(origin), O_LIM as int),
            bounded3(vm(direction), DIR_LIM as int),
            march_go(vm(origin), vm(direction), total as int, misses as int) == march_spec(
                vm(origin),
                vm(direction),
            ),
        decreases 100 - misses,
    {
        proof {
            lemma_vscale_bound(vm(direction), total as int, DIR_LIM as int, T_MAX as int);
        }
        let pos = origin.add(direction.scale(total));
        let (h, d) = query_database(pos);
        if d < EPS || misses + 1 > 99 {
            let n = estimate_normal(pos, d);
            return (h, pos, n);
        }
        misses = misses + 1;
        total = total + d;
    }
    (Hit::Nothing, V::new(0, 0, 0), V::new(0, 0, 0))
}

} // verus!
