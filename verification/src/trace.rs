use vstd::prelude::*;
use crate::fx::{
    fmul, fdiv, isqrt_spec, sin_turn_spec, cos_turn_spec, sin_turn, cos_turn,
    fx_div, fx_mul, fx_sqrt, fx_sign_unit, lemma_fmul_nonneg, lemma_isqrt_lt,
    lemma_tdiv_signed_bound, SCALE, FULL_TURN,
};
use crate::vec3::{
    V, vm, vadd, vmul, vscale, vdot, vnorm, bounded3, lemma_fmul_bound, lemma_vdot_bound,
    lemma_vmul_bound, lemma_vscale_bound,
};
use crate::scene::Hit;
use crate::march::{march_spec, ray_marching, DIR_LIM};
use crate::entropy::random_fraction;

verus! {

/// Maximum bounce depth of one traced path.
pub const BOUNCES: usize = 3;

/// Energy kept per bounce: a fifth of a unit.
pub const ATTEN: i64 = 13107;

/// Surface escape offset along a fresh direction: a tenth of a unit.
pub const OFFSET: i64 = 6554;

/// Raw magnitude bound on the origins the tracer accepts.
pub const CAM_LIM: i64 = 0x40_0000;

/// Raw bound on the accumulated color of one traced path.
pub const COL_LIM: i64 = 0x4800_0000;

/// The emissive sky color reached through the sun plane: (50, 80, 100).
pub open spec fn sky_color() -> (int, int, int) {
    (3276800, 5242880, 6553600)
}

/// The direct sun color carried by shadow rays: (500, 400, 100).
pub open spec fn sun_color() -> (int, int, int) {
    (32768000, 26214400, 6553600)
}

/// The fixed light direction: (0.6, 0.6, 1.0) normalized.
pub open spec fn light_spec() -> (int, int, int) {
    vnorm((39322, 39322, 65536))
}

/// The fixed light direction as a vector value.
pub fn light_dir() -> (r: V)
    ensures
        vm(r) == light_spec(),
        bounded3(vm(r), 2 * SCALE as int),
{
    V::new(39322, 39322, 65536).norm()
}

/// Mirror reflection of `d` about `n`, kept unit length.
pub open spec fn reflect_dir_spec(d: (int, int, int), n: (int, int, int)) -> (int, int, int) {
    vnorm(vadd(d, vscale(n, -2 * vdot(n, d))))
}

/// A cosine-weighted scatter direction about the normal `n`, from a turn
/// fraction `p` and a height draw `c`, both uniform raw fractions.  The
/// tangent basis follows the sign of `n.z`, which keeps the construction away
/// from its singularity.
pub open spec fn diffuse_dir_spec(n: (int, int, int), p: int, c: int) -> (int, int, int) {
    let g = if n.2 >= 0 {
        SCALE as int
    } else {
        -(SCALE as int)
    };
    let u = fdiv(-(SCALE as int), g + n.2);
    let v = fmul(fmul(n.0, n.1), u);
    let t1 = (v, g + fmul(fmul(n.1, n.1), u), -n.1);
    let t2 = (SCALE + fmul(g, fmul(fmul(n.0, n.0), u)), fmul(g, v), -fmul(g, n.0));
    let s = isqrt_spec(((SCALE - c) * SCALE) as nat) as int;
    let cs = fmul(cos_turn_spec(p), s);
    let ss = fmul(sin_turn_spec(p), s);
    let sq = isqrt_spec((c * SCALE) as nat) as int;
    vnorm(vadd(vadd(vscale(t1, cs), vscale(t2, ss)), vscale(n, sq)))
}

/// One path, bounced from state to state: escapes keep the color, the sun
/// plane adds the attenuated sky and ends the path, letters mirror the ray,
/// walls scatter it diffusely and add direct sun light when the shadow ray
/// toward the light reaches the sun plane.
pub open spec fn trace_go(
    o: (int, int, int),
    d: (int, int, int),
    att: (int, int, int),
    col: (int, int, int),
    draws: Seq<i64>,
    bounce: int,
) -> (int, int, int)
    decreases 3 - bounce,
{
    if bounce >= 3 {
        col
    } else {
        let m = march_spec(o, d);
        let pos = m.1;
        let n = m.2;
        if m.0 == Hit::Nothing {
            col
        } else if m.0 == Hit::Sun {
            vadd(col, vmul(att, sky_color()))
        } else if m.0 == Hit::Letter {
            let d2 = reflect_dir_spec(d, n);
            trace_go(
                vadd(pos, vscale(d2, OFFSET as int)),
                d2,
                vscale(att, ATTEN as int),
                col,
                draws,
                bounce + 1,
            )
        } else {
            let d2 = diffuse_dir_spec(n, draws[2 * bounce] as int, draws[2 * bounce + 1] as int);
            let att2 = vscale(att, ATTEN as int);
            let incidence = vdot(n, light_spec());
            let col2 = if incidence > 0 && march_spec(
                vadd(pos, vscale(n, OFFSET as int)),
                light_spec(),
            ).0 == Hit::Sun {
                vadd(col, vscale(vmul(att2, sun_color()), incidence))
            } else {
                col
            };
            trace_go(vadd(pos, vscale(d2, OFFSET as int)), d2, att2, col2, draws, bounce + 1)
        }
    }
}

/// The radiance of one path from `o` along `d`, using the six uniform draws.
pub open spec fn trace_spec(o: (int, int, int), d: (int, int, int), draws: Seq<i64>) -> (
    int,
    int,
    int,
) {
    trace_go(o, d, (SCALE as int, SCALE as int, SCALE as int), (0, 0, 0), draws, 0)
}

/// Six uniform raw fractions, two per possible bounce.
pub open spec fn uniform_draws(d: Seq<i64>) -> bool {
    &&& d.len() == 6
    &&& forall|i: int| 0 <= i < 6 ==> 0 <= #[trigger] d[i] < FULL_TURN
}

/// Traces one path with the given uniform draws: the deterministic core of
/// the integrator.
pub fn trace_with(origin: V, direction: V, draws: &Vec<i64>) -> (r: V)
    requires
        bounded3(vm(origin), CAM_LIM as int),
        bounded3(vm(direction), DIR_LIM as int),
        uniform_draws(draws@),
    ensures
        vm(r) == trace_spec(vm(origin), vm(direction), draws@),
        0 <= r.x <= COL_LIM,
        0 <= r.y <= COL_LIM,
        0 <= r.z <= COL_LIM,
{
    let light = light_dir();
    let mut o = origin;
    let mut d = direction;
    let mut att = V::from_scalar(SCALE);
    let mut col = V::new(0, 0, 0);
    let mut bounce: usize = 0;
    while bounce < BOUNCES
        invariant
            bounce <= 3,
            bounded3(vm(o), CAM_LIM + bounce * 0xD0_0000),
            bounded3(vm(d), DIR_LIM as int),
            0 <= att.x <= SCALE,
            0 <= att.y <= SCALE,
            0 <= att.z <= SCALE,
            0 <= col.x <= bounce * 0x1800_0000,
            0 <= col.y <= bounce * 0x1800_0000,
            0 <= col.z <= bounce * 0x1800_0000,
            vm(light) == light_spec(),
            bounded3(vm(light), 2 * SCALE as int),
            uniform_draws(draws@),
            trace_go(vm(o), vm(d), vm(att), vm(col), draws@, bounce as int) == trace_spec(
                vm(origin),
                vm(direction),
                draws@,
            ),
        decreases 3 - bounce,
    {
        let (h, pos, n) = ray_marching(o, d);
        match h {
            Hit::Nothing => {
                return col;
            },
            Hit::Sun => {
                proof {
                    lemma_vmul_bound(vm(att), sky_color(), SCALE as int, 6553600);
                    lemma_fmul_nonneg(att.x as int, 3276800);
                    lemma_fmul_nonneg(att.y as int, 5242880);
                    lemma_fmul_nonneg(att.z as int, 6553600);
                }
                let c = att.mul(V::new(3276800, 5242880, 6553600));
                return col.add(c);
            },
            Hit::Letter => {
                proof {
                    lemma_vdot_bound(vm(n), vm(d), 2 * SCALE as int, DIR_LIM as int);
                }
                let s = n.dot(d);
                proof {
                    lemma_vscale_bound(vm(n), -2 * s as int, 2 * SCALE as int, 24 * SCALE as int);
                }
                let refl = d.add(n.scale(-2 * s));
                let d2 = refl.norm();
                let step = d2.scale(OFFSET);
                proof {
                    lemma_vscale_bound(vm(d2), OFFSET as int, 2 * SCALE as int, OFFSET as int);
                    lemma_fmul_nonneg(att.x as int, ATTEN as int);
                    lemma_fmul_nonneg(att.y as int, ATTEN as int);
                    lemma_fmul_nonneg(att.z as int, ATTEN as int);
                    lemma_fmul_bound(att.x as int, ATTEN as int, SCALE as int, ATTEN as int);
                    lemma_fmul_bound(att.y as int, ATTEN as int, SCALE as int, ATTEN as int);
                    lemma_fmul_bound(att.z as int, ATTEN as int, SCALE as int, ATTEN as int);
                }
                o = pos.add(step);
                d = d2;
                att = att.scale(ATTEN);
                bounce = bounce + 1;
            },
            Hit::Wall => {
                let g = fx_sign_unit(n.z());
                proof {
                    lemma_tdiv_signed_bound(
                        -(SCALE as int) * (SCALE as int),
                        g as int + n.z as int,
                        SCALE as int,
                    );
                }
                let u = fx_div(-SCALE, g + n.z());
                proof {
                    lemma_fmul_bound(n.x as int, n.y as int, 2 * SCALE as int, 2 * SCALE as int);
                    lemma_fmul_bound(
                        fmul(n.x as int, n.y as int),
                        u as int,
                        4 * SCALE as int,
                        SCALE as int,
                    );
                    lemma_fmul_bound(n.y as int, n.y as int, 2 * SCALE as int, 2 * SCALE as int);
                    lemma_fmul_bound(
                        fmul(n.y as int, n.y as int),
                        u as int,
                        4 * SCALE as int,
                        SCALE as int,
                    );
                    lemma_fmul_bound(n.x as int, n.x as int, 2 * SCALE as int, 2 * SCALE as int);
                    lemma_fmul_bound(
                        fmul(n.x as int, n.x as int),
                        u as int,
                        4 * SCALE as int,
                        SCALE as int,
                    );
                }
                let v = fx_mul(fx_mul(n.x(), n.y()), u);
                let t1 = V::new(v, g + fx_mul(fx_mul(n.y(), n.y()), u), -n.y());
                proof {
                    lemma_fmul_bound(
                        g as int,
                        fmul(fmul(n.x as int, n.x as int), u as int),
                        SCALE as int,
                        4 * SCALE as int,
                    );
                    lemma_fmul_bound(g as int, v as int, SCALE as int, 4 * SCALE as int);
                    lemma_fmul_bound(g as int, n.x as int, SCALE as int, 2 * SCALE as int);
                }
                let t2 = V::new(
                    SCALE + fx_mul(g, fx_mul(fx_mul(n.x(), n.x()), u)),
                    fx_mul(g, v),
                    -fx_mul(g, n.x()),
                );
                let p = draws[2 * bounce];
                let c = draws[2 * bounce + 1];
                proof {
                    lemma_isqrt_lt(((SCALE - c) * SCALE) as nat, (SCALE + 1) as nat);
                    lemma_isqrt_lt((c * SCALE) as nat, (SCALE + 1) as nat);
                }
                let s = fx_sqrt(SCALE - c);
                let cs = fx_mul(cos_turn(p), s);
                let ss = fx_mul(sin_turn(p), s);
                let sq = fx_sqrt(c);
                proof {
                    lemma_fmul_bound(cos_turn_spec(p as int), s as int, SCALE as int, SCALE as int);
                    lemma_fmul_bound(sin_turn_spec(p as int), s as int, SCALE as int, SCALE as int);
                    lemma_vscale_bound(vm(t1), cs as int, 5 * SCALE as int, SCALE as int);
                    lemma_vscale_bound(vm(t2), ss as int, 5 * SCALE as int, SCALE as int);
                    lemma_vscale_bound(vm(n), sq as int, 2 * SCALE as int, SCALE as int);
                }
                let mix = t1.scale(cs).add(t2.scale(ss)).add(n.scale(sq));
                let d2 = mix.norm();
                proof {
                    lemma_fmul_nonneg(att.x as int, ATTEN as int);
                    lemma_fmul_nonneg(att.y as int, ATTEN as int);
                    lemma_fmul_nonneg(att.z as int, ATTEN as int);
                    lemma_fmul_bound(att.x as int, ATTEN as int, SCALE as int, ATTEN as int);
                    lemma_fmul_bound(att.y as int, ATTEN as int, SCALE as int, ATTEN as int);
                    lemma_fmul_bound(att.z as int, ATTEN as int, SCALE as int, ATTEN as int);
                }
                let att2 = att.scale(ATTEN);
                proof {
                    lemma_vdot_bound(vm(n), vm(light), 2 * SCALE as int, 2 * SCALE as int);
                }
                let inc = n.dot(light);
                if inc > 0 {
                    proof {
                        lemma_vscale_bound(vm(n), OFFSET as int, 2 * SCALE as int, OFFSET as int);
                    }
                    let shadow_origin = pos.add(n.scale(OFFSET));
                    let (sh, _sp, _sn) = ray_marching(shadow_origin, light);
                    if sh == Hit::Sun {
                        proof {
                            lemma_vmul_bound(vm(att2), sun_color(), SCALE as int, 32768000);
                            lemma_fmul_nonneg(att2.x as int, 32768000);
                            lemma_fmul_nonneg(att2.y as int, 26214400);
                            lemma_fmul_nonneg(att2.z as int, 6553600);
                        }
                        let lit = att2.mul(V::new(32768000, 26214400, 6553600));
                        proof {
                            lemma_vscale_bound(vm(lit), inc as int, 32768000, 12 * SCALE as int);
                            lemma_fmul_nonneg(lit.x as int, inc as int);
                            lemma_fmul_nonneg(lit.y as int, inc as int);
                            lemma_fmul_nonneg(lit.z as int, inc as int);
                        }
                        col = col.add(lit.scale(inc));
                    }
                }
                let step = d2.scale(OFFSET);
                proof {
                    lemma_vscale_bound(vm(d2), OFFSET as int, 2 * SCALE as int, OFFSET as int);
                }
                o = pos.add(step);
                d = d2;
                att = att2;
                bounce = bounce + 1;
            },
        }
    }
    col
}

/// Traces one path with fresh uniform draws.  The result is the radiance of
/// one of the paths that `trace_spec` describes, for some admissible draws.
pub fn trace(origin: V, direction: V) -> (r: V)
    requires
        bounded3(vm(origin), CAM_LIM as int),
        bounded3(vm(direction), DIR_LIM as int),
    ensures
        exists|dr: Seq<i64>|
            uniform_draws(dr) && vm(r) == trace_spec(vm(origin), vm(direction), dr),
        0 <= r.x <= COL_LIM,
        0 <= r.y <= COL_LIM,
        0 <= r.z <= COL_LIM,
{
    let mut draws: Vec<i64> = Vec::new();
    let mut i: usize = 0;
    while i < 6
        invariant
            i <= 6,
            draws@.len() == i,
            forall|j: int| 0 <= j < i as int ==> 0 <= #[trigger] draws@[j] < FULL_TURN,
        decreases 6 - i,
    {
        let f = random_fraction();
        draws.push(f);
        i = i + 1;
    }
    let r = trace_with(origin, direction, &draws);
    proof {
        let dr = draws@;
        assert(uniform_draws(dr) && vm(r) == trace_spec(vm(origin), vm(direction), dr));
    }
    r
}

} // verus!
