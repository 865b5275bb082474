use vstd::prelude::*;
use crate::fx::{fdiv, fx_div, SCALE};
use crate::vec3::{
    V, vm, vadd, vsub, vscale, vcross, vnorm, bounded3, lemma_vscale_bound,
};
use crate::march::DIR_LIM;
use crate::trace::{trace, trace_with, trace_spec, uniform_draws, CAM_LIM, COL_LIM};
use crate::entropy::random_fraction;

verus! {

/// Image width in pixels.
pub const W: u32 = 960;

/// Image height in pixels.
pub const H: u32 = 540;

/// The fixed camera position: (-22, 5, 25).
pub open spec fn camera_pos_spec() -> (int, int, int) {
    (-1441792, 327680, 1638400)
}

/// The fixed look-at target: (-3, 4, 0).
pub open spec fn camera_target_spec() -> (int, int, int) {
    (-196608, 262144, 0)
}

/// The camera basis: the unit view direction, a left vector scaled to one
/// pixel, and the up vector completing the frame.
pub open spec fn camera_basis_spec() -> ((int, int, int), (int, int, int), (int, int, int)) {
    let goal = vnorm(vsub(camera_target_spec(), camera_pos_spec()));
    let left = vscale(vnorm((goal.2, 0, -goal.0)), fdiv(SCALE as int, 960 * SCALE as int));
    let up = vcross(goal, left);
    (goal, left, up)
}

/// The fixed camera position as a vector value.
pub fn camera_pos() -> (r: V)
    ensures
        vm(r) == camera_pos_spec(),
        bounded3(vm(r), CAM_LIM as int),
{
    V::new(-1441792, 327680, 1638400)
}

/// Computes the camera basis from the fixed position and target.
pub fn camera_basis() -> (r: (V, V, V))
    ensures
        (vm(r.0), vm(r.1), vm(r.2)) == camera_basis_spec(),
        bounded3(vm(r.0), 2 * SCALE as int),
        bounded3(vm(r.1), 2 * SCALE as int),
        bounded3(vm(r.2), 8 * SCALE as int),
{
    let pos = V::new(-1441792, 327680, 1638400);
    let target = V::new(-196608, 262144, 0);
    let goal = target.sub(pos).norm();
    let inv_w = fx_div(SCALE, 960 * SCALE);
    proof {
        crate::fx::lemma_tdiv_signed_bound(
            SCALE as int * SCALE as int,
            960 * SCALE as int,
            SCALE as int,
        );
    }
    let left = V::new(goal.z(), 0, -goal.x()).norm().scale(inv_w);
    proof {
        lemma_vscale_bound(
            vnorm((vm(goal).2, 0, -vm(goal).0)),
            inv_w as int,
            2 * SCALE as int,
            SCALE as int,
        );
    }
    let up = goal.cross(left);
    proof {
        crate::vec3::lemma_fmul_bound(vm(goal).1, vm(left).2, 2 * SCALE as int, 2 * SCALE as int);
        crate::vec3::lemma_fmul_bound(vm(goal).2, vm(left).1, 2 * SCALE as int, 2 * SCALE as int);
        crate::vec3::lemma_fmul_bound(vm(goal).2, vm(left).0, 2 * SCALE as int, 2 * SCALE as int);
        crate::vec3::lemma_fmul_bound(vm(goal).0, vm(left).2, 2 * SCALE as int, 2 * SCALE as int);
        crate::vec3::lemma_fmul_bound(vm(goal).0, vm(left).1, 2 * SCALE as int, 2 * SCALE as int);
        crate::vec3::lemma_fmul_bound(vm(goal).1, vm(left).0, 2 * SCALE as int, 2 * SCALE as int);
    }
    (goal, left, up)
}

/// The jittered ray direction through pixel (x, y): the view direction plus
/// the pixel offsets from the image center, normalized.
pub open spec fn ray_dir_spec(
    x: int,
    y: int,
    jx: int,
    jy: int,
    goal: (int, int, int),
    left: (int, int, int),
    up: (int, int, int),
) -> (int, int, int) {
    let dx = (x - 480) * 65536 + jx;
    let dy = (y - 270) * 65536 + jy;
    vnorm(vadd(vadd(goal, vscale(left, dx)), vscale(up, dy)))
}

/// Builds the jittered camera ray for pixel (x, y).
pub fn camera_ray(x: u32, y: u32, jx: i64, jy: i64, goal: V, left: V, up: V) -> (r: V)
    requires
        x < W,
        y < H,
        0 <= jx < SCALE,
        0 <= jy < SCALE,
        bounded3(vm(goal), 2 * SCALE as int),
        bounded3(vm(left), 2 * SCALE as int),
        bounded3(vm(up), 8 * SCALE as int),
    ensures
        vm(r) == ray_dir_spec(x as int, y as int, jx as int, jy as int, vm(goal), vm(left), vm(up)),
        bounded3(vm(r), DIR_LIM as int),
{
    let dx = (x as i64 - 480) * 65536 + jx;
    let dy = (y as i64 - 270) * 65536 + jy;
    proof {
        lemma_vscale_bound(vm(left), dx as int, 2 * SCALE as int, 0x1F0_0000);
        lemma_vscale_bound(vm(up), dy as int, 8 * SCALE as int, 0x1F0_0000);
    }
    goal.add(left.scale(dx)).add(up.scale(dy)).norm()
}

/// The radiance of one jittered sample through pixel (x, y), given the
/// jitters and the bounce draws.
pub open spec fn sample_spec(
    x: int,
    y: int,
    jx: int,
    jy: int,
    pos: (int, int, int),
    goal: (int, int, int),
    left: (int, int, int),
    up: (int, int, int),
    draws: Seq<i64>,
) -> (int, int, int) {
    trace_spec(pos, ray_dir_spec(x, y, jx, jy, goal, left, up), draws)
}

/// One jittered radiance sample of pixel (x, y) with the given draws: the
/// deterministic core of progressive sampling.
pub fn sample_with(
    x: u32,
    y: u32,
    jx: i64,
    jy: i64,
    pos: V,
    goal: V,
    left: V,
    up: V,
    draws: &Vec<i64>,
) -> (r: V)
    requires
        x < W,
        y < H,
        0 <= jx < SCALE,
        0 <= jy < SCALE,
        bounded3(vm(pos), CAM_LIM as int),
        bounded3(vm(goal), 2 * SCALE as int),
        bounded3(vm(left), 2 * SCALE as int),
        bounded3(vm(up), 8 * SCALE as int),
        uniform_draws(draws@),
    ensures
        vm(r) == sample_spec(
            x as int,
            y as int,
            jx as int,
            jy as int,
            vm(pos),
            vm(goal),
            vm(left),
            vm(up),
            draws@,
        ),
        0 <= r.x <= COL_LIM,
        0 <= r.y <= COL_LIM,
        0 <= r.z <= COL_LIM,
{
    let dir = camera_ray(x, y, jx, jy, goal, left, up);
    trace_with(pos, dir, draws)
}

/// One fresh jittered radiance sample of pixel (x, y): the jitters and the
/// bounce draws come from the random source, so the result is one of the
/// samples that `sample_spec` admits.
pub fn sample(x: u32, y: u32, pos: V, goal: V, left: V, up: V) -> (r: V)
    requires
        x < W,
        y < H,
        bounded3(vm(pos), CAM_LIM as int),
        bounded3(vm(goal), 2 * SCALE as int),
        bounded3(vm(left), 2 * SCALE as int),
        bounded3(vm(up), 8 * SCALE as int),
    ensures
        exists|jx: i64, jy: i64, dr: Seq<i64>|
            {
                &&& 0 <= jx < SCALE
                &&& 0 <= jy < SCALE
                &&& uniform_draws(dr)
                &&& vm(r) == sample_spec(
                    x as int,
                    y as int,
                    jx as int,
                    jy as int,
                    vm(pos),
                    vm(goal),
                    vm(left),
                    vm(up),
                    dr,
                )
            },
        0 <= r.x <= COL_LIM,
        0 <= r.y <= COL_LIM,
        0 <= r.z <= COL_LIM,
{
    let jx = random_fraction();
    let jy = random_fraction();
    let dir = camera_ray(x, y, jx, jy, goal, left, up);
    let r = trace(pos, dir);
    proof {
        let dr = choose|dr: Seq<i64>|
            uniform_draws(dr) && vm(r) == trace_spec(vm(pos), vm(dir), dr);
        assert(0 <= jx < SCALE && 0 <= jy < SCALE && uniform_draws(dr) && vm(r) == sample_spec(
            x as int,
            y as int,
            jx as int,
            jy as int,
            vm(pos),
            vm(goal),
            vm(left),
            vm(up),
            dr,
        ));
    }
    r
}

/// The render coordinate queried for frame index `i`: the frame is filled in
/// reading order while the scene is sampled mirrored in both axes.
pub open spec fn coord_at(i: int) -> (u32, u32) {
    (((W - 1) as int - i % (W as int)) as u32, ((H - 1) as int - i / (W as int)) as u32)
}

/// All pixel coordinates in emission order, each flipped for rendering.
pub fn coords() -> (r: Vec<(u32, u32)>)
    ensures
        r@.len() == W * H,
        forall|i: int| 0 <= i < r@.len() ==> #[trigger] r@[i] == coord_at(i),
        forall|i: int|
            0 <= i < r@.len() ==> (#[trigger] r@[i]).0 < W && r@[i].1 < H,
{
    let mut r: Vec<(u32, u32)> = Vec::new();
    let mut y: u32 = 0;
    while y < H
        invariant
            y <= H,
            r@.len() == y * W,
            forall|i: int| 0 <= i < r@.len() ==> #[trigger] r@[i] == coord_at(i),
            forall|i: int|
                0 <= i < r@.len() ==> (#[trigger] r@[i]).0 < W && r@[i].1 < H,
        decreases H - y,
    {
        let mut x: u32 = 0;
        while x < W
            invariant
                y < H,
                x <= W,
                r@.len() == y * W + x,
                forall|i: int| 0 <= i < r@.len() ==> #[trigger] r@[i] == coord_at(i),
                forall|i: int|
                    0 <= i < r@.len() ==> (#[trigger] r@[i]).0 < W && r@[i].1 < H,
            decreases W - x,
        {
            proof {
                vstd::arithmetic::div_mod::lemma_fundamental_div_mod_converse(
                    (y * W + x) as int,
                    W as int,
                    y as int,
                    x as int,
                );
            }
            r.push((W - 1 - x, H - 1 - y));
            x = x + 1;
        }
        y = y + 1;
    }
    r
}

} // verus!
