use vstd::prelude::*;
use crate::fx::{tdiv, SCALE};
use crate::vec3::{V, vm, vadd};
use crate::trace::COL_LIM;
use vstd::arithmetic::div_mod::{lemma_div_is_ordered, lemma_fundamental_div_mod};

verus! {

/// Ambient additive bias applied before compression: fourteen 241sts of a
/// unit, rounded up so that zero radiance keeps its familiar byte value.
pub const BIAS: i64 = 3808;

/// Largest per-channel accumulated radiance the tone mapper accepts.
pub const ACC_LIM: i64 = 0x4000_0000_0000;

/// One channel tone-mapped: the accumulated sum averaged over `samples`,
/// biased, Reinhard-compressed, scaled to a byte and truncated toward zero.
pub open spec fn tone_channel_spec(samples: int, c: int) -> int
    recommends
        samples >= 1,
        c >= 0,
{
    let a = tdiv(c, samples) + BIAS;
    (a * 255) / (a + SCALE)
}

/// The tone-mapped byte of a nonnegative channel is strictly between zero
/// and the full byte: the ambient bias keeps it positive, the compression
/// keeps it under the top.
pub proof fn lemma_tone_channel_range(samples: int, c: int)
    requires
        samples >= 1,
        c >= 0,
    ensures
        1 <= tone_channel_spec(samples, c) < 255,
{
    lemma_div_is_ordered(0, c, samples);
    let a = tdiv(c, samples) + BIAS;
    let d = a + SCALE;
    let n = a * 255;
    let q = n / d;
    assert(n >= 0 && n < 255 * d && n >= d) by (nonlinear_arith)
        requires
            a >= BIAS,
            BIAS == 3808,
            SCALE == 65536,
            d == a + SCALE,
            n == a * 255,
    ;
    lemma_fundamental_div_mod(n, d);
    assert(q < 255 && q >= 1) by (nonlinear_arith)
        requires
            n == q * d + n % d,
            0 <= n % d < d,
            d > 0,
            n < 255 * d,
            n >= d,
    ;
}

/// Zero accumulated radiance maps to the fixed ambient byte.
pub proof fn lemma_tone_zero(samples: int)
    requires
        samples >= 1,
    ensures
        tone_channel_spec(samples, 0) == 14,
{
    lemma_div_is_ordered(0, 0, samples);
    assert(tdiv(0, samples) == 0);
    vstd::arithmetic::div_mod::lemma_fundamental_div_mod_converse(971040, 69344, 14, 224);
    assert((3808 * 255) / (3808 + 65536) == 14);
}

/// More accumulated radiance never yields a smaller byte.
pub proof fn lemma_tone_monotone(samples: int, c1: int, c2: int)
    requires
        samples >= 1,
        0 <= c1 <= c2,
    ensures
        tone_channel_spec(samples, c1) <= tone_channel_spec(samples, c2),
{
    lemma_div_is_ordered(c1, c2, samples);
    lemma_div_is_ordered(0, c1, samples);
    let a1 = tdiv(c1, samples) + BIAS;
    let a2 = tdiv(c2, samples) + BIAS;
    let d1 = a1 + SCALE;
    let d2 = a2 + SCALE;
    let n1 = a1 * 255;
    let n2 = a2 * 255;
    let q1 = n1 / d1;
    let q2 = n2 / d2;
    lemma_fundamental_div_mod(n1, d1);
    lemma_tone_channel_range(samples, c1);
    assert(q1 * d2 <= n2) by (nonlinear_arith)
        requires
            n1 == q1 * d1 + n1 % d1,
            0 <= n1 % d1,
            q1 >= 0,
            0 < d1 <= d2,
            SCALE as int <= d1,
            n1 == a1 * 255,
            n2 == a2 * 255,
            d1 == a1 + SCALE,
            d2 == a2 + SCALE,
            BIAS <= a1 <= a2,
    ;
    vstd::arithmetic::div_mod::lemma_div_multiples_vanish(q1, d2);
    lemma_div_is_ordered(q1 * d2, n2, d2);
}

/// One channel tone-mapped to a byte.
pub fn tone_channel(samples: u32, c: i64) -> (r: u8)
    requires
        samples >= 1,
        0 <= c <= ACC_LIM,
    ensures
        r == tone_channel_spec(samples as int, c as int),
{
    let a = (c as u64) / (samples as u64) + 3808;
    let n = a * 255;
    let d = a + 65536;
    let q = n / d;
    proof {
        lemma_tone_channel_range(samples as int, c as int);
    }
    q as u8
}

/// Reinhard tone mapping of one accumulated pixel after `samples` passes:
/// one byte per channel, in red, green, blue order.
pub fn tone_map(samples: u32, color: V) -> (r: (u8, u8, u8))
    requires
        samples >= 1,
        0 <= color.x <= ACC_LIM,
        0 <= color.y <= ACC_LIM,
        0 <= color.z <= ACC_LIM,
    ensures
        r.0 == tone_channel_spec(samples as int, color.x as int),
        r.1 == tone_channel_spec(samples as int, color.y as int),
        r.2 == tone_channel_spec(samples as int, color.z as int),
{
    (tone_channel(samples, color.x), tone_channel(samples, color.y), tone_channel(samples, color.z))
}

/// Largest per-channel sum the frame accumulator maintains; thirty-two
/// thousand passes stay far inside it.
pub const FRAME_LIM: i64 = 0x3FFF_B800_0000;

pub open spec fn frame_ok(f: Seq<V>) -> bool {
    forall|i: int|
        0 <= i < f.len() ==> {
            &&& 0 <= (#[trigger] f[i]).x <= FRAME_LIM
            &&& 0 <= f[i].y <= FRAME_LIM
            &&& 0 <= f[i].z <= FRAME_LIM
        }
}

pub open spec fn samples_ok(s: Seq<V>) -> bool {
    forall|i: int|
        0 <= i < s.len() ==> {
            &&& 0 <= (#[trigger] s[i]).x <= COL_LIM
            &&& 0 <= s[i].y <= COL_LIM
            &&& 0 <= s[i].z <= COL_LIM
        }
}

/// Adds one pass of fresh per-pixel radiance samples into the running
/// accumulator, pixel by pixel.
pub fn accumulate(frame: &mut Vec<V>, fresh: &Vec<V>)
    requires
        old(frame)@.len() == fresh@.len(),
        frame_ok(old(frame)@),
        samples_ok(fresh@),
        forall|i: int|
            0 <= i < old(frame)@.len() ==> {
                &&& (#[trigger] old(frame)@[i]).x + COL_LIM <= FRAME_LIM
                &&& old(frame)@[i].y + COL_LIM <= FRAME_LIM
                &&& old(frame)@[i].z + COL_LIM <= FRAME_LIM
            },
    ensures
        final(frame)@.len() == old(frame)@.len(),
        frame_ok(final(frame)@),
        forall|i: int|
            0 <= i < old(frame)@.len() ==> vm(#[trigger] final(frame)@[i]) == vadd(
                vm(old(frame)@[i]),
                vm(fresh@[i]),
            ),
{
    let n = frame.len();
    let mut i: usize = 0;
    while i < n
        invariant
            n == old(frame)@.len(),
            fresh@.len() == n,
            frame@.len() == n,
            i <= n,
            frame_ok(old(frame)@),
            samples_ok(fresh@),
            forall|j: int|
                0 <= j < n as int ==> {
                    &&& (#[trigger] old(frame)@[j]).x + COL_LIM <= FRAME_LIM
                    &&& old(frame)@[j].y + COL_LIM <= FRAME_LIM
                    &&& old(frame)@[j].z + COL_LIM <= FRAME_LIM
                },
            forall|j: int|
                i as int <= j < n as int ==> #[trigger] frame@[j] == old(frame)@[j],
            forall|j: int|
                0 <= j < i as int ==> vm(#[trigger] frame@[j]) == vadd(
                    vm(old(frame)@[j]),
                    vm(fresh@[j]),
                ),
            forall|j: int|
                0 <= j < i as int ==> {
                    &&& 0 <= (#[trigger] frame@[j]).x <= FRAME_LIM
                    &&& 0 <= frame@[j].y <= FRAME_LIM
                    &&& 0 <= frame@[j].z <= FRAME_LIM
                },
        decreases n - i,
    {
        let f = frame[i];
        let s = fresh[i];
        frame[i] = V::new(f.x + s.x, f.y + s.y, f.z + s.z);
        i = i + 1;
    }
}

} // verus!
