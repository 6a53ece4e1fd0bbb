//! The jump-flooding distance transform.
//!
//! Starting from the rasterized occluder buffer (seeds at cost zero,
//! everything else at the "far" sentinel), the transform runs
//! `log2(width)` passes over the image.  Pass `i` uses the jump distance
//! `2^(num_passes - i - 1)` - half the width at first, halving every pass,
//! ending at 1 - and each pixel adopts the minimum among its own value and
//! the values of the eight ring neighbors at that offset, each increased by
//! the jump distance.  Passes ping-pong between two equally sized buffers:
//! every pass reads the buffer the previous pass wrote, and the first pass
//! reads the seeded buffer.  The result is an approximate unsigned distance
//! field, not an exact Euclidean one.
//!
//! The pass count is driven by the width alone; a caller whose occluder is
//! not a power of two wide pads it first (see [`pad_occluder`]).

use vstd::prelude::*;

use crate::compile::CompiledMap;
use crate::compile::FAR_VALUE;
use crate::compile::OccluderBuffer;
use crate::compile::compile_map;
use crate::compile::spec_compiled_from;
use crate::compile::spec_raster_fits;
use crate::compile::spec_raster_value;
use crate::grid::Cell;
use crate::grid::MapError;
use crate::grid::lemma_rows_count;
use crate::grid::spec_grid_width;
use crate::grid::spec_map_ok;
use crate::grid::spec_rows;
use crate::grid::spec_trim;
use crate::TILE_SIZE;

verus! {

use vstd::string::StringSliceAdditionalSpecFns;
use vstd::arithmetic::power2::pow2;
use vstd::arithmetic::power2::is_pow2;
use vstd::arithmetic::power2::lemma_pow2_adds;
use vstd::arithmetic::power2::lemma_pow2_unfold;
use vstd::arithmetic::power2::lemma_pow2_pos;
use vstd::arithmetic::power2::lemma_pow2_strictly_increases;
use vstd::arithmetic::power2::lemma2_to64;

/// The number of jump-flood passes a width calls for: its base-2 logarithm.
pub open spec fn spec_log2(n: int) -> nat
    decreases n,
{
    if n <= 1 {
        0
    } else {
        1 + spec_log2(n / 2)
    }
}

/// A power of two is recovered from its logarithm.
proof fn lemma_pow2_log2_id(n: int)
    requires
        is_pow2(n),
    ensures
        pow2(spec_log2(n)) == n,
    decreases n,
{
    reveal(is_pow2);
    if n == 1 {
        assert(pow2(0) == 1) by {
            lemma2_to64();
        }
    } else {
        lemma_pow2_log2_id(n / 2);
        lemma_pow2_unfold(spec_log2(n));
    }
}

/// `pow2` is monotone.
proof fn lemma_pow2_le(e1: nat, e2: nat)
    requires
        e1 <= e2,
    ensures
        pow2(e1) <= pow2(e2),
{
    if e1 < e2 {
        lemma_pow2_strictly_increases(e1, e2);
    }
}

/// A power of two that fits in 32 bits has a logarithm of at most 31.
proof fn lemma_log2_u32_bound(n: int)
    requires
        is_pow2(n),
        n <= u32::MAX,
    ensures
        spec_log2(n) <= 31,
{
    lemma_pow2_log2_id(n);
    if spec_log2(n) > 31 {
        lemma_pow2_le(32, spec_log2(n));
        lemma2_to64();
    }
}

/// How many passes the transform runs for a power-of-two width.
pub fn num_passes(width: u32) -> (n: u32)
    requires
        is_pow2(width as int),
    ensures
        n == spec_log2(width as int),
        pow2(n as nat) == width,
        n <= 31,
{
    proof {
        lemma_log2_u32_bound(width as int);
        lemma2_to64();
    }
    let mut n: u32 = 0;
    let mut v: u32 = width;
    while v > 1
        invariant
            is_pow2(v as int),
            v as int * pow2(n as nat) == width,
            spec_log2(width as int) == n + spec_log2(v as int),
            n <= 31,
        decreases v,
    {
        proof {
            reveal(is_pow2);
            assert(v as int * pow2(n as nat) == (v as int / 2) * pow2(n as nat + 1)) by {
                lemma_pow2_unfold(n as nat + 1);
                assert(v as int * pow2(n as nat) == (v as int / 2) * (2 * pow2(n as nat)))
                    by (nonlinear_arith)
                    requires
                        v as int % 2 == 0,
                ;
            }
            assert(n < 31) by {
                assert(pow2(n as nat + 1) <= width) by {
                    lemma_pow2_pos(n as nat + 1);
                    vstd::arithmetic::mul::lemma_mul_inequality(
                        1,
                        v as int / 2,
                        pow2(n as nat + 1) as int,
                    );
                }
                if n >= 31 {
                    lemma_pow2_le(32, n as nat + 1);
                    lemma2_to64();
                }
            }
        }
        v = v / 2;
        n = n + 1;
    }
    proof {
        reveal(is_pow2);
        lemma2_to64();
        assert(v == 1);
    }
    n
}

/// The jump distance of pass `i`: `2^(log2(w) - i - 1)`, half the width on
/// the first pass, 1 on the last.
pub open spec fn spec_jump(w: int, i: int) -> u32 {
    pow2((spec_log2(w) - i - 1) as nat) as u32
}

/// Computes the jump distance of one pass.
pub fn jump_for_pass(width: u32, pass_index: u32) -> (j: u32)
    requires
        is_pow2(width as int),
        pass_index < spec_log2(width as int),
    ensures
        j == spec_jump(width as int, pass_index as int),
        j >= 1,
        j as int == pow2((spec_log2(width as int) - pass_index - 1) as nat),
{
    let ghost np = spec_log2(width as int);
    proof {
        lemma_pow2_log2_id(width as int);
        lemma_log2_u32_bound(width as int);
    }
    let mut j: u32 = width;
    let mut k: u32 = 0;
    while k <= pass_index
        invariant
            is_pow2(width as int),
            pass_index < np,
            np == spec_log2(width as int),
            np <= 31,
            k <= pass_index + 1,
            k <= np,
            j as int == pow2((np - k) as nat),
        decreases pass_index + 1 - k,
    {
        proof {
            lemma_pow2_unfold((np - k) as nat);
        }
        j = j / 2;
        k = k + 1;
    }
    proof {
        lemma_pow2_pos((np - pass_index - 1) as nat);
        assert(pow2((np - pass_index - 1) as nat) == j as int);
        assert(pow2((np - pass_index - 1) as nat) as u32 == j);
    }
    j
}

/// The jump-distance schedule: the first pass jumps half the width, every
/// later pass half of the one before it, and the last pass jumps 1.
pub proof fn lemma_jump_schedule(w: int, i: int)
    requires
        is_pow2(w),
        w <= u32::MAX,
        0 <= i < spec_log2(w),
    ensures
        2 * spec_jump(w, 0) == w,
        spec_jump(w, spec_log2(w) - 1) == 1,
        spec_jump(w, i) >= 1,
        i + 1 < spec_log2(w) ==> spec_jump(w, i) == 2 * spec_jump(w, i + 1),
{
    let np = spec_log2(w);
    lemma_pow2_log2_id(w);
    lemma_log2_u32_bound(w);
    lemma2_to64();
    assert forall|e: nat| e <= 31 implies pow2(e) <= 0x8000_0000 by {
        lemma_pow2_le(e, 31);
    }
    lemma_pow2_unfold(np);
    lemma_pow2_pos((np - i - 1) as nat);
    if i + 1 < np {
        lemma_pow2_unfold((np - i - 1) as nat);
    }
}

/// Addition on pixel values that sticks at the sentinel instead of wrapping.
pub open spec fn sat_add32(a: u32, b: u32) -> u32 {
    if a + b > FAR_VALUE {
        FAR_VALUE
    } else {
        (a + b) as u32
    }
}

/// The smaller of two pixel values.
pub open spec fn min32(a: u32, b: u32) -> u32 {
    if a <= b {
        a
    } else {
        b
    }
}

/// What the sample at offset `(dx * jump, dy * jump)` contributes to the
/// pixel at `(x, y)`: the neighbor's value plus the jump distance, the
/// pixel's own value for the center sample, and the sentinel where the
/// sample falls outside the image.
pub open spec fn spec_candidate(
    src: Seq<u32>,
    w: int,
    h: int,
    x: int,
    y: int,
    dx: int,
    dy: int,
    jump: u32,
) -> u32 {
    let nx = x + dx * jump;
    let ny = y + dy * jump;
    if 0 <= nx < w && 0 <= ny < h {
        if dx == 0 && dy == 0 {
            src[ny * w + nx]
        } else {
            sat_add32(src[ny * w + nx], jump)
        }
    } else {
        FAR_VALUE
    }
}

/// The pass kernel: the minimum over the pixel's own value and the eight
/// ring samples at offset `jump`.
pub open spec fn spec_kernel(src: Seq<u32>, w: int, h: int, x: int, y: int, jump: u32) -> u32 {
    min32(
        spec_candidate(src, w, h, x, y, 0, 0, jump),
        min32(
            spec_candidate(src, w, h, x, y, -1, -1, jump),
            min32(
                spec_candidate(src, w, h, x, y, 0, -1, jump),
                min32(
                    spec_candidate(src, w, h, x, y, 1, -1, jump),
                    min32(
                        spec_candidate(src, w, h, x, y, -1, 0, jump),
                        min32(
                            spec_candidate(src, w, h, x, y, 1, 0, jump),
                            min32(
                                spec_candidate(src, w, h, x, y, -1, 1, jump),
                                min32(
                                    spec_candidate(src, w, h, x, y, 0, 1, jump),
                                    spec_candidate(src, w, h, x, y, 1, 1, jump),
                                ),
                            ),
                        ),
                    ),
                ),
            ),
        ),
    )
}

/// The whole image after one pass: every pixel holds its kernel value,
/// computed from the fully committed source buffer.
pub open spec fn spec_pass(src: Seq<u32>, w: int, h: int, jump: u32) -> Seq<u32> {
    Seq::new((w * h) as nat, |k: int| spec_kernel(src, w, h, k % w, k / w, jump))
}

/// The image after the first `k` passes of the schedule for width `w`:
/// pass `i` uses jump distance [`spec_jump`]`(w, i)`, and each pass reads
/// the image the previous one produced.
pub open spec fn spec_flood(seed: Seq<u32>, w: int, h: int, k: nat) -> Seq<u32>
    decreases k,
{
    if k == 0 {
        seed
    } else {
        spec_pass(spec_flood(seed, w, h, (k - 1) as nat), w, h, spec_jump(w, k - 1))
    }
}

/// Samples one candidate of the kernel.
fn candidate(
    src: &Vec<u32>,
    width: u32,
    height: u32,
    x: u32,
    y: u32,
    dx: i64,
    dy: i64,
    jump: u32,
) -> (c: u32)
    requires
        src@.len() == width * height,
        x < width,
        y < height,
        -1 <= dx <= 1,
        -1 <= dy <= 1,
    ensures
        c == spec_candidate(
            src@,
            width as int,
            height as int,
            x as int,
            y as int,
            dx as int,
            dy as int,
            jump,
        ),
{
    proof {
        assert(-(jump as int) <= dx as int * jump as int <= jump as int) by (nonlinear_arith)
            requires
                -1 <= dx as int <= 1,
        ;
        assert(-(jump as int) <= dy as int * jump as int <= jump as int) by (nonlinear_arith)
            requires
                -1 <= dy as int <= 1,
        ;
    }
    let nx: i64 = x as i64 + dx * jump as i64;
    let ny: i64 = y as i64 + dy * jump as i64;
    if 0 <= nx && nx < width as i64 && 0 <= ny && ny < height as i64 {
        let n = src.len();
        proof {
            vstd::arithmetic::mul::lemma_mul_inequality(ny as int + 1, height as int, width as int);
            assert((ny as int + 1) * (width as int) == ny as int * (width as int) + width as int)
                by (nonlinear_arith);
            assert((height as int) * (width as int) == (width as int) * (height as int))
                by (nonlinear_arith);
        }
        let idx: usize = (ny as usize) * (width as usize) + (nx as usize);
        let v = src[idx];
        if dx == 0 && dy == 0 {
            v
        } else {
            let s: u64 = v as u64 + jump as u64;
            if s > FAR_VALUE as u64 {
                FAR_VALUE
            } else {
                s as u32
            }
        }
    } else {
        FAR_VALUE
    }
}

/// The smaller of two pixel values.
fn umin(a: u32, b: u32) -> (r: u32)
    ensures
        r == min32(a, b),
{
    if a <= b {
        a
    } else {
        b
    }
}

/// Evaluates the kernel for the pixel at `(x, y)`.
fn kernel_at(src: &Vec<u32>, width: u32, height: u32, x: u32, y: u32, jump: u32) -> (v: u32)
    requires
        src@.len() == width * height,
        x < width,
        y < height,
    ensures
        v == spec_kernel(src@, width as int, height as int, x as int, y as int, jump),
{
    let c_self = candidate(src, width, height, x, y, 0, 0, jump);
    let c_dl = candidate(src, width, height, x, y, -1, -1, jump);
    let c_d = candidate(src, width, height, x, y, 0, -1, jump);
    let c_dr = candidate(src, width, height, x, y, 1, -1, jump);
    let c_l = candidate(src, width, height, x, y, -1, 0, jump);
    let c_r = candidate(src, width, height, x, y, 1, 0, jump);
    let c_ul = candidate(src, width, height, x, y, -1, 1, jump);
    let c_u = candidate(src, width, height, x, y, 0, 1, jump);
    let c_ur = candidate(src, width, height, x, y, 1, 1, jump);
    umin(
        c_self,
        umin(c_dl, umin(c_d, umin(c_dr, umin(c_l, umin(c_r, umin(c_ul, umin(c_u, c_ur))))))),
    )
}

/// Runs one full pass over the image: every pixel of the result holds its
/// kernel value, read from the fully committed source buffer.  Within a
/// pass no pixel sees another pixel's new value: the pass writes a fresh
/// buffer.
pub fn do_pass(src: &Vec<u32>, width: u32, height: u32, jump: u32) -> (dst: Vec<u32>)
    requires
        src@.len() == width * height,
    ensures
        dst@ == spec_pass(src@, width as int, height as int, jump),
{
    let mut dst: Vec<u32> = Vec::new();
    let mut y: u32 = 0;
    while y < height
        invariant
            y <= height,
            src@.len() == width * height,
            dst@.len() == y * width,
            forall|k: int|
                0 <= k < dst@.len() ==> dst@[k] == spec_kernel(
                    src@,
                    width as int,
                    height as int,
                    k % width as int,
                    k / width as int,
                    jump,
                ),
        decreases height - y,
    {
        let mut x: u32 = 0;
        while x < width
            invariant
                y < height,
                x <= width,
                src@.len() == width * height,
                dst@.len() == y * width + x,
                forall|k: int|
                    0 <= k < dst@.len() ==> dst@[k] == spec_kernel(
                        src@,
                        width as int,
                        height as int,
                        k % width as int,
                        k / width as int,
                        jump,
                    ),
            decreases width - x,
        {
            let v = kernel_at(src, width, height, x, y, jump);
            dst.push(v);
            proof {
                vstd::arithmetic::div_mod::lemma_fundamental_div_mod_converse(
                    y as int * width as int + x as int,
                    width as int,
                    y as int,
                    x as int,
                );
            }
            x = x + 1;
        }
        proof {
            assert((y as int + 1) * width as int == y as int * width as int + width as int)
                by (nonlinear_arith);
        }
        y = y + 1;
    }
    proof {
        assert(dst@ =~= spec_pass(src@, width as int, height as int, jump)) by {
            assert(dst@.len() == (width * height) as nat) by (nonlinear_arith)
                requires
                    dst@.len() == height as int * width as int,
            ;
        }
    }
    dst
}

/// The full jump-flood transform: `log2(width)` passes over the seeded
/// image, ping-ponging between two buffers so that every pass reads what
/// the previous pass wrote.  Returns the buffer the last pass wrote.
pub fn jump_flood(seed: Vec<u32>, width: u32, height: u32) -> (r: Vec<u32>)
    requires
        is_pow2(width as int),
        seed@.len() == width * height,
    ensures
        r@ == spec_flood(seed@, width as int, height as int, spec_log2(width as int)),
{
    let ghost seed0 = seed@;
    let np = num_passes(width);
    let mut a = seed;
    let mut b: Vec<u32> = Vec::new();
    let mut i: u32 = 0;
    while i < np
        invariant
            i <= np,
            is_pow2(width as int),
            np == spec_log2(width as int),
            seed0.len() == width * height,
            i % 2 == 0 ==> a@ == spec_flood(seed0, width as int, height as int, i as nat),
            i % 2 == 1 ==> b@ == spec_flood(seed0, width as int, height as int, i as nat),
        decreases np - i,
    {
        let jump = jump_for_pass(width, i);
        if i % 2 == 0 {
            b = do_pass(&a, width, height, jump);
        } else {
            a = do_pass(&b, width, height, jump);
        }
        i = i + 1;
    }
    if np % 2 == 0 {
        a
    } else {
        b
    }
}

/// A pass result at a pixel is at most any one of the nine candidates the
/// kernel sampled for it.
proof fn lemma_pass_le_candidate(
    src: Seq<u32>,
    w: int,
    h: int,
    jump: u32,
    x: int,
    y: int,
    dx: int,
    dy: int,
)
    requires
        src.len() == w * h,
        0 <= x < w,
        0 <= y < h,
        -1 <= dx <= 1,
        -1 <= dy <= 1,
    ensures
        spec_pass(src, w, h, jump)[y * w + x] <= spec_candidate(src, w, h, x, y, dx, dy, jump),
{
    let k = y * w + x;
    assert(0 <= k < w * h) by {
        vstd::arithmetic::mul::lemma_mul_inequality(y + 1, h, w);
        assert((y + 1) * w == y * w + w) by (nonlinear_arith);
        assert(h * w == w * h) by (nonlinear_arith);
        vstd::arithmetic::mul::lemma_mul_nonnegative(y, w);
    }
    vstd::arithmetic::div_mod::lemma_fundamental_div_mod_converse(k, w, y, x);
    assert(spec_pass(src, w, h, jump)[k] == spec_kernel(src, w, h, x, y, jump));
}

/// A pass never increases a pixel's value: the kernel always sees the
/// pixel's own previous value among its candidates.
pub proof fn lemma_pass_monotone(src: Seq<u32>, w: int, h: int, jump: u32, x: int, y: int)
    requires
        src.len() == w * h,
        0 <= x < w,
        0 <= y < h,
    ensures
        spec_pass(src, w, h, jump)[y * w + x] <= src[y * w + x],
{
    lemma_pass_le_candidate(src, w, h, jump, x, y, 0, 0);
}

/// Flooding never increases a pixel's value: whatever the pass schedule, a
/// pixel ends at or below its seed value.  In particular a seed at cost
/// zero stays at cost zero through every pass.
pub proof fn lemma_flood_monotone(seed: Seq<u32>, w: int, h: int, k: nat, x: int, y: int)
    requires
        seed.len() == w * h,
        0 <= x < w,
        0 <= y < h,
    ensures
        spec_flood(seed, w, h, k)[y * w + x] <= seed[y * w + x],
    decreases k,
{
    if k > 0 {
        lemma_flood_monotone(seed, w, h, (k - 1) as nat, x, y);
        lemma_flood_len(seed, w, h, (k - 1) as nat);
        lemma_pass_monotone(spec_flood(seed, w, h, (k - 1) as nat), w, h, spec_jump(w, k - 1), x, y);
    }
}

/// Flooding preserves the buffer's size.
proof fn lemma_flood_len(seed: Seq<u32>, w: int, h: int, k: nat)
    requires
        seed.len() == w * h,
        w >= 0,
        h >= 0,
    ensures
        spec_flood(seed, w, h, k).len() == w * h,
    decreases k,
{
    if k > 0 {
        lemma_flood_len(seed, w, h, (k - 1) as nat);
    }
}

/// After `k` passes, a seed at cost zero has reached every pixel whose
/// offset from it is, on each axis, a multiple of the current jump distance
/// within the reach built up so far; such a pixel's value is at most the
/// sum of the jumps already spent, `w - pow2(log2(w) - k)`.
proof fn lemma_flood_multiples(
    seed: Seq<u32>,
    w: int,
    h: int,
    sx: int,
    sy: int,
    k: nat,
    mx: int,
    my: int,
)
    requires
        is_pow2(w),
        w <= u32::MAX,
        seed.len() == w * h,
        0 <= sx < w,
        0 <= sy < h,
        seed[sy * w + sx] == 0,
        k <= spec_log2(w),
        -(w - pow2((spec_log2(w) - k) as nat)) <= mx * pow2((spec_log2(w) - k) as nat) <= w
            - pow2((spec_log2(w) - k) as nat),
        -(w - pow2((spec_log2(w) - k) as nat)) <= my * pow2((spec_log2(w) - k) as nat) <= w
            - pow2((spec_log2(w) - k) as nat),
        0 <= sx + mx * pow2((spec_log2(w) - k) as nat) < w,
        0 <= sy + my * pow2((spec_log2(w) - k) as nat) < h,
    ensures
        ({
            let jv = pow2((spec_log2(w) - k) as nat) as int;
            spec_flood(seed, w, h, k)[(sy + my * jv) * w + (sx + mx * jv)] <= w - jv
        }),
    decreases k,
{
    let np = spec_log2(w);
    let jv = pow2((np - k) as nat) as int;
    lemma_pow2_log2_id(w);
    lemma_log2_u32_bound(w);
    lemma_pow2_pos((np - k) as nat);
    if k == 0 {
        assert(jv == w);
        assert(mx == 0 && my == 0) by (nonlinear_arith)
            requires
                0 - (w - jv) <= mx * jv <= w - jv,
                0 - (w - jv) <= my * jv <= w - jv,
                jv == w,
                w > 0,
        ;
        assert(mx * jv == 0 && my * jv == 0) by (nonlinear_arith)
            requires
                mx == 0 && my == 0,
        ;
    } else {
        let jp = pow2((np - k + 1) as nat) as int;
        assert(jp == 2 * jv) by {
            lemma_pow2_unfold((np - k + 1) as nat);
        }
        let cap = w / jp;
        assert(w == cap * jp && cap >= 1) by {
            lemma_pow2_adds((np - k + 1) as nat, (k - 1) as nat);
            assert(pow2((np - k + 1) as nat) * pow2((k - 1) as nat) == w);
            lemma_pow2_pos((k - 1) as nat);
            assert(w == cap * jp && cap >= 1) by (nonlinear_arith)
                requires
                    jp * pow2((k - 1) as nat) == w,
                    cap == w / jp,
                    jp > 0,
                    pow2((k - 1) as nat) >= 1,
            ;
        }
        let cx: int = if mx % 2 == 0 {
            0
        } else if mx > 0 {
            1
        } else {
            -1
        };
        let cy: int = if my % 2 == 0 {
            0
        } else if my > 0 {
            1
        } else {
            -1
        };
        let mx0 = (mx - cx) / 2;
        let my0 = (my - cy) / 2;
        assert(2 * mx0 == mx - cx && 2 * my0 == my - cy) by {
            vstd::arithmetic::div_mod::lemma_fundamental_div_mod(mx - cx, 2);
            vstd::arithmetic::div_mod::lemma_fundamental_div_mod(my - cy, 2);
        }
        lemma_half_step_bound(w, jv, jp, cap, mx, cx, mx0);
        lemma_half_step_bound(w, jv, jp, cap, my, cy, my0);
        let a1 = mx * jv;
        let b1 = my * jv;
        let a0 = mx0 * jp;
        let b0 = my0 * jp;
        assert(a0 == a1 - cx * jv && b0 == b1 - cy * jv) by (nonlinear_arith)
            requires
                2 * mx0 == mx - cx,
                2 * my0 == my - cy,
                jp == 2 * jv,
                a1 == mx * jv,
                b1 == my * jv,
                a0 == mx0 * jp,
                b0 == my0 * jp,
        ;
        lemma_flood_multiples(seed, w, h, sx, sy, (k - 1) as nat, mx0, my0);
        let prev = spec_flood(seed, w, h, (k - 1) as nat);
        lemma_flood_len(seed, w, h, (k - 1) as nat);
        let jumpu = spec_jump(w, k - 1);
        assert(jumpu as int == jv) by {
            lemma_pow2_le((np - k) as nat, 31);
            lemma2_to64();
        }
        let tx = sx + a1;
        let ty = sy + b1;
        lemma_pass_le_candidate(prev, w, h, jumpu, tx, ty, -cx, -cy);
        assert(tx + (-cx) * jumpu == sx + a0 && ty + (-cy) * jumpu == sy + b0) by (nonlinear_arith)
            requires
                jumpu as int == jv,
                a0 == a1 - cx * jv,
                b0 == b1 - cy * jv,
                tx == sx + a1,
                ty == sy + b1,
        ;
        assert(spec_flood(seed, w, h, k) == spec_pass(prev, w, h, jumpu));
        assert(prev[(sy + b0) * w + (sx + a0)] <= w - jp);
        if cx == 0 && cy == 0 {
            assert(spec_candidate(prev, w, h, tx, ty, 0, 0, jumpu) == prev[(sy + b0) * w + (sx
                + a0)]);
        } else {
            assert(spec_candidate(prev, w, h, tx, ty, -cx, -cy, jumpu) == sat_add32(
                prev[(sy + b0) * w + (sx + a0)],
                jumpu,
            ));
        }
    }
}

/// One halving step of the reach argument: the parent multiple stays a
/// multiple of the doubled jump, within the smaller reach, and between the
/// target offset and zero.
proof fn lemma_half_step_bound(w: int, jv: int, jp: int, cap: int, m: int, c: int, m0: int)
    requires
        jv >= 1,
        jp == 2 * jv,
        w == cap * jp,
        cap >= 1,
        -(w - jv) <= m * jv <= w - jv,
        2 * m0 == m - c,
        c == (if m % 2 == 0 {
            0int
        } else if m > 0 {
            1int
        } else {
            -1int
        }),
    ensures
        -(w - jp) <= m0 * jp <= w - jp,
        m * jv >= 0 ==> 0 <= m0 * jp <= m * jv,
        m * jv <= 0 ==> m * jv <= m0 * jp <= 0,
{
    if c == 0 {
        assert(m0 * jp == m * jv) by (nonlinear_arith)
            requires
                2 * m0 == m,
                jp == 2 * jv,
        ;
        assert(m0 * jp < cap * jp) by {
            assert(m * jv <= w - jv < w);
        }
        assert(m0 < cap) by (nonlinear_arith)
            requires
                m0 * jp < cap * jp,
                jp > 0,
        ;
        assert(m0 * jp <= (cap - 1) * jp) by (nonlinear_arith)
            requires
                m0 <= cap - 1,
                jp > 0,
        ;
        assert((cap - 1) * jp == w - jp) by (nonlinear_arith)
            requires
                w == cap * jp,
        ;
        assert(-(cap * jp) < m0 * jp) by {
            assert(-(w - jv) <= m * jv);
        }
        assert(-cap < m0) by (nonlinear_arith)
            requires
                -(cap * jp) < m0 * jp,
                jp > 0,
        ;
        assert(-(cap - 1) * jp <= m0 * jp) by (nonlinear_arith)
            requires
                -(cap - 1) <= m0,
                jp > 0,
        ;
        assert(-(cap - 1) * jp == -(w - jp)) by (nonlinear_arith)
            requires
                w == cap * jp,
        ;
        assert(m * jv >= 0 ==> 0 <= m0 * jp <= m * jv);
        assert(m * jv <= 0 ==> m * jv <= m0 * jp <= 0);
    } else if c == 1 {
        assert(m >= 1);
        assert(m0 * jp == m * jv - jv && m * jv >= jv) by (nonlinear_arith)
            requires
                2 * m0 == m - 1,
                jp == 2 * jv,
                m >= 1,
                jv >= 1,
        ;
    } else {
        assert(c == -1 && m <= -1);
        assert(m0 * jp == m * jv + jv && m * jv <= -jv) by (nonlinear_arith)
            requires
                2 * m0 == m + 1,
                jp == 2 * jv,
                m <= -1,
                jv >= 1,
        ;
    }
}

/// Convergence: after the full pass schedule, a single seed's influence has
/// reached every pixel of an image no taller than wide - every final value
/// lies strictly below the far sentinel, at most `width - 1`.
pub proof fn lemma_flood_reaches_all(
    seed: Seq<u32>,
    w: int,
    h: int,
    sx: int,
    sy: int,
    qx: int,
    qy: int,
)
    requires
        is_pow2(w),
        w <= u32::MAX,
        seed.len() == w * h,
        h <= w,
        0 <= sx < w,
        0 <= sy < h,
        seed[sy * w + sx] == 0,
        0 <= qx < w,
        0 <= qy < h,
    ensures
        spec_flood(seed, w, h, spec_log2(w))[qy * w + qx] <= w - 1,
        spec_flood(seed, w, h, spec_log2(w))[qy * w + qx] < FAR_VALUE,
{
    let np = spec_log2(w);
    assert(pow2((np - np) as nat) == 1) by {
        lemma2_to64();
    }
    lemma_flood_multiples(seed, w, h, sx, sy, np, qx - sx, qy - sy);
}

/// The smallest power of two not below `n` (and not below 1).
pub fn next_pow2(n: u32) -> (r: Option<u32>)
    ensures
        (r matches Some(p) ==> {
            &&& is_pow2(p as int)
            &&& p >= n
            &&& p <= 0x8000_0000
            &&& (n >= 1 ==> p < 2 * n)
            &&& (n <= 1 ==> p == 1)
        }),
        r is Some <==> n <= 0x8000_0000,
{
    if n > 0x8000_0000 {
        return None;
    }
    let mut p: u32 = 1;
    proof {
        reveal(is_pow2);
    }
    while p < n
        invariant
            n <= 0x8000_0000,
            p >= 1,
            n == 0 || p <= 2 * n,
            is_pow2(p as int),
            p == 1 || p / 2 < n,
        decreases 2 * n - p,
    {
        proof {
            reveal(is_pow2);
        }
        p = p * 2;
    }
    proof {
        lemma_pow2_log2_id(p as int);
        lemma2_to64();
        if spec_log2(p as int) > 31 {
            lemma_pow2_le(32, spec_log2(p as int));
        }
        lemma_pow2_le(spec_log2(p as int), 31);
    }
    Some(p)
}

/// Pads the occluder image on the right with "far" pixels until its width
/// is the smallest power of two not below either dimension, as the
/// jump-flood schedule needs.  The height stays as it is, and the pass
/// count the padded width drives covers the whole image.
pub fn pad_occluder(buf: &OccluderBuffer) -> (p: OccluderBuffer)
    requires
        buf.wf(),
        buf.width <= 0x8000_0000,
        buf.height <= 0x8000_0000,
        2 * (if buf.width >= buf.height {
            buf.width
        } else {
            buf.height
        }) * buf.height <= usize::MAX,
        buf.height <= usize::MAX,
    ensures
        p.wf(),
        is_pow2(p.width as int),
        p.width >= buf.width,
        p.width >= buf.height,
        p.width <= 0x8000_0000,
        p.width == 1 || p.width < 2 * (if buf.width >= buf.height {
            buf.width
        } else {
            buf.height
        }),
        p.height == buf.height,
        forall|px: int, py: int|
            0 <= px < p.width && 0 <= py < p.height ==> p.value_at(px, py) == (if px < buf.width {
                buf.value_at(px, py)
            } else {
                FAR_VALUE
            }),
{
    let longest = if buf.width >= buf.height {
        buf.width
    } else {
        buf.height
    };
    let maybe_target = next_pow2(longest as u32);
    let target = maybe_target.unwrap();
    let new_width = target as usize;
    let height = buf.height;
    proof {
        assert(maybe_target == Some(target));
        assert(longest as u32 as int == longest as int);
    }
    let mut data: Vec<u32> = Vec::new();
    let mut py: usize = 0;
    while py < height
        invariant
            py <= height,
            buf.wf(),
            height == buf.height,
            new_width >= buf.width,
            data@.len() == py * new_width,
            forall|k: int|
                0 <= k < data@.len() ==> data@[k] == (if (k % new_width as int) < buf.width {
                    buf.value_at(k % new_width as int, k / new_width as int)
                } else {
                    FAR_VALUE
                }),
        decreases height - py,
    {
        let mut px: usize = 0;
        while px < new_width
            invariant
                py < height,
                px <= new_width,
                buf.wf(),
                height == buf.height,
                new_width >= buf.width,
                data@.len() == py * new_width + px,
                forall|k: int|
                    0 <= k < data@.len() ==> data@[k] == (if (k % new_width as int) < buf.width {
                        buf.value_at(k % new_width as int, k / new_width as int)
                    } else {
                        FAR_VALUE
                    }),
            decreases new_width - px,
        {
            let v = if px < buf.width {
                buf.get(px, py)
            } else {
                FAR_VALUE
            };
            data.push(v);
            proof {
                vstd::arithmetic::div_mod::lemma_fundamental_div_mod_converse(
                    py * new_width + px,
                    new_width as int,
                    py as int,
                    px as int,
                );
            }
            px = px + 1;
        }
        proof {
            assert((py + 1) * new_width == py * new_width + new_width) by (nonlinear_arith);
        }
        py = py + 1;
    }
    let p = OccluderBuffer { data, width: new_width, height };
    proof {
        assert(p.wf()) by {
            assert(height * new_width == new_width * height) by (nonlinear_arith);
        }
        assert forall|px: int, py2: int|
            0 <= px < p.width && 0 <= py2 < p.height implies p.value_at(px, py2) == (if px
            < buf.width {
            buf.value_at(px, py2)
        } else {
            FAR_VALUE
        }) by {
            vstd::arithmetic::div_mod::lemma_fundamental_div_mod_converse(
                py2 * new_width + px,
                new_width as int,
                py2,
                px,
            );
            vstd::arithmetic::mul::lemma_mul_inequality(py2 + 1, height as int, new_width as int);
            assert((py2 + 1) * new_width == py2 * new_width + new_width) by (nonlinear_arith);
            assert(height * new_width == new_width * height) by (nonlinear_arith);
        }
    }
    p
}

/// How many 16-wide workgroups cover an extent: the ceiling of
/// `extent / 16`, as a parallel dispatch of the pass kernel uses.
pub fn workgroups_for(extent: u32) -> (n: u32)
    requires
        extent <= u32::MAX - 15,
    ensures
        n == (extent + 15) / 16,
        16 * n >= extent,
        extent > 0 ==> 16 * (n - 1) < extent,
{
    proof {
        vstd::arithmetic::div_mod::lemma_fundamental_div_mod(extent + 15, 16);
        vstd::arithmetic::div_mod::lemma_mod_bound(extent + 15, 16);
    }
    (extent + 15) / 16
}

/// The per-pass configuration handed to the pass kernel.
pub struct Params {
    /// Width and height of the image, in pixels.
    pub texture_size: [u32; 2],
    /// The sample offset of this pass.
    pub jump_distance: u32,
    /// The index of this pass, used to pick the source buffer by parity.
    pub run: i32,
}

/// Builds the configuration of one pass.
pub fn params_for_pass(width: u32, height: u32, pass_index: u32) -> (p: Params)
    requires
        is_pow2(width as int),
        pass_index < spec_log2(width as int),
    ensures
        p.texture_size@ == seq![width, height],
        p.jump_distance == spec_jump(width as int, pass_index as int),
        p.jump_distance >= 1,
        p.run == pass_index as i32,
{
    proof {
        lemma_log2_u32_bound(width as int);
    }
    let jump = jump_for_pass(width, pass_index);
    let p = Params { texture_size: [width, height], jump_distance: jump, run: pass_index as i32 };
    proof {
        assert(p.texture_size@ =~= seq![width, height]);
    }
    p
}

/// The finished distance field: one scalar per pixel of the padded image.
pub struct DistanceField {
    pub data: Vec<u32>,
    pub width: u32,
    pub height: u32,
}

/// The seed image the transform starts from: the grid's occluder values in
/// the first `width * TILE_SIZE` columns and far pixels in the padding on
/// the right, `pw` columns in all.
pub open spec fn spec_padded_seed(g: Seq<Seq<Cell>>, pw: int) -> Seq<u32> {
    Seq::new(
        (pw * (g.len() * TILE_SIZE)) as nat,
        |k: int|
            if (k % pw) < spec_grid_width(g) * TILE_SIZE {
                spec_raster_value(g, k % pw, k / pw)
            } else {
                FAR_VALUE
            },
    )
}

/// Whether the padded image stays within machine bounds: both pixel
/// dimensions at most `2^31`, and twice the longer dimension times the
/// height representable.
pub open spec fn spec_pad_fits(g: Seq<Seq<Cell>>) -> bool {
    let w = spec_grid_width(g) * TILE_SIZE;
    let h = g.len() * TILE_SIZE;
    let longest = if w >= h {
        w
    } else {
        h
    };
    &&& w <= 0x8000_0000
    &&& h <= 0x8000_0000
    &&& 2 * longest * h <= usize::MAX
}

/// The whole pipeline of one map load: parse the text, classify every
/// cell, rasterize the occluder, pad it to the power-of-two width the pass
/// schedule needs, and run the jump-flood transform.
pub fn compile_scene(map: &str) -> (r: Result<(CompiledMap, DistanceField), MapError>)
    ensures
        ({
            let bytes = map.spec_bytes();
            let g = spec_rows(bytes);
            let w_px = spec_grid_width(g) * TILE_SIZE;
            let h_px = g.len() * TILE_SIZE;
            &&& (r matches Ok(out) ==> {
                let df = out.1;
                &&& spec_map_ok(bytes)
                &&& spec_raster_fits(g)
                &&& spec_pad_fits(g)
                &&& spec_compiled_from(out.0, bytes)
                &&& is_pow2(df.width as int)
                &&& df.width >= w_px
                &&& df.width >= h_px
                &&& (df.width == 1 || df.width < 2 * (if w_px >= h_px {
                    w_px
                } else {
                    h_px
                }))
                &&& df.height == h_px
                &&& df.data@ == spec_flood(
                    spec_padded_seed(g, df.width as int),
                    df.width as int,
                    h_px,
                    spec_log2(df.width as int),
                )
            })
            &&& (r matches Err(e) ==> match e {
                MapError::EmptyMap => spec_trim(bytes).len() == 0,
                MapError::EmptyRow => spec_trim(bytes).len() > 0 && exists|i: int|
                    0 <= i < g.len() && g[i].len() == 0,
                MapError::MapTooLarge => spec_map_ok(bytes) && !(spec_raster_fits(g)
                    && spec_pad_fits(g)),
            })
            &&& ((spec_map_ok(bytes) && spec_raster_fits(g) && spec_pad_fits(g)) <==> r is Ok)
        }),
{
    let compiled = match compile_map(map) {
        Ok(c) => c,
        Err(e) => {
            return Err(e);
        },
    };
    proof {
        lemma_rows_count(map.spec_bytes());
    }
    let occ = &compiled.occluder;
    if occ.width > 0x8000_0000 || occ.height > 0x8000_0000 {
        return Err(MapError::MapTooLarge);
    }
    let longest = if occ.width >= occ.height {
        occ.width
    } else {
        occ.height
    };
    let doubled = match (2usize).checked_mul(longest) {
        Some(v) => v,
        None => {
            proof {
                assert(2 * longest * occ.height > usize::MAX) by (nonlinear_arith)
                    requires
                        2 * longest > usize::MAX,
                        occ.height >= 1,
                ;
            }
            return Err(MapError::MapTooLarge);
        },
    };
    if doubled.checked_mul(occ.height).is_none() {
        proof {
            assert(2 * longest * occ.height == doubled * occ.height) by (nonlinear_arith)
                requires
                    doubled == 2 * longest,
            ;
        }
        return Err(MapError::MapTooLarge);
    }
    proof {
        assert(2 * longest * occ.height == doubled * occ.height) by (nonlinear_arith)
            requires
                doubled == 2 * longest,
        ;
    }
    let padded = pad_occluder(occ);
    let pw = padded.width;
    let h = padded.height;
    let ghost g = spec_rows(map.spec_bytes());
    proof {
        assert(padded.data@ =~= spec_padded_seed(g, pw as int)) by {
            assert(padded.data@.len() == pw * h);
            assert(spec_padded_seed(g, pw as int).len() == pw * h) by (nonlinear_arith)
                requires
                    h == g.len() * TILE_SIZE,
                    pw >= 0,
            ;
            assert forall|k: int| 0 <= k < pw * h implies padded.data@[k] == spec_padded_seed(
                g,
                pw as int,
            )[k] by {
                let w = pw as int;
                vstd::arithmetic::div_mod::lemma_fundamental_div_mod(k, w);
                vstd::arithmetic::div_mod::lemma_mod_bound(k, w);
                vstd::arithmetic::div_mod::lemma_div_pos_is_pos(k, w);
                let px = k % w;
                let py = k / w;
                assert(py < h) by {
                    if py >= h {
                        vstd::arithmetic::mul::lemma_mul_inequality(h as int, py, w);
                        assert(py * w == w * py) by (nonlinear_arith);
                        assert(h as int * w == w * (h as int)) by (nonlinear_arith);
                    }
                }
                assert(py * w + px == k) by {
                    assert(py * w == w * py) by (nonlinear_arith);
                }
                assert(padded.value_at(px, py) == padded.data@[k]);
            }
        }
    }
    let field = jump_flood(padded.data, pw as u32, h as u32);
    Ok((compiled, DistanceField { data: field, width: pw as u32, height: h as u32 }))
}

} // verus!
