//! The speed metric over a path: the bytes are read as consecutive (x, y)
//! coordinate pairs, and each step from one pair to the next has a speed,
//! the floor of the Euclidean distance between the two points truncated to
//! eight bits. The metric is the maximum step speed.

use vstd::prelude::*;

verus! {

/// The floor of the square root of `n`: the greatest `r` with `r * r <= n`.
pub open spec fn sqrt_floor(n: nat) -> nat
    decreases n,
{
    if n == 0 {
        0
    } else {
        let r = sqrt_floor((n - 1) as nat);
        if (r + 1) * (r + 1) <= n {
            r + 1
        } else {
            r
        }
    }
}

/// `sqrt_floor(n)` squares to at most `n`, and the next square is past `n`.
pub proof fn lemma_sqrt_floor_bounds(n: nat)
    ensures
        sqrt_floor(n) * sqrt_floor(n) <= n,
        n < (sqrt_floor(n) + 1) * (sqrt_floor(n) + 1),
    decreases n,
{
    if n > 0 {
        let m = (n - 1) as nat;
        lemma_sqrt_floor_bounds(m);
        let r = sqrt_floor(m);
        if (r + 1) * (r + 1) <= n {
            assert(sqrt_floor(n) == r + 1);
            assert(n == (r + 1) * (r + 1));
            assert(n < (r + 2) * (r + 2)) by (nonlinear_arith)
                requires
                    n == (r + 1) * (r + 1),
            ;
        } else {
            assert(sqrt_floor(n) == r);
        }
    } else {
        let s = sqrt_floor(n);
        assert(s == 0);
        assert(n < (s + 1) * (s + 1)) by (nonlinear_arith)
            requires
                n == 0nat,
                s == 0nat,
        ;
    }
}

/// Only one number squares to at most `n` while the next square is past `n`:
/// that number is `sqrt_floor(n)`.
pub proof fn lemma_sqrt_floor_unique(n: nat, r: nat)
    requires
        r * r <= n,
        n < (r + 1) * (r + 1),
    ensures
        r == sqrt_floor(n),
{
    lemma_sqrt_floor_bounds(n);
    let s = sqrt_floor(n);
    if r < s {
        assert((r + 1) * (r + 1) <= s * s) by (nonlinear_arith)
            requires
                r + 1 <= s,
        ;
    } else if s < r {
        assert((s + 1) * (s + 1) <= r * r) by (nonlinear_arith)
            requires
                s + 1 <= r,
        ;
    }
}

/// Computes the floor of the square root of `n` by counting up to the last
/// value whose square is within `n`.
pub fn isqrt(n: u32) -> (r: u32)
    ensures
        r == sqrt_floor(n as nat),
{
    let mut r: u32 = 0;
    loop
        invariant
            r as nat * r as nat <= n as nat,
            r <= 0xFFFF,
        ensures
            r as nat * r as nat <= n as nat,
            (n as nat) < ((r + 1) as nat) * ((r + 1) as nat),
        decreases n as int - (r * r) as int,
    {
        proof {
            assert(((r + 1) as u64) * ((r + 1) as u64) <= 0x1_0000_0000u64) by (nonlinear_arith)
                requires
                    r <= 0xFFFFu32,
            ;
        }
        let next: u64 = ((r + 1) as u64) * ((r + 1) as u64);
        if next <= n as u64 {
            proof {
                assert(r + 1 <= 0xFFFF) by (nonlinear_arith)
                    requires
                        ((r + 1) as nat) * ((r + 1) as nat) <= n as nat,
                        n <= 0xFFFF_FFFFu32,
                ;
                assert((r as nat) * (r as nat) < ((r + 1) as nat) * ((r + 1) as nat)) by (nonlinear_arith);
            }
            r = r + 1;
        } else {
            break;
        }
    }
    proof {
        lemma_sqrt_floor_unique(n as nat, r as nat);
    }
    r
}

/// The squared Euclidean distance between the coordinate pair starting at
/// byte `i` and the pair starting at byte `i + 2`.
pub open spec fn step_dist_sq(path: Seq<u8>, i: int) -> int {
    let dx = path[i] - path[i + 2];
    let dy = path[i + 1] - path[i + 3];
    dx * dx + dy * dy
}

/// The speed of one step: the floor of the Euclidean distance between the
/// two points, truncated to eight bits.
pub open spec fn step_speed(path: Seq<u8>, i: int) -> u8 {
    (sqrt_floor(step_dist_sq(path, i) as nat) % 256) as u8
}

/// The larger of two step speeds.
pub open spec fn speed_max(a: u8, b: u8) -> u8 {
    if a >= b {
        a
    } else {
        b
    }
}

/// The maximum step speed over the steps starting at bytes `i`, `i + 2`,
/// `i + 4`, ...; a step exists only while its four bytes are in range.
pub open spec fn max_speed_from(path: Seq<u8>, i: int) -> u8
    decreases path.len() - i,
{
    if i < 0 || i + 3 >= path.len() {
        0u8
    } else {
        speed_max(step_speed(path, i), max_speed_from(path, i + 2))
    }
}

/// The maximum step speed of a path; zero where no step exists, in
/// particular for any path shorter than four bytes.
pub open spec fn max_speed_of(path: Seq<u8>) -> u8 {
    max_speed_from(path, 0)
}

/// Computes the maximum step speed of `path`: for each even offset `i` with
/// `i + 3` in range, the step from point `(path[i], path[i+1])` to point
/// `(path[i+2], path[i+3])` contributes the floor of their Euclidean
/// distance, truncated to eight bits. A path shorter than four bytes has no
/// step and speed zero.
pub fn compute_max_speed(path: &[u8]) -> (r: u8)
    ensures
        r == max_speed_of(path@),
        path@.len() < 4 ==> r == 0,
{
    if path.len() < 4 {
        return 0;
    }
    let mut best: u8 = 0;
    let mut i: usize = 0;
    while i < path.len() - 3
        invariant
            path@.len() >= 4,
            i <= path@.len(),
            speed_max(best, max_speed_from(path@, i as int)) == max_speed_of(path@),
        decreases path@.len() - i,
    {
        let dx: i32 = path[i] as i32 - path[i + 2] as i32;
        let dy: i32 = path[i + 1] as i32 - path[i + 3] as i32;
        proof {
            assert(dx * dx <= 255 * 255) by (nonlinear_arith)
                requires
                    -255 <= dx <= 255,
            ;
            assert(dy * dy <= 255 * 255) by (nonlinear_arith)
                requires
                    -255 <= dy <= 255,
            ;
            assert(dx * dx >= 0) by (nonlinear_arith);
            assert(dy * dy >= 0) by (nonlinear_arith);
        }
        let d: u32 = (dx * dx + dy * dy) as u32;
        let s: u32 = isqrt(d);
        let sp: u8 = (s % 256) as u8;
        proof {
            assert(d == step_dist_sq(path@, i as int));
            assert(sp == step_speed(path@, i as int));
        }
        if sp > best {
            best = sp;
        }
        i = i + 2;
    }
    best
}

} // verus!
