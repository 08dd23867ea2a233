//! The bit-interleaved ("morton") space-filling curve used to lay sub-tiles
//! out inside a tile.
//!
//! [`spec_mort`] is the mathematical curve: it interleaves the bits of a
//! grid position `(x, y)` into one index, so that consecutive indices stay
//! spatially close.  [`unmortonize`] walks the curve backwards; its contract
//! pins the result through `spec_mort`, which makes the curve injective by
//! construction.

use vstd::prelude::*;
use vstd::arithmetic::power2::{pow2, lemma_pow2_unfold, lemma_pow2_pos};

verus! {

/// Morton index of grid position `(x, y)`: the bits of `x` on the even
/// positions, the bits of `y` on the odd ones.
pub open spec fn spec_mort(x: nat, y: nat) -> nat
    decreases x + y,
{
    if x == 0 && y == 0 {
        0
    } else {
        x % 2 + 2 * (y % 2) + 4 * spec_mort(x / 2, y / 2)
    }
}

/// One unfolding step of [`spec_mort`], valid for every position.
pub proof fn lemma_mort_unfold(x: nat, y: nat)
    ensures
        spec_mort(x, y) == x % 2 + 2 * (y % 2) + 4 * spec_mort(x / 2, y / 2),
{
    if x == 0 && y == 0 {
        assert(spec_mort(0nat, 0nat) == 0);
    }
}

/// Shifting a position by a one-bit high part shifts its morton index by the
/// squared power: the high bits land above every interleaved low bit.
proof fn lemma_mort_shift(x: nat, y: nat, m: nat, a: nat, b: nat)
    requires
        x < pow2(m),
        y < pow2(m),
        a <= 1,
        b <= 1,
    ensures
        spec_mort((x + a * pow2(m)) as nat, (y + b * pow2(m)) as nat)
            == spec_mort(x, y) + (a + 2 * b) * (pow2(m) * pow2(m)),
    decreases m,
{
    lemma_pow2_pos(m);
    if m == 0 {
        assert(pow2(0nat) == 1) by {
            vstd::arithmetic::power2::lemma2_to64();
        }
        assert(x == 0 && y == 0);
        lemma_mort_unfold(a, b);
        assert(spec_mort(0nat, 0nat) == 0);
        assert(a / 2 == 0 && b / 2 == 0);
        assert(spec_mort(a, b) == a + 2 * b);
        assert(a * pow2(m) == a && b * pow2(m) == b) by (nonlinear_arith)
            requires pow2(m) == 1;
        assert((x + a * pow2(m)) as nat == a && (y + b * pow2(m)) as nat == b);
        assert((a + 2 * b) * (pow2(m) * pow2(m)) == a + 2 * b) by (nonlinear_arith)
            requires pow2(m) == 1;
    } else {
        let p = pow2(m);
        let h = pow2((m - 1) as nat);
        lemma_pow2_unfold(m);
        assert(p == 2 * h);
        lemma_pow2_pos((m - 1) as nat);
        let xs = (x + a * p) as nat;
        let ys = (y + b * p) as nat;
        assert(a * p == 2 * (a * h) && b * p == 2 * (b * h)) by (nonlinear_arith)
            requires p == 2 * h;
        // Parity and halving of the shifted coordinates.
        vstd::arithmetic::div_mod::lemma_fundamental_div_mod(x as int, 2);
        vstd::arithmetic::div_mod::lemma_fundamental_div_mod(y as int, 2);
        vstd::arithmetic::div_mod::lemma_fundamental_div_mod_converse(
            xs as int, 2, (x / 2 + a * h) as int, (x % 2) as int);
        vstd::arithmetic::div_mod::lemma_fundamental_div_mod_converse(
            ys as int, 2, (y / 2 + b * h) as int, (y % 2) as int);
        assert(xs % 2 == x % 2 && xs / 2 == x / 2 + a * h);
        assert(ys % 2 == y % 2 && ys / 2 == y / 2 + b * h);
        assert(x / 2 < h && y / 2 < h) by (nonlinear_arith)
            requires
                x < 2 * h, y < 2 * h, h >= 1,
                x == 2 * (x / 2) + x % 2, x % 2 < 2,
                y == 2 * (y / 2) + y % 2, y % 2 < 2;
        lemma_mort_shift(x / 2, y / 2, (m - 1) as nat, a, b);
        lemma_mort_unfold(xs, ys);
        lemma_mort_unfold(x, y);
        assert((a + 2 * b) * (p * p) == 4 * ((a + 2 * b) * (h * h))) by (nonlinear_arith)
            requires p == 2 * h;
        assert(spec_mort(xs, ys)
            == xs % 2 + 2 * (ys % 2) + 4 * spec_mort((x / 2 + a * h) as nat, (y / 2 + b * h) as nat));
        assert(spec_mort(xs, ys)
            == x % 2 + 2 * (y % 2) + 4 * (spec_mort(x / 2, y / 2) + (a + 2 * b) * (h * h)));
        assert(spec_mort(xs, ys) == spec_mort(x, y) + (a + 2 * b) * (p * p));
    }
}

/// A position with a coordinate at or above `pow2(m)` has a morton index at
/// or above `pow2(m) * pow2(m)`; so indices below the square keep both
/// coordinates below `pow2(m)`.
pub proof fn lemma_mort_lower(x: nat, y: nat, m: nat)
    requires
        x >= pow2(m) || y >= pow2(m),
    ensures
        spec_mort(x, y) >= pow2(m) * pow2(m),
    decreases m, x + y,
{
    lemma_pow2_pos(m);
    lemma_mort_unfold(x, y);
    if m == 0 {
        assert(pow2(0nat) == 1) by {
            vstd::arithmetic::power2::lemma2_to64();
        }
        if x >= 1 {
            if x % 2 == 1 {
            } else {
                assert(x / 2 >= 1);
                lemma_mort_lower(x / 2, y / 2, 0);
            }
        } else {
            if y % 2 == 1 {
            } else {
                assert(y / 2 >= 1);
                lemma_mort_lower(x / 2, y / 2, 0);
            }
        }
    } else {
        let h = pow2((m - 1) as nat);
        lemma_pow2_unfold(m);
        lemma_pow2_pos((m - 1) as nat);
        assert(x / 2 >= h || y / 2 >= h);
        lemma_mort_lower(x / 2, y / 2, (m - 1) as nat);
        assert(4 * (h * h) == (2 * h) * (2 * h)) by (nonlinear_arith);
    }
}

/// A position inside the `pow2(m)` grid has a morton index inside the
/// square.
pub proof fn lemma_mort_upper(x: nat, y: nat, m: nat)
    requires
        x < pow2(m),
        y < pow2(m),
    ensures
        spec_mort(x, y) < pow2(m) * pow2(m),
    decreases m,
{
    lemma_pow2_pos(m);
    lemma_mort_unfold(x, y);
    if m == 0 {
        assert(pow2(0nat) == 1) by {
            vstd::arithmetic::power2::lemma2_to64();
        }
        assert(x == 0 && y == 0);
        assert(spec_mort(0nat, 0nat) == 0);
    } else {
        let h = pow2((m - 1) as nat);
        lemma_pow2_unfold(m);
        lemma_pow2_pos((m - 1) as nat);
        assert(x / 2 < h && y / 2 < h) by (nonlinear_arith)
            requires
                x < 2 * h, y < 2 * h, h >= 1,
                x == 2 * (x / 2) + x % 2, x % 2 < 2,
                y == 2 * (y / 2) + y % 2, y % 2 < 2;
        vstd::arithmetic::div_mod::lemma_fundamental_div_mod(x as int, 2);
        vstd::arithmetic::div_mod::lemma_fundamental_div_mod(y as int, 2);
        lemma_mort_upper(x / 2, y / 2, (m - 1) as nat);
        assert(x % 2 + 2 * (y % 2) + 4 * spec_mort(x / 2, y / 2) < (2 * h) * (2 * h))
            by (nonlinear_arith)
            requires
                spec_mort(x / 2, y / 2) < h * h,
                x % 2 < 2, y % 2 < 2, h >= 1;
    }
}

/// Two positions with the same morton index are the same position.
pub proof fn lemma_mort_injective(x1: nat, y1: nat, x2: nat, y2: nat)
    requires
        spec_mort(x1, y1) == spec_mort(x2, y2),
    ensures
        x1 == x2 && y1 == y2,
    decreases x1 + y1 + x2 + y2,
{
    if x1 == 0 && y1 == 0 && x2 == 0 && y2 == 0 {
    } else {
        lemma_mort_unfold(x1, y1);
        lemma_mort_unfold(x2, y2);
        let m = spec_mort(x1, y1);
        // m determines the parities and the recursive remainder.
        vstd::arithmetic::div_mod::lemma_fundamental_div_mod_converse(
            m as int, 2, (y1 % 2 + 2 * spec_mort(x1 / 2, y1 / 2)) as int, (x1 % 2) as int);
        vstd::arithmetic::div_mod::lemma_fundamental_div_mod_converse(
            m as int, 2, (y2 % 2 + 2 * spec_mort(x2 / 2, y2 / 2)) as int, (x2 % 2) as int);
        assert(x1 % 2 == x2 % 2);
        let m2 = (m / 2) as nat;
        vstd::arithmetic::div_mod::lemma_fundamental_div_mod_converse(
            m2 as int, 2, spec_mort(x1 / 2, y1 / 2) as int, (y1 % 2) as int);
        vstd::arithmetic::div_mod::lemma_fundamental_div_mod_converse(
            m2 as int, 2, spec_mort(x2 / 2, y2 / 2) as int, (y2 % 2) as int);
        assert(y1 % 2 == y2 % 2);
        assert(spec_mort(x1 / 2, y1 / 2) == spec_mort(x2 / 2, y2 / 2));
        lemma_mort_injective(x1 / 2, y1 / 2, x2 / 2, y2 / 2);
        vstd::arithmetic::div_mod::lemma_fundamental_div_mod(x1 as int, 2);
        vstd::arithmetic::div_mod::lemma_fundamental_div_mod(y1 as int, 2);
        vstd::arithmetic::div_mod::lemma_fundamental_div_mod(x2 as int, 2);
        vstd::arithmetic::div_mod::lemma_fundamental_div_mod(y2 as int, 2);
    }
}

/// Every index below the square of `pow2(m)` is the morton index of some
/// position inside the `pow2(m)` grid: the curve covers the grid.
pub proof fn lemma_mort_surjective(k: nat, m: nat)
    requires
        k < pow2(m) * pow2(m),
    ensures
        exists|u: nat, v: nat| u < pow2(m) && v < pow2(m)
            && #[trigger] spec_mort(u, v) == k,
    decreases m,
{
    lemma_pow2_pos(m);
    if m == 0 {
        assert(pow2(0nat) == 1) by {
            vstd::arithmetic::power2::lemma2_to64();
        }
        assert(k == 0) by (nonlinear_arith)
            requires k < pow2(m) * pow2(m), pow2(m) == 1;
        assert(spec_mort(0nat, 0nat) == 0);
    } else {
        let h = pow2((m - 1) as nat);
        lemma_pow2_unfold(m);
        lemma_pow2_pos((m - 1) as nat);
        let a = k % 2;
        let b = (k % 4) / 2;
        let hi = k / 4;
        vstd::arithmetic::div_mod::lemma_fundamental_div_mod(k as int, 4);
        vstd::arithmetic::div_mod::lemma_mod_division_less_than_divisor(k as int, 4);
        vstd::arithmetic::div_mod::lemma_fundamental_div_mod((k % 4) as int, 2);
        vstd::arithmetic::div_mod::lemma_mod_division_less_than_divisor((k % 4) as int, 2);
        // k % 2 equals (k % 4) % 2 because 4 is a multiple of 2.
        vstd::arithmetic::div_mod::lemma_fundamental_div_mod_converse(
            k as int, 2, (2 * hi + b) as int, ((k % 4) % 2) as int);
        assert(a == (k % 4) % 2);
        assert(hi < h * h) by (nonlinear_arith)
            requires
                k < (2 * h) * (2 * h),
                k == 4 * hi + k % 4, 0 <= k % 4 < 4,
                h >= 1;
        lemma_mort_surjective(hi, (m - 1) as nat);
        let (uh, vh): (nat, nat) = choose|uh: nat, vh: nat|
            uh < h && vh < h && #[trigger] spec_mort(uh, vh) == hi;
        let u = (a + 2 * uh) as nat;
        let v = (b + 2 * vh) as nat;
        vstd::arithmetic::div_mod::lemma_fundamental_div_mod_converse(
            u as int, 2, uh as int, a as int);
        vstd::arithmetic::div_mod::lemma_fundamental_div_mod_converse(
            v as int, 2, vh as int, b as int);
        lemma_mort_unfold(u, v);
        assert(spec_mort(u, v) == a + 2 * b + 4 * hi);
        assert(u < 2 * h && v < 2 * h);
        assert(spec_mort(u, v) == k);
    }
}

/// Splits a morton index back into its grid position `(x, y)`.  The contract
/// `spec_mort(x, y) == k` pins the pair exactly: distinct indices yield
/// distinct positions.
pub fn unmortonize(k: u64) -> (r: (u32, u32))
    ensures
        spec_mort(r.0 as nat, r.1 as nat) == k,
{
    let mut rem: u64 = k;
    let mut x: u64 = 0;
    let mut y: u64 = 0;
    let mut pw: u64 = 1;
    let ghost mut m: nat = 0nat;
    proof {
        assert(pow2(0nat) == 1) by {
            vstd::arithmetic::power2::lemma2_to64();
        }
        assert(spec_mort(0nat, 0nat) == 0);
        assert(pow2(0nat) * pow2(0nat) == 1) by (nonlinear_arith)
            requires pow2(0nat) == 1;
        assert(spec_mort(0nat, 0nat) + (k as int) * (pow2(0nat) * pow2(0nat)) as int
            == k as int);
    }
    while rem > 0
        invariant
            pw as nat == pow2(m),
            x < pw,
            y < pw,
            pw <= 0x1_0000_0000u64,
            spec_mort(x as nat, y as nat) + (rem as int) * (pow2(m) * pow2(m)) as int
                == k as int,
        decreases rem,
    {
        let a = rem % 2;
        let b = (rem / 2) % 2;
        proof {
            lemma_pow2_pos(m);
            assert((pow2(m) * pow2(m)) as int <= k as int) by (nonlinear_arith)
                requires
                    rem >= 1,
                    spec_mort(x as nat, y as nat) + (rem as int)
                        * (pow2(m) * pow2(m)) as int == k as int,
                    pow2(m) >= 1;
            assert(pw as int * pw as int <= k as int);
            vstd::arithmetic::power2::lemma_pow2_adds(m, m);
            assert(pow2((m + m) as nat) <= u64::MAX as nat);
            assert(m + m < 64) by {
                vstd::arithmetic::power2::lemma2_to64();
                if m + m >= 64 {
                    if m + m > 64 {
                        vstd::arithmetic::power2::lemma_pow2_strictly_increases(
                            64nat, (m + m) as nat);
                    }
                    assert(pow2((m + m) as nat) >= pow2(64nat));
                }
            }
            assert(pw <= 0x8000_0000u64) by {
                vstd::arithmetic::power2::lemma2_to64();
                if m < 31 {
                    vstd::arithmetic::power2::lemma_pow2_strictly_increases(m, 31nat);
                }
                assert(pow2(m) <= pow2(31nat));
            }
            lemma_mort_shift(x as nat, y as nat, m, a as nat, b as nat);
            // rem splits as a + 2 b + 4 (rem / 4).
            vstd::arithmetic::div_mod::lemma_fundamental_div_mod(rem as int, 2);
            vstd::arithmetic::div_mod::lemma_fundamental_div_mod(rem as int / 2, 2);
            vstd::arithmetic::div_mod::lemma_fundamental_div_mod_converse(
                rem as int, 4, rem as int / 2 / 2, (a + 2 * b) as int);
            assert(rem as int / 4 == rem as int / 2 / 2);
            assert((a + 2 * b + 4 * (rem as int / 4)) * (pow2(m) * pow2(m)) as int
                == (a + 2 * b) as int * (pow2(m) * pow2(m)) as int
                    + (rem as int / 4) * (4 * (pow2(m) * pow2(m))) as int)
                by (nonlinear_arith);
            lemma_pow2_unfold((m + 1) as nat);
            assert(pow2((m + 1) as nat) * pow2((m + 1) as nat)
                == 4 * (pow2(m) * pow2(m))) by (nonlinear_arith)
                requires pow2((m + 1) as nat) == 2 * pow2(m);
            assert(x + a * pw < 2 * pw && y + b * pw < 2 * pw) by (nonlinear_arith)
                requires x < pw, y < pw, a <= 1, b <= 1, pw >= 1;
        }
        x = x + a * pw;
        y = y + b * pw;
        rem = rem / 4;
        pw = pw * 2;
        proof {
            m = (m + 1) as nat;
        }
    }
    proof {
        assert((rem as int) * (pow2(m) * pow2(m)) as int == 0) by (nonlinear_arith)
            requires rem == 0;
        assert(x < 0x1_0000_0000u64 && y < 0x1_0000_0000u64);
    }
    (x as u32, y as u32)
}

} // verus!
