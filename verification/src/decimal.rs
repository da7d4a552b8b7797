//! Numbers given by their digits and the zeros after them, compared exactly.
use vstd::prelude::*;

use crate::canonical;

verus! {

/// The number that `digits` with `zeros` zeros after them spell.
pub open spec fn scaled(digits: int, zeros: nat) -> int {
    digits * canonical::ten_to(zeros)
}

/// The digits this module compares are at most this large.
pub open spec fn in_reach(digits: int) -> bool {
    -0x2_0000_0000_0000_0000 <= digits <= 0x2_0000_0000_0000_0000
}

pub proof fn lemma_ten_to_positive(k: nat)
    ensures
        canonical::ten_to(k) > 0,
    decreases k,
{
    if k > 0 {
        lemma_ten_to_positive((k - 1) as nat);
    }
}

pub proof fn lemma_ten_to_sum(j: nat, k: nat)
    ensures
        canonical::ten_to(j + k) == canonical::ten_to(j) * canonical::ten_to(k),
    decreases j,
{
    if j == 0 {
        assert(canonical::ten_to(0) == 1);
    } else {
        lemma_ten_to_sum((j - 1) as nat, k);
        let x = canonical::ten_to((j - 1) as nat) as int;
        let y = canonical::ten_to(k) as int;
        assert(10 * (x * y) == (10 * x) * y) by (nonlinear_arith);
        assert((j + k - 1) as nat == (j - 1) as nat + k);
    }
}

/// More zeros move a number away from nought.
pub proof fn lemma_scaled_grows(digits: int, few: nat, many: nat)
    requires
        few <= many,
    ensures
        digits >= 0 ==> scaled(digits, many) >= scaled(digits, few),
        digits <= 0 ==> scaled(digits, many) <= scaled(digits, few),
        scaled(digits, few) > 0 ==> digits > 0,
        scaled(digits, few) < 0 ==> digits < 0,
{
    let gap = (many - few) as nat;
    lemma_ten_to_sum(few, gap);
    lemma_ten_to_positive(few);
    lemma_ten_to_positive(gap);
    let x = canonical::ten_to(few) as int;
    let y = canonical::ten_to(gap) as int;
    assert(few + gap == many);
    assert(digits >= 0 ==> digits * (x * y) >= digits * x) by (nonlinear_arith)
        requires
            x > 0,
            y >= 1,
    ;
    assert(digits <= 0 ==> digits * (x * y) <= digits * x) by (nonlinear_arith)
        requires
            x > 0,
            y >= 1,
    ;
    assert(digits * x > 0 ==> digits > 0) by (nonlinear_arith)
        requires
            x > 0,
    ;
    assert(digits * x < 0 ==> digits < 0) by (nonlinear_arith)
        requires
            x > 0,
    ;
}

/// Whether `digits` with `zeros` zeros after them come to `floor` or more.
fn comes_to(digits: i128, zeros: u16, floor: i128) -> (r: bool)
    requires
        in_reach(digits as int),
        in_reach(floor as int),
    ensures
        r == (scaled(digits as int, zeros as nat) >= floor),
{
    let mut so_far: i128 = digits;
    let mut i: u16 = 0;
    proof {
        assert(canonical::ten_to(0) == 1);
        assert(scaled(digits as int, 0) == digits);
    }
    while i < zeros
        invariant
            i <= zeros,
            in_reach(floor as int),
            so_far == scaled(digits as int, i as nat),
            -0x20_0000_0000_0000_0000 <= so_far <= 0x20_0000_0000_0000_0000,
        decreases zeros - i,
    {
        proof {
            lemma_scaled_grows(digits as int, i as nat, zeros as nat);
        }
        if so_far > 0x2_0000_0000_0000_0000 {
            return true;
        }
        if so_far < -0x2_0000_0000_0000_0000 {
            return false;
        }
        proof {
            let x = canonical::ten_to(i as nat) as int;
            let d = digits as int;
            assert(canonical::ten_to((i + 1) as nat) == 10 * x);
            assert(d * (10 * x) == 10 * (d * x)) by (nonlinear_arith);
        }
        so_far = so_far * 10;
        i = i + 1;
    }
    so_far >= floor
}

/// Whether one number reaches another, each given by its digits and zeros.
pub fn reaches(a: i128, p: u16, b: i128, q: u16) -> (r: bool)
    requires
        -0x1_0000_0000_0000_0000 <= a <= 0x1_0000_0000_0000_0000,
        -0x1_0000_0000_0000_0000 <= b <= 0x1_0000_0000_0000_0000,
    ensures
        r == (scaled(a as int, p as nat) >= scaled(b as int, q as nat)),
{
    if p >= q {
        proof {
            lemma_common_zeros(a as int, p as nat, b as int, q as nat);
        }
        comes_to(a, p - q, b)
    } else {
        proof {
            lemma_common_zeros(b as int, q as nat, a as int, p as nat);
        }
        !comes_to(b, q - p, a + 1)
    }
}

/// Zeros that two numbers share make no difference to their order.
proof fn lemma_common_zeros(a: int, p: nat, b: int, q: nat)
    requires
        p >= q,
    ensures
        scaled(a, p) >= scaled(b, q) <==> scaled(a, (p - q) as nat) >= b,
        scaled(a, p) <= scaled(b, q) <==> scaled(a, (p - q) as nat) <= b,
{
    let gap = (p - q) as nat;
    lemma_ten_to_sum(gap, q);
    lemma_ten_to_positive(q);
    let x = canonical::ten_to(gap) as int;
    let y = canonical::ten_to(q) as int;
    assert(gap + q == p);
    assert(a * (x * y) == (a * x) * y) by (nonlinear_arith);
    let c = a * x;
    assert(c * y >= b * y <==> c >= b) by (nonlinear_arith)
        requires
            y > 0,
    ;
    assert(c * y <= b * y <==> c <= b) by (nonlinear_arith)
        requires
            y > 0,
    ;
}

} // verus!
