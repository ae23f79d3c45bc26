//! Power-of-two alignment arithmetic shared by the writer's layout pass and
//! the linker's storage allocator.

use vstd::prelude::*;
use crate::Addr;

verus! {

/// True exactly when `a` is a power of two (so in particular `a >= 1`).
pub open spec fn spec_pow2(a: u64) -> bool {
    a >= 1 && (a & ((a - 1) as u64)) == 0
}

/// The smallest multiple of `a` that is `>= n`.
pub open spec fn spec_align_up(n: int, a: int) -> int
    recommends
        a > 0,
{
    if n % a == 0 {
        n
    } else {
        n + a - n % a
    }
}

/// The largest multiple of `a` that is `<= n`.
pub open spec fn spec_align_down(n: int, a: int) -> int
    recommends
        a > 0,
{
    n - n % a
}

pub proof fn lemma_align_up_props(n: int, a: int)
    requires
        a > 0,
        n >= 0,
    ensures
        spec_align_up(n, a) % a == 0,
        n <= spec_align_up(n, a) < n + a,
{
    let r = n % a;
    let q = n / a;
    vstd::arithmetic::div_mod::lemma_mod_bound(n, a);
    vstd::arithmetic::div_mod::lemma_fundamental_div_mod(n, a);
    if r != 0 {
        assert(n + a - r == a * (q + 1)) by {
            assert(n == q * a + r);
            assert(a * (q + 1) == q * a + a) by (nonlinear_arith);
        }
        vstd::arithmetic::div_mod::lemma_mod_multiples_basic(q + 1, a);
    }
}

/// The remainder of a nonnegative value never exceeds the value itself.
pub proof fn lemma_mod_le_self(n: int, a: int)
    requires
        a > 0,
        n >= 0,
    ensures
        0 <= n % a <= n,
{
    let q = n / a;
    vstd::arithmetic::div_mod::lemma_mod_bound(n, a);
    vstd::arithmetic::div_mod::lemma_fundamental_div_mod(n, a);
    vstd::arithmetic::div_mod::lemma_div_pos_is_pos(n, a);
    assert(a * q >= 0) by (nonlinear_arith)
        requires
            a > 0,
            q >= 0,
    ;
}

/// True when `n` is a multiple of `a`.
pub open spec fn spec_aligned(n: int, a: int) -> bool
    recommends
        a > 0,
{
    n % a == 0
}


/// Decide whether `a` is a power of two.
pub fn is_pow2(a: u64) -> (r: bool)
    ensures
        r == spec_pow2(a),
{
    a >= 1 && (a & (a - 1)) == 0
}

/// Alignment on the value carried by a type: `u64` itself and `Addr`.
pub trait AlignExt: Copy {
    spec fn align_val(self) -> u64;

    fn align_down(self, align: u64) -> (r: Self)
        requires
            spec_pow2(align),
        ensures
            r.align_val() == spec_align_down(self.align_val() as int, align as int),
    ;

    fn align_up(self, align: u64) -> (r: Self)
        requires
            spec_pow2(align),
            spec_align_up(self.align_val() as int, align as int) <= u64::MAX,
        ensures
            r.align_val() == spec_align_up(self.align_val() as int, align as int),
    ;
}

impl AlignExt for u64 {
    open spec fn align_val(self) -> u64 {
        self
    }

    fn align_down(self, align: u64) -> (r: Self)
    {
        let rem = self % align;
        proof {
            lemma_mod_le_self(self as int, align as int);
        }
        self - rem
    }

    fn align_up(self, align: u64) -> (r: Self)
    {
        let rem = self % align;
        proof {
            lemma_mod_le_self(self as int, align as int);
        }
        if rem == 0 {
            self
        } else {
            self - rem + align
        }
    }
}

impl AlignExt for Addr {
    open spec fn align_val(self) -> u64 {
        self.0
    }

    fn align_down(self, align: u64) -> (r: Self)
    {
        Addr(self.0.align_down(align))
    }

    fn align_up(self, align: u64) -> (r: Self)
    {
        Addr(self.0.align_up(align))
    }
}

} // verus!
