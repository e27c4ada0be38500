//! Rounding addresses up to a power of two, and what holds of powers of
//! two that fit in a machine word.

use vstd::arithmetic::div_mod::{
    lemma_fundamental_div_mod, lemma_fundamental_div_mod_converse, lemma_mod_multiples_basic,
};
use vstd::arithmetic::mul::lemma_mul_is_commutative;
use vstd::arithmetic::power2::{
    is_pow2, is_pow2_equiv, is_pow2_exists, lemma2_to64, lemma2_to64_rest, lemma_pow2,
    lemma_pow2_adds, lemma_pow2_pos, lemma_pow2_strictly_increases, pow2,
};
use vstd::arithmetic::power::pow;
use vstd::bits::{lemma_usize_low_bits_mask_is_mod, low_bits_mask};
use vstd::prelude::*;

verus! {

/// The smallest multiple of `align` that is not below `addr`.
pub open spec fn align_up_spec(addr: int, align: int) -> int {
    let remainder = addr % align;
    if remainder == 0 {
        addr
    } else {
        addr - remainder + align
    }
}

/// `align_up_spec` yields a multiple of `align` in `[addr, addr + align)`.
pub proof fn lemma_align_up_spec(addr: int, align: int)
    requires
        0 <= addr,
        0 < align,
    ensures
        align_up_spec(addr, align) % align == 0,
        addr <= align_up_spec(addr, align) < addr + align,
        addr % align == 0 ==> align_up_spec(addr, align) == addr,
{
    let r = addr % align;
    lemma_fundamental_div_mod(addr, align);
    if r != 0 {
        let q = addr / align;
        assert(addr - r + align == align * (q + 1)) by (nonlinear_arith)
            requires
                addr == align * q + r,
        ;
        lemma_mul_is_commutative(align, q + 1);
        lemma_mod_multiples_basic(q + 1, align);
    }
}

/// Aligning an address twice is the same as aligning it once.
pub proof fn lemma_align_up_idempotent(addr: int, align: int)
    requires
        0 <= addr,
        0 < align,
    ensures
        align_up_spec(align_up_spec(addr, align), align) == align_up_spec(addr, align),
{
    lemma_align_up_spec(addr, align);
}

/// The mask formula `(addr + align - 1) & !(align - 1)` computes
/// `align_up_spec` whenever the sum fits.
pub proof fn lemma_align_up_mask(addr: usize, align: usize)
    requires
        is_pow2(align as int),
        addr + align - 1 <= usize::MAX,
    ensures
        ((addr + align - 1) as usize) & !((align - 1) as usize) == align_up_spec(
            addr as int,
            align as int,
        ),
{
    let k = lemma_pow2_exponent(align);
    lemma_pow2_pos(k);
    let x = (addr + align - 1) as usize;
    lemma_mask_clears_remainder(x, align);
    let a = align as int;
    let q = addr as int / a;
    let r = addr as int % a;
    lemma_fundamental_div_mod(addr as int, a);
    if r == 0 {
        // x = a * q + (a - 1)
        lemma_fundamental_div_mod(x as int, a);
        assert(x as int % a == a - 1) by {
            lemma_fundamental_div_mod_converse(
                x as int,
                a,
                q,
                a - 1,
            );
        }
    } else {
        // x = a * (q + 1) + (r - 1)
        assert(x as int == (q + 1) * a + (r - 1)) by (nonlinear_arith)
            requires
                x as int == addr as int + a - 1,
                addr as int == a * q + r,
        ;
        assert(x as int % a == r - 1) by {
            lemma_fundamental_div_mod_converse(
                x as int,
                a,
                q + 1,
                r - 1,
            );
        }
    }
}

/// Where `addr + align - 1` overflows, so does the aligned address itself.
pub proof fn lemma_align_up_overflow(addr: usize, align: usize)
    requires
        is_pow2(align as int),
    ensures
        addr + align - 1 > usize::MAX <==> align_up_spec(addr as int, align as int) > usize::MAX,
{
    let a = align as int;
    let k = lemma_pow2_exponent(align);
    lemma_pow2_pos(k);
    lemma_align_up_spec(addr as int, a);
    lemma_pow2_divides_address_space(align);
    let top = usize::MAX + 1;
    let up = align_up_spec(addr as int, a);
    if addr + align - 1 > usize::MAX {
        // `up` is a multiple of `a` above `addr > top - a`, and `top` is one too.
        lemma_fundamental_div_mod(up, a);
        lemma_fundamental_div_mod(top, a);
        let qu = up / a;
        let qt = top / a;
        if up < top {
            assert(qu < qt) by (nonlinear_arith)
                requires
                    up == a * qu,
                    top == a * qt,
                    up < top,
                    a > 0,
            ;
            assert(up <= top - a) by (nonlinear_arith)
                requires
                    up == a * qu,
                    top == a * qt,
                    qu + 1 <= qt,
                    a > 0,
            ;
            if addr as int % a == 0 {
                assert(up == addr);
            }
            assert(false);
        }
    }
}

/// Clearing the low bits of `x` below a power of two `align` subtracts the
/// remainder of `x` by `align`.
pub proof fn lemma_mask_clears_remainder(x: usize, align: usize)
    requires
        is_pow2(align as int),
    ensures
        align >= 1,
        x & !((align - 1) as usize) == x - x % align,
{
    let k = lemma_pow2_exponent(align);
    lemma_pow2_pos(k);
    lemma_usize_low_bits_mask_is_mod(x, k);
    let mask = (align - 1) as usize;
    assert(mask == low_bits_mask(k) as usize);
    assert(x & mask == x % align);
    assert(x & !mask == x - (x & mask)) by (bit_vector);
}

/// A power of two that fits in a `usize` is `2^k` for some `k` below the
/// width of `usize`.
pub proof fn lemma_pow2_exponent(n: usize) -> (k: nat)
    requires
        is_pow2(n as int),
    ensures
        k < usize::BITS,
        n == pow2(k),
{
    is_pow2_equiv(n as int);
    let k = choose|i: nat| pow(2, i) == n as int;
    lemma_pow2(k);
    lemma2_to64();
    if k >= usize::BITS {
        if k > usize::BITS {
            lemma_pow2_strictly_increases(usize::BITS as nat, k);
        }
        assert(false);
    }
    k
}

/// A power of two that fits in a `usize` lies in `[1, isize::MAX + 1]`.
pub proof fn lemma_pow2_bounds(n: usize)
    requires
        is_pow2(n as int),
    ensures
        1 <= n <= isize::MAX + 1,
{
    let k = lemma_pow2_exponent(n);
    lemma_pow2_pos(k);
    lemma2_to64();
    lemma2_to64_rest();
    let top = (usize::BITS - 1) as nat;
    if k < top {
        lemma_pow2_strictly_increases(k, top);
    }
}

/// Every power of two that fits in a `usize` divides the size of the address
/// space, `usize::MAX + 1`.
pub proof fn lemma_pow2_divides_address_space(n: usize)
    requires
        is_pow2(n as int),
    ensures
        (usize::MAX + 1) % (n as int) == 0,
{
    let k = lemma_pow2_exponent(n);
    let rest = (usize::BITS - k) as nat;
    lemma_pow2_pos(k);
    lemma_pow2_adds(k, rest);
    lemma2_to64();
    assert(usize::MAX + 1 == pow2(usize::BITS as nat));
    lemma_mul_is_commutative(pow2(k) as int, pow2(rest) as int);
    lemma_mod_multiples_basic(pow2(rest) as int, n as int);
}

/// `2^k` is a power of two.
pub proof fn lemma_pow2_is_pow2(k: nat)
    ensures
        is_pow2(pow2(k) as int),
{
    lemma_pow2(k);
    lemma_pow2_pos(k);
    assert(is_pow2_exists(pow2(k) as int));
    is_pow2_equiv(pow2(k) as int);
}

/// A nonzero `n` has a single bit set exactly when it is a power of two.
pub proof fn lemma_single_bit_is_pow2(n: usize)
    ensures
        is_pow2(n as int) <==> (n != 0 && n & ((n - 1) as usize) == 0),
    decreases n,
{
    reveal(is_pow2);
    if n > 1 {
        let h = n / 2;
        lemma_single_bit_is_pow2(h);
        assert(n > 1 ==> ((n & ((n - 1) as usize) == 0) <==> (n % 2 == 0 && (n / 2) & (((n / 2) - 1) as usize)
            == 0))) by (bit_vector);
    } else if n == 1 {
        assert(1usize & 0usize == 0) by (bit_vector);
    }
}

} // verus!
