//! Page size and page alignment.

use vstd::arithmetic::div_mod::lemma_fundamental_div_mod;
use vstd::prelude::*;

verus! {

/// A page size is a non-zero power of two.
pub open spec fn valid_page_size(ps: u64) -> bool {
    ps > 0 && ps & (ps - 1) as u64 == 0
}

/// `x` is a multiple of the page size.
pub open spec fn aligned(x: int, ps: u64) -> bool {
    x % (ps as int) == 0
}

/// The start of the page that holds `addr`.
pub open spec fn spec_page_floor(addr: u64, ps: u64) -> int {
    addr as int - (addr as int) % (ps as int)
}

/// Checks that `ps` can serve as a page size.
pub fn is_valid_page_size(ps: u64) -> (r: bool)
    ensures
        r == valid_page_size(ps),
{
    ps > 0 && ps & (ps - 1) == 0
}

/// Rounds `addr` down to a page boundary.
pub fn page_floor(addr: u64, ps: u64) -> (r: u64)
    requires
        valid_page_size(ps),
    ensures
        r as int == spec_page_floor(addr, ps),
        aligned(r as int, ps),
        r <= addr < r + ps,
{
    proof {
        lemma_page_floor(addr, ps);
    }
    addr - addr % ps
}

/// The start of the page that holds `addr` is page-aligned and lies at most
/// a page below `addr`.
pub proof fn lemma_page_floor(addr: u64, ps: u64)
    requires
        ps > 0,
    ensures
        aligned(spec_page_floor(addr, ps), ps),
        0 <= spec_page_floor(addr, ps) <= addr < spec_page_floor(addr, ps) + ps,
{
    lemma_fundamental_div_mod(addr as int, ps as int);
    lemma_aligned_floor(addr as int, ps as int);
    vstd::arithmetic::div_mod::lemma_mod_decreases(addr as nat, ps as nat);
}

proof fn lemma_aligned_floor(x: int, ps: int)
    requires
        x >= 0,
        ps > 0,
    ensures
        (x - x % ps) % ps == 0,
        0 <= x % ps < ps,
{
    lemma_fundamental_div_mod(x, ps);
    vstd::arithmetic::div_mod::lemma_mod_multiples_basic(x / ps, ps);
    assert(x - x % ps == (x / ps) * ps) by (nonlinear_arith)
        requires
            x == ps * (x / ps) + x % ps,
    ;
}

/// Of two distinct multiples of the page size, the larger one lies at least a
/// page above the smaller.
pub proof fn lemma_aligned_gap(x: int, y: int, ps: u64)
    requires
        ps > 0,
        0 <= x < y,
        aligned(x, ps),
        aligned(y, ps),
    ensures
        x + ps <= y,
{
    let p = ps as int;
    lemma_fundamental_div_mod(x, p);
    lemma_fundamental_div_mod(y, p);
    assert(x + p <= y) by (nonlinear_arith)
        requires
            x == p * (x / p),
            y == p * (y / p),
            x < y,
            p > 0,
    ;
}

/// Sums and differences of page-aligned values are page-aligned.
pub proof fn lemma_aligned_add_sub(x: int, y: int, ps: u64)
    requires
        ps > 0,
        aligned(x, ps),
        aligned(y, ps),
    ensures
        aligned(x + y, ps),
        aligned(x - y, ps),
{
    let p = ps as int;
    lemma_fundamental_div_mod(x, p);
    lemma_fundamental_div_mod(y, p);
    vstd::arithmetic::div_mod::lemma_mod_multiples_basic(x / p + y / p, p);
    vstd::arithmetic::div_mod::lemma_mod_multiples_basic(x / p - y / p, p);
    assert(x + y == (x / p + y / p) * p) by (nonlinear_arith)
        requires
            x == p * (x / p),
            y == p * (y / p),
    ;
    assert(x - y == (x / p - y / p) * p) by (nonlinear_arith)
        requires
            x == p * (x / p),
            y == p * (y / p),
    ;
}

} // verus!
