//! Sums over integer ranges and the reduction of integers into `i64`.
use vstd::arithmetic::div_mod::{
    lemma_add_mod_noop, lemma_mod_add_multiples_vanish, lemma_mod_sub_multiples_vanish,
    lemma_mod_twice, lemma_mul_mod_noop_left, lemma_mul_mod_noop_right, lemma_small_mod,
};
use vstd::arithmetic::mul::lemma_mul_is_distributive_add;
use vstd::prelude::*;

verus! {

/// 2^64, the number of distinct `i64` values.
pub open spec fn modulus() -> int {
    0x1_0000_0000_0000_0000
}

/// `x` and `y` agree modulo 2^64.
pub open spec fn cong(x: int, y: int) -> bool {
    x % modulus() == y % modulus()
}

/// The unique `i64` congruent to `x` modulo 2^64 (what wrapping arithmetic yields).
pub open spec fn wrap(x: int) -> i64 {
    let m = x % modulus();
    if m > i64::MAX {
        (m - modulus()) as i64
    } else {
        m as i64
    }
}

/// `f(0) + f(1) + ... + f(n - 1)`, summed from the left.
pub open spec fn sum_of(n: int, f: spec_fn(int) -> int) -> int
    decreases n,
{
    if n <= 0 {
        0
    } else {
        sum_of(n - 1, f) + f(n - 1)
    }
}

pub proof fn lemma_wrap_cong(x: int)
    ensures
        cong(wrap(x) as int, x),
{
    let m = x % modulus();
    lemma_mod_twice(x, modulus());
    if m > i64::MAX {
        lemma_mod_sub_multiples_vanish(m, modulus());
    }
}

/// Two `i64` values that agree modulo 2^64 are equal.
pub proof fn lemma_cong_unique(x: i64, y: i64)
    requires
        cong(x as int, y as int),
    ensures
        x == y,
{
    let m = modulus();
    if x >= 0 {
        lemma_small_mod(x as nat, m as nat);
    } else {
        lemma_mod_add_multiples_vanish(x as int, m);
        lemma_small_mod((m + x) as nat, m as nat);
    }
    if y >= 0 {
        lemma_small_mod(y as nat, m as nat);
    } else {
        lemma_mod_add_multiples_vanish(y as int, m);
        lemma_small_mod((m + y) as nat, m as nat);
    }
}

/// An `i64` congruent to `x` is `wrap(x)`.
pub proof fn lemma_wrap_of_cong(v: i64, x: int)
    requires
        cong(v as int, x),
    ensures
        v == wrap(x),
{
    lemma_wrap_cong(x);
    lemma_cong_unique(v, wrap(x));
}

/// An `i64` value is its own reduction.
pub proof fn lemma_wrap_id(v: i64)
    ensures
        wrap(v as int) == v,
{
    lemma_wrap_of_cong(v, v as int);
}

pub proof fn lemma_cong_sym_trans(x: int, y: int, z: int)
    requires
        cong(x, y),
        cong(y, z),
    ensures
        cong(y, x),
        cong(x, z),
{
}

pub proof fn lemma_cong_add(x1: int, x2: int, y1: int, y2: int)
    requires
        cong(x1, x2),
        cong(y1, y2),
    ensures
        cong(x1 + y1, x2 + y2),
{
    lemma_add_mod_noop(x1, y1, modulus());
    lemma_add_mod_noop(x2, y2, modulus());
}

pub proof fn lemma_cong_mul(x1: int, x2: int, y1: int, y2: int)
    requires
        cong(x1, x2),
        cong(y1, y2),
    ensures
        cong(x1 * y1, x2 * y2),
{
    let m = modulus();
    lemma_mul_mod_noop_left(x1, y1, m);
    lemma_mul_mod_noop_left(x2, y1, m);
    lemma_mul_mod_noop_right(x2, y1, m);
    lemma_mul_mod_noop_right(x2, y2, m);
}

/// What `i64::wrapping_add` returns is congruent to the exact sum.
pub proof fn lemma_wrapping_add(x: i64, y: i64)
    ensures
        cong(x.wrapping_add(y) as int, x + y),
{
    let s = x + y;
    if s > i64::MAX {
        lemma_mod_sub_multiples_vanish(s, modulus());
    } else if s < i64::MIN {
        lemma_mod_add_multiples_vanish(s, modulus());
    }
}

/// What `i64::wrapping_mul` returns is congruent to the exact product.
pub proof fn lemma_wrapping_mul(x: i64, y: i64)
    ensures
        cong(x.wrapping_mul(y) as int, x * y),
        x.wrapping_mul(y) == wrap(x * y),
{
    let p = x * y;
    let m = p % modulus();
    lemma_mod_twice(p, modulus());
    if m > i64::MAX {
        lemma_mod_sub_multiples_vanish(m, modulus());
    }
    lemma_wrap_of_cong(x.wrapping_mul(y), p);
}

/// Sums of functions that agree on `[0, n)` are equal.
pub proof fn lemma_sum_ext(n: int, f: spec_fn(int) -> int, g: spec_fn(int) -> int)
    requires
        forall|p: int| 0 <= p < n ==> #[trigger] f(p) == g(p),
    ensures
        sum_of(n, f) == sum_of(n, g),
    decreases n,
{
    if n > 0 {
        lemma_sum_ext(n - 1, f, g);
    }
}

/// Sums of functions that agree modulo 2^64 on `[0, n)` agree modulo 2^64.
pub proof fn lemma_sum_cong(n: int, f: spec_fn(int) -> int, g: spec_fn(int) -> int)
    requires
        forall|p: int| 0 <= p < n ==> cong(#[trigger] f(p), g(p)),
    ensures
        cong(sum_of(n, f), sum_of(n, g)),
    decreases n,
{
    if n > 0 {
        lemma_sum_cong(n - 1, f, g);
        lemma_cong_add(sum_of(n - 1, f), sum_of(n - 1, g), f(n - 1), g(n - 1));
    }
}

/// A sum over `[0, n + w)` is the sum over `[0, n)` plus the sum over `[n, n + w)`.
pub proof fn lemma_sum_split(n: int, w: int, f: spec_fn(int) -> int)
    requires
        n >= 0,
        w >= 0,
    ensures
        sum_of(n + w, f) == sum_of(n, f) + sum_of(w, |l: int| f(n + l)),
    decreases w,
{
    if w > 0 {
        lemma_sum_split(n, w - 1, f);
    }
}

/// A constant factor comes out of a sum.
pub proof fn lemma_sum_scale(n: int, s: int, f: spec_fn(int) -> int)
    ensures
        sum_of(n, |p: int| s * f(p)) == s * sum_of(n, f),
    decreases n,
{
    if n > 0 {
        lemma_sum_scale(n - 1, s, f);
        lemma_mul_is_distributive_add(s, sum_of(n - 1, f), f(n - 1));
    }
}

/// A sum whose terms vanish everywhere but at `q` is the term at `q`.
pub proof fn lemma_sum_single(n: int, q: int, f: spec_fn(int) -> int)
    requires
        0 <= q < n,
        forall|p: int| 0 <= p < n && p != q ==> #[trigger] f(p) == 0,
    ensures
        sum_of(n, f) == f(q),
    decreases n,
{
    if n - 1 > q {
        lemma_sum_single(n - 1, q, f);
    } else {
        lemma_sum_zero(n - 1, f);
    }
}

pub proof fn lemma_sum_zero(n: int, f: spec_fn(int) -> int)
    requires
        forall|p: int| 0 <= p < n ==> #[trigger] f(p) == 0,
    ensures
        sum_of(n, f) == 0,
    decreases n,
{
    if n > 0 {
        lemma_sum_zero(n - 1, f);
    }
}

} // verus!
