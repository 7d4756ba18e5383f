use vstd::prelude::*;

verus! {

/// Absolute value of an integer.
pub open spec fn abs(v: int) -> int {
    if v < 0 {
        -v
    } else {
        v
    }
}

/// A value brought into the range of `i32`.
pub open spec fn clamped_i32(v: int) -> i32 {
    if v > i32::MAX {
        i32::MAX
    } else if v < i32::MIN {
        i32::MIN
    } else {
        v as i32
    }
}

/// Squaring keeps the order of numbers that are not negative.
pub proof fn lemma_square_monotonic(a: int, b: int)
    by (nonlinear_arith)
    requires
        0 <= a <= b,
    ensures
        a * a <= b * b,
{
}

/// Squaring keeps the strict order of numbers that are not negative.
pub proof fn lemma_square_strict(a: int, b: int)
    by (nonlinear_arith)
    requires
        0 <= a < b,
    ensures
        a * a < b * b,
{
}

/// A number and its negation have the same square, which is not negative.
pub proof fn lemma_square_of_negation(a: int)
    by (nonlinear_arith)
    ensures
        (-a) * (-a) == a * a,
        a * a >= 0,
{
}

/// The part `along / whole` of `span`, rounded towards zero.
pub open spec fn portion(span: int, along: int, whole: int) -> int {
    if span >= 0 {
        span * along / whole
    } else {
        -((-span) * along / whole)
    }
}

/// `root` is the square root of `n`, rounded down.
pub open spec fn is_sqrt(n: int, root: int) -> bool {
    0 <= root && root * root <= n < (root + 1) * (root + 1)
}

/// The square root of `n`, rounded down.
pub open spec fn integer_sqrt(n: int) -> int {
    choose|root: int| is_sqrt(n, root)
}

/// The square root of `n`, rounded up.
pub open spec fn integer_sqrt_up(n: int) -> int {
    let root = integer_sqrt(n);
    if root * root == n {
        root
    } else {
        root + 1
    }
}

/// A value brought into the range of `i64`.
pub open spec fn clamped(v: int) -> i64 {
    if v > i64::MAX {
        i64::MAX
    } else if v < i64::MIN {
        i64::MIN
    } else {
        v as i64
    }
}

/// A part of a span that is no longer than the whole is no longer than the
/// way along which it is taken.
pub proof fn lemma_portion_bounded(span: int, along: int, whole: int)
    requires
        0 <= span <= whole,
        0 <= along,
        0 < whole,
    ensures
        0 <= span * along <= whole * along,
        0 <= span * along / whole <= along,
{
    vstd::arithmetic::mul::lemma_mul_inequality(span, whole, along);
    vstd::arithmetic::mul::lemma_mul_nonnegative(span, along);
    vstd::arithmetic::div_mod::lemma_div_is_ordered(span * along, whole * along, whole);
    vstd::arithmetic::div_mod::lemma_div_multiples_vanish(along, whole);
    vstd::arithmetic::div_mod::lemma_div_pos_is_pos(span * along, whole);
}

/// A number has one square root only.
pub proof fn lemma_sqrt_unique(n: int, a: int, b: int)
    requires
        is_sqrt(n, a),
        is_sqrt(n, b),
    ensures
        a == b,
{
    if a < b {
        lemma_square_monotonic(a + 1, b);
    } else if b < a {
        lemma_square_monotonic(b + 1, a);
    }
}

/// Every number that is not negative has a square root.
pub proof fn lemma_sqrt_exists(n: int)
    requires
        0 <= n,
    ensures
        is_sqrt(n, integer_sqrt(n)),
    decreases n,
{
    if n == 0 {
        assert(is_sqrt(0, 0));
    } else {
        lemma_sqrt_exists(n - 1);
        let below = integer_sqrt(n - 1);
        assert((below + 2) * (below + 2) > (below + 1) * (below + 1)) by (nonlinear_arith)
            requires
                0 <= below,
        ;
        if (below + 1) * (below + 1) <= n {
            assert(is_sqrt(n, below + 1));
        } else {
            assert(is_sqrt(n, below));
        }
    }
}

/// The square root of a number that is not negative, rounded up, is the
/// least number whose square reaches it.
pub proof fn lemma_sqrt_up(n: int)
    requires
        0 <= n,
    ensures
        0 <= integer_sqrt_up(n),
        n <= integer_sqrt_up(n) * integer_sqrt_up(n),
        integer_sqrt_up(n) > 0 ==> (integer_sqrt_up(n) - 1) * (integer_sqrt_up(n) - 1) < n,
        integer_sqrt_up(n) == 0 <==> n == 0,
{
    lemma_sqrt_exists(n);
    let root = integer_sqrt(n);
    assert(root == 0 ==> root * root == 0 && (root + 1) * (root + 1) == 1) by (nonlinear_arith);
    if root != 0 {
        lemma_square_monotonic(1, root);
        lemma_square_strict(root - 1, root);
    }
    let up = integer_sqrt_up(n);
    if up == root + 1 {
        assert((up - 1) * (up - 1) == root * root) by (nonlinear_arith)
            requires
                up == root + 1,
        ;
    }
}

/// The square root of `n`, rounded down.
pub fn isqrt(n: u128) -> (root: u64)
    ensures
        is_sqrt(n as int, root as int),
        root == integer_sqrt(n as int),
{
    let mut low: u128 = 0;
    let mut high: u128 = 0x1_0000_0000_0000_0000;
    while high - low > 1
        invariant
            low < high <= 0x1_0000_0000_0000_0000,
            low * low <= n < high * high,
        decreases high - low,
    {
        let middle: u128 = low + (high - low) / 2;
        proof {
            lemma_square_monotonic(middle as int, 0xffff_ffff_ffff_ffff);
        }
        if middle * middle <= n {
            low = middle;
        } else {
            high = middle;
        }
    }
    proof {
        assert(is_sqrt(n as int, low as int));
        lemma_sqrt_unique(n as int, low as int, integer_sqrt(n as int));
    }
    low as u64
}

/// The square root of `n`, rounded up.
pub fn isqrt_up(n: u128) -> (root: u128)
    ensures
        root == integer_sqrt_up(n as int),
        root <= 0x1_0000_0000_0000_0000,
{
    let down = isqrt(n) as u128;
    proof {
        lemma_square_monotonic(down as int, 0xffff_ffff_ffff_ffff);
    }
    if down * down == n {
        down
    } else {
        down + 1
    }
}

} // verus!
