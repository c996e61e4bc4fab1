//! Small functions on numbers.

use vstd::prelude::*;

verus! {

/// The sum and the product of two numbers.
pub fn sum_and_product(x: i32, y: i32) -> (pair: (i32, i32))
    requires
        i32::MIN <= x + y <= i32::MAX,
        i32::MIN <= x * y <= i32::MAX,
    ensures
        pair.0 == x + y,
        pair.1 == x * y,
{
    (x + y, x * y)
}

/// Adds one to the number behind `x`.
pub fn increase(x: &mut i32)
    requires
        *old(x) < i32::MAX,
    ensures
        *final(x) == *old(x) + 1,
{
    *x += 1;
}

/// The product of two numbers.
pub fn product(x: i32, y: i32) -> (p: i32)
    requires
        i32::MIN <= x * y <= i32::MAX,
    ensures
        p == x * y,
{
    x * y
}

/// Whether `x` is even.
pub fn is_even(x: u32) -> (even: bool)
    ensures
        even == (x % 2 == 0),
{
    x % 2 == 0
}

/// A test for the numbers above a limit.
pub struct Above {
    limit: u32,
}

impl Above {
    /// The limit that a number has to exceed.
    pub closed spec fn limit(&self) -> u32 {
        self.limit
    }

    /// Whether `y` is above the limit.
    pub fn test(&self, y: u32) -> (above: bool)
        ensures
            above == (y > self.limit()),
    {
        y > self.limit
    }
}

/// A test for the numbers above `limit`.
pub fn greater_than(limit: u32) -> (above: Above)
    ensures
        above.limit() == limit,
{
    Above { limit }
}

/// The word for a number of oranges.
pub open spec fn orange_word(x: int) -> Seq<char> {
    if x == 0 {
        "no"@
    } else if x == 1 || x == 2 {
        "one or two"@
    } else if x == 12 {
        "dozen"@
    } else if 9 <= x <= 11 {
        "lots of"@
    } else if x % 2 == 0 {
        "some"@
    } else {
        "a few"@
    }
}

/// How many oranges `x` are, in a word.
pub fn how_many(x: i32) -> (word: &'static str)
    ensures
        word@ == orange_word(x as int),
{
    if x == 0 {
        "no"
    } else if x == 1 || x == 2 {
        "one or two"
    } else if x == 12 {
        "dozen"
    } else if 9 <= x && x <= 11 {
        "lots of"
    } else if x % 2 == 0 {
        "some"
    } else {
        "a few"
    }
}

/// The sum of the even squares `k * k` with `k < n`.
pub open spec fn even_squares(n: nat) -> nat
    decreases n,
{
    if n == 0 {
        0
    } else {
        let k = (n - 1) as nat;
        even_squares(k) + if (k * k) % 2 == 0 {
            k * k
        } else {
            0
        }
    }
}

/// `n` is the least number whose square is above `limit`.
pub open spec fn is_first_above(n: nat, limit: nat) -> bool {
    &&& n * n > limit
    &&& n == 0 || (n - 1) * (n - 1) <= limit
}

/// The number of squares that are not above `limit`, which is the least
/// number whose square is above it.
pub open spec fn squares_within(limit: nat) -> nat {
    choose|n: nat| is_first_above(n, limit)
}

/// There is one least number whose square is above `limit`.
pub proof fn lemma_first_above_unique(n: nat, limit: nat)
    requires
        is_first_above(n, limit),
    ensures
        squares_within(limit) == n,
{
    let m = squares_within(limit);
    assert(is_first_above(m, limit));
    if m < n {
        assert(m * m <= (n - 1) * (n - 1)) by (nonlinear_arith)
            requires
                0 <= m <= n - 1,
        ;
    } else if n < m {
        assert(n * n <= (m - 1) * (m - 1)) by (nonlinear_arith)
            requires
                0 <= n <= m - 1,
        ;
    }
}

/// From any number whose predecessors have squares within `limit`, a least
/// number with a square above `limit` is reached.
proof fn lemma_first_above_from(k: nat, limit: nat)
    requires
        k == 0 || (k - 1) * (k - 1) <= limit,
    ensures
        exists|n: nat| is_first_above(n, limit),
    decreases limit + 1 - k,
{
    if k * k > limit {
        assert(is_first_above(k, limit));
    } else {
        assert(k <= k * k) by (nonlinear_arith);
        lemma_first_above_from(k + 1, limit);
    }
}

/// Every limit has a least number whose square is above it.
pub proof fn lemma_first_above_exists(limit: nat)
    ensures
        is_first_above(squares_within(limit), limit),
{
    lemma_first_above_from(0, limit);
}

/// Summing over more numbers gives no less.
pub proof fn lemma_even_squares_grow(a: nat, b: nat)
    requires
        a <= b,
    ensures
        even_squares(a) <= even_squares(b),
    decreases b,
{
    if a < b {
        lemma_even_squares_grow(a, (b - 1) as nat);
    }
}

/// The sum of the even squares below `n * n` is at most `n * n * n`.
pub proof fn lemma_even_squares_bound(n: nat)
    ensures
        even_squares(n) <= n * n * n,
    decreases n,
{
    if n > 0 {
        let k = (n - 1) as nat;
        lemma_even_squares_bound(k);
        assert(k * k * k + k * k <= n * n * n) by (nonlinear_arith)
            requires
                n == k + 1,
        ;
    }
}

/// For a limit of a million or less, the sum of the even squares within it
/// fits a `u32`.
pub proof fn lemma_small_limit_fits(limit: nat)
    requires
        limit <= 1_000_000,
    ensures
        even_squares(squares_within(limit)) <= u32::MAX,
{
    let n = squares_within(limit);
    lemma_first_above_exists(limit);
    lemma_even_squares_bound(n);
    assert(n <= 1001) by (nonlinear_arith)
        requires
            n == 0 || (n - 1) * (n - 1) <= limit,
            limit <= 1_000_000,
    ;
    assert(n * n * n <= 1001 * 1001 * 1001) by (nonlinear_arith)
        requires
            0 <= n <= 1001,
    ;
}

/// Where the sum of the even squares within `limit` fits a `u32`, so does the
/// first square above `limit`, and every square before it.
proof fn lemma_square_fits(i: nat, limit: nat)
    requires
        limit <= u32::MAX,
        i <= squares_within(limit),
        even_squares(squares_within(limit)) <= u32::MAX,
    ensures
        i * i <= u32::MAX,
{
    let n = squares_within(limit);
    lemma_first_above_exists(limit);
    if i < n {
        assert(i * i <= (n - 1) * (n - 1)) by (nonlinear_arith)
            requires
                0 <= i <= n - 1,
        ;
    } else {
        assert(n <= 65536) by (nonlinear_arith)
            requires
                n == 0 || (n - 1) * (n - 1) <= limit,
                limit <= 0xffff_ffff,
        ;
        if n == 65536 {
            assert(even_squares(65536) >= 65534 * 65534 + 65532 * 65532) by {
                reveal_with_fuel(even_squares, 5);
            }
        } else {
            assert(i * i <= 65535 * 65535) by (nonlinear_arith)
                requires
                    0 <= i <= 65535,
            ;
        }
    }
}

/// The sum of the even squares that are not above `limit`.
///
/// The squares are summed from the least on, so the whole sum has to fit.
pub fn sum_of_even_squares(limit: u32) -> (sum: u32)
    requires
        even_squares(squares_within(limit as nat)) <= u32::MAX,
    ensures
        sum == even_squares(squares_within(limit as nat)),
{
    let above_limit = greater_than(limit);
    let mut sum: u32 = 0;
    let mut i: u32 = 0;
    proof {
        lemma_first_above_exists(limit as nat);
    }
    loop
        invariant_except_break
            i <= squares_within(limit as nat),
            sum == even_squares(i as nat),
        invariant
            above_limit.limit() == limit,
            even_squares(squares_within(limit as nat)) <= u32::MAX,
            is_first_above(squares_within(limit as nat), limit as nat),
        ensures
            sum == even_squares(squares_within(limit as nat)),
        decreases squares_within(limit as nat) - i,
    {
        let ghost n = squares_within(limit as nat);
        proof {
            lemma_square_fits(i as nat, limit as nat);
        }
        let isq = i * i;
        if above_limit.test(isq) {
            proof {
                // No number before `i` has a square above the limit.
                if i < n {
                    assert(i * i <= (n - 1) * (n - 1)) by (nonlinear_arith)
                        requires
                            0 <= i <= n - 1,
                    ;
                }
            }
            break ;
        }
        proof {
            // The square of `i` is within the limit, so `i` is counted.
            assert(i < n);
            assert(n <= 65536) by (nonlinear_arith)
                requires
                    n == 0 || (n - 1) * (n - 1) <= limit,
                    limit <= 0xffff_ffff,
            ;
            lemma_even_squares_grow(i as nat + 1, n);
        }
        if is_even(isq) {
            sum += isq;
        }
        i += 1;
    }
    sum
}

/// The sum of the numbers of `s`.
pub open spec fn total(s: Seq<i32>) -> int
    decreases s.len(),
{
    if s.len() == 0 {
        0
    } else {
        total(s.drop_last()) + s.last()
    }
}

/// Adding the numbers of `s` from the first on never leaves the range of
/// `i32`.
pub open spec fn sums_fit(s: Seq<i32>) -> bool {
    forall|k: int| 0 <= k <= s.len() ==> i32::MIN <= #[trigger] total(s.take(k)) <= i32::MAX
}

/// What can be summed up to a `T`.
pub trait Summable<T> {
    /// Whether the sum can be computed.
    spec fn summable(&self) -> bool;

    /// The sum.
    spec fn sum_spec(&self) -> T;

    /// Computes the sum.
    fn sum(&self) -> (result: T)
        requires
            self.summable(),
        ensures
            result == self.sum_spec(),
    ;
}

impl Summable<i32> for Vec<i32> {
    open spec fn summable(&self) -> bool {
        sums_fit(self@)
    }

    open spec fn sum_spec(&self) -> i32 {
        total(self@) as i32
    }

    fn sum(&self) -> (result: i32) {
        let mut result: i32 = 0;
        let mut i: usize = 0;
        while i < self.len()
            invariant
                i <= self.len(),
                sums_fit(self@),
                result == total(self@.take(i as int)),
            decreases self.len() - i,
        {
            proof {
                assert(self@.take(i + 1).drop_last() =~= self@.take(i as int));
                assert(i32::MIN <= total(self@.take(i + 1)) <= i32::MAX);
            }
            result += self[i];
            i += 1;
        }
        proof {
            assert(self@.take(i as int) =~= self@);
        }
        result
    }
}

} // verus!
