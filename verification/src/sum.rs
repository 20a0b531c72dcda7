use vstd::prelude::*;

verus! {

/// The sum of the integers from `a` through `b` inclusive; zero when `a > b`.
pub open spec fn spec_sum(a: int, b: int) -> int
    decreases b + 1 - a,
{
    if a > b {
        0
    } else {
        a + spec_sum(a + 1, b)
    }
}

/// A nonempty range can also be summed by peeling off its last term.
pub proof fn lemma_spec_sum_last(a: int, b: int)
    requires
        a <= b,
    ensures
        spec_sum(a, b) == spec_sum(a, b - 1) + b,
    decreases b - a,
{
    reveal_with_fuel(spec_sum, 2);
    if a < b {
        lemma_spec_sum_last(a + 1, b);
        assert(spec_sum(a, b - 1) == a + spec_sum(a + 1, b - 1));
    } else {
        assert(spec_sum(a, b) == a);
        assert(spec_sum(a, b - 1) == 0);
    }
}

/// Every term of `a..=b` lies in `[-m, m]`, so the sum is bounded by the
/// number of terms times `m`.
proof fn lemma_spec_sum_abs(a: int, b: int, m: int)
    requires
        0 <= m,
        -m <= a <= b <= m,
    ensures
        -((b - a + 1) * m) <= spec_sum(a, b) <= (b - a + 1) * m,
    decreases b - a,
{
    if a == b {
        reveal_with_fuel(spec_sum, 2);
        assert(spec_sum(a, b) == a);
        assert((b - a + 1) * m == m) by (nonlinear_arith)
            requires b == a;
    } else {
        lemma_spec_sum_abs(a + 1, b, m);
        assert(spec_sum(a, b) == a + spec_sum(a + 1, b));
        assert((b - a + 1) * m == (b - a) * m + m) by (nonlinear_arith);
    }
}

/// Bounds under which summation cannot overflow a 32-bit accumulator: when
/// both endpoints lie within `[-30000, 30000]`, every partial sum of the
/// range stays strictly inside the `i32` range.
pub proof fn lemma_sum_fits_i32(start: int, end: int)
    requires
        -30000 <= start <= 30000,
        -30000 <= end <= 30000,
    ensures
        forall|k: int|
            start <= k <= end ==> i32::MIN as int <= #[trigger] spec_sum(start, k) <= i32::MAX as int,
{
    assert forall|k: int|
        start <= k <= end implies i32::MIN as int <= #[trigger] spec_sum(start, k) <= i32::MAX as int by {
        lemma_spec_sum_abs(start, k, 30000);
        assert((k - start + 1) * 30000 <= 60001 * 30000) by (nonlinear_arith)
            requires k - start + 1 <= 60001;
    }
}

/// Sums the integers from `start` through `end` inclusive; an empty range
/// (`start > end`) sums to zero. The precondition asks exactly that no
/// partial sum leaves the `i32` range; `lemma_sum_fits_i32` discharges it for
/// moderate endpoints.
pub fn calculate_sum(start: i32, end: i32) -> (r: i32)
    requires
        forall|k: int|
            start as int <= k <= end as int
                ==> i32::MIN as int <= #[trigger] spec_sum(start as int, k) <= i32::MAX as int,
    ensures
        r as int == spec_sum(start as int, end as int),
{
    if start > end {
        return 0;
    }
    let mut acc: i32 = 0;
    let mut i: i32 = start;
    while i < end
        invariant
            start <= i <= end,
            acc as int == spec_sum(start as int, i - 1),
            forall|k: int|
                start as int <= k <= end as int
                    ==> i32::MIN as int <= #[trigger] spec_sum(start as int, k) <= i32::MAX as int,
        decreases end - i,
    {
        proof {
            lemma_spec_sum_last(start as int, i as int);
        }
        acc = acc + i;
        i = i + 1;
    }
    proof {
        lemma_spec_sum_last(start as int, end as int);
    }
    acc + end
}

} // verus!
