//! Round-trip statistics over latency samples in whole microseconds.
//!
//! Everything here is exact integer arithmetic. The mean is `total / n` and
//! the population standard deviation is `sqrt(spread) / n`, where
//! `spread = n * sum(x^2) - sum(x)^2 = n^2 * variance`; turning these
//! quotients into decimals for display is left to the caller.
use vstd::prelude::*;

verus! {

pub open spec fn sum_of(s: Seq<u32>) -> int
    decreases s.len(),
{
    if s.len() == 0 {
        0
    } else {
        sum_of(s.drop_last()) + s.last()
    }
}

pub open spec fn sum_sq_of(s: Seq<u32>) -> int
    decreases s.len(),
{
    if s.len() == 0 {
        0
    } else {
        sum_sq_of(s.drop_last()) + s.last() * s.last()
    }
}

pub open spec fn min_of(s: Seq<u32>) -> int
    decreases s.len(),
{
    if s.len() <= 1 {
        if s.len() == 0 { 0 } else { s[0] as int }
    } else if s.last() < min_of(s.drop_last()) {
        s.last() as int
    } else {
        min_of(s.drop_last())
    }
}

pub open spec fn max_of(s: Seq<u32>) -> int
    decreases s.len(),
{
    if s.len() <= 1 {
        if s.len() == 0 { 0 } else { s[0] as int }
    } else if s.last() > max_of(s.drop_last()) {
        s.last() as int
    } else {
        max_of(s.drop_last())
    }
}

/// `n` times the sum of squared deviations from the mean: `n^2` times the
/// population variance.
pub open spec fn spread_of(s: Seq<u32>) -> int {
    s.len() * sum_sq_of(s) - sum_of(s) * sum_of(s)
}

/// Sum of the squared distances of the samples from `y`.
pub open spec fn sq_dev_of(s: Seq<u32>, y: int) -> int
    decreases s.len(),
{
    if s.len() == 0 {
        0
    } else {
        sq_dev_of(s.drop_last(), y) + (s.last() - y) * (s.last() - y)
    }
}

pub open spec fn is_constant(s: Seq<u32>) -> bool {
    forall|i: int, j: int| 0 <= i < s.len() && 0 <= j < s.len() ==> s[i] == s[j]
}

/// Packet loss in tenths of a percent, `(sent - received) / sent * 1000`,
/// rounded to the nearest integer, an exact tie to the even one.
pub open spec fn loss_tenths_of(sent: nat, received: nat) -> int {
    let scaled = (sent - received) * 1000;
    let q = scaled / (sent as int);
    let r = scaled % (sent as int);
    if 2 * r > sent || (2 * r == sent && q % 2 == 1) {
        q + 1
    } else {
        q
    }
}

proof fn lemma_sq_dev_expand(s: Seq<u32>, y: int)
    ensures
        sq_dev_of(s, y) == sum_sq_of(s) - 2 * y * sum_of(s) + s.len() * y * y,
    decreases s.len(),
{
    if s.len() > 0 {
        let t = s.drop_last();
        let x = s.last() as int;
        lemma_sq_dev_expand(t, y);
        assert((x - y) * (x - y) == x * x - 2 * y * x + y * y) by (nonlinear_arith);
        assert(s.len() * y * y == t.len() * y * y + y * y) by (nonlinear_arith)
            requires
                s.len() == t.len() + 1,
        ;
        assert(2 * y * sum_of(s) == 2 * y * sum_of(t) + 2 * y * x) by (nonlinear_arith)
            requires
                sum_of(s) == sum_of(t) + x,
        ;
    }
}

proof fn lemma_spread_push(t: Seq<u32>, y: u32)
    ensures
        spread_of(t.push(y)) == spread_of(t) + sq_dev_of(t, y as int),
{
    let s = t.push(y);
    assert(s.drop_last() =~= t);
    lemma_sq_dev_expand(t, y as int);
    let n = t.len() as int;
    let q = sum_sq_of(t);
    let m = sum_of(t);
    let yy = y as int;
    assert(sum_of(s) == m + yy);
    assert(sum_sq_of(s) == q + yy * yy);
    assert((n + 1) * (q + yy * yy) - (m + yy) * (m + yy) == (n * q - m * m) + (q - 2 * yy * m + n
        * yy * yy)) by (nonlinear_arith);
}

proof fn lemma_sq_dev_zero(s: Seq<u32>, y: int)
    ensures
        sq_dev_of(s, y) >= 0,
        sq_dev_of(s, y) == 0 <==> forall|i: int| 0 <= i < s.len() ==> s[i] == y,
    decreases s.len(),
{
    if s.len() > 0 {
        let t = s.drop_last();
        let x = s.last() as int;
        lemma_sq_dev_zero(t, y);
        assert((x - y) * (x - y) >= 0) by (nonlinear_arith);
        assert((x - y) * (x - y) == 0 ==> x == y) by (nonlinear_arith);
        assert(sq_dev_of(s, y) == sq_dev_of(t, y) + (x - y) * (x - y));
        if sq_dev_of(s, y) == 0 {
            assert(x == y);
            assert forall|i: int| 0 <= i < s.len() implies s[i] == y by {
                if i < t.len() {
                    assert(s[i] == t[i]);
                }
            }
        }
        if forall|i: int| 0 <= i < s.len() ==> s[i] == y {
            assert forall|i: int| 0 <= i < t.len() implies t[i] == y by {
                assert(s[i] == t[i]);
            }
            assert(s[s.len() - 1] == y);
            assert(x == y);
            assert((x - y) * (x - y) == 0) by (nonlinear_arith)
                requires
                    x == y,
            ;
        }
    }
}

/// The spread is never negative, and it is zero exactly when all samples are
/// equal: the standard deviation is 0 for a constant sequence and positive
/// for any other.
pub proof fn lemma_spread_zero_iff_constant(s: Seq<u32>)
    ensures
        spread_of(s) >= 0,
        spread_of(s) == 0 <==> is_constant(s),
    decreases s.len(),
{
    if s.len() > 0 {
        let t = s.drop_last();
        let y = s.last();
        assert(t.push(y) =~= s);
        lemma_spread_push(t, y);
        lemma_spread_zero_iff_constant(t);
        lemma_sq_dev_zero(t, y as int);
        if spread_of(s) == 0 {
            assert forall|i: int, j: int|
                0 <= i < s.len() && 0 <= j < s.len() implies s[i] == s[j] by {
                if i < t.len() {
                    assert(s[i] == t[i]);
                }
                if j < t.len() {
                    assert(s[j] == t[j]);
                }
            }
        }
        if is_constant(s) {
            assert forall|i: int, j: int|
                0 <= i < t.len() && 0 <= j < t.len() implies t[i] == t[j] by {
                assert(s[i] == t[i] && s[j] == t[j]);
            }
            assert forall|i: int| 0 <= i < t.len() implies t[i] == y by {
                assert(s[i] == t[i] && s[s.len() - 1] == y);
            }
        }
    } else {
        assert(spread_of(s) == 0);
    }
}

/// The smallest and largest samples bound every sample.
pub proof fn lemma_min_max_bound(s: Seq<u32>)
    ensures
        forall|i: int| 0 <= i < s.len() ==> min_of(s) <= #[trigger] s[i] <= max_of(s),
    decreases s.len(),
{
    if s.len() > 1 {
        let t = s.drop_last();
        lemma_min_max_bound(t);
        assert forall|i: int| 0 <= i < s.len() implies min_of(s) <= #[trigger] s[i] <= max_of(s) by {
            if i < t.len() {
                assert(s[i] == t[i]);
            }
        }
    }
}

/// The mean lies between the smallest and the largest sample:
/// `n * min <= total <= n * max`.
pub proof fn lemma_mean_between(s: Seq<u32>)
    requires
        s.len() > 0,
    ensures
        s.len() * min_of(s) <= sum_of(s) <= s.len() * max_of(s),
    decreases s.len(),
{
    if s.len() == 1 {
        assert(s.drop_last().len() == 0);
        assert(sum_of(s.drop_last()) == 0);
        assert(sum_of(s) == s[0]);
        assert(min_of(s) == s[0] && max_of(s) == s[0]);
    } else {
        let t = s.drop_last();
        let x = s.last() as int;
        lemma_mean_between(t);
        lemma_min_max_bound(s);
        assert(s[s.len() - 1] == x);
        assert(min_of(s) <= min_of(t));
        assert(max_of(s) >= max_of(t));
        let n = t.len() as int;
        assert(n * min_of(s) <= n * min_of(t)) by (nonlinear_arith)
            requires
                min_of(s) <= min_of(t),
                n >= 0,
        ;
        assert(n * max_of(t) <= n * max_of(s)) by (nonlinear_arith)
            requires
                max_of(s) >= max_of(t),
                n >= 0,
        ;
        assert(s.len() * min_of(s) == n * min_of(s) + min_of(s)) by (nonlinear_arith)
            requires
                s.len() == n + 1,
        ;
        assert(s.len() * max_of(s) == n * max_of(s) + max_of(s)) by (nonlinear_arith)
            requires
                s.len() == n + 1,
        ;
        assert(sum_of(s) == sum_of(t) + x);
        assert(min_of(s) <= x <= max_of(s));
    }
}

/// Loss is exactly 0% when every attempt succeeded and exactly 100% when
/// every attempt failed, whatever the number of attempts.
pub proof fn lemma_loss_extremes(sent: nat)
    requires
        sent > 0,
    ensures
        loss_tenths_of(sent, sent) == 0,
        loss_tenths_of(sent, 0) == 1000,
{
    let n = sent as int;
    assert(0int / n == 0 && 0int % n == 0) by (nonlinear_arith)
        requires
            n > 0,
    ;
    assert((n * 1000) / n == 1000 && (n * 1000) % n == 0) by (nonlinear_arith)
        requires
            n > 0,
    ;
    assert((n - 0) * 1000 == n * 1000);
    assert((n - n) * 1000 == 0);
}

} // verus!
