//! The metrics sink: per-step summary statistics of the living population
//! (Gini coefficient, wealth and education percentiles, totals and counts),
//! and the comma-separated row they are logged as.
//!
//! Everything here is read-only over the agent collection. Writing the
//! rows to a file is the caller's business; this module computes them.

use vstd::prelude::*;

use crate::agent::{Agent, ADULT_AGE};
use crate::codec::{push_dec, push_digits, spec_dec, spec_digits};
use crate::config::MAX_AGENTS;
use crate::fixed::{div_trunc, lemma_abs_mul_le, SCALE};
use vstd::relations::{sorted_by, total_ordering};
use vstd::seq_lib::lemma_sorted_unique;
use vstd::string::StringSliceAdditionalSpecFns;

verus! {

/// Magnitude cap on values entering the statistics: one billion whole
/// units. It keeps every accumulated sum within `i128`.
pub const STAT_LIMIT: i64 = 1_000_000_000_000_000;

/// The ordering the statistics sort by.
pub open spec fn i64_le() -> spec_fn(i64, i64) -> bool {
    |x: i64, y: i64| x <= y
}

/// Whether an agent is alive.
pub open spec fn alive_pred() -> spec_fn(Agent) -> bool {
    |a: Agent| a.alive
}

/// Whether an agent is a living adult.
pub open spec fn adult_pred() -> spec_fn(Agent) -> bool {
    |a: Agent| a.alive && a.age >= ADULT_AGE
}

/// An agent's wealth.
pub open spec fn wealth_of() -> spec_fn(Agent) -> i64 {
    |a: Agent| a.wealth
}

/// An agent's education.
pub open spec fn education_of() -> spec_fn(Agent) -> i64 {
    |a: Agent| a.education
}

/// The wealths of the living agents, in collection order.
pub open spec fn spec_living_wealths(s: Seq<Agent>) -> Seq<i64> {
    s.filter(alive_pred()).map_values(wealth_of())
}

/// The educations of the living agents, in collection order.
pub open spec fn spec_living_educations(s: Seq<Agent>) -> Seq<i64> {
    s.filter(alive_pred()).map_values(education_of())
}

/// How many agents are living adults.
pub open spec fn spec_adult_count(s: Seq<Agent>) -> nat {
    s.filter(adult_pred()).len()
}

/// The sum of a sequence of values.
pub open spec fn spec_sum(s: Seq<i64>) -> int
    decreases s.len(),
{
    if s.len() == 0 {
        0
    } else {
        spec_sum(s.drop_last()) + s.last()
    }
}

/// The rank-weighted sum of a sequence: each value times its one-based
/// rank.
pub open spec fn spec_weighted_sum(s: Seq<i64>) -> int
    decreases s.len(),
{
    if s.len() == 0 {
        0
    } else {
        spec_weighted_sum(s.drop_last()) + s.len() * s.last()
    }
}

/// The Gini coefficient of a sorted sequence of values, fixed-point, by
/// the rank-sum formula; zero for an empty population or a non-positive
/// total.
pub open spec fn spec_gini(s: Seq<i64>) -> int {
    let n = s.len() as int;
    let total = spec_sum(s);
    if n == 0 || total <= 0 {
        0
    } else {
        div_trunc((2 * spec_weighted_sum(s) - (n + 1) * total) * SCALE as int, n * total)
    }
}

/// A value clamped into the symmetric representable range.
pub open spec fn spec_saturate(v: int) -> int {
    if v > i64::MAX as int {
        i64::MAX as int
    } else if v < -(i64::MAX as int) {
        -(i64::MAX as int)
    } else {
        v
    }
}

/// The index the percentile `p` (in hundredths) reads in a sorted
/// sequence of length `n`: `floor(p * n / 100)`, clamped to the last
/// element.
pub open spec fn spec_percentile_index(p: int, n: int) -> int {
    let idx = (p * n) / 100;
    if idx >= n {
        n - 1
    } else {
        idx
    }
}

/// The sum of an all-equal sequence.
proof fn lemma_sum_const(s: Seq<i64>, w: i64)
    requires
        forall|i: int| 0 <= i < s.len() ==> s[i] == w,
    ensures
        spec_sum(s) == s.len() * w,
    decreases s.len(),
{
    if s.len() > 0 {
        assert forall|i: int| 0 <= i < s.drop_last().len() implies s.drop_last()[i] == w by {
            assert(s.drop_last()[i] == s[i]);
        }
        lemma_sum_const(s.drop_last(), w);
        assert(spec_sum(s) == (s.len() - 1) * w + w);
        assert((s.len() - 1) * w + w == s.len() * w) by (nonlinear_arith);
    }
}

/// Twice the rank-weighted sum of an all-equal sequence.
proof fn lemma_weighted_sum_const(s: Seq<i64>, w: i64)
    requires
        forall|i: int| 0 <= i < s.len() ==> s[i] == w,
    ensures
        2 * spec_weighted_sum(s) == s.len() as int * (s.len() as int + 1) * w,
    decreases s.len(),
{
    if s.len() > 0 {
        let n = s.len() as int;
        assert forall|i: int| 0 <= i < s.drop_last().len() implies s.drop_last()[i] == w by {
            assert(s.drop_last()[i] == s[i]);
        }
        lemma_weighted_sum_const(s.drop_last(), w);
        assert(s.last() == w);
        assert(2 * spec_weighted_sum(s.drop_last()) == (n - 1) * n * w) by {
            assert(s.drop_last().len() as int == n - 1);
            assert((n - 1) * ((n - 1) + 1) * w == (n - 1) * n * w) by (nonlinear_arith);
        }
        assert(spec_weighted_sum(s) == spec_weighted_sum(s.drop_last()) + s.len() * s.last());
        assert(s.len() * s.last() == n * w) by (nonlinear_arith)
            requires
                s.len() as int == n,
                s.last() == w,
        ;
        assert(2 * spec_weighted_sum(s) == (n - 1) * n * w + 2 * (n * w));
        assert((n - 1) * n * w + 2 * (n * w) == n * (n + 1) * w) by (nonlinear_arith);
        assert(2 * spec_weighted_sum(s) == s.len() as int * (s.len() as int + 1) * w);
    } else {
        assert(s.len() as int * (s.len() as int + 1) * w == 0) by (nonlinear_arith)
            requires
                s.len() as int == 0,
        ;
    }
}

/// The Gini coefficient of a population where every agent holds the same
/// positive wealth is exactly zero.
pub proof fn lemma_gini_equal(s: Seq<i64>, w: i64)
    requires
        s.len() > 0,
        w > 0,
        forall|i: int| 0 <= i < s.len() ==> s[i] == w,
    ensures
        spec_gini(s) == 0,
{
    let n = s.len() as int;
    lemma_sum_const(s, w);
    lemma_weighted_sum_const(s, w);
    assert(spec_sum(s) == n * w);
    assert(n * w > 0) by (nonlinear_arith)
        requires
            n > 0,
            w > 0,
    ;
    let num = 2 * spec_weighted_sum(s) - (n + 1) * (n * w);
    assert(num == n * (n + 1) * w - (n + 1) * (n * w));
    assert(n * (n + 1) * w - (n + 1) * (n * w) == 0) by (nonlinear_arith);
    assert(num * SCALE as int == 0) by (nonlinear_arith)
        requires
            num == 0,
    ;
    assert(n * (n * w) > 0) by (nonlinear_arith)
        requires
            n > 0,
            w > 0,
    ;
    assert(spec_gini(s) == div_trunc(num * SCALE as int, n * (n * w)));
    assert(div_trunc(0, n * (n * w)) == 0);
}

/// The sum and weighted sum of a sequence of zeros ending in one holder.
proof fn lemma_sums_single_holder(s: Seq<i64>, w: i64)
    requires
        s.len() > 0,
        forall|i: int| 0 <= i < s.len() - 1 ==> s[i] == 0,
        s[s.len() - 1] == w,
    ensures
        spec_sum(s) == w,
        spec_weighted_sum(s) == s.len() * w,
{
    assert forall|i: int| 0 <= i < s.drop_last().len() implies s.drop_last()[i] == 0 by {
        assert(s.drop_last()[i] == s[i]);
    }
    lemma_sum_const(s.drop_last(), 0);
    lemma_weighted_sum_const(s.drop_last(), 0);
    assert(spec_sum(s.drop_last()) == (s.len() - 1) * 0);
    assert((s.len() - 1) * 0 == 0) by (nonlinear_arith);
    assert(s.drop_last().len() as int * (s.drop_last().len() as int + 1) * 0 == 0) by (nonlinear_arith);
}

/// The Gini coefficient of a population where one agent holds all the
/// wealth and the rest hold none is exactly `(n - 1) / n`, fixed-point:
/// it approaches one as the population grows.
pub proof fn lemma_gini_single_holder(s: Seq<i64>, w: i64)
    requires
        s.len() > 0,
        w > 0,
        forall|i: int| 0 <= i < s.len() - 1 ==> s[i] == 0,
        s[s.len() - 1] == w,
    ensures
        spec_gini(s) == div_trunc((s.len() - 1) * SCALE as int, s.len() as int),
{
    let n = s.len() as int;
    lemma_sums_single_holder(s, w);
    assert(spec_sum(s) == w);
    let num = 2 * spec_weighted_sum(s) - (n + 1) * w;
    assert(num == (n - 1) * w) by (nonlinear_arith)
        requires
            spec_weighted_sum(s) == n * w,
            num == 2 * spec_weighted_sum(s) - (n + 1) * w,
    ;
    let a = (n - 1) * SCALE as int;
    let q = a / n;
    let r = a % n;
    vstd::arithmetic::div_mod::lemma_fundamental_div_mod(a, n);
    assert(num * SCALE as int == q * (n * w) + r * w) by (nonlinear_arith)
        requires
            num == (n - 1) * w,
            a == (n - 1) * SCALE as int,
            a == q * n + r,
    ;
    assert(0 <= r * w < n * w) by (nonlinear_arith)
        requires
            0 <= r < n,
            w > 0,
    ;
    vstd::arithmetic::div_mod::lemma_fundamental_div_mod_converse(
        num * SCALE as int,
        n * w,
        q,
        r * w,
    );
    assert(num * SCALE as int >= 0) by (nonlinear_arith)
        requires
            num == (n - 1) * w,
            n >= 1,
            w > 0,
    ;
    assert(a >= 0) by (nonlinear_arith)
        requires
            n >= 1,
            a == (n - 1) * SCALE as int,
    ;
    assert(n * w > 0) by (nonlinear_arith)
        requires
            n > 0,
            w > 0,
    ;
    assert(spec_gini(s) == div_trunc(num * SCALE as int, n * w));
    assert(div_trunc(num * SCALE as int, n * w) == q);
    assert(div_trunc(a, n) == q);
}

/// The sum of non-negative values is non-negative.
proof fn lemma_sum_nonneg(s: Seq<i64>)
    requires
        forall|i: int| 0 <= i < s.len() ==> #[trigger] s[i] >= 0,
    ensures
        spec_sum(s) >= 0,
    decreases s.len(),
{
    if s.len() > 0 {
        assert forall|i: int| 0 <= i < s.drop_last().len() implies #[trigger] s.drop_last()[i]
            >= 0 by {
            assert(s.drop_last()[i] == s[i]);
        }
        lemma_sum_nonneg(s.drop_last());
    }
}

/// The sum of values each at most `m` is at most the length times `m`.
proof fn lemma_sum_le_len_times_max(s: Seq<i64>, m: i64)
    requires
        forall|i: int| 0 <= i < s.len() ==> #[trigger] s[i] <= m,
    ensures
        spec_sum(s) <= s.len() * m,
    decreases s.len(),
{
    if s.len() > 0 {
        assert forall|i: int| 0 <= i < s.drop_last().len() implies #[trigger] s.drop_last()[i]
            <= m by {
            assert(s.drop_last()[i] == s[i]);
        }
        lemma_sum_le_len_times_max(s.drop_last(), m);
        assert((s.len() - 1) * m + m == s.len() * m) by (nonlinear_arith);
    }
}

/// For non-negative values every rank is at most the length, so the
/// rank-weighted sum is at most the length times the plain sum.
proof fn lemma_weighted_sum_upper(s: Seq<i64>)
    requires
        forall|i: int| 0 <= i < s.len() ==> #[trigger] s[i] >= 0,
    ensures
        spec_weighted_sum(s) <= s.len() * spec_sum(s),
    decreases s.len(),
{
    if s.len() > 0 {
        let n = s.len() as int;
        assert forall|i: int| 0 <= i < s.drop_last().len() implies #[trigger] s.drop_last()[i]
            >= 0 by {
            assert(s.drop_last()[i] == s[i]);
        }
        lemma_weighted_sum_upper(s.drop_last());
        lemma_sum_nonneg(s.drop_last());
        let tp = spec_sum(s.drop_last());
        assert(spec_weighted_sum(s.drop_last()) <= (n - 1) * tp);
        assert(spec_weighted_sum(s) == spec_weighted_sum(s.drop_last()) + s.len() * s.last());
        assert(s.len() * s.last() == n * s.last()) by (nonlinear_arith)
            requires
                s.len() as int == n,
        ;
        assert((n - 1) * tp + n * s.last() <= n * (tp + s.last())) by (nonlinear_arith)
            requires
                tp >= 0,
        ;
        assert(s.len() * spec_sum(s) == n * (tp + s.last())) by (nonlinear_arith)
            requires
                s.len() as int == n,
                spec_sum(s) == tp + s.last(),
        ;
    }
}

/// For ascending values the rank-weighted sum is at least the average
/// rank times the plain sum.
proof fn lemma_weighted_sum_lower_sorted(s: Seq<i64>)
    requires
        forall|i: int, j: int| 0 <= i <= j < s.len() ==> s[i] <= s[j],
    ensures
        2 * spec_weighted_sum(s) >= (s.len() + 1) * spec_sum(s),
    decreases s.len(),
{
    if s.len() > 0 {
        let n = s.len() as int;
        assert forall|i: int, j: int|
            0 <= i <= j < s.drop_last().len() implies s.drop_last()[i] <= s.drop_last()[j] by {
            assert(s.drop_last()[i] == s[i]);
            assert(s.drop_last()[j] == s[j]);
        }
        lemma_weighted_sum_lower_sorted(s.drop_last());
        assert forall|i: int| 0 <= i < s.drop_last().len() implies #[trigger] s.drop_last()[i]
            <= s.last() by {
            assert(s.drop_last()[i] == s[i]);
            assert(s[i] <= s[s.len() - 1]);
        }
        lemma_sum_le_len_times_max(s.drop_last(), s.last());
        let tp = spec_sum(s.drop_last());
        let wp = spec_weighted_sum(s.drop_last());
        assert(2 * wp >= n * tp) by (nonlinear_arith)
            requires
                2 * wp >= (s.drop_last().len() as int + 1) * tp,
                s.drop_last().len() as int == n - 1,
        ;
        assert(tp <= (n - 1) * s.last()) by (nonlinear_arith)
            requires
                tp <= s.drop_last().len() * s.last(),
                s.drop_last().len() as int == n - 1,
        ;
        assert(spec_weighted_sum(s) == wp + s.len() * s.last());
        assert(s.len() * s.last() == n * s.last()) by (nonlinear_arith)
            requires
                s.len() as int == n,
        ;
        assert(n * tp + 2 * (n * s.last()) >= (n + 1) * (tp + s.last())) by (nonlinear_arith)
            requires
                tp <= (n - 1) * s.last(),
        ;
        assert((s.len() + 1) * spec_sum(s) == (n + 1) * (tp + s.last())) by (nonlinear_arith)
            requires
                s.len() as int == n,
                spec_sum(s) == tp + s.last(),
        ;
    }
}

/// The Gini coefficient of a sorted population of non-negative values
/// lies between zero and `(n - 1) / n`, fixed-point.
pub proof fn lemma_gini_range(s: Seq<i64>)
    requires
        s.len() > 0,
        forall|i: int| 0 <= i < s.len() ==> #[trigger] s[i] >= 0,
        forall|i: int, j: int| 0 <= i <= j < s.len() ==> s[i] <= s[j],
    ensures
        0 <= spec_gini(s) <= div_trunc((s.len() - 1) * SCALE as int, s.len() as int),
{
    let n = s.len() as int;
    let total = spec_sum(s);
    lemma_sum_nonneg(s);
    assert(((n - 1) * SCALE as int) / n >= 0) by (nonlinear_arith)
        requires
            n >= 1,
            SCALE as int > 0,
    ;
    if total > 0 {
        let w = spec_weighted_sum(s);
        let num = 2 * w - (n + 1) * total;
        lemma_weighted_sum_lower_sorted(s);
        assert(2 * w >= (n + 1) * total) by (nonlinear_arith)
            requires
                2 * w >= (s.len() + 1) * total,
                s.len() as int == n,
        ;
        lemma_weighted_sum_upper(s);
        assert(num <= (n - 1) * total) by (nonlinear_arith)
            requires
                w <= s.len() * total,
                s.len() as int == n,
                num == 2 * w - (n + 1) * total,
        ;
        assert(n * total > 0) by (nonlinear_arith)
            requires
                n >= 1,
                total > 0,
        ;
        assert(num * SCALE as int >= 0) by (nonlinear_arith)
            requires
                num >= 0,
                SCALE as int > 0,
        ;
        assert(spec_gini(s) == (num * SCALE as int) / (n * total));
        assert((num * SCALE as int) / (n * total) >= 0) by (nonlinear_arith)
            requires
                num * SCALE as int >= 0,
                n * total > 0,
        ;
        let a = (n - 1) * SCALE as int;
        let q = a / n;
        let r = a % n;
        vstd::arithmetic::div_mod::lemma_fundamental_div_mod(a, n);
        assert(a * total == q * (n * total) + r * total) by (nonlinear_arith)
            requires
                a == q * n + r,
        ;
        assert(0 <= r * total < n * total) by (nonlinear_arith)
            requires
                0 <= r < n,
                total > 0,
        ;
        assert(a * total >= 0) by (nonlinear_arith)
            requires
                a >= 0,
                total > 0,
        ;
        vstd::arithmetic::div_mod::lemma_fundamental_div_mod_converse(
            a * total,
            n * total,
            q,
            r * total,
        );
        assert((a * total) / (n * total) == q);
        assert(num * SCALE as int <= a * total) by (nonlinear_arith)
            requires
                num <= (n - 1) * total,
                SCALE as int > 0,
                a == (n - 1) * SCALE as int,
        ;
        assert((num * SCALE as int) / (n * total) <= (a * total) / (n * total))
            by (nonlinear_arith)
            requires
                num * SCALE as int <= a * total,
                n * total > 0,
                num * SCALE as int >= 0,
        ;
    }
}

/// Sorts the values ascending, by repeated extraction of the minimum:
/// the result is the unique sorted reordering of the input.
pub fn sort_i64(v: &mut Vec<i64>)
    ensures
        final(v)@ == old(v)@.sort_by(i64_le()),
        final(v)@.len() == old(v)@.len(),
        sorted_by(final(v)@, i64_le()),
{
    proof {
        broadcast use vstd::seq_lib::group_to_multiset_ensures;

        assert(total_ordering(i64_le()));
    }
    let mut out: Vec<i64> = Vec::new();
    while v.len() > 0
        invariant
            out@.len() + v@.len() == old(v)@.len(),
            out@.to_multiset().add(v@.to_multiset()) =~= old(v)@.to_multiset(),
            sorted_by(out@, i64_le()),
            forall|i: int, j: int|
                0 <= i < out@.len() && 0 <= j < v@.len() ==> out@[i] <= v@[j],
        decreases v@.len(),
    {
        let n = v.len();
        let mut midx: usize = 0;
        let mut k: usize = 1;
        while k < n
            invariant
                0 <= midx < k <= n,
                n == v@.len(),
                forall|j: int| 0 <= j < k ==> v@[midx as int] <= v@[j],
            decreases n - k,
        {
            if v[k] < v[midx] {
                midx = k;
            }
            k = k + 1;
        }
        let ghost pre = v@;
        let ghost pre_out = out@;
        let x = v.remove(midx);
        out.push(x);
        proof {
            broadcast use vstd::seq_lib::group_to_multiset_ensures;

            assert(pre.remove(midx as int).to_multiset() =~= pre.to_multiset().remove(x));
            assert(pre_out.push(x).to_multiset() =~= pre_out.to_multiset().insert(x));
            assert(pre.to_multiset().contains(x));
            assert(out@.to_multiset().add(v@.to_multiset()) =~= old(v)@.to_multiset());
            assert forall|i: int, j: int|
                0 <= i < out@.len() && 0 <= j < v@.len() implies out@[i] <= v@[j] by {
                if i < out@.len() - 1 {
                    assert(pre_out[i] <= pre[j + (if j >= midx { 1int } else { 0int })]);
                }
                if j < midx {
                    assert(v@[j] == pre[j]);
                } else {
                    assert(v@[j] == pre[j + 1]);
                }
            }
        }
    }
    proof {
        broadcast use vstd::seq_lib::group_to_multiset_ensures;

        old(v)@.lemma_sort_by_ensures(i64_le());
        assert(out@.to_multiset() =~= old(v)@.to_multiset());
        assert(out@.to_multiset() =~= old(v)@.sort_by(i64_le()).to_multiset());
        lemma_sorted_unique(out@, old(v)@.sort_by(i64_le()), i64_le());
    }
    *v = out;
}

/// Computes the Gini coefficient, fixed-point: the spec value of the
/// rank-sum formula, clamped into the representable range.
pub fn gini(wealths: &Vec<i64>) -> (g: i64)
    requires
        wealths@.len() <= MAX_AGENTS,
        forall|i: int|
            0 <= i < wealths@.len() ==> -STAT_LIMIT <= #[trigger] wealths@[i] <= STAT_LIMIT,
    ensures
        g as int == spec_saturate(spec_gini(wealths@)),
{
    let n = wealths.len();
    let mut sum: i128 = 0;
    let mut wsum: i128 = 0;
    let mut i: usize = 0;
    while i < n
        invariant
            0 <= i <= n,
            n == wealths@.len(),
            n <= MAX_AGENTS,
            forall|j: int|
                0 <= j < wealths@.len() ==> -STAT_LIMIT <= #[trigger] wealths@[j] <= STAT_LIMIT,
            sum == spec_sum(wealths@.take(i as int)),
            wsum == spec_weighted_sum(wealths@.take(i as int)),
            -(i as int * STAT_LIMIT as int) <= sum <= i as int * STAT_LIMIT as int,
            -(i as int * (n as int) * STAT_LIMIT as int) <= wsum <= i as int * (n as int)
                * STAT_LIMIT as int,
        decreases n - i,
    {
        let x = wealths[i];
        proof {
            assert(wealths@.take(i + 1).drop_last() =~= wealths@.take(i as int));
            assert(wealths@.take(i + 1).last() == wealths@[i as int]);
            lemma_abs_mul_le(i as int + 1, x as int, n as int, STAT_LIMIT as int);
            assert((i as int + 1) * STAT_LIMIT as int == i as int * STAT_LIMIT as int
                + STAT_LIMIT as int) by (nonlinear_arith);
            assert((i as int + 1) * (n as int) * STAT_LIMIT as int == i as int * (n as int)
                * STAT_LIMIT as int + (n as int) * STAT_LIMIT as int) by (nonlinear_arith);
            assert((wealths@.take(i + 1).len() as int) * (wealths@.take(i + 1).last() as int) == (
            i as int + 1) * (x as int)) by (nonlinear_arith)
                requires
                    wealths@.take(i + 1).len() as int == i as int + 1,
                    wealths@.take(i + 1).last() == x,
            ;
            assert(0 <= i as int * STAT_LIMIT as int
                <= 100_000_000_000_000_000_000_000 && 0 <= i as int * (n as int)
                * STAT_LIMIT as int <= 10_000_000_000_000_000_000_000_000_000_000 && 0 <= (
            n as int) * STAT_LIMIT as int <= 100_000_000_000_000_000_000_000)
                by (nonlinear_arith)
                requires
                    0 <= i as int <= 100_000_000,
                    0 <= n as int <= 100_000_000,
                    STAT_LIMIT as int == 1_000_000_000_000_000,
            ;
        }
        sum = sum + (x as i128);
        wsum = wsum + ((i as i128) + 1) * (x as i128);
        i = i + 1;
    }
    proof {
        assert(wealths@.take(n as int) =~= wealths@);
    }
    if n == 0 || sum <= 0 {
        return 0;
    }
    let n128 = n as i128;
    proof {
        assert(0 <= n as int * STAT_LIMIT as int <= 100_000_000_000_000_000_000_000 && 0
            <= n as int * (n as int) * STAT_LIMIT as int
            <= 10_000_000_000_000_000_000_000_000_000_000) by (nonlinear_arith)
            requires
                0 < n as int <= 100_000_000,
                STAT_LIMIT as int == 1_000_000_000_000_000,
        ;
        lemma_abs_mul_le(
            n as int + 1,
            sum as int,
            100_000_001,
            100_000_000_000_000_000_000_000,
        );
        lemma_abs_mul_le(n as int, sum as int, 100_000_000, 100_000_000_000_000_000_000_000);
        assert(n as int * sum as int > 0) by (nonlinear_arith)
            requires
                n as int > 0,
                sum as int > 0,
        ;
    }
    let num: i128 = 2 * wsum - (n128 + 1) * sum;
    let denom: i128 = n128 * sum;
    proof {
        lemma_abs_mul_le(
            num as int,
            SCALE as int,
            200_000_000_000_000_000_000_000_000_000_000,
            SCALE as int,
        );
    }
    let scaled: i128 = num * (SCALE as i128);
    let gq: i128 = if scaled >= 0 {
        ((scaled as u128) / (denom as u128)) as i128
    } else {
        let mag = ((-scaled) as u128) / (denom as u128);
        -(mag as i128)
    };
    proof {
        if scaled >= 0 {
            assert(scaled as int / denom as int <= scaled as int) by (nonlinear_arith)
                requires
                    scaled as int >= 0,
                    denom as int >= 1,
            ;
        } else {
            assert((-(scaled as int)) / denom as int <= -(scaled as int)) by (nonlinear_arith)
                requires
                    -(scaled as int) >= 0,
                    denom as int >= 1,
            ;
        }
        assert(gq as int == div_trunc(scaled as int, denom as int));
    }
    if gq > i64::MAX as i128 {
        i64::MAX
    } else if gq < -(i64::MAX as i128) {
        -i64::MAX
    } else {
        gq as i64
    }
}

/// The percentile value of a sorted non-empty sequence, with the
/// percentile given in hundredths.
pub fn percentile(v: &Vec<i64>, hundredths: usize) -> (r: i64)
    requires
        0 < v@.len() <= MAX_AGENTS,
        hundredths <= 100,
    ensures
        r == v@[spec_percentile_index(hundredths as int, v@.len() as int)],
{
    let n = v.len();
    proof {
        assert(0 <= hundredths as int * n as int <= 10_000_000_000) by (nonlinear_arith)
            requires
                0 <= hundredths as int <= 100,
                0 < n as int <= 100_000_000,
        ;
        assert((hundredths as int * n as int) / 100 <= n as int) by (nonlinear_arith)
            requires
                0 <= hundredths as int <= 100,
                0 < n as int,
        ;
    }
    let raw: u64 = ((hundredths as u64) * (n as u64)) / 100;
    let idx: usize = raw as usize;
    let idx = if idx >= n {
        n - 1
    } else {
        idx
    };
    v[idx]
}

/// The saturated sum of a sequence of values.
pub fn total_saturated(v: &Vec<i64>) -> (r: i64)
    requires
        v@.len() <= MAX_AGENTS,
        forall|i: int| 0 <= i < v@.len() ==> -STAT_LIMIT <= #[trigger] v@[i] <= STAT_LIMIT,
    ensures
        r as int == spec_saturate(spec_sum(v@)),
{
    let n = v.len();
    let mut sum: i128 = 0;
    let mut i: usize = 0;
    while i < n
        invariant
            0 <= i <= n,
            n == v@.len(),
            n <= MAX_AGENTS,
            forall|j: int| 0 <= j < v@.len() ==> -STAT_LIMIT <= #[trigger] v@[j] <= STAT_LIMIT,
            sum == spec_sum(v@.take(i as int)),
            -(i as int * STAT_LIMIT as int) <= sum <= i as int * STAT_LIMIT as int,
        decreases n - i,
    {
        let x = v[i];
        proof {
            assert(v@.take(i + 1).drop_last() =~= v@.take(i as int));
            assert(v@.take(i + 1).last() == v@[i as int]);
            assert((i as int + 1) * STAT_LIMIT as int == i as int * STAT_LIMIT as int
                + STAT_LIMIT as int) by (nonlinear_arith);
            assert(0 <= i as int * STAT_LIMIT as int <= 100_000_000_000_000_000_000_000)
                by (nonlinear_arith)
                requires
                    0 <= i as int <= 100_000_000,
                    STAT_LIMIT as int == 1_000_000_000_000_000,
            ;
        }
        sum = sum + (x as i128);
        i = i + 1;
    }
    proof {
        assert(v@.take(n as int) =~= v@);
        assert(0 <= n as int * STAT_LIMIT as int <= 100_000_000_000_000_000_000_000)
            by (nonlinear_arith)
            requires
                0 <= n as int <= 100_000_000,
                STAT_LIMIT as int == 1_000_000_000_000_000,
        ;
    }
    if sum > i64::MAX as i128 {
        i64::MAX
    } else if sum < -(i64::MAX as i128) {
        -i64::MAX
    } else {
        sum as i64
    }
}

/// The truncated mean of a non-empty sequence of values.
pub fn mean_trunc(v: &Vec<i64>) -> (r: i64)
    requires
        0 < v@.len() <= MAX_AGENTS,
        forall|i: int| 0 <= i < v@.len() ==> -STAT_LIMIT <= #[trigger] v@[i] <= STAT_LIMIT,
    ensures
        r == div_trunc(spec_sum(v@), v@.len() as int),
        -STAT_LIMIT <= r <= STAT_LIMIT,
{
    let n = v.len();
    let mut sum: i128 = 0;
    let mut i: usize = 0;
    while i < n
        invariant
            0 <= i <= n,
            n == v@.len(),
            n <= MAX_AGENTS,
            forall|j: int| 0 <= j < v@.len() ==> -STAT_LIMIT <= #[trigger] v@[j] <= STAT_LIMIT,
            sum == spec_sum(v@.take(i as int)),
            -(i as int * STAT_LIMIT as int) <= sum <= i as int * STAT_LIMIT as int,
        decreases n - i,
    {
        let x = v[i];
        proof {
            assert(v@.take(i + 1).drop_last() =~= v@.take(i as int));
            assert(v@.take(i + 1).last() == v@[i as int]);
            assert((i as int + 1) * STAT_LIMIT as int == i as int * STAT_LIMIT as int
                + STAT_LIMIT as int) by (nonlinear_arith);
            assert(0 <= i as int * STAT_LIMIT as int <= 100_000_000_000_000_000_000_000)
                by (nonlinear_arith)
                requires
                    0 <= i as int <= 100_000_000,
                    STAT_LIMIT as int == 1_000_000_000_000_000,
            ;
        }
        sum = sum + (x as i128);
        i = i + 1;
    }
    proof {
        assert(v@.take(n as int) =~= v@);
        assert(0 <= n as int * STAT_LIMIT as int <= 100_000_000_000_000_000_000_000)
            by (nonlinear_arith)
            requires
                0 <= n as int <= 100_000_000,
                STAT_LIMIT as int == 1_000_000_000_000_000,
        ;
    }
    let q: i128 = if sum >= 0 {
        ((sum as u128) / (n as u128)) as i128
    } else {
        let mag = ((-sum) as u128) / (n as u128);
        -(mag as i128)
    };
    proof {
        if sum >= 0 {
            assert(sum as int / n as int <= STAT_LIMIT as int) by (nonlinear_arith)
                requires
                    0 <= sum as int <= n as int * STAT_LIMIT as int,
                    n as int >= 1,
                    STAT_LIMIT as int >= 0,
            ;
            assert(sum as int / n as int >= 0) by (nonlinear_arith)
                requires
                    sum as int >= 0,
                    n as int >= 1,
            ;
        } else {
            assert((-(sum as int)) / n as int <= STAT_LIMIT as int) by (nonlinear_arith)
                requires
                    0 <= -(sum as int) <= n as int * STAT_LIMIT as int,
                    n as int >= 1,
                    STAT_LIMIT as int >= 0,
            ;
            assert((-(sum as int)) / n as int >= 0) by (nonlinear_arith)
                requires
                    -(sum as int) >= 0,
                    n as int >= 1,
            ;
        }
        assert(q as int == div_trunc(sum as int, n as int));
    }
    q as i64
}

/// One row of the metrics log: the Gini coefficient, the wealth extremes
/// and percentiles, the total wealth, the count of living adults, and
/// the education mean, extremes and percentiles, all over the living
/// agents.
#[derive(Clone, Copy, Debug, PartialEq, Eq, Structural)]
pub struct MetricsRow {
    pub iteration: usize,
    pub gini: i64,
    pub min: i64,
    pub p10: i64,
    pub p25: i64,
    pub p50: i64,
    pub p75: i64,
    pub p90: i64,
    pub max: i64,
    pub total_wealth: i64,
    pub adult_agents: usize,
    pub edu_mean: i64,
    pub edu_min: i64,
    pub edu_p10: i64,
    pub edu_p25: i64,
    pub edu_p50: i64,
    pub edu_p75: i64,
    pub edu_p90: i64,
    pub edu_max: i64,
}

/// The row a population's statistics produce, over the sorted living
/// wealths and educations.
pub open spec fn spec_row(iteration: usize, s: Seq<Agent>) -> MetricsRow {
    let ws = spec_living_wealths(s).sort_by(i64_le());
    let es = spec_living_educations(s).sort_by(i64_le());
    let n = ws.len() as int;
    MetricsRow {
        iteration,
        gini: spec_saturate(spec_gini(ws)) as i64,
        min: ws[0],
        p10: ws[spec_percentile_index(10, n)],
        p25: ws[spec_percentile_index(25, n)],
        p50: ws[spec_percentile_index(50, n)],
        p75: ws[spec_percentile_index(75, n)],
        p90: ws[spec_percentile_index(90, n)],
        max: ws[n - 1],
        total_wealth: spec_saturate(spec_sum(ws)) as i64,
        adult_agents: spec_adult_count(s) as usize,
        edu_mean: div_trunc(spec_sum(es), n) as i64,
        edu_min: es[0],
        edu_p10: es[spec_percentile_index(10, n)],
        edu_p25: es[spec_percentile_index(25, n)],
        edu_p50: es[spec_percentile_index(50, n)],
        edu_p75: es[spec_percentile_index(75, n)],
        edu_p90: es[spec_percentile_index(90, n)],
        edu_max: es[n - 1],
    }
}

/// Whether the population is within the statistics caps.
pub open spec fn spec_stats_ok(s: Seq<Agent>) -> bool {
    &&& spec_living_wealths(s).len() <= MAX_AGENTS
    &&& forall|i: int|
        0 <= i < spec_living_wealths(s).len() ==> -STAT_LIMIT <= #[trigger] spec_living_wealths(
            s,
        )[i] <= STAT_LIMIT
    &&& forall|i: int|
        0 <= i < spec_living_educations(s).len() ==> -STAT_LIMIT
            <= #[trigger] spec_living_educations(s)[i] <= STAT_LIMIT
}

/// What appending one agent does to the living-value sequences and the
/// adult count.
proof fn lemma_living_push(s: Seq<Agent>, a: Agent)
    ensures
        spec_living_wealths(s.push(a)) == if a.alive {
            spec_living_wealths(s).push(a.wealth)
        } else {
            spec_living_wealths(s)
        },
        spec_living_educations(s.push(a)) == if a.alive {
            spec_living_educations(s).push(a.education)
        } else {
            spec_living_educations(s)
        },
        spec_adult_count(s.push(a)) == if a.alive && a.age >= ADULT_AGE {
            spec_adult_count(s) + 1
        } else {
            spec_adult_count(s)
        },
{
    crate::environment::lemma_filter_push(s, a, alive_pred());
    crate::environment::lemma_filter_push(s, a, adult_pred());
    if a.alive {
        assert(s.filter(alive_pred()).push(a).map_values(wealth_of()) =~= s.filter(
            alive_pred(),
        ).map_values(wealth_of()).push(a.wealth));
        assert(s.filter(alive_pred()).push(a).map_values(education_of()) =~= s.filter(
            alive_pred(),
        ).map_values(education_of()).push(a.education));
    }
}

/// Computes one metrics row over the living agents; none when there are
/// no living agents or a value is beyond the statistics caps.
pub fn compute_row(iteration: usize, agents: &Vec<Agent>) -> (r: Option<MetricsRow>)
    ensures
        r is Some <==> (spec_living_wealths(agents@).len() > 0 && spec_stats_ok(agents@)),
        r matches Some(row) ==> row == spec_row(iteration, agents@),
        r matches Some(row) ==> row.gini > i64::MIN && row.min > i64::MIN && row.p10 > i64::MIN && row.p25 > i64::MIN && row.p50 > i64::MIN && row.p75 > i64::MIN && row.p90 > i64::MIN && row.max > i64::MIN && row.total_wealth > i64::MIN && row.edu_mean > i64::MIN && row.edu_min > i64::MIN && row.edu_p10 > i64::MIN && row.edu_p25 > i64::MIN && row.edu_p50 > i64::MIN && row.edu_p75 > i64::MIN && row.edu_p90 > i64::MIN && row.edu_max > i64::MIN,
{
    let n = agents.len();
    let mut wealths: Vec<i64> = Vec::new();
    let mut edus: Vec<i64> = Vec::new();
    let mut adults: usize = 0;
    let mut i: usize = 0;
    while i < n
        invariant
            0 <= i <= n,
            n == agents@.len(),
            wealths@ == spec_living_wealths(agents@.take(i as int)),
            edus@ == spec_living_educations(agents@.take(i as int)),
            adults as int == spec_adult_count(agents@.take(i as int)),
            wealths@.len() <= i,
            edus@.len() == wealths@.len(),
            adults <= i,
        decreases n - i,
    {
        proof {
            assert(agents@.take(i + 1) =~= agents@.take(i as int).push(agents@[i as int]));
            lemma_living_push(agents@.take(i as int), agents@[i as int]);
        }
        let a = &agents[i];
        if a.alive {
            wealths.push(a.wealth);
            edus.push(a.education);
            if a.age >= ADULT_AGE {
                adults = adults + 1;
            }
        }
        i = i + 1;
    }
    proof {
        assert(agents@.take(n as int) =~= agents@);
    }
    let m = wealths.len();
    if m == 0 || m > MAX_AGENTS {
        return None;
    }
    let mut within = true;
    let mut k: usize = 0;
    while k < m
        invariant
            0 <= k <= m,
            m == wealths@.len(),
            m == edus@.len(),
            within == ((forall|j: int|
                0 <= j < k ==> -STAT_LIMIT <= #[trigger] wealths@[j] <= STAT_LIMIT) && (
            forall|j: int| 0 <= j < k ==> -STAT_LIMIT <= #[trigger] edus@[j] <= STAT_LIMIT)),
        decreases m - k,
    {
        let w = wealths[k];
        let e = edus[k];
        if w < -STAT_LIMIT || w > STAT_LIMIT || e < -STAT_LIMIT || e > STAT_LIMIT {
            within = false;
        }
        k = k + 1;
    }
    if !within {
        return None;
    }
    let ghost pre_w = wealths@;
    let ghost pre_e = edus@;
    sort_i64(&mut wealths);
    sort_i64(&mut edus);
    proof {
        pre_w.lemma_sort_by_ensures(i64_le());
        pre_e.lemma_sort_by_ensures(i64_le());
        assert(total_ordering(i64_le()));
        assert forall|j: int|
            0 <= j < wealths@.len() implies -STAT_LIMIT <= #[trigger] wealths@[j]
            <= STAT_LIMIT by {
            assert(wealths@.contains(wealths@[j]));
            assert(pre_w.contains(wealths@[j]));
            let src = choose|t: int| 0 <= t < pre_w.len() && pre_w[t] == wealths@[j];
        }
        assert forall|j: int|
            0 <= j < edus@.len() implies -STAT_LIMIT <= #[trigger] edus@[j] <= STAT_LIMIT by {
            assert(edus@.contains(edus@[j]));
            assert(pre_e.contains(edus@[j]));
            let src = choose|t: int| 0 <= t < pre_e.len() && pre_e[t] == edus@[j];
        }
    }
    let g = gini(&wealths);
    let total = total_saturated(&wealths);
    let edu_mean = mean_trunc(&edus);
    let row = MetricsRow {
        iteration,
        gini: g,
        min: wealths[0],
        p10: percentile(&wealths, 10),
        p25: percentile(&wealths, 25),
        p50: percentile(&wealths, 50),
        p75: percentile(&wealths, 75),
        p90: percentile(&wealths, 90),
        max: wealths[m - 1],
        total_wealth: total,
        adult_agents: adults,
        edu_mean,
        edu_min: edus[0],
        edu_p10: percentile(&edus, 10),
        edu_p25: percentile(&edus, 25),
        edu_p50: percentile(&edus, 50),
        edu_p75: percentile(&edus, 75),
        edu_p90: percentile(&edus, 90),
        edu_max: edus[m - 1],
    };
    Some(row)
}

/// The `head` stretch of a rendered row.
pub open spec fn spec_row_head(row: MetricsRow) -> Seq<u8> {
    (spec_digits(row.iteration as nat) + seq![44u8]) + (spec_dec(row.gini as int) + seq![44u8]) + (spec_dec(row.min as int) + seq![44u8]) + (spec_dec(row.p10 as int) + seq![44u8])
}

/// The `mid` stretch of a rendered row.
pub open spec fn spec_row_mid(row: MetricsRow) -> Seq<u8> {
    (spec_dec(row.p25 as int) + seq![44u8]) + (spec_dec(row.p50 as int) + seq![44u8]) + (spec_dec(row.p75 as int) + seq![44u8]) + (spec_dec(row.p90 as int) + seq![44u8])
}

/// The `counts` stretch of a rendered row.
pub open spec fn spec_row_counts(row: MetricsRow) -> Seq<u8> {
    (spec_dec(row.max as int) + seq![44u8]) + (spec_dec(row.total_wealth as int) + seq![44u8]) + (spec_digits(row.adult_agents as nat) + seq![44u8]) + (spec_dec(row.edu_mean as int) + seq![44u8])
}

/// The `edu_low` stretch of a rendered row.
pub open spec fn spec_row_edu_low(row: MetricsRow) -> Seq<u8> {
    (spec_dec(row.edu_min as int) + seq![44u8]) + (spec_dec(row.edu_p10 as int) + seq![44u8]) + (spec_dec(row.edu_p25 as int) + seq![44u8]) + (spec_dec(row.edu_p50 as int) + seq![44u8])
}

/// The `edu_high` stretch of a rendered row.
pub open spec fn spec_row_edu_high(row: MetricsRow) -> Seq<u8> {
    (spec_dec(row.edu_p75 as int) + seq![44u8]) + (spec_dec(row.edu_p90 as int) + seq![44u8]) + (spec_dec(row.edu_max as int) + seq![10u8])
}

/// One rendered comma-separated row, closed by a line break.
pub open spec fn spec_render_row(row: MetricsRow) -> Seq<u8> {
    spec_row_head(row) + spec_row_mid(row) + spec_row_counts(row) + spec_row_edu_low(row)
        + spec_row_edu_high(row)
}

fn push_row_head(row: &MetricsRow, out: &mut Vec<u8>)
    requires
        row.gini > i64::MIN,
        row.min > i64::MIN,
        row.p10 > i64::MIN,
    ensures
        final(out)@ == old(out)@ + spec_row_head(*row),
{
    push_digits(row.iteration as u64, out);
    out.push(44);
    push_dec(row.gini, out);
    out.push(44);
    push_dec(row.min, out);
    out.push(44);
    push_dec(row.p10, out);
    out.push(44);
    proof {
        assert(final(out)@ =~= old(out)@ + spec_row_head(*row));
    }
}

fn push_row_mid(row: &MetricsRow, out: &mut Vec<u8>)
    requires
        row.p25 > i64::MIN,
        row.p50 > i64::MIN,
        row.p75 > i64::MIN,
        row.p90 > i64::MIN,
    ensures
        final(out)@ == old(out)@ + spec_row_mid(*row),
{
    push_dec(row.p25, out);
    out.push(44);
    push_dec(row.p50, out);
    out.push(44);
    push_dec(row.p75, out);
    out.push(44);
    push_dec(row.p90, out);
    out.push(44);
    proof {
        assert(final(out)@ =~= old(out)@ + spec_row_mid(*row));
    }
}

fn push_row_counts(row: &MetricsRow, out: &mut Vec<u8>)
    requires
        row.max > i64::MIN,
        row.total_wealth > i64::MIN,
        row.edu_mean > i64::MIN,
    ensures
        final(out)@ == old(out)@ + spec_row_counts(*row),
{
    push_dec(row.max, out);
    out.push(44);
    push_dec(row.total_wealth, out);
    out.push(44);
    push_digits(row.adult_agents as u64, out);
    out.push(44);
    push_dec(row.edu_mean, out);
    out.push(44);
    proof {
        assert(final(out)@ =~= old(out)@ + spec_row_counts(*row));
    }
}

fn push_row_edu_low(row: &MetricsRow, out: &mut Vec<u8>)
    requires
        row.edu_min > i64::MIN,
        row.edu_p10 > i64::MIN,
        row.edu_p25 > i64::MIN,
        row.edu_p50 > i64::MIN,
    ensures
        final(out)@ == old(out)@ + spec_row_edu_low(*row),
{
    push_dec(row.edu_min, out);
    out.push(44);
    push_dec(row.edu_p10, out);
    out.push(44);
    push_dec(row.edu_p25, out);
    out.push(44);
    push_dec(row.edu_p50, out);
    out.push(44);
    proof {
        assert(final(out)@ =~= old(out)@ + spec_row_edu_low(*row));
    }
}

fn push_row_edu_high(row: &MetricsRow, out: &mut Vec<u8>)
    requires
        row.edu_p75 > i64::MIN,
        row.edu_p90 > i64::MIN,
        row.edu_max > i64::MIN,
    ensures
        final(out)@ == old(out)@ + spec_row_edu_high(*row),
{
    push_dec(row.edu_p75, out);
    out.push(44);
    push_dec(row.edu_p90, out);
    out.push(44);
    push_dec(row.edu_max, out);
    out.push(10);
    proof {
        assert(final(out)@ =~= old(out)@ + spec_row_edu_high(*row));
    }
}

/// Renders one row as its comma-separated line.
pub fn render_row(row: &MetricsRow) -> (r: Vec<u8>)
    requires
        row.gini > i64::MIN,
        row.min > i64::MIN,
        row.p10 > i64::MIN,
        row.p25 > i64::MIN,
        row.p50 > i64::MIN,
        row.p75 > i64::MIN,
        row.p90 > i64::MIN,
        row.max > i64::MIN,
        row.total_wealth > i64::MIN,
        row.edu_mean > i64::MIN,
        row.edu_min > i64::MIN,
        row.edu_p10 > i64::MIN,
        row.edu_p25 > i64::MIN,
        row.edu_p50 > i64::MIN,
        row.edu_p75 > i64::MIN,
        row.edu_p90 > i64::MIN,
        row.edu_max > i64::MIN,
    ensures
        r@ == spec_render_row(*row),
{
    let mut out: Vec<u8> = Vec::new();
    push_row_head(row, &mut out);
    push_row_mid(row, &mut out);
    push_row_counts(row, &mut out);
    push_row_edu_low(row, &mut out);
    push_row_edu_high(row, &mut out);
    proof {
        assert(out@ =~= spec_render_row(*row));
    }
    out
}

/// The header line naming the columns of the log.
pub open spec fn spec_header() -> Seq<u8> {
    ("iteration,gini,min,p10,p25,p50,p75,p90,max,total_wealth,adult_agents,edu_mean,edu_min,edu_p10,edu_p25,edu_p50,edu_p75,edu_p90,edu_max").spec_bytes()
}

/// The metrics logger: remembers the path of the log it writes for and
/// builds its header and one row per completed step; appending them to
/// the file is the caller's business.
pub struct Metrics {
    pub file_path: String,
}

impl Metrics {
    pub fn new(file_path: &str) -> (m: Metrics)
        ensures
            m.file_path@ == file_path@,
    {
        Metrics { file_path: file_path.to_owned() }
    }

    /// The header line naming the columns.
    pub fn header(&self) -> (r: Vec<u8>)
        ensures
            r@ == spec_header(),
    {
        let text = "iteration,gini,min,p10,p25,p50,p75,p90,max,total_wealth,adult_agents,edu_mean,edu_min,edu_p10,edu_p25,edu_p50,edu_p75,edu_p90,edu_max";
        let bytes = text.as_bytes();
        let m = bytes.len();
        let mut out: Vec<u8> = Vec::new();
        let mut i: usize = 0;
        while i < m
            invariant
                0 <= i <= m,
                m == bytes@.len(),
                bytes@ == text.spec_bytes(),
                out@ == bytes@.take(i as int),
            decreases m - i,
        {
            out.push(bytes[i]);
            proof {
                assert(out@ =~= bytes@.take(i + 1));
            }
            i = i + 1;
        }
        proof {
            assert(bytes@.take(m as int) =~= bytes@);
        }
        out
    }

    /// One rendered row over the living agents after a completed step;
    /// none when no agent is alive or a value is beyond the statistics
    /// caps.
    pub fn log(&self, iteration: usize, agents: &Vec<Agent>) -> (r: Option<Vec<u8>>)
        ensures
            r is Some <==> (spec_living_wealths(agents@).len() > 0 && spec_stats_ok(agents@)),
            r matches Some(bytes) ==> bytes@ == spec_render_row(spec_row(iteration, agents@)),
    {
        match compute_row(iteration, agents) {
            Some(row) => Some(render_row(&row)),
            None => None,
        }
    }
}

} // verus!
