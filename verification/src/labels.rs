//! Labels and their rescaling over a batch.
//!
//! A label is an exact fraction. A raw label is a whole number of
//! centipawn-like units; min-max rescaling maps a batch onto `[0, COEF_NORM]`
//! and gives every label the batch's spread as its denominator.

use vstd::prelude::*;

verus! {

/// The scale of min-max rescaling: the greatest label of a batch becomes
/// `COEF_NORM`, the least becomes zero.
pub const COEF_NORM: i64 = 10;

/// What a label above the upper bound is set to, before scaling: just below
/// one, as `SATURATED_NUMERATOR / SATURATED_DENOMINATOR`.
pub const SATURATED_NUMERATOR: i64 = 9999;

pub const SATURATED_DENOMINATOR: i64 = 10000;

/// An exact fraction. It is well formed where the denominator is positive.
#[derive(Clone, Copy, Debug, PartialEq, Eq, Structural)]
pub struct Fraction {
    pub numerator: i64,
    pub denominator: i64,
}

impl Fraction {
    /// The denominator is positive.
    pub open spec fn wf(self) -> bool {
        self.denominator > 0
    }

    /// Numerator and denominator as mathematical integers.
    pub open spec fn parts(self) -> (int, int) {
        (self.numerator as int, self.denominator as int)
    }

    /// The fraction of a whole number.
    pub fn whole(value: i64) -> (label: Fraction)
        ensures
            label.parts() == (value as int, 1int),
            label.wf(),
    {
        Fraction { numerator: value, denominator: 1 }
    }
}

/// Two fractions with positive denominators that stand for the same number.
pub open spec fn same_value(a: (int, int), b: (int, int)) -> bool {
    a.0 * b.1 == b.0 * a.1
}

/// The values of a vector of `i32` as mathematical integers.
pub open spec fn as_ints(values: Seq<i32>) -> Seq<int> {
    Seq::new(values.len(), |i: int| values[i] as int)
}

/// The least of some values; zero where there are none.
pub open spec fn least(values: Seq<int>) -> int
    decreases values.len(),
{
    if values.len() == 0 {
        0
    } else if values.len() == 1 {
        values[0]
    } else if values.last() < least(values.drop_last()) {
        values.last()
    } else {
        least(values.drop_last())
    }
}

/// The greatest of some values; zero where there are none.
pub open spec fn greatest(values: Seq<int>) -> int
    decreases values.len(),
{
    if values.len() == 0 {
        0
    } else if values.len() == 1 {
        values[0]
    } else if values.last() > greatest(values.drop_last()) {
        values.last()
    } else {
        greatest(values.drop_last())
    }
}

/// One label rescaled between two bounds: the share of the way from `low` to
/// `high`, times `COEF_NORM`. A label below `low` gives zero, one above `high`
/// gives the saturated value.
pub open spec fn scaled(value: int, low: int, high: int) -> (int, int) {
    if value > high {
        (COEF_NORM * SATURATED_NUMERATOR, SATURATED_DENOMINATOR as int)
    } else if value < low {
        (0, high - low)
    } else {
        (COEF_NORM * (value - low), high - low)
    }
}

/// Whether a batch cannot be rescaled: it is empty or all its labels are one.
pub open spec fn degenerate(values: Seq<int>) -> bool {
    values.len() == 0 || least(values) == greatest(values)
}

/// A batch rescaled between its least and its greatest label. A degenerate
/// batch gives nothing.
pub open spec fn normalized(values: Seq<int>) -> Seq<(int, int)> {
    if degenerate(values) {
        Seq::empty()
    } else {
        Seq::new(values.len(), |i: int| scaled(values[i], least(values), greatest(values)))
    }
}

/// The numerators of a rescaled batch.
pub open spec fn numerators(labels: Seq<(int, int)>) -> Seq<int> {
    Seq::new(labels.len(), |i: int| labels[i].0)
}

/// The least value is one of the values and none is below it.
pub proof fn lemma_least(values: Seq<int>)
    requires
        values.len() > 0,
    ensures
        values.contains(least(values)),
        forall|i: int| 0 <= i < values.len() ==> least(values) <= values[i],
    decreases values.len(),
{
    if values.len() == 1 {
        assert(values[0] == least(values));
    } else {
        let front = values.drop_last();
        lemma_least(front);
        let at = choose|i: int| 0 <= i < front.len() && front[i] == least(front);
        assert(values[at] == front[at]);
        assert(values[values.len() - 1] == values.last());
        assert forall|i: int| 0 <= i < values.len() implies least(values) <= values[i] by {
            if i < front.len() {
                assert(values[i] == front[i]);
            }
        }
    }
}

/// The greatest value is one of the values and none is above it.
pub proof fn lemma_greatest(values: Seq<int>)
    requires
        values.len() > 0,
    ensures
        values.contains(greatest(values)),
        forall|i: int| 0 <= i < values.len() ==> greatest(values) >= values[i],
    decreases values.len(),
{
    if values.len() == 1 {
        assert(values[0] == greatest(values));
    } else {
        let front = values.drop_last();
        lemma_greatest(front);
        let at = choose|i: int| 0 <= i < front.len() && front[i] == greatest(front);
        assert(values[at] == front[at]);
        assert(values[values.len() - 1] == values.last());
        assert forall|i: int| 0 <= i < values.len() implies greatest(values) >= values[i] by {
            if i < front.len() {
                assert(values[i] == front[i]);
            }
        }
    }
}

/// A value of the batch that none is below is the least.
pub proof fn lemma_least_is(values: Seq<int>, low: int)
    requires
        values.contains(low),
        forall|i: int| 0 <= i < values.len() ==> low <= values[i],
    ensures
        least(values) == low,
{
    lemma_least(values);
    let at = choose|i: int| 0 <= i < values.len() && values[i] == least(values);
    let other = choose|i: int| 0 <= i < values.len() && values[i] == low;
    assert(low <= values[at]);
    assert(least(values) <= values[other]);
}

/// A value of the batch that none is above is the greatest.
pub proof fn lemma_greatest_is(values: Seq<int>, high: int)
    requires
        values.contains(high),
        forall|i: int| 0 <= i < values.len() ==> high >= values[i],
    ensures
        greatest(values) == high,
{
    lemma_greatest(values);
    let at = choose|i: int| 0 <= i < values.len() && values[i] == greatest(values);
    let other = choose|i: int| 0 <= i < values.len() && values[i] == high;
    assert(high >= values[at]);
    assert(greatest(values) >= values[other]);
}

/// Rescaling a rescaled batch changes no value: a batch that is not
/// degenerate, once rescaled, has its least label at zero and its greatest at
/// `COEF_NORM`, and rescaling its numerators again gives, label by label, a
/// fraction that stands for the same number as before.
pub proof fn lemma_rescaling_again_keeps_values(values: Seq<int>)
    requires
        !degenerate(values),
    ensures
        ({
            let once = normalized(values);
            let twice = normalized(numerators(once));
            &&& once.len() == values.len()
            &&& twice.len() == values.len()
            &&& least(numerators(once)) == 0
            &&& greatest(numerators(once)) == COEF_NORM * (greatest(values) - least(values))
            &&& forall|i: int|
                0 <= i < values.len() ==> once[i].1 > 0 && #[trigger] twice[i].1 > 0 && same_value(
                    twice[i],
                    once[i],
                )
        }),
{
    let low = least(values);
    let high = greatest(values);
    let spread = high - low;
    lemma_least(values);
    lemma_greatest(values);
    let once = normalized(values);
    let tops = numerators(once);
    let at_low = choose|i: int| 0 <= i < values.len() && values[i] == low;
    let at_high = choose|i: int| 0 <= i < values.len() && values[i] == high;
    assert(tops[at_low] == 0);
    assert(tops[at_high] == COEF_NORM * spread);
    assert forall|i: int| 0 <= i < tops.len() implies 0 <= #[trigger] tops[i] <= COEF_NORM
        * spread by {
        assert(low <= values[i] <= high);
        assert(tops[i] == COEF_NORM * (values[i] - low));
    }
    lemma_least_is(tops, 0);
    lemma_greatest_is(tops, COEF_NORM * spread);
    let twice = normalized(tops);
    assert forall|i: int| 0 <= i < values.len() implies once[i].1 > 0 && #[trigger] twice[i].1 > 0
        && same_value(twice[i], once[i]) by {
        assert(0 <= tops[i] <= COEF_NORM * spread);
        assert(once[i] == (tops[i], spread));
        assert(twice[i] == (COEF_NORM * (tops[i] - 0), COEF_NORM * spread - 0));
        assert((COEF_NORM * tops[i]) * spread == tops[i] * (COEF_NORM * spread))
            by (nonlinear_arith);
    }
}

/// Rescales one label between two bounds.
pub fn minmax_scale(value: i32, low: i32, high: i32) -> (label: Fraction)
    requires
        low < high,
    ensures
        label.parts() == scaled(value as int, low as int, high as int),
        label.wf(),
{
    let delta: i64 = high as i64 - low as i64;
    if value > high {
        Fraction {
            numerator: COEF_NORM * SATURATED_NUMERATOR,
            denominator: SATURATED_DENOMINATOR,
        }
    } else if value < low {
        Fraction { numerator: 0, denominator: delta }
    } else {
        Fraction { numerator: COEF_NORM * (value as i64 - low as i64), denominator: delta }
    }
}

/// Rescales a batch between its least and its greatest label. An empty batch,
/// or one whose labels are all the same, gives an empty result: such a batch
/// is to be thrown away.
pub fn minmax_normalize_vec(v: &Vec<i32>) -> (labels: Vec<Fraction>)
    ensures
        labels@.len() == normalized(as_ints(v@)).len(),
        forall|i: int|
            0 <= i < labels@.len() ==> (#[trigger] labels@[i]).parts() == normalized(
                as_ints(v@),
            )[i] && labels@[i].wf(),
        degenerate(as_ints(v@)) <==> labels@.len() == 0,
        !degenerate(as_ints(v@)) ==> labels@.len() == v@.len(),
{
    if v.len() == 0 {
        return Vec::new();
    }
    let ghost values = as_ints(v@);
    let mut vmin: i32 = v[0];
    let mut vmax: i32 = v[0];
    let mut i: usize = 1;
    assert(values.take(1) =~= seq![v@[0] as int]);
    while i < v.len()
        invariant
            1 <= i <= v.len(),
            values == as_ints(v@),
            vmin == least(values.take(i as int)),
            vmax == greatest(values.take(i as int)),
        decreases v.len() - i,
    {
        assert(values.take(i + 1).drop_last() =~= values.take(i as int));
        assert(values.take(i + 1).last() == v@[i as int]);
        if v[i] < vmin {
            vmin = v[i];
        }
        if v[i] > vmax {
            vmax = v[i];
        }
        i += 1;
    }
    assert(values.take(v.len() as int) =~= values);
    proof {
        lemma_least(values);
        lemma_greatest(values);
    }
    if vmin == vmax {
        return Vec::new();
    }
    let mut labels: Vec<Fraction> = Vec::with_capacity(v.len());
    let mut j: usize = 0;
    while j < v.len()
        invariant
            j <= v.len(),
            values == as_ints(v@),
            vmin == least(values),
            vmax == greatest(values),
            vmin < vmax,
            labels@.len() == j,
            forall|k: int|
                0 <= k < j ==> (#[trigger] labels@[k]).parts() == scaled(
                    values[k],
                    vmin as int,
                    vmax as int,
                ) && labels@[k].wf(),
        decreases v.len() - j,
    {
        labels.push(minmax_scale(v[j], vmin, vmax));
        j += 1;
    }
    labels
}

/// What the z-scores of a batch are made of, in whole numbers. The z-score of
/// label `i` is `deviations[i]` divided by the square root of
/// `squares / (count - 1)`: the distance from the mean over the standard
/// deviation with `count - 1` in its denominator, both taken `count` times.
#[derive(Debug)]
pub struct ZScores {
    /// For each label, `count` times the label less the sum of all labels.
    pub deviations: Vec<i64>,
    /// The sum of the squares of the deviations.
    pub squares: u128,
    /// The number of labels.
    pub count: usize,
}

/// The sum of some values.
pub open spec fn total(values: Seq<int>) -> int
    decreases values.len(),
{
    if values.len() == 0 {
        0
    } else {
        total(values.drop_last()) + values.last()
    }
}

/// The sum of the squares of some values.
pub open spec fn sum_of_squares(values: Seq<int>) -> int
    decreases values.len(),
{
    if values.len() == 0 {
        0
    } else {
        sum_of_squares(values.drop_last()) + values.last() * values.last()
    }
}

/// For each value, the number of values times the value, less their sum:
/// the distance from the mean, taken as many times as there are values.
pub open spec fn deviations(values: Seq<int>) -> Seq<int> {
    Seq::new(values.len(), |i: int| values.len() * values[i] - total(values))
}

/// Whether what the z-scores are made of stays inside its types: every
/// deviation inside `i64` and the sum of their squares inside `u128`.
pub open spec fn zscores_fit(values: Seq<int>) -> bool {
    &&& forall|i: int|
        0 <= i < values.len() ==> i64::MIN <= #[trigger] deviations(values)[i] <= i64::MAX
    &&& sum_of_squares(deviations(values)) <= u128::MAX
}

/// Whether a batch has z-scores: at least two labels that are not all the
/// same, and no sum that leaves its type.
pub open spec fn has_zscores(values: Seq<int>) -> bool {
    values.len() >= 2 && sum_of_squares(deviations(values)) > 0 && zscores_fit(values)
}

/// The squares of the first values add up to no more than the squares of
/// all.
proof fn lemma_squares_grow(values: Seq<int>, count: int)
    requires
        0 <= count <= values.len(),
    ensures
        0 <= sum_of_squares(values.take(count)) <= sum_of_squares(values),
    decreases values.len(),
{
    if values.len() == 0 {
        assert(values.take(count) =~= values);
    } else if count == values.len() {
        assert(values.take(count) =~= values);
        lemma_squares_grow(values.drop_last(), count - 1);
        assert(values.last() * values.last() >= 0) by (nonlinear_arith);
    } else {
        lemma_squares_grow(values.drop_last(), count);
        assert(values.drop_last().take(count) =~= values.take(count));
        assert(values.last() * values.last() >= 0) by (nonlinear_arith);
    }
}

/// The deviations of a batch add up to zero: the mean of the z-scores is
/// zero.
pub proof fn lemma_deviations_cancel(values: Seq<int>)
    ensures
        total(deviations(values)) == 0,
{
    lemma_deviations_total(values, values.len());
    assert(deviations(values).take(values.len() as int) =~= deviations(values));
    assert(values.take(values.len() as int) =~= values);
    assert(values.len() * total(values) - values.len() * total(values) == 0);
}

/// The first `count` deviations add up to the number of values times the sum
/// of the first `count` values, less `count` times the sum of all.
proof fn lemma_deviations_total(values: Seq<int>, count: nat)
    requires
        count <= values.len(),
    ensures
        total(deviations(values).take(count as int)) == values.len() * total(
            values.take(count as int),
        ) - count * total(values),
    decreases count,
{
    let all = deviations(values);
    if count == 0 {
        assert(all.take(0) =~= Seq::<int>::empty());
        assert(values.take(0) =~= Seq::<int>::empty());
        assert(values.len() * 0 - 0 * total(values) == 0) by (nonlinear_arith);
    } else {
        lemma_deviations_total(values, (count - 1) as nat);
        assert(all.take(count as int).drop_last() =~= all.take(count - 1));
        assert(values.take(count as int).drop_last() =~= values.take(count - 1));
        let n = values.len() as int;
        let before = total(values.take(count - 1));
        let x = values[count - 1];
        let s = total(values);
        assert(all.take(count as int).last() == n * x - s);
        assert(values.take(count as int).last() == x);
        assert(n * before - (count - 1) * s + (n * x - s) == n * (before + x) - count * s)
            by (nonlinear_arith);
    }
}

/// Prepares the z-scores of a batch: the distance of each label from the
/// mean and the spread, without the division and the square root, which
/// have no exact value. A batch with fewer than two labels or with labels
/// that are all the same has none, and neither has one whose deviations or
/// whose sum of squares leave their types.
pub fn zscore_normalize_vec(v: &Vec<i32>) -> (scores: Option<ZScores>)
    ensures
        scores is Some <==> has_zscores(as_ints(v@)),
        scores matches Some(z) ==> {
            &&& z.count == v@.len()
            &&& z.deviations@.len() == v@.len()
            &&& forall|i: int|
                0 <= i < v@.len() ==> #[trigger] z.deviations@[i] == deviations(as_ints(v@))[i]
            &&& z.squares == sum_of_squares(deviations(as_ints(v@)))
        },
{
    let count = v.len();
    if count < 2 {
        return None;
    }
    let ghost values = as_ints(v@);
    let mut sum: i128 = 0;
    let mut i: usize = 0;
    assert(values.take(0) =~= Seq::<int>::empty());
    while i < count
        invariant
            i <= count == v@.len(),
            values == as_ints(v@),
            sum == total(values.take(i as int)),
            -0x8000_0000 * i <= sum <= 0x8000_0000 * i,
        decreases count - i,
    {
        assert(values.take(i + 1).drop_last() =~= values.take(i as int));
        assert(values.take(i + 1).last() == v@[i as int]);
        assert(0x8000_0000 * i <= 0x8000_0000_0000_0000_0000_0000) by (nonlinear_arith)
            requires
                0 <= i <= 0xffff_ffff_ffff_ffff,
        ;
        sum = sum + v[i] as i128;
        i += 1;
    }
    assert(values.take(count as int) =~= values);
    assert(0x8000_0000 * count <= 0x8000_0000_0000_0000_0000_0000) by (nonlinear_arith)
        requires
            0 <= count <= 0xffff_ffff_ffff_ffff,
    ;
    let ghost all = deviations(values);
    let mut distances: Vec<i64> = Vec::with_capacity(count);
    let mut squares: u128 = 0;
    let mut j: usize = 0;
    assert(all.take(0) =~= Seq::<int>::empty());
    while j < count
        invariant
            j <= count == v@.len(),
            2 <= count,
            values == as_ints(v@),
            all == deviations(values),
            sum == total(values),
            -0x8000_0000_0000_0000_0000_0000 <= sum <= 0x8000_0000_0000_0000_0000_0000,
            distances@.len() == j,
            forall|k: int| 0 <= k < j ==> #[trigger] distances@[k] == all[k],
            squares == sum_of_squares(all.take(j as int)),
        decreases count - j,
    {
        let label: i128 = v[j] as i128;
        assert(-0x8000_0000_0000_0000_0000_0000 <= count * label
            <= 0x8000_0000_0000_0000_0000_0000) by (nonlinear_arith)
            requires
                0 <= count <= 0xffff_ffff_ffff_ffff,
                -0x8000_0000 <= label <= 0x8000_0000,
        ;
        let scaled: i128 = count as i128 * label;
        let wide: i128 = scaled - sum;
        assert(values[j as int] == label);
        assert(wide == all[j as int]);
        if wide < i64::MIN as i128 || wide > i64::MAX as i128 {
            assert(!zscores_fit(values));
            return None;
        }
        let distance: i64 = wide as i64;
        assert(0 <= distance * distance <= 0x4000_0000_0000_0000_0000_0000_0000_0000)
            by (nonlinear_arith)
            requires
                -0x8000_0000_0000_0000 <= distance <= 0x8000_0000_0000_0000,
        ;
        let square: u128 = (distance as i128 * distance as i128) as u128;
        assert(all.take(j + 1).drop_last() =~= all.take(j as int));
        assert(all.take(j + 1).last() == all[j as int]);
        match squares.checked_add(square) {
            Some(more) => {
                squares = more;
            },
            None => {
                proof {
                    lemma_squares_grow(all, j + 1);
                }
                assert(!zscores_fit(values));
                return None;
            },
        }
        distances.push(distance);
        j += 1;
    }
    assert(all.take(count as int) =~= all);
    if squares == 0 {
        return None;
    }
    assert forall|k: int| 0 <= k < values.len() implies i64::MIN <= #[trigger] deviations(
        values,
    )[k] <= i64::MAX by {
        assert(distances@[k] == all[k]);
    }
    assert(zscores_fit(values));
    Some(ZScores { deviations: distances, squares, count })
}

} // verus!
