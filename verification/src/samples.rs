//! Labeled samples and the last steps of a batch: dropping the outliers and
//! rescaling the labels.

use vstd::prelude::*;
use crate::features::{encode_move, move_features, MOVE_LAYOUT};
use crate::labels::{same_value, Fraction, COEF_NORM};
use crate::rules::board_position;

verus! {

/// A label whose size exceeds this bound is an outlier.
pub const MAX_SCORE_DELTA: i64 = 1200;

/// A feature vector with its label.
#[derive(Debug)]
pub struct LabeledSample {
    pub features: Vec<u8>,
    pub label: Fraction,
}

impl LabeledSample {
    /// The cells and the label.
    pub open spec fn parts(self) -> (Seq<u8>, Fraction) {
        (self.features@, self.label)
    }
}

/// The cells and labels of a batch.
pub open spec fn batch_parts(batch: Seq<LabeledSample>) -> Seq<(Seq<u8>, Fraction)> {
    Seq::new(batch.len(), |i: int| batch[i].parts())
}

/// Whether the size of a label does not exceed `MAX_SCORE_DELTA`.
pub open spec fn within_threshold(label: Fraction) -> bool {
    -MAX_SCORE_DELTA * label.denominator <= label.numerator <= MAX_SCORE_DELTA
        * label.denominator
}

/// Whether a label lies between zero and `COEF_NORM`.
pub open spec fn within_scale(label: Fraction) -> bool {
    0 <= label.numerator <= COEF_NORM * label.denominator
}

/// The test by which `remove_threshold` keeps a sample.
pub open spec fn keeps_sample() -> spec_fn(LabeledSample) -> bool {
    |sample: LabeledSample| within_threshold(sample.label)
}

/// The labels of a batch.
pub open spec fn labels_of(batch: Seq<LabeledSample>) -> Seq<Fraction> {
    Seq::new(batch.len(), |i: int| batch[i].label)
}

/// Whether one fraction stands for a smaller number than another; both have
/// positive denominators.
pub open spec fn below(a: Fraction, b: Fraction) -> bool {
    a.numerator * b.denominator < b.numerator * a.denominator
}

/// Where the least of the first `count` labels stands: the first of them
/// that none of the others is below.
pub open spec fn least_at(labels: Seq<Fraction>, count: nat) -> int
    decreases count,
{
    if count <= 1 {
        0
    } else {
        let before = least_at(labels, (count - 1) as nat);
        if below(labels[count - 1], labels[before]) {
            count - 1
        } else {
            before
        }
    }
}

/// Where the greatest of the first `count` labels stands: the first of them
/// that is below none of the others.
pub open spec fn greatest_at(labels: Seq<Fraction>, count: nat) -> int
    decreases count,
{
    if count <= 1 {
        0
    } else {
        let before = greatest_at(labels, (count - 1) as nat);
        if below(labels[before], labels[count - 1]) {
            count - 1
        } else {
            before
        }
    }
}

/// The least label of a batch.
pub open spec fn least_label(labels: Seq<Fraction>) -> Fraction {
    labels[least_at(labels, labels.len())]
}

/// The greatest label of a batch.
pub open spec fn greatest_label(labels: Seq<Fraction>) -> Fraction {
    labels[greatest_at(labels, labels.len())]
}

/// Whether three labels stand over one denominator.
pub open spec fn one_denominator(x: Fraction, low: Fraction, high: Fraction) -> bool {
    x.denominator == low.denominator && low.denominator == high.denominator
}

/// A label rescaled between two others, exactly: its distance from `low` as
/// a share of the distance from `low` to `high`, times `COEF_NORM`, as
/// numerator and denominator. Labels over one denominator are rescaled by
/// their numerators alone, which keeps the numbers small; others are
/// brought over a common denominator first.
pub open spec fn rescaled(x: Fraction, low: Fraction, high: Fraction) -> (int, int) {
    if one_denominator(x, low, high) {
        ((x.numerator - low.numerator) * COEF_NORM, high.numerator - low.numerator)
    } else {
        (
            ((x.numerator * low.denominator - low.numerator * x.denominator)
                * high.denominator) * COEF_NORM,
            x.denominator * (high.numerator * low.denominator - low.numerator
                * high.denominator),
        )
    }
}

/// Whether numerator and denominator can be held by a label.
pub open spec fn fits(parts: (int, int)) -> bool {
    i64::MIN <= parts.0 <= i64::MAX && i64::MIN <= parts.1 <= i64::MAX
}

/// Whether a batch cannot be rescaled: it is empty, all its labels stand for
/// one number, or a rescaled label would leave the range of the label type,
/// which is what a value that is not finite is to floating point.
pub open spec fn cannot_rescale(labels: Seq<Fraction>) -> bool {
    ||| labels.len() == 0
    ||| !below(least_label(labels), greatest_label(labels))
    ||| exists|i: int|
        0 <= i < labels.len() && !fits(
            #[trigger] rescaled(labels[i], least_label(labels), greatest_label(labels)),
        )
}

/// Whether `batch` is `raw` with its labels rescaled: the same vectors in the
/// same order, each label rescaled exactly between the least and the greatest
/// label of `raw`; or nothing at all where `raw` cannot be rescaled.
pub open spec fn rescaled_from(batch: Seq<LabeledSample>, raw: Seq<LabeledSample>) -> bool {
    let labels = labels_of(raw);
    if cannot_rescale(labels) {
        batch.len() == 0
    } else {
        &&& batch.len() == raw.len()
        &&& forall|i: int|
            0 <= i < batch.len() ==> (#[trigger] batch[i]).features == raw[i].features
                && batch[i].label.parts() == rescaled(
                labels[i],
                least_label(labels),
                greatest_label(labels),
            )
    }
}

/// Whether the least label of a batch stands for zero and the greatest for
/// `COEF_NORM`: the batch is rescaled already.
pub open spec fn already_rescaled(labels: Seq<Fraction>) -> bool {
    &&& labels.len() > 0
    &&& least_label(labels).numerator == 0
    &&& greatest_label(labels).numerator == COEF_NORM * greatest_label(labels).denominator
}

/// Whether every label of a batch has a positive denominator.
pub open spec fn labels_wf(batch: Seq<LabeledSample>) -> bool {
    forall|i: int| 0 <= i < batch.len() ==> (#[trigger] batch[i]).label.wf()
}

/// One more item of a sequence adds itself to what a filter keeps of it, or
/// nothing.
proof fn lemma_filter_step<A>(items: Seq<A>, keep: spec_fn(A) -> bool, k: int)
    requires
        0 <= k < items.len(),
    ensures
        items.take(k + 1).filter(keep) == if keep(items[k]) {
            items.take(k).filter(keep).push(items[k])
        } else {
            items.take(k).filter(keep)
        },
{
    reveal(Seq::filter);
    assert(items.take(k + 1).drop_last() =~= items.take(k));
}

/// Encodes a move in a position and labels it with a whole number.
pub fn encode_board_with_move(b: &pleco::Board, m: u16, val: i64) -> (sample: LabeledSample)
    ensures
        sample.features@ == move_features(board_position(*b), m),
        sample.features@.len() == MOVE_LAYOUT,
        sample.label.parts() == (val as int, 1int),
{
    LabeledSample { features: encode_move(b, m), label: Fraction::whole(val) }
}

/// Whether the size of a label does not exceed `MAX_SCORE_DELTA`.
pub fn label_within_threshold(label: &Fraction) -> (within: bool)
    requires
        label.wf(),
    ensures
        within == within_threshold(*label),
{
    let bound: i128 = MAX_SCORE_DELTA as i128 * label.denominator as i128;
    let size: i128 = label.numerator as i128;
    assert(-MAX_SCORE_DELTA * label.denominator == -bound) by (nonlinear_arith)
        requires
            bound == MAX_SCORE_DELTA * label.denominator,
    ;
    -bound <= size && size <= bound
}

/// Drops the samples whose label exceeds `MAX_SCORE_DELTA` in size. The
/// others stay in their order.
pub fn remove_threshold(vec: &mut Vec<LabeledSample>)
    requires
        labels_wf(old(vec)@),
    ensures
        final(vec)@ == old(vec)@.filter(keeps_sample()),
        labels_wf(final(vec)@),
        forall|i: int| 0 <= i < final(vec)@.len() ==> within_threshold(final(vec)@[i].label),
{
    let ghost before = vec@;
    let ghost mut seen: int = 0;
    let mut i: usize = 0;
    assert(before.take(0).filter(keeps_sample()) =~= Seq::<LabeledSample>::empty()) by {
        reveal(Seq::filter);
    }
    assert(before.skip(0) =~= before);
    while i < vec.len()
        invariant
            0 <= seen <= before.len(),
            labels_wf(before),
            labels_wf(vec@),
            i == before.take(seen).filter(keeps_sample()).len(),
            vec@ == before.take(seen).filter(keeps_sample()) + before.skip(seen),
            forall|j: int| 0 <= j < i ==> within_threshold(vec@[j].label),
        decreases before.len() - seen,
    {
        assert(vec@[i as int] == before.skip(seen)[0]);
        proof {
            lemma_filter_step(before, keeps_sample(), seen);
        }
        let ghost kept = before.take(seen).filter(keeps_sample());
        let ghost held = vec@;
        if label_within_threshold(&vec[i].label) {
            assert(vec@ =~= kept.push(before[seen]) + before.skip(seen + 1));
            i += 1;
        } else {
            let _dropped = vec.remove(i);
            assert(vec@ =~= kept + before.skip(seen + 1));
            assert forall|k: int| 0 <= k < vec@.len() implies (#[trigger] vec@[k]).label.wf() by {
                if k < i {
                    assert(vec@[k] == held[k]);
                } else {
                    assert(vec@[k] == held[k + 1]);
                }
            }
        }
        proof {
            seen = seen + 1;
        }
    }
    assert(before.take(seen) =~= before);
    assert(vec@ =~= before.filter(keeps_sample()));
}

/// Rescaling a label between zero and `COEF_NORM` gives a fraction that
/// stands for the same number.
pub proof fn lemma_rescaling_keeps_rescaled(x: Fraction, low: Fraction, high: Fraction)
    requires
        low.numerator == 0,
        high.numerator == COEF_NORM * high.denominator,
    ensures
        same_value(rescaled(x, low, high), x.parts()),
{
    let xn = x.numerator as int;
    let xd = x.denominator as int;
    let md = low.denominator as int;
    let hd = high.denominator as int;
    assert((((xn * md - 0 * xd) * hd) * 10) * xd == xn * (xd * ((10 * hd) * md - 0 * hd)))
        by (nonlinear_arith);
    assert(((xn - 0) * 10) * xd == xn * (10 * xd - 0)) by (nonlinear_arith);
}

/// A label that is not below a second, which is not below a third, is not
/// below the third.
proof fn lemma_not_below_chain(a: Fraction, b: Fraction, c: Fraction)
    requires
        a.wf(),
        b.wf(),
        c.wf(),
        !below(a, b),
        !below(b, c),
    ensures
        !below(a, c),
{
    let (an, ad) = (a.numerator as int, a.denominator as int);
    let (bn, bd) = (b.numerator as int, b.denominator as int);
    let (cn, cd) = (c.numerator as int, c.denominator as int);
    assert((an * bd) * cd >= (bn * ad) * cd) by (nonlinear_arith)
        requires
            an * bd >= bn * ad,
            cd > 0,
    ;
    assert((bn * cd) * ad >= (cn * bd) * ad) by (nonlinear_arith)
        requires
            bn * cd >= cn * bd,
            ad > 0,
    ;
    assert((an * cd) * bd >= (cn * ad) * bd) by (nonlinear_arith)
        requires
            (an * bd) * cd >= (bn * ad) * cd,
            (bn * cd) * ad >= (cn * bd) * ad,
    ;
    assert(an * cd >= cn * ad) by (nonlinear_arith)
        requires
            (an * cd) * bd >= (cn * ad) * bd,
            bd > 0,
    ;
}

/// None of the first `count` labels is below the least of them, and the
/// greatest of them is below none.
pub proof fn lemma_least_and_greatest(labels: Seq<Fraction>, count: nat)
    requires
        1 <= count <= labels.len(),
        forall|i: int| 0 <= i < labels.len() ==> (#[trigger] labels[i]).wf(),
    ensures
        0 <= least_at(labels, count) < count,
        0 <= greatest_at(labels, count) < count,
        forall|k: int|
            0 <= k < count ==> !below(#[trigger] labels[k], labels[least_at(labels, count)]),
        forall|k: int|
            0 <= k < count ==> !below(labels[greatest_at(labels, count)], #[trigger] labels[k]),
    decreases count,
{
    if count > 1 {
        lemma_least_and_greatest(labels, (count - 1) as nat);
        let new = labels[count - 1];
        let low = labels[least_at(labels, (count - 1) as nat)];
        let high = labels[greatest_at(labels, (count - 1) as nat)];
        if below(new, low) {
            assert forall|k: int| 0 <= k < count implies !below(#[trigger] labels[k], new) by {
                if k < count - 1 {
                    lemma_not_below_chain(labels[k], low, new);
                }
            }
        }
        if below(high, new) {
            assert forall|k: int| 0 <= k < count implies !below(new, #[trigger] labels[k]) by {
                if k < count - 1 {
                    lemma_not_below_chain(new, high, labels[k]);
                }
            }
        }
    }
}

/// A label between two others is rescaled to a fraction between zero and
/// `COEF_NORM`, with a positive denominator.
pub proof fn lemma_rescaled_within_scale(x: Fraction, low: Fraction, high: Fraction)
    requires
        x.wf(),
        low.wf(),
        high.wf(),
        below(low, high),
        !below(x, low),
        !below(high, x),
    ensures
        rescaled(x, low, high).1 > 0,
        0 <= rescaled(x, low, high).0 <= COEF_NORM * rescaled(x, low, high).1,
{
    let (xn, xd) = (x.numerator as int, x.denominator as int);
    let (mn, md) = (low.numerator as int, low.denominator as int);
    let (hn, hd) = (high.numerator as int, high.denominator as int);
    if one_denominator(x, low, high) {
        assert(xn >= mn) by (nonlinear_arith)
            requires
                xn * md >= mn * xd,
                xd == md,
                md > 0,
        ;
        assert(hn >= xn) by (nonlinear_arith)
            requires
                hn * xd >= xn * hd,
                xd == hd,
                hd > 0,
        ;
        assert(hn > mn) by (nonlinear_arith)
            requires
                mn * hd < hn * md,
                md == hd,
                hd > 0,
        ;
        assert(0 <= (xn - mn) * 10 <= 10 * (hn - mn)) by (nonlinear_arith)
            requires
                mn <= xn <= hn,
        ;
    } else {
        let distance = xn * md - mn * xd;
        let spread = hn * md - mn * hd;
        assert(distance >= 0);
        assert(spread > 0);
        assert(xd * spread > 0) by (nonlinear_arith)
            requires
                xd > 0,
                spread > 0,
        ;
        assert((distance * hd) * 10 >= 0) by (nonlinear_arith)
            requires
                distance >= 0,
                hd > 0,
        ;
        assert((xn * hd) * md <= (hn * xd) * md) by (nonlinear_arith)
            requires
                xn * hd <= hn * xd,
                md > 0,
        ;
        assert(distance * hd == (xn * hd) * md - (mn * xd) * hd) by (nonlinear_arith)
            requires
                distance == xn * md - mn * xd,
        ;
        assert(xd * spread == (hn * xd) * md - (mn * xd) * hd) by (nonlinear_arith)
            requires
                spread == hn * md - mn * hd,
        ;
        assert((distance * hd) * 10 <= 10 * (xd * spread)) by (nonlinear_arith)
            requires
                distance * hd <= xd * spread,
        ;
    }
}

/// The product of two numbers of 64 bits has at most 126.
proof fn lemma_product_bound(a: int, b: int)
    requires
        -0x8000_0000_0000_0000 <= a <= 0x8000_0000_0000_0000,
        -0x8000_0000_0000_0000 <= b <= 0x8000_0000_0000_0000,
    ensures
        -0x4000_0000_0000_0000_0000_0000_0000_0000 <= a * b
            <= 0x4000_0000_0000_0000_0000_0000_0000_0000,
{
    assert(-0x4000_0000_0000_0000_0000_0000_0000_0000 <= a * b
        <= 0x4000_0000_0000_0000_0000_0000_0000_0000) by (nonlinear_arith)
        requires
            -0x8000_0000_0000_0000 <= a <= 0x8000_0000_0000_0000,
            -0x8000_0000_0000_0000 <= b <= 0x8000_0000_0000_0000,
    ;
}

/// The product of a number of 64 bits and a positive one stays clear of the
/// ends of 128 bits, so that two such products can be taken from each other.
proof fn lemma_scaled_bound(a: int, b: int)
    requires
        -0x8000_0000_0000_0000 <= a < 0x8000_0000_0000_0000,
        0 < b < 0x8000_0000_0000_0000,
    ensures
        -0x3fff_ffff_ffff_ffff_ffff_ffff_ffff_ffff <= a * b
            <= 0x3fff_ffff_ffff_ffff_ffff_ffff_ffff_ffff,
{
    assert(-0x3fff_ffff_ffff_ffff_ffff_ffff_ffff_ffff <= a * b
        <= 0x3fff_ffff_ffff_ffff_ffff_ffff_ffff_ffff) by (nonlinear_arith)
        requires
            -0x8000_0000_0000_0000 <= a < 0x8000_0000_0000_0000,
            0 < b < 0x8000_0000_0000_0000,
    ;
}

/// Whether one label stands for a smaller number than another.
pub fn label_below(a: &Fraction, b: &Fraction) -> (less: bool)
    ensures
        less == below(*a, *b),
{
    proof {
        lemma_product_bound(a.numerator as int, b.denominator as int);
        lemma_product_bound(b.numerator as int, a.denominator as int);
    }
    let left: i128 = (a.numerator as i128) * (b.denominator as i128);
    let right: i128 = (b.numerator as i128) * (a.denominator as i128);
    left < right
}

/// Rescales one label between two others, exactly. Nothing is returned where
/// numerator or denominator would leave the range of the label type.
pub fn rescale_label(x: &Fraction, low: &Fraction, high: &Fraction) -> (label: Option<Fraction>)
    requires
        x.wf(),
        low.wf(),
        high.wf(),
    ensures
        label is Some <==> fits(rescaled(*x, *low, *high)),
        label matches Some(l) ==> l.parts() == rescaled(*x, *low, *high),
{
    let xn: i128 = x.numerator as i128;
    let xd: i128 = x.denominator as i128;
    let mn: i128 = low.numerator as i128;
    let md: i128 = low.denominator as i128;
    let hn: i128 = high.numerator as i128;
    let hd: i128 = high.denominator as i128;
    if xd == md && md == hd {
        let numerator: i128 = (xn - mn) * (COEF_NORM as i128);
        let denominator: i128 = hn - mn;
        if numerator < i64::MIN as i128 || numerator > i64::MAX as i128 || denominator
            < i64::MIN as i128 || denominator > i64::MAX as i128 {
            return None;
        }
        return Some(Fraction { numerator: numerator as i64, denominator: denominator as i64 });
    }
    proof {
        lemma_scaled_bound(xn as int, md as int);
        lemma_scaled_bound(mn as int, xd as int);
        lemma_scaled_bound(hn as int, md as int);
        lemma_scaled_bound(mn as int, hd as int);
    }
    let distance: i128 = xn * md - mn * xd;
    let spread: i128 = hn * md - mn * hd;
    let scaled = match distance.checked_mul(hd) {
        Some(product) => product,
        None => {
            assert(!fits(rescaled(*x, *low, *high))) by (nonlinear_arith)
                requires
                    rescaled(*x, *low, *high).0 == (distance * hd) * 10,
                    distance * hd > i128::MAX || distance * hd < i128::MIN,
            ;
            return None;
        },
    };
    let numerator = match scaled.checked_mul(COEF_NORM as i128) {
        Some(product) => product,
        None => {
            return None;
        },
    };
    let denominator = match xd.checked_mul(spread) {
        Some(product) => product,
        None => {
            return None;
        },
    };
    if numerator < i64::MIN as i128 || numerator > i64::MAX as i128 || denominator
        < i64::MIN as i128 || denominator > i64::MAX as i128 {
        return None;
    }
    Some(Fraction { numerator: numerator as i64, denominator: denominator as i64 })
}

/// Rescales the labels of a batch between its least and its greatest label,
/// by the exact value of each. A batch that cannot be rescaled, because it
/// is empty, because all its labels stand for one number, or because a
/// rescaled label would not fit, is emptied: no label leaves unscaled. A
/// batch that is rescaled already keeps the value of every label.
pub fn minmax_normalize_vec_batch(vec: &mut Vec<LabeledSample>)
    requires
        labels_wf(old(vec)@),
    ensures
        rescaled_from(final(vec)@, old(vec)@),
        final(vec)@.len() == 0 || final(vec)@.len() == old(vec)@.len(),
        forall|i: int|
            0 <= i < final(vec)@.len() ==> (#[trigger] final(vec)@[i]).label.wf() && within_scale(
                final(vec)@[i].label,
            ),
        already_rescaled(labels_of(old(vec)@)) ==> forall|i: int|
            0 <= i < final(vec)@.len() ==> same_value(
                (#[trigger] final(vec)@[i]).label.parts(),
                old(vec)@[i].label.parts(),
            ),
{
    let ghost before = vec@;
    let ghost labels = labels_of(before);
    let count = vec.len();
    if count == 0 {
        return ;
    }
    let mut low: usize = 0;
    let mut high: usize = 0;
    let mut i: usize = 1;
    while i < count
        invariant
            1 <= i <= count == vec@.len(),
            vec@ == before,
            labels == labels_of(before),
            low == least_at(labels, i as nat),
            high == greatest_at(labels, i as nat),
            0 <= low < i,
            0 <= high < i,
        decreases count - i,
    {
        if label_below(&vec[i].label, &vec[low].label) {
            low = i;
        }
        if label_below(&vec[high].label, &vec[i].label) {
            high = i;
        }
        i += 1;
    }
    let least = vec[low].label;
    let greatest = vec[high].label;
    assert(least == least_label(labels));
    assert(greatest == greatest_label(labels));
    if !label_below(&least, &greatest) {
        vec.clear();
        return ;
    }
    let mut rescaled_labels: Vec<Fraction> = Vec::with_capacity(count);
    let mut j: usize = 0;
    while j < count
        invariant
            j <= count == vec@.len(),
            vec@ == before,
            before == old(vec)@,
            labels == labels_of(before),
            labels_wf(before),
            least == least_label(labels),
            greatest == greatest_label(labels),
            least.wf(),
            greatest.wf(),
            below(least, greatest),
            rescaled_labels@.len() == j,
            forall|k: int|
                0 <= k < j ==> fits(#[trigger] rescaled(labels[k], least, greatest))
                    && rescaled_labels@[k].parts() == rescaled(labels[k], least, greatest),
        decreases count - j,
    {
        match rescale_label(&vec[j].label, &least, &greatest) {
            Some(label) => {
                rescaled_labels.push(label);
            },
            None => {
                assert(labels[j as int] == before[j as int].label);
                assert(!fits(
                    rescaled(labels[j as int], least_label(labels), greatest_label(labels)),
                ));
                assert(cannot_rescale(labels));
                vec.clear();
                return ;
            },
        }
        j += 1;
    }
    assert(!cannot_rescale(labels));
    let mut k: usize = 0;
    while k < count
        invariant
            k <= count == vec@.len(),
            vec@.len() == before.len(),
            rescaled_labels@.len() == count,
            forall|n: int|
                0 <= n < before.len() ==> (#[trigger] vec@[n]).features == before[n].features,
            forall|n: int| 0 <= n < k ==> (#[trigger] vec@[n]).label == rescaled_labels@[n],
        decreases count - k,
    {
        vec[k].label = rescaled_labels[k];
        k += 1;
    }
    assert forall|n: int| 0 <= n < vec@.len() implies (#[trigger] vec@[n]).label.wf()
        && within_scale(vec@[n].label) by {
        assert(vec@[n].label.parts() == rescaled(labels[n], least, greatest));
        assert(labels[n] == before[n].label);
        assert forall|i: int| 0 <= i < labels.len() implies (#[trigger] labels[i]).wf() by {
            assert(labels[i] == before[i].label);
        }
        lemma_least_and_greatest(labels, labels.len());
        lemma_rescaled_within_scale(labels[n], least, greatest);
    }
    proof {
        if already_rescaled(labels) {
            assert forall|n: int| 0 <= n < vec@.len() implies same_value(
                (#[trigger] vec@[n]).label.parts(),
                before[n].label.parts(),
            ) by {
                lemma_rescaling_keeps_rescaled(labels[n], least, greatest);
            }
        }
    }
}

} // verus!
