use vstd::prelude::*;

use crate::classify::classify;
use crate::measure::{ManiaMeasure, MeasureModel};
use crate::pattern::{Pattern, get_pattern_weight, weight_tenths};
use crate::score::{
    PatternsValues, Ratio, accumulate, add_entry, key_index, lemma_accumulate_sums,
    pattern_total, total_value,
};

verus! {

/// The largest number of measures, and of presses in a chart, that the score
/// arithmetic is proved for.
pub const MAX_CHART_PRESSES: u64 = 4294967295;

/// The largest weighted value of one measure that the score table is proved
/// to hold without overflow.
pub const MAX_MEASURE_VALUE: u128 = 0x1_0000_0000_0000_0000_0000;

/// The views of a sequence of measures.
pub open spec fn measures_model(v: Seq<ManiaMeasure>) -> Seq<MeasureModel> {
    v.map_values(|m: ManiaMeasure| m@)
}

/// Sum of the presses of all measures.
pub open spec fn total_npm(ms: Seq<MeasureModel>) -> int
    decreases ms.len(),
{
    if ms.len() == 0 {
        0
    } else {
        total_npm(ms.drop_last()) + ms.last().npm
    }
}

/// Density weight `npm / average` (average `total / count`), clamped to
/// `[0, 5]`: its numerator over `density_den(total, count)`.
pub open spec fn density_num(npm: int, total: int, count: int) -> int {
    if npm <= 0 {
        0
    } else if !(total > 0 && count > 0) {
        1
    } else if npm * count <= 5 * total {
        npm * count
    } else {
        5 * total
    }
}

pub open spec fn density_den(total: int, count: int) -> int {
    if total > 0 && count > 0 {
        total
    } else {
        1
    }
}

/// The weighted value of a measure: density weight times pattern weight,
/// as a numerator over `score_den(total, count)`.
pub open spec fn measure_value(npm: int, p: Pattern, total: int, count: int) -> int {
    density_num(npm, total, count) * weight_tenths(p)
}

pub open spec fn score_den(total: int, count: int) -> int {
    density_den(total, count) * 10
}

/// The labelled measures' (pattern, value) pairs, unclassified ones left out.
pub open spec fn measure_scores(ms: Seq<MeasureModel>) -> Seq<(Pattern, int)>
    decreases ms.len(),
{
    if ms.len() == 0 {
        Seq::empty()
    } else if ms.last().pattern == Pattern::Unclassified {
        measure_scores(ms.drop_last())
    } else {
        measure_scores(ms.drop_last()).push((ms.last().pattern, ms.last().value))
    }
}

/// A measure after the analysis pass.
pub open spec fn analyzed(m: MeasureModel, total: int, count: int) -> MeasureModel {
    MeasureModel {
        pattern: classify(m.notes),
        value: measure_value(m.npm, classify(m.notes), total, count),
        ..m
    }
}

/// Measures ordered by strictly increasing start time, each well formed,
/// within the proved size limits.
pub open spec fn measures_wf(ms: Seq<MeasureModel>) -> bool {
    &&& forall|i: int, j: int| 0 <= i < j < ms.len() ==> ms[i].start < ms[j].start
    &&& forall|i: int| 0 <= i < ms.len() ==> (#[trigger] ms[i]).wf()
    &&& ms.len() <= MAX_CHART_PRESSES
    &&& total_npm(ms) <= MAX_CHART_PRESSES
}

/// The average number of presses per measure, `total / measures`.
#[derive(Debug, Clone, Copy, PartialEq, Eq, Structural)]
pub struct NpmAverage {
    pub total: u64,
    pub measures: u64,
}

/// The measures of a chart, ordered by start time.
#[derive(Debug)]
pub struct HitObjects(pub Vec<ManiaMeasure>);

pub proof fn lemma_total_npm_prefix(ms: Seq<MeasureModel>, k: int)
    requires
        0 <= k <= ms.len(),
        forall|i: int| 0 <= i < ms.len() ==> (#[trigger] ms[i]).npm >= 0,
    ensures
        0 <= total_npm(ms.subrange(0, k)) <= total_npm(ms),
    decreases ms.len() - k,
{
    lemma_total_npm_nonneg(ms.subrange(0, k));
    if k < ms.len() {
        lemma_total_npm_prefix(ms, k + 1);
        assert(ms.subrange(0, k + 1).drop_last() =~= ms.subrange(0, k));
    } else {
        assert(ms.subrange(0, k) =~= ms);
    }
}

pub proof fn lemma_total_npm_nonneg(ms: Seq<MeasureModel>)
    requires
        forall|i: int| 0 <= i < ms.len() ==> (#[trigger] ms[i]).npm >= 0,
    ensures
        total_npm(ms) >= 0,
    decreases ms.len(),
{
    if ms.len() > 0 {
        lemma_total_npm_nonneg(ms.drop_last());
    }
}

impl ManiaMeasure {
    /// The density weight of this measure against the chart average:
    /// `npm / average` clamped to `[0, 5]`; 0 for a measure without presses,
    /// 1 where the average is not positive.
    pub fn get_weight(&self, average: &NpmAverage) -> (r: Ratio)
        ensures
            r.num == density_num(self@.npm, average.total as int, average.measures as int),
            r.den == density_den(average.total as int, average.measures as int),
    {
        let npm = self.measure.npm as u128;
        if npm == 0 {
            Ratio { num: 0, den: if average.total > 0 && average.measures > 0 { average.total as u128 } else { 1 } }
        } else if !(average.total > 0 && average.measures > 0) {
            Ratio { num: 1, den: 1 }
        } else {
            let total = average.total as u128;
            let count = average.measures as u128;
            assert(npm * count <= u128::MAX) by (nonlinear_arith)
                requires
                    npm <= u64::MAX,
                    count <= u64::MAX,
            ;
            let scaled = npm * count;
            if scaled <= 5 * total {
                Ratio { num: scaled, den: total }
            } else {
                Ratio { num: 5 * total, den: total }
            }
        }
    }

    /// The measure's value: density weight times the weight of its pattern.
    pub fn get_pattern_weight_modifier(&self, average: &NpmAverage) -> (r: Ratio)
        ensures
            r.num == measure_value(
                self@.npm,
                self.pattern,
                average.total as int,
                average.measures as int,
            ),
            r.den == score_den(average.total as int, average.measures as int),
    {
        let w = self.get_weight(average);
        let p = get_pattern_weight(&self.pattern) as u128;
        assert(w.num <= 5 * (u64::MAX as int) + 1) by (nonlinear_arith)
            requires
                w.num == density_num(self@.npm, average.total as int, average.measures as int),
                average.total <= u64::MAX,
        ;
        assert(w.num * p <= 11 * (5 * (u64::MAX as int) + 1)) by (nonlinear_arith)
            requires
                w.num <= 5 * (u64::MAX as int) + 1,
                p <= 11,
        ;
        Ratio { num: w.num * p, den: w.den * 10 }
    }
}

impl HitObjects {
    pub open spec fn model(&self) -> Seq<MeasureModel> {
        measures_model(self.0@)
    }

    pub open spec fn wf(&self) -> bool {
        measures_wf(self.model())
    }

    /// The chart-wide average presses per measure, as total and count.
    pub fn get_npm(&self) -> (r: NpmAverage)
        requires
            self.wf(),
        ensures
            r.total == total_npm(self.model()),
            r.measures == self.model().len(),
    {
        let ghost ms = self.model();
        let mut total: u64 = 0;
        let mut i: usize = 0;
        while i < self.0.len()
            invariant
                i <= ms.len(),
                ms == self.model(),
                measures_wf(ms),
                total == total_npm(ms.subrange(0, i as int)),
            decreases ms.len() - i,
        {
            proof {
                assert(ms.subrange(0, i as int + 1).drop_last() =~= ms.subrange(0, i as int));
                lemma_total_npm_prefix(ms, i as int + 1);
            }
            total = total + self.0[i].measure.npm;
            i = i + 1;
        }
        proof {
            assert(ms.subrange(0, i as int) =~= ms);
        }
        NpmAverage { total, measures: self.0.len() as u64 }
    }

    /// Every measure of a well-formed chart has a value within the bound
    /// that the score table is proved for.
    pub open spec fn values_bounded(&self) -> bool {
        forall|i: int| 0 <= i < self.model().len() ==> #[trigger] self.model()[i].value <= MAX_MEASURE_VALUE
    }

    /// Sums the measures' values per pattern, in order of first appearance;
    /// unclassified measures are left out.
    pub fn get_patterns_values(&self) -> (r: PatternsValues)
        requires
            self.wf(),
            self.values_bounded(),
        ensures
            r.wf(),
            r.denominator == score_den(total_npm(self.model()), self.model().len() as int),
            r.model() == accumulate(measure_scores(self.model())),
            forall|k: int|
                0 <= k < r.model().len() ==> #[trigger] r.model()[k].1 == pattern_total(
                    measure_scores(self.model()),
                    r.model()[k].0,
                ),
            forall|p: Pattern|
                key_index(r.model(), p) < 0 ==> pattern_total(measure_scores(self.model()), p)
                    == 0,
    {
        let ghost ms = self.model();
        let average = self.get_npm();
        let den: u128 = if average.total > 0 && average.measures > 0 {
            average.total as u128 * 10
        } else {
            10
        };
        let mut r = PatternsValues::new(den);
        let mut i: usize = 0;
        while i < self.0.len()
            invariant
                i <= ms.len(),
                ms == self.model(),
                measures_wf(ms),
                self.values_bounded(),
                r.wf(),
                r.denominator == den,
                r.model() == accumulate(measure_scores(ms.subrange(0, i as int))),
                total_value(r.model()) <= i * MAX_MEASURE_VALUE,
            decreases ms.len() - i,
        {
            proof {
                assert(ms.subrange(0, i as int + 1).drop_last() =~= ms.subrange(0, i as int));
                assert(ms[i as int].value <= MAX_MEASURE_VALUE);
                assert(i * MAX_MEASURE_VALUE + MAX_MEASURE_VALUE <= u128::MAX) by (nonlinear_arith)
                    requires
                        i <= MAX_CHART_PRESSES,
                ;
                assert((i + 1) * MAX_MEASURE_VALUE == i * MAX_MEASURE_VALUE + MAX_MEASURE_VALUE) by (nonlinear_arith);
            }
            let m = &self.0[i];
            let ghost pre = ms.subrange(0, i as int);
            let ghost next = ms.subrange(0, i as int + 1);
            proof {
                assert(next.drop_last() =~= pre);
                assert(next.last() == ms[i as int]);
                assert(m@ == ms[i as int]);
            }
            if m.pattern != Pattern::Unclassified {
                r.add_pattern(m.pattern, m.value);
                proof {
                    let item = (m.pattern, m.value as int);
                    assert(measure_scores(next) == measure_scores(pre).push(item));
                    assert(measure_scores(pre).push(item).drop_last() =~= measure_scores(pre));
                    assert(accumulate(measure_scores(next)) == add_entry(
                        accumulate(measure_scores(pre)),
                        item.0,
                        item.1,
                    ));
                }
            } else {
                proof {
                    assert(measure_scores(next) == measure_scores(pre));
                }
            }
            i = i + 1;
        }
        proof {
            assert(ms.subrange(0, i as int) =~= ms);
            lemma_accumulate_sums(measure_scores(ms));
        }
        r
    }
}

/// Labels every measure and gives it its weighted value, against the
/// chart-wide average taken before any measure is labelled.
pub fn analyze_patterns(hit_objects: &mut HitObjects)
    requires
        old(hit_objects).wf(),
    ensures
        final(hit_objects).wf(),
        final(hit_objects).values_bounded(),
        final(hit_objects).model().len() == old(hit_objects).model().len(),
        forall|i: int|
            0 <= i < old(hit_objects).model().len() ==> #[trigger] final(hit_objects).model()[i]
                == analyzed(
                old(hit_objects).model()[i],
                total_npm(old(hit_objects).model()),
                old(hit_objects).model().len() as int,
            ),
{
    let ghost ms = hit_objects.model();
    let average = hit_objects.get_npm();
    let ghost total = total_npm(ms);
    let ghost count = ms.len() as int;
    let mut i: usize = 0;
    while i < hit_objects.0.len()
        invariant
            i <= ms.len(),
            hit_objects.model().len() == ms.len(),
            measures_wf(ms),
            average.total == total,
            average.measures == count,
            total == total_npm(ms),
            count == ms.len(),
            forall|j: int| 0 <= j < i ==> #[trigger] hit_objects.model()[j] == analyzed(ms[j], total, count),
            forall|j: int| i <= j < ms.len() ==> #[trigger] hit_objects.model()[j] == ms[j],
        decreases ms.len() - i,
    {
        let ghost pre_vec = hit_objects.0@;
        let ghost pre_model = hit_objects.model();
        proof {
            assert(hit_objects.model()[i as int] == ms[i as int]);
            assert(pre_vec[i as int]@ == ms[i as int]);
        }
        let mut m = hit_objects.0.remove(i);
        proof {
            assert(m@ == ms[i as int]);
            assert(ms[i as int].wf());
        }
        let p = m.detect_pattern();
        m.pattern = p;
        let w = m.get_pattern_weight_modifier(&average);
        m.value = w.num;
        hit_objects.0.insert(i, m);
        proof {
            assert(hit_objects.0@ =~= pre_vec.update(i as int, m));
            assert(m@ == analyzed(ms[i as int], total, count));
            assert forall|j: int| 0 <= j < ms.len() implies #[trigger] hit_objects.model()[j] == (
            if j <= i {
                analyzed(ms[j], total, count)
            } else {
                ms[j]
            }) by {
                assert(hit_objects.model()[j] == hit_objects.0@[j]@);
                if j != i {
                    assert(hit_objects.0@[j] == pre_vec[j]);
                    assert(pre_vec[j]@ == pre_model[j]);
                }
            }
        }
        i = i + 1;
    }
    proof {
        let fin = hit_objects.model();
        assert forall|j: int| 0 <= j < fin.len() implies #[trigger] fin[j].value
            <= MAX_MEASURE_VALUE by {
            assert(fin[j] == analyzed(ms[j], total, count));
            let npm = ms[j].npm;
            let wt = weight_tenths(classify(ms[j].notes));
            assert(density_num(npm, total, count) <= 5 * MAX_CHART_PRESSES + 1);
            assert(density_num(npm, total, count) * wt <= 11 * (5 * MAX_CHART_PRESSES + 1))
                by (nonlinear_arith)
                requires
                    0 <= density_num(npm, total, count) <= 5 * MAX_CHART_PRESSES + 1,
                    wt <= 11,
            ;
        }
        assert forall|j: int| 0 <= j < fin.len() implies (#[trigger] fin[j]).wf() by {
            assert(fin[j] == analyzed(ms[j], total, count));
            assert(ms[j].wf());
        }
        assert(total_npm(fin) == total_npm(ms)) by {
            lemma_total_npm_same(fin, ms);
        }
    }
}

/// Measures with the same presses, one by one, have the same total.
pub proof fn lemma_total_npm_same(a: Seq<MeasureModel>, b: Seq<MeasureModel>)
    requires
        a.len() == b.len(),
        forall|i: int| 0 <= i < a.len() ==> #[trigger] a[i].npm == b[i].npm,
    ensures
        total_npm(a) == total_npm(b),
    decreases a.len(),
{
    if a.len() > 0 {
        lemma_total_npm_same(a.drop_last(), b.drop_last());
    }
}

} // verus!
