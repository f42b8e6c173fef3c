use vstd::prelude::*;

use crate::pattern::Pattern;

verus! {

/// An exact non-negative fraction `num / den`.
#[derive(Debug, Clone, Copy, PartialEq, Eq, Structural)]
pub struct Ratio {
    pub num: u128,
    pub den: u128,
}

/// The entries of a score table as mathematical pairs.
pub open spec fn entries_model(v: Seq<(Pattern, u128)>) -> Seq<(Pattern, int)> {
    v.map_values(|e: (Pattern, u128)| (e.0, e.1 as int))
}

/// Index of the entry whose key is `p`, or -1.
pub open spec fn key_index(es: Seq<(Pattern, int)>, p: Pattern) -> int
    decreases es.len(),
{
    if es.len() == 0 {
        -1
    } else {
        let k = key_index(es.drop_last(), p);
        if k >= 0 {
            k
        } else if es.last().0 == p {
            es.len() - 1
        } else {
            -1
        }
    }
}

/// Adds `v` to the entry of `p`, appending the entry when it is missing.
pub open spec fn add_entry(es: Seq<(Pattern, int)>, p: Pattern, v: int) -> Seq<(Pattern, int)> {
    let k = key_index(es, p);
    if k >= 0 {
        es.update(k, (p, es[k].1 + v))
    } else {
        es.push((p, v))
    }
}

/// Sums the values per key, keys in order of first appearance.
pub open spec fn accumulate(vals: Seq<(Pattern, int)>) -> Seq<(Pattern, int)>
    decreases vals.len(),
{
    if vals.len() == 0 {
        Seq::empty()
    } else {
        add_entry(accumulate(vals.drop_last()), vals.last().0, vals.last().1)
    }
}

/// Sum of all values.
pub open spec fn total_value(es: Seq<(Pattern, int)>) -> int
    decreases es.len(),
{
    if es.len() == 0 {
        0
    } else {
        total_value(es.drop_last()) + es.last().1
    }
}

/// Sum of the values of key `p`.
pub open spec fn pattern_total(vals: Seq<(Pattern, int)>, p: Pattern) -> int
    decreases vals.len(),
{
    if vals.len() == 0 {
        0
    } else {
        pattern_total(vals.drop_last(), p) + if vals.last().0 == p {
            vals.last().1
        } else {
            0
        }
    }
}

pub open spec fn keys_unique(es: Seq<(Pattern, int)>) -> bool {
    forall|i: int, j: int| 0 <= i < j < es.len() ==> es[i].0 != es[j].0
}

pub open spec fn all_nonneg(es: Seq<(Pattern, int)>) -> bool {
    forall|i: int| 0 <= i < es.len() ==> es[i].1 >= 0
}

pub proof fn lemma_key_index(es: Seq<(Pattern, int)>, p: Pattern)
    ensures
        -1 <= key_index(es, p) < es.len(),
        key_index(es, p) == -1 ==> forall|j: int| 0 <= j < es.len() ==> es[j].0 != p,
        key_index(es, p) >= 0 ==> es[key_index(es, p)].0 == p && forall|j: int|
            0 <= j < key_index(es, p) ==> es[j].0 != p,
    decreases es.len(),
{
    if es.len() > 0 {
        let init = es.drop_last();
        lemma_key_index(init, p);
        assert(forall|j: int| 0 <= j < init.len() ==> init[j] == es[j]);
    }
}

pub proof fn lemma_total_update(es: Seq<(Pattern, int)>, k: int, e: (Pattern, int))
    requires
        0 <= k < es.len(),
    ensures
        total_value(es.update(k, e)) == total_value(es) - es[k].1 + e.1,
    decreases es.len(),
{
    if k < es.len() - 1 {
        lemma_total_update(es.drop_last(), k, e);
        assert(es.update(k, e).drop_last() =~= es.drop_last().update(k, e));
    } else {
        assert(es.update(k, e).drop_last() =~= es.drop_last());
    }
}

pub proof fn lemma_entry_le_total(es: Seq<(Pattern, int)>, k: int)
    requires
        0 <= k < es.len(),
        all_nonneg(es),
    ensures
        es[k].1 <= total_value(es),
        total_value(es) >= 0,
    decreases es.len(),
{
    lemma_total_nonneg(es.drop_last());
    if k < es.len() - 1 {
        lemma_entry_le_total(es.drop_last(), k);
    }
}

pub proof fn lemma_total_nonneg(es: Seq<(Pattern, int)>)
    requires
        all_nonneg(es),
    ensures
        total_value(es) >= 0,
    decreases es.len(),
{
    if es.len() > 0 {
        lemma_total_nonneg(es.drop_last());
    }
}

/// Adding to an entry adds to the total, keeps the keys unique and the values
/// non-negative.
pub proof fn lemma_add_entry(es: Seq<(Pattern, int)>, p: Pattern, v: int)
    requires
        keys_unique(es),
        all_nonneg(es),
        v >= 0,
    ensures
        total_value(add_entry(es, p, v)) == total_value(es) + v,
        keys_unique(add_entry(es, p, v)),
        all_nonneg(add_entry(es, p, v)),
{
    lemma_key_index(es, p);
    let k = key_index(es, p);
    if k >= 0 {
        lemma_total_update(es, k, (p, es[k].1 + v));
    } else {
        assert(es.push((p, v)).drop_last() =~= es);
    }
}

/// Accumulation gives each key exactly once, with the sum of its values;
/// every key of the input has an entry.
pub proof fn lemma_accumulate_sums(vals: Seq<(Pattern, int)>)
    ensures
        keys_unique(accumulate(vals)),
        forall|k: int|
            0 <= k < accumulate(vals).len() ==> #[trigger] accumulate(vals)[k].1 == pattern_total(
                vals,
                accumulate(vals)[k].0,
            ),
        forall|i: int|
            0 <= i < vals.len() ==> key_index(accumulate(vals), #[trigger] vals[i].0) >= 0,
        forall|p: Pattern| key_index(accumulate(vals), p) < 0 ==> pattern_total(vals, p) == 0,
    decreases vals.len(),
{
    if vals.len() > 0 {
        let init = vals.drop_last();
        let acc = accumulate(init);
        let (p, v) = vals.last();
        lemma_accumulate_sums(init);
        lemma_key_index(acc, p);
        let r = accumulate(vals);
        assert(r == add_entry(acc, p, v));
        let ki = key_index(acc, p);
        assert forall|k: int| 0 <= k < r.len() implies #[trigger] r[k].1 == pattern_total(
            vals,
            r[k].0,
        ) by {
            let q = r[k].0;
            assert(pattern_total(vals, q) == pattern_total(init, q) + if q == p {
                v
            } else {
                0
            });
            if ki >= 0 {
                assert(acc[ki].1 == pattern_total(init, acc[ki].0));
                if k != ki {
                    assert(r[k] == acc[k]);
                    assert(acc[k].1 == pattern_total(init, acc[k].0));
                    assert(acc[k].0 != p);
                }
            } else {
                if k < acc.len() {
                    assert(r[k] == acc[k]);
                    assert(acc[k].1 == pattern_total(init, acc[k].0));
                    assert(acc[k].0 != p);
                } else {
                    assert(pattern_total(init, p) == 0);
                }
            }
        }
        assert forall|a: int, b: int| 0 <= a < b < r.len() implies r[a].0 != r[b].0 by {
            if ki < 0 && b == acc.len() {
                assert(r[a] == acc[a]);
            }
        }
        assert forall|i: int| 0 <= i < vals.len() implies key_index(r, #[trigger] vals[i].0)
            >= 0 by {
            lemma_key_index(r, vals[i].0);
            let q = vals[i].0;
            if i < init.len() {
                assert(init[i] == vals[i]);
                lemma_key_index(acc, q);
                let kq = key_index(acc, q);
                assert(r[kq].0 == q);
            } else {
                if ki >= 0 {
                    assert(r[ki].0 == p);
                } else {
                    assert(r[acc.len() as int].0 == p);
                }
            }
        }
        assert forall|q: Pattern| key_index(r, q) < 0 implies pattern_total(vals, q) == 0 by {
            assert(pattern_total(vals, q) == pattern_total(init, q) + if q == p {
                v
            } else {
                0
            });
            lemma_key_index(r, q);
            lemma_key_index(acc, q);
            if key_index(acc, q) >= 0 {
                let kq = key_index(acc, q);
                assert(r[kq].0 == q);
            }
            if q == p {
                if ki >= 0 {
                    assert(r[ki].0 == p);
                } else {
                    assert(r[acc.len() as int].0 == p);
                }
            }
        }
    }
}

/// A table of accumulated scores: each pattern once, its score being
/// `value / denominator`.
#[derive(Debug)]
pub struct PatternsValues {
    pub denominator: u128,
    pub entries: Vec<(Pattern, u128)>,
}

impl PatternsValues {
    pub open spec fn model(&self) -> Seq<(Pattern, int)> {
        entries_model(self.entries@)
    }

    /// Keys are unique and the values add up without overflow.
    pub open spec fn wf(&self) -> bool {
        &&& self.denominator > 0
        &&& keys_unique(self.model())
        &&& total_value(self.model()) <= u128::MAX
    }

    /// An empty table over `denominator`.
    pub fn new(denominator: u128) -> (r: PatternsValues)
        ensures
            r.denominator == denominator,
            r.model() == Seq::<(Pattern, int)>::empty(),
    {
        let r = PatternsValues { denominator, entries: Vec::new() };
        proof {
            assert(r.model() =~= Seq::<(Pattern, int)>::empty());
        }
        r
    }

    /// Adds `value` to the score of `pattern`.
    pub fn add_pattern(&mut self, pattern: Pattern, value: u128)
        requires
            old(self).wf(),
            total_value(old(self).model()) + value <= u128::MAX,
        ensures
            final(self).wf(),
            final(self).denominator == old(self).denominator,
            final(self).model() == add_entry(old(self).model(), pattern, value as int),
            total_value(final(self).model()) == total_value(old(self).model()) + value,
    {
        let ghost es = self.model();
        proof {
            assert(all_nonneg(es));
            lemma_key_index(es, pattern);
            lemma_add_entry(es, pattern, value as int);
        }
        let mut i: usize = 0;
        while i < self.entries.len()
            invariant
                i <= self.entries@.len(),
                es == self.model(),
                es.len() == self.entries@.len(),
                self.entries@ == old(self).entries@,
                self.denominator == old(self).denominator,
                keys_unique(es),
                self.denominator > 0,
                total_value(es) + value <= u128::MAX,
                forall|j: int| 0 <= j < i ==> es[j].0 != pattern,
            decreases self.entries@.len() - i,
        {
            if self.entries[i].0 == pattern {
                proof {
                    assert(all_nonneg(es));
                    lemma_key_index(es, pattern);
                    lemma_add_entry(es, pattern, value as int);
                    assert(es[i as int].0 == pattern);
                    assert(key_index(es, pattern) == i);
                    lemma_entry_le_total(es, i as int);
                }
                let old_value = self.entries[i].1;
                self.entries.set(i, (pattern, old_value + value));
                proof {
                    assert(self.model() =~= add_entry(es, pattern, value as int));
                }
                return;
            }
            i = i + 1;
        }
        self.entries.push((pattern, value));
        proof {
            assert(self.model() =~= add_entry(es, pattern, value as int));
        }
    }
}

} // verus!
