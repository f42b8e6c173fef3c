use vstd::prelude::*;

use crate::pattern::{Pattern, rollup};
use crate::score::{
    PatternsValues, accumulate, all_nonneg, keys_unique, pattern_total, total_value,
};

verus! {

/// The largest value of a table, 0 for an empty one.
pub open spec fn max_value(es: Seq<(Pattern, int)>) -> int
    decreases es.len(),
{
    if es.len() == 0 {
        0
    } else if es.last().1 > max_value(es.drop_last()) {
        es.last().1
    } else {
        max_value(es.drop_last())
    }
}

/// Values never increase along the sequence.
pub open spec fn sorted_desc(es: Seq<(Pattern, int)>) -> bool {
    forall|i: int, j: int| 0 <= i < j < es.len() ==> es[i].1 >= es[j].1
}

/// The entries of a table with every key replaced by its category rollup.
pub open spec fn rolled_up(es: Seq<(Pattern, int)>) -> Seq<(Pattern, int)> {
    es.map_values(|e: (Pattern, int)| (rollup(e.0), e.1))
}

pub proof fn lemma_max_value(es: Seq<(Pattern, int)>)
    requires
        all_nonneg(es),
    ensures
        forall|i: int| 0 <= i < es.len() ==> es[i].1 <= max_value(es),
        es.len() > 0 ==> exists|i: int| 0 <= i < es.len() && es[i].1 == max_value(es),
        max_value(es) >= 0,
    decreases es.len(),
{
    if es.len() > 0 {
        let init = es.drop_last();
        assert(all_nonneg(init));
        lemma_max_value(init);
        assert(forall|j: int| 0 <= j < init.len() ==> init[j] == es[j]);
        if es.last().1 > max_value(init) {
            assert(es[es.len() - 1].1 == max_value(es));
        } else if init.len() > 0 {
            let w = choose|i: int| 0 <= i < init.len() && init[i].1 == max_value(init);
            assert(es[w].1 == max_value(es));
        }
    }
}

/// The largest value in the table.
fn largest(patterns: &PatternsValues) -> (r: u128)
    ensures
        r == max_value(patterns.model()),
{
    let ghost es = patterns.model();
    let mut best: u128 = 0;
    let mut i: usize = 0;
    while i < patterns.entries.len()
        invariant
            i <= es.len(),
            es == patterns.model(),
            best == max_value(es.subrange(0, i as int)),
        decreases es.len() - i,
    {
        proof {
            assert(es.subrange(0, i as int + 1).drop_last() =~= es.subrange(0, i as int));
        }
        if patterns.entries[i].1 > best {
            best = patterns.entries[i].1;
        }
        i = i + 1;
    }
    proof {
        assert(es.subrange(0, i as int) =~= es);
    }
    best
}

/// Entries whose doubled value reaches `floor`, highest value first.
fn rank_entries(patterns: &PatternsValues, floor: u128) -> (r: PatternsValues)
    requires
        patterns.wf(),
    ensures
        r.wf(),
        r.denominator == patterns.denominator,
        sorted_desc(r.model()),
        forall|e: (Pattern, int)|
            r.model().contains(e) <==> (patterns.model().contains(e) && 2 * e.1 >= floor),
{
    let ghost es = patterns.model();
    let half_up: u128 = floor / 2 + floor % 2;
    let mut r = PatternsValues::new(patterns.denominator);
    let mut i: usize = 0;
    while i < patterns.entries.len()
        invariant
            i <= es.len(),
            es == patterns.model(),
            patterns.wf(),
            half_up == floor / 2 + floor % 2,
            r.denominator == patterns.denominator,
            r.denominator > 0,
            sorted_desc(r.model()),
            keys_unique(r.model()),
            total_value(r.model()) <= total_value(es.subrange(0, i as int)),
            forall|e: (Pattern, int)|
                r.model().contains(e) <==> (es.subrange(0, i as int).contains(e) && 2 * e.1
                    >= floor),
        decreases es.len() - i,
    {
        let ghost pre = es.subrange(0, i as int);
        let ghost next = es.subrange(0, i as int + 1);
        let ghost rs = r.model();
        proof {
            assert(next =~= pre.push(es[i as int]));
            assert(next.drop_last() =~= pre);
        }
        let entry = patterns.entries[i];
        if entry.1 >= half_up {
            let mut q: usize = 0;
            while q < r.entries.len() && r.entries[q].1 >= entry.1
                invariant
                    q <= rs.len(),
                    rs == r.model(),
                    forall|j: int| 0 <= j < q ==> rs[j].1 >= entry.1,
                decreases rs.len() - q,
            {
                q = q + 1;
            }
            let ghost x = (entry.0, entry.1 as int);
            proof {
                assert(es[i as int] == x);
                assert forall|k: int| 0 <= k < rs.len() implies rs[k].0 != x.0 by {
                    assert(rs.contains(rs[k]));
                    let j = choose|j: int| 0 <= j < pre.len() && pre[j] == rs[k];
                    assert(pre[j] == es[j]);
                }
                assert(all_nonneg(pre));
                crate::score::lemma_total_nonneg(rs);
            }
            r.entries.insert(q, entry);
            proof {
                let rn = r.model();
                assert(rn =~= rs.insert(q as int, x));
                assert forall|a: int, b: int| 0 <= a < b < rn.len() implies rn[a].1 >= rn[b].1 by {
                    if b < q {
                    } else if a < q && b == q {
                    } else if a < q {
                        assert(rn[b] == rs[b - 1]);
                    } else if a == q {
                        assert(rn[b] == rs[b - 1]);
                        if b - 1 > q {
                            assert(rs[q as int].1 < entry.1 || q == rs.len());
                        }
                    } else {
                        assert(rn[a] == rs[a - 1]);
                        assert(rn[b] == rs[b - 1]);
                    }
                }
                assert forall|a: int, b: int| 0 <= a < b < rn.len() implies rn[a].0 != rn[b].0 by {
                    if b < q {
                    } else if a < q && b == q {
                    } else if a < q {
                        assert(rn[b] == rs[b - 1]);
                    } else if a == q {
                        assert(rn[b] == rs[b - 1]);
                    } else {
                        assert(rn[a] == rs[a - 1]);
                        assert(rn[b] == rs[b - 1]);
                    }
                }
                assert forall|e: (Pattern, int)| rn.contains(e) <==> (rs.contains(e) || e == x) by {
                    if rn.contains(e) {
                        let k = choose|k: int| 0 <= k < rn.len() && rn[k] == e;
                        if k < q {
                            assert(rs[k] == e);
                        } else if k > q {
                            assert(rs[k - 1] == e);
                        }
                    }
                    if rs.contains(e) {
                        let k = choose|k: int| 0 <= k < rs.len() && rs[k] == e;
                        if k < q {
                            assert(rn[k] == e);
                        } else {
                            assert(rn[k + 1] == e);
                        }
                    }
                    if e == x {
                        assert(rn[q as int] == e);
                    }
                }
                assert(2 * x.1 >= floor);
                assert forall|e: (Pattern, int)| next.contains(e) <==> (pre.contains(e) || e == x) by {
                    if next.contains(e) {
                        let k = choose|k: int| 0 <= k < next.len() && next[k] == e;
                        if k < pre.len() {
                            assert(pre[k] == e);
                        }
                    }
                    if pre.contains(e) {
                        let k = choose|k: int| 0 <= k < pre.len() && pre[k] == e;
                        assert(next[k] == e);
                    }
                    if e == x {
                        assert(next[i as int] == e);
                    }
                }
                assert(total_value(rn) == total_value(rs) + x.1) by {
                    assert(rs.insert(q as int, x).len() == rs.len() + 1);
                    lemma_total_insert(rs, q as int, x);
                }
            }
        } else {
            proof {
                let x = (entry.0, entry.1 as int);
                assert(es[i as int] == x);
                assert(2 * x.1 < floor);
                assert forall|e: (Pattern, int)| next.contains(e) <==> (pre.contains(e) || e == x) by {
                    if next.contains(e) {
                        let k = choose|k: int| 0 <= k < next.len() && next[k] == e;
                        if k < pre.len() {
                            assert(pre[k] == e);
                        }
                    }
                    if pre.contains(e) {
                        let k = choose|k: int| 0 <= k < pre.len() && pre[k] == e;
                        assert(next[k] == e);
                    }
                    if e == x {
                        assert(next[i as int] == e);
                    }
                }
            }
        }
        i = i + 1;
    }
    proof {
        assert(es.subrange(0, i as int) =~= es);
    }
    r
}

pub proof fn lemma_total_insert(es: Seq<(Pattern, int)>, q: int, x: (Pattern, int))
    requires
        0 <= q <= es.len(),
    ensures
        total_value(es.insert(q, x)) == total_value(es) + x.1,
    decreases es.len(),
{
    if q < es.len() {
        lemma_total_insert(es.drop_last(), q, x);
        assert(es.insert(q, x).drop_last() =~= es.drop_last().insert(q, x));
    } else {
        assert(es.insert(q, x).drop_last() =~= es);
    }
}

/// The co-dominant top tier: every entry worth at least half the largest
/// value, highest first.  A non-empty table gives a non-empty tier.
pub fn max_values(patterns: &PatternsValues) -> (r: PatternsValues)
    requires
        patterns.wf(),
    ensures
        r.wf(),
        r.denominator == patterns.denominator,
        sorted_desc(r.model()),
        forall|e: (Pattern, int)|
            r.model().contains(e) <==> (patterns.model().contains(e) && 2 * e.1 >= max_value(
                patterns.model(),
            )),
        patterns.model().len() > 0 ==> r.model().len() > 0,
{
    let top = largest(patterns);
    let r = rank_entries(patterns, top);
    proof {
        let es = patterns.model();
        if es.len() > 0 {
            assert(all_nonneg(es));
            lemma_max_value(es);
            let w = choose|i: int| 0 <= i < es.len() && es[i].1 == max_value(es);
            assert(es.contains(es[w]));
            assert(r.model().contains(es[w]));
        }
    }
    r
}

/// Every entry of the table, highest value first.
pub fn ordered_entries(patterns: &PatternsValues) -> (r: PatternsValues)
    requires
        patterns.wf(),
    ensures
        r.wf(),
        r.denominator == patterns.denominator,
        sorted_desc(r.model()),
        forall|e: (Pattern, int)| r.model().contains(e) <==> patterns.model().contains(e),
{
    rank_entries(patterns, 0)
}

/// Sums the scores per category: every key becomes its category's rollup.
pub fn sum_by_secondary_type(patterns: &PatternsValues) -> (r: PatternsValues)
    requires
        patterns.wf(),
    ensures
        r.wf(),
        r.denominator == patterns.denominator,
        r.model() == accumulate(rolled_up(patterns.model())),
        forall|k: int|
            0 <= k < r.model().len() ==> #[trigger] r.model()[k].1 == pattern_total(
                rolled_up(patterns.model()),
                r.model()[k].0,
            ),
{
    let ghost es = patterns.model();
    let mut r = PatternsValues::new(patterns.denominator);
    let mut i: usize = 0;
    proof {
        assert(r.model() =~= accumulate(rolled_up(es.subrange(0, 0))));
    }
    while i < patterns.entries.len()
        invariant
            i <= es.len(),
            es == patterns.model(),
            patterns.wf(),
            r.wf(),
            r.denominator == patterns.denominator,
            r.model() == accumulate(rolled_up(es.subrange(0, i as int))),
            total_value(r.model()) == total_value(es.subrange(0, i as int)),
        decreases es.len() - i,
    {
        let ghost pre = es.subrange(0, i as int);
        let ghost next = es.subrange(0, i as int + 1);
        proof {
            assert(next.drop_last() =~= pre);
            assert(rolled_up(next).drop_last() =~= rolled_up(pre));
            assert(all_nonneg(es));
            crate::score::lemma_total_nonneg(es.subrange(i as int + 1, es.len() as int));
            assert(es =~= next + es.subrange(i as int + 1, es.len() as int));
            lemma_total_concat(next, es.subrange(i as int + 1, es.len() as int));
        }
        let entry = patterns.entries[i];
        r.add_pattern(entry.0.to_all(), entry.1);
        i = i + 1;
    }
    proof {
        assert(es.subrange(0, i as int) =~= es);
        crate::score::lemma_accumulate_sums(rolled_up(es));
    }
    r
}

pub proof fn lemma_total_concat(a: Seq<(Pattern, int)>, b: Seq<(Pattern, int)>)
    ensures
        total_value(a + b) == total_value(a) + total_value(b),
    decreases b.len(),
{
    if b.len() == 0 {
        assert(a + b =~= a);
    } else {
        lemma_total_concat(a, b.drop_last());
        assert((a + b).drop_last() =~= a + b.drop_last());
    }
}

/// The co-dominant top tier of the category rollup.
pub fn max_by_secondary_type(patterns: &PatternsValues) -> (r: PatternsValues)
    requires
        patterns.wf(),
    ensures
        r.wf(),
        r.denominator == patterns.denominator,
        sorted_desc(r.model()),
        forall|e: (Pattern, int)|
            r.model().contains(e) <==> (accumulate(rolled_up(patterns.model())).contains(e) && 2
                * e.1 >= max_value(accumulate(rolled_up(patterns.model())))),
{
    let sums = sum_by_secondary_type(patterns);
    max_values(&sums)
}

} // verus!
