use vstd::prelude::*;
use vstd::arithmetic::div_mod::{lemma_fundamental_div_mod, lemma_fundamental_div_mod_converse};

use crate::detector::{HitObjects, MAX_CHART_PRESSES, measures_model, total_npm};
use crate::measure::{CommonMeasure, ManiaMeasure, MeasureModel, notes_model, total_active};
use crate::notes::{NoteModel, NotesStruct, active_columns};
use crate::pattern::Pattern;

verus! {

/// A timing section: from `time` (ms) on, one measure lasts
/// `beat_num / beat_den` ms.
#[derive(Debug, Clone, Copy, PartialEq, Eq, Structural)]
pub struct TimingSegment {
    pub time: i32,
    pub beat_num: u32,
    pub beat_den: u32,
}

impl TimingSegment {
    /// A measure has a positive length.
    pub open spec fn wf(self) -> bool {
        self.beat_num > 0 && self.beat_den > 0
    }
}

pub open spec fn segments_wf(segs: Seq<TimingSegment>) -> bool {
    forall|i: int| 0 <= i < segs.len() ==> (#[trigger] segs[i]).wf()
}

/// Why a chart cannot be analysed.
#[derive(Debug, Clone, Copy, PartialEq, Eq, Structural)]
pub enum ChartError {
    /// The chart is not a column-based chart.
    UnsupportedMode,
    /// The chart has no timing section to measure notes against.
    EmptyTimingSegments,
}

/// The segment that governs time `t` among the first `n`: the latest one
/// that starts at or before `t`, or the first one when none does.
pub open spec fn seg_index(t: int, segs: Seq<TimingSegment>, n: int) -> int
    decreases n,
{
    if n <= 0 {
        0
    } else if segs[n - 1].time <= t {
        n - 1
    } else {
        seg_index(t, segs, n - 1)
    }
}

/// Division rounding toward zero, for a positive divisor.
pub open spec fn trunc_div(a: int, b: int) -> int {
    if a >= 0 {
        a / b
    } else {
        -((-a) / b)
    }
}

/// Start of the measure of `seg` that holds time `t`:
/// `time + trunc(floor((t - time) / len) * len)`, with `len` the measure length.
pub open spec fn measure_start(t: int, seg: TimingSegment) -> int {
    let index = ((t - seg.time) * seg.beat_den) / (seg.beat_num as int);
    seg.time + trunc_div(index * seg.beat_num, seg.beat_den as int)
}

pub open spec fn start_of(t: int, segs: Seq<TimingSegment>) -> int {
    measure_start(t, segs[seg_index(t, segs, segs.len() as int)])
}

/// Where a measure starting at `s` goes among measures ordered by start.
pub open spec fn measure_pos(ms: Seq<MeasureModel>, s: int) -> int
    decreases ms.len(),
{
    if ms.len() == 0 {
        0
    } else if ms.last().start < s {
        ms.len() as int
    } else {
        measure_pos(ms.drop_last(), s)
    }
}

/// A measure that holds the note `n` alone.
pub open spec fn fresh_measure(s: int, n: NoteModel) -> MeasureModel {
    MeasureModel { start: s, npm: n.active() as int, notes: seq![n], pattern: Pattern::Unclassified, value: 0 }
}

/// Puts a note into the measure of its start time, creating it if needed.
pub open spec fn add_note(ms: Seq<MeasureModel>, n: NoteModel, segs: Seq<TimingSegment>) -> Seq<
    MeasureModel,
> {
    let s = start_of(n.timestamp, segs);
    let p = measure_pos(ms, s);
    if p < ms.len() && ms[p].start == s {
        ms.update(
            p,
            MeasureModel { notes: ms[p].notes.push(n), npm: ms[p].npm + n.active(), ..ms[p] },
        )
    } else {
        ms.insert(p, fresh_measure(s, n))
    }
}

/// The measures of a chart, in order of start time, each holding its notes
/// in their order.
pub open spec fn group(ns: Seq<NoteModel>, segs: Seq<TimingSegment>) -> Seq<MeasureModel>
    decreases ns.len(),
{
    if ns.len() == 0 {
        Seq::empty()
    } else {
        add_note(group(ns.drop_last(), segs), ns.last(), segs)
    }
}

/// Number of notes over all measures.
pub open spec fn note_total(ms: Seq<MeasureModel>) -> int
    decreases ms.len(),
{
    if ms.len() == 0 {
        0
    } else {
        note_total(ms.drop_last()) + ms.last().notes.len()
    }
}

pub proof fn lemma_measure_start_range(t: int, seg: TimingSegment)
    requires
        seg.wf(),
    ensures
        t - seg.beat_num - 1 <= measure_start(t, seg) <= t,
{
    let d = t - seg.time;
    let n = seg.beat_num as int;
    let den = seg.beat_den as int;
    let a = d * den;
    let index = a / n;
    lemma_fundamental_div_mod(a, n);
    assert(index * n <= a < index * n + n) by (nonlinear_arith)
        requires
            a == n * (a / n) + a % n,
            0 <= a % n < n,
            index == a / n,
    ;
    let b = index * n;
    let q = trunc_div(b, den);
    if b >= 0 {
        lemma_fundamental_div_mod(b, den);
        assert(q <= d && q >= d - n - 1) by (nonlinear_arith)
            requires
                b == den * q + b % den,
                0 <= b % den < den,
                b <= a,
                a < b + n,
                a == d * den,
                den >= 1,
                n >= 1,
        ;
    } else {
        lemma_fundamental_div_mod(-b, den);
        assert(q <= d && q >= d - n - 1) by (nonlinear_arith)
            requires
                -b == den * (-q) + (-b) % den,
                0 <= (-b) % den < den,
                b <= a,
                a < b + n,
                a == d * den,
                den >= 1,
                n >= 1,
        ;
    }
}

/// Start of the measure of `seg` that holds time `t`.
fn measure_start_exec(t: i32, seg: &TimingSegment) -> (r: i64)
    requires
        seg.wf(),
    ensures
        r == measure_start(t as int, *seg),
{
    proof {
        lemma_measure_start_range(t as int, *seg);
    }
    let n = seg.beat_num as i128;
    let den = seg.beat_den as i128;
    let d: i128 = t as i128 - seg.time as i128;
    assert(-0x1_0000_0000_0000_0000 < d * den < 0x1_0000_0000_0000_0000) by (nonlinear_arith)
        requires
            -0x1_0000_0000 < d < 0x1_0000_0000,
            1 <= den < 0x1_0000_0000,
    ;
    let a: i128 = d * den;
    let ghost index = (a as int) / (n as int);
    let idx: i128 = if a >= 0 {
        ((a as u128) / (n as u128)) as i128
    } else {
        let up: u128 = (-a) as u128 + (n as u128) - 1;
        let q: u128 = up / (n as u128);
        proof {
            lemma_fundamental_div_mod(up as int, n as int);
            let rem = (up as int) % (n as int);
            assert(a == (-(q as int)) * n + (n - 1 - rem)) by (nonlinear_arith)
                requires
                    up == n * q + rem,
                    up == -a + n - 1,
            ;
            lemma_fundamental_div_mod_converse(a as int, n as int, -(q as int), n - 1 - rem);
        }
        -(q as i128)
    };
    proof {
        lemma_fundamental_div_mod(a as int, n as int);
        assert(idx * n <= a < idx * n + n) by (nonlinear_arith)
            requires
                a == n * index + (a as int) % (n as int),
                0 <= (a as int) % (n as int) < n,
                idx == index,
        ;
    }
    let b: i128 = idx * n;
    let q: i128 = if b >= 0 {
        ((b as u128) / (den as u128)) as i128
    } else {
        -(((-b) as u128 / (den as u128)) as i128)
    };
    (seg.time as i128 + q) as i64
}

/// Measures ordered by strictly increasing start, none empty, each counting
/// the presses of its notes.
pub open spec fn measures_ordered(ms: Seq<MeasureModel>) -> bool {
    &&& forall|i: int, j: int| 0 <= i < j < ms.len() ==> ms[i].start < ms[j].start
    &&& forall|i: int| 0 <= i < ms.len() ==> (#[trigger] ms[i]).wf()
}

pub proof fn lemma_measure_pos(ms: Seq<MeasureModel>, s: int)
    requires
        forall|i: int, j: int| 0 <= i < j < ms.len() ==> ms[i].start < ms[j].start,
    ensures
        0 <= measure_pos(ms, s) <= ms.len(),
        forall|i: int| 0 <= i < measure_pos(ms, s) ==> ms[i].start < s,
        forall|i: int| measure_pos(ms, s) <= i < ms.len() ==> ms[i].start >= s,
    decreases ms.len(),
{
    if ms.len() > 0 {
        let init = ms.drop_last();
        lemma_measure_pos(init, s);
        assert(forall|j: int| 0 <= j < init.len() ==> init[j] == ms[j]);
    }
}

pub proof fn lemma_totals_update(ms: Seq<MeasureModel>, p: int, m: MeasureModel)
    requires
        0 <= p < ms.len(),
    ensures
        total_npm(ms.update(p, m)) == total_npm(ms) - ms[p].npm + m.npm,
        note_total(ms.update(p, m)) == note_total(ms) - ms[p].notes.len() + m.notes.len(),
    decreases ms.len(),
{
    if p < ms.len() - 1 {
        lemma_totals_update(ms.drop_last(), p, m);
        assert(ms.update(p, m).drop_last() =~= ms.drop_last().update(p, m));
    } else {
        assert(ms.update(p, m).drop_last() =~= ms.drop_last());
    }
}

pub proof fn lemma_totals_insert(ms: Seq<MeasureModel>, p: int, m: MeasureModel)
    requires
        0 <= p <= ms.len(),
    ensures
        total_npm(ms.insert(p, m)) == total_npm(ms) + m.npm,
        note_total(ms.insert(p, m)) == note_total(ms) + m.notes.len(),
    decreases ms.len(),
{
    if p < ms.len() {
        lemma_totals_insert(ms.drop_last(), p, m);
        assert(ms.insert(p, m).drop_last() =~= ms.drop_last().insert(p, m));
    } else {
        assert(ms.insert(p, m).drop_last() =~= ms);
    }
}

pub proof fn lemma_npm_le_total(ms: Seq<MeasureModel>, p: int)
    requires
        0 <= p < ms.len(),
        forall|i: int| 0 <= i < ms.len() ==> (#[trigger] ms[i]).npm >= 0,
    ensures
        0 <= ms[p].npm <= total_npm(ms),
    decreases ms.len(),
{
    crate::detector::lemma_total_npm_nonneg(ms.drop_last());
    if p < ms.len() - 1 {
        lemma_npm_le_total(ms.drop_last(), p);
    }
}

/// Adding a note keeps the measures ordered and adds its presses and itself
/// to the totals.
pub proof fn lemma_add_note(ms: Seq<MeasureModel>, n: NoteModel, segs: Seq<TimingSegment>)
    requires
        measures_ordered(ms),
    ensures
        measures_ordered(add_note(ms, n, segs)),
        total_npm(add_note(ms, n, segs)) == total_npm(ms) + n.active(),
        note_total(add_note(ms, n, segs)) == note_total(ms) + 1,
        add_note(ms, n, segs).len() <= ms.len() + 1,
{
    let s = start_of(n.timestamp, segs);
    lemma_measure_pos(ms, s);
    let p = measure_pos(ms, s);
    let r = add_note(ms, n, segs);
    if p < ms.len() && ms[p].start == s {
        let m = MeasureModel { notes: ms[p].notes.push(n), npm: ms[p].npm + n.active(), ..ms[p] };
        assert(m.notes.drop_last() =~= ms[p].notes);
        assert(m.wf());
        lemma_totals_update(ms, p, m);
        assert forall|i: int| 0 <= i < r.len() implies (#[trigger] r[i]).wf() by {
            if i != p {
                assert(r[i] == ms[i]);
            }
        }
    } else {
        let m = fresh_measure(s, n);
        assert(m.notes.drop_last() =~= Seq::<NoteModel>::empty());
        assert(total_active(Seq::<NoteModel>::empty()) == 0);
        assert(m.notes.last() == n);
        assert(total_active(m.notes) == n.active());
        assert(m.wf());
        lemma_totals_insert(ms, p, m);
        assert forall|i: int, j: int| 0 <= i < j < r.len() implies r[i].start < r[j].start by {
            if j < p {
            } else if i < p && j == p {
            } else if i < p {
                assert(r[j] == ms[j - 1]);
            } else if i == p {
                assert(r[j] == ms[j - 1]);
            } else {
                assert(r[i] == ms[i - 1]);
                assert(r[j] == ms[j - 1]);
            }
        }
        assert forall|i: int| 0 <= i < r.len() implies (#[trigger] r[i]).wf() by {
            if i < p {
            } else if i == p {
            } else {
                assert(r[i] == ms[i - 1]);
            }
        }
    }
}

/// Grouping keeps the measures ordered; their presses add up to those of
/// the notes, and their note counts to the number of notes.
pub proof fn lemma_group(ns: Seq<NoteModel>, segs: Seq<TimingSegment>)
    ensures
        measures_ordered(group(ns, segs)),
        total_npm(group(ns, segs)) == total_active(ns),
        note_total(group(ns, segs)) == ns.len(),
        group(ns, segs).len() <= ns.len(),
    decreases ns.len(),
{
    if ns.len() > 0 {
        lemma_group(ns.drop_last(), segs);
        lemma_add_note(group(ns.drop_last(), segs), ns.last(), segs);
    }
}

/// The notes, in order, whose measure starts at `s`.
pub open spec fn notes_starting(ns: Seq<NoteModel>, segs: Seq<TimingSegment>, s: int) -> Seq<
    NoteModel,
>
    decreases ns.len(),
{
    if ns.len() == 0 {
        Seq::empty()
    } else if start_of(ns.last().timestamp, segs) == s {
        notes_starting(ns.drop_last(), segs, s).push(ns.last())
    } else {
        notes_starting(ns.drop_last(), segs, s)
    }
}

proof fn lemma_notes_starting_none(ns: Seq<NoteModel>, segs: Seq<TimingSegment>, s: int)
    requires
        forall|i: int| 0 <= i < ns.len() ==> start_of(#[trigger] ns[i].timestamp, segs) != s,
    ensures
        notes_starting(ns, segs, s) == Seq::<NoteModel>::empty(),
    decreases ns.len(),
{
    if ns.len() > 0 {
        let init = ns.drop_last();
        assert forall|i: int| 0 <= i < init.len() implies start_of(#[trigger] init[i].timestamp, segs)
            != s by {
            assert(init[i] == ns[i]);
        }
        lemma_notes_starting_none(init, segs, s);
        assert(start_of(ns[ns.len() - 1].timestamp, segs) != s);
    }
}

/// Each measure holds exactly the notes whose measure starts at its start,
/// in their order, and every note has its measure.
pub proof fn lemma_group_partitions(ns: Seq<NoteModel>, segs: Seq<TimingSegment>)
    ensures
        forall|j: int|
            0 <= j < group(ns, segs).len() ==> (#[trigger] group(ns, segs)[j]).notes
                == notes_starting(ns, segs, group(ns, segs)[j].start),
        forall|i: int|
            0 <= i < ns.len() ==> exists|j: int|
                0 <= j < group(ns, segs).len() && group(ns, segs)[j].start == start_of(
                    #[trigger] ns[i].timestamp,
                    segs,
                ),
    decreases ns.len(),
{
    if ns.len() == 0 {
        return;
    }
    let init = ns.drop_last();
    let n = ns.last();
    let ms = group(init, segs);
    let r = group(ns, segs);
    lemma_group_partitions(init, segs);
    lemma_group(init, segs);
    assert(r == add_note(ms, n, segs));
    let s = start_of(n.timestamp, segs);
    lemma_measure_pos(ms, s);
    let p = measure_pos(ms, s);
    let found = p < ms.len() && ms[p].start == s;
    assert forall|j: int| 0 <= j < ms.len() && ms[j].start == s implies j == p by {
        if j > p {
            assert(ms[p].start < ms[j].start);
        }
    }
    assert forall|j: int| 0 <= j < r.len() implies (#[trigger] r[j]).notes == notes_starting(
        ns,
        segs,
        r[j].start,
    ) by {
        if found {
            if j != p {
                assert(r[j] == ms[j]);
                assert(ms[j].notes == notes_starting(init, segs, ms[j].start));
            } else {
                assert(ms[p].notes == notes_starting(init, segs, ms[p].start));
            }
        } else {
            if j < p {
                assert(r[j] == ms[j]);
                assert(ms[j].notes == notes_starting(init, segs, ms[j].start));
            } else if j > p {
                assert(r[j] == ms[j - 1]);
                assert(ms[j - 1].notes == notes_starting(init, segs, ms[j - 1].start));
            } else {
                assert forall|i: int| 0 <= i < init.len() implies start_of(
                    #[trigger] init[i].timestamp,
                    segs,
                ) != s by {
                    let k = choose|k: int|
                        0 <= k < ms.len() && ms[k].start == start_of(init[i].timestamp, segs);
                }
                lemma_notes_starting_none(init, segs, s);
                assert(r[p].notes =~= Seq::<NoteModel>::empty().push(n));
            }
        }
    }
    assert forall|i: int| 0 <= i < ns.len() implies exists|j: int|
        0 <= j < r.len() && r[j].start == start_of(#[trigger] ns[i].timestamp, segs) by {
        if i == ns.len() - 1 {
            assert(r[p].start == s);
        } else {
            assert(init[i] == ns[i]);
            let k = choose|k: int| 0 <= k < ms.len() && ms[k].start == start_of(init[i].timestamp, segs);
            if found || k < p {
                assert(r[k].start == ms[k].start);
            } else {
                assert(r[k + 1] == ms[k]);
            }
        }
    }
}

/// Index of the segment that governs time `t`.
fn segment_for(t: i32, segs: &Vec<TimingSegment>) -> (r: usize)
    requires
        segs@.len() > 0,
    ensures
        r == seg_index(t as int, segs@, segs@.len() as int),
        r < segs@.len(),
{
    let mut i: usize = segs.len();
    while i > 0 && segs[i - 1].time > t
        invariant
            i <= segs@.len(),
            seg_index(t as int, segs@, segs@.len() as int) == seg_index(t as int, segs@, i as int),
        decreases i,
    {
        i = i - 1;
    }
    if i == 0 {
        0
    } else {
        i - 1
    }
}

/// Puts one note into its measure.
fn place_note(measures: &mut Vec<ManiaMeasure>, note: NotesStruct, segs: &Vec<TimingSegment>)
    requires
        segs@.len() > 0,
        segments_wf(segs@),
        measures_ordered(measures_model(old(measures)@)),
        total_npm(measures_model(old(measures)@)) + note@.active() <= MAX_CHART_PRESSES,
    ensures
        measures_model(final(measures)@) == add_note(measures_model(old(measures)@), note@, segs@),
{
    let ghost before = measures_model(measures@);
    let k = segment_for(note.timestamp, segs);
    let s = measure_start_exec(note.timestamp, &segs[k]);
    let a = active_columns(&note.notes);
    let mut p: usize = measures.len();
    proof {
        assert(before.subrange(0, p as int) =~= before);
    }
    while p > 0 && measures[p - 1].measure.start_time >= s
        invariant
            p <= measures@.len(),
            before == measures_model(measures@),
            measure_pos(before, s as int) == measure_pos(before.subrange(0, p as int), s as int),
        decreases p,
    {
        proof {
            assert(before.subrange(0, p as int).drop_last() =~= before.subrange(0, p as int - 1));
        }
        p = p - 1;
    }
    proof {
        if p > 0 {
            assert(before.subrange(0, p as int).last() == before[p as int - 1]);
        }
    }
    if p < measures.len() && measures[p].measure.start_time == s {
        proof {
            assert(before[p as int] == measures@[p as int]@);
            assert forall|i: int| 0 <= i < before.len() implies (#[trigger] before[i]).npm >= 0 by {
                assert(before[i] == measures@[i]@);
            }
            lemma_npm_le_total(before, p as int);
        }
        let mut m = measures.remove(p);
        let ghost old_notes = m.notes@;
        m.notes.push(note);
        m.measure.npm = m.measure.npm + a as u64;
        measures.insert(p, m);
        proof {
            assert(notes_model(m.notes@) =~= notes_model(old_notes).push(note@));
            assert(measures_model(measures@) =~= add_note(before, note@, segs@));
        }
    } else {
        let mut list: Vec<NotesStruct> = Vec::new();
        list.push(note);
        let m = ManiaMeasure {
            measure: CommonMeasure { start_time: s, npm: a as u64 },
            notes: list,
            pattern: Pattern::Unclassified,
            value: 0,
        };
        proof {
            assert(notes_model(m.notes@) =~= seq![note@]);
        }
        measures.insert(p, m);
        proof {
            assert(measures_model(measures@) =~= add_note(before, note@, segs@));
        }
    }
}

/// Groups notes into measures by the timing segments: each note goes to the
/// measure that starts at `start_of` its time.  Fails exactly when there is
/// no timing segment.
pub fn group_notes_by_measures(notes: Vec<NotesStruct>, timing_points: Vec<TimingSegment>) -> (r:
    Result<HitObjects, ChartError>)
    requires
        segments_wf(timing_points@),
        notes@.len() <= MAX_CHART_PRESSES,
        total_active(notes_model(notes@)) <= MAX_CHART_PRESSES,
    ensures
        timing_points@.len() == 0 <==> r == Err::<HitObjects, ChartError>(ChartError::EmptyTimingSegments),
        timing_points@.len() == 0 <==> r is Err,
        r is Ok ==> note_total(r->Ok_0.model()) == notes@.len(),
        r is Ok ==> forall|j: int|
            0 <= j < r->Ok_0.model().len() ==> (#[trigger] r->Ok_0.model()[j]).notes
                == notes_starting(notes_model(notes@), timing_points@, r->Ok_0.model()[j].start),
        r is Ok ==> forall|i: int|
            0 <= i < notes@.len() ==> exists|j: int|
                0 <= j < r->Ok_0.model().len() && r->Ok_0.model()[j].start == start_of(
                    #[trigger] notes@[i].timestamp as int,
                    timing_points@,
                ),
        r is Ok ==> r->Ok_0.wf() && r->Ok_0.model() == group(notes_model(notes@), timing_points@),
{
    if timing_points.len() == 0 {
        return Err(ChartError::EmptyTimingSegments);
    }
    let ghost ns = notes_model(notes@);
    let mut measures: Vec<ManiaMeasure> = Vec::new();
    let mut i: usize = 0;
    proof {
        assert(measures_model(measures@) =~= group(ns.subrange(0, 0), timing_points@));
    }
    while i < notes.len()
        invariant
            i <= notes@.len(),
            ns == notes_model(notes@),
            timing_points@.len() > 0,
            segments_wf(timing_points@),
            total_active(ns) <= MAX_CHART_PRESSES,
            measures_model(measures@) == group(ns.subrange(0, i as int), timing_points@),
        decreases notes@.len() - i,
    {
        let ghost pre = ns.subrange(0, i as int);
        proof {
            let next = ns.subrange(0, i as int + 1);
            assert(next.drop_last() =~= pre);
            lemma_group(pre, timing_points@);
            crate::measure::lemma_total_active_prefix(ns, i as int + 1);
        }
        let note = notes[i].clone();
        place_note(&mut measures, note, &timing_points);
        i = i + 1;
    }
    proof {
        assert(ns.subrange(0, i as int) =~= ns);
        lemma_group(ns, timing_points@);
        lemma_group_partitions(ns, timing_points@);
        assert forall|i: int| 0 <= i < notes@.len() implies exists|j: int|
            0 <= j < measures_model(measures@).len() && measures_model(measures@)[j].start
                == start_of(#[trigger] notes@[i].timestamp as int, timing_points@) by {
            assert(ns[i].timestamp == notes@[i].timestamp);
        }
    }
    Ok(HitObjects(measures))
}

} // verus!
