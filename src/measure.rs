use vstd::prelude::*;

use crate::notes::{NoteModel, NotesStruct, active_columns};
use crate::pattern::Pattern;

verus! {

/// The view of a sequence of notes.
pub open spec fn notes_model(v: Seq<NotesStruct>) -> Seq<NoteModel> {
    v.map_values(|n: NotesStruct| n@)
}

/// Sum of the pressed columns over a sequence of notes.
pub open spec fn total_active(ns: Seq<NoteModel>) -> nat
    decreases ns.len(),
{
    if ns.len() == 0 {
        0
    } else {
        total_active(ns.drop_last()) + ns.last().active()
    }
}

/// The part of a measure that does not depend on its notes' layout.
#[derive(Debug, Clone, Copy, PartialEq, Eq, Structural)]
pub struct CommonMeasure {
    pub start_time: i64,
    pub npm: u64,
}

/// A measure as a mathematical value.
pub ghost struct MeasureModel {
    pub start: int,
    pub npm: int,
    pub notes: Seq<NoteModel>,
    pub pattern: Pattern,
    pub value: int,
}

/// One measure of a chart: its notes in time order, its number of presses
/// (`npm`), its label and its weighted value.  The value is a numerator over
/// the denominator that the whole chart shares (see `HitObjects`).
#[derive(Debug)]
pub struct ManiaMeasure {
    pub measure: CommonMeasure,
    pub notes: Vec<NotesStruct>,
    pub pattern: Pattern,
    pub value: u128,
}

impl View for ManiaMeasure {
    type V = MeasureModel;

    open spec fn view(&self) -> MeasureModel {
        MeasureModel {
            start: self.measure.start_time as int,
            npm: self.measure.npm as int,
            notes: notes_model(self.notes@),
            pattern: self.pattern,
            value: self.value as int,
        }
    }
}

impl MeasureModel {
    /// A measure is never empty and counts exactly the presses of its notes.
    pub open spec fn wf(self) -> bool {
        &&& self.notes.len() > 0
        &&& self.npm == total_active(self.notes)
    }
}

impl ManiaMeasure {
    /// Number of pressed columns over all notes of the measure.
    pub fn t_notes(&self) -> (r: u64)
        requires
            total_active(self@.notes) <= u64::MAX,
        ensures
            r == total_active(self@.notes),
    {
        let mut r: u64 = 0;
        let mut i: usize = 0;
        while i < self.notes.len()
            invariant
                i <= self.notes@.len(),
                total_active(self@.notes) <= u64::MAX,
                r == total_active(self@.notes.subrange(0, i as int)),
            decreases self.notes@.len() - i,
        {
            proof {
                assert(self@.notes.subrange(0, i as int + 1).drop_last()
                    =~= self@.notes.subrange(0, i as int));
                lemma_total_active_prefix(self@.notes, i as int + 1);
            }
            let a = active_columns(&self.notes[i].notes);
            r = r + a as u64;
            i = i + 1;
        }
        proof {
            assert(self@.notes.subrange(0, i as int) =~= self@.notes);
        }
        r
    }
}

/// The presses of a prefix never exceed those of the whole.
pub proof fn lemma_total_active_prefix(ns: Seq<NoteModel>, k: int)
    requires
        0 <= k <= ns.len(),
    ensures
        total_active(ns.subrange(0, k)) <= total_active(ns),
    decreases ns.len() - k,
{
    if k < ns.len() {
        lemma_total_active_prefix(ns, k + 1);
        assert(ns.subrange(0, k + 1).drop_last() =~= ns.subrange(0, k));
    } else {
        assert(ns.subrange(0, k) =~= ns);
    }
}

} // verus!
