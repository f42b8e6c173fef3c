use vstd::prelude::*;

use crate::measure::{ManiaMeasure, notes_model, total_active};
use crate::notes::{BasePattern, NoteModel, NotesStruct};
use crate::pattern::{
    HandstreamPattern, JackPattern, JumpstreamPattern, Pattern, SinglestreamPattern,
};

verus! {

/// Two notes press at least one common column.
pub open spec fn share_column(a: Seq<bool>, b: Seq<bool>) -> bool {
    exists|c: int| 0 <= c < a.len() && c < b.len() && a[c] && b[c]
}

/// The note at `i` repeats a column of the note just before it.
pub open spec fn jack_at(ns: Seq<NoteModel>, i: int) -> bool {
    share_column(ns[i - 1].cols, ns[i].cols)
}

/// Some two adjacent notes share a column.
pub open spec fn has_jack(ns: Seq<NoteModel>) -> bool {
    exists|i: int| 1 <= i < ns.len() && #[trigger] jack_at(ns, i)
}

/// Number of adjacent pairs among the first `k` notes that share a column.
pub open spec fn jacks_upto(ns: Seq<NoteModel>, k: int) -> nat
    decreases k,
{
    if k <= 1 {
        0
    } else {
        jacks_upto(ns, k - 1) + if jack_at(ns, k - 1) {
            1nat
        } else {
            0nat
        }
    }
}

pub open spec fn jack_count(ns: Seq<NoteModel>) -> nat {
    jacks_upto(ns, ns.len() as int)
}

/// Number of notes with tag `t` among the first `k`.
pub open spec fn tags_upto(ns: Seq<NoteModel>, t: BasePattern, k: int) -> nat
    decreases k,
{
    if k <= 0 {
        0
    } else {
        tags_upto(ns, t, k - 1) + if ns[k - 1].tag() == t {
            1nat
        } else {
            0nat
        }
    }
}

pub open spec fn count_tag(ns: Seq<NoteModel>, t: BasePattern) -> nat {
    tags_upto(ns, t, ns.len() as int)
}

pub open spec fn has_tag(ns: Seq<NoteModel>, t: BasePattern) -> bool {
    exists|i: int| 0 <= i < ns.len() && #[trigger] ns[i].tag() == t
}

/// Number of notes among the first `k` that press column `c`.
pub open spec fn presses_upto(ns: Seq<NoteModel>, c: int, k: int) -> nat
    decreases k,
{
    if k <= 0 {
        0
    } else {
        presses_upto(ns, c, k - 1) + if c < ns[k - 1].cols.len() && ns[k - 1].cols[c] {
            1nat
        } else {
            0nat
        }
    }
}

pub open spec fn column_presses(ns: Seq<NoteModel>, c: int) -> nat {
    presses_upto(ns, c, ns.len() as int)
}

/// Some column (of the chart's width, read from the first note) is pressed
/// more than three times.
pub open spec fn has_anchor(ns: Seq<NoteModel>) -> bool {
    ns.len() > 0 && exists|c: int| 0 <= c < ns[0].cols.len() && #[trigger] column_presses(ns, c) > 3
}

/// The note at `i` and the one before it are both jumps.
pub open spec fn jump_pair_at(ns: Seq<NoteModel>, i: int) -> bool {
    ns[i - 1].tag() == BasePattern::Jump && ns[i].tag() == BasePattern::Jump
}

/// Two consecutive notes are both jumps.
pub open spec fn has_consecutive_jumps(ns: Seq<NoteModel>) -> bool {
    exists|i: int| 1 <= i < ns.len() && #[trigger] jump_pair_at(ns, i)
}

pub open spec fn jack_type(ns: Seq<NoteModel>) -> JackPattern {
    let single = count_tag(ns, BasePattern::Single);
    let jump = count_tag(ns, BasePattern::Jump);
    let hand = count_tag(ns, BasePattern::Hand);
    let quad = count_tag(ns, BasePattern::Quad);
    if hand > jump + single {
        JackPattern::DenseChordjack
    } else if quad > 0 && jump + hand + quad > single {
        JackPattern::Chordjack
    } else if jack_count(ns) <= 1 && total_active(ns) > 6 {
        JackPattern::ChordStream
    } else {
        JackPattern::Speedjack
    }
}

pub open spec fn jumpstream_type(ns: Seq<NoteModel>) -> JumpstreamPattern {
    if has_consecutive_jumps(ns) {
        JumpstreamPattern::JT
    } else if has_anchor(ns) {
        JumpstreamPattern::AnchorJs
    } else if count_tag(ns, BasePattern::Jump) < count_tag(ns, BasePattern::Single) {
        JumpstreamPattern::LightJs
    } else {
        JumpstreamPattern::JS
    }
}

pub open spec fn handstream_type(ns: Seq<NoteModel>) -> HandstreamPattern {
    if count_tag(ns, BasePattern::Jump) == 0 {
        HandstreamPattern::LightHs
    } else {
        HandstreamPattern::DenseHs
    }
}

/// The priority ladder: jack, then handstream, jumpstream, singlestream.
pub open spec fn classify(ns: Seq<NoteModel>) -> Pattern {
    if has_jack(ns) {
        Pattern::Jack(jack_type(ns))
    } else if has_tag(ns, BasePattern::Hand) {
        Pattern::Handstream(handstream_type(ns))
    } else if has_tag(ns, BasePattern::Jump) {
        Pattern::Jumpstream(jumpstream_type(ns))
    } else if has_tag(ns, BasePattern::Single) {
        Pattern::Singlestream(SinglestreamPattern::Singlestream)
    } else {
        Pattern::Unclassified
    }
}

/// Whether two notes press a common column.
fn shares_column(a: &NotesStruct, b: &NotesStruct) -> (r: bool)
    ensures
        r == share_column(a.notes@, b.notes@),
{
    let mut c: usize = 0;
    while c < a.notes.len() && c < b.notes.len()
        invariant
            c <= a.notes@.len(),
            c <= b.notes@.len(),
            forall|d: int| 0 <= d < c ==> !(a.notes@[d] && b.notes@[d]),
        decreases a.notes@.len() - c,
    {
        if a.notes[c] && b.notes[c] {
            return true;
        }
        c = c + 1;
    }
    false
}

/// Number of adjacent note pairs that share a column.
fn count_jacks(notes: &Vec<NotesStruct>) -> (r: usize)
    ensures
        r == jack_count(notes_model(notes@)),
{
    let ghost ns = notes_model(notes@);
    let mut r: usize = 0;
    let mut i: usize = 1;
    if notes.len() == 0 {
        return 0;
    }
    while i < notes.len()
        invariant
            1 <= i <= notes@.len(),
            ns == notes_model(notes@),
            r == jacks_upto(ns, i as int),
            r <= i,
        decreases notes@.len() - i,
    {
        if shares_column(&notes[i - 1], &notes[i]) {
            r = r + 1;
        }
        i = i + 1;
    }
    r
}

/// Number of notes carrying `tag`.
fn count_tag_of(notes: &Vec<NotesStruct>, tag: BasePattern) -> (r: usize)
    ensures
        r == count_tag(notes_model(notes@), tag),
{
    let ghost ns = notes_model(notes@);
    let mut r: usize = 0;
    let mut i: usize = 0;
    while i < notes.len()
        invariant
            0 <= i <= notes@.len(),
            ns == notes_model(notes@),
            r == tags_upto(ns, tag, i as int),
            r <= i,
        decreases notes@.len() - i,
    {
        if notes[i].get_pattern() == tag {
            r = r + 1;
        }
        i = i + 1;
    }
    r
}

/// Whether some note carries `tag`.
fn any_tag(notes: &Vec<NotesStruct>, tag: BasePattern) -> (r: bool)
    ensures
        r == has_tag(notes_model(notes@), tag),
{
    let ghost ns = notes_model(notes@);
    let mut i: usize = 0;
    while i < notes.len()
        invariant
            0 <= i <= notes@.len(),
            ns == notes_model(notes@),
            forall|j: int| 0 <= j < i ==> ns[j].tag() != tag,
        decreases notes@.len() - i,
    {
        if notes[i].get_pattern() == tag {
            assert(ns[i as int].tag() == tag);
            return true;
        }
        i = i + 1;
    }
    false
}

/// Number of notes that press column `c`.
fn column_press_count(notes: &Vec<NotesStruct>, c: usize) -> (r: usize)
    ensures
        r == column_presses(notes_model(notes@), c as int),
{
    let ghost ns = notes_model(notes@);
    let mut r: usize = 0;
    let mut i: usize = 0;
    while i < notes.len()
        invariant
            0 <= i <= notes@.len(),
            ns == notes_model(notes@),
            r == presses_upto(ns, c as int, i as int),
            r <= i,
        decreases notes@.len() - i,
    {
        if c < notes[i].notes.len() && notes[i].notes[c] {
            r = r + 1;
        }
        i = i + 1;
    }
    r
}

impl ManiaMeasure {
    /// The measure's notes, in time order.
    pub fn notes(&self) -> (r: &Vec<NotesStruct>)
        ensures
            r@ == self.notes@,
    {
        &self.notes
    }

    /// The jack sub-style, when the measure is labelled as a jack.
    pub fn get_jack_pattern(&self) -> (r: Option<JackPattern>)
        ensures
            r == (match self.pattern {
                Pattern::Jack(j) => Some(j),
                _ => None::<JackPattern>,
            }),
    {
        match self.pattern {
            Pattern::Jack(j) => Some(j),
            _ => None,
        }
    }

    /// Whether two adjacent notes share a column.
    pub fn has_jack_pattern(&self) -> (r: bool)
        ensures
            r == has_jack(self@.notes),
    {
        let ghost ns = self@.notes;
        let mut i: usize = 1;
        while i < self.notes.len()
            invariant
                1 <= i,
                i <= self.notes@.len() || self.notes@.len() == 0,
                ns == self@.notes,
                forall|j: int| 1 <= j < i && j < ns.len() ==> !jack_at(ns, j),
            decreases self.notes@.len() - i,
        {
            if shares_column(&self.notes[i - 1], &self.notes[i]) {
                assert(jack_at(ns, i as int));
                return true;
            }
            i = i + 1;
        }
        false
    }

    fn has_hand_notes(&self) -> (r: bool)
        ensures
            r == has_tag(self@.notes, BasePattern::Hand),
    {
        any_tag(&self.notes, BasePattern::Hand)
    }

    fn has_jump_notes(&self) -> (r: bool)
        ensures
            r == has_tag(self@.notes, BasePattern::Jump),
    {
        any_tag(&self.notes, BasePattern::Jump)
    }

    fn has_single_notes(&self) -> (r: bool)
        ensures
            r == has_tag(self@.notes, BasePattern::Single),
    {
        any_tag(&self.notes, BasePattern::Single)
    }

    /// The measure's label: the first category of the priority ladder that
    /// matches, with its sub-style.
    pub fn detect_pattern(&self) -> (r: Pattern)
        requires
            total_active(self@.notes) <= u64::MAX,
        ensures
            r == classify(self@.notes),
    {
        if self.has_jack_pattern() {
            Pattern::Jack(JackPattern::determine_jack_type(self))
        } else if self.has_hand_notes() {
            Pattern::Handstream(HandstreamPattern::determine_hs_type(self))
        } else if self.has_jump_notes() {
            Pattern::Jumpstream(JumpstreamPattern::determine_js_type(self))
        } else if self.has_single_notes() {
            Pattern::Singlestream(SinglestreamPattern::Singlestream)
        } else {
            Pattern::Unclassified
        }
    }
}

impl JackPattern {
    /// The sub-style of a jack measure.
    pub fn determine_jack_type(measure: &ManiaMeasure) -> (r: JackPattern)
        requires
            total_active(measure@.notes) <= u64::MAX,
        ensures
            r == jack_type(measure@.notes),
    {
        let single = count_tag_of(&measure.notes, BasePattern::Single);
        let jump = count_tag_of(&measure.notes, BasePattern::Jump);
        let hand = count_tag_of(&measure.notes, BasePattern::Hand);
        let quad = count_tag_of(&measure.notes, BasePattern::Quad);
        if hand as u128 > jump as u128 + single as u128 {
            JackPattern::DenseChordjack
        } else if quad > 0 && jump as u128 + hand as u128 + quad as u128 > single as u128 {
            JackPattern::Chordjack
        } else {
            JackPattern::determine_jackspeed_or_chordstream(measure)
        }
    }

    /// Chordstream when at most one adjacent pair repeats a column and the
    /// measure presses more than six columns in all; Speedjack otherwise.
    fn determine_jackspeed_or_chordstream(measure: &ManiaMeasure) -> (r: JackPattern)
        requires
            total_active(measure@.notes) <= u64::MAX,
        ensures
            r == (if jack_count(measure@.notes) <= 1 && total_active(measure@.notes) > 6 {
                JackPattern::ChordStream
            } else {
                JackPattern::Speedjack
            }),
    {
        let jacks = count_jacks(&measure.notes);
        let total = measure.t_notes();
        if jacks <= 1 && total > 6 {
            JackPattern::ChordStream
        } else {
            JackPattern::Speedjack
        }
    }
}

impl JumpstreamPattern {
    /// Whether two consecutive notes are both jumps.
    fn has_two_consecutive_jumps(measure: &ManiaMeasure) -> (r: bool)
        ensures
            r == has_consecutive_jumps(measure@.notes),
    {
        let ghost ns = measure@.notes;
        let mut last_was_jump = false;
        let mut i: usize = 0;
        while i < measure.notes.len()
            invariant
                i <= measure.notes@.len(),
                ns == measure@.notes,
                last_was_jump == (i > 0 && ns[i - 1].tag() == BasePattern::Jump),
                forall|j: int| 1 <= j < i ==> !#[trigger] jump_pair_at(ns, j),
            decreases measure.notes@.len() - i,
        {
            let is_jump = measure.notes[i].get_pattern() == BasePattern::Jump;
            if is_jump && last_was_jump {
                assert(jump_pair_at(ns, i as int));
                return true;
            }
            last_was_jump = is_jump;
            i = i + 1;
        }
        false
    }

    /// The sub-style of a jumpstream measure.
    pub fn determine_js_type(measure: &ManiaMeasure) -> (r: JumpstreamPattern)
        ensures
            r == jumpstream_type(measure@.notes),
    {
        if JumpstreamPattern::has_two_consecutive_jumps(measure) {
            return JumpstreamPattern::JT;
        }
        let single = count_tag_of(&measure.notes, BasePattern::Single);
        let jump = count_tag_of(&measure.notes, BasePattern::Jump);
        let ghost ns = measure@.notes;
        let mut anchored = false;
        if measure.notes.len() > 0 {
            let width = measure.notes[0].notes.len();
            let mut c: usize = 0;
            while c < width
                invariant
                    c <= width,
                    ns == measure@.notes,
                    ns.len() > 0,
                    width == ns[0].cols.len(),
                    anchored == exists|d: int| 0 <= d < c && #[trigger] column_presses(ns, d) > 3,
                decreases width - c,
            {
                if column_press_count(&measure.notes, c) > 3 {
                    anchored = true;
                }
                c = c + 1;
            }
        }
        if anchored {
            JumpstreamPattern::AnchorJs
        } else if jump < single {
            JumpstreamPattern::LightJs
        } else {
            JumpstreamPattern::JS
        }
    }
}

impl HandstreamPattern {
    /// The sub-style of a handstream measure.
    pub fn determine_hs_type(measure: &ManiaMeasure) -> (r: HandstreamPattern)
        ensures
            r == handstream_type(measure@.notes),
    {
        let jump = count_tag_of(&measure.notes, BasePattern::Jump);
        if jump == 0 {
            HandstreamPattern::LightHs
        } else {
            HandstreamPattern::DenseHs
        }
    }
}

} // verus!
