use vstd::prelude::*;

use crate::text::{decimal, decimal_string, push_char, push_text};

verus! {

/// How many columns a single note presses at once.
#[derive(Debug, Clone, Copy, PartialEq, Eq, Structural, Hash)]
pub enum BasePattern {
    Single,
    Jump,
    Hand,
    Quad,
    Chord,
    Empty,
}

/// The tag of a note that presses `count` columns.
pub open spec fn tag_of_count(count: nat) -> BasePattern {
    if count == 0 {
        BasePattern::Empty
    } else if count == 1 {
        BasePattern::Single
    } else if count == 2 {
        BasePattern::Jump
    } else if count == 3 {
        BasePattern::Hand
    } else if count == 4 {
        BasePattern::Quad
    } else {
        BasePattern::Chord
    }
}

/// Number of pressed columns.
pub open spec fn count_active(cols: Seq<bool>) -> nat
    decreases cols.len(),
{
    if cols.len() == 0 {
        0
    } else {
        count_active(cols.drop_last()) + if cols.last() {
            1nat
        } else {
            0nat
        }
    }
}

pub proof fn lemma_count_active_bound(cols: Seq<bool>)
    ensures
        count_active(cols) <= cols.len(),
    decreases cols.len(),
{
    if cols.len() > 0 {
        lemma_count_active_bound(cols.drop_last());
    }
}

/// A note as a mathematical value: its time and the columns it presses.
pub ghost struct NoteModel {
    pub timestamp: int,
    pub cols: Seq<bool>,
}

impl NoteModel {
    pub open spec fn active(self) -> nat {
        count_active(self.cols)
    }

    pub open spec fn tag(self) -> BasePattern {
        tag_of_count(self.active())
    }
}

/// All key presses that share one timestamp.
#[derive(Debug)]
pub struct NotesStruct {
    pub timestamp: i32,
    pub notes: Vec<bool>,
}

impl View for NotesStruct {
    type V = NoteModel;

    open spec fn view(&self) -> NoteModel {
        NoteModel { timestamp: self.timestamp as int, cols: self.notes@ }
    }
}

impl Clone for NotesStruct {
    fn clone(&self) -> (r: Self)
        ensures
            r@ == self@,
    {
        let cols = self.notes.clone();
        proof {
            assert(cols@ =~= self.notes@);
        }
        NotesStruct { timestamp: self.timestamp, notes: cols }
    }
}

/// Counts the pressed columns of `cols`.
pub fn active_columns(cols: &Vec<bool>) -> (r: usize)
    ensures
        r == count_active(cols@),
{
    let mut r: usize = 0;
    let mut i: usize = 0;
    while i < cols.len()
        invariant
            i <= cols@.len(),
            r == count_active(cols@.subrange(0, i as int)),
            r <= i,
        decreases cols@.len() - i,
    {
        proof {
            assert(cols@.subrange(0, i as int + 1).drop_last() =~= cols@.subrange(0, i as int));
        }
        if cols[i] {
            r = r + 1;
        }
        i = i + 1;
    }
    proof {
        assert(cols@.subrange(0, i as int) =~= cols@);
    }
    r
}

/// Maps a count of pressed columns to its tag.
pub fn tag_for_count(count: usize) -> (r: BasePattern)
    ensures
        r == tag_of_count(count as nat),
{
    match count {
        0 => BasePattern::Empty,
        1 => BasePattern::Single,
        2 => BasePattern::Jump,
        3 => BasePattern::Hand,
        4 => BasePattern::Quad,
        _ => BasePattern::Chord,
    }
}

/// One character per column: 'O' pressed, 'X' not.
pub open spec fn column_glyphs(cols: Seq<bool>) -> Seq<char> {
    Seq::new(cols.len(), |i: int| if cols[i] { 'O' } else { 'X' })
}

impl NotesStruct {
    /// The time, then one character per column: `"120: OXXO"`.
    pub fn to_display_string(&self) -> (r: String)
        ensures
            r@ == decimal(self.timestamp as int) + ": "@ + column_glyphs(self.notes@),
    {
        let mut s = decimal_string(self.timestamp);
        push_text(&mut s, ": ");
        let ghost head = s@;
        let mut i: usize = 0;
        while i < self.notes.len()
            invariant
                i <= self.notes@.len(),
                head == decimal(self.timestamp as int) + ": "@,
                s@ == head + column_glyphs(self.notes@.subrange(0, i as int)),
            decreases self.notes@.len() - i,
        {
            let c = if self.notes[i] {
                'O'
            } else {
                'X'
            };
            push_char(&mut s, c);
            i = i + 1;
            proof {
                assert(head + column_glyphs(self.notes@.subrange(0, i as int)) =~= (head
                    + column_glyphs(self.notes@.subrange(0, i as int - 1))).push(c));
            }
        }
        proof {
            assert(self.notes@.subrange(0, i as int) =~= self.notes@);
        }
        s
    }

    pub fn new(timestamp: i32, notes: Vec<bool>) -> (r: NotesStruct)
        ensures
            r.timestamp == timestamp,
            r.notes@ == notes@,
    {
        NotesStruct { timestamp, notes }
    }

    /// The tag given by the number of pressed columns.
    pub fn get_pattern(&self) -> (r: BasePattern)
        ensures
            r == self@.tag(),
    {
        tag_for_count(active_columns(&self.notes))
    }
}

} // verus!
