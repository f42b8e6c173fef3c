use vstd::prelude::*;

use crate::notes::{NoteModel, NotesStruct};
use crate::measure::notes_model;

verus! {

/// The kind of a hit event; only circles and sliders become notes.
#[derive(Debug, Clone, Copy, PartialEq, Eq, Structural)]
pub enum HitKind {
    Circle,
    Slider,
    Spinner,
    Hold,
}

/// One hit event of a chart: its time in ms, its horizontal position in
/// playfield pixels and its kind.
#[derive(Debug, Clone, Copy, PartialEq, Eq, Structural)]
pub struct HitEvent {
    pub start_time: i32,
    pub x: i32,
    pub kind: HitKind,
}

/// The x position of column `c` for a chart of `key_count` columns.
pub open spec fn column_x(key_count: int, c: int) -> int {
    if key_count == 4 {
        if c == 0 { 64 } else if c == 1 { 192 } else if c == 2 { 320 } else { 448 }
    } else {
        if c == 0 {
            36
        } else if c == 1 {
            109
        } else if c == 2 {
            182
        } else if c == 3 {
            256
        } else if c == 4 {
            329
        } else if c == 5 {
            402
        } else {
            475
        }
    }
}

pub open spec fn supported_keys(key_count: int) -> bool {
    key_count == 4 || key_count == 7
}

/// The column whose position is `x`, or -1.
pub open spec fn column_of(key_count: int, x: int) -> int {
    if !supported_keys(key_count) {
        -1
    } else if exists|c: int| 0 <= c < key_count && column_x(key_count, c) == x {
        choose|c: int| 0 <= c < key_count && column_x(key_count, c) == x
    } else {
        -1
    }
}

/// The column an event presses, or -1 when it presses none.
pub open spec fn event_column(e: HitEvent, key_count: int) -> int {
    if e.kind == HitKind::Circle || e.kind == HitKind::Slider {
        column_of(key_count, e.x as int)
    } else {
        -1
    }
}

/// Where a note at time `t` goes in a time-ordered sequence: after every
/// note that is earlier.
pub open spec fn note_pos(ns: Seq<NoteModel>, t: int) -> int
    decreases ns.len(),
{
    if ns.len() == 0 {
        0
    } else if ns.last().timestamp < t {
        ns.len() as int
    } else {
        note_pos(ns.drop_last(), t)
    }
}

/// A note of `key_count` columns that presses column `c` alone.
pub open spec fn lone_note(t: int, key_count: int, c: int) -> NoteModel {
    NoteModel { timestamp: t, cols: Seq::new(key_count as nat, |i: int| i == c) }
}

/// Merges one event into the time-ordered notes.
pub open spec fn add_event(ns: Seq<NoteModel>, e: HitEvent, key_count: int) -> Seq<NoteModel> {
    let c = event_column(e, key_count);
    let t = e.start_time as int;
    if c < 0 {
        ns
    } else {
        let p = note_pos(ns, t);
        if p < ns.len() && ns[p].timestamp == t {
            ns.update(p, NoteModel { timestamp: t, cols: ns[p].cols.update(c, true) })
        } else {
            ns.insert(p, lone_note(t, key_count, c))
        }
    }
}

/// The notes of a chart: one per distinct time of a column event, pressing
/// every column that an event at that time presses, ordered by time.
pub open spec fn extract(events: Seq<HitEvent>, key_count: int) -> Seq<NoteModel>
    decreases events.len(),
{
    if !supported_keys(key_count) || events.len() == 0 {
        Seq::empty()
    } else {
        add_event(extract(events.drop_last(), key_count), events.last(), key_count)
    }
}

/// Strictly increasing times, each note `key_count` columns wide.
pub open spec fn notes_ordered(ns: Seq<NoteModel>, key_count: int) -> bool {
    &&& forall|i: int, j: int| 0 <= i < j < ns.len() ==> ns[i].timestamp < ns[j].timestamp
    &&& forall|i: int| 0 <= i < ns.len() ==> (#[trigger] ns[i]).cols.len() == key_count
}

/// Event `e` presses column `c` at time `t`.
pub open spec fn event_presses(e: HitEvent, key_count: int, t: int, c: int) -> bool {
    e.start_time == t && event_column(e, key_count) == c
}

/// Some event presses column `c` at time `t`.
pub open spec fn pressed_at(events: Seq<HitEvent>, key_count: int, t: int, c: int) -> bool {
    exists|i: int| 0 <= i < events.len() && #[trigger] event_presses(events[i], key_count, t, c)
}

/// Some event presses a column at time `t`.
pub open spec fn column_event_at(events: Seq<HitEvent>, key_count: int, t: int) -> bool {
    exists|c: int| 0 <= c < key_count && #[trigger] pressed_at(events, key_count, t, c)
}

proof fn lemma_pressed_at_push(events: Seq<HitEvent>, key_count: int, t: int, c: int)
    requires
        events.len() > 0,
    ensures
        pressed_at(events, key_count, t, c) == (pressed_at(events.drop_last(), key_count, t, c)
            || event_presses(events.last(), key_count, t, c)),
{
    let init = events.drop_last();
    if pressed_at(events, key_count, t, c) {
        let i = choose|i: int| 0 <= i < events.len() && #[trigger] event_presses(events[i], key_count, t, c);
        if i < init.len() {
            assert(init[i] == events[i]);
            assert(event_presses(init[i], key_count, t, c));
        }
    }
    if pressed_at(init, key_count, t, c) {
        let i = choose|i: int| 0 <= i < init.len() && #[trigger] event_presses(init[i], key_count, t, c);
        assert(events[i] == init[i]);
        assert(event_presses(events[i], key_count, t, c));
    }
    if event_presses(events.last(), key_count, t, c) {
        assert(event_presses(events[events.len() - 1], key_count, t, c));
    }
}

/// The notes are exactly the merged column events: a note presses column
/// `c` if and only if some event at its time presses `c`; every note has
/// such an event; and every column event has a note at its time.
pub proof fn lemma_extract_merges_events(events: Seq<HitEvent>, key_count: int)
    requires
        supported_keys(key_count),
    ensures
        forall|j: int, c: int|
            0 <= j < extract(events, key_count).len() && 0 <= c < key_count ==> (#[trigger] extract(
                events,
                key_count,
            )[j].cols[c] <==> pressed_at(events, key_count, extract(events, key_count)[j].timestamp, c)),
        forall|j: int|
            0 <= j < extract(events, key_count).len() ==> column_event_at(
                events,
                key_count,
                #[trigger] extract(events, key_count)[j].timestamp,
            ),
        forall|i: int, c: int|
            0 <= i < events.len() && 0 <= c < key_count && #[trigger] event_presses(
                events[i],
                key_count,
                events[i].start_time as int,
                c,
            ) ==> exists|j: int|
                0 <= j < extract(events, key_count).len() && extract(events, key_count)[j].timestamp
                    == events[i].start_time,
    decreases events.len(),
{
    if events.len() == 0 {
        return;
    }
    let init = events.drop_last();
    let e = events.last();
    let ns = extract(init, key_count);
    let r = extract(events, key_count);
    lemma_extract_merges_events(init, key_count);
    lemma_extract_ordered(init, key_count);
    assert(r == add_event(ns, e, key_count));
    let col = event_column(e, key_count);
    let t = e.start_time as int;
    if col >= 0 {
        assert(0 <= col < key_count);
    }
    assert forall|tt: int, c: int| #[trigger] pressed_at(events, key_count, tt, c) == (pressed_at(
        init,
        key_count,
        tt,
        c,
    ) || event_presses(e, key_count, tt, c)) by {
        lemma_pressed_at_push(events, key_count, tt, c);
    }
    lemma_note_pos(ns, t);
    let p = note_pos(ns, t);
    let found = col >= 0 && p < ns.len() && ns[p].timestamp == t;
    // No note of the earlier events is at time t unless it sits at p.
    assert forall|j: int| 0 <= j < ns.len() && ns[j].timestamp == t implies j == p by {
        if j < p {
        } else if j > p {
            assert(ns[p].timestamp < ns[j].timestamp);
        }
    }
    assert forall|j: int, c: int|
        0 <= j < r.len() && 0 <= c < key_count implies (#[trigger] r[j].cols[c] <==> pressed_at(
        events,
        key_count,
        r[j].timestamp,
        c,
    )) by {
        if col < 0 {
            assert(r == ns);
        } else if found {
            if j != p {
                assert(r[j] == ns[j]);
            }
        } else {
            if j < p {
                assert(r[j] == ns[j]);
            } else if j > p {
                assert(r[j] == ns[j - 1]);
            } else {
                if pressed_at(init, key_count, t, c) {
                    let k = choose|k: int| 0 <= k < init.len() && #[trigger] event_presses(init[k], key_count, t, c);
                    assert(event_presses(init[k], key_count, init[k].start_time as int, c));
                }
            }
        }
    }
    assert forall|j: int| 0 <= j < r.len() implies column_event_at(
        events,
        key_count,
        #[trigger] r[j].timestamp,
    ) by {
        let old_j = if col >= 0 && !found && j > p {
            j - 1
        } else {
            j
        };
        if col >= 0 && !found && j == p {
            assert(pressed_at(events, key_count, t, col));
        } else {
            assert(r[j].timestamp == ns[old_j].timestamp);
            assert(column_event_at(init, key_count, ns[old_j].timestamp));
            let c = choose|c: int| 0 <= c < key_count && #[trigger] pressed_at(init, key_count, ns[old_j].timestamp, c);
            assert(pressed_at(events, key_count, r[j].timestamp, c));
        }
    }
    assert forall|i: int, c: int|
        0 <= i < events.len() && 0 <= c < key_count && #[trigger] event_presses(
            events[i],
            key_count,
            events[i].start_time as int,
            c,
        ) implies exists|j: int| 0 <= j < r.len() && r[j].timestamp == events[i].start_time by {
        if i == events.len() - 1 {
            assert(r[p].timestamp == t);
        } else {
            assert(init[i] == events[i]);
            assert(event_presses(init[i], key_count, init[i].start_time as int, c));
            let j = choose|j: int| 0 <= j < ns.len() && ns[j].timestamp == init[i].start_time;
            if col < 0 || found || j < p {
                assert(r[j].timestamp == ns[j].timestamp);
            } else {
                assert(r[j + 1] == ns[j]);
            }
        }
    }
}

/// Finds the column of an x position.
fn column_index(key_count: i32, x: i32) -> (r: i32)
    ensures
        r == column_of(key_count as int, x as int),
        -1 <= r < 7,
        r >= 0 ==> r < key_count,
{
    let r: i32 = if key_count == 4 {
        match x {
            64 => 0,
            192 => 1,
            320 => 2,
            448 => 3,
            _ => -1,
        }
    } else if key_count == 7 {
        match x {
            36 => 0,
            109 => 1,
            182 => 2,
            256 => 3,
            329 => 4,
            402 => 5,
            475 => 6,
            _ => -1,
        }
    } else {
        -1
    };
    proof {
        let kc = key_count as int;
        if r >= 0 {
            assert(column_x(kc, r as int) == x);
        } else if supported_keys(kc) {
            assert forall|c: int| 0 <= c < kc implies column_x(kc, c) != x by {
            }
        }
    }
    r
}

pub proof fn lemma_note_pos(ns: Seq<NoteModel>, t: int)
    requires
        forall|i: int, j: int| 0 <= i < j < ns.len() ==> ns[i].timestamp < ns[j].timestamp,
    ensures
        0 <= note_pos(ns, t) <= ns.len(),
        forall|i: int| 0 <= i < note_pos(ns, t) ==> ns[i].timestamp < t,
        forall|i: int| note_pos(ns, t) <= i < ns.len() ==> ns[i].timestamp >= t,
    decreases ns.len(),
{
    if ns.len() > 0 {
        let init = ns.drop_last();
        lemma_note_pos(init, t);
        assert(forall|j: int| 0 <= j < init.len() ==> init[j] == ns[j]);
    }
}

/// Merging an event keeps the notes ordered and as wide as the chart.
pub proof fn lemma_add_event_ordered(ns: Seq<NoteModel>, e: HitEvent, key_count: int)
    requires
        notes_ordered(ns, key_count),
        supported_keys(key_count),
    ensures
        notes_ordered(add_event(ns, e, key_count), key_count),
        add_event(ns, e, key_count).len() <= ns.len() + 1,
{
    let c = event_column(e, key_count);
    let t = e.start_time as int;
    if c >= 0 {
        lemma_note_pos(ns, t);
        let p = note_pos(ns, t);
        if e.kind == HitKind::Circle || e.kind == HitKind::Slider {
            assert(0 <= c < key_count);
        }
        let r = add_event(ns, e, key_count);
        if p < ns.len() && ns[p].timestamp == t {
        } else {
            assert forall|i: int, j: int| 0 <= i < j < r.len() implies r[i].timestamp
                < r[j].timestamp by {
                if j < p {
                } else if i < p && j == p {
                } else if i < p {
                    assert(r[j] == ns[j - 1]);
                } else if i == p {
                    assert(r[j] == ns[j - 1]);
                } else {
                    assert(r[i] == ns[i - 1]);
                    assert(r[j] == ns[j - 1]);
                }
            }
            assert forall|i: int| 0 <= i < r.len() implies (#[trigger] r[i]).cols.len()
                == key_count by {
                if i < p {
                } else if i == p {
                } else {
                    assert(r[i] == ns[i - 1]);
                }
            }
        }
    }
}

/// The extracted notes are ordered by time, as wide as the chart, and no
/// more than the events.
pub proof fn lemma_extract_ordered(events: Seq<HitEvent>, key_count: int)
    ensures
        notes_ordered(extract(events, key_count), key_count),
        extract(events, key_count).len() <= events.len(),
    decreases events.len(),
{
    if supported_keys(key_count) && events.len() > 0 {
        lemma_extract_ordered(events.drop_last(), key_count);
        lemma_add_event_ordered(
            extract(events.drop_last(), key_count),
            events.last(),
            key_count,
        );
    }
}

/// Merges one event into time-ordered notes of a supported width.
fn merge_event(notes: &mut Vec<NotesStruct>, event: HitEvent, num_keys: i32)
    requires
        supported_keys(num_keys as int),
        notes_ordered(notes_model(old(notes)@), num_keys as int),
    ensures
        notes_model(final(notes)@) == add_event(notes_model(old(notes)@), event, num_keys as int),
{
    let ghost kc = num_keys as int;
    let ghost before = notes_model(notes@);
    let is_column_kind = event.kind == HitKind::Circle || event.kind == HitKind::Slider;
    let mut c: i32 = -1;
    if is_column_kind {
        c = column_index(num_keys, event.x);
    }
    if c < 0 {
        return;
    }
    let c = c as usize;
    let t = event.start_time;
    let mut p: usize = notes.len();
    proof {
        assert(before.subrange(0, p as int) =~= before);
    }
    while p > 0 && notes[p - 1].timestamp >= t
        invariant
            p <= notes@.len(),
            before == notes_model(notes@),
            note_pos(before, t as int) == note_pos(before.subrange(0, p as int), t as int),
        decreases p,
    {
        proof {
            assert(before.subrange(0, p as int).drop_last() =~= before.subrange(0, p as int - 1));
        }
        p = p - 1;
    }
    proof {
        if p > 0 {
            assert(before.subrange(0, p as int).last() == before[p as int - 1]);
        }
    }
    if p < notes.len() && notes[p].timestamp == t {
        proof {
            assert(before[p as int] == notes@[p as int]@);
            assert(before[p as int].cols.len() == kc);
        }
        let mut note = notes.remove(p);
        note.notes.set(c, true);
        notes.insert(p, note);
        proof {
            assert(notes_model(notes@) =~= add_event(before, event, kc));
        }
    } else {
        let mut cols = vec![false; num_keys as usize];
        cols.set(c, true);
        let note = NotesStruct { timestamp: t, notes: cols };
        proof {
            assert(note@.cols =~= lone_note(t as int, kc, c as int).cols);
        }
        notes.insert(p, note);
        proof {
            assert(notes_model(notes@) =~= add_event(before, event, kc));
        }
    }
}

/// Turns hit events into notes: events at one time merge into one note
/// that presses each of their columns.  A chart of other than 4 or 7
/// columns gives no notes.
pub fn transform_hit_object_to_mania_notes(ho: Vec<HitEvent>, num_keys: i32) -> (r: Vec<
    NotesStruct,
>)
    ensures
        notes_model(r@) == extract(ho@, num_keys as int),
        notes_ordered(notes_model(r@), num_keys as int),
        r@.len() <= ho@.len(),
        !supported_keys(num_keys as int) ==> r@.len() == 0,
        forall|j: int| 0 <= j < r@.len() ==> (#[trigger] r@[j]).notes@.len() == num_keys,
        forall|j: int, c: int|
            0 <= j < r@.len() && 0 <= c < r@[j].notes@.len() ==> (#[trigger] r@[j].notes@[c] <==> pressed_at(
                ho@,
                num_keys as int,
                r@[j].timestamp as int,
                c,
            )),
        forall|j: int|
            0 <= j < r@.len() ==> column_event_at(ho@, num_keys as int, #[trigger] r@[j].timestamp as int),
        forall|i: int, c: int|
            0 <= i < ho@.len() && 0 <= c < num_keys && #[trigger] event_presses(
                ho@[i],
                num_keys as int,
                ho@[i].start_time as int,
                c,
            ) ==> exists|j: int| 0 <= j < r@.len() && r@[j].timestamp == ho@[i].start_time,
{
    let ghost kc = num_keys as int;
    let mut notes: Vec<NotesStruct> = Vec::new();
    if num_keys != 4 && num_keys != 7 {
        proof {
            assert(notes_model(notes@) =~= extract(ho@, kc));
        }
        return notes;
    }
    let mut i: usize = 0;
    proof {
        assert(notes_model(notes@) =~= extract(ho@.subrange(0, 0), kc));
    }
    while i < ho.len()
        invariant
            i <= ho@.len(),
            kc == num_keys as int,
            supported_keys(kc),
            notes_model(notes@) == extract(ho@.subrange(0, i as int), kc),
        decreases ho@.len() - i,
    {
        proof {
            assert(ho@.subrange(0, i as int + 1).drop_last() =~= ho@.subrange(0, i as int));
            lemma_extract_ordered(ho@.subrange(0, i as int), kc);
        }
        merge_event(&mut notes, ho[i], num_keys);
        i = i + 1;
    }
    proof {
        assert(ho@.subrange(0, i as int) =~= ho@);
        lemma_extract_ordered(ho@, kc);
        lemma_extract_merges_events(ho@, kc);
        let ns = notes_model(notes@);
        assert forall|j: int| 0 <= j < notes@.len() implies (#[trigger] notes@[j]).notes@.len()
            == num_keys by {
            assert(ns[j] == notes@[j]@);
        }
        assert forall|j: int, c: int| 0 <= j < notes@.len() && 0 <= c < notes@[j].notes@.len() implies (
        #[trigger] notes@[j].notes@[c] <==> pressed_at(ho@, kc, notes@[j].timestamp as int, c)) by {
            assert(ns[j] == notes@[j]@);
        }
        assert forall|j: int| 0 <= j < notes@.len() implies column_event_at(
            ho@,
            kc,
            #[trigger] notes@[j].timestamp as int,
        ) by {
            assert(ns[j] == notes@[j]@);
            assert(column_event_at(ho@, kc, ns[j].timestamp));
        }
        assert forall|i: int, c: int|
            0 <= i < ho@.len() && 0 <= c < num_keys && #[trigger] event_presses(
                ho@[i],
                kc,
                ho@[i].start_time as int,
                c,
            ) implies exists|j: int| 0 <= j < notes@.len() && notes@[j].timestamp == ho@[i].start_time by {
            let j = choose|j: int| 0 <= j < ns.len() && ns[j].timestamp == ho@[i].start_time;
            assert(ns[j] == notes@[j]@);
        }
    }
    notes
}

} // verus!
