use rosu_pattern_detector::{
    CommonMeasure, HandstreamPattern, JackPattern, JumpstreamPattern, ManiaMeasure, NotesStruct,
    Pattern, SecondaryPattern, SinglestreamPattern,
};

fn measure(rows: &[&[usize]]) -> ManiaMeasure {
    let notes: Vec<NotesStruct> = rows
        .iter()
        .enumerate()
        .map(|(i, cols)| {
            let mut keys = vec![false; 4];
            for &c in cols.iter() {
                keys[c] = true;
            }
            NotesStruct::new(i as i32 * 100, keys)
        })
        .collect();
    let npm = rows.iter().map(|r| r.len() as u64).sum();
    ManiaMeasure {
        measure: CommonMeasure { start_time: 0, npm },
        notes,
        pattern: Pattern::Unclassified,
        value: 0,
    }
}

#[test]
fn lone_jump_falls_through_to_jumpstream() {
    let m = measure(&[&[0, 1]]);
    assert!(!m.has_jack_pattern());
    assert_eq!(m.detect_pattern(), Pattern::Jumpstream(JumpstreamPattern::JS));
}

#[test]
fn alternating_singles_are_singlestream() {
    let m = measure(&[&[0], &[1], &[0], &[1]]);
    assert!(!m.has_jack_pattern());
    assert_eq!(m.detect_pattern(), Pattern::Singlestream(SinglestreamPattern::Singlestream));
}

#[test]
fn repeated_column_is_a_speedjack() {
    let m = measure(&[&[0], &[0]]);
    assert!(m.has_jack_pattern());
    assert_eq!(m.detect_pattern(), Pattern::Jack(JackPattern::Speedjack));
}

#[test]
fn loose_jacks_with_many_presses_are_a_chordstream() {
    let m = measure(&[&[0, 1], &[1, 2], &[3], &[0, 2]]);
    assert_eq!(m.t_notes(), 7);
    assert_eq!(m.detect_pattern(), Pattern::Jack(JackPattern::ChordStream));
}

#[test]
fn jack_wins_over_hands_and_jumps() {
    let m = measure(&[&[0, 1, 2], &[0, 1], &[2, 3], &[3]]);
    assert!(matches!(m.detect_pattern(), Pattern::Jack(_)));
}

#[test]
fn hands_outnumbering_the_rest_are_dense_chordjack() {
    let m = measure(&[&[0, 1, 2], &[0, 1, 3], &[1]]);
    assert_eq!(JackPattern::determine_jack_type(&m), JackPattern::DenseChordjack);
}

#[test]
fn quads_among_chords_are_chordjack() {
    let m = measure(&[&[0, 1, 2, 3], &[0, 1], &[0, 1], &[2]]);
    assert_eq!(m.detect_pattern(), Pattern::Jack(JackPattern::Chordjack));
}

#[test]
fn two_consecutive_jumps_are_a_jumptrill() {
    let m = measure(&[&[0, 1], &[2, 3]]);
    assert_eq!(m.detect_pattern(), Pattern::Jumpstream(JumpstreamPattern::JT));
}

#[test]
fn a_column_pressed_four_times_anchors_a_jumpstream() {
    let m = measure(&[&[0, 1], &[2], &[0, 3], &[1], &[0, 2], &[3], &[0, 1]]);
    assert_eq!(JumpstreamPattern::determine_js_type(&m), JumpstreamPattern::AnchorJs);
}

#[test]
fn more_singles_than_jumps_is_a_light_jumpstream() {
    let m = measure(&[&[0, 1], &[2], &[3], &[0]]);
    assert_eq!(m.detect_pattern(), Pattern::Jumpstream(JumpstreamPattern::LightJs));
}

#[test]
fn handstream_without_jumps_is_light() {
    let m = measure(&[&[0, 1, 2], &[3]]);
    assert_eq!(m.detect_pattern(), Pattern::Handstream(HandstreamPattern::LightHs));
    let dense = measure(&[&[0, 1, 2], &[3], &[0, 1]]);
    assert_eq!(HandstreamPattern::determine_hs_type(&dense), HandstreamPattern::DenseHs);
}

#[test]
fn chords_alone_stay_unclassified() {
    let m = measure(&[&[0, 1, 2, 3]]);
    assert_eq!(m.detect_pattern(), Pattern::Unclassified);
}

#[test]
fn jack_sub_style_is_read_back() {
    let mut m = measure(&[&[0], &[0]]);
    assert_eq!(m.get_jack_pattern(), None);
    m.pattern = m.detect_pattern();
    assert_eq!(m.get_jack_pattern(), Some(JackPattern::Speedjack));
    assert_eq!(m.notes().len(), 2);
}

#[test]
fn labels_render_fixed_text() {
    assert_eq!(JumpstreamPattern::JS.to_string(), "JS");
    assert_eq!(JackPattern::Chordjack.to_string(), "Chordjack");
    assert_eq!(HandstreamPattern::DenseHs.to_string(), "Dense HS");
    assert_eq!(JackPattern::DenseChordjack.to_string(), "Dense Chordjack");
    assert_eq!(JumpstreamPattern::AnchorJs.to_string(), "Anchor JS");
    assert_eq!(Pattern::Singlestream(SinglestreamPattern::Singlestream).to_string(), "SingleStream");
    assert_eq!(Pattern::Jack(JackPattern::Speedjack).to_string(), "Speedjack");
    assert_eq!(SecondaryPattern::Handstream.to_string(), "HS");
    assert_eq!(SecondaryPattern::Singlestream.to_string(), "SS");
    assert_eq!(SecondaryPattern::Unclassified.to_string(), "None");
}

#[test]
fn rollup_keeps_the_category() {
    let p = Pattern::Handstream(HandstreamPattern::DenseHs);
    assert_eq!(p.to_all(), Pattern::Handstream(HandstreamPattern::All));
    assert_eq!(p.category(), SecondaryPattern::Handstream);
    assert_eq!(SecondaryPattern::Jack.to_all(), Pattern::Jack(JackPattern::All));
    assert_eq!(Pattern::Unclassified.to_all(), Pattern::Unclassified);
}
