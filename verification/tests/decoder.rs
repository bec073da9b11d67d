use qsoripper::append_decode::{AppendEventDecoder, TimedVizEvent, VizEventKind};
use qsoripper::morse::{char_to_morse, morse_element_count, morse_to_char};
use qsoripper::rhythm::{ConfidenceGate, ConfidenceState, Interval, RhythmGate};
use qsoripper::rng::{char_edit_distance, SmallRng};
use qsoripper::snapshot::{normalized_len, repair_common_split_morse};

fn ev(end_offset_samples: u64, kind: VizEventKind) -> TimedVizEvent {
    TimedVizEvent { end_offset_samples, kind }
}

fn paris_events() -> Vec<TimedVizEvent> {
    vec![
        ev(40, VizEventKind::OnDit),
        ev(120, VizEventKind::OnDit),
        ev(200, VizEventKind::OnDit),
        ev(350, VizEventKind::OffChar),
        ev(390, VizEventKind::OnDit),
        ev(550, VizEventKind::OnDah),
        ev(900, VizEventKind::OffWord),
    ]
}

#[test]
fn append_decoder_decodes_events_once_with_word_spaces() {
    // A frame at 1 kHz with a 40 ms dot keeps a guard of 320 samples.
    let mut d = AppendEventDecoder::new();
    let update = d.ingest_events(0, 2_000, 320, &paris_events());
    assert_eq!(update.raw_stream, ".../.-//");
    assert_eq!(update.decoded_text, "SA ");

    let update = d.ingest_events(0, 2_000, 320, &paris_events());
    assert!(!update.changed);
    assert_eq!(update.raw_stream, ".../.-//");
    assert_eq!(update.decoded_text, "SA ");
}

#[test]
fn append_decoder_holds_back_events_inside_the_guard_and_flushes() {
    let mut d = AppendEventDecoder::new();
    let update = d.ingest_events(0, 600, 320, &paris_events());
    assert_eq!(update.raw_stream, "...");
    assert_eq!(update.decoded_text, "");
    assert!(!update.changed);
    let update = d.flush();
    assert!(update.changed);
    assert_eq!(update.decoded_text, "S");
    assert!(!d.flush().changed);
    let empty = d.ingest_events(500, 500, 0, &paris_events());
    assert!(!empty.changed);
    assert_eq!(d.raw_stream(), "...");
    assert_eq!(d.decoded_text(), "S");
}

#[test]
fn append_decoder_marks_unknown_letters() {
    let mut d = AppendEventDecoder::new();
    let events: Vec<TimedVizEvent> =
        (1..=7).map(|k| ev(100 * k, VizEventKind::OnDah)).chain([ev(900, VizEventKind::OffChar)]).collect();
    let update = d.ingest_events(0, 10_000, 0, &events);
    assert_eq!(update.decoded_text, "?");
    assert_eq!(update.raw_stream, "-------/");
}

#[test]
fn morse_table_round_trips() {
    for c in ('A'..='Z').chain('0'..='9') {
        let code = char_to_morse(c);
        assert_eq!(morse_to_char(code), Some(c));
        assert_eq!(morse_element_count(c), Some(code.len()));
    }
    assert_eq!(char_to_morse('?'), "");
    assert_eq!(morse_to_char("......."), None);
    assert_eq!(char_to_morse('Q'), "--.-");
}

#[test]
fn split_morse_is_repaired_and_counted() {
    assert_eq!(repair_common_split_morse("  CGT GTGT\tDE "), "CQ QQ DE");
    assert_eq!(normalized_len("CQ de W1AW/7!"), 9);
}

#[test]
fn confidence_labels() {
    assert_eq!(ConfidenceState::Hunting.as_str(), "hunting");
    assert_eq!(ConfidenceState::Probation.as_str(), "probation");
    assert_eq!(ConfidenceState::Locked.as_str(), "locked");
}

#[test]
fn rhythm_gate_needs_maturity_and_is_sticky() {
    let mut gate = RhythmGate::new();
    for _ in 0..3 {
        gate.record_interval(Interval { len: 40, is_on: true });
        gate.apply_verdict(true);
        assert!(!gate.is_open());
    }
    gate.apply_verdict(true);
    assert!(gate.is_open());
    for _ in 0..7 {
        gate.apply_verdict(false);
        assert!(gate.is_open());
    }
    gate.apply_verdict(false);
    assert!(!gate.is_open());
    assert!(!gate.was_recently_mature());
    gate.apply_verdict(true);
    assert!(!gate.is_open());
}

#[test]
fn rhythm_gate_window_holds_the_last_intervals() {
    let mut gate = RhythmGate::new();
    for k in 0..30 {
        gate.record_interval(Interval { len: k, is_on: k % 2 == 0 });
    }
    let window = gate.window();
    assert_eq!(window.len(), 24);
    assert_eq!(window[0], Interval { len: 6, is_on: true });
    assert_eq!(window[23], Interval { len: 29, is_on: false });
    gate.reset();
    assert!(gate.window().is_empty());
}

#[test]
fn small_rng_is_a_xorshift_star() {
    let mut rng = SmallRng::new(0xC0FFEE);
    let mut state = 0xC0FFEEu64.wrapping_mul(0xDEADBEEF).wrapping_add(1);
    for _ in 0..5 {
        state ^= state << 13;
        state ^= state >> 7;
        state ^= state << 17;
        assert_eq!(rng.next_u64(), state.wrapping_mul(0x2545_F491_4F6C_DD1D));
    }
}

#[test]
fn character_edit_distance() {
    assert_eq!(char_edit_distance("", ""), 0);
    assert_eq!(char_edit_distance("", "ABC"), 3);
    assert_eq!(char_edit_distance("PARIS", "PARIS"), 0);
    assert_eq!(char_edit_distance("PARIS", "PARS"), 1);
    assert_eq!(char_edit_distance("KITTEN", "SITTING"), 3);
    assert_eq!(char_edit_distance("CQ DE", "QC DE"), 2);
}

#[test]
fn confidence_gate_holds_output_during_probation() {
    let mut gate: ConfidenceGate<&str> = ConfidenceGate::new();
    assert_eq!(gate.filter(vec![("power", false), ("A", true)]), vec!["power"]);
    let mut events = Vec::new();
    assert!(gate.set_confidence(ConfidenceState::Probation, &mut events, "probation"));
    assert_eq!(events, vec!["probation"]);
    assert_eq!(gate.filter(vec![("C", true), ("pitch", false), ("Q", true)]), vec!["pitch"]);
    let mut events = Vec::new();
    assert!(gate.set_confidence(ConfidenceState::Locked, &mut events, "locked"));
    assert_eq!(events, vec!["locked", "C", "Q"]);
    assert!(!gate.set_confidence(ConfidenceState::Locked, &mut events, "again"));
    assert_eq!(gate.filter(vec![("D", true), ("E", true)]), vec!["D", "E"]);
}

#[test]
fn confidence_gate_discards_output_of_a_lost_lock_and_flushes_at_the_end() {
    let mut gate: ConfidenceGate<u32> = ConfidenceGate::new();
    let mut events = Vec::new();
    gate.set_confidence(ConfidenceState::Probation, &mut events, 0);
    gate.filter(vec![(1, true), (2, true)]);
    gate.set_confidence(ConfidenceState::Hunting, &mut events, 9);
    assert_eq!(events, vec![0, 9]);
    gate.set_confidence(ConfidenceState::Probation, &mut events, 0);
    gate.filter(vec![(3, true)]);
    let mut tail = Vec::new();
    gate.flush(&mut tail);
    assert_eq!(tail, vec![3]);
    assert_eq!(gate.state(), ConfidenceState::Probation);
}

#[test]
fn confidence_gate_filters_batches_as_one_stream() {
    let stream = vec![("C", true), ("pitch", false), ("Q", true), ("power", false), ("D", true)];
    let mut whole: ConfidenceGate<&str> = ConfidenceGate::new();
    let mut split: ConfidenceGate<&str> = ConfidenceGate::new();
    let mut sink = Vec::new();
    whole.set_confidence(ConfidenceState::Probation, &mut sink, "probation");
    split.set_confidence(ConfidenceState::Probation, &mut sink, "probation");
    let passed_whole = whole.filter(stream.clone());
    let mut passed_split = split.filter(stream[..2].to_vec());
    passed_split.extend(split.filter(stream[2..].to_vec()));
    assert_eq!(passed_whole, vec!["pitch", "power"]);
    assert_eq!(passed_split, passed_whole);
    let mut released_whole = Vec::new();
    let mut released_split = Vec::new();
    whole.set_confidence(ConfidenceState::Locked, &mut released_whole, "locked");
    split.set_confidence(ConfidenceState::Locked, &mut released_split, "locked");
    assert_eq!(released_whole, vec!["locked", "C", "Q", "D"]);
    assert_eq!(released_split, released_whole);
}

#[test]
fn append_decoder_text_only_grows() {
    let mut d = AppendEventDecoder::new();
    let first = d.ingest_events(0, 1_000, 320, &paris_events());
    let second = d.ingest_events(0, 2_000, 320, &paris_events());
    assert!(second.decoded_text.starts_with(&first.decoded_text));
    assert!(second.raw_stream.starts_with(&first.raw_stream));
    let last = d.flush();
    assert!(last.decoded_text.starts_with(&second.decoded_text));
}

#[test]
fn raw_stream_holds_only_dits_dahs_and_gaps() {
    let mut d = AppendEventDecoder::new();
    d.ingest_events(0, 2_000, 320, &paris_events());
    let before = d.raw_stream();
    let update = d.flush();
    assert_eq!(update.raw_stream, before);
    assert!(!before.is_empty());
    assert!(before.chars().all(|c| c == '.' || c == '-' || c == '/'));
}
