use qsoripper::baseline::{
    close_trace, record_decode, transcript_delta_events, DecodeSchedule, DeltaEvent, SampleStep,
};
use qsoripper::stabilizer::PrefixStabilizer;

#[test]
fn schedule_decodes_every_n_samples_once_the_window_is_full_enough() {
    let mut schedule = DecodeSchedule::new(10, 4, 3);
    let steps: Vec<SampleStep> = (0..12).map(|_| schedule.admit_sample()).collect();
    let decodes: Vec<usize> = steps.iter().enumerate().filter(|(_, s)| s.decode).map(|(i, _)| i + 1).collect();
    assert_eq!(decodes, vec![4, 7, 10]);
    let evictions: Vec<usize> =
        steps.iter().enumerate().filter(|(_, s)| s.evict_oldest).map(|(i, _)| i + 1).collect();
    assert_eq!(evictions, vec![11, 12]);
    assert_eq!(schedule.buffered_samples(), 10);
    assert_eq!(schedule.processed_samples(), 12);
    assert_eq!(schedule.plan_flush(), Some(true));
    assert_eq!(schedule.plan_flush(), Some(false));
}

#[test]
fn schedule_flush_of_short_or_empty_streams() {
    let mut empty = DecodeSchedule::new(8000, 800, 80);
    assert_eq!(empty.plan_flush(), None);
    let mut short = DecodeSchedule::new(8000, 800, 80);
    for _ in 0..64 {
        assert_eq!(short.admit_sample(), SampleStep { evict_oldest: false, decode: false });
    }
    assert_eq!(short.plan_flush(), Some(true));
}

#[test]
fn silent_stream_schedule_ends_with_final_transcript_snapshot() {
    // 64 samples of silence at 8 kHz with a one-second window, a 0.1 s
    // minimum window and a decode every 10 ms: the window never fills, so
    // the only decode comes when the stream ends, and it hears nothing.
    let mut schedule = DecodeSchedule::new(8000, 800, 80);
    let mut stabilizer = PrefixStabilizer::new(1);
    let mut snapshots = Vec::new();
    for _ in 0..64 {
        let step = schedule.admit_sample();
        assert!(!step.decode);
    }
    assert_eq!(schedule.plan_flush(), Some(true));
    snapshots.push(record_decode(&mut stabilizer, schedule.processed_samples(), ""));
    close_trace(&mut stabilizer, &mut snapshots, schedule.processed_samples());
    assert_eq!(snapshots.last().map(|snapshot| snapshot.end_sample), Some(64));
    let transcript = stabilizer.transcript();
    assert_eq!(
        snapshots.last().map(|snapshot| snapshot.transcript.as_str()),
        Some(transcript.as_str())
    );
}

#[test]
fn closing_snapshot_records_text_merged_at_the_end() {
    let mut stabilizer = PrefixStabilizer::new(2);
    let mut snapshots = Vec::new();
    snapshots.push(record_decode(&mut stabilizer, 100, "CQ CQ"));
    snapshots.push(record_decode(&mut stabilizer, 200, "CQ CQ DE"));
    assert_eq!(snapshots[1].transcript, "CQ CQ");
    assert_eq!(snapshots[1].appended, "CQ CQ");
    close_trace(&mut stabilizer, &mut snapshots, 250);
    assert_eq!(snapshots.len(), 3);
    assert_eq!(snapshots[2].end_sample, 250);
    assert_eq!(snapshots[2].appended, " DE");
    assert_eq!(snapshots[2].transcript, "CQ CQ DE");
}

#[test]
fn appended_text_reports_words_and_characters() {
    assert_eq!(
        transcript_delta_events(" DE K"),
        vec![DeltaEvent::Word, DeltaEvent::Char('D'), DeltaEvent::Char('E'), DeltaEvent::Word, DeltaEvent::Char('K')]
    );
    assert!(transcript_delta_events("").is_empty());
}

#[test]
fn transcript_is_what_the_merges_returned() {
    let mut stabilizer = PrefixStabilizer::new(2);
    let mut returned = String::new();
    for text in ["  CQ CQ ", "CQ CQ DE W1AW", "CQ CQ DE W1AW K"] {
        let r = record_decode(&mut stabilizer, 0, text);
        returned.push_str(&r.appended);
        assert_eq!(r.transcript, returned);
    }
    returned.push_str(&stabilizer.finalize_latest());
    assert_eq!(stabilizer.transcript(), returned);
    assert_eq!(returned, "CQ CQ DE W1AW K");
}
