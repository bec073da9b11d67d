use qsoripper::snapshot::{append_snapshot_text, normalize_snapshot_text};
use qsoripper::stabilizer::PrefixStabilizer;

#[test]
fn normalize_snapshot_text_collapses_whitespace() {
    assert_eq!(normalize_snapshot_text("QST\n  QST\tQST "), "QST QST QST");
}

#[test]
fn append_snapshot_text_extends_prefix_match() {
    let mut transcript = "QST QST".to_string();
    let appended = append_snapshot_text(&mut transcript, "QST QST QST");
    assert_eq!(appended, " QST");
    assert_eq!(transcript, "QST QST QST");
}

#[test]
fn append_snapshot_text_uses_suffix_prefix_overlap() {
    let mut transcript = "QST QST QST".to_string();
    let appended = append_snapshot_text(&mut transcript, "ST QST QST DE");
    assert_eq!(appended, " DE");
    assert_eq!(transcript, "QST QST QST DE");
}

#[test]
fn append_snapshot_text_ignores_contained_snapshot() {
    let mut transcript = "QST QST QST DE".to_string();
    let appended = append_snapshot_text(&mut transcript, "QST QST");
    assert!(appended.is_empty());
    assert_eq!(transcript, "QST QST QST DE");
}

#[test]
fn prefix_stabilizer_commits_only_common_tokens() {
    let mut stabilizer = PrefixStabilizer::new(2);
    assert_eq!(stabilizer.push_snapshot("QST QST"), "");
    assert_eq!(stabilizer.push_snapshot("QST QST M"), "QST QST");
    assert_eq!(stabilizer.transcript(), "QST QST");
    assert_eq!(stabilizer.push_snapshot("QST QST QS"), "");
    assert_eq!(stabilizer.transcript(), "QST QST");
}

#[test]
fn prefix_stabilizer_finalizes_with_latest_snapshot() {
    let mut stabilizer = PrefixStabilizer::new(2);
    stabilizer.push_snapshot("QST QST");
    stabilizer.push_snapshot("QST QST QST");
    stabilizer.push_snapshot("QST QST QST DE");
    assert_eq!(stabilizer.transcript(), "QST QST QST");
    assert_eq!(stabilizer.finalize_latest(), " DE");
    assert_eq!(stabilizer.transcript(), "QST QST QST DE");
}

#[test]
fn prefix_stabilizer_accepts_73_as_stream_anchor() {
    let mut stabilizer = PrefixStabilizer::new(1);
    assert_eq!(stabilizer.push_snapshot("73"), "73");
    assert_eq!(stabilizer.transcript(), "73");
}

#[test]
fn normalized_snapshot_is_clean_text() {
    let n = normalize_snapshot_text("\t GTGT  QGT\u{a0}DE\n\nK  ");
    assert!(!n.starts_with(' ') && !n.ends_with(' '));
    assert!(!n.contains("  "));
    assert!(!n.contains("GT"));
    assert!(n.chars().all(|c| c == ' ' || !c.is_whitespace()));
    assert_eq!(n, "QQ QQ DE K");
    assert_eq!(normalize_snapshot_text(&n), n);
}
