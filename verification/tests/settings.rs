use std::time::Duration;

use qsoripper::form::{adv_field, advanced_rows, AdvancedField, AdvancedForm};
use qsoripper::header::Tone;
use qsoripper::storage::SqliteStorageBuilder;

#[test]
fn storage_builder_defaults_and_overrides() {
    let builder = SqliteStorageBuilder::new();
    assert_eq!(builder.database_file().as_deref(), Some("logripper.db"));
    assert_eq!(builder.timeout_duration(), Duration::from_secs(5));
    assert!(builder.uses_write_ahead_log());
    let builder = builder.path("data/log.db").busy_timeout(Duration::from_millis(250));
    assert_eq!(builder.database_file().as_deref(), Some("data/log.db"));
    assert_eq!(builder.timeout_duration(), Duration::from_millis(250));
    let builder = builder.in_memory();
    assert_eq!(builder.database_file(), None);
    assert!(!builder.uses_write_ahead_log());
    assert_eq!(builder.timeout_duration(), Duration::from_millis(250));
}

#[test]
fn form_fields_are_padded_or_show_their_end() {
    assert_eq!(adv_field("100", false, 6), "100   ");
    assert_eq!(adv_field("100", true, 6), "100|  ");
    assert_eq!(adv_field("ABCDEFGH", true, 4), "FGH|");
    assert_eq!(adv_field("ÄÖÜ", false, 2), "ÖÜ");
    assert_eq!(adv_field("", false, 0), "");
}

fn sample_form(focused: Option<AdvancedField>) -> AdvancedForm {
    AdvancedForm {
        tx_power: "100".to_string(),
        submode_override: String::new(),
        contest_id: "CQ-WW-CW".to_string(),
        serial_sent: "001".to_string(),
        serial_rcvd: "042".to_string(),
        exchange_sent: "5NN 14".to_string(),
        exchange_rcvd: "5NN 05".to_string(),
        focused,
    }
}

#[test]
fn advanced_panel_rows_show_labels_and_focused_field() {
    let rows = advanced_rows(&sample_form(Some(AdvancedField::TxPower)), 40, 6);
    assert_eq!(rows.len(), 5);
    assert_eq!(rows[0].len(), 5);
    assert_eq!(rows[0][0].text, "TX Power ");
    assert_eq!(rows[0][0].tone, Some(Tone::DarkGray));
    assert_eq!(rows[0][1].text, format!("{:<20}", "100|"));
    assert_eq!(rows[0][1].tone, Some(Tone::White));
    assert!(rows[0][1].bold);
    assert_eq!(rows[0][2].text, "   ");
    assert_eq!(rows[0][2].tone, None);
    assert_eq!(rows[0][4].text, " ".repeat(20));
    assert_eq!(rows[0][4].tone, Some(Tone::Gray));
    assert!(!rows[0][4].bold);
    assert_eq!(rows[1][0].text, "Contest  ");
    assert_eq!(rows[1][1].text, format!("{:<29}", "CQ-WW-CW"));
    assert_eq!(rows[2][3].text, "Ser Rcvd ");
    assert_eq!(rows[3][1].text.chars().count(), 29);
    assert_eq!(rows[4][0].text, "Exch Rcvd");
}

#[test]
fn advanced_panel_narrow_or_short() {
    assert!(advanced_rows(&sample_form(None), 40, 3).is_empty());
    let rows = advanced_rows(&sample_form(Some(AdvancedField::ExchangeRcvd)), 12, 4);
    assert_eq!(rows.len(), 5);
    assert_eq!(rows[4][1].text, "5NN 05|   ");
    assert_eq!(rows[4][1].tone, Some(Tone::White));
    assert_eq!(rows[3][1].text, "5NN 14    ");
    assert_eq!(rows[3][1].tone, Some(Tone::Gray));
}

#[test]
fn storage_builder_default_matches_new() {
    let builder = SqliteStorageBuilder::default();
    assert_eq!(builder.database_file().as_deref(), Some("logripper.db"));
    assert_eq!(builder.timeout_duration(), Duration::from_secs(5));
    assert!(builder.uses_write_ahead_log());
}
