use qsoripper::header::{engine_status_segments, rig_status_segments, EngineStatus, RigInfo, RigStatus, Segment, Tone};

const ENDPOINT: &str = "http://127.0.0.1:50051";

fn text(segments: &[Segment]) -> String {
    segments.iter().map(|s| s.text.as_str()).collect()
}

#[test]
fn engine_unreachable_renders_red_message_with_endpoint() {
    let status = EngineStatus::Unreachable { message: "transport error".to_string() };
    let spans = engine_status_segments(&status, ENDPOINT);
    let line = text(&spans);
    assert!(line.contains("engine unreachable @ http://127.0.0.1:50051"), "got {line}");
    assert!(line.contains('\u{2716}'), "got {line}");
    assert!(spans.iter().any(|s| s.tone == Some(Tone::Red)));
}

#[test]
fn engine_connected_renders_green_indicator() {
    let spans = engine_status_segments(&EngineStatus::Connected, ENDPOINT);
    let line = text(&spans);
    assert!(line.contains('\u{25CF}'), "got {line}");
    assert!(line.contains("engine"), "got {line}");
    assert!(spans.iter().any(|s| s.tone == Some(Tone::Green)));
}

#[test]
fn engine_unknown_renders_dim_indicator() {
    let spans = engine_status_segments(&EngineStatus::Unknown, ENDPOINT);
    let line = text(&spans);
    assert!(line.contains('\u{25CB}'), "got {line}");
    assert!(line.contains("engine ..."), "got {line}");
    assert!(spans.iter().any(|s| s.tone == Some(Tone::DarkGray)));
}

fn rig(status: RigStatus, error: Option<&str>, mode: Option<&str>, submode: Option<&str>) -> RigInfo {
    RigInfo {
        status,
        error_message: error.map(str::to_string),
        frequency_display: "14.074.000".to_string(),
        mode: mode.map(str::to_string),
        submode: submode.map(str::to_string),
    }
}

#[test]
fn rig_line_by_state() {
    assert_eq!(text(&rig_status_segments(false, None)), " Rig: OFF");
    assert_eq!(text(&rig_status_segments(true, None)), " Rig: waiting\u{2026}");
    let connected = rig(RigStatus::Connected, None, None, Some("FT8"));
    let segments = rig_status_segments(true, Some(&connected));
    assert_eq!(text(&segments), " \u{25CF} 14.074.000 FT8");
    assert_eq!(segments[3].tone, Some(Tone::White));
    assert!(segments[3].bold);
    let unknown_mode = rig(RigStatus::Connected, None, None, None);
    assert_eq!(text(&rig_status_segments(true, Some(&unknown_mode))), " \u{25CF} 14.074.000 ?");
    let broken = rig(RigStatus::Error, Some("port busy"), Some("CW"), None);
    let segments = rig_status_segments(true, Some(&broken));
    assert_eq!(text(&segments), " \u{2716} port busy");
    assert_eq!(segments[3].tone, Some(Tone::Red));
    let quiet = rig(RigStatus::Disconnected, None, None, None);
    assert_eq!(text(&rig_status_segments(true, Some(&quiet))), " \u{25CB} disconnected");
    let off = rig(RigStatus::Disabled, None, None, None);
    assert_eq!(text(&rig_status_segments(true, Some(&off))), " \u{2013} disabled");
}
