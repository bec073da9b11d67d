//! What the logging terminal's header shows about the engine and the rig:
//! glyphs, labels and the colour each is drawn in.

use vstd::prelude::*;
use crate::textual::{chars_to_string, str_to_chars};

verus! {

/// The colours the header draws in.
#[derive(Debug, Clone, Copy, PartialEq, Eq, Structural)]
pub enum Tone {
    Green,
    Red,
    Yellow,
    DarkGray,
    White,
    Gray,
    Cyan,
}

/// One run of header text: plain when it has no tone.
#[derive(Debug)]
pub struct Segment {
    pub text: String,
    pub tone: Option<Tone>,
    pub bold: bool,
}

/// Whether the engine answered its last health check.
#[derive(Debug)]
pub enum EngineStatus {
    Connected,
    Unreachable { message: String },
    Unknown,
}

/// The rig link's state.
#[derive(Debug, Clone, Copy, PartialEq, Eq, Structural)]
pub enum RigStatus {
    Connected,
    Disconnected,
    Error,
    Disabled,
}

/// What the rig reported last.
#[derive(Debug)]
pub struct RigInfo {
    pub status: RigStatus,
    pub error_message: Option<String>,
    pub frequency_display: String,
    pub mode: Option<String>,
    pub submode: Option<String>,
}

/// A segment as values: text, tone and weight.
pub open spec fn seg(text: Seq<char>, tone: Option<Tone>, bold: bool) -> (Seq<char>, Option<Tone>, bool) {
    (text, tone, bold)
}

/// The values of a list of segments.
pub open spec fn segment_views(segments: Seq<Segment>) -> Seq<(Seq<char>, Option<Tone>, bool)> {
    segments.map_values(|s: Segment| (s.text@, s.tone, s.bold))
}

/// The engine indicator: a green dot and `engine` when connected, a red
/// cross and `engine unreachable @ <endpoint>` (bold) when not, a dim
/// circle and `engine ...` before the first check.
pub open spec fn engine_view(status: EngineStatus, endpoint: Seq<char>) -> Seq<
    (Seq<char>, Option<Tone>, bool),
> {
    match status {
        EngineStatus::Connected => seq![
            seg("\u{25CF}"@, Some(Tone::Green), true),
            seg(" "@, None, false),
            seg("engine"@, Some(Tone::Green), false),
        ],
        EngineStatus::Unreachable { .. } => seq![
            seg("\u{2716}"@, Some(Tone::Red), true),
            seg(" "@, None, false),
            seg("engine unreachable @ "@ + endpoint, Some(Tone::Red), true),
        ],
        EngineStatus::Unknown => seq![
            seg("\u{25CB}"@, Some(Tone::DarkGray), false),
            seg(" "@, None, false),
            seg("engine ..."@, Some(Tone::DarkGray), false),
        ],
    }
}

/// A segment holding a copy of `text`.
pub fn segment(text: &str, tone: Option<Tone>, bold: bool) -> (s: Segment)
    ensures
        s.text@ == text@,
        s.tone == tone,
        s.bold == bold,
{
    Segment { text: text.to_owned(), tone, bold }
}

/// The engine indicator segments for `status`, naming `endpoint` when the
/// engine is unreachable.
pub fn engine_status_segments(status: &EngineStatus, endpoint: &str) -> (r: Vec<Segment>)
    ensures
        segment_views(r@) == engine_view(*status, endpoint@),
{
    let r = match status {
        EngineStatus::Connected => vec![
            segment("\u{25CF}", Some(Tone::Green), true),
            segment(" ", None, false),
            segment("engine", Some(Tone::Green), false),
        ],
        EngineStatus::Unreachable { .. } => {
            let mut text = str_to_chars("engine unreachable @ ");
            let tail = str_to_chars(endpoint);
            crate::textual::extend_chars(&mut text, tail.as_slice());
            vec![
                segment("\u{2716}", Some(Tone::Red), true),
                segment(" ", None, false),
                Segment { text: chars_to_string(text.as_slice()), tone: Some(Tone::Red), bold: true },
            ]
        },
        EngineStatus::Unknown => vec![
            segment("\u{25CB}", Some(Tone::DarkGray), false),
            segment(" ", None, false),
            segment("engine ...", Some(Tone::DarkGray), false),
        ],
    };
    assert(segment_views(r@) =~= engine_view(*status, endpoint@));
    r
}

/// The glyph and colour of a rig status.
pub open spec fn rig_badge(status: RigStatus) -> (Seq<char>, Tone) {
    match status {
        RigStatus::Connected => ("\u{25CF}"@, Tone::Green),
        RigStatus::Disconnected => ("\u{25CB}"@, Tone::Yellow),
        RigStatus::Error => ("\u{2716}"@, Tone::Red),
        RigStatus::Disabled => ("\u{2013}"@, Tone::DarkGray),
    }
}

/// The label of a rig that is not connected.
pub open spec fn rig_label(rig: RigInfo) -> Seq<char> {
    match rig.status {
        RigStatus::Disconnected => "disconnected"@,
        RigStatus::Error => match rig.error_message {
            Some(m) => m@,
            None => "error"@,
        },
        _ => "disabled"@,
    }
}

/// The mode shown for a connected rig: its mode, else its submode, else `?`.
pub open spec fn rig_mode(rig: RigInfo) -> Seq<char> {
    match rig.mode {
        Some(m) => m@,
        None => match rig.submode {
            Some(s) => s@,
            None => "?"@,
        },
    }
}

/// The rig status line: `Rig: OFF` without rig control, `Rig: waiting…`
/// before the first report, the badge and label of a rig that is not
/// connected, and the badge, frequency and mode of a connected one.
pub open spec fn rig_view(enabled: bool, rig: Option<RigInfo>) -> Seq<(Seq<char>, Option<Tone>, bool)> {
    if !enabled {
        seq![seg(" Rig: OFF"@, Some(Tone::DarkGray), false)]
    } else {
        match rig {
            None => seq![seg(" Rig: waiting\u{2026}"@, Some(Tone::DarkGray), false)],
            Some(info) => {
                let (glyph, tone) = rig_badge(info.status);
                if info.status != RigStatus::Connected {
                    seq![
                        seg(" "@, None, false),
                        seg(glyph, Some(tone), true),
                        seg(" "@, None, false),
                        seg(rig_label(info), Some(tone), false),
                    ]
                } else {
                    seq![
                        seg(" "@, None, false),
                        seg(glyph, Some(tone), true),
                        seg(" "@, None, false),
                        seg(info.frequency_display@, Some(Tone::White), true),
                        seg(" "@, None, false),
                        seg(rig_mode(info), Some(Tone::Cyan), false),
                    ]
                }
            },
        }
    }
}

fn copy_text(s: &String) -> (r: String)
    ensures
        r@ == s@,
{
    s.clone()
}

/// The rig status segments.
pub fn rig_status_segments(rig_control_enabled: bool, rig: Option<&RigInfo>) -> (r: Vec<Segment>)
    ensures
        segment_views(r@) == rig_view(
            rig_control_enabled,
            match rig {
                Some(i) => Some(*i),
                None => None,
            },
        ),
{
    if !rig_control_enabled {
        let r = vec![segment(" Rig: OFF", Some(Tone::DarkGray), false)];
        assert(segment_views(r@) =~= rig_view(rig_control_enabled, None));
        return r;
    }
    let info = match rig {
        Some(i) => i,
        None => {
            let r = vec![segment(" Rig: waiting\u{2026}", Some(Tone::DarkGray), false)];
            assert(segment_views(r@) =~= rig_view(rig_control_enabled, None));
            return r;
        },
    };
    let (glyph, tone) = match info.status {
        RigStatus::Connected => ("\u{25CF}", Tone::Green),
        RigStatus::Disconnected => ("\u{25CB}", Tone::Yellow),
        RigStatus::Error => ("\u{2716}", Tone::Red),
        RigStatus::Disabled => ("\u{2013}", Tone::DarkGray),
    };
    if info.status != RigStatus::Connected {
        let label = match info.status {
            RigStatus::Disconnected => "disconnected".to_owned(),
            RigStatus::Error => match &info.error_message {
                Some(m) => copy_text(m),
                None => "error".to_owned(),
            },
            _ => "disabled".to_owned(),
        };
        let r = vec![
            segment(" ", None, false),
            segment(glyph, Some(tone), true),
            segment(" ", None, false),
            Segment { text: label, tone: Some(tone), bold: false },
        ];
        assert(segment_views(r@) =~= rig_view(rig_control_enabled, Some(*info)));
        return r;
    }
    let mode = match &info.mode {
        Some(m) => copy_text(m),
        None => match &info.submode {
            Some(s) => copy_text(s),
            None => "?".to_owned(),
        },
    };
    let r = vec![
        segment(" ", None, false),
        segment(glyph, Some(tone), true),
        segment(" ", None, false),
        Segment { text: copy_text(&info.frequency_display), tone: Some(Tone::White), bold: true },
        segment(" ", None, false),
        Segment { text: mode, tone: Some(Tone::Cyan), bold: false },
    ];
    assert(segment_views(r@) =~= rig_view(rig_control_enabled, Some(*info)));
    r
}

} // verus!
