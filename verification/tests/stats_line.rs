use qsoripper::stats_line::parse_stats_line;

#[test]
fn fit_lines_give_speed_and_threshold() {
    let f = parse_stats_line("Best fit: WPM = 18.0, Threshold = 1.2345e-3");
    assert_eq!(f.wpm.as_deref(), Some("18.0"));
    assert_eq!(f.threshold.as_deref(), Some("1.2345e-3"));
    assert_eq!(f.pitch, None);
    let g = parse_stats_line("Best fit: WPM =  22.5 ,  noise");
    assert_eq!(g.wpm.as_deref(), Some("22.5"));
    assert_eq!(g.threshold, None);
    let h = parse_stats_line("Best fit: WPM = 18.0");
    assert_eq!((h.wpm, h.threshold, h.pitch), (None, None, None));
}

#[test]
fn pitch_lines_give_the_pitch() {
    let f = parse_stats_line("Estimated pitch: 612.34 Hz");
    assert_eq!(f.pitch.as_deref(), Some("612.34"));
    assert_eq!(f.wpm, None);
    let g = parse_stats_line("Estimated pitch:  700 Hz Hz");
    assert_eq!(g.pitch.as_deref(), Some("700"));
    let other = parse_stats_line("Decoding window 3");
    assert_eq!((other.wpm, other.threshold, other.pitch), (None, None, None));
}
