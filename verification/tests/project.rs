use daw_engine::dsp::biquad::FilterKind;
use daw_engine::project::{
    default_eq_bands, filter_kind_to_code, EqBandState, MasterState, NewerFormat, ProjectFile, TrackState,
    FORMAT_VERSION,
};
use daw_engine::single::Single;

fn s(x: f32) -> Single {
    Single { bits: x.to_bits() }
}

#[test]
fn empty_project_is_untitled_and_flat() {
    let p = ProjectFile::empty();
    assert_eq!(p.format_version, 1);
    assert_eq!(p.name, "Untitled");
    assert!(p.tracks.is_empty());
    assert_eq!(p.master.gain_db, s(0.0));
    assert_eq!(p.master.pan, s(0.0));
    assert_eq!(p.master.eq_bands, default_eq_bands());
}

#[test]
fn default_bands_are_the_console_layout() {
    let band = |kind, hz, q| EqBandState {
        kind,
        freq_hz: s(hz),
        q: s(q),
        gain_db: s(0.0),
        enabled: true,
    };
    assert_eq!(
        default_eq_bands(),
        vec![
            band(1, 120.0, 0.707),
            band(0, 500.0, 1.0),
            band(0, 3_000.0, 1.0),
            band(2, 8_000.0, 0.707),
        ]
    );
}

#[test]
fn new_tracks_have_a_name_and_nothing_else() {
    let t = TrackState::default_named("Kick".to_string());
    assert_eq!(t.name, "Kick");
    assert!(t.clip_path.is_none());
    assert_eq!((t.gain_db, t.pan), (s(0.0), s(0.0)));
    assert_eq!(t.eq_bands, default_eq_bands());
    let m = MasterState::default_flat();
    assert_eq!(m.eq_bands.len(), 4);
}

#[test]
fn a_project_is_always_saved_in_the_current_version() {
    let mut p = ProjectFile::empty();
    p.format_version = 0;
    p.name = "Demo".to_string();
    p.tracks.push(TrackState::default_named("Drums".to_string()));
    let saved = p.stamped();
    assert_eq!(saved.format_version, FORMAT_VERSION);
    assert_eq!(saved.name, "Demo");
    assert_eq!(saved.tracks.len(), 1);
    assert!(saved.accepted().is_ok());
}

#[test]
fn rejects_newer_format_version() {
    let mut p = ProjectFile::empty();
    p.format_version = FORMAT_VERSION + 1;
    assert_eq!(
        p.accepted().unwrap_err(),
        NewerFormat { found: FORMAT_VERSION + 1, supported: FORMAT_VERSION }
    );
    let mut p = ProjectFile::empty();
    p.format_version = 0;
    assert_eq!(p.accepted().unwrap().format_version, 0);
}

#[test]
fn filter_codes_round_trip() {
    let kinds = [
        (FilterKind::Peak, 0),
        (FilterKind::LowShelf, 1),
        (FilterKind::HighShelf, 2),
        (FilterKind::Lowpass, 3),
        (FilterKind::Highpass, 4),
        (FilterKind::Bandpass, 5),
        (FilterKind::Notch, 6),
    ];
    for (kind, code) in kinds {
        assert_eq!(filter_kind_to_code(kind), code);
        assert_eq!(FilterKind::from_code(code), kind);
    }
    assert_eq!(FilterKind::from_code(7), FilterKind::Peak);
    assert_eq!(FilterKind::from_code(255), FilterKind::Peak);
}
