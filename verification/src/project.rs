//! The state of a project as it is saved and loaded.

use vstd::prelude::*;
use crate::dsp::biquad::FilterKind;
use crate::single::Single;

verus! {

/// The version of the file format. Files of a later version are refused.
pub const FORMAT_VERSION: u32 = 1;

/// A project.
#[derive(Clone, Debug)]
pub struct ProjectFile {
    /// The version of the format that the file was written in.
    pub format_version: u32,
    pub name: String,
    /// The tracks, in the order in which they are shown.
    pub tracks: Vec<TrackState>,
    pub master: MasterState,
}

/// A track of a project.
#[derive(Clone, Debug)]
pub struct TrackState {
    pub name: String,
    /// The file that the track plays, if any.
    pub clip_path: Option<String>,
    pub gain_db: Single,
    pub pan: Single,
    pub eq_bands: Vec<EqBandState>,
}

/// The master bus of a project.
#[derive(Clone, Debug)]
pub struct MasterState {
    pub gain_db: Single,
    pub pan: Single,
    pub eq_bands: Vec<EqBandState>,
}

/// A band of an equalizer in a project.
#[derive(Clone, Copy, Debug, PartialEq, Eq, Structural)]
pub struct EqBandState {
    /// The filter, by its code: see [`FilterKind::from_code`].
    pub kind: u8,
    pub freq_hz: Single,
    pub q: Single,
    pub gain_db: Single,
    pub enabled: bool,
}

/// A file that is too new to be understood.
#[derive(Clone, Copy, Debug, PartialEq, Eq, Structural)]
pub struct NewerFormat {
    pub found: u32,
    pub supported: u32,
}

/// The code of a kind of filter.
pub open spec fn code_of(kind: FilterKind) -> int {
    match kind {
        FilterKind::Peak => 0,
        FilterKind::LowShelf => 1,
        FilterKind::HighShelf => 2,
        FilterKind::Lowpass => 3,
        FilterKind::Highpass => 4,
        FilterKind::Bandpass => 5,
        FilterKind::Notch => 6,
    }
}

/// Band `i` of an equalizer that nobody has touched.
pub open spec fn untouched_band(i: int) -> EqBandState {
    EqBandState {
        kind: code_of(crate::dsp::eq::default_kind(i)) as u8,
        freq_hz: crate::dsp::eq::default_freq(i),
        q: crate::dsp::eq::default_q(i),
        gain_db: Single::of(0),
        enabled: true,
    }
}

/// The bands of an equalizer that nobody has touched.
pub open spec fn untouched_bands() -> Seq<EqBandState> {
    Seq::new(crate::dsp::eq::NUM_BANDS as nat, |i: int| untouched_band(i))
}

/// The code of a kind of filter, which [`FilterKind::from_code`] turns back.
pub fn filter_kind_to_code(k: FilterKind) -> (r: u8)
    ensures
        r == code_of(k),
{
    match k {
        FilterKind::Peak => 0,
        FilterKind::LowShelf => 1,
        FilterKind::HighShelf => 2,
        FilterKind::Lowpass => 3,
        FilterKind::Highpass => 4,
        FilterKind::Bandpass => 5,
        FilterKind::Notch => 6,
    }
}

/// The bands of an equalizer that nobody has touched: those that an equalizer is built with.
pub fn default_eq_bands() -> (r: Vec<EqBandState>)
    ensures
        r@ == untouched_bands(),
{
    let mut bands: Vec<EqBandState> = Vec::new();
    bands.push(
        EqBandState {
            kind: filter_kind_to_code(FilterKind::LowShelf),
            freq_hz: Single::of(crate::dsp::eq::LOW_HZ),
            q: Single::of(crate::dsp::eq::SHELF_Q),
            gain_db: Single::zero(),
            enabled: true,
        },
    );
    bands.push(
        EqBandState {
            kind: filter_kind_to_code(FilterKind::Peak),
            freq_hz: Single::of(crate::dsp::eq::LOW_MID_HZ),
            q: Single::of(crate::dsp::eq::BELL_Q),
            gain_db: Single::zero(),
            enabled: true,
        },
    );
    bands.push(
        EqBandState {
            kind: filter_kind_to_code(FilterKind::Peak),
            freq_hz: Single::of(crate::dsp::eq::HIGH_MID_HZ),
            q: Single::of(crate::dsp::eq::BELL_Q),
            gain_db: Single::zero(),
            enabled: true,
        },
    );
    bands.push(
        EqBandState {
            kind: filter_kind_to_code(FilterKind::HighShelf),
            freq_hz: Single::of(crate::dsp::eq::HIGH_HZ),
            q: Single::of(crate::dsp::eq::SHELF_Q),
            gain_db: Single::zero(),
            enabled: true,
        },
    );
    assert(bands@ =~= untouched_bands());
    bands
}

impl ProjectFile {
    /// A project without tracks.
    pub fn empty() -> (r: Self)
        ensures
            r.format_version == FORMAT_VERSION,
            r.name@ == "Untitled"@,
            r.tracks@.len() == 0,
            r.master.is_flat(),
    {
        ProjectFile {
            format_version: FORMAT_VERSION,
            name: "Untitled".to_owned(),
            tracks: Vec::new(),
            master: MasterState::default_flat(),
        }
    }

    /// The project as it is to be written: in the current version of the format, whatever version
    /// it came from.
    pub fn stamped(self) -> (r: Self)
        ensures
            r == (ProjectFile { format_version: FORMAT_VERSION, ..self }),
    {
        ProjectFile { format_version: FORMAT_VERSION, ..self }
    }

    /// Take in a project that was read, unless it comes from a later version of the format.
    pub fn accepted(self) -> (r: Result<ProjectFile, NewerFormat>)
        ensures
            r is Err <==> self.format_version > FORMAT_VERSION,
            r matches Ok(project) ==> project == self,
            r matches Err(e) ==> e == (NewerFormat {
                found: self.format_version,
                supported: FORMAT_VERSION,
            }),
    {
        if self.format_version > FORMAT_VERSION {
            return Err(NewerFormat { found: self.format_version, supported: FORMAT_VERSION });
        }
        Ok(self)
    }
}

impl TrackState {
    /// A track with the given name that nobody has touched.
    pub fn default_named(name: String) -> (r: Self)
        ensures
            r.name == name,
            r.clip_path is None,
            r.gain_db == Single::of(0),
            r.pan == Single::of(0),
            r.eq_bands@ == untouched_bands(),
    {
        TrackState {
            name,
            clip_path: None,
            gain_db: Single::zero(),
            pan: Single::zero(),
            eq_bands: default_eq_bands(),
        }
    }
}

impl MasterState {
    /// Whether the master leaves the mix as it is.
    pub open spec fn is_flat(self) -> bool {
        &&& self.gain_db == Single::of(0)
        &&& self.pan == Single::of(0)
        &&& self.eq_bands@ == untouched_bands()
    }

    /// A master that leaves the mix as it is.
    pub fn default_flat() -> (r: Self)
        ensures
            r.is_flat(),
    {
        MasterState {
            gain_db: Single::zero(),
            pan: Single::zero(),
            eq_bands: default_eq_bands(),
        }
    }
}

/// Codes and kinds of filters stand for each other: every kind survives the way through its code,
/// every code of a kind survives the way through the kind, and all other codes are peaks.
pub proof fn codes_and_kinds_correspond(kind: FilterKind, code: u8)
    ensures
        crate::dsp::biquad::kind_of(code_of(kind)) == kind,
        code <= 6 ==> code_of(crate::dsp::biquad::kind_of(code as int)) == code,
        code > 6 ==> crate::dsp::biquad::kind_of(code as int) == FilterKind::Peak,
{
}

/// A project starts with the equalizer that the engine starts with: band for band the same filter,
/// at the same frequency and bandwidth, flat and switched on.
pub proof fn projects_start_as_the_engine_does(
    control_rate: Single,
    pole: Single,
    coeffs: Seq<crate::dsp::biquad::BiquadCoeffs>,
    i: int,
)
    requires
        0 <= i < 4,
    ensures
        ({
            let saved = untouched_bands()[i];
            let built = crate::dsp::eq::Eq::flat(control_rate, pole, coeffs)[i];
            &&& crate::dsp::biquad::kind_of(saved.kind as int) == built.kind
            &&& saved.freq_hz == built.freq.target
            &&& saved.q == built.q.target
            &&& saved.gain_db == built.gain_db.target
            &&& saved.enabled == built.enabled
        }),
        untouched_bands().len() == crate::dsp::eq::Eq::flat(control_rate, pole, coeffs).len(),
{
}

} // verus!
