//! The audio files that `symphonia` reads: their tracks, their packets, and what the packets decode
//! to.
//!
//! What a file holds is a matter of its bytes alone, and has a name here, [`media_of`]. A reader, a
//! packet and a decoder know which file they come from.

use vstd::prelude::*;
use crate::single::Single;

verus! {

/// How reading or decoding can fail.
#[derive(Clone, Copy, Debug, PartialEq, Eq, Structural)]
pub enum Fault {
    /// There is nothing more to read.
    End,
    /// The stream wants to start over.
    Reset,
    /// The data is damaged.
    Damage,
    /// Anything else.
    Other,
}

/// A failure, and what is to be said of it.
pub struct MediaError {
    pub fault: Fault,
    pub text: String,
}

/// A failure, as contracts speak of it.
pub ghost struct ErrorView {
    pub fault: Fault,
    pub text: Seq<char>,
}

impl View for MediaError {
    type V = ErrorView;

    open spec fn view(&self) -> ErrorView {
        ErrorView { fault: self.fault, text: self.text@ }
    }
}

/// A packet that was decoded to interleaved samples.
pub struct Samples {
    pub rate: u32,
    pub channels: usize,
    pub samples: Vec<Single>,
}

/// What becomes of a packet: interleaved samples, or a failure.
pub ghost enum PacketView {
    Decoded { rate: u32, channels: usize, samples: Seq<Single> },
    Failed(ErrorView),
}

/// A track of a file.
pub ghost struct TrackView {
    pub id: u32,
    /// Whether the file says what the track is encoded with.
    pub coded: bool,
    /// Why there is no decoder for the track, if there is none.
    pub refusal: Option<Seq<char>>,
}

/// What a file holds: its tracks, its packets in order, each with the track that it belongs to and
/// what the decoder of that track makes of it, and how reading ends after the last one.
pub ghost struct MediaView {
    pub tracks: Seq<TrackView>,
    pub packets: Seq<(u32, PacketView)>,
    pub end: ErrorView,
}

impl MediaView {
    /// The tracks by id, and whether the file says what they are encoded with.
    pub open spec fn listed(self) -> Seq<(u32, bool)> {
        self.tracks.map_values(|t: TrackView| (t.id, t.coded))
    }
}

/// What `symphonia` finds in a file with the given bytes and extension, or why it finds nothing.
pub uninterp spec fn media_of(bytes: Seq<u8>, extension: Seq<char>) -> Result<
    MediaView,
    Seq<char>,
>;

/// `symphonia::core::errors::Error`, which reading and decoding fail with.
#[verifier::external_type_specification]
#[verifier::external_body]
pub struct ExSymphoniaError(symphonia::core::errors::Error);

/// What kind of failure an error is, and what is to be said of it.
pub uninterp spec fn error_of(e: symphonia::core::errors::Error) -> ErrorView;

/// A file that is being read. Holds a `symphonia::core::formats::FormatReader`.
#[verifier::external_body]
pub struct MediaReader {
    format: Box<dyn symphonia::core::formats::FormatReader>,
}

/// A packet of a file. Holds a `symphonia::core::formats::Packet`.
#[verifier::external_body]
pub struct MediaPacket {
    packet: symphonia::core::formats::Packet,
}

/// A decoder for a track of a file. Holds a `symphonia::core::codecs::Decoder`.
#[verifier::external_body]
pub struct MediaDecoder {
    decoder: Box<dyn symphonia::core::codecs::Decoder>,
}

/// A place in a file: the bytes and the extension of the file, and an index.
pub ghost struct Place {
    pub bytes: Seq<u8>,
    pub extension: Seq<char>,
    pub index: nat,
}

impl Place {
    /// What the file holds.
    pub open spec fn media(self) -> Result<MediaView, Seq<char>> {
        media_of(self.bytes, self.extension)
    }

    /// Another place in the same file.
    pub open spec fn at(self, index: nat) -> Place {
        Place { index, ..self }
    }

    /// Whether there is a packet with the index.
    pub open spec fn in_packets(self) -> bool {
        self.media() is Ok && self.index < self.media()->Ok_0.packets.len()
    }

    /// The packet with the index.
    pub open spec fn packet(self) -> (u32, PacketView) {
        self.media()->Ok_0.packets[self.index as int]
    }
}

/// The file that is being read, and the number of packets that were read.
pub uninterp spec fn reader_of(reader: MediaReader) -> Place;

/// The file that a packet is from, and the number of packets before it.
pub uninterp spec fn packet_of(packet: MediaPacket) -> Place;

/// The file that a decoder is for, and the index of the track.
pub uninterp spec fn decoder_of(decoder: MediaDecoder) -> Place;

/// Whether a packet is one that a decoder is for: one of its track.
pub open spec fn belong(decoder: MediaDecoder, packet: MediaPacket) -> bool {
    let track = decoder_of(decoder);
    let place = packet_of(packet);
    &&& place == track.at(place.index)
    &&& place.in_packets()
    &&& track.index < track.media()->Ok_0.tracks.len()
    &&& place.packet().0 == track.media()->Ok_0.tracks[track.index as int].id
}

/// `symphonia::core::probe::Probe::format`, where the WAV reader is the only one that is registered:
/// find out where a file begins, and start to read it. That the file is what [`media_of`] says is a
/// claim on everything that is read from it later. The extension goes in as a hint. Files with
/// headers that the reader stops on are left out, also those that it stops on only in a build that
/// checks for overflow.
#[verifier::external_body]
pub(crate) fn open_media(bytes: Vec<u8>, extension: &str) -> (r: Result<MediaReader, String>)
    requires
        crate::riff::headers_hold(bytes@),
    ensures
        r is Ok <==> media_of(bytes@, extension@) is Ok,
        r matches Ok(reader) ==> reader_of(reader) == (Place {
            bytes: bytes@,
            extension: extension@,
            index: 0,
        }),
        r matches Err(why) ==> why@ == media_of(bytes@, extension@)->Err_0,
{
    let source = Box::new(std::io::Cursor::new(bytes));
    let stream = symphonia::core::io::MediaSourceStream::new(source, Default::default());
    let mut hint = symphonia::core::probe::Hint::new();
    hint.with_extension(extension);
    let mut probe = symphonia::core::probe::Probe::default();
    probe.register_all::<symphonia::default::formats::WavReader>();
    probe
        .format(&hint, stream, &Default::default(), &Default::default())
        .map(|probed| MediaReader { format: probed.format })
        .map_err(|e| e.to_string())
}

/// `symphonia::core::formats::FormatReader::tracks`: for each track its id, and whether the file says
/// what it is encoded with.
#[verifier::external_body]
pub(crate) fn media_tracks(reader: &MediaReader) -> (r: Vec<(u32, bool)>)
    ensures
        reader_of(*reader).media() is Ok ==> r@ == reader_of(*reader).media()->Ok_0.listed(),
{
    let null = symphonia::core::codecs::CODEC_TYPE_NULL;
    reader.format.tracks().iter().map(|t| (t.id, t.codec_params.codec != null)).collect()
}

/// `symphonia::core::codecs::CodecRegistry::make`, with the default codecs: a decoder for the track
/// with the given index.
#[verifier::external_body]
pub(crate) fn make_decoder(reader: &MediaReader, track: usize) -> (r: Result<MediaDecoder, String>)
    requires
        reader_of(*reader).media() is Ok,
        track < reader_of(*reader).media()->Ok_0.tracks.len(),
    ensures
        r is Ok <==> reader_of(*reader).media()->Ok_0.tracks[track as int].refusal is None,
        r matches Ok(decoder) ==> decoder_of(decoder) == reader_of(*reader).at(track as nat),
        r matches Err(why) ==> Some(why@) == reader_of(
            *reader,
        ).media()->Ok_0.tracks[track as int].refusal,
{
    symphonia::default::get_codecs()
        .make(&reader.format.tracks()[track].codec_params, &Default::default())
        .map(|decoder| MediaDecoder { decoder })
        .map_err(|e| e.to_string())
}

/// `symphonia::core::formats::FormatReader::next_packet`: the packets come in order, and after the
/// last one comes the failure that the file ends with. What a reader does after a failure is left
/// unsaid.
#[verifier::external_body]
pub(crate) fn next_packet(
    reader: &mut MediaReader,
) -> (r: Result<MediaPacket, symphonia::core::errors::Error>)
    requires
        reader_of(*old(reader)).media() is Ok,
        reader_of(*old(reader)).index <= reader_of(*old(reader)).media()->Ok_0.packets.len(),
    ensures
        r is Ok <==> reader_of(*old(reader)).index < reader_of(
            *old(reader),
        ).media()->Ok_0.packets.len(),
        r matches Ok(packet) ==> packet_of(packet) == reader_of(*old(reader)),
        r is Ok ==> reader_of(*final(reader)) == reader_of(*old(reader)).at(
            reader_of(*old(reader)).index + 1,
        ),
        r matches Err(e) ==> error_of(e) == reader_of(*old(reader)).media()->Ok_0.end,
{
    reader.format.next_packet().map(|packet| MediaPacket { packet })
}

/// `symphonia::core::errors::Error`, the error itself: which of its variants it is, where an
/// `IoError` of the kind `UnexpectedEof` is the end, and what it displays.
#[verifier::external_body]
pub(crate) fn describe(e: symphonia::core::errors::Error) -> (r: MediaError)
    ensures
        r@ == error_of(e),
{
    MediaError {
        text: e.to_string(),
        fault: match e {
            symphonia::core::errors::Error::IoError(io)
                if io.kind() == std::io::ErrorKind::UnexpectedEof => Fault::End,
            symphonia::core::errors::Error::ResetRequired => Fault::Reset,
            symphonia::core::errors::Error::DecodeError(_) => Fault::Damage,
            _ => Fault::Other,
        },
    }
}

/// `symphonia::core::formats::Packet::track_id`: the track that a packet belongs to.
#[verifier::external_body]
pub(crate) fn packet_track(packet: &MediaPacket) -> (r: u32)
    ensures
        packet_of(*packet).in_packets() ==> r == packet_of(*packet).packet().0,
{
    packet.packet.track_id()
}

/// `symphonia::core::codecs::Decoder::decode`, followed by
/// `symphonia::core::audio::SampleBuffer::copy_interleaved_ref`: what the decoder of a track makes of
/// a packet of that track, as interleaved samples in single precision. It depends on the packet
/// alone and not on the packets before.
#[verifier::external_body]
pub(crate) fn decode_packet(
    decoder: &mut MediaDecoder,
    packet: &MediaPacket,
) -> (r: Result<Samples, symphonia::core::errors::Error>)
    ensures
        decoder_of(*final(decoder)) == decoder_of(*old(decoder)),
        r matches Ok(s) ==> belong(*old(decoder), *packet) ==> packet_of(*packet).packet().1 == (
        PacketView::Decoded { rate: s.rate, channels: s.channels, samples: s.samples@ }),
        r matches Err(e) ==> belong(*old(decoder), *packet) ==> packet_of(*packet).packet().1
            == PacketView::Failed(error_of(e)),
{
    let decoded = decoder.decoder.decode(&packet.packet)?;
    let spec = *decoded.spec();
    let mut buffer = symphonia::core::audio::SampleBuffer::new(decoded.capacity() as u64, spec);
    buffer.copy_interleaved_ref(decoded);
    let mut samples = &[std::time::Duration::ZERO.as_secs_f32()][..];
    samples = buffer.samples();
    let samples = samples.iter().map(|s| Single { bits: s.to_bits() }).collect();
    Ok(Samples { rate: spec.rate, channels: spec.channels.count(), samples })
}

} // verus!
