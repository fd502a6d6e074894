//! Turning an audio file into an [`AudioClip`].
//!
//! [`decode_wav`] takes the bytes of a file. [`Decoding`] is told what came of each of its packets,
//! and says whether to go on, and in the end what the file holds.

use vstd::prelude::*;
use vstd::string::StringExecFns;
use crate::clip::AudioClip;
use crate::media::{
    decode_packet, describe, make_decoder, media_tracks, next_packet, open_media, packet_track,
    ErrorView, Fault, MediaDecoder, MediaError, MediaReader, MediaView, PacketView, Samples,
};
use crate::riff::check_headers;
use crate::single::Single;

verus! {

/// What came of asking for the next packet.
pub enum Packet {
    /// The stream has ended.
    End,
    /// The stream wants to start over with another format.
    Reset,
    /// The packet could not be read, for the given reason.
    Unreadable(String),
    /// The packet belongs to another track of the file.
    Foreign,
    /// The packet was decoded to interleaved samples.
    Decoded { rate: u32, channels: usize, samples: Vec<Single> },
    /// The packet is damaged, but the stream goes on.
    Damaged,
    /// The packet could not be decoded, for the given reason.
    Undecodable(String),
}

/// What to do next.
pub enum Progress {
    /// Ask for the next packet.
    More,
    /// Stop: this is the clip.
    Done(AudioClip),
    /// Stop: there is no clip, for the given reason.
    Failed(String),
}

/// A file that is being decoded.
pub struct Decoding {
    /// The format, once the first packet has shown it: rate and number of channels.
    pub format: Option<(u32, usize)>,
    /// The samples so far: `planar[channel][frame]`.
    pub planar: Vec<Vec<Single>>,
}

/// Every `n`-th of the samples, from number `c` on: what channel `c` of `n` hears of them.
pub open spec fn lane(samples: Seq<Single>, c: int, n: int) -> Seq<Single>
    decreases samples.len(),
{
    if samples.len() == 0 {
        Seq::empty()
    } else {
        let before = lane(samples.drop_last(), c, n);
        if (samples.len() - 1) % n == c {
            before.push(samples.last())
        } else {
            before
        }
    }
}

/// The channels after a packet of interleaved samples.
pub open spec fn extended(planar: Seq<Seq<Single>>, samples: Seq<Single>) -> Seq<Seq<Single>> {
    Seq::new(planar.len(), |c: int| planar[c] + lane(samples, c, planar.len() as int))
}

/// Channels without samples.
pub open spec fn no_samples(channels: int) -> Seq<Seq<Single>> {
    Seq::new(channels as nat, |c: int| Seq::empty())
}

/// The samples of each channel.
pub open spec fn lanes(planar: Seq<Vec<Single>>) -> Seq<Seq<Single>> {
    planar.map_values(|lane: Vec<Single>| lane@)
}

impl Decoding {
    /// What every decoding satisfies.
    pub open spec fn wf(self) -> bool {
        match self.format {
            None => self.planar@.len() == 0,
            Some((rate, channels)) => channels > 0 && self.planar@.len() == channels,
        }
    }

    /// A decoding that has seen no packet.
    pub fn new() -> (r: Self)
        ensures
            r.wf(),
            r.format is None,
    {
        Decoding { format: None, planar: Vec::new() }
    }

    fn begin(&mut self, rate: u32, channels: usize)
        requires
            channels > 0,
        ensures
            final(self).wf(),
            final(self).format == Some((rate, channels)),
            lanes(final(self).planar@) == no_samples(channels as int),
    {
        let mut planar: Vec<Vec<Single>> = Vec::new();
        for c in 0..channels
            invariant
                planar@.len() == c,
                forall|k: int| 0 <= k < c ==> (#[trigger] planar@[k])@.len() == 0,
        {
            planar.push(Vec::new());
        }
        assert(lanes(planar@) =~= no_samples(channels as int)) by {
            assert forall|c: int| 0 <= c < channels implies lanes(planar@)[c] =~= no_samples(
                channels as int,
            )[c] by {}
        }
        self.format = Some((rate, channels));
        self.planar = planar;
    }

    fn deinterleave(&mut self, samples: &Vec<Single>)
        requires
            old(self).wf(),
            old(self).format is Some,
        ensures
            final(self).wf(),
            final(self).format == old(self).format,
            lanes(final(self).planar@) == extended(lanes(old(self).planar@), samples@),
    {
        let n: usize = self.planar.len();
        let len: usize = samples.len();
        let ghost before = lanes(self.planar@);
        let mut c: usize = 0;
        proof {
            assert(samples@.take(0) =~= Seq::empty());
            vstd::arithmetic::div_mod::lemma_small_mod(0, n as nat);
        }
        for i in 0..len
            invariant
                len == samples@.len(),
                n == self.planar@.len(),
                n == before.len(),
                n > 0,
                self.wf(),
                self.format == old(self).format,
                self.format is Some,
                c == i as int % (n as int),
                forall|k: int|
                    0 <= k < n ==> (#[trigger] self.planar@[k])@ == before[k] + lane(
                        samples@.take(i as int),
                        k,
                        n as int,
                    ),
        {
            let ghost shorter = samples@.take(i as int);
            let ghost longer = samples@.take(i + 1);
            let ghost here = self.planar@;
            proof {
                assert(longer.drop_last() =~= shorter);
                assert(longer.last() == samples@[i as int]);
            }
            self.planar[c].push(samples[i]);
            proof {
                assert forall|k: int| 0 <= k < n implies (#[trigger] self.planar@[k])@ == before[k]
                    + lane(longer, k, n as int) by {
                    assert(here[k]@ == before[k] + lane(shorter, k, n as int));
                    if k == c {
                        assert(self.planar@[k]@ =~= before[k] + lane(longer, k, n as int));
                    }
                }
                lemma_next_lane(i as int, n as int);
            }
            c = if c + 1 == n {
                0
            } else {
                c + 1
            };
        }
        proof {
            assert(samples@.take(len as int) =~= samples@);
            assert(lanes(self.planar@) =~= extended(before, samples@));
        }
    }

    /// Follow what came of a packet. The first decoded packet sets the format; packets of other
    /// tracks and damaged ones are passed over.
    pub fn step(&mut self, packet: Packet) -> (r: Progress)
        requires
            old(self).wf(),
        ensures
            r is More ==> final(self).wf(),
            match packet {
                Packet::End => match old(self).format {
                    None => r matches Progress::Failed(e) && e@
                        == "file decoded to zero audio frames"@,
                    Some((rate, channels)) => if crate::clip::even(old(self).planar@) {
                        r matches Progress::Done(clip) && clip.wf() && clip.sample_rate == rate
                            && clip.data == old(self).planar
                    } else {
                        r matches Progress::Failed(e) && e@
                            == "audio clip channels have mismatched lengths"@
                    },
                },
                Packet::Reset => r matches Progress::Failed(e) && e@
                    == "stream changed mid-file (unsupported)"@,
                Packet::Unreadable(why) => r matches Progress::Failed(e) && e@
                    == "error reading audio packet: "@ + why@,
                Packet::Foreign => r is More && *final(self) == *old(self),
                Packet::Damaged => r is More && *final(self) == *old(self),
                Packet::Undecodable(why) => r matches Progress::Failed(e) && e@
                    == "error decoding audio: "@ + why@,
                Packet::Decoded { rate, channels, samples } => match old(self).format {
                    None => if channels == 0 {
                        r matches Progress::Failed(e) && e@ == "audio reports zero channels"@
                    } else {
                        &&& r is More
                        &&& final(self).format == Some((rate, channels))
                        &&& lanes(final(self).planar@) == extended(
                            no_samples(channels as int),
                            samples@,
                        )
                    },
                    Some(_) => {
                        &&& r is More
                        &&& final(self).format == old(self).format
                        &&& lanes(final(self).planar@) == extended(
                            lanes(old(self).planar@),
                            samples@,
                        )
                    },
                },
            },
    {
        match packet {
            Packet::End => match self.format {
                None => Progress::Failed("file decoded to zero audio frames".to_owned()),
                Some((rate, _)) => {
                    let mut planar: Vec<Vec<Single>> = Vec::new();
                    core::mem::swap(&mut planar, &mut self.planar);
                    match AudioClip::new(rate, planar) {
                        Ok(clip) => Progress::Done(clip),
                        Err(e) => Progress::Failed(e),
                    }
                },
            },
            Packet::Reset => Progress::Failed("stream changed mid-file (unsupported)".to_owned()),
            Packet::Unreadable(why) => Progress::Failed(
                "error reading audio packet: ".to_owned().concat(why.as_str()),
            ),
            Packet::Foreign => Progress::More,
            Packet::Damaged => Progress::More,
            Packet::Undecodable(why) => Progress::Failed(
                "error decoding audio: ".to_owned().concat(why.as_str()),
            ),
            Packet::Decoded { rate, channels, samples } => {
                if self.format.is_none() {
                    if channels == 0 {
                        return Progress::Failed("audio reports zero channels".to_owned());
                    }
                    self.begin(rate, channels);
                }
                self.deinterleave(&samples);
                Progress::More
            },
        }
    }
}

/// The samples of a file as far as it is decoded.
pub ghost struct DecodingView {
    pub format: Option<(u32, usize)>,
    pub planar: Seq<Seq<Single>>,
}

impl View for Decoding {
    type V = DecodingView;

    open spec fn view(&self) -> DecodingView {
        DecodingView { format: self.format, planar: lanes(self.planar@) }
    }
}

impl DecodingView {
    /// Before the first packet.
    pub open spec fn fresh() -> DecodingView {
        DecodingView { format: None, planar: Seq::empty() }
    }

    /// After a packet of interleaved samples. The first one sets the format.
    pub open spec fn joined(
        self,
        rate: u32,
        channels: usize,
        samples: Seq<Single>,
    ) -> DecodingView {
        if self.format is None {
            DecodingView {
                format: Some((rate, channels)),
                planar: extended(no_samples(channels as int), samples),
            }
        } else {
            DecodingView { planar: extended(self.planar, samples), ..self }
        }
    }
}

/// Whether all channels have the length of the first.
pub open spec fn level(planar: Seq<Seq<Single>>) -> bool {
    forall|c: int| 0 <= c < planar.len() ==> (#[trigger] planar[c]).len() == planar[0].len()
}

/// What becomes of a file: a clip with a rate and channels, or a reason why there is none.
pub ghost enum Outcome {
    Clip(u32, Seq<Seq<Single>>),
    Reason(Seq<char>),
}

/// What a file becomes that is decoded so far when reading it ends.
pub open spec fn ended(state: DecodingView, end: ErrorView) -> Outcome {
    match end.fault {
        Fault::End => match state.format {
            None => Outcome::Reason("file decoded to zero audio frames"@),
            Some((rate, channels)) => if level(state.planar) {
                Outcome::Clip(rate, state.planar)
            } else {
                Outcome::Reason("audio clip channels have mismatched lengths"@)
            },
        },
        Fault::Reset => Outcome::Reason("stream changed mid-file (unsupported)"@),
        _ => Outcome::Reason("error reading audio packet: "@ + end.text),
    }
}

/// What a file becomes that is decoded so far, with the packets that are left. Only those of the
/// track `id` count; damaged ones are passed over.
pub open spec fn decoded(
    state: DecodingView,
    packets: Seq<(u32, PacketView)>,
    id: u32,
    end: ErrorView,
) -> Outcome
    decreases packets.len(),
{
    if packets.len() == 0 {
        ended(state, end)
    } else if packets[0].0 != id {
        decoded(state, packets.drop_first(), id, end)
    } else {
        match packets[0].1 {
            PacketView::Decoded { rate, channels, samples } => if state.format is None && channels
                == 0 {
                Outcome::Reason("audio reports zero channels"@)
            } else {
                decoded(state.joined(rate, channels, samples), packets.drop_first(), id, end)
            },
            PacketView::Failed(e) => if e.fault == Fault::Damage {
                decoded(state, packets.drop_first(), id, end)
            } else {
                Outcome::Reason("error decoding audio: "@ + e.text)
            },
        }
    }
}

/// The first track, from index `from` on, that the file says the encoding of.
pub open spec fn first_coded(tracks: Seq<(u32, bool)>, from: int) -> Option<int>
    decreases tracks.len() - from,
{
    if from < 0 || from >= tracks.len() {
        None
    } else if tracks[from].1 {
        Some(from)
    } else {
        first_coded(tracks, from + 1)
    }
}

/// What a file becomes: the first track that can be decoded, or the reason why there is none.
pub open spec fn outcome(media: Result<MediaView, Seq<char>>) -> Outcome {
    match media {
        Err(why) => Outcome::Reason("not a recognized audio file: "@ + why),
        Ok(m) => match first_coded(m.listed(), 0) {
            None => Outcome::Reason("file contains no decodable audio track"@),
            Some(t) => match m.tracks[t].refusal {
                Some(why) => Outcome::Reason("no decoder for this audio: "@ + why),
                None => decoded(DecodingView::fresh(), m.packets, m.tracks[t].id, m.end),
            },
        },
    }
}

/// Whether a result is what a file becomes.
pub open spec fn gives(outcome: Outcome, r: Result<AudioClip, String>) -> bool {
    match outcome {
        Outcome::Clip(rate, planar) => r matches Ok(clip) && clip.wf() && clip.sample_rate == rate
            && lanes(clip.data@) == planar,
        Outcome::Reason(why) => r matches Err(e) && e@ == why,
    }
}

/// Whether a result is what a file becomes that holds the given tracks and packets.
pub open spec fn clip_of(
    media: Result<MediaView, Seq<char>>,
    r: Result<AudioClip, String>,
) -> bool {
    gives(outcome(media), r)
}

/// The first track that the file says the encoding of, by its index.
pub fn choose_track(tracks: &Vec<(u32, bool)>) -> (r: Option<usize>)
    ensures
        match first_coded(tracks@, 0) {
            Some(t) => r matches Some(i) && i == t && t < tracks@.len(),
            None => r is None,
        },
{
    let n: usize = tracks.len();
    for t in 0..n
        invariant
            n == tracks@.len(),
            first_coded(tracks@, 0) == first_coded(tracks@, t as int),
    {
        if tracks[t].1 {
            return Some(t);
        }
    }
    None
}

/// What came of a packet that could not be read.
pub fn unread(e: MediaError) -> (r: Packet)
    ensures
        match e.fault {
            Fault::End => r is End,
            Fault::Reset => r is Reset,
            _ => r == Packet::Unreadable(e.text),
        },
{
    match e.fault {
        Fault::End => Packet::End,
        Fault::Reset => Packet::Reset,
        _ => Packet::Unreadable(e.text),
    }
}

/// What came of a packet that was read and handed to the decoder.
pub fn read(r: Result<Samples, MediaError>) -> (p: Packet)
    ensures
        match r {
            Ok(s) => p == (Packet::Decoded {
                rate: s.rate,
                channels: s.channels,
                samples: s.samples,
            }),
            Err(e) => if e.fault == Fault::Damage {
                p is Damaged
            } else {
                p == Packet::Undecodable(e.text)
            },
        },
{
    match r {
        Ok(s) => Packet::Decoded { rate: s.rate, channels: s.channels, samples: s.samples },
        Err(e) => match e.fault {
            Fault::Damage => Packet::Damaged,
            _ => Packet::Undecodable(e.text),
        },
    }
}

/// Decode a file from its bytes. The extension of its name, if it has one, is a hint. A file with
/// headers that cannot be read is not recognized.
pub fn decode_wav(bytes: Vec<u8>, extension: &str) -> (r: Result<AudioClip, String>)
    ensures
        crate::riff::headers_hold(bytes@) ==> clip_of(
            crate::media::media_of(bytes@, extension@),
            r,
        ),
        !crate::riff::headers_hold(bytes@) ==> (r matches Err(e) && e@
            == "not a recognized audio file: malformed header"@),
{
    if !check_headers(&bytes) {
        return Err("not a recognized audio file: malformed header".to_owned());
    }
    let mut reader = match open_media(bytes, extension) {
        Ok(reader) => reader,
        Err(why) => {
            return Err("not a recognized audio file: ".to_owned().concat(why.as_str()));
        },
    };
    let tracks = media_tracks(&reader);
    let track: usize = match choose_track(&tracks) {
        Some(track) => track,
        None => {
            return Err("file contains no decodable audio track".to_owned());
        },
    };
    let mut decoder = match make_decoder(&reader, track) {
        Ok(decoder) => decoder,
        Err(why) => {
            return Err("no decoder for this audio: ".to_owned().concat(why.as_str()));
        },
    };
    decode_track(&mut reader, &mut decoder, tracks[track].0)
}

fn decode_track(
    reader: &mut MediaReader,
    decoder: &mut MediaDecoder,
    id: u32,
) -> (r: Result<AudioClip, String>)
    requires
        crate::media::reader_of(*old(reader)).index == 0,
        crate::media::reader_of(*old(reader)).media() is Ok,
        ({
            let track = crate::media::decoder_of(*old(decoder));
            let tracks = track.media()->Ok_0.tracks;
            &&& track.at(0) == crate::media::reader_of(*old(reader))
            &&& track.index < tracks.len()
            &&& id == tracks[track.index as int].id
        }),
    ensures
        ({
            let media = crate::media::reader_of(*old(reader)).media()->Ok_0;
            gives(decoded(DecodingView::fresh(), media.packets, id, media.end), r)
        }),
{
    let ghost start = crate::media::reader_of(*reader);
    let ghost media = start.media()->Ok_0;
    let mut decoding = Decoding::new();
    proof {
        assert(decoding.planar@ =~= Seq::empty());
        assert(decoding@.planar =~= Seq::empty());
        assert(media.packets.skip(0) =~= media.packets);
    }
    loop
        invariant
            start == crate::media::reader_of(*old(reader)),
            start.media() == Ok::<MediaView, Seq<char>>(media),
            crate::media::reader_of(*reader) == start.at(crate::media::reader_of(*reader).index),
            crate::media::reader_of(*reader).index <= media.packets.len(),
            crate::media::decoder_of(*decoder) == start.at(
                crate::media::decoder_of(*decoder).index,
            ),
            crate::media::decoder_of(*decoder).index < media.tracks.len(),
            id == media.tracks[crate::media::decoder_of(*decoder).index as int].id,
            decoding.wf(),
            decoded(
                decoding@,
                media.packets.skip(crate::media::reader_of(*reader).index as int),
                id,
                media.end,
            ) == decoded(DecodingView::fresh(), media.packets, id, media.end),
        decreases media.packets.len() - crate::media::reader_of(*reader).index,
    {
        let ghost n = crate::media::reader_of(*reader).index as int;
        let ghost left = media.packets.skip(n);
        let ghost before = decoding@;
        proof {
            if n < media.packets.len() {
                assert(left.drop_first() =~= media.packets.skip(n + 1));
            }
            lemma_level(decoding.planar@);
        }
        let packet = match next_packet(reader) {
            Err(e) => unread(describe(e)),
            Ok(packet) => {
                if packet_track(&packet) == id {
                    match decode_packet(decoder, &packet) {
                        Ok(samples) => read(Ok(samples)),
                        Err(e) => read(Err(describe(e))),
                    }
                } else {
                    Packet::Foreign
                }
            },
        };
        match decoding.step(packet) {
            Progress::More => {},
            Progress::Done(clip) => {
                return Ok(clip);
            },
            Progress::Failed(e) => {
                return Err(e);
            },
        }
    }
}

/// Whether a packet counts: it belongs to the track, and is not damaged.
pub open spec fn counts(packet: (u32, PacketView), id: u32) -> bool {
    packet.0 == id && !(packet.1 matches PacketView::Failed(e) && e.fault == Fault::Damage)
}

/// Packets of other tracks and damaged packets do not matter: a file becomes what it would become
/// without them.
pub proof fn stray_packets_do_not_matter(
    state: DecodingView,
    packets: Seq<(u32, PacketView)>,
    id: u32,
    end: ErrorView,
)
    ensures
        decoded(state, packets, id, end) == decoded(
            state,
            packets.filter(|p: (u32, PacketView)| counts(p, id)),
            id,
            end,
        ),
    decreases packets.len(),
{
    let keep = |p: (u32, PacketView)| counts(p, id);
    reveal_with_fuel(Seq::filter, 2);
    if packets.len() > 0 {
        let head = seq![packets[0]];
        let rest = packets.drop_first();
        assert(packets =~= head + rest);
        Seq::filter_distributes_over_add(head, rest, keep);
        assert(head.drop_last() =~= Seq::empty());
        let kept = packets.filter(keep);
        if keep(packets[0]) {
            assert(head.filter(keep) =~= head);
            assert(kept =~= head + rest.filter(keep));
            assert(kept.drop_first() =~= rest.filter(keep));
            match packets[0].1 {
                PacketView::Decoded { rate, channels, samples } => {
                    stray_packets_do_not_matter(
                        state.joined(rate, channels, samples),
                        rest,
                        id,
                        end,
                    );
                },
                PacketView::Failed(_) => {},
            }
        } else {
            assert(head.filter(keep) =~= Seq::empty());
            assert(kept =~= rest.filter(keep));
            stray_packets_do_not_matter(state, rest, id, end);
        }
    }
}

proof fn lemma_level(planar: Seq<Vec<Single>>)
    ensures
        level(lanes(planar)) <==> crate::clip::even(planar),
{
    assert forall|c: int| 0 <= c < planar.len() implies #[trigger] lanes(planar)[c]
        == planar[c]@ by {}
    if level(lanes(planar)) {
        assert forall|c: int| 0 <= c < planar.len() implies (#[trigger] planar[c])@.len()
            == planar[0]@.len() by {
            assert(lanes(planar)[c].len() == lanes(planar)[0].len());
        }
    }
}

proof fn lemma_next_lane(i: int, n: int)
    requires
        0 <= i,
        n > 0,
    ensures
        (i + 1) % n == (if i % n + 1 == n {
            0
        } else {
            i % n + 1
        }),
{
    let q = i / n;
    let r = i % n;
    vstd::arithmetic::div_mod::lemma_fundamental_div_mod(i, n);
    vstd::arithmetic::div_mod::lemma_mod_division_less_than_divisor(i, n);
    if r + 1 == n {
        assert(i + 1 == (q + 1) * n) by (nonlinear_arith)
            requires
                i == n * q + r,
                r + 1 == n,
        ;
        vstd::arithmetic::div_mod::lemma_mod_multiples_basic(q + 1, n);
    } else {
        assert(i + 1 == q * n + (r + 1)) by (nonlinear_arith)
            requires
                i == n * q + r,
        ;
        vstd::arithmetic::div_mod::lemma_fundamental_div_mod_converse(i + 1, n, q, r + 1);
    }
}

/// Splitting interleaved frames into channels keeps every sample in its place: channel `c` hears of
/// frame `f` exactly the sample that was interleaved for it.
pub proof fn lanes_invert_interleaving(samples: Seq<Single>, frames: int, c: int, n: int, f: int)
    requires
        0 <= c < n,
        0 <= f < frames,
        samples.len() == frames * n,
    ensures
        lane(samples, c, n).len() == frames,
        lane(samples, c, n)[f] == samples[f * n + c],
{
    assert(frames * n == (frames - 1) * n + n) by (nonlinear_arith);
    lemma_lane(samples, c, n, frames);
    assert(0 <= f * n && f * n + c < frames * n) by (nonlinear_arith)
        requires
            0 <= f < frames,
            0 <= c < n,
    ;
}

/// As long as packets consist of whole frames, all channels stay equally long, so that the end of
/// the stream gives a clip.
pub proof fn whole_packets_keep_channels_even(
    planar: Seq<Seq<Single>>,
    samples: Seq<Single>,
    frames: int,
    packet: int,
    c: int,
)
    requires
        0 <= c < planar.len(),
        planar[c].len() == frames,
        0 <= packet,
        samples.len() == packet * planar.len(),
    ensures
        extended(planar, samples)[c].len() == frames + packet,
{
    lemma_lane(samples, c, planar.len() as int, packet);
}

proof fn lemma_lane(samples: Seq<Single>, c: int, n: int, frames: int)
    requires
        0 <= c < n,
        0 <= frames,
        samples.len() == frames * n,
    ensures
        lane(samples, c, n).len() == frames,
        forall|f: int| 0 <= f < frames ==> #[trigger] lane(samples, c, n)[f] == samples[f * n + c],
    decreases frames,
{
    if frames == 0 {
        assert(0 * n == 0);
    } else {
        let m = frames - 1;
        assert(frames * n == m * n + n) by (nonlinear_arith)
            requires
                m == frames - 1,
        ;
        assert(0 <= m * n) by (nonlinear_arith)
            requires
                0 <= m,
                0 <= n,
        ;
        let start = samples.take(m * n);
        lemma_lane(start, c, n, m);
        lemma_frame(samples, c, n, m, n);
        assert(samples.take(m * n + n) =~= samples);
        assert forall|f: int| 0 <= f < frames implies #[trigger] lane(samples, c, n)[f]
            == samples[f * n + c] by {
            if f < m {
                assert(0 <= f * n && f * n + c < m * n) by (nonlinear_arith)
                    requires
                        0 <= f < m,
                        0 <= c < n,
                ;
                assert(lane(start, c, n)[f] == start[f * n + c]);
            }
        }
    }
}

proof fn lemma_frame(samples: Seq<Single>, c: int, n: int, m: int, k: int)
    requires
        0 <= c < n,
        0 <= m,
        0 <= k <= n,
        0 <= m * n,
        m * n + k <= samples.len(),
    ensures
        lane(samples.take(m * n + k), c, n) == (if k <= c {
            lane(samples.take(m * n), c, n)
        } else {
            lane(samples.take(m * n), c, n).push(samples[m * n + c])
        }),
    decreases k,
{
    if k > 0 {
        lemma_frame(samples, c, n, m, k - 1);
        let longer = samples.take(m * n + k);
        assert(longer.drop_last() =~= samples.take(m * n + (k - 1)));
        assert(longer.last() == samples[m * n + (k - 1)]);
        vstd::arithmetic::div_mod::lemma_fundamental_div_mod_converse(
            m * n + (k - 1),
            n,
            m,
            k - 1,
        );
    }
}

/// The track that is decoded is the first that the file says the encoding of: none before it has
/// one, and where none is found, there is none.
pub proof fn the_first_coded_track_is_decoded(tracks: Seq<(u32, bool)>, i: int)
    requires
        0 <= i < tracks.len(),
    ensures
        first_coded(tracks, 0) matches Some(t) ==> {
            &&& 0 <= t < tracks.len()
            &&& tracks[t].1
            &&& i < t ==> !tracks[i].1
        },
        first_coded(tracks, 0) is None ==> !tracks[i].1,
{
    lemma_first_coded(tracks, 0, i);
}

proof fn lemma_first_coded(tracks: Seq<(u32, bool)>, from: int, i: int)
    requires
        0 <= from,
    ensures
        first_coded(tracks, from) matches Some(t) ==> {
            &&& from <= t < tracks.len()
            &&& tracks[t].1
            &&& from <= i < t ==> !tracks[i].1
        },
        first_coded(tracks, from) is None && from <= i < tracks.len() ==> !tracks[i].1,
    decreases tracks.len() - from,
{
    if from < tracks.len() && !tracks[from].1 {
        lemma_first_coded(tracks, from + 1, i);
    }
}

/// The samples of some packets, one packet after the other.
pub open spec fn samples_of(packets: Seq<(u32, PacketView)>) -> Seq<Single>
    decreases packets.len(),
{
    if packets.len() == 0 {
        Seq::empty()
    } else {
        (match packets[0].1 {
            PacketView::Decoded { samples, .. } => samples,
            PacketView::Failed(_) => Seq::empty(),
        }) + samples_of(packets.drop_first())
    }
}

/// Whether a packet holds whole frames of `n` channels of a track.
pub open spec fn whole_packet(packet: (u32, PacketView), id: u32, n: int) -> bool {
    &&& packet.0 == id
    &&& packet.1 matches PacketView::Decoded { channels, samples, .. } && channels == n
        && samples.len() as int % n == 0
}

proof fn lemma_lanes_join(a: Seq<Single>, b: Seq<Single>, c: int, n: int)
    requires
        n > 0,
        a.len() as int % n == 0,
    ensures
        lane(a + b, c, n) == lane(a, c, n) + lane(b, c, n),
    decreases b.len(),
{
    if b.len() == 0 {
        assert(a + b =~= a);
        assert(lane(a, c, n) + lane(b, c, n) =~= lane(a, c, n));
    } else {
        let all = a + b;
        assert(all.drop_last() =~= a + b.drop_last());
        lemma_lanes_join(a, b.drop_last(), c, n);
        let q = a.len() as int / n;
        vstd::arithmetic::div_mod::lemma_fundamental_div_mod(a.len() as int, n);
        vstd::arithmetic::div_mod::lemma_mod_multiples_vanish(q, b.len() - 1, n);
        assert(lane(all, c, n) =~= lane(a, c, n) + lane(b, c, n));
    }
}

proof fn lemma_packets_join(
    state: DecodingView,
    packets: Seq<(u32, PacketView)>,
    id: u32,
    end: ErrorView,
    rate: u32,
    channels: usize,
    so_far: Seq<Single>,
)
    requires
        channels > 0,
        end.fault == Fault::End,
        so_far.len() as int % (channels as int) == 0,
        state.format == Some((rate, channels)),
        state.planar == Seq::new(channels as nat, |c: int| lane(so_far, c, channels as int)),
        forall|i: int|
            0 <= i < packets.len() ==> whole_packet(#[trigger] packets[i], id, channels as int),
    ensures
        ({
            let all = so_far + samples_of(packets);
            &&& decoded(state, packets, id, end) == Outcome::Clip(
                rate,
                Seq::new(channels as nat, |c: int| lane(all, c, channels as int)),
            )
            &&& all.len() as int % (channels as int) == 0
        }),
    decreases packets.len(),
{
    let n = channels as int;
    let planar = state.planar;
    if packets.len() == 0 {
        let frames = so_far.len() as int / n;
        vstd::arithmetic::div_mod::lemma_fundamental_div_mod(so_far.len() as int, n);
        assert(n * frames == frames * n) by (nonlinear_arith);
        vstd::arithmetic::div_mod::lemma_div_pos_is_pos(so_far.len() as int, n);
        assert forall|c: int| 0 <= c < n implies (#[trigger] planar[c]).len() == frames by {
            lemma_lane(so_far, c, n, frames);
        }
        assert(level(planar));
        assert(so_far + samples_of(packets) =~= so_far);
    } else {
        let rest = packets.drop_first();
        assert(whole_packet(packets[0], id, n));
        match packets[0].1 {
            PacketView::Decoded { rate: r, channels: ch, samples } => {
                let longer = so_far + samples;
                let next = state.joined(r, ch, samples);
                assert forall|c: int| 0 <= c < n implies next.planar[c] == lane(longer, c, n) by {
                    lemma_lanes_join(so_far, samples, c, n);
                }
                assert(next.planar =~= Seq::new(channels as nat, |c: int| lane(longer, c, n)));
                lemma_whole(so_far.len() as int, samples.len() as int, n);
                assert forall|i: int| 0 <= i < rest.len() implies whole_packet(
                    #[trigger] rest[i],
                    id,
                    n,
                ) by {
                    assert(rest[i] == packets[i + 1]);
                }
                lemma_packets_join(next, rest, id, end, rate, channels, longer);
                assert(longer + samples_of(rest) =~= so_far + samples_of(packets));
            },
            PacketView::Failed(_) => {},
        }
    }
}

proof fn lemma_whole(a: int, b: int, n: int)
    requires
        n > 0,
        a % n == 0,
        b % n == 0,
    ensures
        (a + b) % n == 0,
{
    let q = a / n;
    vstd::arithmetic::div_mod::lemma_fundamental_div_mod(a, n);
    vstd::arithmetic::div_mod::lemma_mod_multiples_vanish(q, b, n);
}

/// A file that can be decoded becomes what it holds: a clip at the rate of its first packet, with as
/// many channels as that, in which frame `f` of channel `c` is sample number `f * channels + c` of
/// all packets, one after the other. No sample is lost and none is made up.
pub proof fn files_become_what_they_hold(
    packets: Seq<(u32, PacketView)>,
    id: u32,
    end: ErrorView,
    channels: usize,
    c: int,
    f: int,
)
    requires
        channels > 0,
        packets.len() > 0,
        end.fault == Fault::End,
        forall|i: int|
            0 <= i < packets.len() ==> whole_packet(#[trigger] packets[i], id, channels as int),
        0 <= c < channels,
        0 <= f,
        f * channels + c < samples_of(packets).len(),
    ensures
        decoded(DecodingView::fresh(), packets, id, end) matches Outcome::Clip(rate, planar) && {
            &&& packets[0].1 matches PacketView::Decoded { rate: r, .. } && r == rate
            &&& planar.len() == channels
            &&& planar[c].len() * channels == samples_of(packets).len()
            &&& f < planar[c].len()
            &&& planar[c][f] == samples_of(packets)[f * channels + c]
        },
{
    let n = channels as int;
    let fresh = DecodingView::fresh();
    let rest = packets.drop_first();
    let all = samples_of(packets);
    assert(whole_packet(packets[0], id, n));
    match packets[0].1 {
        PacketView::Decoded { rate, channels: ch, samples } => {
            let next = fresh.joined(rate, ch, samples);
            assert forall|k: int| 0 <= k < n implies next.planar[k] == lane(samples, k, n) by {
                assert(no_samples(n)[k] + lane(samples, k, n) =~= lane(samples, k, n));
            }
            assert(next.planar =~= Seq::new(channels as nat, |k: int| lane(samples, k, n)));
            assert forall|i: int| 0 <= i < rest.len() implies whole_packet(
                #[trigger] rest[i],
                id,
                n,
            ) by {
                assert(rest[i] == packets[i + 1]);
            }
            lemma_packets_join(next, rest, id, end, rate, channels, samples);
            let frames = all.len() as int / n;
            vstd::arithmetic::div_mod::lemma_fundamental_div_mod(all.len() as int, n);
            assert(n * frames == frames * n) by (nonlinear_arith);
            vstd::arithmetic::div_mod::lemma_div_pos_is_pos(all.len() as int, n);
            assert(f < frames) by (nonlinear_arith)
                requires
                    f * n + c < frames * n,
                    c >= 0,
                    n > 0,
            ;
            lanes_invert_interleaving(all, frames, c, n, f);
        },
        PacketView::Failed(_) => {},
    }
}

/// A file is read from the track that was chosen, and what becomes of it is handed back: the clip
/// where there is one, and otherwise the reason why there is none.
pub proof fn results_are_what_becomes_of_files(
    media: Result<MediaView, Seq<char>>,
    r: Result<AudioClip, String>,
)
    requires
        clip_of(media, r),
    ensures
        media matches Err(why) ==> (r matches Err(e) && e@ == "not a recognized audio file: "@
            + why),
        media matches Ok(m) ==> {
            let chosen = first_coded(m.listed(), 0);
            &&& chosen is None ==> (r matches Err(e) && e@
                == "file contains no decodable audio track"@)
            &&& chosen matches Some(t) ==> {
                &&& m.tracks[t].refusal matches Some(why) ==> (r matches Err(e) && e@
                    == "no decoder for this audio: "@ + why)
                &&& m.tracks[t].refusal is None ==> match decoded(
                    DecodingView::fresh(),
                    m.packets,
                    m.tracks[t].id,
                    m.end,
                ) {
                    Outcome::Clip(rate, planar) => r matches Ok(clip) && {
                        &&& clip.sample_rate == rate
                        &&& clip.channels == planar.len()
                        &&& clip.data@.len() == planar.len()
                        &&& forall|c: int|
                            0 <= c < planar.len() ==> (#[trigger] clip.data@[c])@ == planar[c]
                    },
                    Outcome::Reason(why) => r matches Err(e) && e@ == why,
                }
            }
        },
{
    if let Ok(clip) = r {
        assert forall|c: int| 0 <= c < clip.data@.len() implies lanes(clip.data@)[c]
            == #[trigger] clip.data@[c]@ by {}
    }
}

/// What a reading that ends early leaves: nothing but the reason. A stream that starts over and a
/// packet that cannot be read end it, and so does a packet of the track that cannot be decoded,
/// unless it is merely damaged.
pub proof fn failures_end_the_decoding(
    state: DecodingView,
    packets: Seq<(u32, PacketView)>,
    id: u32,
    end: ErrorView,
)
    ensures
        end.fault == Fault::Reset ==> decoded(state, Seq::empty(), id, end) == Outcome::Reason(
            "stream changed mid-file (unsupported)"@,
        ),
        end.fault == Fault::Damage || end.fault == Fault::Other ==> decoded(
            state,
            Seq::empty(),
            id,
            end,
        ) == Outcome::Reason("error reading audio packet: "@ + end.text),
        end.fault == Fault::End && state.format is None ==> decoded(state, Seq::empty(), id, end)
            == Outcome::Reason("file decoded to zero audio frames"@),
        packets.len() > 0 && packets[0].0 == id ==> {
            &&& packets[0].1 matches PacketView::Failed(e) ==> e.fault != Fault::Damage ==> decoded(
                state,
                packets,
                id,
                end,
            ) == Outcome::Reason("error decoding audio: "@ + e.text)
            &&& packets[0].1 matches PacketView::Decoded { channels, .. } ==> channels == 0
                && state.format is None ==> decoded(state, packets, id, end) == Outcome::Reason(
                "audio reports zero channels"@,
            )
        },
{
}

/// A file whose channels come out equally long becomes a clip of them; otherwise it is refused.
pub proof fn uneven_channels_are_refused(state: DecodingView, id: u32, end: ErrorView)
    requires
        end.fault == Fault::End,
        state.format is Some,
    ensures
        ({
            let (rate, _) = state.format->0;
            let same = forall|c: int, d: int|
                0 <= c < state.planar.len() && 0 <= d < state.planar.len() ==> (
                #[trigger] state.planar[c]).len() == (#[trigger] state.planar[d]).len();
            decoded(state, Seq::empty(), id, end) == if same {
                Outcome::Clip(rate, state.planar)
            } else {
                Outcome::Reason("audio clip channels have mismatched lengths"@)
            }
        }),
{
}

} // verus!
