use daw_engine::clip::AudioClip;
use daw_engine::decode::{
    choose_track, decode_wav, read, unread, Decoding, Packet, Progress,
};
use daw_engine::media::{Fault, MediaError, Samples};
use daw_engine::riff::check_headers;
use daw_engine::single::Single;

fn s(x: f32) -> Single {
    Single { bits: x.to_bits() }
}

fn decoded(rate: u32, channels: usize, samples: &[f32]) -> Packet {
    Packet::Decoded { rate, channels, samples: samples.iter().map(|&x| s(x)).collect() }
}

fn finish(mut decoding: Decoding) -> Result<AudioClip, String> {
    match decoding.step(Packet::End) {
        Progress::Done(clip) => Ok(clip),
        Progress::Failed(e) => Err(e),
        Progress::More => panic!("a stream that has ended wants more"),
    }
}

fn failure(packet: Packet) -> String {
    match Decoding::new().step(packet) {
        Progress::Failed(e) => e,
        _ => panic!("expected a failure"),
    }
}

#[test]
fn packets_are_deinterleaved_in_order() {
    let mut decoding = Decoding::new();
    assert!(matches!(decoding.step(Packet::Foreign), Progress::More));
    assert!(matches!(decoding.step(decoded(48_000, 2, &[0.1, -0.1, 0.2, -0.2])), Progress::More));
    assert!(matches!(decoding.step(Packet::Damaged), Progress::More));
    assert!(matches!(decoding.step(decoded(48_000, 2, &[0.3, -0.3])), Progress::More));
    let clip = finish(decoding).unwrap();
    assert_eq!((clip.sample_rate, clip.channels, clip.frames), (48_000, 2, 3));
    assert_eq!(clip.data[0], vec![s(0.1), s(0.2), s(0.3)]);
    assert_eq!(clip.data[1], vec![s(-0.1), s(-0.2), s(-0.3)]);
}

#[test]
fn the_first_packet_sets_the_format() {
    let mut decoding = Decoding::new();
    let _ = decoding.step(decoded(44_100, 1, &[0.5]));
    let _ = decoding.step(decoded(96_000, 2, &[0.25, 0.125]));
    let clip = finish(decoding).unwrap();
    assert_eq!((clip.sample_rate, clip.channels, clip.frames), (44_100, 1, 3));
}

#[test]
fn a_broken_frame_leaves_no_clip() {
    let mut decoding = Decoding::new();
    let _ = decoding.step(decoded(44_100, 2, &[0.1, 0.2, 0.3]));
    assert_eq!(finish(decoding).unwrap_err(), "audio clip channels have mismatched lengths");
}

#[test]
fn each_failure_says_what_went_wrong() {
    assert_eq!(failure(Packet::End), "file decoded to zero audio frames");
    assert_eq!(failure(Packet::Reset), "stream changed mid-file (unsupported)");
    assert_eq!(failure(Packet::Unreadable("disk".to_string())), "error reading audio packet: disk");
    assert_eq!(failure(Packet::Undecodable("codec".to_string())), "error decoding audio: codec");
    assert_eq!(failure(decoded(44_100, 0, &[])), "audio reports zero channels");
}

fn pcm16_wav(sample_rate: u32, channels: u16, frames: &[Vec<i16>]) -> Vec<u8> {
    let block_align: u16 = channels * 2;
    let data_len: u32 = frames.len() as u32 * block_align as u32;
    let mut wav = Vec::new();
    wav.extend_from_slice(b"RIFF");
    wav.extend_from_slice(&(36 + data_len).to_le_bytes());
    wav.extend_from_slice(b"WAVEfmt ");
    wav.extend_from_slice(&16u32.to_le_bytes());
    wav.extend_from_slice(&1u16.to_le_bytes());
    wav.extend_from_slice(&channels.to_le_bytes());
    wav.extend_from_slice(&sample_rate.to_le_bytes());
    wav.extend_from_slice(&(sample_rate * block_align as u32).to_le_bytes());
    wav.extend_from_slice(&block_align.to_le_bytes());
    wav.extend_from_slice(&16u16.to_le_bytes());
    wav.extend_from_slice(b"data");
    wav.extend_from_slice(&data_len.to_le_bytes());
    for frame in frames {
        for s in frame {
            wav.extend_from_slice(&s.to_le_bytes());
        }
    }
    wav
}

fn decode_bytes(bytes: Vec<u8>) -> Result<AudioClip, String> {
    decode_wav(bytes, "wav")
}

fn f(x: Single) -> f32 {
    f32::from_bits(x.bits)
}

#[test]
fn decodes_mono_pcm16() {
    let frames: Vec<Vec<i16>> = vec![vec![0], vec![i16::MAX], vec![0], vec![i16::MIN]];
    let clip = decode_bytes(pcm16_wav(44_100, 1, &frames)).expect("decode should succeed");
    assert_eq!(clip.channels, 1);
    assert_eq!(clip.frames, 4);
    assert_eq!(clip.sample_rate, 44_100);
    assert!(f(clip.data[0][0]).abs() < 1e-6, "zero stays zero");
    assert!((f(clip.data[0][1]) - 1.0).abs() < 1e-3, "full positive ~ +1.0");
    assert!((f(clip.data[0][3]) + 1.0).abs() < 1e-3, "full negative ~ -1.0");
}

#[test]
fn decodes_stereo_pcm16_deinterleaves_correctly() {
    let frames: Vec<Vec<i16>> = vec![vec![10_000, -10_000], vec![20_000, -20_000], vec![30_000, -30_000]];
    let clip = decode_bytes(pcm16_wav(48_000, 2, &frames)).expect("decode should succeed");
    assert_eq!(clip.channels, 2);
    assert_eq!(clip.frames, 3);
    assert!(clip.data[0].iter().all(|&x| f(x) > 0.0), "left should be positive");
    assert!(clip.data[1].iter().all(|&x| f(x) < 0.0), "right should be negative");
    let left: Vec<f32> = clip.data[0].iter().map(|&x| f(x)).collect();
    assert!(left[0] < left[1] && left[1] < left[2]);
}

#[test]
fn non_wav_bytes_are_rejected() {
    assert!(decode_bytes(b"this is definitely not a wav file".to_vec()).is_err());
}

#[test]
fn a_file_of_another_kind_says_so() {
    let e = decode_bytes(b"this is definitely not a wav file".to_vec()).unwrap_err();
    assert_eq!(e, "not a recognized audio file: unsupported feature: core (probe): no suitable format reader found");
}

#[test]
fn the_extension_does_not_decide() {
    let wav = pcm16_wav(44_100, 1, &[vec![16_384]]);
    let clip = decode_wav(wav, "").unwrap();
    assert_eq!(clip.data, vec![vec![s(0.5)]]);
}

#[test]
fn samples_are_scaled_to_single_precision() {
    let wav = pcm16_wav(44_100, 2, &[vec![16_384, -16_384], vec![8_192, i16::MIN]]);
    let clip = decode_bytes(wav).unwrap();
    assert_eq!(clip.data, vec![vec![s(0.5), s(0.25)], vec![s(-0.5), s(-1.0)]]);
}

#[test]
fn long_files_are_joined_from_their_packets() {
    let frames: Vec<Vec<i16>> = (0..5_000).map(|i| vec![i as i16, -(i as i16)]).collect();
    let clip = decode_bytes(pcm16_wav(48_000, 2, &frames)).unwrap();
    assert_eq!((clip.channels, clip.frames), (2, 5_000));
    assert!((0..5_000).all(|i| f(clip.data[0][i]) == i as f32 / 32_768.0));
    assert!((0..5_000).all(|i| f(clip.data[1][i]) == -(i as f32) / 32_768.0));
}

#[test]
fn a_file_without_frames_gives_no_clip() {
    assert_eq!(decode_bytes(pcm16_wav(44_100, 1, &[])).unwrap_err(), "file decoded to zero audio frames");
}

#[test]
fn an_encoding_without_a_decoder_is_refused() {
    let mut wav = pcm16_wav(44_100, 1, &[vec![0]]);
    wav.splice(16..36, [20u8, 0, 0, 0, 0x11, 0, 1, 0, 0x44, 0xac, 0, 0, 0, 0, 0, 0, 8, 0, 4, 0, 2, 0, 2, 0]);
    wav[4..8].copy_from_slice(&42u32.to_le_bytes());
    let e = decode_bytes(wav).unwrap_err();
    assert!(e.starts_with("no decoder for this audio: "), "{e}");
}

const MALFORMED: &str = "not a recognized audio file: malformed header";

fn chunk(tag: &[u8; 4], body: &[u8]) -> Vec<u8> {
    let mut c = tag.to_vec();
    c.extend_from_slice(&(body.len() as u32).to_le_bytes());
    c.extend_from_slice(body);
    if body.len() % 2 == 1 {
        c.push(0);
    }
    c
}

fn riff(chunks: &[Vec<u8>]) -> Vec<u8> {
    let body = chunks.concat();
    let mut file = b"RIFF".to_vec();
    file.extend_from_slice(&(body.len() as u32).to_le_bytes());
    file.extend_from_slice(b"WAVE");
    file.extend_from_slice(&body);
    file
}

fn format_body(code: u16, channels: u16, rate: u32, block: u16, bits: u16) -> Vec<u8> {
    let mut body = Vec::new();
    body.extend_from_slice(&code.to_le_bytes());
    body.extend_from_slice(&channels.to_le_bytes());
    body.extend_from_slice(&rate.to_le_bytes());
    body.extend_from_slice(&(rate.wrapping_mul(block as u32)).to_le_bytes());
    body.extend_from_slice(&block.to_le_bytes());
    body.extend_from_slice(&bits.to_le_bytes());
    body
}

fn extended_body(channels: u16, block: u16, bits: u16, mask: u32, kind: u8) -> Vec<u8> {
    let mut body = format_body(0xfffe, channels, 44_100, block, bits);
    body.extend_from_slice(&22u16.to_le_bytes());
    body.extend_from_slice(&bits.to_le_bytes());
    body.extend_from_slice(&mask.to_le_bytes());
    body.push(kind);
    body.extend_from_slice(&[0, 0, 0, 0, 0, 0x10, 0, 0x80, 0, 0, 0xaa, 0, 0x38, 0x9b, 0x71]);
    body
}

fn pcm16() -> Vec<u8> {
    chunk(b"fmt ", &format_body(1, 1, 44_100, 2, 16))
}

fn refused(format: Vec<u8>) -> bool {
    let file = riff(&[chunk(b"fmt ", &format), chunk(b"data", &[0, 64])]);
    !check_headers(&file) && decode_bytes(file).unwrap_err() == MALFORMED
}

#[test]
fn a_format_without_a_rate_is_refused() {
    let wav = pcm16_wav(0, 1, &[vec![0]]);
    assert!(!check_headers(&wav));
    assert_eq!(decode_bytes(wav).unwrap_err(), MALFORMED);
    assert!(check_headers(&pcm16_wav(1, 1, &[vec![0]])));
    assert!(refused(format_body(3, 1, 0, 4, 32)));
}

#[test]
fn formats_beyond_counting_are_refused() {
    let adpcm = |code: u16, block: u16| {
        let mut body = format_body(code, 1, 44_100, block, 4);
        let extra: u16 = if code == 2 { 32 } else { 2 };
        body.extend_from_slice(&extra.to_le_bytes());
        body.extend_from_slice(&vec![0; extra as usize]);
        body
    };
    assert!(refused(adpcm(2, 6)));
    assert!(refused(adpcm(2, 8_199)));
    assert!(!refused(adpcm(2, 7)) && !refused(adpcm(2, 8_198)));
    assert!(refused(adpcm(0x11, 3)));
    assert!(refused(adpcm(0x11, 8_196)));
    assert!(!refused(adpcm(0x11, 4)) && !refused(adpcm(0x11, 8_195)));
}

#[test]
fn extended_formats_are_read_where_they_can_be() {
    let file = |body: Vec<u8>| riff(&[chunk(b"fmt ", &body), chunk(b"data", &[0, 64, 0, 192])]);
    let clip = decode_bytes(file(extended_body(2, 4, 16, 3, 1))).unwrap();
    assert_eq!(clip.data, vec![vec![s(0.5)], vec![s(-0.5)]]);
    let clip = decode_bytes(file(extended_body(2, 4, 16, 0x8000_0003, 1))).unwrap();
    assert_eq!(clip.channels, 2, "a channel too many is taken out of the mask");
    assert!(refused(extended_body(2, 4, 0, 3, 1)), "integers without a width");
    assert!(refused(extended_body(2, 4, 16, 0x8000_0000, 1)), "no room in the mask");
    assert!(refused(extended_body(40, 80, 16, 3, 1)), "more channels than there can be");
    assert!(!refused(extended_body(2, 2, 0, 3, 6)), "samples of a width that goes without saying");
}

#[test]
fn a_count_that_runs_out_is_refused() {
    let mut file = riff(&[pcm16(), chunk(b"data", &[0, 64])]);
    file[4..8].copy_from_slice(&u32::MAX.to_le_bytes());
    assert_eq!(decode_bytes(file.clone()).unwrap().data, vec![vec![s(0.5)]]);
    let n = file.len();
    file[n - 6..n - 2].copy_from_slice(&u32::MAX.to_le_bytes());
    assert_eq!(decode_bytes(file.clone()).unwrap().data, vec![vec![s(0.5)]], "written to a pipe");
    file[16..20].copy_from_slice(&u32::MAX.to_le_bytes());
    assert_eq!(decode_bytes(file).unwrap_err(), MALFORMED);
}

#[test]
fn only_headers_count() {
    let mut hollow = b"fmt \x10\0\0\0\x01\0\x01\0\0\0\0\0\0\0\0\0\x02\0\x10\0".to_vec();
    assert_eq!(hollow.len(), 24);
    let file = riff(&[pcm16(), chunk(b"data", &hollow)]);
    assert_eq!(file.len(), 68);
    assert_eq!(decode_bytes(file).unwrap().frames, 12, "samples are not looked at");
    let file = riff(&[chunk(b"junk", &hollow), pcm16(), chunk(b"data", &[0, 64])]);
    assert_eq!(decode_bytes(file).unwrap().frames, 1, "nor are chunks that are passed over");
    let mut texts = b"INFO".to_vec();
    texts.extend_from_slice(&chunk(b"INAM", &hollow));
    texts.extend_from_slice(&chunk(b"ICMT", b"odd"));
    let file = riff(&[pcm16(), chunk(b"LIST", &texts), chunk(b"data", &[0, 64])]);
    assert_eq!(decode_bytes(file).unwrap().frames, 1, "nor are texts");
    let mut other = b"adtl".to_vec();
    other.append(&mut hollow);
    let file = riff(&[pcm16(), chunk(b"LIST", &other), chunk(b"data", &[0, 64])]);
    assert_eq!(decode_bytes(file).unwrap().frames, 1, "nor are other lists");
}

#[test]
fn formats_after_other_chunks_are_found() {
    let bad = chunk(b"fmt ", &format_body(1, 1, 0, 2, 16));
    let data = chunk(b"data", &[0, 64]);
    let mut texts = b"INFO".to_vec();
    texts.extend_from_slice(&chunk(b"INAM", b"name"));
    let a_law = {
        let mut body = format_body(6, 1, 8_000, 1, 8);
        body.extend_from_slice(&[0, 0]);
        chunk(b"fmt ", &body)
    };
    for before in [
        chunk(b"junk", b"odd"),
        chunk(b"fact", &[0; 4]),
        chunk(b"LIST", &texts),
        chunk(b"LIST", b"adtlmore"),
        pcm16(),
        a_law,
        chunk(b"fmt ", &extended_body(2, 4, 16, 3, 1)),
    ] {
        assert!(!check_headers(&riff(&[before.clone(), bad.clone(), data.clone()])));
        assert!(check_headers(&riff(&[before, pcm16(), data.clone()])));
    }
    let mut late = b"ID3".to_vec();
    late.extend_from_slice(&riff(&[bad, data]));
    assert!(!check_headers(&late), "a file need not begin at its first byte");
}

#[test]
fn tags_of_other_kinds_are_passed_over() {
    let tag = [0x49, 0x44, 0x33, 4, 0, 0x40, 0, 0, 0, 0x10, 0, 0, 0, 6, 1, 0x10, 1, 0x40];
    assert!(check_headers(&tag.to_vec()));
    assert!(decode_bytes(tag.to_vec()).unwrap_err().starts_with("not a recognized audio file: "));
    let mut tagged = tag.to_vec();
    tagged.extend_from_slice(&pcm16_wav(44_100, 1, &[vec![16_384]]));
    assert_eq!(decode_bytes(tagged).unwrap().data, vec![vec![s(0.5)]]);
}

#[test]
fn the_first_coded_track_is_chosen() {
    assert_eq!(choose_track(&vec![(7, false), (8, true), (9, true)]), Some(1));
    assert_eq!(choose_track(&vec![(7, false)]), None);
    assert_eq!(choose_track(&vec![]), None);
}

#[test]
fn failures_are_told_apart() {
    let e = |fault: Fault| MediaError { fault, text: "why".to_string() };
    assert!(matches!(unread(e(Fault::End)), Packet::End));
    assert!(matches!(unread(e(Fault::Reset)), Packet::Reset));
    assert!(matches!(unread(e(Fault::Damage)), Packet::Unreadable(why) if why == "why"));
    assert!(matches!(unread(e(Fault::Other)), Packet::Unreadable(why) if why == "why"));
    assert!(matches!(read(Err(e(Fault::Damage))), Packet::Damaged));
    assert!(matches!(read(Err(e(Fault::Other))), Packet::Undecodable(why) if why == "why"));
    assert!(matches!(read(Err(e(Fault::Reset))), Packet::Undecodable(why) if why == "why"));
    let heard = Samples { rate: 8_000, channels: 1, samples: vec![s(0.5)] };
    assert!(matches!(read(Ok(heard)), Packet::Decoded { rate: 8_000, channels: 1, samples } if samples == vec![s(0.5)]));
}
