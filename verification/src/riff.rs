//! The headers of a WAV file: which of them `symphonia` can be handed.
//!
//! A WAV file is a RIFF chunk that holds other chunks, and the samples are in the first one with the
//! tag `data`. Some headers before it make `symphonia` stop the program: a format without a rate, or
//! one whose fields it counts with beyond what their numbers hold. [`headers_hold`] follows the
//! chunks as `symphonia` does, up to the samples, and says that there is no such header on the way.

use vstd::prelude::*;

verus! {

/// `RIFF`, the tag that a file starts with.
pub const RIFF: u32 = 0x4646_4952;

/// `WAVE`, the form of a RIFF chunk that holds audio.
pub const WAVE: u32 = 0x4556_4157;

/// `fmt `, the tag of a format.
pub const FORMAT: u32 = 0x2074_6d66;

/// `LIST`, the tag of a list.
pub const LIST: u32 = 0x5453_494c;

/// `INFO`, the form of a list that holds texts.
pub const INFO: u32 = 0x4f46_4e49;

/// `data`, the tag of the samples.
pub const DATA: u32 = 0x6174_6164;

/// The format of samples that are integers.
pub const INTEGERS: u32 = 1;

/// The format of samples that are floats.
pub const FLOATS: u32 = 3;

/// The format of ADPCM.
pub const ADPCM: u32 = 2;

/// The format of A-law.
pub const A_LAW: u32 = 6;

/// The format of mu-law.
pub const MU_LAW: u32 = 7;

/// The format of IMA ADPCM.
pub const IMA_ADPCM: u32 = 0x11;

/// The extended format.
pub const EXTENDED: u32 = 0xfffe;

/// The number of bytes at the start of a file that are searched for the file to begin.
pub const SEARCHED: usize = 0x10_0000;

/// The number that two bytes stand for, lowest first.
pub open spec fn pair_at(bytes: Seq<u8>, i: int) -> int {
    bytes[i] + 256 * bytes[i + 1]
}

/// The number that four bytes stand for, lowest first.
pub open spec fn quad_at(bytes: Seq<u8>, i: int) -> int {
    pair_at(bytes, i) + 65536 * pair_at(bytes, i + 2)
}

/// The number of ones in the binary form of a number.
pub open spec fn ones(x: int) -> int
    decreases x,
{
    if x <= 0 {
        0
    } else {
        x % 2 + ones(x / 2)
    }
}

/// Where the file begins: at the first `RIFF`, from byte `from` on, that is followed by as many bytes
/// as are looked at to recognize it.
pub open spec fn riff_start(bytes: Seq<u8>, from: int) -> Option<int>
    decreases bytes.len() - from,
{
    if from + 16 > bytes.len() || from + 2 > SEARCHED {
        None
    } else if quad_at(bytes, from) == RIFF {
        Some(from)
    } else {
        riff_start(bytes, from + 1)
    }
}

/// Whether a block of `block` bytes with a header of `header` bytes is beyond counting: it is shorter
/// than its header, or the bits after the header are more than 16 bits can count.
pub open spec fn uncountable(block: int, header: int) -> bool {
    block < header || (block - header) * 8 > 0xffff
}

/// Whether a channel mask is beyond correcting: it has too few channels, and none above its highest
/// one is left.
pub open spec fn uncorrectable(mask: int, channels: int) -> bool {
    mask >= 0x8000_0000 && ones(mask) < channels
}

/// Whether the format at byte `i` must not be read: it has no rate, an ADPCM block that is beyond
/// counting, or, in the extended form, more channels than there can be, a mask that is beyond
/// correcting, or integers without a width.
pub open spec fn breaks(bytes: Seq<u8>, i: int) -> bool {
    let code = pair_at(bytes, i);
    let channels = pair_at(bytes, i + 2);
    let block = pair_at(bytes, i + 12);
    ||| quad_at(bytes, i + 4) == 0
    ||| code == ADPCM && uncountable(block, 7 * channels)
    ||| code == IMA_ADPCM && uncountable(block, 4 * channels)
    ||| code == EXTENDED && i + 24 <= bytes.len() && (channels >= 32 || uncorrectable(
        quad_at(bytes, i + 20),
        channels,
    ))
    ||| code == EXTENDED && i + 25 <= bytes.len() && pair_at(bytes, i + 14) == 0 && bytes[i + 24]
        == 1
}

/// Where reading goes on after the format at byte `i`, in a chunk of `size` bytes, or `None` where it
/// does not go on. Some formats fill their chunk, the extended one has a fixed length, and the rest
/// say how many bytes follow.
pub open spec fn format_end(bytes: Seq<u8>, i: int, size: int) -> Option<int> {
    let code = pair_at(bytes, i);
    if code == INTEGERS || code == FLOATS {
        Some(i + size)
    } else if code == EXTENDED {
        Some(i + 40)
    } else if (code == ADPCM || code == A_LAW || code == MU_LAW || code == IMA_ADPCM) && i + 18
        <= bytes.len() {
        Some(i + 18 + pair_at(bytes, i + 16))
    } else {
        None
    }
}

/// Where reading goes on after a list of texts, of whose `size` bytes `used` are read, up to byte `p`,
/// or `None` where it does not go on. Texts start at even places; the padding of a list of odd size
/// comes on top.
pub open spec fn texts_end(bytes: Seq<u8>, p: int, used: int, size: int) -> Option<int>
    decreases
            if p > bytes.len() {
                0
            } else {
                bytes.len() - p + 1
            },
{
    let q = p + used % 2;
    let u = used + used % 2;
    if u + 8 > size {
        Some(
            q + if u < size {
                size - u
            } else {
                0
            } + size % 2,
        )
    } else if q + 8 > bytes.len() || quad_at(bytes, q + 4) > size - (u + 8) {
        None
    } else {
        texts_end(bytes, q + 8 + quad_at(bytes, q + 4), u + 8 + quad_at(bytes, q + 4), size)
    }
}

/// Where reading goes on after the chunk whose contents, `size` bytes, start at byte `i`, or `None`
/// where it does not go on.
pub open spec fn chunk_end(bytes: Seq<u8>, tag: int, i: int, size: int) -> Option<int> {
    if tag == FORMAT {
        if size < 16 || i + 16 > bytes.len() {
            None
        } else {
            format_end(bytes, i, size)
        }
    } else if tag == LIST {
        if size < 4 || i + 4 > bytes.len() {
            None
        } else if quad_at(bytes, i) == INFO {
            texts_end(bytes, i + 4, 0, size - 4)
        } else {
            Some(i + size + size % 2)
        }
    } else {
        Some(i + size)
    }
}

proof fn lemma_texts_end_later(bytes: Seq<u8>, p: int, used: int, size: int)
    ensures
        texts_end(bytes, p, used, size) matches Some(end) ==> end >= p,
    decreases
            if p > bytes.len() {
                0
            } else {
                bytes.len() - p + 1
            },
{
    let q = p + used % 2;
    let u = used + used % 2;
    if u + 8 <= size && q + 8 <= bytes.len() {
        lemma_texts_end_later(
            bytes,
            q + 8 + quad_at(bytes, q + 4),
            u + 8 + quad_at(bytes, q + 4),
            size,
        );
    }
}

/// Reading never goes back: a chunk ends at its contents or after them.
pub proof fn chunks_end_later(bytes: Seq<u8>, tag: int, i: int, size: int)
    requires
        size >= 0,
    ensures
        chunk_end(bytes, tag, i, size) matches Some(end) ==> end >= i,
{
    if tag == LIST && size >= 4 {
        lemma_texts_end_later(bytes, i + 4, 0, size - 4);
    }
}

/// Whether the chunks from byte `p` on can be read, up to the samples. `used` of the `total` bytes of
/// the file are counted so far; chunks start at even places.
pub open spec fn chunks_hold(bytes: Seq<u8>, p: int, used: int, total: int) -> bool
    decreases
            if p > bytes.len() {
                0
            } else {
                bytes.len() - p + 1
            },
{
    let q = p + used % 2;
    let u = used + used % 2;
    if p < 0 || p > bytes.len() {
        true
    } else if u + 8 > u32::MAX {
        false
    } else if u + 8 > total || q + 8 > bytes.len() {
        true
    } else {
        let tag = quad_at(bytes, q);
        let size = quad_at(bytes, q + 4);
        if tag == DATA {
            true
        } else if size > total - (u + 8) {
            !(size == u32::MAX && total == u32::MAX)
        } else if tag == FORMAT && size >= 16 && q + 24 <= bytes.len() && breaks(bytes, q + 8) {
            false
        } else {
            proof {
                chunks_end_later(bytes, tag, q + 8, size);
            }
            match chunk_end(bytes, tag, q + 8, size) {
                Some(end) => chunks_hold(bytes, end, u + 8 + size, total),
                None => true,
            }
        }
    }
}

/// Whether `symphonia` can be handed a file: none of the headers before its samples is one that it
/// stops on. Where it finds no file, or not one that holds audio, there are no headers to stop on.
pub open spec fn headers_hold(bytes: Seq<u8>) -> bool {
    match riff_start(bytes, 0) {
        Some(r) => quad_at(bytes, r + 8) == WAVE ==> chunks_hold(
            bytes,
            r + 12,
            0,
            quad_at(bytes, r + 4),
        ),
        None => true,
    }
}

fn pair(bytes: &Vec<u8>, i: usize) -> (r: u32)
    requires
        i + 2 <= bytes.len(),
    ensures
        r == pair_at(bytes@, i as int),
        r <= 0xffff,
{
    bytes[i] as u32 + 256 * bytes[i + 1] as u32
}

fn quad(bytes: &Vec<u8>, i: usize) -> (r: u32)
    requires
        i + 4 <= bytes.len(),
    ensures
        r == quad_at(bytes@, i as int),
{
    pair(bytes, i) + 65536 * pair(bytes, i + 2)
}

fn count_ones(x: u32) -> (r: u32)
    ensures
        r == ones(x as int),
        r <= 32,
{
    let mut rest: u32 = x;
    let mut r: u32 = 0;
    let mut left: u32 = 32;
    proof {
        vstd::arithmetic::power2::lemma2_to64();
    }
    while rest > 0
        invariant
            r + ones(rest as int) == ones(x as int),
            r + left <= 32,
            rest < vstd::arithmetic::power2::pow2(left as nat),
        decreases rest,
    {
        proof {
            if left == 0 {
                vstd::arithmetic::power2::lemma2_to64();
            } else {
                vstd::arithmetic::power2::lemma_pow2_unfold(left as nat);
            }
        }
        r = r + rest % 2;
        rest = rest / 2;
        left = left - 1;
    }
    r
}

fn is_broken(bytes: &Vec<u8>, i: usize) -> (r: bool)
    requires
        i + 16 <= bytes.len(),
    ensures
        r == breaks(bytes@, i as int),
{
    let code: u32 = pair(bytes, i);
    let channels: u32 = pair(bytes, i + 2);
    let block: u32 = pair(bytes, i + 12);
    if quad(bytes, i + 4) == 0 {
        return true;
    }
    if code == ADPCM {
        return block < 7 * channels || (block - 7 * channels) * 8 > 0xffff;
    }
    if code == IMA_ADPCM {
        return block < 4 * channels || (block - 4 * channels) * 8 > 0xffff;
    }
    if code != EXTENDED || bytes.len() - i < 24 {
        return false;
    }
    let mask: u32 = quad(bytes, i + 20);
    channels >= 32 || (mask >= 0x8000_0000 && count_ones(mask) < channels) || (bytes.len() - i >= 25
        && pair(bytes, i + 14) == 0 && bytes[i + 24] == 1)
}

fn find_texts_end(bytes: &Vec<u8>, start: usize, size: u32) -> (r: Option<usize>)
    requires
        start <= bytes.len(),
    ensures
        match texts_end(bytes@, start as int, 0, size as int) {
            Some(end) => if end <= bytes@.len() {
                r matches Some(e) && e == end
            } else {
                r is None
            },
            None => r is None,
        },
{
    let n: usize = bytes.len();
    let mut p: usize = start;
    let mut used: u64 = 0;
    loop
        invariant
            n == bytes@.len(),
            p <= n,
            used <= size,
            texts_end(bytes@, start as int, 0, size as int) == texts_end(
                bytes@,
                p as int,
                used as int,
                size as int,
            ),
        decreases n - p,
    {
        let odd: u64 = used % 2;
        let u: u64 = used + odd;
        if u + 8 > size as u64 {
            let rest: u64 = if u < size as u64 {
                size as u64 - u
            } else {
                0
            };
            let more: u64 = odd + rest + size as u64 % 2;
            return if more <= (n - p) as u64 {
                Some(p + more as usize)
            } else {
                None
            };
        }
        if ((n - p) as u64) < 8 + odd {
            return None;
        }
        let q: usize = p + odd as usize;
        let len: u32 = quad(bytes, q + 4);
        if len as u64 > size as u64 - (u + 8) {
            return None;
        }
        if len as u64 > (n - q - 8) as u64 {
            proof {
                lemma_texts_past_the_end(
                    bytes@,
                    q + 8 + len,
                    u + 8 + len,
                    size as int,
                );
            }
            return None;
        }
        p = q + 8 + len as usize;
        used = u + 8 + len as u64;
    }
}

proof fn lemma_texts_past_the_end(bytes: Seq<u8>, p: int, used: int, size: int)
    requires
        p > bytes.len(),
        0 <= used,
    ensures
        texts_end(bytes, p, used, size) matches Some(end) ==> end > bytes.len(),
{
}

fn find_chunk_end(bytes: &Vec<u8>, tag: u32, i: usize, size: u32) -> (r: Option<usize>)
    requires
        i <= bytes.len(),
    ensures
        match chunk_end(bytes@, tag as int, i as int, size as int) {
            Some(end) => if end <= bytes@.len() {
                r matches Some(e) && e == end
            } else {
                r is None
            },
            None => r is None,
        },
{
    let left: u64 = (bytes.len() - i) as u64;
    let more: u64 = if tag == FORMAT {
        if size < 16 || left < 16 {
            return None;
        }
        let code: u32 = pair(bytes, i);
        if code == INTEGERS || code == FLOATS {
            size as u64
        } else if code == EXTENDED {
            40
        } else if (code == ADPCM || code == A_LAW || code == MU_LAW || code == IMA_ADPCM) && left
            >= 18 {
            18 + pair(bytes, i + 16) as u64
        } else {
            return None;
        }
    } else if tag == LIST {
        if size < 4 || left < 4 {
            return None;
        }
        if quad(bytes, i) == INFO {
            return find_texts_end(bytes, i + 4, size - 4);
        }
        size as u64 + size as u64 % 2
    } else {
        size as u64
    };
    if more <= left {
        Some(i + more as usize)
    } else {
        None
    }
}

fn check_chunks(bytes: &Vec<u8>, start: usize, total: u32) -> (r: bool)
    requires
        start <= bytes.len(),
    ensures
        r == chunks_hold(bytes@, start as int, 0, total as int),
{
    let n: usize = bytes.len();
    let mut p: usize = start;
    let mut used: u64 = 0;
    loop
        invariant
            n == bytes@.len(),
            p <= n,
            used <= total,
            chunks_hold(bytes@, start as int, 0, total as int) == chunks_hold(
                bytes@,
                p as int,
                used as int,
                total as int,
            ),
        decreases n - p,
    {
        let odd: u64 = used % 2;
        let u: u64 = used + odd;
        if u + 8 > u32::MAX as u64 {
            return false;
        }
        if u + 8 > total as u64 || ((n - p) as u64) < 8 + odd {
            return true;
        }
        let q: usize = p + odd as usize;
        let tag: u32 = quad(bytes, q);
        let size: u32 = quad(bytes, q + 4);
        if tag == DATA {
            return true;
        }
        if size as u64 > total as u64 - (u + 8) {
            return !(size == u32::MAX && total == u32::MAX);
        }
        if tag == FORMAT && size >= 16 && n - q >= 24 && is_broken(bytes, q + 8) {
            return false;
        }
        match find_chunk_end(bytes, tag, q + 8, size) {
            Some(end) => {
                proof {
                    chunks_end_later(bytes@, tag as int, q + 8, size as int);
                }
                p = end;
                used = u + 8 + size as u64;
            },
            None => {
                proof {
                    reveal_with_fuel(chunks_hold, 2);
                }
                return true;
            },
        }
    }
}

/// Whether `symphonia` can be handed a file.
pub fn check_headers(bytes: &Vec<u8>) -> (r: bool)
    ensures
        r == headers_hold(bytes@),
{
    let n: usize = bytes.len();
    let mut from: usize = 0;
    while n - from >= 16 && from + 2 <= SEARCHED
        invariant
            n == bytes@.len(),
            from <= n,
            riff_start(bytes@, 0) == riff_start(bytes@, from as int),
        decreases n - from,
    {
        if quad(bytes, from) == RIFF {
            return quad(bytes, from + 8) != WAVE || check_chunks(
                bytes,
                from + 12,
                quad(bytes, from + 4),
            );
        }
        from = from + 1;
    }
    true
}

/// Whether four bytes spell `fmt `.
pub open spec fn spells_format(bytes: Seq<u8>, i: int) -> bool {
    bytes[i] == 0x66 && bytes[i + 1] == 0x6d && bytes[i + 2] == 0x74 && bytes[i + 3] == 0x20
}

/// Whether the format at byte `i` is an ordinary one: it has a rate, and is of integers, floats, A-law
/// or mu-law, or of the extended kind with a width, with at most 31 channels and with a mask whose
/// highest bit is not in use.
pub open spec fn ordinary(bytes: Seq<u8>, i: int) -> bool {
    &&& bytes[i + 4] != 0 || bytes[i + 5] != 0 || bytes[i + 6] != 0 || bytes[i + 7] != 0
    &&& {
        ||| bytes[i] == 1 && bytes[i + 1] == 0
        ||| bytes[i] == 3 && bytes[i + 1] == 0
        ||| bytes[i] == 6 && bytes[i + 1] == 0
        ||| bytes[i] == 7 && bytes[i + 1] == 0
        ||| {
            &&& bytes[i] == 0xfe && bytes[i + 1] == 0xff
            &&& bytes[i + 2] <= 31 && bytes[i + 3] == 0
            &&& bytes[i + 14] != 0 || bytes[i + 15] != 0
            &&& i + 24 <= bytes.len() ==> bytes[i + 23] < 0x80
        }
    }
}

/// A well-formed file is not refused. That goes for the plain one, as it is written everywhere: a
/// format of 16 bytes, of integers or floats, with a rate, and then the samples, whatever lengths
/// the file claims.
pub proof fn plain_files_hold(bytes: Seq<u8>)
    requires
        bytes.len() >= 44,
        bytes[0] == 0x52 && bytes[1] == 0x49 && bytes[2] == 0x46 && bytes[3] == 0x46,
        bytes[8] == 0x57 && bytes[9] == 0x41 && bytes[10] == 0x56 && bytes[11] == 0x45,
        spells_format(bytes, 12),
        bytes[16] == 16 && bytes[17] == 0 && bytes[18] == 0 && bytes[19] == 0,
        bytes[20] == 1 || bytes[20] == 3,
        bytes[21] == 0,
        bytes[24] != 0 || bytes[25] != 0 || bytes[26] != 0 || bytes[27] != 0,
        bytes[36] == 0x64 && bytes[37] == 0x61 && bytes[38] == 0x74 && bytes[39] == 0x61,
    ensures
        headers_hold(bytes),
{
    let total = quad_at(bytes, 4);
    assert(riff_start(bytes, 0) == Some(0int));
    assert(quad_at(bytes, 12) == FORMAT);
    assert(quad_at(bytes, 16) == 16);
    assert(!breaks(bytes, 20));
    assert(chunk_end(bytes, FORMAT as int, 20, 16) == Some(36int));
    assert(quad_at(bytes, 36) == DATA);
    assert(chunks_hold(bytes, 36, 24, total));
}

/// No file is refused for anything but a format or a length: where every format is ordinary and the
/// file does not claim all the length that can be counted, the headers hold, whatever other chunks
/// there are, in whatever order.
pub proof fn ordinary_files_hold(bytes: Seq<u8>)
    requires
        forall|i: int|
            0 <= i && i + 24 <= bytes.len() && #[trigger] spells_format(bytes, i) ==> ordinary(
                bytes,
                i + 8,
            ),
        forall|i: int|
            0 <= i && i + 8 <= bytes.len() && bytes[i] == 0x52 ==> (#[trigger] quad_at(bytes, i + 4))
                <= 0xffff_fff0,
    ensures
        headers_hold(bytes),
{
    if let Some(r) = riff_start(bytes, 0) {
        lemma_start(bytes, 0);
        lemma_tag(bytes, r, 0x52, 0x49, 0x46, 0x46);
        assert(bytes[r] == 0x52);
        lemma_ordinary_chunks(bytes, r + 12, 0, quad_at(bytes, r + 4));
    }
}

proof fn lemma_start(bytes: Seq<u8>, from: int)
    requires
        0 <= from,
    ensures
        riff_start(bytes, from) matches Some(r) ==> from <= r && r + 16 <= bytes.len() && quad_at(
            bytes,
            r,
        ) == RIFF,
    decreases bytes.len() - from,
{
    if from + 16 <= bytes.len() && from + 2 <= SEARCHED && quad_at(bytes, from) != RIFF {
        lemma_start(bytes, from + 1);
    }
}

proof fn lemma_ordinary_chunks(bytes: Seq<u8>, p: int, used: int, total: int)
    requires
        0 <= p,
        0 <= used <= total <= 0xffff_fff0,
        forall|i: int|
            0 <= i && i + 24 <= bytes.len() && #[trigger] spells_format(bytes, i) ==> ordinary(
                bytes,
                i + 8,
            ),
    ensures
        chunks_hold(bytes, p, used, total),
    decreases
            if p > bytes.len() {
                0
            } else {
                bytes.len() - p + 1
            },
{
    let q = p + used % 2;
    let u = used + used % 2;
    if p <= bytes.len() && u + 8 <= total && q + 8 <= bytes.len() {
        let tag = quad_at(bytes, q);
        let size = quad_at(bytes, q + 4);
        if tag != DATA && size <= total - (u + 8) {
            if tag == FORMAT && size >= 16 && q + 24 <= bytes.len() {
                lemma_tag(bytes, q, 0x66, 0x6d, 0x74, 0x20);
                assert(spells_format(bytes, q));
                ordinary_formats_do_not_break(bytes, q + 8);
            }
            chunks_end_later(bytes, tag, q + 8, size);
            if let Some(end) = chunk_end(bytes, tag, q + 8, size) {
                lemma_ordinary_chunks(bytes, end, u + 8 + size, total);
            }
        }
    }
}

/// An ordinary format can be read.
pub proof fn ordinary_formats_do_not_break(bytes: Seq<u8>, i: int)
    requires
        0 <= i,
        i + 16 <= bytes.len(),
        ordinary(bytes, i),
    ensures
        !breaks(bytes, i),
{
}

/// A file whose first chunk is a format that must not be read is refused: one without a rate, an
/// ADPCM one whose block is shorter than its header or too long to be counted in bits, or an
/// extended one with 32 channels or more, of integers without a width, or with a mask that has only
/// its highest bit for more channels than one.
pub proof fn broken_formats_are_refused(bytes: Seq<u8>)
    requires
        bytes.len() >= 48,
        bytes[0] == 0x52 && bytes[1] == 0x49 && bytes[2] == 0x46 && bytes[3] == 0x46,
        bytes[7] == 0x7f,
        bytes[8] == 0x57 && bytes[9] == 0x41 && bytes[10] == 0x56 && bytes[11] == 0x45,
        spells_format(bytes, 12),
        bytes[16] >= 16 && bytes[17] == 0 && bytes[18] == 0 && bytes[19] == 0,
        ({
            let code = bytes[20] + 256 * bytes[21];
            let channels = bytes[22] + 256 * bytes[23];
            let block = bytes[32] + 256 * bytes[33];
            ||| bytes[24] == 0 && bytes[25] == 0 && bytes[26] == 0 && bytes[27] == 0
            ||| code == 2 && (block < 7 * channels || 8 * (block - 7 * channels) > 0xffff)
            ||| code == 0x11 && (block < 4 * channels || 8 * (block - 4 * channels) > 0xffff)
            ||| code == 0xfffe && channels >= 32
            ||| code == 0xfffe && bytes[34] == 0 && bytes[35] == 0 && bytes[44] == 1
            ||| code == 0xfffe && channels >= 2 && bytes[43] == 0x80 && bytes[42] == 0 && bytes[41]
                == 0 && bytes[40] == 0
        }),
    ensures
        !headers_hold(bytes),
{
    let total = quad_at(bytes, 4);
    assert(riff_start(bytes, 0) == Some(0int));
    assert(quad_at(bytes, 12) == FORMAT);
    assert(16 <= quad_at(bytes, 16) <= 255);
    assert(total >= 0x7f00_0000);
    if bytes[43] == 0x80 && bytes[42] == 0 && bytes[41] == 0 && bytes[40] == 0 {
        assert(quad_at(bytes, 40) == 0x8000_0000);
        ones_are_counted(0x8000_0000);
        lemma_single_one(31);
        vstd::arithmetic::power2::lemma2_to64();
    }
    assert(breaks(bytes, 20));
}

proof fn lemma_single_one(k: nat)
    ensures
        ones(vstd::arithmetic::power2::pow2(k) as int) == 1,
    decreases k,
{
    vstd::arithmetic::power2::lemma2_to64();
    vstd::arithmetic::power2::lemma_pow2_pos(k);
    if k > 0 {
        vstd::arithmetic::power2::lemma_pow2_unfold(k);
        lemma_single_one((k - 1) as nat);
        ones_are_counted(vstd::arithmetic::power2::pow2((k - 1) as nat) as int);
    } else {
        reveal_with_fuel(ones, 2);
    }
}

/// Ones are counted digit by digit.
pub proof fn ones_are_counted(x: int)
    requires
        x >= 0,
    ensures
        ones(0) == 0,
        ones(2 * x) == ones(x),
        ones(2 * x + 1) == ones(x) + 1,
{
    if x > 0 {
        assert((2 * x) % 2 == 0 && (2 * x) / 2 == x);
    }
    assert((2 * x + 1) % 2 == 1 && (2 * x + 1) / 2 == x);
}

/// A chunk that is neither a format nor a list nor the samples is passed over as a whole: whether a
/// file holds does not depend on it.
pub proof fn other_chunks_are_passed_over(bytes: Seq<u8>, p: int, used: int, total: int)
    requires
        0 <= p,
        0 <= used,
        used % 2 == 0,
        used + 8 <= total <= u32::MAX,
        p + 8 <= bytes.len(),
        quad_at(bytes, p + 4) <= total - (used + 8),
        !spells_format(bytes, p),
        !(bytes[p] == 0x4c && bytes[p + 1] == 0x49 && bytes[p + 2] == 0x53 && bytes[p + 3] == 0x54),
        !(bytes[p] == 0x64 && bytes[p + 1] == 0x61 && bytes[p + 2] == 0x74 && bytes[p + 3] == 0x61),
    ensures
        chunks_hold(bytes, p, used, total) == chunks_hold(
            bytes,
            p + 8 + quad_at(bytes, p + 4),
            used + 8 + quad_at(bytes, p + 4),
            total,
        ),
{
    lemma_tag(bytes, p, 0x66, 0x6d, 0x74, 0x20);
    lemma_tag(bytes, p, 0x4c, 0x49, 0x53, 0x54);
    lemma_tag(bytes, p, 0x64, 0x61, 0x74, 0x61);
    assert(quad_at(bytes, p) != FORMAT);
    assert(quad_at(bytes, p) != LIST);
    assert(quad_at(bytes, p) != DATA);
}

proof fn lemma_tag(bytes: Seq<u8>, p: int, a: u8, b: u8, c: u8, d: u8)
    ensures
        quad_at(bytes, p) == a + 0x100 * b + 0x1_0000 * c + 0x100_0000 * d <==> bytes[p] == a
            && bytes[p + 1] == b && bytes[p + 2] == c && bytes[p + 3] == d,
{
    let low = pair_at(bytes, p);
    let high = pair_at(bytes, p + 2);
    if quad_at(bytes, p) == a + 0x100 * b + 0x1_0000 * c + 0x100_0000 * d {
        assert(high == c + 0x100 * d);
        assert(low == a + 0x100 * b);
    }
}

/// Numbers are stored lowest byte first.
pub proof fn lowest_bytes_come_first(bytes: Seq<u8>, i: int)
    ensures
        pair_at(bytes, i) == bytes[i] + 0x100 * bytes[i + 1],
        quad_at(bytes, i) == bytes[i] + 0x100 * bytes[i + 1] + 0x1_0000 * bytes[i + 2] + 0x100_0000
            * bytes[i + 3],
{
}

/// A file begins at the first `RIFF` among the bytes that are searched, and where none is found there
/// is none.
pub proof fn files_begin_at_the_first_marker(bytes: Seq<u8>, i: int)
    requires
        0 <= i < 0x10_0000 - 1,
        i + 16 <= bytes.len(),
        bytes[i] == 0x52 && bytes[i + 1] == 0x49 && bytes[i + 2] == 0x46 && bytes[i + 3] == 0x46,
    ensures
        riff_start(bytes, 0) matches Some(r) && {
            &&& 0 <= r <= i
            &&& bytes[r] == 0x52 && bytes[r + 1] == 0x49 && bytes[r + 2] == 0x46 && bytes[r + 3]
                == 0x46
        },
{
    lemma_marker(bytes, 0, i);
    lemma_start(bytes, 0);
    if let Some(r) = riff_start(bytes, 0) {
        lemma_tag(bytes, r, 0x52, 0x49, 0x46, 0x46);
    }
}

proof fn lemma_marker(bytes: Seq<u8>, from: int, i: int)
    requires
        0 <= from <= i < 0x10_0000 - 1,
        i + 16 <= bytes.len(),
        quad_at(bytes, i) == 0x4646_4952,
    ensures
        riff_start(bytes, from) matches Some(r) && from <= r <= i,
    decreases i - from,
{
    if from < i && quad_at(bytes, from) != RIFF {
        lemma_marker(bytes, from + 1, i);
    }
}

/// A chunk that is as long as its contents ends where it says: the contents of an unknown chunk, of
/// a list of even size, and of a format whose fields fill it.
pub proof fn chunks_end_where_they_say(bytes: Seq<u8>, tag: int, i: int, size: int)
    requires
        0 <= i,
        0 <= size,
        size % 2 == 0,
        i + 18 <= bytes.len(),
    ensures
        tag != 0x2074_6d66 && tag != 0x5453_494c ==> chunk_end(bytes, tag, i, size) == Some(
            i + size,
        ),
        tag == 0x5453_494c && size >= 4 ==> (chunk_end(bytes, tag, i, size) matches Some(end) ==> end
            == i + size),
        tag == 0x5453_494c && size >= 4 && bytes[i] != 0x49 ==> chunk_end(bytes, tag, i, size)
            == Some(i + size),
        tag == 0x2074_6d66 && size >= 16 ==> {
            let code = bytes[i] + 256 * bytes[i + 1];
            let more = bytes[i + 16] + 256 * bytes[i + 17];
            &&& code == 1 || code == 3 ==> chunk_end(bytes, tag, i, size) == Some(i + size)
            &&& code == 0xfffe && size == 40 ==> chunk_end(bytes, tag, i, size) == Some(i + size)
            &&& (code == 2 || code == 6 || code == 7 || code == 0x11) && size == 18 + more
                ==> chunk_end(bytes, tag, i, size) == Some(i + size)
        },
{
    if tag == 0x5453_494c && size >= 4 {
        lemma_texts_fill_their_list(bytes, i + 4, 0, size - 4);
    }
}

proof fn lemma_texts_fill_their_list(bytes: Seq<u8>, p: int, used: int, size: int)
    requires
        0 <= used <= size,
        size % 2 == 0,
    ensures
        texts_end(bytes, p, used, size) matches Some(end) ==> end == p + size - used,
    decreases
            if p > bytes.len() {
                0
            } else {
                bytes.len() - p + 1
            },
{
    let q = p + used % 2;
    let u = used + used % 2;
    if u + 8 <= size && q + 8 <= bytes.len() && quad_at(bytes, q + 4) <= size - (u + 8) {
        lemma_texts_fill_their_list(
            bytes,
            q + 8 + quad_at(bytes, q + 4),
            u + 8 + quad_at(bytes, q + 4),
            size,
        );
    }
}

/// Texts whose sizes fill a list are all read: a list of one text, which is as long as its list says,
/// ends with it.
pub proof fn texts_are_read_to_their_end(bytes: Seq<u8>, i: int, size: int)
    requires
        0 <= i,
        12 <= size,
        size % 2 == 0,
        i + size <= bytes.len(),
        bytes[i] == 0x49 && bytes[i + 1] == 0x4e && bytes[i + 2] == 0x46 && bytes[i + 3] == 0x4f,
        bytes[i + 8] + 0x100 * bytes[i + 9] + 0x1_0000 * bytes[i + 10] + 0x100_0000 * bytes[i + 11]
            == size - 12,
    ensures
        chunk_end(bytes, 0x5453_494c, i, size) == Some(i + size),
{
    assert(quad_at(bytes, i) == INFO);
    assert(quad_at(bytes, i + 8) == size - 12);
    reveal_with_fuel(texts_end, 2);
}

/// The formats that must not be read are these and no others, byte by byte.
pub proof fn these_formats_break(bytes: Seq<u8>, i: int)
    requires
        0 <= i,
        i + 25 <= bytes.len(),
    ensures
        breaks(bytes, i) <==> {
            let code = bytes[i] + 0x100 * bytes[i + 1];
            let channels = bytes[i + 2] + 0x100 * bytes[i + 3];
            let block = bytes[i + 12] + 0x100 * bytes[i + 13];
            let mask = bytes[i + 20] + 0x100 * bytes[i + 21] + 0x1_0000 * bytes[i + 22] + 0x100_0000
                * bytes[i + 23];
            ||| bytes[i + 4] == 0 && bytes[i + 5] == 0 && bytes[i + 6] == 0 && bytes[i + 7] == 0
            ||| code == 2 && !(7 * channels <= block && 8 * block <= 0xffff + 56 * channels)
            ||| code == 0x11 && !(4 * channels <= block && 8 * block <= 0xffff + 32 * channels)
            ||| code == 0xfffe && channels >= 32
            ||| code == 0xfffe && bytes[i + 23] >= 0x80 && ones(mask) < channels
            ||| code == 0xfffe && bytes[i + 14] == 0 && bytes[i + 15] == 0 && bytes[i + 24] == 1
        },
{
}

} // verus!
