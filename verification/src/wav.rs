//! 16-bit PCM WAV encoding.
//!
//! Builds the minimal 44-byte RIFF/WAVE header and the little-endian PCM
//! payload for mono and interleaved stereo data. Samples arrive already
//! quantised to `i16`; the caller writes the returned bytes wherever it
//! likes.

use vstd::prelude::*;
use vstd::string::*;
use crate::error::GoonjError;

verus! {

/// Length in bytes of the RIFF/WAVE header written by [`write_wav_header`].
pub const WAV_HEADER_LEN: usize = 44;

/// Bits per PCM sample.
pub const BITS_PER_SAMPLE: u16 = 16;

/// The fields of a 16-bit PCM RIFF/WAVE header.
#[derive(Clone, Copy, Debug, PartialEq, Eq, Structural)]
pub struct WavHeader {
    /// RIFF chunk size: 36 + `data_size`.
    pub file_size: u32,
    /// Channel count (1 = mono, 2 = stereo).
    pub num_channels: u16,
    /// Sample rate in Hz.
    pub sample_rate: u32,
    /// Bytes per second: `sample_rate · block_align`.
    pub byte_rate: u32,
    /// Bytes per frame: `num_channels · bits_per_sample / 8`.
    pub block_align: u16,
    /// Bits per sample.
    pub bits_per_sample: u16,
    /// Size in bytes of the PCM payload.
    pub data_size: u32,
}

/// Little-endian bytes of a 16-bit value.
pub open spec fn le16(x: u16) -> Seq<u8> {
    seq![(x % 256) as u8, (x / 256) as u8]
}

/// Little-endian bytes of a 32-bit value.
pub open spec fn le32(x: u32) -> Seq<u8> {
    seq![(x % 256) as u8, ((x / 256) % 256) as u8, ((x / 65536) % 256) as u8, (x / 16777216) as u8]
}

/// The two's-complement bit pattern of a 16-bit signed sample.
pub open spec fn i16_bits(v: i16) -> u16 {
    if v < 0 {
        (v + 65536) as u16
    } else {
        v as u16
    }
}

/// Little-endian bytes of a 16-bit signed sample.
pub open spec fn le_i16(v: i16) -> Seq<u8> {
    le16(i16_bits(v))
}

/// The four ASCII bytes `RIFF`.
pub open spec fn tag_riff() -> Seq<u8> {
    seq![0x52u8, 0x49u8, 0x46u8, 0x46u8]
}

/// The four ASCII bytes `WAVE`.
pub open spec fn tag_wave() -> Seq<u8> {
    seq![0x57u8, 0x41u8, 0x56u8, 0x45u8]
}

/// The four ASCII bytes `fmt `.
pub open spec fn tag_fmt() -> Seq<u8> {
    seq![0x66u8, 0x6du8, 0x74u8, 0x20u8]
}

/// The four ASCII bytes `data`.
pub open spec fn tag_data() -> Seq<u8> {
    seq![0x64u8, 0x61u8, 0x74u8, 0x61u8]
}

/// The 44 header bytes: RIFF chunk, `fmt ` sub-chunk (PCM format 1, size
/// 16) and the `data` sub-chunk header.
pub open spec fn header_bytes(h: WavHeader) -> Seq<u8> {
    tag_riff() + le32(h.file_size) + tag_wave() + tag_fmt() + le32(16) + le16(1) + le16(
        h.num_channels,
    ) + le32(h.sample_rate) + le32(h.byte_rate) + le16(h.block_align) + le16(h.bits_per_sample)
        + tag_data() + le32(h.data_size)
}

/// PCM payload of a sequence of samples: each sample as two little-endian bytes.
pub open spec fn pcm_bytes(s: Seq<i16>) -> Seq<u8>
    decreases s.len(),
{
    if s.len() == 0 {
        Seq::empty()
    } else {
        pcm_bytes(s.drop_last()) + le_i16(s.last())
    }
}

/// Interleaved stereo payload: for each frame, the left sample then the right one.
pub open spec fn interleaved_bytes(l: Seq<i16>, r: Seq<i16>) -> Seq<u8>
    decreases l.len(),
{
    if l.len() == 0 {
        Seq::empty()
    } else {
        interleaved_bytes(l.drop_last(), r.take(l.len() - 1)) + le_i16(l.last()) + le_i16(r[l.len() - 1])
    }
}

/// Whether a 16-bit payload of `num_frames` frames of `num_channels`
/// channels fits the header's 32-bit size field.
pub open spec fn pcm16_fits(num_channels: u16, num_frames: nat) -> bool {
    num_frames <= u32::MAX && num_frames * (2 * num_channels) <= u32::MAX
}

/// The header for a 16-bit payload that fits.
pub open spec fn pcm16_header(num_channels: u16, sample_rate: u32, num_frames: nat) -> WavHeader {
    WavHeader {
        file_size: (36 + num_frames * (2 * num_channels)) as u32,
        num_channels,
        sample_rate,
        byte_rate: (sample_rate * num_channels * 2) as u32,
        block_align: (2 * num_channels) as u16,
        bits_per_sample: 16,
        data_size: (num_frames * (2 * num_channels)) as u32,
    }
}

/// Inputs on which building the header would overflow an intermediate
/// 32-bit or 16-bit quantity.
pub open spec fn pcm16_no_overflow(num_channels: u16, sample_rate: u32, num_frames: nat) -> bool {
    &&& num_channels * 16 <= u16::MAX
    &&& sample_rate * num_channels * 16 <= u32::MAX
    &&& pcm16_fits(num_channels, num_frames) ==> 36 + num_frames * (2 * num_channels) <= u32::MAX
}

/// Whether `e` is the error reported for a payload too large for the header.
pub open spec fn is_too_large_error(e: GoonjError) -> bool {
    e matches GoonjError::ComputationError(s) && s@ == "WAV data too large for 32-bit header"@
}

/// Whether `e` is the error reported for stereo channels of unequal length.
pub open spec fn is_unequal_channels_error(e: GoonjError) -> bool {
    e matches GoonjError::ComputationError(s) && s@ == "left and right channels must have equal length"@
}

fn too_large_error() -> (e: GoonjError)
    ensures
        is_too_large_error(e),
{
    GoonjError::ComputationError(String::from_str("WAV data too large for 32-bit header"))
}

impl WavHeader {
    /// Header for `num_frames` frames of 16-bit PCM with `num_channels`
    /// channels at `sample_rate` Hz, or an error when the payload does not
    /// fit the 32-bit size field.
    pub fn pcm16(num_channels: u16, sample_rate: u32, num_frames: usize) -> (r: Result<WavHeader, GoonjError>)
        requires
            pcm16_no_overflow(num_channels, sample_rate, num_frames as nat),
        ensures
            r is Ok <==> pcm16_fits(num_channels, num_frames as nat),
            r matches Ok(h) ==> h == pcm16_header(num_channels, sample_rate, num_frames as nat),
            r matches Err(e) ==> is_too_large_error(e),
            r matches Ok(h) ==> {
                &&& h.num_channels == num_channels
                &&& h.sample_rate == sample_rate
                &&& h.bits_per_sample == 16
                &&& h.block_align == num_channels * h.bits_per_sample / 8
                &&& h.byte_rate == sample_rate * h.block_align
                &&& h.data_size == num_frames * h.block_align
                &&& h.file_size == 36 + h.data_size
            },
    {
        let bits_per_sample: u16 = BITS_PER_SAMPLE;
        let byte_rate: u32 = sample_rate * (num_channels as u32) * (bits_per_sample as u32) / 8;
        let block_align: u16 = num_channels * bits_per_sample / 8;
        if num_frames > u32::MAX as usize {
            return Err(too_large_error());
        }
        let n = num_frames as u32;
        let data_size = match n.checked_mul(block_align as u32) {
            Some(d) => d,
            None => {
                return Err(too_large_error());
            },
        };
        let file_size = 36 + data_size;
        proof {
            let sr = sample_rate as int;
            let ch = num_channels as int;
            assert(sr * ch * 16 == (sr * (ch * 2)) * 8) by (nonlinear_arith);
            assert(sr * ch * 16 / 8 == sr * (ch * 2)) by {
                vstd::arithmetic::div_mod::lemma_div_multiples_vanish(sr * (ch * 2), 8);
            }
            assert(ch * 16 / 8 == ch * 2);
        }
        Ok(
            WavHeader {
                file_size,
                num_channels,
                sample_rate,
                byte_rate,
                block_align,
                bits_per_sample,
                data_size,
            },
        )
    }
}

/// Append the little-endian bytes of a 16-bit value.
fn push_le16(out: &mut Vec<u8>, x: u16)
    ensures
        final(out)@ == old(out)@ + le16(x),
{
    out.push((x % 256) as u8);
    out.push((x / 256) as u8);
    assert(final(out)@ =~= old(out)@ + le16(x));
}

/// Append the little-endian bytes of a 32-bit value.
fn push_le32(out: &mut Vec<u8>, x: u32)
    ensures
        final(out)@ == old(out)@ + le32(x),
{
    out.push((x % 256) as u8);
    out.push(((x / 256) % 256) as u8);
    out.push(((x / 65536) % 256) as u8);
    out.push((x / 16777216) as u8);
    assert(final(out)@ =~= old(out)@ + le32(x));
}

/// Append four tag bytes.
fn push_tag(out: &mut Vec<u8>, a: u8, b: u8, c: u8, d: u8)
    ensures
        final(out)@ == old(out)@ + seq![a, b, c, d],
{
    out.push(a);
    out.push(b);
    out.push(c);
    out.push(d);
    assert(final(out)@ =~= old(out)@ + seq![a, b, c, d]);
}

/// Append the little-endian bytes of a signed 16-bit sample.
fn push_i16(out: &mut Vec<u8>, v: i16)
    ensures
        final(out)@ == old(out)@ + le_i16(v),
{
    let bits: u16 = if v < 0 { (v as i32 + 65536) as u16 } else { v as u16 };
    push_le16(out, bits);
}

/// Append the 44-byte RIFF/WAVE header described by `h`.
pub fn write_wav_header(writer: &mut Vec<u8>, h: &WavHeader)
    ensures
        final(writer)@ == old(writer)@ + header_bytes(*h),
{
    push_tag(writer, 0x52, 0x49, 0x46, 0x46);
    push_le32(writer, h.file_size);
    push_tag(writer, 0x57, 0x41, 0x56, 0x45);
    push_tag(writer, 0x66, 0x6d, 0x74, 0x20);
    push_le32(writer, 16);
    push_le16(writer, 1);
    push_le16(writer, h.num_channels);
    push_le32(writer, h.sample_rate);
    push_le32(writer, h.byte_rate);
    push_le16(writer, h.block_align);
    push_le16(writer, h.bits_per_sample);
    push_tag(writer, 0x64, 0x61, 0x74, 0x61);
    push_le32(writer, h.data_size);
    assert(final(writer)@ =~= old(writer)@ + header_bytes(*h));
}

/// Append mono 16-bit PCM samples, each as two little-endian bytes.
pub fn write_pcm16(writer: &mut Vec<u8>, samples: &[i16])
    ensures
        final(writer)@ == old(writer)@ + pcm_bytes(samples@),
{
    let ghost start = writer@;
    let mut i: usize = 0;
    while i < samples.len()
        invariant
            i <= samples@.len(),
            writer@ == start + pcm_bytes(samples@.take(i as int)),
        decreases samples@.len() - i,
    {
        proof {
            assert(samples@.take(i + 1).drop_last() =~= samples@.take(i as int));
        }
        push_i16(writer, samples[i]);
        i = i + 1;
        proof {
            assert(writer@ =~= start + pcm_bytes(samples@.take(i as int)));
        }
    }
    assert(samples@.take(i as int) =~= samples@);
}

/// Append interleaved stereo 16-bit PCM: left then right sample per frame.
pub fn write_pcm16_interleaved(writer: &mut Vec<u8>, left: &[i16], right: &[i16])
    requires
        left@.len() == right@.len(),
    ensures
        final(writer)@ == old(writer)@ + interleaved_bytes(left@, right@),
{
    let ghost start = writer@;
    let mut i: usize = 0;
    while i < left.len()
        invariant
            i <= left@.len(),
            left@.len() == right@.len(),
            writer@ == start + interleaved_bytes(left@.take(i as int), right@.take(i as int)),
        decreases left@.len() - i,
    {
        proof {
            assert(left@.take(i + 1).drop_last() =~= left@.take(i as int));
            assert(right@.take(i + 1).take(i as int) =~= right@.take(i as int));
        }
        push_i16(writer, left[i]);
        push_i16(writer, right[i]);
        i = i + 1;
        proof {
            assert(writer@ =~= start + interleaved_bytes(left@.take(i as int), right@.take(i as int)));
        }
    }
    assert(left@.take(i as int) =~= left@);
    assert(right@.take(i as int) =~= right@);
}

/// A complete mono 16-bit PCM WAV file: the header, then the samples.
/// Fails when the payload does not fit the 32-bit size field.
pub fn encode_wav_mono(pcm: &[i16], sample_rate: u32) -> (r: Result<Vec<u8>, GoonjError>)
    requires
        pcm16_no_overflow(1, sample_rate, pcm@.len()),
    ensures
        r is Ok <==> pcm16_fits(1, pcm@.len()),
        r matches Ok(bytes) ==> bytes@ == header_bytes(pcm16_header(1, sample_rate, pcm@.len()))
            + pcm_bytes(pcm@),
        r matches Err(e) ==> is_too_large_error(e),
{
    let header = match WavHeader::pcm16(1, sample_rate, pcm.len()) {
        Ok(h) => h,
        Err(e) => {
            return Err(e);
        },
    };
    let mut out: Vec<u8> = Vec::new();
    write_wav_header(&mut out, &header);
    write_pcm16(&mut out, pcm);
    assert(out@ =~= header_bytes(header) + pcm_bytes(pcm@));
    Ok(out)
}

/// A complete stereo 16-bit PCM WAV file: the header, then the frames,
/// left sample first. Fails when the channels differ in length, or when
/// the payload does not fit the 32-bit size field.
pub fn encode_wav_stereo(left: &[i16], right: &[i16], sample_rate: u32) -> (r: Result<Vec<u8>, GoonjError>)
    requires
        left@.len() == right@.len() ==> pcm16_no_overflow(2, sample_rate, left@.len()),
    ensures
        r is Ok <==> left@.len() == right@.len() && pcm16_fits(2, left@.len()),
        r matches Ok(bytes) ==> bytes@ == header_bytes(pcm16_header(2, sample_rate, left@.len()))
            + interleaved_bytes(left@, right@),
        r matches Err(e) ==> if left@.len() != right@.len() {
            is_unequal_channels_error(e)
        } else {
            is_too_large_error(e)
        },
{
    if left.len() != right.len() {
        return Err(
            GoonjError::ComputationError(
                String::from_str("left and right channels must have equal length"),
            ),
        );
    }
    let header = match WavHeader::pcm16(2, sample_rate, left.len()) {
        Ok(h) => h,
        Err(e) => {
            return Err(e);
        },
    };
    let mut out: Vec<u8> = Vec::new();
    write_wav_header(&mut out, &header);
    write_pcm16_interleaved(&mut out, left, right);
    assert(out@ =~= header_bytes(header) + interleaved_bytes(left@, right@));
    Ok(out)
}

/// The 16-bit little-endian value stored at byte offset `o`.
pub open spec fn read_le16(b: Seq<u8>, o: int) -> int {
    b[o] + 256 * b[o + 1]
}

/// The 32-bit little-endian value stored at byte offset `o`.
pub open spec fn read_le32(b: Seq<u8>, o: int) -> int {
    b[o] + 256 * b[o + 1] + 65536 * b[o + 2] + 16777216 * b[o + 3]
}

/// The signed 16-bit little-endian sample stored at byte offset `o`.
pub open spec fn read_i16(b: Seq<u8>, o: int) -> int {
    let u = read_le16(b, o);
    if u >= 32768 {
        u - 65536
    } else {
        u
    }
}

proof fn lemma_le16_value(x: u16)
    ensures
        le16(x).len() == 2,
        read_le16(le16(x), 0) == x,
{
    assert((x % 256) as u8 == x % 256);
    assert((x / 256) as u8 == x / 256);
}

proof fn lemma_le32_value(x: u32)
    ensures
        le32(x).len() == 4,
        read_le32(le32(x), 0) == x,
{
    let b = le32(x);
    assert(b[0] == x % 256);
    assert(b[1] == (x / 256) % 256);
    assert(b[2] == (x / 65536) % 256);
    assert(b[3] == x / 16777216);
    assert((x % 256) + 256 * ((x / 256) % 256) + 65536 * ((x / 65536) % 256) + 16777216 * (x / 16777216) == x)
        by (bit_vector);
}

proof fn lemma_le_i16_value(v: i16)
    ensures
        le_i16(v).len() == 2,
        read_i16(le_i16(v), 0) == v,
{
    lemma_le16_value(i16_bits(v));
}

/// Reading a value back from a concatenation reads it from the part it lies in.
proof fn lemma_read_in_suffix(a: Seq<u8>, b: Seq<u8>, o: int, w: int)
    requires
        0 <= o,
        o + w <= b.len(),
        w == 2 || w == 4,
    ensures
        w == 2 ==> read_le16(a + b, a.len() + o) == read_le16(b, o),
        w == 2 ==> read_i16(a + b, a.len() + o) == read_i16(b, o),
        w == 4 ==> read_le32(a + b, a.len() + o) == read_le32(b, o),
{
}

/// Reading from the front part of a concatenation ignores what follows.
proof fn lemma_read_in_prefix(a: Seq<u8>, b: Seq<u8>, o: int, w: int)
    requires
        0 <= o,
        o + w <= a.len(),
        w == 2 || w == 4,
    ensures
        w == 2 ==> read_le16(a + b, o) == read_le16(a, o),
        w == 2 ==> read_i16(a + b, o) == read_i16(a, o),
        w == 4 ==> read_le32(a + b, o) == read_le32(a, o),
{
}

/// The header is 44 bytes, and reading each field back at its offset
/// gives the value that was written.
pub proof fn lemma_header_layout(h: WavHeader)
    ensures
        header_bytes(h).len() == WAV_HEADER_LEN,
        header_bytes(h).subrange(0, 4) == tag_riff(),
        read_le32(header_bytes(h), 4) == h.file_size,
        header_bytes(h).subrange(8, 12) == tag_wave(),
        header_bytes(h).subrange(12, 16) == tag_fmt(),
        read_le32(header_bytes(h), 16) == 16,
        read_le16(header_bytes(h), 20) == 1,
        read_le16(header_bytes(h), 22) == h.num_channels,
        read_le32(header_bytes(h), 24) == h.sample_rate,
        read_le32(header_bytes(h), 28) == h.byte_rate,
        read_le16(header_bytes(h), 32) == h.block_align,
        read_le16(header_bytes(h), 34) == h.bits_per_sample,
        header_bytes(h).subrange(36, 40) == tag_data(),
        read_le32(header_bytes(h), 40) == h.data_size,
{
    let hb = header_bytes(h);
    lemma_le32_value(h.file_size);
    lemma_le32_value(16);
    lemma_le16_value(1);
    lemma_le16_value(h.num_channels);
    lemma_le32_value(h.sample_rate);
    lemma_le32_value(h.byte_rate);
    lemma_le16_value(h.block_align);
    lemma_le16_value(h.bits_per_sample);
    lemma_le32_value(h.data_size);
    assert(hb.len() == 44);
    assert(hb.subrange(0, 4) =~= tag_riff());
    assert(hb.subrange(8, 12) =~= tag_wave());
    assert(hb.subrange(12, 16) =~= tag_fmt());
    assert(hb.subrange(36, 40) =~= tag_data());
    assert(hb[4] == le32(h.file_size)[0] && hb[5] == le32(h.file_size)[1] && hb[6] == le32(h.file_size)[2] && hb[7] == le32(h.file_size)[3]);
    assert(hb[16] == le32(16)[0] && hb[17] == le32(16)[1] && hb[18] == le32(16)[2] && hb[19] == le32(16)[3]);
    assert(hb[20] == le16(1)[0] && hb[21] == le16(1)[1]);
    assert(hb[22] == le16(h.num_channels)[0] && hb[23] == le16(h.num_channels)[1]);
    assert(hb[24] == le32(h.sample_rate)[0] && hb[25] == le32(h.sample_rate)[1] && hb[26] == le32(h.sample_rate)[2] && hb[27] == le32(h.sample_rate)[3]);
    assert(hb[28] == le32(h.byte_rate)[0] && hb[29] == le32(h.byte_rate)[1] && hb[30] == le32(h.byte_rate)[2] && hb[31] == le32(h.byte_rate)[3]);
    assert(hb[32] == le16(h.block_align)[0] && hb[33] == le16(h.block_align)[1]);
    assert(hb[34] == le16(h.bits_per_sample)[0] && hb[35] == le16(h.bits_per_sample)[1]);
    assert(hb[40] == le32(h.data_size)[0] && hb[41] == le32(h.data_size)[1] && hb[42] == le32(h.data_size)[2] && hb[43] == le32(h.data_size)[3]);
}

/// The mono payload is two bytes per sample, and the sample at index `k`
/// reads back from byte offset `2k`.
pub proof fn lemma_pcm_roundtrip(s: Seq<i16>, k: int)
    requires
        0 <= k < s.len(),
    ensures
        pcm_bytes(s).len() == 2 * s.len(),
        read_i16(pcm_bytes(s), 2 * k) == s[k],
    decreases s.len(),
{
    lemma_pcm_len(s);
    let front = s.drop_last();
    lemma_pcm_len(front);
    lemma_le_i16_value(s.last());
    if k == s.len() - 1 {
        lemma_read_in_suffix(pcm_bytes(front), le_i16(s.last()), 0, 2);
    } else {
        lemma_pcm_roundtrip(front, k);
        lemma_read_in_prefix(pcm_bytes(front), le_i16(s.last()), 2 * k, 2);
    }
}

/// The mono payload has two bytes per sample.
pub proof fn lemma_pcm_len(s: Seq<i16>)
    ensures
        pcm_bytes(s).len() == 2 * s.len(),
    decreases s.len(),
{
    if s.len() > 0 {
        lemma_pcm_len(s.drop_last());
    }
}

/// The stereo payload has four bytes per frame.
pub proof fn lemma_interleaved_len(l: Seq<i16>, r: Seq<i16>)
    requires
        l.len() == r.len(),
    ensures
        interleaved_bytes(l, r).len() == 4 * l.len(),
    decreases l.len(),
{
    if l.len() > 0 {
        lemma_interleaved_len(l.drop_last(), r.take(l.len() - 1));
    }
}

/// In the stereo payload, frame `k` holds the left sample at byte offset
/// `4k` and the right sample at `4k + 2`.
pub proof fn lemma_interleaved_roundtrip(l: Seq<i16>, r: Seq<i16>, k: int)
    requires
        l.len() == r.len(),
        0 <= k < l.len(),
    ensures
        interleaved_bytes(l, r).len() == 4 * l.len(),
        read_i16(interleaved_bytes(l, r), 4 * k) == l[k],
        read_i16(interleaved_bytes(l, r), 4 * k + 2) == r[k],
    decreases l.len(),
{
    lemma_interleaved_len(l, r);
    let n = l.len();
    let lf = l.drop_last();
    let rf = r.take(n - 1);
    lemma_interleaved_len(lf, rf);
    let front = interleaved_bytes(lf, rf);
    let a = le_i16(l.last());
    let b = le_i16(r[n - 1]);
    lemma_le_i16_value(l.last());
    lemma_le_i16_value(r[n - 1]);
    assert(interleaved_bytes(l, r) == front + a + b);
    if k == n - 1 {
        lemma_read_in_suffix(front, a, 0, 2);
        lemma_read_in_prefix(front + a, b, 4 * k, 2);
        lemma_read_in_suffix(front + a, b, 0, 2);
        assert(front + a + b == (front + a) + b);
        assert((front + a).len() == 4 * k + 2);
    } else {
        lemma_interleaved_roundtrip(lf, rf, k);
        lemma_read_in_prefix(front, a, 4 * k, 2);
        lemma_read_in_prefix(front + a, b, 4 * k, 2);
        lemma_read_in_prefix(front, a, 4 * k + 2, 2);
        lemma_read_in_prefix(front + a, b, 4 * k + 2, 2);
    }
}

/// A mono WAV file is the 44-byte header followed by two bytes per sample,
/// and sample `k` reads back from byte offset `44 + 2k`.
pub proof fn lemma_mono_file_roundtrip(h: WavHeader, s: Seq<i16>, k: int)
    requires
        0 <= k < s.len(),
    ensures
        (header_bytes(h) + pcm_bytes(s)).len() == WAV_HEADER_LEN + 2 * s.len(),
        read_i16(header_bytes(h) + pcm_bytes(s), WAV_HEADER_LEN + 2 * k) == s[k],
{
    lemma_header_layout(h);
    lemma_pcm_roundtrip(s, k);
    lemma_read_in_suffix(header_bytes(h), pcm_bytes(s), 2 * k, 2);
}

/// A stereo WAV file is the 44-byte header followed by four bytes per
/// frame; frame `k` reads back from byte offsets `44 + 4k` (left) and
/// `46 + 4k` (right).
pub proof fn lemma_stereo_file_roundtrip(h: WavHeader, l: Seq<i16>, r: Seq<i16>, k: int)
    requires
        l.len() == r.len(),
        0 <= k < l.len(),
    ensures
        (header_bytes(h) + interleaved_bytes(l, r)).len() == WAV_HEADER_LEN + 4 * l.len(),
        read_i16(header_bytes(h) + interleaved_bytes(l, r), WAV_HEADER_LEN + 4 * k) == l[k],
        read_i16(header_bytes(h) + interleaved_bytes(l, r), WAV_HEADER_LEN + 4 * k + 2) == r[k],
{
    lemma_header_layout(h);
    lemma_interleaved_roundtrip(l, r, k);
    lemma_read_in_suffix(header_bytes(h), interleaved_bytes(l, r), 4 * k, 2);
    lemma_read_in_suffix(header_bytes(h), interleaved_bytes(l, r), 4 * k + 2, 2);
}

} // verus!
