//! Recordings as WAV files.

use vstd::prelude::*;

use crate::error::Error;
#[allow(unused_imports)]
use crate::error::ErrorView;

verus! {

/// A finished recording: interleaved samples, frames per second, and samples per frame.
pub struct Recording {
    pub samples: Vec<i16>,
    pub sample_rate: u32,
    pub channels: u16,
}

/// The low two bytes of `n`, least significant first.
pub open spec fn le16(n: int) -> Seq<u8> {
    seq![(n % 256) as u8, (n / 256 % 256) as u8]
}

/// The low four bytes of `n`, least significant first.
pub open spec fn le32(n: int) -> Seq<u8> {
    seq![
        (n % 256) as u8,
        (n / 256 % 256) as u8,
        (n / 65536 % 256) as u8,
        (n / 16777216 % 256) as u8,
    ]
}

/// A four-letter chunk name.
pub open spec fn tag(a: char, b: char, c: char, d: char) -> Seq<u8> {
    seq![a as u8, b as u8, c as u8, d as u8]
}

/// The samples, two bytes each, in two's complement.
pub open spec fn sample_bytes(samples: Seq<i16>) -> Seq<u8>
    decreases samples.len(),
{
    if samples.len() == 0 {
        Seq::empty()
    } else {
        sample_bytes(samples.drop_last()) + le16(samples.last() as int)
    }
}

/// The header of a file with `count` samples: one `fmt ` chunk for 16-bit PCM, then the start of
/// the `data` chunk. A size that does not fit its four bytes is cut to its low four bytes.
pub open spec fn wav_header(count: int, sample_rate: int, channels: int) -> Seq<u8> {
    tag('R', 'I', 'F', 'F') + le32(36 + 2 * count) + tag('W', 'A', 'V', 'E') + tag(
        'f',
        'm',
        't',
        ' ',
    ) + le32(16) + le16(1) + le16(channels) + le32(sample_rate) + le32(sample_rate * channels * 2)
        + le16(channels * 2) + le16(16) + tag('d', 'a', 't', 'a') + le32(2 * count)
}

/// The WAV file that holds the given samples.
pub open spec fn wav_file(samples: Seq<i16>, sample_rate: u32, channels: u16) -> Seq<u8> {
    wav_header(samples.len() as int, sample_rate as int, channels as int) + sample_bytes(samples)
}

/// Whether the byte rate and the frame size fit their fields.
pub open spec fn rates_fit(sample_rate: u32, channels: u16) -> bool {
    &&& sample_rate * channels * 2 <= u32::MAX
    &&& channels * 2 <= u16::MAX
}

/// Whether the byte rate and the frame size of a format fit their fields.
pub fn format_fits(sample_rate: u32, channels: u16) -> (yes: bool)
    ensures
        yes == rates_fit(sample_rate, channels),
{
    if channels > u16::MAX / 2 {
        return false;
    }
    match sample_rate.checked_mul(channels as u32) {
        Some(frames) => frames <= u32::MAX / 2,
        None => {
            assert(sample_rate * channels * 2 > u32::MAX);
            false
        },
    }
}

fn put16(out: &mut Vec<u8>, n: u16)
    ensures
        final(out)@ == old(out)@ + le16(n as int),
{
    out.push((n % 256) as u8);
    out.push((n / 256) as u8);
}

fn put32(out: &mut Vec<u8>, n: u64)
    ensures
        final(out)@ == old(out)@ + le32(n as int),
{
    out.push((n % 256) as u8);
    out.push((n / 256 % 256) as u8);
    out.push((n / 65536 % 256) as u8);
    out.push((n / 16777216 % 256) as u8);
}

fn put_tag(out: &mut Vec<u8>, a: char, b: char, c: char, d: char)
    ensures
        final(out)@ == old(out)@ + tag(a, b, c, d),
{
    out.push(a as u8);
    out.push(b as u8);
    out.push(c as u8);
    out.push(d as u8);
}

fn put_sample(out: &mut Vec<u8>, sample: i16)
    ensures
        final(out)@ == old(out)@ + le16(sample as int),
{
    let n: u16 = if sample >= 0 {
        sample as u16
    } else {
        (sample as i32 + 65536) as u16
    };
    assert(le16(n as int) == le16(sample as int));
    put16(out, n);
}

/// Encodes samples as a WAV file of 16-bit PCM.
pub fn wav_bytes(samples: &[i16], sample_rate: u32, channels: u16) -> (wav: Result<Vec<u8>, Error>)
    requires
        rates_fit(sample_rate, channels),
    ensures
        match wav {
            Ok(bytes) => 36 + 2 * samples@.len() <= usize::MAX && bytes@ == wav_file(
                samples@,
                sample_rate,
                channels,
            ),
            Err(e) => 36 + 2 * samples@.len() > usize::MAX && e@ == ErrorView::RecordingTooLarge,
        },
{
    let data_len: usize = match samples.len().checked_mul(2) {
        Some(n) => n,
        None => return Err(Error::RecordingTooLarge),
    };
    let riff_len: usize = match data_len.checked_add(36) {
        Some(n) => n,
        None => return Err(Error::RecordingTooLarge),
    };
    assert(sample_rate * channels <= u32::MAX) by (nonlinear_arith)
        requires
            sample_rate * channels * 2 <= u32::MAX,
            sample_rate * channels >= 0,
    ;
    let byte_rate: u32 = sample_rate * (channels as u32) * 2;
    let block_align: u16 = channels * 2;

    let mut wav: Vec<u8> = Vec::new();
    put_tag(&mut wav, 'R', 'I', 'F', 'F');
    put32(&mut wav, riff_len as u64);
    put_tag(&mut wav, 'W', 'A', 'V', 'E');
    put_tag(&mut wav, 'f', 'm', 't', ' ');
    put32(&mut wav, 16);
    put16(&mut wav, 1);
    put16(&mut wav, channels);
    put32(&mut wav, sample_rate as u64);
    put32(&mut wav, byte_rate as u64);
    put16(&mut wav, block_align);
    put16(&mut wav, 16);
    put_tag(&mut wav, 'd', 'a', 't', 'a');
    put32(&mut wav, data_len as u64);
    let ghost header: Seq<u8> = wav_header(
        samples@.len() as int,
        sample_rate as int,
        channels as int,
    );
    assert(wav@ == header);
    let mut i: usize = 0;
    assert(samples@.take(0) == Seq::<i16>::empty());
    while i < samples.len()
        invariant
            i <= samples.len(),
            wav@ == header + sample_bytes(samples@.take(i as int)),
        decreases samples.len() - i,
    {
        put_sample(&mut wav, samples[i]);
        i += 1;
        assert(samples@.take(i as int).drop_last() == samples@.take(i - 1));
    }
    assert(samples@.take(i as int) == samples@);
    Ok(wav)
}

/// The number in two bytes, least significant first.
pub open spec fn read16(bytes: Seq<u8>, at: int) -> int {
    bytes[at] + 256 * bytes[at + 1]
}

/// The number in four bytes, least significant first.
pub open spec fn read32(bytes: Seq<u8>, at: int) -> int {
    bytes[at] + 256 * bytes[at + 1] + 65536 * bytes[at + 2] + 16777216 * bytes[at + 3]
}

/// The number in two bytes of two's complement, least significant first.
pub open spec fn read_signed16(bytes: Seq<u8>, at: int) -> int {
    let n = read16(bytes, at);
    if n < 32768 {
        n
    } else {
        n - 65536
    }
}

proof fn lemma_sample_bytes(samples: Seq<i16>)
    ensures
        sample_bytes(samples).len() == 2 * samples.len(),
        forall|i: int|
            0 <= i < samples.len() ==> #[trigger] read_signed16(sample_bytes(samples), 2 * i)
                == samples[i],
    decreases samples.len(),
{
    if samples.len() > 0 {
        let front = samples.drop_last();
        let last = samples.last() as int;
        lemma_sample_bytes(front);
        let bytes = sample_bytes(samples);
        assert forall|i: int| 0 <= i < samples.len() implies #[trigger] read_signed16(bytes, 2 * i)
            == samples[i] by {
            if i < front.len() {
                assert(bytes[2 * i] == sample_bytes(front)[2 * i]);
                assert(bytes[2 * i + 1] == sample_bytes(front)[2 * i + 1]);
                assert(read_signed16(sample_bytes(front), 2 * i) == front[i]);
            } else {
                assert(bytes[2 * i] == le16(last)[0]);
                assert(bytes[2 * i + 1] == le16(last)[1]);
            }
        }
    }
}

/// A file is its 44-byte header and two bytes for each sample.
pub proof fn law_wav_length(samples: Seq<i16>, sample_rate: u32, channels: u16)
    ensures
        wav_file(samples, sample_rate, channels).len() == 44 + 2 * samples.len(),
{
    lemma_sample_bytes(samples);
}

/// A number that fits is read back from its two bytes.
proof fn lemma_read16(bytes: Seq<u8>, at: int, n: int)
    requires
        0 <= at,
        at + 2 <= bytes.len(),
        bytes.subrange(at, at + 2) == le16(n),
        0 <= n <= u16::MAX,
    ensures
        read16(bytes, at) == n,
{
    let part = bytes.subrange(at, at + 2);
    assert(part[0] == bytes[at]);
    assert(part[1] == bytes[at + 1]);
}

/// A number that fits is read back from its four bytes.
proof fn lemma_read32(bytes: Seq<u8>, at: int, n: int)
    requires
        0 <= at,
        at + 4 <= bytes.len(),
        bytes.subrange(at, at + 4) == le32(n),
        0 <= n <= u32::MAX,
    ensures
        read32(bytes, at) == n,
{
    let part = bytes.subrange(at, at + 4);
    assert(part[0] == bytes[at]);
    assert(part[1] == bytes[at + 1]);
    assert(part[2] == bytes[at + 2]);
    assert(part[3] == bytes[at + 3]);
    assert(n / 65536 == n / 256 / 256);
    assert(n / 16777216 == n / 65536 / 256);
}

/// Where the numbers of the header stand.
proof fn lemma_header_fields(samples: Seq<i16>, sample_rate: u32, channels: u16)
    ensures
        ({
            let file = wav_file(samples, sample_rate, channels);
            &&& file.len() >= 44
            &&& file.subrange(4, 8) == le32(36 + 2 * samples.len() as int)
            &&& file.subrange(20, 22) == le16(1)
            &&& file.subrange(22, 24) == le16(channels as int)
            &&& file.subrange(24, 28) == le32(sample_rate as int)
            &&& file.subrange(28, 32) == le32(sample_rate * channels * 2)
            &&& file.subrange(32, 34) == le16(channels * 2)
            &&& file.subrange(34, 36) == le16(16)
            &&& file.subrange(40, 44) == le32(2 * samples.len() as int)
        }),
{
    let file = wav_file(samples, sample_rate, channels);
    assert(file.subrange(4, 8) == le32(36 + 2 * samples.len() as int));
    assert(file.subrange(20, 22) == le16(1));
    assert(file.subrange(22, 24) == le16(channels as int));
    assert(file.subrange(24, 28) == le32(sample_rate as int));
    assert(file.subrange(28, 32) == le32(sample_rate * channels * 2));
    assert(file.subrange(32, 34) == le16(channels * 2));
    assert(file.subrange(34, 36) == le16(16));
    assert(file.subrange(40, 44) == le32(2 * samples.len() as int));
}

/// The sizes in the header are those of the file: the RIFF size counts what follows it, and the
/// data size counts the sample bytes. A file of four gibibytes or more has no room for them.
pub proof fn law_wav_sizes(samples: Seq<i16>, sample_rate: u32, channels: u16)
    requires
        36 + 2 * samples.len() <= u32::MAX,
    ensures
        read32(wav_file(samples, sample_rate, channels), 4) == wav_file(
            samples,
            sample_rate,
            channels,
        ).len() - 8,
        read32(wav_file(samples, sample_rate, channels), 40) == 2 * samples.len(),
{
    law_wav_length(samples, sample_rate, channels);
    lemma_header_fields(samples, sample_rate, channels);
    let file = wav_file(samples, sample_rate, channels);
    lemma_read32(file, 4, 36 + 2 * samples.len() as int);
    lemma_read32(file, 40, 2 * samples.len() as int);
}

/// The format that was recorded can be read back from the file: 16-bit PCM with the given
/// channels and rate.
pub proof fn law_wav_format_reads_back(samples: Seq<i16>, sample_rate: u32, channels: u16)
    requires
        rates_fit(sample_rate, channels),
    ensures
        read16(wav_file(samples, sample_rate, channels), 20) == 1,
        read16(wav_file(samples, sample_rate, channels), 22) == channels,
        read32(wav_file(samples, sample_rate, channels), 24) == sample_rate,
        read32(wav_file(samples, sample_rate, channels), 28) == sample_rate * channels * 2,
        read16(wav_file(samples, sample_rate, channels), 32) == channels * 2,
        read16(wav_file(samples, sample_rate, channels), 34) == 16,
{
    assert(sample_rate * channels * 2 >= 0) by (nonlinear_arith)
        requires
            sample_rate >= 0,
            channels >= 0,
    ;
    lemma_header_fields(samples, sample_rate, channels);
    let file = wav_file(samples, sample_rate, channels);
    lemma_read16(file, 20, 1);
    lemma_read16(file, 22, channels as int);
    lemma_read32(file, 24, sample_rate as int);
    lemma_read32(file, 28, sample_rate * channels * 2);
    lemma_read16(file, 32, channels * 2);
    lemma_read16(file, 34, 16);
}

/// Every sample that was recorded can be read back from the file, in order.
pub proof fn law_wav_samples_read_back(samples: Seq<i16>, sample_rate: u32, channels: u16, i: int)
    requires
        0 <= i < samples.len(),
    ensures
        read_signed16(wav_file(samples, sample_rate, channels), 44 + 2 * i) == samples[i],
{
    lemma_sample_bytes(samples);
    let file = wav_file(samples, sample_rate, channels);
    assert(read_signed16(sample_bytes(samples), 2 * i) == samples[i]);
    assert(file[44 + 2 * i] == sample_bytes(samples)[2 * i]);
    assert(file[44 + 2 * i + 1] == sample_bytes(samples)[2 * i + 1]);
}

/// The chunk names stand at their places, and the format chunk has sixteen bytes.
#[verifier::rlimit(60)]
pub proof fn law_chunks_of_a_file(samples: Seq<i16>, sample_rate: u32, channels: u16)
    ensures
        ({
            let f = wav_file(samples, sample_rate, channels);
            &&& f.subrange(0, 4) == seq!['R' as u8, 'I' as u8, 'F' as u8, 'F' as u8]
            &&& f.subrange(8, 12) == seq!['W' as u8, 'A' as u8, 'V' as u8, 'E' as u8]
            &&& f.subrange(12, 16) == seq!['f' as u8, 'm' as u8, 't' as u8, ' ' as u8]
            &&& f.subrange(16, 20) == seq![16u8, 0u8, 0u8, 0u8]
            &&& f.subrange(36, 40) == seq!['d' as u8, 'a' as u8, 't' as u8, 'a' as u8]
        }),
{
    let f = wav_file(samples, sample_rate, channels);
    assert(le32(16) == seq![16u8, 0u8, 0u8, 0u8]);
    assert(f.subrange(0, 4) == seq!['R' as u8, 'I' as u8, 'F' as u8, 'F' as u8]);
    assert(f.subrange(8, 12) == seq!['W' as u8, 'A' as u8, 'V' as u8, 'E' as u8]);
    assert(f.subrange(12, 16) == seq!['f' as u8, 'm' as u8, 't' as u8, ' ' as u8]);
    assert(f.subrange(16, 20) == seq![16u8, 0u8, 0u8, 0u8]);
    assert(f.subrange(36, 40) == seq!['d' as u8, 'a' as u8, 't' as u8, 'a' as u8]);
}

/// The numbers in a file stand with their low bytes first: the format is that of 16-bit PCM with
/// the given channels and rate, and the sizes are those of the file, as far as they fit.
pub proof fn law_bytes_of_a_file(samples: Seq<i16>, sample_rate: u32, channels: u16)
    requires
        rates_fit(sample_rate, channels),
    ensures
        ({
            let f = wav_file(samples, sample_rate, channels);
            &&& f.len() == 44 + 2 * samples.len()
            &&& f[20] + 256 * f[21] == 1
            &&& f[22] + 256 * f[23] == channels
            &&& f[24] + 256 * f[25] + 65536 * f[26] + 16777216 * f[27] == sample_rate
            &&& f[28] + 256 * f[29] + 65536 * f[30] + 16777216 * f[31] == sample_rate * channels * 2
            &&& f[32] + 256 * f[33] == channels * 2
            &&& f[34] + 256 * f[35] == 16
            &&& 36 + 2 * samples.len() <= u32::MAX ==> {
                &&& f[4] + 256 * f[5] + 65536 * f[6] + 16777216 * f[7] == 36 + 2 * samples.len()
                &&& f[40] + 256 * f[41] + 65536 * f[42] + 16777216 * f[43] == 2 * samples.len()
            }
        }),
{
    law_wav_length(samples, sample_rate, channels);
    law_wav_format_reads_back(samples, sample_rate, channels);
    if 36 + 2 * samples.len() <= u32::MAX {
        law_wav_sizes(samples, sample_rate, channels);
    }
}

/// The two bytes of a sample hold it in two's complement, the low one first.
pub proof fn law_bytes_of_a_sample(samples: Seq<i16>, sample_rate: u32, channels: u16, i: int)
    requires
        0 <= i < samples.len(),
    ensures
        ({
            let f = wav_file(samples, sample_rate, channels);
            let n = f[44 + 2 * i] + 256 * f[45 + 2 * i];
            n == samples[i] || n == samples[i] + 65536
        }),
{
    law_wav_samples_read_back(samples, sample_rate, channels, i);
}

} // verus!
