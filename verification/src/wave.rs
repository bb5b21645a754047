//! Wave files of 16-bit samples.

use vstd::prelude::*;

verus! {

/// `std::io::Error`, whose inside stays hidden.
#[verifier::external_type_specification]
#[verifier::external_body]
pub struct ExIoError(std::io::Error);

/// A number in two bytes, the low one first.
pub open spec fn le16(x: int) -> Seq<u8> {
    seq![(x % 256) as u8, (x / 256 % 256) as u8]
}

/// A number in four bytes, the lowest one first.
pub open spec fn le32(x: int) -> Seq<u8> {
    le16(x % 65536) + le16(x / 65536)
}

/// Samples in two bytes each, in two's complement with the low byte first.
pub open spec fn sample_bytes(samples: Seq<i16>) -> Seq<u8> {
    Seq::new(2 * samples.len(), |i: int| le16(samples[i / 2] as int % 65536)[i % 2])
}

/// What stands before the samples of a wave file: the outer chunk with its length,
/// the format chunk, and the head of the data chunk with its length.
pub open spec fn wave_head(format: u16, channels: u16, rate: u32, bits: u16, len: nat) -> Seq<u8> {
    let frame = (bits / 8) * channels;
    seq![0x52u8, 0x49, 0x46, 0x46] + le32(36 + 2 * len as int) + seq![0x57u8, 0x41, 0x56, 0x45]
        + seq![0x66u8, 0x6d, 0x74, 0x20] + le32(16) + le16(format as int) + le16(channels as int)
        + le32(rate as int) + le32(frame * rate) + le16(frame) + le16(bits as int)
        + seq![0x64u8, 0x61, 0x74, 0x61] + le32(2 * len as int)
}

/// A wave file of 16-bit samples.
pub open spec fn wave_file(format: u16, channels: u16, rate: u32, bits: u16, samples: Seq<i16>) -> Seq<u8> {
    wave_head(format, channels, rate, bits, samples.len()) + sample_bytes(samples)
}

/// Whether the lengths in a wave file can count that many samples.
pub open spec fn fits_wave(len: nat) -> bool {
    36 + 2 * len <= u32::MAX
}

/// Lengths of which it is certain whether they fit: so near to the limit that only
/// the sum of the chunks' lengths overflows, nothing is promised.
pub open spec fn countable(len: nat) -> bool {
    2 * len <= u32::MAX - 8 || 2 * len > u32::MAX
}

/// `wav::write` of 16-bit samples to memory, under a header from
/// `wav::Header::new`: it writes the bytes of a wave file with that header, and
/// fails exactly if the lengths in the file cannot count the samples. Header fields
/// that overflow, and lengths at which `riff` overflows while it sums up, are left
/// out.
#[allow(deprecated)]
#[verifier::external_body]
pub(crate) fn write_wave(
    format: u16,
    channels: u16,
    rate: u32,
    bits: u16,
    samples: Vec<i16>,
) -> (r: Result<Vec<u8>, std::io::Error>)
    requires
        (bits / 8) * channels <= u16::MAX,
        (bits / 8) * channels * rate <= u32::MAX,
        countable(samples@.len()),
    ensures
        r is Ok == fits_wave(samples@.len()),
        r matches Ok(bytes) ==> bytes@ == wave_file(format, channels, rate, bits, samples@),
{
    let mut file = std::io::Cursor::new(Vec::new());
    wav::write(
        wav::Header::new(format, channels, rate, bits),
        &wav::BitDepth::Sixteen(samples),
        &mut file,
    )?;
    Ok(file.into_inner())
}

/// Reading two bytes back gives the sample that was written.
pub proof fn samples_read_back(samples: Seq<i16>, i: int)
    requires
        0 <= i < samples.len(),
    ensures
        ({
            let low = sample_bytes(samples)[2 * i] as int;
            let high = sample_bytes(samples)[2 * i + 1] as int;
            let word = low + 256 * high;
            samples[i] == if word < 32768 {
                word
            } else {
                word - 65536
            }
        }),
{
    assert((2 * i) / 2 == i && (2 * i) % 2 == 0);
    assert((2 * i + 1) / 2 == i && (2 * i + 1) % 2 == 1);
    let x = samples[i] as int % 65536;
    assert(le16(x)[0] == (x % 256) as u8);
    assert(le16(x)[1] == (x / 256 % 256) as u8);
}

/// Reading four bytes back gives the number that was written.
pub proof fn numbers_read_back(x: int)
    requires
        0 <= x < 0x1_0000_0000,
    ensures
        le32(x).len() == 4,
        le32(x)[0] + 256 * le32(x)[1] + 65536 * le32(x)[2] + 16777216 * le32(x)[3] == x,
        le16(x).len() == 2,
        x < 65536 ==> le16(x)[0] + 256 * le16(x)[1] == x,
{
    let (low, high) = (x % 65536, x / 65536);
    assert(le32(x) =~= seq![le16(low)[0], le16(low)[1], le16(high)[0], le16(high)[1]]);
}

/// Where the parts of the head of a wave file lie.
pub proof fn heads_are_laid_out(format: u16, channels: u16, rate: u32, bits: u16, len: nat)
    ensures
        ({
            let head = wave_head(format, channels, rate, bits, len);
            let frame = (bits / 8) * channels;
            &&& head.len() == 44
            &&& head.subrange(0, 4) == seq![0x52u8, 0x49, 0x46, 0x46]
            &&& head.subrange(4, 8) == le32(36 + 2 * len as int)
            &&& head.subrange(8, 16) == seq![0x57u8, 0x41, 0x56, 0x45, 0x66, 0x6d, 0x74, 0x20]
            &&& head.subrange(16, 20) == le32(16)
            &&& head.subrange(20, 22) == le16(format as int)
            &&& head.subrange(22, 24) == le16(channels as int)
            &&& head.subrange(24, 28) == le32(rate as int)
            &&& head.subrange(28, 32) == le32(frame * rate)
            &&& head.subrange(32, 34) == le16(frame)
            &&& head.subrange(34, 36) == le16(bits as int)
            &&& head.subrange(36, 40) == seq![0x64u8, 0x61, 0x74, 0x61]
            &&& head.subrange(40, 44) == le32(2 * len as int)
        }),
{
    let head = wave_head(format, channels, rate, bits, len);
    let frame = (bits / 8) * channels;
    assert(head.subrange(0, 4) =~= seq![0x52u8, 0x49, 0x46, 0x46]);
    assert(head.subrange(4, 8) =~= le32(36 + 2 * len as int));
    assert(head.subrange(8, 16) =~= seq![0x57u8, 0x41, 0x56, 0x45, 0x66, 0x6d, 0x74, 0x20]);
    assert(head.subrange(16, 20) =~= le32(16));
    assert(head.subrange(20, 22) =~= le16(format as int));
    assert(head.subrange(22, 24) =~= le16(channels as int));
    assert(head.subrange(24, 28) =~= le32(rate as int));
    assert(head.subrange(28, 32) =~= le32(frame * rate));
    assert(head.subrange(32, 34) =~= le16(frame));
    assert(head.subrange(34, 36) =~= le16(bits as int));
    assert(head.subrange(36, 40) =~= seq![0x64u8, 0x61, 0x74, 0x61]);
    assert(head.subrange(40, 44) =~= le32(2 * len as int));
}

} // verus!
