//! The five-byte frame that the sensor transmits, and the reading it encodes.
//!
//! Bytes 0 and 1 hold the relative humidity, bytes 2 and 3 the temperature,
//! both big-endian and in tenths of their unit; the top bit of byte 2 is the
//! sign of the temperature. Byte 4 is the sum of the other four, modulo 256.

use vstd::prelude::*;

verus! {

/// Number of bytes in a frame.
pub const FRAME_BYTES: usize = 5;

/// A frame as it came off the line, not yet checked.
pub type RawFrame = [u8; FRAME_BYTES];

/// A reading, in tenths of the physical units.
#[derive(Clone, Copy, Debug, PartialEq, Eq, Structural)]
pub struct DhtData {
    /// Relative humidity in tenths of a percent.
    pub humidity: u16,
    /// Temperature in tenths of a degree Celsius.
    pub temperature: i16,
}

/// How one read cycle ended.
#[derive(Clone, Copy, Debug, PartialEq, Eq, Structural)]
pub enum DhtResult {
    /// A frame arrived and its checksum held.
    Data(DhtData),
    /// The line kept one level for longer than the engine waits.
    Timeout,
    /// A frame arrived but its checksum byte does not match its payload.
    ChecksumError,
}

/// The checksum that belongs to the payload of `frame`: the sum of its first
/// four bytes, modulo 256.
pub open spec fn spec_checksum(frame: Seq<u8>) -> int {
    (frame[0] + frame[1] + frame[2] + frame[3]) % 256
}

/// Whether the last byte of `frame` is the checksum of its payload.
pub open spec fn spec_checksum_ok(frame: Seq<u8>) -> bool {
    frame[4] == spec_checksum(frame)
}

/// Relative humidity in tenths of a percent: bytes 0 and 1, big-endian.
pub open spec fn spec_humidity(frame: Seq<u8>) -> int {
    frame[0] * 256 + frame[1]
}

/// Temperature in tenths of a degree: the low 15 bits of bytes 2 and 3 are
/// the magnitude, the top bit of byte 2 makes it negative.
pub open spec fn spec_temperature(frame: Seq<u8>) -> int {
    let magnitude = (frame[2] % 128) * 256 + frame[3];
    if frame[2] >= 128 {
        -magnitude
    } else {
        magnitude
    }
}

/// What a frame decodes to: its reading if the checksum holds, and
/// `ChecksumError` otherwise.
pub open spec fn spec_decode_frame(frame: Seq<u8>) -> DhtResult {
    if spec_checksum_ok(frame) {
        DhtResult::Data(
            DhtData {
                humidity: spec_humidity(frame) as u16,
                temperature: spec_temperature(frame) as i16,
            },
        )
    } else {
        DhtResult::ChecksumError
    }
}

/// Both values of a reading fit their fields, so the casts in
/// `spec_decode_frame` lose nothing.
pub proof fn lemma_reading_in_range(frame: Seq<u8>)
    ensures
        0 <= spec_humidity(frame) <= u16::MAX,
        -(i16::MAX as int) <= spec_temperature(frame) <= i16::MAX,
        spec_humidity(frame) as u16 == spec_humidity(frame),
        spec_temperature(frame) as i16 == spec_temperature(frame),
{
}

/// The frame that carries a payload of four bytes: the payload, then its
/// checksum.
pub open spec fn spec_sealed(b0: u8, b1: u8, b2: u8, b3: u8) -> Seq<u8> {
    seq![b0, b1, b2, b3, ((b0 + b1 + b2 + b3) % 256) as u8]
}

/// Whatever the payload, the frame that carries it decodes to a reading, and
/// never to `ChecksumError`.
pub proof fn lemma_sealed_frame_is_read(b0: u8, b1: u8, b2: u8, b3: u8)
    ensures
        spec_checksum_ok(spec_sealed(b0, b1, b2, b3)),
        spec_decode_frame(spec_sealed(b0, b1, b2, b3)) == DhtResult::Data(
            DhtData {
                humidity: (b0 * 256 + b1) as u16,
                temperature: spec_temperature(spec_sealed(b0, b1, b2, b3)) as i16,
            },
        ),
        spec_decode_frame(spec_sealed(b0, b1, b2, b3)) != DhtResult::ChecksumError,
{
}

/// Whatever the payload, and whichever bit of the checksum byte is flipped,
/// the damaged frame decodes to `ChecksumError`.
pub proof fn lemma_flipped_checksum_is_caught(b0: u8, b1: u8, b2: u8, b3: u8, bit: u8)
    requires
        bit < 8,
    ensures
        ({
            let frame = spec_sealed(b0, b1, b2, b3);
            spec_decode_frame(frame.update(4, frame[4] ^ (1u8 << bit))) == DhtResult::ChecksumError
        }),
{
    let frame = spec_sealed(b0, b1, b2, b3);
    let sum: u8 = frame[4];
    assert(sum ^ (1u8 << bit) != sum) by (bit_vector)
        requires
            bit < 8,
    ;
}

/// A frame is rejected exactly when its last byte is not the checksum of its
/// payload, and a frame never decodes to `Timeout`.
pub proof fn lemma_decode_frame_cases(frame: Seq<u8>)
    ensures
        spec_decode_frame(frame) is ChecksumError <==> !spec_checksum_ok(frame),
        spec_decode_frame(frame) is Data <==> spec_checksum_ok(frame),
        !(spec_decode_frame(frame) is Timeout),
{
}

/// Computes the checksum that belongs to the payload of `frame`.
pub fn frame_checksum(frame: &RawFrame) -> (sum: u8)
    ensures
        sum == spec_checksum(frame@),
{
    let total: u32 = frame[0] as u32 + frame[1] as u32 + frame[2] as u32 + frame[3] as u32;
    (total % 256) as u8
}

/// Checks a frame and reads humidity and temperature from it.
pub fn decode_frame(frame: &RawFrame) -> (result: DhtResult)
    ensures
        result == spec_decode_frame(frame@),
        result is ChecksumError <==> !spec_checksum_ok(frame@),
        result matches DhtResult::Data(data) ==> data.humidity == spec_humidity(frame@)
            && data.temperature == spec_temperature(frame@),
        !(result is Timeout),
{
    proof {
        lemma_reading_in_range(frame@);
    }
    if frame_checksum(frame) != frame[4] {
        return DhtResult::ChecksumError;
    }
    let humidity: u16 = frame[0] as u16 * 256 + frame[1] as u16;
    let low_bits: u8 = frame[2] & 0x7F;
    let negative: bool = frame[2] & 0x80 != 0;
    proof {
        let b: u8 = frame[2];
        assert(b & 0x7F == b % 128) by (bit_vector);
        assert((b & 0x80 != 0) == (b >= 128)) by (bit_vector);
    }
    let magnitude: i16 = (low_bits as u16 * 256 + frame[3] as u16) as i16;
    let temperature: i16 = if negative {
        -magnitude
    } else {
        magnitude
    };
    DhtResult::Data(DhtData { humidity, temperature })
}

} // verus!
