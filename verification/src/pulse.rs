//! Measured pulses and the frame they spell.
//!
//! A capture is 41 pulse pairs in the order they arrived: the framing pair
//! with which the sensor announces itself, then one pair per data bit. The
//! length of a pair's high phase carries the bit. What counts as long is
//! decided per capture: the threshold is the mean high duration of the 40
//! data pairs, and a duration at or above it is a one.

use vstd::prelude::*;
use crate::frame::{decode_frame, spec_decode_frame, DhtResult, RawFrame};

verus! {

/// Number of pulse pairs in a capture.
pub const DHT_PULSES: usize = 41;

/// Number of data bits in a capture: every pair but the first.
pub const DHT_BITS: usize = 40;

/// One pulse pair: for how many samples the line stayed low, then high.
#[derive(Clone, Copy, Debug, PartialEq, Eq, Structural)]
pub struct Pulse {
    pub low: u32,
    pub high: u32,
}

/// A complete capture.
pub type Capture = [Pulse; DHT_PULSES];

/// Sum of the high durations of the data pairs `1..=n`.
pub open spec fn spec_high_sum(pulses: Seq<Pulse>, n: nat) -> nat
    decreases n,
{
    if n == 0 {
        0
    } else {
        spec_high_sum(pulses, (n - 1) as nat) + pulses[n as int].high as nat
    }
}

/// The threshold of a capture: the mean high duration of its 40 data pairs,
/// rounded down.
pub open spec fn spec_threshold(pulses: Seq<Pulse>) -> nat {
    spec_high_sum(pulses, 40) / 40
}

/// Data bit `k` of a capture, `0 <= k < 40`: set when the high phase of pair
/// `k + 1` lasted at least as long as the threshold.
pub open spec fn spec_bit(pulses: Seq<Pulse>, k: int) -> bool {
    pulses[k + 1].high >= spec_threshold(pulses)
}

/// The weight of bit `i` of a byte, counted from the top: 128 for bit 0 down
/// to 1 for bit 7.
pub open spec fn spec_weight(i: int) -> nat {
    if i <= 0 {
        128
    } else if i == 1 {
        64
    } else if i == 2 {
        32
    } else if i == 3 {
        16
    } else if i == 4 {
        8
    } else if i == 5 {
        4
    } else if i == 6 {
        2
    } else {
        1
    }
}

/// What data bit `k` adds to its byte: its weight if it is set.
pub open spec fn spec_bit_value(pulses: Seq<Pulse>, k: int) -> nat {
    if spec_bit(pulses, k) {
        spec_weight(k % 8)
    } else {
        0
    }
}

/// Byte `j` of the frame, `0 <= j < 5`: data bits `8 * j` to `8 * j + 7`,
/// the first of them the top bit.
#[verifier::opaque]
pub open spec fn spec_byte(pulses: Seq<Pulse>, j: int) -> nat {
    spec_bit_value(pulses, 8 * j) + spec_bit_value(pulses, 8 * j + 1) + spec_bit_value(
        pulses,
        8 * j + 2,
    ) + spec_bit_value(pulses, 8 * j + 3) + spec_bit_value(pulses, 8 * j + 4) + spec_bit_value(
        pulses,
        8 * j + 5,
    ) + spec_bit_value(pulses, 8 * j + 6) + spec_bit_value(pulses, 8 * j + 7)
}

/// The frame that a capture spells.
pub open spec fn spec_extract_frame(pulses: Seq<Pulse>) -> Seq<u8> {
    Seq::new(5, |j: int| spec_byte(pulses, j) as u8)
}

/// What a capture decodes to.
pub open spec fn spec_decode_pulses(pulses: Seq<Pulse>) -> DhtResult {
    spec_decode_frame(spec_extract_frame(pulses))
}

/// Bit `k` of a frame, `0 <= k < 40`, counted from the top bit of byte 0.
pub open spec fn spec_frame_bit(frame: Seq<u8>, k: int) -> bool {
    (frame[k / 8] as nat / spec_weight(k % 8)) % 2 == 1
}

/// How many of the data pairs `1..=n` have a high phase of `long` samples.
pub open spec fn spec_long_pairs(pulses: Seq<Pulse>, long: u32, n: nat) -> nat
    decreases n,
{
    if n == 0 {
        0
    } else {
        spec_long_pairs(pulses, long, (n - 1) as nat) + if pulses[n as int].high == long {
            1nat
        } else {
            0nat
        }
    }
}

/// Computes the threshold of a capture.
pub fn threshold(pulses: &Capture) -> (t: u32)
    ensures
        t == spec_threshold(pulses@),
{
    let mut sum: u64 = 0;
    let mut i: usize = 1;
    while i < DHT_PULSES
        invariant
            1 <= i <= 41,
            sum == spec_high_sum(pulses@, (i - 1) as nat),
            sum <= (i - 1) * u32::MAX,
        decreases 41 - i,
    {
        sum = sum + pulses[i].high as u64;
        i = i + 1;
    }
    (sum / DHT_BITS as u64) as u32
}

/// Reads the 40 data bits of a capture into a frame, most significant bit of
/// byte 0 first.
pub fn extract_frame(pulses: &Capture) -> (frame: RawFrame)
    ensures
        frame@ == spec_extract_frame(pulses@),
{
    let limit: u32 = threshold(pulses);
    let mut frame: RawFrame = [0u8; 5];
    let mut j: usize = 0;
    while j < 5
        invariant
            0 <= j <= 5,
            limit == spec_threshold(pulses@),
            forall|m: int| 0 <= m < j ==> frame@[m] == spec_byte(pulses@, m),
        decreases 5 - j,
    {
        let mut byte: u8 = 0;
        let mut i: usize = 0;
        while i < 8
            invariant
                0 <= i <= 8,
                0 <= j < 5,
                limit == spec_threshold(pulses@),
                byte == spec_shifted_in(pulses@, j as int, i as nat),
            decreases 8 - i,
        {
            proof {
                lemma_shifted_in_bound(pulses@, j as int, i as nat);
                let b: u8 = byte;
                assert(b < 128 ==> b << 1 == 2 * b) by (bit_vector);
                assert(b < 128 ==> (b << 1) | 1 == 2 * b + 1) by (bit_vector);
            }
            byte = byte << 1;
            if pulses[8 * j + i + 1].high >= limit {
                byte = byte | 1;
            }
            i = i + 1;
        }
        proof {
            lemma_eight_bits(pulses@, j as int);
        }
        frame[j] = byte;
        j = j + 1;
    }
    assert(frame@ =~= spec_extract_frame(pulses@));
    frame
}

/// Decodes a capture: extracts its frame, checks it and reads the values.
pub fn decode_pulses(pulses: &Capture) -> (result: DhtResult)
    ensures
        result == spec_decode_pulses(pulses@),
        !(result is Timeout),
{
    let frame = extract_frame(pulses);
    decode_frame(&frame)
}

/// A high phase that lasts exactly as long as the threshold is a one.
pub proof fn lemma_tie_is_one(pulses: Seq<Pulse>, k: int)
    requires
        pulses.len() == 41,
        0 <= k < 40,
        pulses[k + 1].high == spec_threshold(pulses),
    ensures
        spec_bit(pulses, k),
{
}

/// A byte is the sum of the weights of its set bits.
proof fn lemma_byte_is_weighted_bits(
    b: u8,
    d0: bool,
    d1: bool,
    d2: bool,
    d3: bool,
    d4: bool,
    d5: bool,
    d6: bool,
    d7: bool,
)
    by (bit_vector)
    requires
        d0 == ((b / 128) % 2 == 1),
        d1 == ((b / 64) % 2 == 1),
        d2 == ((b / 32) % 2 == 1),
        d3 == ((b / 16) % 2 == 1),
        d4 == ((b / 8) % 2 == 1),
        d5 == ((b / 4) % 2 == 1),
        d6 == ((b / 2) % 2 == 1),
        d7 == ((b / 1) % 2 == 1),
    ensures
        b == (if d0 {
            128u8
        } else {
            0u8
        }) + (if d1 {
            64u8
        } else {
            0u8
        }) + (if d2 {
            32u8
        } else {
            0u8
        }) + (if d3 {
            16u8
        } else {
            0u8
        }) + (if d4 {
            8u8
        } else {
            0u8
        }) + (if d5 {
            4u8
        } else {
            0u8
        }) + (if d6 {
            2u8
        } else {
            0u8
        }) + (if d7 {
            1u8
        } else {
            0u8
        }),
{
}

/// The number that the first `n` bits of byte `j` spell when each new bit
/// is taken in below the ones before it.
spec fn spec_shifted_in(pulses: Seq<Pulse>, j: int, n: nat) -> nat
    decreases n,
{
    if n == 0 {
        0
    } else {
        2 * spec_shifted_in(pulses, j, (n - 1) as nat) + if spec_bit(pulses, 8 * j + n - 1) {
            1nat
        } else {
            0nat
        }
    }
}

/// Eight bits taken in one below the other spell the byte.
proof fn lemma_eight_bits(pulses: Seq<Pulse>, j: int)
    ensures
        spec_shifted_in(pulses, j, 8) == spec_byte(pulses, j),
{
    reveal(spec_byte);
    reveal_with_fuel(spec_shifted_in, 9);
    assert((8 * j) % 8 == 0);
    assert((8 * j + 1) % 8 == 1);
    assert((8 * j + 2) % 8 == 2);
    assert((8 * j + 3) % 8 == 3);
    assert((8 * j + 4) % 8 == 4);
    assert((8 * j + 5) % 8 == 5);
    assert((8 * j + 6) % 8 == 6);
    assert((8 * j + 7) % 8 == 7);
}

/// Bit `8 * j + i` of a frame is bit `i` of its byte `j`.
proof fn lemma_frame_bit_of_byte(frame: Seq<u8>, j: int, i: int)
    requires
        0 <= i < 8,
    ensures
        spec_frame_bit(frame, 8 * j + i) == ((frame[j] as nat / spec_weight(i)) % 2 == 1),
{
    assert((8 * j + i) / 8 == j);
    assert((8 * j + i) % 8 == i);
}

/// Where the eight data bits of byte `j` are those of `frame`, the capture
/// spells that byte of `frame`.
proof fn lemma_capture_spells_byte(pulses: Seq<Pulse>, frame: Seq<u8>, j: int)
    requires
        forall|i: int|
            0 <= i < 8 ==> #[trigger] spec_bit(pulses, 8 * j + i) == spec_frame_bit(
                frame,
                8 * j + i,
            ),
    ensures
        spec_byte(pulses, j) == frame[j],
{
    let b = frame[j];
    let first = 8 * j;
    let d0 = spec_bit(pulses, first + 0);
    let d1 = spec_bit(pulses, first + 1);
    let d2 = spec_bit(pulses, first + 2);
    let d3 = spec_bit(pulses, first + 3);
    let d4 = spec_bit(pulses, first + 4);
    let d5 = spec_bit(pulses, first + 5);
    let d6 = spec_bit(pulses, first + 6);
    let d7 = spec_bit(pulses, first + 7);
    assert(d0 == ((b / 128) % 2 == 1)) by {
        lemma_frame_bit_of_byte(frame, j, 0);
    }
    assert(d1 == ((b / 64) % 2 == 1)) by {
        lemma_frame_bit_of_byte(frame, j, 1);
    }
    assert(d2 == ((b / 32) % 2 == 1)) by {
        lemma_frame_bit_of_byte(frame, j, 2);
    }
    assert(d3 == ((b / 16) % 2 == 1)) by {
        lemma_frame_bit_of_byte(frame, j, 3);
    }
    assert(d4 == ((b / 8) % 2 == 1)) by {
        lemma_frame_bit_of_byte(frame, j, 4);
    }
    assert(d5 == ((b / 4) % 2 == 1)) by {
        lemma_frame_bit_of_byte(frame, j, 5);
    }
    assert(d6 == ((b / 2) % 2 == 1)) by {
        lemma_frame_bit_of_byte(frame, j, 6);
    }
    assert(d7 == ((b / 1) % 2 == 1)) by {
        lemma_frame_bit_of_byte(frame, j, 7);
    }
    lemma_byte_is_weighted_bits(b, d0, d1, d2, d3, d4, d5, d6, d7);
    reveal(spec_byte);
    assert((8 * j) % 8 == 0);
    assert((8 * j + 1) % 8 == 1);
    assert((8 * j + 2) % 8 == 2);
    assert((8 * j + 3) % 8 == 3);
    assert((8 * j + 4) % 8 == 4);
    assert((8 * j + 5) % 8 == 5);
    assert((8 * j + 6) % 8 == 6);
    assert((8 * j + 7) % 8 == 7);
}

/// A capture whose every data bit is the bit of `frame` in the same place
/// spells `frame`.
pub proof fn lemma_capture_spells_frame(pulses: Seq<Pulse>, frame: Seq<u8>)
    requires
        pulses.len() == 41,
        frame.len() == 5,
        forall|k: int| 0 <= k < 40 ==> #[trigger] spec_bit(pulses, k) == spec_frame_bit(frame, k),
    ensures
        spec_extract_frame(pulses) == frame,
        spec_decode_pulses(pulses) == spec_decode_frame(frame),
{
    assert forall|j: int| 0 <= j < 5 implies spec_byte(pulses, j) == frame[j] by {
        lemma_capture_spells_byte(pulses, frame, j);
    }
    assert(spec_extract_frame(pulses) =~= frame);
}

/// Where the high phases have two lengths only, their sum is as if all were
/// short, plus the difference for each long one.
proof fn lemma_two_level_sum(pulses: Seq<Pulse>, short: u32, long: u32, n: nat)
    requires
        short < long,
        forall|k: int| 1 <= k <= n ==> pulses[k].high == short || pulses[k].high == long,
    ensures
        spec_long_pairs(pulses, long, n) <= n,
        spec_high_sum(pulses, n) == n * short + spec_long_pairs(pulses, long, n) * (long - short),
    decreases n,
{
    if n > 0 {
        let prev = (n - 1) as nat;
        lemma_two_level_sum(pulses, short, long, prev);
        let c = spec_long_pairs(pulses, long, prev);
        let d = long - short;
        assert(pulses[n as int].high == short || pulses[n as int].high == long);
        assert((c + 1) * d == c * d + d) by (nonlinear_arith);
        assert(n * short == prev * short + short) by (nonlinear_arith)
            requires
                n == prev + 1,
        ;
    } else {
        assert(n * short + 0 * (long - short) == 0) by (nonlinear_arith)
            requires
                n == 0,
        ;
    }
}

/// Where the high phases of the data pairs have two lengths only, and the
/// long ones are many enough or long enough to lift the mean above the short
/// length, the threshold parts the two: short is below it and long is not.
pub proof fn lemma_two_level_threshold(pulses: Seq<Pulse>, short: u32, long: u32)
    requires
        pulses.len() == 41,
        short < long,
        forall|k: int| 1 <= k <= 40 ==> pulses[k].high == short || pulses[k].high == long,
        spec_long_pairs(pulses, long, 40) * (long - short) >= 40,
    ensures
        short < spec_threshold(pulses) <= long,
{
    lemma_two_level_sum(pulses, short, long, 40);
    let c = spec_long_pairs(pulses, long, 40) as int;
    let d = long - short;
    assert(c * d <= 40 * d) by (nonlinear_arith)
        requires
            0 <= c <= 40,
            0 <= d,
    ;
}

/// A capture that spells a frame with two lengths of high phase, long for a
/// one and short for a zero, is read as that frame, provided the long ones
/// lift the mean above the short length.
pub proof fn lemma_two_level_capture_spells_frame(
    pulses: Seq<Pulse>,
    frame: Seq<u8>,
    short: u32,
    long: u32,
)
    requires
        pulses.len() == 41,
        frame.len() == 5,
        short < long,
        forall|k: int|
            0 <= k < 40 ==> pulses[k + 1].high == if #[trigger] spec_frame_bit(frame, k) {
                long
            } else {
                short
            },
        spec_long_pairs(pulses, long, 40) * (long - short) >= 40,
    ensures
        spec_extract_frame(pulses) == frame,
        spec_decode_pulses(pulses) == spec_decode_frame(frame),
{
    assert forall|k: int| 1 <= k <= 40 implies pulses[k].high == short || pulses[k].high
        == long by {
        let bit = spec_frame_bit(frame, k - 1);
        assert(pulses[k - 1 + 1].high == if bit {
            long
        } else {
            short
        });
    }
    lemma_two_level_threshold(pulses, short, long);
    assert forall|k: int| 0 <= k < 40 implies #[trigger] spec_bit(pulses, k) == spec_frame_bit(
        frame,
        k,
    ) by {
        let bit = spec_frame_bit(frame, k);
        assert(pulses[k + 1].high == if bit {
            long
        } else {
            short
        });
    }
    lemma_capture_spells_frame(pulses, frame);
}

/// Where all data pairs have the same high phase, that length is the
/// threshold and every bit is a one: such a capture spells 0xFF five times.
pub proof fn lemma_equal_highs_are_ones(pulses: Seq<Pulse>, high: u32, k: int)
    requires
        pulses.len() == 41,
        forall|m: int| 1 <= m <= 40 ==> pulses[m].high == high,
        0 <= k < 40,
    ensures
        spec_threshold(pulses) == high,
        spec_bit(pulses, k),
{
    assert(spec_high_sum(pulses, 40) == 40 * high) by {
        lemma_equal_highs_sum(pulses, high, 40);
    }
}

/// The sum of `n` equal high phases.
proof fn lemma_equal_highs_sum(pulses: Seq<Pulse>, high: u32, n: nat)
    requires
        forall|m: int| 1 <= m <= n ==> pulses[m].high == high,
    ensures
        spec_high_sum(pulses, n) == n * high,
    decreases n,
{
    if n > 0 {
        let prev = (n - 1) as nat;
        lemma_equal_highs_sum(pulses, high, prev);
        assert(pulses[n as int].high == high);
        assert(n * high == prev * high + high) by (nonlinear_arith)
            requires
                n == prev + 1,
        ;
    } else {
        assert(n * high == 0) by (nonlinear_arith)
            requires
                n == 0,
        ;
    }
}

/// Each byte that a capture spells is below 256, so the frame holds it as
/// it is.
pub proof fn lemma_byte_in_range(pulses: Seq<Pulse>, j: int)
    ensures
        spec_byte(pulses, j) <= u8::MAX,
        spec_extract_frame(pulses).len() == 5,
        0 <= j < 5 ==> spec_extract_frame(pulses)[j] == spec_byte(pulses, j),
{
    reveal(spec_byte);
    assert((8 * j) % 8 == 0);
    assert((8 * j + 1) % 8 == 1);
    assert((8 * j + 2) % 8 == 2);
    assert((8 * j + 3) % 8 == 3);
    assert((8 * j + 4) % 8 == 4);
    assert((8 * j + 5) % 8 == 5);
    assert((8 * j + 6) % 8 == 6);
    assert((8 * j + 7) % 8 == 7);
}

/// `n` bits spell a number below `2^n`; stated for the lengths that occur.
proof fn lemma_shifted_in_bound(pulses: Seq<Pulse>, j: int, n: nat)
    requires
        n <= 8,
    ensures
        n == 0 ==> spec_shifted_in(pulses, j, n) < 1,
        n == 1 ==> spec_shifted_in(pulses, j, n) < 2,
        n == 2 ==> spec_shifted_in(pulses, j, n) < 4,
        n == 3 ==> spec_shifted_in(pulses, j, n) < 8,
        n == 4 ==> spec_shifted_in(pulses, j, n) < 16,
        n == 5 ==> spec_shifted_in(pulses, j, n) < 32,
        n == 6 ==> spec_shifted_in(pulses, j, n) < 64,
        n == 7 ==> spec_shifted_in(pulses, j, n) < 128,
        n == 8 ==> spec_shifted_in(pulses, j, n) < 256,
    decreases n,
{
    if n > 0 {
        lemma_shifted_in_bound(pulses, j, (n - 1) as nat);
    }
}

} // verus!
