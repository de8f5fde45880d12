//! What a read cycle makes of a feed of samples.
//!
//! A feed is the sequence of levels that the line shows, one per sample. The
//! engine counts for how many samples the line keeps a level; the sample on
//! which the level changes ends the count and is not part of the next one.
//! So a feed falls into the lead, for which the line is still high, and then
//! pulse pairs, each a low count and a high count, every count followed by
//! the one sample that ended it.

use vstd::prelude::*;
use crate::engine::DHT_MAXCOUNT;
use crate::frame::{
    lemma_decode_frame_cases, spec_checksum_ok, spec_humidity, spec_temperature, DhtData,
    DhtResult,
};
use crate::gpio::PinValue;
use crate::pulse::{
    lemma_capture_spells_frame, spec_bit, spec_decode_pulses, spec_extract_frame, spec_frame_bit,
    Pulse,
};

verus! {

/// For how many samples, from index `from` on, the feed keeps `value`.
pub open spec fn spec_run_length(feed: Seq<PinValue>, from: int, value: PinValue) -> nat
    decreases feed.len() - from,
{
    if 0 <= from < feed.len() && feed[from] == value {
        1 + spec_run_length(feed, from + 1, value)
    } else {
        0
    }
}

/// For how many samples the line is still high when sampling begins.
pub open spec fn spec_lead(feed: Seq<PinValue>) -> nat {
    spec_run_length(feed, 0, PinValue::High)
}

/// The index at which the low phase of pair `i` is first counted.
pub open spec fn spec_low_start(feed: Seq<PinValue>, i: int) -> int
    decreases i,
{
    if i <= 0 {
        spec_lead(feed) as int + 1
    } else {
        let low_start = spec_low_start(feed, i - 1);
        let high_start = low_start + spec_run_length(feed, low_start, PinValue::Low) + 1;
        high_start + spec_run_length(feed, high_start, PinValue::High) + 1
    }
}

/// The low duration of pair `i`.
pub open spec fn spec_low_count(feed: Seq<PinValue>, i: int) -> nat {
    spec_run_length(feed, spec_low_start(feed, i), PinValue::Low)
}

/// The index at which the high phase of pair `i` is first counted.
pub open spec fn spec_high_start(feed: Seq<PinValue>, i: int) -> int {
    spec_low_start(feed, i) + spec_low_count(feed, i) + 1
}

/// The high duration of pair `i`.
pub open spec fn spec_high_count(feed: Seq<PinValue>, i: int) -> nat {
    spec_run_length(feed, spec_high_start(feed, i), PinValue::High)
}

/// Whether the line keeps a level for too long: in the lead, or in a phase
/// of one of the 41 pairs.
pub open spec fn spec_timed_out(feed: Seq<PinValue>) -> bool {
    ||| spec_lead(feed) > DHT_MAXCOUNT
    ||| exists|i: int|
        0 <= i < 41 && (#[trigger] spec_low_count(feed, i) > DHT_MAXCOUNT || spec_high_count(
            feed,
            i,
        ) > DHT_MAXCOUNT)
}

/// Whether the feed holds all 41 pairs, the sample that ends the last high
/// phase included.
pub open spec fn spec_complete(feed: Seq<PinValue>) -> bool {
    spec_low_start(feed, 41) <= feed.len()
}

/// The 41 pulse pairs of a feed.
pub open spec fn spec_capture(feed: Seq<PinValue>) -> Seq<Pulse> {
    Seq::new(
        41,
        |i: int|
            Pulse { low: spec_low_count(feed, i) as u32, high: spec_high_count(feed, i) as u32 },
    )
}

/// The result of a read cycle on a feed: `Timeout` if the line keeps a level
/// for too long, else what the 41 pairs decode to; `None` if the feed ends
/// before the cycle does.
pub open spec fn spec_read(feed: Seq<PinValue>) -> Option<DhtResult> {
    if spec_timed_out(feed) {
        Some(DhtResult::Timeout)
    } else if spec_complete(feed) {
        Some(spec_decode_pulses(spec_capture(feed)))
    } else {
        None
    }
}

/// `count` samples of `value`, then the one sample of the other level that
/// ends the count.
pub open spec fn spec_phase(value: PinValue, count: nat) -> Seq<PinValue> {
    Seq::new(
        count + 1,
        |j: int|
            if j < count {
                value
            } else {
                spec_other(value)
            },
    )
}

/// The level that `value` is not.
pub open spec fn spec_other(value: PinValue) -> PinValue {
    match value {
        PinValue::High => PinValue::Low,
        PinValue::Low => PinValue::High,
    }
}

/// A feed on which the lead is measured as `lead` and the pairs as `pulses`:
/// the lead, then for each pair its low phase and its high phase, each phase
/// with the sample that ends it.
pub open spec fn spec_feed_of(lead: nat, pulses: Seq<Pulse>) -> Seq<PinValue>
    decreases pulses.len(),
{
    if pulses.len() == 0 {
        spec_phase(PinValue::High, lead)
    } else {
        spec_feed_of(lead, pulses.drop_last()) + spec_phase(
            PinValue::Low,
            pulses.last().low as nat,
        ) + spec_phase(PinValue::High, pulses.last().high as nat)
    }
}

/// Whether one of the durations is more than `DHT_MAXCOUNT` samples.
pub open spec fn spec_too_long(lead: nat, pulses: Seq<Pulse>) -> bool {
    ||| lead > DHT_MAXCOUNT
    ||| exists|i: int|
        0 <= i < pulses.len() && ((#[trigger] pulses[i]).low > DHT_MAXCOUNT || pulses[i].high
            > DHT_MAXCOUNT)
}

/// On the feed made of a lead and of pairs, the lead and the pairs are
/// measured as they were given, and the feed ends where the next pair would
/// begin.
pub proof fn lemma_feed_is_measured(lead: nat, pulses: Seq<Pulse>)
    ensures
        spec_lead(spec_feed_of(lead, pulses)) == lead,
        spec_low_start(spec_feed_of(lead, pulses), pulses.len() as int) == spec_feed_of(
            lead,
            pulses,
        ).len(),
        forall|m: int|
            0 <= m < pulses.len() ==> #[trigger] spec_low_count(spec_feed_of(lead, pulses), m)
                == pulses[m].low && spec_high_count(spec_feed_of(lead, pulses), m)
                == pulses[m].high,
    decreases pulses.len(),
{
    let feed = spec_feed_of(lead, pulses);
    if pulses.len() == 0 {
        lemma_run_exact(feed, 0, PinValue::High, lead);
    } else {
        let n = pulses.len() - 1;
        let before = spec_feed_of(lead, pulses.drop_last());
        let low = pulses.last().low as nat;
        let high = pulses.last().high as nat;
        let pair = spec_phase(PinValue::Low, low) + spec_phase(PinValue::High, high);
        assert(feed =~= before + pair);
        lemma_feed_is_measured(lead, pulses.drop_last());
        lemma_pairs_in_longer_feed(before, pair, n);
        let at = before.len() as int;
        assert(spec_low_start(feed, n) == at);
        assert forall|j: int| 0 <= j < pair.len() implies feed[at + j] == pair[j] by {}
        assert forall|j: int| at <= j < at + low implies feed[j] == PinValue::Low by {
            assert(feed[at + (j - at)] == pair[j - at]);
        }
        assert(feed[at + low] == pair[low as int]);
        lemma_run_exact(feed, at, PinValue::Low, low);
        let then = at + low + 1;
        assert forall|j: int| then <= j < then + high implies feed[j] == PinValue::High by {
            assert(feed[at + (j - at)] == pair[j - at]);
        }
        assert(feed[at + (low + 1 + high)] == pair[(low + 1 + high) as int]);
        lemma_run_exact(feed, then, PinValue::High, high);
        lemma_next_start(feed, n);
        assert forall|m: int| 0 <= m < pulses.len() implies #[trigger] spec_low_count(feed, m)
            == pulses[m].low && spec_high_count(feed, m) == pulses[m].high by {
            if m < n {
                assert(pulses.drop_last()[m] == pulses[m]);
            }
        }
    }
}

/// A read cycle on the feed made of a lead and of 41 pairs times out if one
/// of the durations is too long, and else gives what the pairs decode to.
pub proof fn lemma_read_of_feed(lead: nat, pulses: Seq<Pulse>)
    requires
        pulses.len() == 41,
    ensures
        spec_read(spec_feed_of(lead, pulses)) == if spec_too_long(lead, pulses) {
            Some(DhtResult::Timeout)
        } else {
            Some(spec_decode_pulses(pulses))
        },
{
    let feed = spec_feed_of(lead, pulses);
    lemma_feed_is_measured(lead, pulses);
    if spec_too_long(lead, pulses) {
        if lead <= DHT_MAXCOUNT {
            let i = choose|i: int|
                0 <= i < pulses.len() && ((#[trigger] pulses[i]).low > DHT_MAXCOUNT
                    || pulses[i].high > DHT_MAXCOUNT);
            assert(spec_low_count(feed, i) == pulses[i].low);
        }
    } else {
        assert forall|m: int| 0 <= m < 41 implies spec_low_count(feed, m) <= DHT_MAXCOUNT
            && spec_high_count(feed, m) <= DHT_MAXCOUNT by {
            assert(spec_low_count(feed, m) == pulses[m].low);
            assert(pulses[m].low <= DHT_MAXCOUNT);
        }
        assert(spec_capture(feed) =~= pulses) by {
            assert forall|m: int| 0 <= m < 41 implies spec_capture(feed)[m] == pulses[m] by {
                assert(spec_low_count(feed, m) == pulses[m].low);
            }
        }
    }
}

/// A read cycle on the feed made of a lead and of 41 pairs, none of them too
/// long, whose data bits are those of a frame with the right checksum, gives
/// the reading of that frame.
pub proof fn lemma_read_of_feed_gives_reading(lead: nat, pulses: Seq<Pulse>, frame: Seq<u8>)
    requires
        pulses.len() == 41,
        !spec_too_long(lead, pulses),
        frame.len() == 5,
        spec_checksum_ok(frame),
        forall|k: int| 0 <= k < 40 ==> #[trigger] spec_bit(pulses, k) == spec_frame_bit(frame, k),
    ensures
        spec_read(spec_feed_of(lead, pulses)) == Some(
            DhtResult::Data(
                DhtData {
                    humidity: spec_humidity(frame) as u16,
                    temperature: spec_temperature(frame) as i16,
                },
            ),
        ),
{
    lemma_read_of_feed(lead, pulses);
    lemma_capture_spells_frame(pulses, frame);
}

/// A lead that lasts for more than `DHT_MAXCOUNT` samples ends the cycle
/// with `Timeout`.
pub proof fn lemma_long_lead_times_out(feed: Seq<PinValue>)
    requires
        spec_lead(feed) > DHT_MAXCOUNT,
    ensures
        spec_read(feed) == Some(DhtResult::Timeout),
{
}

/// A phase of any of the 41 pairs that lasts for more than `DHT_MAXCOUNT`
/// samples ends the cycle with `Timeout`, whatever came before it.
pub proof fn lemma_long_phase_times_out(feed: Seq<PinValue>, i: int)
    requires
        0 <= i < 41,
        spec_low_count(feed, i) > DHT_MAXCOUNT || spec_high_count(feed, i) > DHT_MAXCOUNT,
    ensures
        spec_read(feed) == Some(DhtResult::Timeout),
{
}

/// A feed times out only if its lead or one of its phases is too long.
pub proof fn lemma_timeout_only_if_long(feed: Seq<PinValue>)
    requires
        spec_read(feed) == Some(DhtResult::Timeout),
    ensures
        spec_timed_out(feed),
{
    lemma_decode_frame_cases(spec_extract_frame(spec_capture(feed)));
}

/// A feed that holds all 41 pairs, none of them too long, whose data bits
/// are those of a frame with the right checksum, gives the reading of that
/// frame.
pub proof fn lemma_read_gives_reading(feed: Seq<PinValue>, frame: Seq<u8>)
    requires
        !spec_timed_out(feed),
        spec_complete(feed),
        frame.len() == 5,
        spec_checksum_ok(frame),
        forall|k: int|
            0 <= k < 40 ==> #[trigger] spec_bit(spec_capture(feed), k) == spec_frame_bit(frame, k),
    ensures
        spec_read(feed) == Some(
            DhtResult::Data(
                DhtData {
                    humidity: spec_humidity(frame) as u16,
                    temperature: spec_temperature(frame) as i16,
                },
            ),
        ),
{
    lemma_capture_spells_frame(spec_capture(feed), frame);
}

/// A stretch of `count` samples of one level is a run of at least `count`.
pub proof fn lemma_run_at_least(feed: Seq<PinValue>, from: int, value: PinValue, count: nat)
    requires
        0 <= from,
        from + count <= feed.len(),
        forall|j: int| from <= j < from + count ==> feed[j] == value,
    ensures
        spec_run_length(feed, from, value) >= count,
    decreases count,
{
    if count > 0 {
        lemma_run_at_least(feed, from + 1, value, (count - 1) as nat);
    }
}

/// A stretch of `count` samples of one level, followed by another level or
/// by the end of the feed, is a run of exactly `count`.
pub proof fn lemma_run_exact(feed: Seq<PinValue>, from: int, value: PinValue, count: nat)
    requires
        0 <= from,
        from + count <= feed.len(),
        forall|j: int| from <= j < from + count ==> feed[j] == value,
        from + count == feed.len() || feed[from + count] != value,
    ensures
        spec_run_length(feed, from, value) == count,
    decreases count,
{
    if count > 0 {
        lemma_run_exact(feed, from + 1, value, (count - 1) as nat);
    }
}

/// Each pair begins after the one before it, and each high phase after its
/// low phase.
pub proof fn lemma_starts_increase(feed: Seq<PinValue>, i: int, j: int)
    requires
        0 <= i <= j,
    ensures
        0 < spec_low_start(feed, i) <= spec_low_start(feed, j),
        spec_low_start(feed, i) < spec_high_start(feed, j),
    decreases j - i,
{
    lemma_start_is_positive(feed, i);
    if i < j {
        lemma_starts_increase(feed, i, j - 1);
    }
}

/// No pair begins with the first sample: the sample that ends the lead comes
/// before it.
pub proof fn lemma_start_is_positive(feed: Seq<PinValue>, i: int)
    ensures
        0 < spec_low_start(feed, i),
    decreases i,
{
    if i > 0 {
        lemma_start_is_positive(feed, i - 1);
    }
}

/// The next pair begins one sample after the high phase of this one ends.
pub proof fn lemma_next_start(feed: Seq<PinValue>, i: int)
    requires
        0 <= i,
    ensures
        spec_low_start(feed, i + 1) == spec_high_start(feed, i) + spec_high_count(feed, i) + 1,
{
}

/// Samples that are added at the end do not shorten a run, and leave a run
/// as it is if it ended before them.
pub proof fn lemma_run_in_longer_feed(
    feed: Seq<PinValue>,
    more: Seq<PinValue>,
    from: int,
    value: PinValue,
)
    requires
        0 <= from,
    ensures
        spec_run_length(feed + more, from, value) >= spec_run_length(feed, from, value),
        from + spec_run_length(feed, from, value) < feed.len() ==> spec_run_length(
            feed + more,
            from,
            value,
        ) == spec_run_length(feed, from, value),
    decreases feed.len() - from,
{
    if from < feed.len() {
        assert((feed + more)[from] == feed[from]);
        if feed[from] == value {
            lemma_run_in_longer_feed(feed, more, from + 1, value);
        }
    }
}

/// Samples that are added at the end leave every pair as it is that ended
/// before them.
pub proof fn lemma_pairs_in_longer_feed(feed: Seq<PinValue>, more: Seq<PinValue>, i: int)
    requires
        0 <= i,
        spec_low_start(feed, i) <= feed.len(),
    ensures
        spec_lead(feed + more) == spec_lead(feed),
        spec_low_start(feed + more, i) == spec_low_start(feed, i),
        forall|m: int|
            0 <= m < i ==> #[trigger] spec_low_count(feed + more, m) == spec_low_count(feed, m)
                && spec_high_count(feed + more, m) == spec_high_count(feed, m),
    decreases i,
{
    if i == 0 {
        lemma_run_in_longer_feed(feed, more, 0, PinValue::High);
    } else {
        lemma_starts_increase(feed, i - 1, i);
        lemma_pairs_in_longer_feed(feed, more, i - 1);
        lemma_run_in_longer_feed(feed, more, spec_low_start(feed, i - 1), PinValue::Low);
        lemma_run_in_longer_feed(feed, more, spec_high_start(feed, i - 1), PinValue::High);
    }
}

/// Once a feed has a result, that is the result of every feed that begins
/// with it: a cycle reads no further than its last sample.
pub proof fn lemma_result_is_final(feed: Seq<PinValue>, more: Seq<PinValue>)
    requires
        spec_read(feed) is Some,
    ensures
        spec_read(feed + more) == spec_read(feed),
{
    let longer = feed + more;
    if spec_lead(feed) > DHT_MAXCOUNT {
        lemma_run_in_longer_feed(feed, more, 0, PinValue::High);
    } else if spec_timed_out(feed) {
        let i = choose|i: int|
            0 <= i < 41 && (#[trigger] spec_low_count(feed, i) > DHT_MAXCOUNT || spec_high_count(
                feed,
                i,
            ) > DHT_MAXCOUNT);
        if spec_low_count(feed, i) > DHT_MAXCOUNT {
            lemma_pairs_in_longer_feed(feed, more, i);
            lemma_run_in_longer_feed(feed, more, spec_low_start(feed, i), PinValue::Low);
            assert(spec_low_count(longer, i) > DHT_MAXCOUNT);
        } else {
            lemma_pairs_in_longer_feed(feed, more, i);
            lemma_run_in_longer_feed(feed, more, spec_low_start(feed, i), PinValue::Low);
            lemma_run_in_longer_feed(feed, more, spec_high_start(feed, i), PinValue::High);
            assert(spec_high_count(longer, i) > DHT_MAXCOUNT);
        }
    } else {
        lemma_pairs_in_longer_feed(feed, more, 41);
        assert forall|m: int| 0 <= m < 41 implies spec_low_count(longer, m) <= DHT_MAXCOUNT
            && spec_high_count(longer, m) <= DHT_MAXCOUNT by {
            assert(spec_low_count(longer, m) == spec_low_count(feed, m));
            assert(spec_low_count(feed, m) <= DHT_MAXCOUNT);
        }
        assert(spec_capture(longer) =~= spec_capture(feed)) by {
            assert forall|m: int| 0 <= m < 41 implies spec_capture(longer)[m] == spec_capture(
                feed,
            )[m] by {
                assert(spec_low_count(longer, m) == spec_low_count(feed, m));
            }
        }
    }
}

/// In a feed that does not time out the counts of the capture are the
/// counts of the feed.
pub proof fn lemma_capture_counts(feed: Seq<PinValue>, i: int)
    requires
        !spec_timed_out(feed),
        0 <= i < 41,
    ensures
        spec_capture(feed)[i].low == spec_low_count(feed, i),
        spec_capture(feed)[i].high == spec_high_count(feed, i),
{
    assert(spec_low_count(feed, i) <= DHT_MAXCOUNT);
}

/// Past the end of the feed nothing is counted.
pub proof fn lemma_nothing_past_end(feed: Seq<PinValue>, i: int, j: int)
    requires
        0 <= i,
        spec_high_start(feed, i) > feed.len(),
        i < j,
    ensures
        spec_high_count(feed, i) == 0,
        spec_low_count(feed, j) == 0,
        spec_high_count(feed, j) == 0,
        spec_low_start(feed, j) > feed.len(),
{
    lemma_next_start(feed, i);
    lemma_starts_increase(feed, i + 1, j);
}

} // verus!
