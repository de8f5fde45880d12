use dht22::engine::{Action, Event};
use dht22::Dht22;
use dht22::frame::{DhtData, DhtResult};
use dht22::gpio::{PinDirection, PinValue};
use dht22::pulse::{decode_pulses, Pulse};

/// The feed on which the engine measures a lead of `lead` samples and then
/// `pairs`, as (low, high). Each phase is followed by the one sample that ends it.
fn feed_of(lead: usize, pairs: &[(usize, usize)]) -> Vec<PinValue> {
    let mut feed = vec![PinValue::High; lead];
    for &(low, high) in pairs {
        feed.push(PinValue::Low);
        feed.extend(std::iter::repeat(PinValue::Low).take(low));
        feed.push(PinValue::High);
        feed.extend(std::iter::repeat(PinValue::High).take(high));
    }
    feed.push(PinValue::Low);
    feed
}

/// The 41 pairs that spell `frame`.
fn pairs_of(frame: [u8; 5], short: usize, long: usize) -> Vec<(usize, usize)> {
    let mut pairs = vec![(80, 80)];
    for k in 0..40 {
        let bit = (frame[k / 8] >> (7 - k % 8)) & 1;
        pairs.push((50, if bit == 1 { long } else { short }));
    }
    pairs
}

const EXAMPLE: [u8; 5] = [0x02, 0x8C, 0x01, 0x11, 0xA0];

#[test]
fn reads_the_example_frame_from_a_feed() {
    let feed = feed_of(3, &pairs_of(EXAMPLE, 26, 70));
    let mut engine = Dht22::open(4);
    let result = engine.read_data(&feed);
    assert_eq!(result, Some(DhtResult::Data(DhtData { humidity: 652, temperature: 273 })));
    match result {
        Some(DhtResult::Data(data)) => {
            assert_eq!(data.humidity as f32 / 10.0, 65.2);
            assert_eq!(data.temperature as f32 / 10.0, 27.3);
        }
        _ => panic!("expected a reading"),
    }
}

#[test]
fn reads_a_negative_temperature_from_a_feed() {
    let frame = [0x00, 0x00, 0x80, 0x0A, 0x8A];
    let feed = feed_of(1, &pairs_of(frame, 10, 500));
    let mut engine = Dht22::open(4);
    assert_eq!(
        engine.read_data(&feed),
        Some(DhtResult::Data(DhtData { humidity: 0, temperature: -10 }))
    );
}

#[test]
fn a_feed_with_no_lead_is_read() {
    let feed = feed_of(0, &pairs_of(EXAMPLE, 26, 70));
    let mut engine = Dht22::open(4);
    assert_eq!(
        engine.read_data(&feed),
        Some(DhtResult::Data(DhtData { humidity: 652, temperature: 273 }))
    );
}

#[test]
fn an_empty_feed_has_no_result() {
    let mut engine = Dht22::open(4);
    assert_eq!(engine.read_data(&[]), None);
}

#[test]
fn a_feed_that_lacks_its_last_sample_has_no_result() {
    let mut feed = feed_of(3, &pairs_of(EXAMPLE, 26, 70));
    feed.pop();
    let mut engine = Dht22::open(4);
    assert_eq!(engine.read_data(&feed), None);
}

#[test]
fn a_feed_of_40_pairs_has_no_result() {
    let pairs = pairs_of(EXAMPLE, 26, 70);
    let feed = feed_of(3, &pairs[..40]);
    let mut engine = Dht22::open(4);
    assert_eq!(engine.read_data(&feed), None);
}

#[test]
fn samples_after_the_cycle_are_not_read() {
    let mut feed = feed_of(3, &pairs_of(EXAMPLE, 26, 70));
    feed.extend(std::iter::repeat(PinValue::High).take(200_000));
    let mut engine = Dht22::open(4);
    assert_eq!(
        engine.read_data(&feed),
        Some(DhtResult::Data(DhtData { humidity: 652, temperature: 273 }))
    );
}

#[test]
fn a_damaged_checksum_is_reported_from_a_feed() {
    for bit in 0..8 {
        let mut frame = EXAMPLE;
        frame[4] ^= 1 << bit;
        let feed = feed_of(3, &pairs_of(frame, 26, 70));
        let mut engine = Dht22::open(4);
        assert_eq!(engine.read_data(&feed), Some(DhtResult::ChecksumError));
    }
}

#[test]
fn a_long_lead_times_out() {
    let feed = vec![PinValue::High; 128001];
    let mut engine = Dht22::open(4);
    assert_eq!(engine.read_data(&feed), Some(DhtResult::Timeout));
}

#[test]
fn a_lead_at_the_ceiling_does_not_time_out() {
    let feed = vec![PinValue::High; 128000];
    let mut engine = Dht22::open(4);
    assert_eq!(engine.read_data(&feed), None);
    let feed = feed_of(128000, &pairs_of(EXAMPLE, 26, 70));
    assert_eq!(
        engine.read_data(&feed),
        Some(DhtResult::Data(DhtData { humidity: 652, temperature: 273 }))
    );
}

#[test]
fn a_long_low_phase_times_out_after_valid_pulses() {
    let mut pairs = pairs_of(EXAMPLE, 26, 70);
    pairs[17].0 = 128001;
    let feed = feed_of(3, &pairs);
    let mut engine = Dht22::open(4);
    assert_eq!(engine.read_data(&feed), Some(DhtResult::Timeout));
}

#[test]
fn a_long_last_high_phase_times_out() {
    let mut pairs = pairs_of(EXAMPLE, 26, 70);
    pairs[40].1 = 128001;
    let feed = feed_of(3, &pairs);
    let mut engine = Dht22::open(4);
    assert_eq!(engine.read_data(&feed), Some(DhtResult::Timeout));
}

#[test]
fn a_long_framing_pulse_times_out() {
    let mut pairs = pairs_of(EXAMPLE, 26, 70);
    pairs[0].1 = 130000;
    let feed = feed_of(3, &pairs);
    let mut engine = Dht22::open(4);
    assert_eq!(engine.read_data(&feed), Some(DhtResult::Timeout));
}

#[test]
fn a_phase_at_the_ceiling_does_not_time_out() {
    let mut pairs = pairs_of(EXAMPLE, 26, 70);
    pairs[0] = (128000, 128000);
    pairs[9].0 = 128000;
    let feed = feed_of(3, &pairs);
    let mut engine = Dht22::open(4);
    assert_eq!(
        engine.read_data(&feed),
        Some(DhtResult::Data(DhtData { humidity: 652, temperature: 273 }))
    );
}

#[test]
fn a_feed_that_ends_in_a_long_phase_times_out() {
    // The feed ends without the sample that would end the phase, but the
    // phase is too long already.
    let mut feed = feed_of(3, &pairs_of(EXAMPLE, 26, 70)[..5]);
    feed.extend(std::iter::repeat(PinValue::Low).take(128001));
    let mut engine = Dht22::open(4);
    assert_eq!(engine.read_data(&feed), Some(DhtResult::Timeout));
}

#[test]
fn a_high_phase_equal_to_the_mean_is_a_one() {
    // The example frame has 9 ones. With 31 zeros of 10, 8 ones of 60 and
    // one of 20 the sum is 810 and the mean 20: the one of 20 is at the
    // threshold, and the checksum holds only if it is read as a one.
    let mut pairs = pairs_of(EXAMPLE, 10, 60);
    assert_eq!(pairs[7], (50, 60));
    pairs[7].1 = 20;
    let total: usize = pairs[1..].iter().map(|p| p.1).sum();
    assert_eq!(total, 810);
    let mut engine = Dht22::open(4);
    assert_eq!(
        engine.read_data(&feed_of(2, &pairs)),
        Some(DhtResult::Data(DhtData { humidity: 652, temperature: 273 }))
    );
    // One sample less and it is below the threshold, which stays 20.
    pairs[7].1 = 19;
    assert_eq!(engine.read_data(&feed_of(2, &pairs)), Some(DhtResult::ChecksumError));
}

#[test]
fn a_read_agrees_with_decoding_the_measured_pulses() {
    let frames: [[u8; 5]; 4] = [
        EXAMPLE,
        [0x01, 0x90, 0x80, 0x65, 0x76],
        [0x12, 0x34, 0x56, 0x78, 0x14],
        [0x12, 0x34, 0x56, 0x78, 0x15],
    ];
    for frame in frames.iter() {
        let pairs = pairs_of(*frame, 26, 70);
        let mut capture = [Pulse { low: 0, high: 0 }; 41];
        for (i, p) in pairs.iter().enumerate() {
            capture[i] = Pulse { low: p.0 as u32, high: p.1 as u32 };
        }
        let mut engine = Dht22::open(4);
        assert_eq!(engine.read_data(&feed_of(7, &pairs)), Some(decode_pulses(&capture)));
    }
}

#[test]
fn successive_reads_do_not_affect_each_other() {
    let good = feed_of(3, &pairs_of(EXAMPLE, 26, 70));
    let cold = feed_of(5, &pairs_of([0x01, 0x90, 0x80, 0x65, 0x76], 20, 60));
    let stuck = vec![PinValue::High; 128001];
    let short = vec![PinValue::High; 10];
    let damaged = feed_of(3, &pairs_of([0x02, 0x8C, 0x01, 0x11, 0xA1], 26, 70));
    let feeds = [&good, &cold, &stuck, &short, &damaged];
    let alone: Vec<Option<DhtResult>> =
        feeds.iter().map(|feed| Dht22::open(4).read_data(feed)).collect();
    assert_eq!(
        alone,
        vec![
            Some(DhtResult::Data(DhtData { humidity: 652, temperature: 273 })),
            Some(DhtResult::Data(DhtData { humidity: 400, temperature: -101 })),
            Some(DhtResult::Timeout),
            None,
            Some(DhtResult::ChecksumError),
        ]
    );
    for first in 0..feeds.len() {
        for second in 0..feeds.len() {
            let mut engine = Dht22::open(4);
            assert_eq!(engine.read_data(feeds[first]), alone[first]);
            assert_eq!(engine.read_data(feeds[second]), alone[second]);
            assert_eq!(engine.read_data(feeds[first]), alone[first]);
        }
    }
}

#[test]
fn a_read_abandons_the_cycle_in_progress() {
    let mut engine = Dht22::open(4);
    for _ in 0..6 {
        engine.step(Event::Performed);
    }
    for _ in 0..100_000 {
        assert_eq!(engine.step(Event::Sampled(PinValue::High)), Action::Sample);
    }
    let lead = vec![PinValue::High; 100_000];
    assert_eq!(engine.read_data(&lead), None);
    let feed = feed_of(100_000, &pairs_of(EXAMPLE, 26, 70));
    assert_eq!(
        engine.read_data(&feed),
        Some(DhtResult::Data(DhtData { humidity: 652, temperature: 273 }))
    );
}

#[test]
fn a_read_leaves_the_engine_at_the_start_of_a_cycle() {
    let mut engine = Dht22::open(23);
    let feed = feed_of(3, &pairs_of(EXAMPLE, 26, 70));
    engine.read_data(&feed);
    assert_eq!(engine.pending(), Action::SetDirection(PinDirection::Out));
    engine.read_data(&feed[..50]);
    assert_eq!(engine.pending(), Action::SetDirection(PinDirection::Out));
    engine.read_data(&vec![PinValue::High; 128001]);
    assert_eq!(engine.pending(), Action::SetDirection(PinDirection::Out));
    assert_eq!(engine.pin(), 23);
}
