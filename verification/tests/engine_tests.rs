use dht22::engine::{Action, Dht22, Event, DHT_MAXCOUNT, START_MILLIS, WAKE_MILLIS};
use dht22::frame::{DhtData, DhtResult};
use dht22::gpio::{PinDirection, PinValue};

/// Performs the start signal on nothing and gives the actions asked for,
/// the first request to sample included.
fn start_signal(engine: &mut Dht22) -> Vec<Action> {
    let mut actions = vec![engine.pending()];
    while *actions.last().unwrap() != Action::Sample {
        let next = engine.step(Event::Performed);
        actions.push(next);
    }
    actions
}

/// Hands the engine `count` samples of `value`, each of which must leave the
/// cycle running.
fn hold(engine: &mut Dht22, value: PinValue, count: u32) {
    for _ in 0..count {
        assert_eq!(engine.step(Event::Sampled(value)), Action::Sample);
    }
}

/// Hands the engine the samples of one pulse pair that it measures as
/// `low` and `high`, beginning with the sample that ends the phase before.
fn pair(engine: &mut Dht22, low: u32, high: u32) {
    hold(engine, PinValue::Low, 1 + low);
    hold(engine, PinValue::High, 1 + high);
}

#[test]
fn a_new_engine_keeps_its_pin() {
    assert_eq!(Dht22::open(4).pin(), 4);
    assert_eq!(Dht22::open(17).pin(), 17);
}

#[test]
fn a_new_engine_asks_for_the_line() {
    let engine = Dht22::open(4);
    assert_eq!(engine.pending(), Action::SetDirection(PinDirection::Out));
}

#[test]
fn the_start_signal_is_six_actions_then_sampling() {
    let mut engine = Dht22::open(4);
    let actions = start_signal(&mut engine);
    assert_eq!(
        actions,
        vec![
            Action::SetDirection(PinDirection::Out),
            Action::SetValue(PinValue::High),
            Action::Sleep(500),
            Action::SetValue(PinValue::Low),
            Action::Sleep(20),
            Action::SetDirection(PinDirection::In),
            Action::Sample,
        ]
    );
    assert_eq!(WAKE_MILLIS, 500);
    assert_eq!(START_MILLIS, 20);
    assert_eq!(engine.pending(), Action::Sample);
}

#[test]
fn the_ceiling_is_128000_samples() {
    assert_eq!(DHT_MAXCOUNT, 128000);
}

#[test]
fn pending_does_not_advance() {
    let mut engine = Dht22::open(4);
    assert_eq!(engine.pending(), engine.pending());
    engine.step(Event::Performed);
    assert_eq!(engine.pending(), Action::SetValue(PinValue::High));
    assert_eq!(engine.pending(), Action::SetValue(PinValue::High));
}

#[test]
fn a_sample_during_the_start_signal_changes_nothing() {
    let mut engine = Dht22::open(4);
    assert_eq!(
        engine.step(Event::Sampled(PinValue::Low)),
        Action::SetDirection(PinDirection::Out)
    );
    assert_eq!(
        engine.step(Event::Sampled(PinValue::High)),
        Action::SetDirection(PinDirection::Out)
    );
    assert_eq!(engine.step(Event::Performed), Action::SetValue(PinValue::High));
    assert_eq!(engine.step(Event::Sampled(PinValue::High)), Action::SetValue(PinValue::High));
    assert_eq!(engine.step(Event::Performed), Action::Sleep(500));
}

#[test]
fn a_report_without_a_sample_changes_nothing_while_sampling() {
    let mut engine = Dht22::open(4);
    start_signal(&mut engine);
    hold(&mut engine, PinValue::High, DHT_MAXCOUNT);
    for _ in 0..10 {
        assert_eq!(engine.step(Event::Performed), Action::Sample);
    }
    assert_eq!(engine.step(Event::Sampled(PinValue::High)), Action::Finish(DhtResult::Timeout));
}

#[test]
fn a_line_that_stays_high_times_out_on_sample_128001() {
    let mut engine = Dht22::open(4);
    start_signal(&mut engine);
    hold(&mut engine, PinValue::High, 128000);
    assert_eq!(engine.step(Event::Sampled(PinValue::High)), Action::Finish(DhtResult::Timeout));
}

#[test]
fn a_lead_of_128000_samples_is_not_too_long() {
    let mut engine = Dht22::open(4);
    start_signal(&mut engine);
    hold(&mut engine, PinValue::High, 128000);
    assert_eq!(engine.step(Event::Sampled(PinValue::Low)), Action::Sample);
}

#[test]
fn a_low_phase_times_out_on_its_sample_128001() {
    let mut engine = Dht22::open(4);
    start_signal(&mut engine);
    hold(&mut engine, PinValue::High, 3);
    pair(&mut engine, 5, 5);
    pair(&mut engine, 5, 5);
    // The first low sample ends the high phase before it and is not counted.
    hold(&mut engine, PinValue::Low, 1 + 128000);
    assert_eq!(engine.step(Event::Sampled(PinValue::Low)), Action::Finish(DhtResult::Timeout));
}

#[test]
fn a_high_phase_times_out_on_its_sample_128001() {
    let mut engine = Dht22::open(4);
    start_signal(&mut engine);
    hold(&mut engine, PinValue::High, 3);
    pair(&mut engine, 5, 5);
    hold(&mut engine, PinValue::Low, 1 + 7);
    hold(&mut engine, PinValue::High, 1 + 128000);
    assert_eq!(engine.step(Event::Sampled(PinValue::High)), Action::Finish(DhtResult::Timeout));
}

#[test]
fn after_a_timeout_the_engine_starts_over() {
    let mut engine = Dht22::open(9);
    start_signal(&mut engine);
    hold(&mut engine, PinValue::High, 128000);
    assert_eq!(engine.step(Event::Sampled(PinValue::High)), Action::Finish(DhtResult::Timeout));
    assert_eq!(engine.pending(), Action::SetDirection(PinDirection::Out));
    assert_eq!(engine.pin(), 9);
    // The count of the cycle that timed out is gone.
    start_signal(&mut engine);
    hold(&mut engine, PinValue::High, 128000);
    assert_eq!(engine.step(Event::Sampled(PinValue::Low)), Action::Sample);
}

#[test]
fn a_cycle_of_41_pairs_ends_with_a_reading() {
    let frame: [u8; 5] = [0x02, 0x8C, 0x01, 0x11, 0xA0];
    let mut engine = Dht22::open(4);
    start_signal(&mut engine);
    hold(&mut engine, PinValue::High, 2);
    pair(&mut engine, 80, 80);
    for k in 0..40 {
        let bit = (frame[k / 8] >> (7 - k % 8)) & 1;
        pair(&mut engine, 50, if bit == 1 { 70 } else { 26 });
    }
    assert_eq!(
        engine.step(Event::Sampled(PinValue::Low)),
        Action::Finish(DhtResult::Data(DhtData { humidity: 652, temperature: 273 }))
    );
    assert_eq!(engine.pending(), Action::SetDirection(PinDirection::Out));
}

#[test]
fn a_cycle_with_a_damaged_frame_ends_with_a_checksum_error() {
    let frame: [u8; 5] = [0x02, 0x8C, 0x01, 0x11, 0xA1];
    let mut engine = Dht22::open(4);
    start_signal(&mut engine);
    pair(&mut engine, 80, 80);
    for k in 0..40 {
        let bit = (frame[k / 8] >> (7 - k % 8)) & 1;
        pair(&mut engine, 50, if bit == 1 { 70 } else { 26 });
    }
    assert_eq!(
        engine.step(Event::Sampled(PinValue::Low)),
        Action::Finish(DhtResult::ChecksumError)
    );
}

#[test]
fn reset_abandons_a_cycle() {
    let mut engine = Dht22::open(4);
    start_signal(&mut engine);
    hold(&mut engine, PinValue::High, 100);
    pair(&mut engine, 3, 4);
    engine.reset();
    assert_eq!(engine.pending(), Action::SetDirection(PinDirection::Out));
    assert_eq!(engine.pin(), 4);
    let actions = start_signal(&mut engine);
    assert_eq!(actions.len(), 7);
    hold(&mut engine, PinValue::High, 128000);
    assert_eq!(engine.step(Event::Sampled(PinValue::High)), Action::Finish(DhtResult::Timeout));
}

#[test]
fn phases_of_no_samples_are_measured_as_zero() {
    // Every phase ends on its first sample: all 82 durations are 0, every
    // high is at the threshold 0, every bit is a one.
    let mut engine = Dht22::open(4);
    start_signal(&mut engine);
    for _ in 0..41 {
        assert_eq!(engine.step(Event::Sampled(PinValue::Low)), Action::Sample);
        assert_eq!(engine.step(Event::Sampled(PinValue::High)), Action::Sample);
    }
    assert_eq!(
        engine.step(Event::Sampled(PinValue::Low)),
        Action::Finish(DhtResult::ChecksumError)
    );
}
