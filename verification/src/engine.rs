//! The engine of a read cycle.
//!
//! The engine never touches the line. It says what is to be done next: point
//! the pin, drive it, wait, or sample it. The host does that and reports
//! back, and the engine decides how the cycle goes on. One cycle wakes the
//! sensor, waits for it to answer, measures 41 pulse pairs by counting for
//! how many samples the line keeps each level, and decodes them. A level
//! that is kept for more than `DHT_MAXCOUNT` samples ends the cycle with
//! `Timeout`.

use vstd::prelude::*;
use crate::frame::DhtResult;
use crate::gpio::{PinDirection, PinValue};
use crate::pulse::{decode_pulses, spec_decode_pulses, Capture, Pulse, DHT_PULSES};

verus! {

/// The most samples for which the line may keep one level.
pub const DHT_MAXCOUNT: u32 = 128000;

/// For how many milliseconds the line is held high before the start pulse.
pub const WAKE_MILLIS: u64 = 500;

/// For how many milliseconds the line is held low as the start pulse.
pub const START_MILLIS: u64 = 20;

/// What the host is to do next.
#[derive(Clone, Copy, Debug, PartialEq, Eq, Structural)]
pub enum Action {
    /// Set the direction of the pin.
    SetDirection(PinDirection),
    /// Drive the pin to a level.
    SetValue(PinValue),
    /// Wait for this many milliseconds.
    Sleep(u64),
    /// Read the level of the pin and report it.
    Sample,
    /// Nothing more: the cycle has ended with this result.
    Finish(DhtResult),
}

/// What the host reports after an action.
#[derive(Clone, Copy, Debug, PartialEq, Eq, Structural)]
pub enum Event {
    /// The direction was set, the pin was driven, or the wait is over.
    Performed,
    /// The pin was read and had this level.
    Sampled(PinValue),
}

/// Where in its cycle the engine is.
#[derive(Clone, Copy, Debug, PartialEq, Eq, Structural)]
pub enum Stage {
    /// About to take the line as an output.
    Claim,
    /// About to drive the line high.
    Raise,
    /// About to hold the line high.
    Wake,
    /// About to pull the line low.
    Pull,
    /// About to hold the line low.
    Start,
    /// About to hand the line to the sensor.
    Release,
    /// Sampling while the line is still high, until the sensor pulls it low.
    Await,
    /// Measuring the low phase of a pulse pair.
    Low,
    /// Measuring the high phase of a pulse pair.
    High,
}

/// The state of an engine.
pub struct EngineState {
    /// The pin that the engine was opened for.
    pub pin: usize,
    /// Where in the cycle the engine is.
    pub stage: Stage,
    /// For how many samples the line has kept the level being measured.
    pub count: nat,
    /// In stage `High`, the low duration of the pair being measured.
    pub low: nat,
    /// The pulse pairs measured so far in this cycle.
    pub pulses: Seq<Pulse>,
}

impl EngineState {
    /// The state at the start of a cycle.
    pub open spec fn initial(pin: usize) -> EngineState {
        EngineState { pin, stage: Stage::Claim, count: 0, low: 0, pulses: Seq::empty() }
    }

    /// What holds of every state that an engine can be in.
    pub open spec fn wf(self) -> bool {
        &&& self.count <= DHT_MAXCOUNT
        &&& self.low <= DHT_MAXCOUNT
        &&& self.pulses.len() < 41
        &&& forall|i: int|
            0 <= i < self.pulses.len() ==> (#[trigger] self.pulses[i]).low <= DHT_MAXCOUNT
                && self.pulses[i].high <= DHT_MAXCOUNT
    }
}

/// The action that a stage waits for.
pub open spec fn spec_pending(stage: Stage) -> Action {
    match stage {
        Stage::Claim => Action::SetDirection(PinDirection::Out),
        Stage::Raise => Action::SetValue(PinValue::High),
        Stage::Wake => Action::Sleep(WAKE_MILLIS),
        Stage::Pull => Action::SetValue(PinValue::Low),
        Stage::Start => Action::Sleep(START_MILLIS),
        Stage::Release => Action::SetDirection(PinDirection::In),
        Stage::Await | Stage::Low | Stage::High => Action::Sample,
    }
}

/// The stage that follows once the action of `stage` is performed. The
/// sampling stages have no such successor and stay.
pub open spec fn spec_after(stage: Stage) -> Stage {
    match stage {
        Stage::Claim => Stage::Raise,
        Stage::Raise => Stage::Wake,
        Stage::Wake => Stage::Pull,
        Stage::Pull => Stage::Start,
        Stage::Start => Stage::Release,
        Stage::Release => Stage::Await,
        Stage::Await => Stage::Await,
        Stage::Low => Stage::Low,
        Stage::High => Stage::High,
    }
}

/// The level that a sampling stage counts.
pub open spec fn spec_measured(stage: Stage) -> PinValue {
    match stage {
        Stage::Low => PinValue::Low,
        _ => PinValue::High,
    }
}

/// One step of the engine: the state and the action that follow when
/// `event` is reported in state `state`.
///
/// An event that does not answer the pending action changes nothing, and the
/// action is asked for again. Nothing is counted before the start signal is
/// through. When a cycle ends, the state is that of a new cycle.
pub open spec fn spec_step(state: EngineState, event: Event) -> (EngineState, Action) {
    match (spec_pending(state.stage), event) {
        (Action::Sample, Event::Sampled(value)) => {
            if value == spec_measured(state.stage) {
                if state.count >= DHT_MAXCOUNT {
                    (EngineState::initial(state.pin), Action::Finish(DhtResult::Timeout))
                } else {
                    (EngineState { count: state.count + 1, ..state }, Action::Sample)
                }
            } else {
                match state.stage {
                    Stage::Low => (
                        EngineState { stage: Stage::High, low: state.count, count: 0, ..state },
                        Action::Sample,
                    ),
                    Stage::High => {
                        let pulses = state.pulses.push(
                            Pulse { low: state.low as u32, high: state.count as u32 },
                        );
                        if pulses.len() >= 41 {
                            (
                                EngineState::initial(state.pin),
                                Action::Finish(spec_decode_pulses(pulses)),
                            )
                        } else {
                            (
                                EngineState { stage: Stage::Low, low: 0, count: 0, pulses, ..state },
                                Action::Sample,
                            )
                        }
                    },
                    _ => (EngineState { stage: Stage::Low, count: 0, ..state }, Action::Sample),
                }
            }
        },
        (Action::Sample, Event::Performed) => (state, Action::Sample),
        (action, Event::Sampled(_)) => (state, action),
        (_, Event::Performed) => {
            let stage = spec_after(state.stage);
            (EngineState { stage, ..EngineState::initial(state.pin) }, spec_pending(stage))
        },
    }
}

/// A step keeps the pin, and takes a well-formed state to a well-formed
/// state.
pub proof fn lemma_step_keeps_wf(state: EngineState, event: Event)
    requires
        state.wf(),
    ensures
        spec_step(state, event).0.wf(),
        spec_step(state, event).0.pin == state.pin,
{
}

/// A step ends the cycle only on a sample, and the state is then that of a
/// new cycle.
pub proof fn lemma_finish_starts_over(state: EngineState, event: Event)
    requires
        spec_step(state, event).1 is Finish,
    ensures
        event is Sampled,
        spec_pending(state.stage) == Action::Sample,
        spec_step(state, event).0 == EngineState::initial(state.pin),
{
}

/// The engine for the sensor on one pin.
pub struct Dht22 {
    pin: usize,
    stage: Stage,
    count: u32,
    low: u32,
    filled: usize,
    pulses: Capture,
}

impl View for Dht22 {
    type V = EngineState;

    closed spec fn view(&self) -> EngineState {
        EngineState {
            pin: self.pin,
            stage: self.stage,
            count: self.count as nat,
            low: self.low as nat,
            pulses: self.pulses@.take(self.filled as int),
        }
    }
}

impl Dht22 {
    #[verifier::type_invariant]
    spec fn inv(self) -> bool {
        &&& self.filled < 41
        &&& self@.wf()
    }

    /// Makes the engine for the sensor on `pin`, at the start of a cycle.
    pub fn open(pin: usize) -> (engine: Dht22)
        ensures
            engine@ == EngineState::initial(pin),
    {
        let engine = Dht22 {
            pin,
            stage: Stage::Claim,
            count: 0,
            low: 0,
            filled: 0,
            pulses: [Pulse { low: 0, high: 0 };41],
        };
        assert(engine@.pulses =~= Seq::empty());
        engine
    }

    /// The pin that the engine was opened for.
    pub fn pin(&self) -> (pin: usize)
        ensures
            pin == self@.pin,
    {
        self.pin
    }

    /// The action that the engine waits for.
    pub fn pending(&self) -> (action: Action)
        ensures
            action == spec_pending(self@.stage),
            self@.wf(),
    {
        proof {
            use_type_invariant(self);
        }
        match self.stage {
            Stage::Claim => Action::SetDirection(PinDirection::Out),
            Stage::Raise => Action::SetValue(PinValue::High),
            Stage::Wake => Action::Sleep(WAKE_MILLIS),
            Stage::Pull => Action::SetValue(PinValue::Low),
            Stage::Start => Action::Sleep(START_MILLIS),
            Stage::Release => Action::SetDirection(PinDirection::In),
            Stage::Await | Stage::Low | Stage::High => Action::Sample,
        }
    }

    /// Abandons the cycle in progress, if any: the engine is at the start of
    /// a cycle again.
    pub fn reset(&mut self)
        ensures
            final(self)@ == EngineState::initial(old(self)@.pin),
    {
        proof {
            use_type_invariant(&*self);
        }
        self.filled = 0;
        self.low = 0;
        self.count = 0;
        self.stage = Stage::Claim;
        assert(self@.pulses =~= Seq::empty());
    }

    /// Takes the report of the host and says what is to be done next.
    pub fn step(&mut self, event: Event) -> (action: Action)
        ensures
            (final(self)@, action) == spec_step(old(self)@, event),
            final(self)@.wf(),
    {
        proof {
            use_type_invariant(&*self);
        }
        let measured = match self.stage {
            Stage::Await | Stage::High => PinValue::High,
            Stage::Low => PinValue::Low,
            _ => {
                match event {
                    Event::Performed => {
                        self.filled = 0;
                        self.low = 0;
                        self.count = 0;
                        self.stage = Self::after(self.stage);
                        assert(self@.pulses =~= Seq::empty());
                    },
                    Event::Sampled(_) => {},
                }
                return self.pending();
            },
        };
        let value = match event {
            Event::Sampled(value) => value,
            Event::Performed => {
                return Action::Sample;
            },
        };
        if value == measured {
            if self.count >= DHT_MAXCOUNT {
                self.reset();
                return Action::Finish(DhtResult::Timeout);
            }
            self.count = self.count + 1;
            return Action::Sample;
        }
        match self.stage {
            Stage::Low => {
                self.low = self.count;
                self.count = 0;
                self.stage = Stage::High;
                Action::Sample
            },
            Stage::High => {
                let ghost before = self@.pulses;
                let pulse = Pulse { low: self.low, high: self.count };
                proof {
                    let stored = self.pulses@.update(self.filled as int, pulse);
                    assert(stored.take(self.filled as int) =~= before);
                }
                self.pulses[self.filled] = pulse;
                assert(self.pulses@.take(self.filled + 1) =~= before.push(pulse));
                if self.filled + 1 >= DHT_PULSES {
                    assert(self.pulses@.take(41) =~= self.pulses@);
                    let result = decode_pulses(&self.pulses);
                    self.reset();
                    return Action::Finish(result);
                }
                self.filled = self.filled + 1;
                self.low = 0;
                self.count = 0;
                self.stage = Stage::Low;
                Action::Sample
            },
            _ => {
                self.count = 0;
                self.stage = Stage::Low;
                Action::Sample
            },
        }
    }

    /// The stage that follows a stage whose action was performed.
    fn after(stage: Stage) -> (next: Stage)
        ensures
            next == spec_after(stage),
    {
        match stage {
            Stage::Claim => Stage::Raise,
            Stage::Raise => Stage::Wake,
            Stage::Wake => Stage::Pull,
            Stage::Pull => Stage::Start,
            Stage::Start => Stage::Release,
            Stage::Release => Stage::Await,
            Stage::Await => Stage::Await,
            Stage::Low => Stage::Low,
            Stage::High => Stage::High,
        }
    }
}

} // verus!
