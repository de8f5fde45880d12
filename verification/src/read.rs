//! A whole read cycle on a recorded feed.

use vstd::prelude::*;
use crate::engine::{
    spec_pending, spec_step, Action, Dht22, EngineState, Event, Stage, DHT_MAXCOUNT,
};
use crate::frame::DhtResult;
use crate::gpio::PinValue;
use crate::pulse::Pulse;
use crate::trace::{
    lemma_next_start, lemma_nothing_past_end, lemma_run_at_least, lemma_run_exact,
    lemma_starts_increase, spec_capture, spec_complete, spec_high_count, spec_high_start,
    spec_lead, spec_low_count, spec_low_start, spec_read, spec_timed_out,
};

verus! {

/// How many actions of the start signal are still to be performed.
spec fn spec_commands_left(stage: Stage) -> nat {
    match stage {
        Stage::Claim => 6,
        Stage::Raise => 5,
        Stage::Wake => 4,
        Stage::Pull => 3,
        Stage::Start => 2,
        Stage::Release => 1,
        _ => 0,
    }
}

/// Whether `pulses` are the first pairs of `feed`, none of them too long.
spec fn spec_pairs_match(feed: Seq<PinValue>, pulses: Seq<Pulse>) -> bool {
    &&& spec_lead(feed) <= DHT_MAXCOUNT
    &&& pulses.len() < 41
    &&& forall|m: int|
        0 <= m < pulses.len() ==> {
            &&& #[trigger] spec_low_count(feed, m) <= DHT_MAXCOUNT
            &&& spec_high_count(feed, m) <= DHT_MAXCOUNT
            &&& pulses[m] == Pulse {
                low: spec_low_count(feed, m) as u32,
                high: spec_high_count(feed, m) as u32,
            }
        }
}

/// Whether the samples of `feed` from `from` up to `n` all have `value`.
spec fn spec_stretch(feed: Seq<PinValue>, from: int, n: int, value: PinValue) -> bool {
    &&& 0 <= from <= n <= feed.len()
    &&& forall|j: int| from <= j < n ==> feed[j] == value
}

/// Whether `state` is where the first `n` samples of `feed` take an engine
/// that began to sample with the first of them.
spec fn spec_tracks(feed: Seq<PinValue>, n: int, state: EngineState) -> bool {
    let i = state.pulses.len() as int;
    &&& state.count <= DHT_MAXCOUNT
    &&& match state.stage {
        Stage::Await => {
            &&& i == 0
            &&& state.count == n
            &&& spec_stretch(feed, 0, n, PinValue::High)
        },
        Stage::Low => {
            &&& spec_pairs_match(feed, state.pulses)
            &&& spec_low_start(feed, i) + state.count == n
            &&& spec_stretch(feed, spec_low_start(feed, i), n, PinValue::Low)
        },
        Stage::High => {
            &&& spec_pairs_match(feed, state.pulses)
            &&& state.low == spec_low_count(feed, i)
            &&& state.low <= DHT_MAXCOUNT
            &&& spec_high_start(feed, i) + state.count == n
            &&& spec_stretch(feed, spec_high_start(feed, i), n, PinValue::High)
        },
        _ => false,
    }
}

/// One more sample keeps the engine on the feed, or ends the cycle with the
/// result that the feed has.
proof fn lemma_sample(feed: Seq<PinValue>, n: int, state: EngineState)
    requires
        spec_tracks(feed, n, state),
        n < feed.len(),
    ensures
        ({
            let (next, action) = spec_step(state, Event::Sampled(feed[n]));
            match action {
                Action::Sample => spec_tracks(feed, n + 1, next),
                Action::Finish(result) => spec_read(feed) == Some(result),
                _ => false,
            }
        }),
{
    let (next, action) = spec_step(state, Event::Sampled(feed[n]));
    let i = state.pulses.len() as int;
    match state.stage {
        Stage::Await => {
            if feed[n] == PinValue::High {
                if state.count >= DHT_MAXCOUNT {
                    lemma_run_at_least(feed, 0, PinValue::High, (n + 1) as nat);
                }
            } else {
                lemma_run_exact(feed, 0, PinValue::High, n as nat);
                assert(next.pulses.len() == 0);
                assert(spec_low_start(feed, 0) == n + 1);
            }
        },
        Stage::Low => {
            let from = spec_low_start(feed, i);
            if feed[n] == PinValue::Low {
                if state.count >= DHT_MAXCOUNT {
                    lemma_run_at_least(feed, from, PinValue::Low, (state.count + 1) as nat);
                    assert(spec_low_count(feed, i) > DHT_MAXCOUNT);
                }
            } else {
                lemma_run_exact(feed, from, PinValue::Low, state.count);
            }
        },
        Stage::High => {
            let from = spec_high_start(feed, i);
            if feed[n] == PinValue::High {
                if state.count >= DHT_MAXCOUNT {
                    lemma_run_at_least(feed, from, PinValue::High, (state.count + 1) as nat);
                    assert(spec_high_count(feed, i) > DHT_MAXCOUNT);
                }
            } else {
                lemma_run_exact(feed, from, PinValue::High, state.count);
                lemma_next_start(feed, i);
                let pulses = state.pulses.push(
                    Pulse { low: state.low as u32, high: state.count as u32 },
                );
                assert forall|m: int| 0 <= m < pulses.len() implies {
                    &&& #[trigger] spec_low_count(feed, m) <= DHT_MAXCOUNT
                    &&& spec_high_count(feed, m) <= DHT_MAXCOUNT
                    &&& pulses[m] == Pulse {
                        low: spec_low_count(feed, m) as u32,
                        high: spec_high_count(feed, m) as u32,
                    }
                } by {
                    if m < i {
                        assert(pulses[m] == state.pulses[m]);
                    }
                }
                if pulses.len() >= 41 {
                    assert(pulses =~= spec_capture(feed));
                    assert(!spec_timed_out(feed));
                    assert(spec_complete(feed));
                }
            }
        },
        _ => {},
    }
}

/// A feed that ends while the engine is still on it has no result.
proof fn lemma_feed_ended(feed: Seq<PinValue>, state: EngineState)
    requires
        spec_tracks(feed, feed.len() as int, state),
    ensures
        spec_read(feed) == None::<DhtResult>,
{
    let n = feed.len() as int;
    let i = state.pulses.len() as int;
    match state.stage {
        Stage::Await => {
            lemma_run_exact(feed, 0, PinValue::High, n as nat);
            assert(spec_low_start(feed, 0) > n);
            assert forall|m: int| 0 <= m < 41 implies spec_low_count(feed, m) == 0
                && spec_high_count(feed, m) == 0 by {
                lemma_starts_increase(feed, 0, m);
            }
            lemma_starts_increase(feed, 0, 41);
        },
        Stage::Low => {
            lemma_run_exact(feed, spec_low_start(feed, i), PinValue::Low, state.count);
            assert forall|m: int| 0 <= m < 41 implies spec_low_count(feed, m) <= DHT_MAXCOUNT
                && spec_high_count(feed, m) <= DHT_MAXCOUNT by {
                if m > i {
                    lemma_nothing_past_end(feed, i, m);
                }
            }
            lemma_nothing_past_end(feed, i, 41);
        },
        Stage::High => {
            lemma_run_exact(feed, spec_high_start(feed, i), PinValue::High, state.count);
            lemma_next_start(feed, i);
            assert forall|m: int| 0 <= m < 41 implies spec_low_count(feed, m) <= DHT_MAXCOUNT
                && spec_high_count(feed, m) <= DHT_MAXCOUNT by {
                if m > i {
                    lemma_starts_increase(feed, i + 1, m);
                }
            }
            lemma_starts_increase(feed, i + 1, 41);
        },
        _ => {},
    }
}

impl Dht22 {
    /// Runs one read cycle on a recorded feed: performs the start signal on
    /// nothing, then hands the engine the samples of `feed` in order, as
    /// many as the cycle asks for.
    ///
    /// Gives the result of the cycle, or `None` if the feed ends before the
    /// cycle does. A cycle that was in progress is abandoned first, and the
    /// engine is left at the start of a cycle.
    pub fn read_data(&mut self, feed: &[PinValue]) -> (result: Option<DhtResult>)
        ensures
            result == spec_read(feed@),
            final(self)@ == EngineState::initial(old(self)@.pin),
    {
        self.reset();
        let mut action = self.pending();
        while action != Action::Sample
            invariant
                action == spec_pending(self@.stage),
                self@ == (EngineState { stage: self@.stage, ..EngineState::initial(old(self)@.pin) }),
                self@.stage is Await || spec_commands_left(self@.stage) > 0,
            decreases spec_commands_left(self@.stage),
        {
            action = self.step(Event::Performed);
        }
        let mut n: usize = 0;
        while n < feed.len()
            invariant
                spec_tracks(feed@, n as int, self@),
                self@.pin == old(self)@.pin,
            decreases feed.len() - n,
        {
            proof {
                lemma_sample(feed@, n as int, self@);
            }
            let action = self.step(Event::Sampled(feed[n]));
            n = n + 1;
            match action {
                Action::Finish(result) => {
                    return Some(result);
                },
                _ => {},
            }
        }
        proof {
            lemma_feed_ended(feed@, self@);
        }
        self.reset();
        None
    }
}

} // verus!
