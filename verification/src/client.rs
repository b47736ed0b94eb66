//! The pace of a producer client: when a stream of items ends, and when the
//! producer is asked for the next one.
//!
//! The client itself waits on timers and on its producer, which is not done
//! here. Here is what it decides each time it is polled: given how long it
//! has run and how much it has handed out, whether to finish, to wait for
//! the next tick, or to ask the producer.

use vstd::prelude::*;

verus! {

/// How many items a client may hand out.
#[derive(Clone, Copy, Debug, PartialEq, Eq, Structural)]
pub enum Amount {
    Limited(u64),
    Unlimited,
}

/// How long a client may run, in nanoseconds.
#[derive(Clone, Copy, Debug, PartialEq, Eq, Structural)]
pub enum RunPeriod {
    Finite(u128),
    Indefinite,
}

/// Whether a client hands out items as fast as its producer has them, or
/// one at each tick of an interval timer.
#[derive(Clone, Copy, Debug, PartialEq, Eq, Structural)]
pub enum Frequency {
    Immediate,
    Delayed,
}

/// What an interval timer answered when it was polled.
#[derive(Clone, Copy, Debug, PartialEq, Eq, Structural)]
pub enum Tick {
    NotReady,
    Ready,
    Failed,
}

/// What a client does next.
#[derive(Clone, Copy, Debug, PartialEq, Eq, Structural)]
pub enum Step {
    /// End the stream.
    Finish,
    /// Poll the interval timer, and go on by what it answers.
    AwaitTick,
    /// Poll the producer and hand on what it gives.
    PollProducer,
    /// Report that nothing is ready yet.
    Wait,
    /// Report an error.
    Fail,
}

/// The bounds and the pace of a client, and the count of what it has handed
/// out. The count is kept only where the amount is limited.
#[derive(Clone, Copy, Debug, PartialEq, Eq, Structural)]
pub struct Client {
    pub amount: Amount,
    pub run_period: RunPeriod,
    pub frequency: Frequency,
    pub produced: Option<u64>,
}

impl Client {
    /// Whether a bound is reached after `elapsed` nanoseconds: the run period
    /// is over, or as many items as allowed were handed out.
    pub open spec fn exhausted(self, elapsed: u128) -> bool {
        ||| self.run_period matches RunPeriod::Finite(period) && elapsed >= period
        ||| self.amount matches Amount::Limited(max_items) && self.produced matches Some(items)
            && items >= max_items
    }

    /// A client that has handed out nothing yet.
    pub fn new(amount: Amount, run_period: RunPeriod, frequency: Frequency) -> (c: Self)
        ensures
            c.amount == amount,
            c.run_period == run_period,
            c.frequency == frequency,
            c.produced == match amount {
                Amount::Limited(_) => Some(0u64),
                Amount::Unlimited => None,
            },
    {
        let produced = match amount {
            Amount::Limited(_) => Some(0),
            Amount::Unlimited => None,
        };
        Client { amount, run_period, frequency, produced }
    }

    /// What to do when polled `elapsed` nanoseconds after the start: finish
    /// where a bound is reached, the time bound first; else wait for the
    /// timer or ask the producer, by the frequency.
    pub fn poll(&self, elapsed: u128) -> (step: Step)
        ensures
            step == if self.exhausted(elapsed) {
                Step::Finish
            } else if self.frequency == Frequency::Delayed {
                Step::AwaitTick
            } else {
                Step::PollProducer
            },
    {
        if let RunPeriod::Finite(period) = self.run_period {
            if elapsed >= period {
                return Step::Finish;
            }
        }
        if let Amount::Limited(max_items) = self.amount {
            if let Some(items) = self.produced {
                if items >= max_items {
                    return Step::Finish;
                }
            }
        }
        match self.frequency {
            Frequency::Immediate => Step::PollProducer,
            Frequency::Delayed => Step::AwaitTick,
        }
    }

    /// What to do after the interval timer answered: ask the producer once
    /// it has ticked.
    pub fn on_tick(&self, tick: Tick) -> (step: Step)
        ensures
            step == match tick {
                Tick::NotReady => Step::Wait,
                Tick::Failed => Step::Fail,
                Tick::Ready => Step::PollProducer,
            },
    {
        match tick {
            Tick::NotReady => Step::Wait,
            Tick::Failed => Step::Fail,
            Tick::Ready => Step::PollProducer,
        }
    }

    /// Counts an item that the producer gave, where the amount is limited.
    /// The count stops at the largest number.
    pub fn on_item(&mut self)
        ensures
            final(self).amount == old(self).amount,
            final(self).run_period == old(self).run_period,
            final(self).frequency == old(self).frequency,
            final(self).produced == match old(self).produced {
                Some(items) => Some(if items < u64::MAX { (items + 1) as u64 } else { items }),
                None => None,
            },
    {
        if let Some(items) = self.produced {
            if items < u64::MAX {
                self.produced = Some(items + 1);
            }
        }
    }
}

} // verus!
