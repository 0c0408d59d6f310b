//! Patterns: ordered schedules of datapath-side actions, replayed by the
//! datapath in construction order.

use vstd::prelude::*;

verus! {

/// One datapath-side action. Durations are in microseconds.
#[derive(Debug, Clone, Copy, PartialEq, Eq, Structural)]
pub enum PatternEvent {
    SetRateAbs(u32),
    SetCwndAbs(u32),
    WaitMicros(u32),
    Report,
}

/// An ordered sequence of datapath actions; the datapath replays them in
/// this order.
#[derive(Debug)]
pub struct Pattern {
    pub events: Vec<PatternEvent>,
}

impl View for Pattern {
    type V = Seq<PatternEvent>;

    open spec fn view(&self) -> Seq<PatternEvent> {
        self.events@
    }
}

impl Pattern {
    /// An empty pattern.
    pub fn new() -> (p: Pattern)
        ensures
            p@ == Seq::<PatternEvent>::empty(),
    {
        let p = Pattern { events: Vec::new() };
        proof {
            assert(p@ =~= Seq::<PatternEvent>::empty());
        }
        p
    }

    /// Append an event; the datapath will replay it after the ones already
    /// present.
    pub fn push(&mut self, ev: PatternEvent)
        ensures
            final(self)@ == old(self)@ + seq![ev],
    {
        self.events.push(ev);
        proof {
            assert(self@ =~= old(self)@ + seq![ev]);
        }
    }

    /// Number of events.
    pub fn len(&self) -> (n: usize)
        ensures
            n == self@.len(),
    {
        self.events.len()
    }
}

} // verus!
