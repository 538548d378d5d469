use vstd::prelude::*;

use crate::fraction::Fraction;

verus! {

/// How many settling slots a burst is given before its latest value is shown.
pub const DRAIN_SLOTS: u64 = 10;

/// The length of one settling slot, in milliseconds.
pub const SLOT_MILLIS: u64 = 150;

/// Where the coalescer stands between two reads of the channel.
#[derive(Clone, Copy, Debug, PartialEq, Eq, Structural)]
pub enum Phase {
    /// Nothing pending: the next read blocks until a value comes.
    Idle,
    /// One value came; the next read looks, without waiting, for a second.
    Received { first: Fraction },
    /// A burst is settling: `slots` slots of it have passed, `latest` is the
    /// last value seen.
    Draining { latest: Fraction, slots: u64 },
}

/// What one read of the channel gave.
#[derive(Clone, Copy, Debug, PartialEq, Eq, Structural)]
pub enum Event {
    /// A value was there.
    Arrived(Fraction),
    /// Nothing was there.
    Empty,
    /// Every sender is gone.
    Closed,
}

/// How the next read of the channel is to be made.
#[derive(Clone, Copy, Debug, PartialEq, Eq, Structural)]
pub enum Wait {
    /// Block until a value comes or every sender is gone.
    Block,
    /// Look once, without waiting.
    Poll,
    /// Sleep for one slot of `SLOT_MILLIS`, then look once.
    SleepThenPoll,
}

/// A blocking read found every sender gone: no value will come again.
#[derive(Clone, Copy, Debug, PartialEq, Eq, Structural)]
pub struct ChannelClosed;

pub open spec fn phase_wf(p: Phase) -> bool {
    match p {
        Phase::Draining { slots, .. } => slots < DRAIN_SLOTS,
        _ => true,
    }
}

pub open spec fn wait_in(p: Phase) -> Wait {
    match p {
        Phase::Idle => Wait::Block,
        Phase::Received { .. } => Wait::Poll,
        Phase::Draining { .. } => Wait::SleepThenPoll,
    }
}

/// Whether the event ends the coalescer: only a blocking read can fail so.
pub open spec fn closes(p: Phase, e: Event) -> bool {
    p is Idle && e is Closed
}

/// The phase after event `e` in phase `p`.
pub open spec fn next_phase(p: Phase, e: Event) -> Phase {
    match p {
        Phase::Idle => match e {
            Event::Arrived(v) => Phase::Received { first: v },
            _ => Phase::Idle,
        },
        Phase::Received { .. } => match e {
            Event::Arrived(x) => Phase::Draining { latest: x, slots: 0 },
            _ => Phase::Idle,
        },
        Phase::Draining { latest, slots } => if slots + 1 >= DRAIN_SLOTS {
            Phase::Idle
        } else {
            match e {
                Event::Arrived(y) => Phase::Draining { latest: y, slots: (slots + 1) as u64 },
                _ => Phase::Draining { latest, slots: (slots + 1) as u64 },
            }
        },
    }
}

/// The settled value shown after event `e` in phase `p`, if any.
pub open spec fn settled(p: Phase, e: Event) -> Option<Fraction> {
    match p {
        Phase::Idle => None,
        Phase::Received { first } => match e {
            Event::Arrived(_) => None,
            _ => Some(first),
        },
        Phase::Draining { latest, slots } => if slots + 1 >= DRAIN_SLOTS {
            match e {
                Event::Arrived(y) => Some(y),
                _ => Some(latest),
            }
        } else {
            None
        },
    }
}

pub open spec fn option_seq(o: Option<Fraction>) -> Seq<Fraction> {
    match o {
        Some(v) => seq![v],
        None => Seq::empty(),
    }
}

/// The phase reached from `p` through the events `evs`, and the values
/// settled on the way, in order.
pub open spec fn run(p: Phase, evs: Seq<Event>) -> (Phase, Seq<Fraction>)
    decreases evs.len(),
{
    if evs.len() == 0 {
        (p, Seq::empty())
    } else {
        let rest = run(next_phase(p, evs[0]), evs.drop_first());
        (rest.0, option_seq(settled(p, evs[0])) + rest.1)
    }
}

/// The last value that arrived in `evs`, or `v` if none did.
pub open spec fn latest_arrived(v: Fraction, evs: Seq<Event>) -> Fraction
    decreases evs.len(),
{
    if evs.len() == 0 {
        v
    } else {
        match evs[0] {
            Event::Arrived(x) => latest_arrived(x, evs.drop_first()),
            _ => latest_arrived(v, evs.drop_first()),
        }
    }
}

/// The consumer of brightness readings: it collapses a burst of readings
/// into the one value that the burst settles on.
pub struct Coalescer {
    phase: Phase,
}

impl Coalescer {
    pub closed spec fn phase(&self) -> Phase {
        self.phase
    }

    pub open spec fn wf(&self) -> bool {
        phase_wf(self.phase())
    }

    /// A coalescer with nothing pending.
    pub fn new() -> (r: Coalescer)
        ensures
            r.phase() == Phase::Idle,
            r.wf(),
    {
        Coalescer { phase: Phase::Idle }
    }

    /// How the next read of the channel is to be made.
    pub fn next_wait(&self) -> (r: Wait)
        ensures
            r == wait_in(self.phase()),
    {
        match self.phase {
            Phase::Idle => Wait::Block,
            Phase::Received { .. } => Wait::Poll,
            Phase::Draining { .. } => Wait::SleepThenPoll,
        }
    }

    /// Takes what a read of the channel gave; returns the value to show, if
    /// the read settled one, or `ChannelClosed` where a blocking read found
    /// every sender gone.
    pub fn on_event(&mut self, e: Event) -> (r: Result<Option<Fraction>, ChannelClosed>)
        requires
            old(self).wf(),
        ensures
            final(self).wf(),
            final(self).phase() == next_phase(old(self).phase(), e),
            r == (if closes(old(self).phase(), e) {
                Err(ChannelClosed)
            } else {
                Ok(settled(old(self).phase(), e))
            }),
    {
        match self.phase {
            Phase::Idle => match e {
                Event::Arrived(v) => {
                    self.phase = Phase::Received { first: v };
                    Ok(None)
                },
                Event::Empty => Ok(None),
                Event::Closed => Err(ChannelClosed),
            },
            Phase::Received { first } => match e {
                Event::Arrived(x) => {
                    self.phase = Phase::Draining { latest: x, slots: 0 };
                    Ok(None)
                },
                _ => {
                    self.phase = Phase::Idle;
                    Ok(Some(first))
                },
            },
            Phase::Draining { latest, slots } => {
                let seen = match e {
                    Event::Arrived(y) => y,
                    _ => latest,
                };
                if slots + 1 >= DRAIN_SLOTS {
                    self.phase = Phase::Idle;
                    Ok(Some(seen))
                } else {
                    self.phase = Phase::Draining { latest: seen, slots: slots + 1 };
                    Ok(None)
                }
            },
        }
    }
}

/// Running through two traces one after the other settles the values of the
/// first, then those of the second from where the first left off.
pub proof fn lemma_run_append(p: Phase, a: Seq<Event>, b: Seq<Event>)
    ensures
        run(p, a + b) == (run(run(p, a).0, b).0, run(p, a).1 + run(run(p, a).0, b).1),
    decreases a.len(),
{
    if a.len() == 0 {
        assert(a + b =~= b);
        assert(run(p, a).1 + run(p, b).1 =~= run(p, b).1);
    } else {
        assert((a + b).drop_first() =~= a.drop_first() + b);
        lemma_run_append(next_phase(p, a[0]), a.drop_first(), b);
        let o = option_seq(settled(p, a[0]));
        let q = run(next_phase(p, a[0]), a.drop_first());
        assert(o + (q.1 + run(q.0, b).1) =~= (o + q.1) + run(q.0, b).1);
    }
}

/// A settling burst that has passed `slots` slots shows, once the remaining
/// slots are read, exactly the last value that arrived, and is then idle.
proof fn lemma_drain(latest: Fraction, slots: u64, reads: Seq<Event>)
    requires
        slots < DRAIN_SLOTS,
        reads.len() == DRAIN_SLOTS - slots,
    ensures
        run(Phase::Draining { latest, slots }, reads) == (
            Phase::Idle,
            seq![latest_arrived(latest, reads)],
        ),
    decreases reads.len(),
{
    let p = Phase::Draining { latest, slots };
    let e = reads[0];
    let rest = reads.drop_first();
    let seen = match e {
        Event::Arrived(y) => y,
        _ => latest,
    };
    assert(latest_arrived(latest, reads) == latest_arrived(seen, rest));
    if slots + 1 >= DRAIN_SLOTS {
        assert(rest.len() == 0);
        assert(latest_arrived(seen, rest) == seen);
        assert(run(Phase::Idle, rest) == (Phase::Idle, Seq::<Fraction>::empty()));
        assert(option_seq(settled(p, e)) + Seq::<Fraction>::empty() =~= seq![seen]);
    } else {
        lemma_drain(seen, (slots + 1) as u64, rest);
        assert(Seq::<Fraction>::empty() + seq![latest_arrived(seen, rest)] =~= seq![
            latest_arrived(seen, rest),
        ]);
    }
}

/// A value that comes alone, with nothing behind it at the look that
/// follows, is shown at once, and the coalescer is idle again; that look does
/// not wait.
pub proof fn lemma_isolated_value(v: Fraction)
    ensures
        wait_in(next_phase(Phase::Idle, Event::Arrived(v))) == Wait::Poll,
        run(Phase::Idle, seq![Event::Arrived(v), Event::Empty]) == (Phase::Idle, seq![v]),
{
    let evs = seq![Event::Arrived(v), Event::Empty];
    let q = Phase::Received { first: v };
    assert(evs.drop_first() =~= seq![Event::Empty]);
    assert(seq![Event::Empty].drop_first() =~= Seq::<Event>::empty());
    assert(run(Phase::Idle, Seq::<Event>::empty()) == (Phase::Idle, Seq::<Fraction>::empty()));
    assert(seq![v] + Seq::<Fraction>::empty() =~= seq![v]);
    assert(run(q, seq![Event::Empty]) == (Phase::Idle, seq![v]));
    assert(Seq::<Fraction>::empty() + seq![v] =~= seq![v]);
}

/// A burst of two values, followed by the reads of all settling slots
/// (each of which may or may not find a value), shows exactly one value: the
/// last value of the burst. The coalescer is then idle.
pub proof fn lemma_burst_settles_once(first: Fraction, second: Fraction, reads: Seq<Event>)
    requires
        reads.len() == DRAIN_SLOTS,
    ensures
        run(Phase::Idle, seq![Event::Arrived(first), Event::Arrived(second)] + reads) == (
            Phase::Idle,
            seq![latest_arrived(first, seq![Event::Arrived(first), Event::Arrived(second)] + reads)],
        ),
{
    let head = seq![Event::Arrived(first), Event::Arrived(second)];
    let evs = head + reads;
    assert(evs.drop_first() =~= seq![Event::Arrived(second)] + reads);
    assert((seq![Event::Arrived(second)] + reads).drop_first() =~= reads);
    assert(evs[0] == Event::Arrived(first));
    assert((seq![Event::Arrived(second)] + reads)[0] == Event::Arrived(second));
    lemma_drain(second, 0, reads);
    assert(latest_arrived(first, evs) == latest_arrived(first, seq![Event::Arrived(second)] + reads));
    assert(latest_arrived(first, seq![Event::Arrived(second)] + reads) == latest_arrived(
        second,
        reads,
    ));
    let d = Phase::Draining { latest: second, slots: 0 };
    assert(run(Phase::Received { first }, seq![Event::Arrived(second)] + reads) == (
        Phase::Idle,
        Seq::<Fraction>::empty() + seq![latest_arrived(second, reads)],
    ));
    assert(Seq::<Fraction>::empty() + (Seq::<Fraction>::empty() + seq![
        latest_arrived(second, reads),
    ]) =~= seq![latest_arrived(second, reads)]);
}

/// A burst whose values keep coming through every settling slot shows, at
/// the last slot, the value that arrived there; what comes after is
/// coalesced afresh, starting idle.
pub proof fn lemma_long_burst_restarts(
    first: Fraction,
    second: Fraction,
    reads: Seq<Event>,
    rest: Seq<Event>,
)
    requires
        reads.len() == DRAIN_SLOTS,
        forall|i: int| 0 <= i < reads.len() ==> (#[trigger] reads[i]) is Arrived,
    ensures
        ({
            let burst = seq![Event::Arrived(first), Event::Arrived(second)] + reads;
            let after = run(Phase::Idle, rest);
            run(Phase::Idle, burst + rest) == (
                after.0,
                seq![reads.last()->Arrived_0] + after.1,
            )
        }),
{
    let burst = seq![Event::Arrived(first), Event::Arrived(second)] + reads;
    lemma_burst_settles_once(first, second, reads);
    lemma_run_append(Phase::Idle, burst, rest);
    lemma_latest_is_last(first, burst);
}

/// Where the last event arrived, the last value to arrive is its value.
proof fn lemma_latest_is_last(v: Fraction, evs: Seq<Event>)
    requires
        evs.len() > 0,
        evs.last() is Arrived,
    ensures
        latest_arrived(v, evs) == evs.last()->Arrived_0,
    decreases evs.len(),
{
    if evs.len() > 1 {
        let w = match evs[0] {
            Event::Arrived(x) => x,
            _ => v,
        };
        assert(evs.drop_first().last() == evs.last());
        lemma_latest_is_last(w, evs.drop_first());
    } else {
        assert(evs.drop_first().len() == 0);
        assert(latest_arrived(evs.last()->Arrived_0, evs.drop_first()) == evs.last()->Arrived_0);
    }
}

/// Every value shown was read from the channel, or was pending in the phase
/// run from.
pub proof fn lemma_settled_were_read(p: Phase, evs: Seq<Event>, i: int)
    requires
        0 <= i < run(p, evs).1.len(),
    ensures
        (exists|j: int| 0 <= j < evs.len() && evs[j] == Event::Arrived(run(p, evs).1[i])) || (
        match p {
            Phase::Received { first } => run(p, evs).1[i] == first,
            Phase::Draining { latest, .. } => run(p, evs).1[i] == latest,
            Phase::Idle => false,
        }),
    decreases evs.len(),
{
    let e = evs[0];
    let o = option_seq(settled(p, e));
    let q = next_phase(p, e);
    let tail = evs.drop_first();
    let out = run(p, evs).1;
    if i < o.len() {
        assert(out[i] == o[i]);
    } else {
        lemma_settled_were_read(q, tail, i - o.len());
        assert(out[i] == run(q, tail).1[i - o.len()]);
        let v = out[i];
        if exists|j: int| 0 <= j < tail.len() && tail[j] == Event::Arrived(v) {
            let j = choose|j: int| 0 <= j < tail.len() && tail[j] == Event::Arrived(v);
            assert(evs[j + 1] == Event::Arrived(v));
        } else {
            assert(evs[0] == Event::Arrived(v) || match p {
                Phase::Received { first } => v == first,
                Phase::Draining { latest, .. } => v == latest,
                Phase::Idle => false,
            });
        }
    }
}

} // verus!
