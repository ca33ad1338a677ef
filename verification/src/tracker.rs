//! The consumer loop's state machine: at most one open focus interval, a
//! monotonic sequence counter, and the decision what to persist and which
//! delayed token to arm on each message.  The surrounding loop performs the
//! appends, arms the tokens, and feeds every message through `step`.

use vstd::prelude::*;

use crate::clock;
use crate::i3log::{row_for, Event, I3Log, Log};

verus! {

/// The state the consumer loop owns: the sequence id of the interval now
/// open (the id its rows carry, and the id the next closing row will carry),
/// and the interval itself.
pub struct Tracker {
    pub next_id: u32,
    pub current: Option<I3Log>,
}

/// What one step asks the surrounding loop to do: append `row` to the log,
/// arm a delayed token carrying `arm`, and stop once the flush row is
/// written.
pub struct StepOutput {
    pub row: Option<Log>,
    pub arm: Option<u32>,
    pub exit: bool,
}

/// Do two intervals concern the same window with unchanged metadata?  Only
/// then does a normalized event carry no new information and close nothing.
pub open spec fn same_subject(a: I3Log, b: I3Log) -> bool {
    &&& a.id == b.id
    &&& a.node_type == b.node_type
    &&& opt_text_eq(a.title, b.title)
    &&& opt_text_eq(a.output, b.output)
    &&& opt_text_eq(a.class, b.class)
    &&& opt_text_eq(a.role, b.role)
}

/// Text equality of two optional fields.
pub open spec fn opt_text_eq(a: Option<String>, b: Option<String>) -> bool {
    match (a, b) {
        (Option::None, Option::None) => true,
        (Option::Some(x), Option::Some(y)) => x@ == y@,
        _ => false,
    }
}

/// The state after one message, at clock reading `now`.
pub open spec fn tracker_after(t: Tracker, ev: Event, now: i64) -> Tracker {
    match ev {
        Event::I3(e) => {
            if t.current matches Some(c) && same_subject(c, e) {
                t
            } else if t.current is Some {
                Tracker { next_id: (t.next_id + 1) as u32, current: Some(e.with_start(now)) }
            } else {
                Tracker { next_id: t.next_id, current: Some(e.with_start(now)) }
            }
        },
        Event::Tick(id) => {
            match t.current {
                Some(c) => if id == t.next_id {
                    Tracker { next_id: t.next_id, current: Some(c.with_start(now)) }
                } else {
                    t
                },
                None => t,
            }
        },
        Event::Flush => t,
    }
}

/// Does one message make the loop persist a row?  A normalized event does
/// when it closes an open interval; a token does when it is not stale and an
/// interval is open; the flush does when an interval is open.
pub open spec fn step_emits(t: Tracker, ev: Event) -> bool {
    match ev {
        Event::I3(e) => t.current is Some && !(t.current matches Some(c) && same_subject(c, e)),
        Event::Tick(id) => id == t.next_id && t.current is Some,
        Event::Flush => t.current is Some,
    }
}

/// Which token one message arms: a fresh interval arms its own id, a
/// heartbeat re-arms the same id, everything else arms none.
pub open spec fn arm_after(t: Tracker, ev: Event) -> Option<u32> {
    match ev {
        Event::I3(e) => {
            if t.current matches Some(c) && same_subject(c, e) {
                None
            } else if t.current is Some {
                Some((t.next_id + 1) as u32)
            } else {
                Some(t.next_id)
            }
        },
        Event::Tick(id) => {
            if id == t.next_id && t.current is Some {
                Some(id)
            } else {
                None
            }
        },
        Event::Flush => None,
    }
}

/// Everything one step does, gathered: how the state moved, what was
/// persisted under which id and with which duration, what was armed, and
/// whether the loop stops.
pub open spec fn step_rel(pre: Tracker, ev: Event, now: i64, post: Tracker, out: StepOutput) -> bool {
    &&& post == tracker_after(pre, ev, now)
    &&& (out.row is Some <==> step_emits(pre, ev))
    &&& (out.row matches Some(r) ==> row_for(r, pre.next_id, pre.current.unwrap(), now))
    &&& out.arm == arm_after(pre, ev)
    &&& out.exit == (ev is Flush)
}

/// Text equality of two optional fields.
fn opt_str_eq(a: &Option<String>, b: &Option<String>) -> (r: bool)
    ensures
        r == opt_text_eq(*a, *b),
{
    match (a, b) {
        (None, None) => true,
        (Some(x), Some(y)) => x.eq(y),
        _ => false,
    }
}

/// Do two intervals concern the same window with unchanged metadata?
fn same_subject_exec(a: &I3Log, b: &I3Log) -> (r: bool)
    ensures
        r == same_subject(*a, *b),
{
    a.id == b.id && a.node_type == b.node_type && opt_str_eq(&a.title, &b.title) && opt_str_eq(
        &a.output,
        &b.output,
    ) && opt_str_eq(&a.class, &b.class) && opt_str_eq(&a.role, &b.role)
}

impl Tracker {
    /// A tracker's times stay within what the clock can hand out, so that
    /// durations never overflow.
    pub open spec fn wf(self) -> bool {
        self.current matches Some(c) ==> clock::time_bounds(c.start_time)
    }

    /// A fresh session: no interval open, the counter where recovery put it.
    pub fn new(next_id: u32) -> (t: Tracker)
        ensures
            t.next_id == next_id,
            t.current is None,
            t.wf(),
    {
        Tracker { next_id, current: None }
    }

    /// Feeds one message through the state machine at clock reading `now`.
    pub fn step_at(&mut self, ev: Event, now: i64) -> (out: StepOutput)
        requires
            old(self).wf(),
            old(self).next_id < u32::MAX,
            clock::time_bounds(now),
        ensures
            step_rel(*old(self), ev, now, *final(self), out),
            final(self).wf(),
    {
        match ev {
            Event::I3(e) => {
                let cur: Option<I3Log> = self.current.take();
                let is_same: bool = match &cur {
                    Some(c) => same_subject_exec(c, &e),
                    None => false,
                };
                if is_same {
                    self.current = cur;
                    StepOutput { row: None, arm: None, exit: false }
                } else {
                    let row: Option<Log> = match &cur {
                        Some(c) => {
                            let r: Log = Log::new_at(self.next_id, c, now);
                            self.next_id = self.next_id + 1;
                            Some(r)
                        },
                        None => None,
                    };
                    self.current = Some(I3Log { start_time: now, ..e });
                    StepOutput { row, arm: Some(self.next_id), exit: false }
                }
            },
            Event::Tick(id) => {
                if id != self.next_id {
                    return StepOutput { row: None, arm: None, exit: false };
                }
                let cur: Option<I3Log> = self.current.take();
                match cur {
                    Some(c) => {
                        let r: Log = Log::new_at(self.next_id, &c, now);
                        self.current = Some(I3Log { start_time: now, ..c });
                        StepOutput { row: Some(r), arm: Some(id), exit: false }
                    },
                    None => StepOutput { row: None, arm: None, exit: false },
                }
            },
            Event::Flush => {
                match &self.current {
                    Some(c) => {
                        let r: Log = Log::new_at(self.next_id, c, now);
                        StepOutput { row: Some(r), arm: None, exit: true }
                    },
                    None => StepOutput { row: None, arm: None, exit: true },
                }
            },
        }
    }

    /// Feeds one message through the state machine at the clock's current
    /// reading.
    pub fn step(&mut self, ev: Event) -> (out: StepOutput)
        requires
            old(self).wf(),
            old(self).next_id < u32::MAX,
        ensures
            exists|now: i64|
                clock::time_bounds(now) && #[trigger] step_rel(
                    *old(self),
                    ev,
                    now,
                    *final(self),
                    out,
                ),
            final(self).wf(),
    {
        let now: i64 = clock::now_seconds();
        self.step_at(ev, now)
    }
}

/// A stale token is a no-op: one whose id is not the currently pending id
/// neither writes, nor arms, nor moves the state.  This is the only
/// cancellation mechanism the design has.
pub proof fn lemma_stale_tick_is_noop(t: Tracker, id: u32, now: i64)
    requires
        id != t.next_id,
    ensures
        !step_emits(t, Event::Tick(id)),
        tracker_after(t, Event::Tick(id), now) == t,
        arm_after(t, Event::Tick(id)) is None,
{
}

/// Does one message close the open interval by a real transition?  Only then
/// does the sequence counter advance.
pub open spec fn is_transition_close(t: Tracker, ev: Event) -> bool {
    ev is I3 && step_emits(t, ev)
}

/// The state a run of messages leaves behind, stepping at the given clock
/// readings.
pub open spec fn run_state(t: Tracker, evs: Seq<Event>, times: Seq<i64>) -> Tracker
    decreases evs.len(),
{
    if evs.len() == 0 {
        t
    } else {
        tracker_after(run_state(t, evs.drop_last(), times.drop_last()), evs.last(), times.last())
    }
}

/// The sequence ids of the rows that closed an interval along a run, in the
/// order they were written.
pub open spec fn closing_ids(t: Tracker, evs: Seq<Event>, times: Seq<i64>) -> Seq<u32>
    decreases evs.len(),
{
    if evs.len() == 0 {
        Seq::empty()
    } else {
        let pre = run_state(t, evs.drop_last(), times.drop_last());
        let ids = closing_ids(t, evs.drop_last(), times.drop_last());
        if is_transition_close(pre, evs.last()) {
            ids.push(pre.next_id)
        } else {
            ids
        }
    }
}

/// Sequence monotonicity: across any run, the ids assigned to distinct
/// intervals form a strictly increasing sequence with no gaps — the k-th
/// interval closed is closed under the session's first id plus k — and the
/// counter always stands one past the last assigned id, so the rows of the
/// still-open interval (heartbeats, the flush row) carry the next id of the
/// same gap-free sequence.
pub proof fn lemma_sequence_monotonic(t: Tracker, evs: Seq<Event>, times: Seq<i64>)
    requires
        times.len() == evs.len(),
        t.next_id + evs.len() <= u32::MAX,
    ensures
        closing_ids(t, evs, times).len() <= evs.len(),
        run_state(t, evs, times).next_id == t.next_id + closing_ids(t, evs, times).len(),
        forall|k: int|
            0 <= k < closing_ids(t, evs, times).len() ==> closing_ids(t, evs, times)[k]
                == t.next_id + k,
    decreases evs.len(),
{
    if evs.len() > 0 {
        lemma_sequence_monotonic(t, evs.drop_last(), times.drop_last());
        let pre = run_state(t, evs.drop_last(), times.drop_last());
        match evs.last() {
            Event::I3(e) => {
                assert(run_state(t, evs, times).next_id == t.next_id + closing_ids(
                    t,
                    evs,
                    times,
                ).len());
            },
            Event::Tick(id) => {
                assert(tracker_after(pre, evs.last(), times.last()).next_id == pre.next_id);
            },
            Event::Flush => {
                assert(tracker_after(pre, evs.last(), times.last()) == pre);
            },
        }
    }
}

/// Interval accounting: an interval that lives through three heartbeats and
/// is then closed by a real transition yields four rows under one sequence
/// id.  Every heartbeat rolls the interval's start forward to the moment it
/// wrote, so each row's duration spans exactly the time since the previous
/// row (the first since the interval opened), and the transition advances
/// the counter only once, after the final row.
pub proof fn lemma_interval_accounting(
    t: Tracker,
    c: I3Log,
    e: I3Log,
    t1: i64,
    t2: i64,
    t3: i64,
    t4: i64,
    s1: Tracker,
    s2: Tracker,
    s3: Tracker,
    s4: Tracker,
)
    requires
        t.current == Some(c),
        t.next_id < u32::MAX,
        !same_subject(c, e),
        s1 == tracker_after(t, Event::Tick(t.next_id), t1),
        s2 == tracker_after(s1, Event::Tick(t.next_id), t2),
        s3 == tracker_after(s2, Event::Tick(t.next_id), t3),
        s4 == tracker_after(s3, Event::I3(e), t4),
    ensures
        step_emits(t, Event::Tick(t.next_id)),
        step_emits(s1, Event::Tick(t.next_id)),
        step_emits(s2, Event::Tick(t.next_id)),
        step_emits(s3, Event::I3(e)),
        s1.next_id == t.next_id && s2.next_id == t.next_id && s3.next_id == t.next_id,
        s1.current == Some(c.with_start(t1)),
        s2.current == Some(c.with_start(t2)),
        s3.current == Some(c.with_start(t3)),
        s4.next_id == t.next_id + 1,
        s4.current == Some(e.with_start(t4)),
{
}

} // verus!
