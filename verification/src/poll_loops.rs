//! The decisions of the waiting loops built on a bus: a blocking poll that
//! waits for the tail to move, a range read that drains entries with
//! repeated bounded reads, and a gate check that waits for a decision on an
//! intention. Each loop's caller performs the bus calls and the sleeps and
//! hands the results back.

use vstd::prelude::*;

use crate::bus::AgentBusError;
use crate::bus::AppendRequest;
use crate::bus::BlockingPollRequest;
use crate::bus::BusEntry;
use crate::bus::BusId;
use crate::bus::Intention;
use crate::bus::Payload;
use crate::bus::PayloadBody;
use crate::bus::PayloadType;
use crate::bus::PayloadTypeFilter;
use crate::bus::ReadNextResponse;
use crate::text::append_i64;
use crate::text::append_str;
use crate::text::signed_decimal;
use crate::time::Duration;
use crate::time::MonotonicInstant;
use crate::time::MAX_STD_DURATION_NANOS;
use crate::time::NANOS_PER_MILLI;

verus! {

/// The longest wait a blocking poll allows unless told otherwise.
pub const DEFAULT_MAX_BLOCKING_TIMEOUT_MS: i32 = 30_000;

/// The default interval between tail checks of a blocking poll.
pub const DEFAULT_POLL_INTERVAL_MILLIS: u64 = 50;

/// A blocking poll in progress: it waits until the tail passes
/// `start_log_position` or the deadline comes.
#[derive(Clone, Copy, Debug)]
pub struct BlockingPoll {
    pub start_log_position: i64,
    pub deadline: MonotonicInstant,
    pub interval: Duration,
}

/// What a blocking poll does after a tail check.
#[derive(Clone, Copy, Debug, PartialEq, Eq, Structural)]
pub enum BlockingPollStep {
    /// New entries: read `[start_log_position, end_log_position)` and
    /// answer with the read's entries and next position.
    Read { end_log_position: i64 },
    /// The deadline has passed: answer with no entries and the start
    /// position.
    TimedOut,
    /// Sleep this long, then check the tail again.
    Sleep(Duration),
}

/// The wait a blocking poll allows: the requested timeout, capped by the
/// maximum (30 s unless given).
pub open spec fn effective_timeout_ms(timeout_ms: i32, max_timeout_ms: Option<i32>) -> i32 {
    let max = match max_timeout_ms {
        Some(m) => m,
        None => DEFAULT_MAX_BLOCKING_TIMEOUT_MS,
    };
    if timeout_ms <= max {
        timeout_ms
    } else {
        max
    }
}

impl BlockingPoll {
    /// Start a blocking poll at `now`: a negative timeout or a non-positive
    /// entry count is refused; otherwise the deadline is `now` plus the
    /// effective timeout, and the interval is `interval` (50 ms unless
    /// given).
    pub fn start(
        request: &BlockingPollRequest,
        now: MonotonicInstant,
        interval: Option<Duration>,
        max_timeout_ms: Option<i32>,
    ) -> (r: Result<BlockingPoll, AgentBusError>)
        requires
            now.since_origin.nanos + (if effective_timeout_ms(request.timeout_ms, max_timeout_ms) < 0 {
                0
            } else {
                effective_timeout_ms(request.timeout_ms, max_timeout_ms) as int
            }) * NANOS_PER_MILLI <= MAX_STD_DURATION_NANOS,
        ensures
            if request.timeout_ms < 0 {
                r matches Err(AgentBusError::InvalidArgument(m)) && m@ == "timeout_ms must be >= 0"@
            } else if request.max_entries <= 0 {
                r matches Err(AgentBusError::InvalidArgument(m)) && m@ == "max_entries must be > 0"@
            } else {
                let t = effective_timeout_ms(request.timeout_ms, max_timeout_ms);
                &&& r matches Ok(p)
                &&& p.start_log_position == request.start_log_position
                &&& p.deadline.since_origin.nanos == now.since_origin.nanos + (if t < 0 { 0 } else { t as int })
                    * NANOS_PER_MILLI
                &&& p.interval.nanos == match interval {
                    Some(d) => d.nanos as int,
                    None => DEFAULT_POLL_INTERVAL_MILLIS * NANOS_PER_MILLI,
                }
            },
    {
        if request.timeout_ms < 0 {
            let mut m = String::new();
            append_str(&mut m, "timeout_ms must be >= 0");
            return Err(AgentBusError::InvalidArgument(m));
        }
        if request.max_entries <= 0 {
            let mut m = String::new();
            append_str(&mut m, "max_entries must be > 0");
            return Err(AgentBusError::InvalidArgument(m));
        }
        let max = match max_timeout_ms {
            Some(m) => m,
            None => DEFAULT_MAX_BLOCKING_TIMEOUT_MS,
        };
        let timeout_ms = if request.timeout_ms <= max {
            request.timeout_ms
        } else {
            max
        };
        let wait = if timeout_ms < 0 {
            Duration::zero()
        } else {
            Duration::from_millis(timeout_ms as u64)
        };
        let deadline = now.add(wait);
        let interval = match interval {
            Some(d) => d,
            None => Duration::from_millis(DEFAULT_POLL_INTERVAL_MILLIS),
        };
        Ok(BlockingPoll { start_log_position: request.start_log_position, deadline, interval })
    }

    /// What to do after a tail check that saw `tail` at `now`: read when the
    /// tail passed the start; give up once the deadline has come; else sleep
    /// for the interval, but not past the deadline.
    pub fn on_tail(&self, tail: i64, now: MonotonicInstant) -> (step: BlockingPollStep)
        ensures
            if tail > self.start_log_position {
                step == (BlockingPollStep::Read { end_log_position: tail })
            } else if now.since_origin.nanos >= self.deadline.since_origin.nanos {
                step == BlockingPollStep::TimedOut
            } else {
                let left = self.deadline.since_origin.nanos - now.since_origin.nanos;
                &&& step matches BlockingPollStep::Sleep(d)
                &&& d.nanos == if self.interval.nanos <= left { self.interval.nanos as int } else { left }
                &&& d.nanos <= left
            },
    {
        if tail > self.start_log_position {
            return BlockingPollStep::Read { end_log_position: tail };
        }
        if now.is_at_or_after(self.deadline) {
            return BlockingPollStep::TimedOut;
        }
        let left = self.deadline.duration_since(now);
        BlockingPollStep::Sleep(self.interval.min(left))
    }
}

/// A range read in progress: it drains up to `remaining` entries of
/// `[cursor, end_log_position)` with repeated bounded reads.
#[derive(Debug)]
pub struct RangeRead {
    pub cursor: i64,
    pub end_log_position: i64,
    pub remaining: i64,
    pub entries: Vec<BusEntry>,
}

/// The range read still has entries to fetch.
pub open spec fn range_read_open(r: RangeRead) -> bool {
    r.cursor < r.end_log_position && r.remaining > 0
}

/// The message of a read that did not move forward.
pub open spec fn stuck_cursor_text(cursor: i64) -> Seq<char> {
    "read_next did not advance cursor (stuck at "@ + signed_decimal(cursor as int) + ")"@
}

impl RangeRead {
    /// Start draining up to `max_entries` entries of
    /// `[start_log_position, end_log_position)`.
    pub fn new(start_log_position: i64, end_log_position: i64, max_entries: i32) -> (r: RangeRead)
        ensures
            r.cursor == start_log_position,
            r.end_log_position == end_log_position,
            r.remaining == max_entries,
            r.entries@.len() == 0,
    {
        RangeRead { cursor: start_log_position, end_log_position, remaining: max_entries as i64, entries: Vec::new() }
    }

    /// The next bounded read to make, as (start, end, maximum entries), or
    /// `None` when the range is drained or the budget spent.
    pub fn next_read(&self) -> (r: Option<(i64, i64, i32)>)
        requires
            self.remaining <= i32::MAX,
        ensures
            match r {
                Some((start, end, max)) => range_read_open(*self) && start == self.cursor && end == self.end_log_position
                    && max == self.remaining,
                None => !range_read_open(*self),
            },
    {
        if self.cursor < self.end_log_position && self.remaining > 0 {
            Some((self.cursor, self.end_log_position, self.remaining as i32))
        } else {
            None
        }
    }

    /// Take in the response of a bounded read: its entries are kept and the
    /// cursor moves to its next position, which must lie past the cursor.
    /// The budget shrinks by the entries received (to zero at most).
    pub fn on_response(&mut self, response: ReadNextResponse) -> (r: Result<(), AgentBusError>)
        requires
            old(self).remaining >= 0,
        ensures
            final(self).end_log_position == old(self).end_log_position,
            final(self).remaining >= 0,
            if response.next_start_position <= old(self).cursor {
                &&& r matches Err(AgentBusError::Internal(m)) && m@ == stuck_cursor_text(old(self).cursor)
                &&& *final(self) == *old(self)
            } else {
                &&& r is Ok
                &&& final(self).cursor == response.next_start_position
                &&& final(self).entries@ == old(self).entries@ + response.entries@
                &&& final(self).remaining == if response.entries@.len() >= old(self).remaining {
                    0
                } else {
                    old(self).remaining - response.entries@.len()
                }
            },
    {
        if response.next_start_position <= self.cursor {
            let mut m = String::new();
            append_str(&mut m, "read_next did not advance cursor (stuck at ");
            append_i64(&mut m, self.cursor);
            append_str(&mut m, ")");
            return Err(AgentBusError::Internal(m));
        }
        let count = response.entries.len();
        if count as u64 >= self.remaining as u64 {
            self.remaining = 0;
        } else {
            self.remaining = self.remaining - count as i64;
        }
        self.cursor = response.next_start_position;
        let mut received = response.entries;
        self.entries.append(&mut received);
        Ok(())
    }

    /// The entries read and the final cursor.
    pub fn finish(self) -> (r: (Vec<BusEntry>, i64))
        ensures
            r.0@ == self.entries@,
            r.1 == self.cursor,
    {
        (self.entries, self.cursor)
    }
}

/// Each accepted response moves the cursor strictly forward, so a range
/// read makes progress until its range is drained.
pub proof fn lemma_range_read_progress(before: RangeRead, after: RangeRead)
    requires
        range_read_open(before),
        after.cursor > before.cursor,
        after.end_log_position == before.end_log_position,
    ensures
        !range_read_open(after) || after.end_log_position - after.cursor < before.end_log_position - before.cursor,
{
}

/// The outcome of a gate check.
#[derive(Debug)]
pub struct GateResult {
    pub approved: bool,
    pub reason: String,
    pub intention_id: i64,
}

/// A gate check in progress: it waits, until `timeout` has passed since
/// `start`, for a commit or abort of `intention_id`, reading from
/// `next_position`.
#[derive(Clone, Copy, Debug)]
pub struct GateCheck {
    pub intention_id: i64,
    pub start: MonotonicInstant,
    pub timeout: Duration,
    pub next_position: i64,
}

/// What a gate check does next.
#[derive(Debug)]
pub enum GateStep {
    /// Wait for decisions from `start_log_position`, for at most
    /// `timeout_ms` milliseconds.
    Poll { start_log_position: i64, timeout_ms: i32 },
    /// The time is up: the intention is not approved.
    TimedOut(GateResult),
}

/// The first decision about `intention_id` among `entries`, as (approved,
/// reason), if any.
pub open spec fn first_decision(entries: Seq<BusEntry>, intention_id: i64) -> Option<(bool, Seq<char>)>
    decreases entries.len(),
{
    if entries.len() == 0 {
        None
    } else {
        match entries[0].payload {
            Some(Payload { payload: Some(PayloadBody::Commit(c)) }) if c.intention_id == intention_id => Some(
                (true, c.reason@),
            ),
            Some(Payload { payload: Some(PayloadBody::Abort(a)) }) if a.intention_id == intention_id => Some(
                (false, a.reason@),
            ),
            _ => first_decision(entries.drop_first(), intention_id),
        }
    }
}

/// The entry commits or aborts intention `id`.
pub open spec fn decides_intention(e: BusEntry, id: i64) -> bool {
    ||| e.payload matches Some(Payload { payload: Some(PayloadBody::Commit(c)) }) && c.intention_id == id
    ||| e.payload matches Some(Payload { payload: Some(PayloadBody::Abort(a)) }) && a.intention_id == id
}

/// The decision about an intention is the earliest entry that commits or
/// aborts it: when entry `k` is the first such entry, a commit there
/// approves with the commit's reason and an abort rejects with the abort's
/// reason; when no entry decides it, there is no decision.
pub proof fn lemma_first_decision_is_earliest(entries: Seq<BusEntry>, id: i64, k: int)
    requires
        0 <= k <= entries.len(),
        forall|j: int| 0 <= j < k ==> !decides_intention(#[trigger] entries[j], id),
    ensures
        k < entries.len() ==> match entries[k].payload {
            Some(Payload { payload: Some(PayloadBody::Commit(c)) }) => c.intention_id == id ==> first_decision(
                entries,
                id,
            ) == Some((true, c.reason@)),
            Some(Payload { payload: Some(PayloadBody::Abort(a)) }) => a.intention_id == id ==> first_decision(
                entries,
                id,
            ) == Some((false, a.reason@)),
            _ => true,
        },
        k == entries.len() ==> first_decision(entries, id) is None,
    decreases k,
{
    if k > 0 {
        assert(!decides_intention(entries[0], id));
        let rest = entries.drop_first();
        assert forall|j: int| 0 <= j < k - 1 implies !decides_intention(#[trigger] rest[j], id) by {
            assert(rest[j] == entries[j + 1]);
        }
        lemma_first_decision_is_earliest(rest, id, k - 1);
        if k < entries.len() {
            assert(rest[k - 1] == entries[k]);
        }
    }
}

/// The append request that proposes an intention to a bus.
pub fn intention_append_request(bus_id: &str, intention: &str) -> (r: AppendRequest)
    ensures
        r.agent_bus_id@ == bus_id@,
        r.bus_id matches Some(b) && b.agent_bus_id@ == bus_id@,
        r.payload matches Some(Payload { payload: Some(PayloadBody::Intention(i)) }) && i.intention matches Some(
            s,
        ) && s@ == intention@,
{
    AppendRequest {
        agent_bus_id: bus_id.to_owned(),
        bus_id: Some(BusId { agent_bus_id: bus_id.to_owned() }),
        payload: Some(Payload { payload: Some(PayloadBody::Intention(Intention { intention: Some(intention.to_owned()) })) }),
    }
}

impl GateCheck {
    /// Start waiting at `start` for the decision on the intention appended
    /// at `intention_id`, reading from the next position.
    pub fn new(intention_id: i64, start: MonotonicInstant, timeout: Duration) -> (g: GateCheck)
        requires
            intention_id < i64::MAX,
        ensures
            g.intention_id == intention_id,
            g.start == start,
            g.timeout == timeout,
            g.next_position == intention_id + 1,
    {
        GateCheck { intention_id, start, timeout, next_position: intention_id + 1 }
    }

    /// What to do at `now`: give up once more than `timeout` has passed;
    /// else poll for decisions for the time left, in whole milliseconds.
    pub fn next_step(&self, now: MonotonicInstant) -> (step: GateStep)
        ensures
            ({
                let elapsed = if now.since_origin.nanos >= self.start.since_origin.nanos {
                    now.since_origin.nanos - self.start.since_origin.nanos
                } else {
                    0
                };
                if elapsed > self.timeout.nanos {
                    step matches GateStep::TimedOut(g) && !g.approved && g.reason@ == "Gate check timed out"@
                        && g.intention_id == self.intention_id
                } else {
                    step matches GateStep::Poll { start_log_position, timeout_ms } && start_log_position
                        == self.next_position && timeout_ms == (((self.timeout.nanos - elapsed) / NANOS_PER_MILLI as int)
                        as i32)
                }
            }),
    {
        let elapsed = now.duration_since(self.start);
        if elapsed.nanos > self.timeout.nanos {
            let mut reason = String::new();
            append_str(&mut reason, "Gate check timed out");
            return GateStep::TimedOut(GateResult { approved: false, reason, intention_id: self.intention_id });
        }
        let left = self.timeout.saturating_sub(elapsed);
        let millis = left.as_millis();
        GateStep::Poll { start_log_position: self.next_position, timeout_ms: millis as i32 }
    }

    /// The blocking poll request for the current position: commits and
    /// aborts only, at most 64 entries.
    pub fn poll_request(&self, bus_id: &str, timeout_ms: i32) -> (r: BlockingPollRequest)
        ensures
            r.agent_bus_id@ == bus_id@,
            r.bus_id matches Some(b) && b.agent_bus_id@ == bus_id@,
            r.start_log_position == self.next_position,
            r.max_entries == 64,
            r.timeout_ms == timeout_ms,
            r.filter matches Some(f) && f.payload_types@ == seq![PayloadType::Commit, PayloadType::Abort],
    {
        let mut types: Vec<PayloadType> = Vec::new();
        types.push(PayloadType::Commit);
        types.push(PayloadType::Abort);
        assert(types@ =~= seq![PayloadType::Commit, PayloadType::Abort]);
        BlockingPollRequest {
            agent_bus_id: bus_id.to_owned(),
            bus_id: Some(BusId { agent_bus_id: bus_id.to_owned() }),
            start_log_position: self.next_position,
            max_entries: 64,
            filter: Some(PayloadTypeFilter { payload_types: types }),
            timeout_ms,
        }
    }

    /// Take in the entries of a poll: the first commit or abort of the
    /// intention decides this check; otherwise reading moves on to
    /// `next_start_position`.
    pub fn on_entries(&mut self, entries: &Vec<BusEntry>, next_start_position: i64) -> (r: Option<GateResult>)
        ensures
            final(self).intention_id == old(self).intention_id,
            final(self).start == old(self).start,
            final(self).timeout == old(self).timeout,
            match first_decision(entries@, old(self).intention_id) {
                Some((approved, reason)) => r matches Some(g) && g.approved == approved && g.reason@ == reason
                    && g.intention_id == old(self).intention_id && final(self).next_position == old(self).next_position,
                None => r is None && final(self).next_position == next_start_position,
            },
    {
        let mut i: usize = 0;
        assert(entries@.subrange(0, entries@.len() as int) =~= entries@);
        while i < entries.len()
            invariant
                i <= entries@.len(),
                first_decision(entries@, self.intention_id) == first_decision(entries@.subrange(i as int, entries@.len() as int), self.intention_id),
            decreases entries@.len() - i,
        {
            let ghost rest = entries@.subrange(i as int, entries@.len() as int);
            assert(rest.drop_first() =~= entries@.subrange(i + 1, entries@.len() as int));
            assert(rest[0] == entries@[i as int]);
            match &entries[i].payload {
                Some(Payload { payload: Some(PayloadBody::Commit(c)) }) => {
                    if c.intention_id == self.intention_id {
                        return Some(GateResult { approved: true, reason: c.reason.clone(), intention_id: self.intention_id });
                    }
                },
                Some(Payload { payload: Some(PayloadBody::Abort(a)) }) => {
                    if a.intention_id == self.intention_id {
                        return Some(GateResult { approved: false, reason: a.reason.clone(), intention_id: self.intention_id });
                    }
                },
                _ => {},
            }
            i += 1;
        }
        assert(entries@.subrange(i as int, entries@.len() as int) =~= Seq::<BusEntry>::empty());
        self.next_position = next_start_position;
        None
    }
}

} // verus!
