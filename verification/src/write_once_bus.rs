//! A bus backed by a write-once address space: each bus is the space
//! `bus/<id>`, and each entry is written once at its log position.

use vstd::prelude::*;

use crate::bus::filter_types;
use crate::bus::filter_view;
use crate::bus::payload_matches_filter;
use crate::bus::request_filter;
use crate::bus::resolve_bus_id;
use crate::bus::resolved_bus_id;
use crate::bus::valid_bus_id;
use crate::bus::validate_bus_id;
use crate::bus::AgentBusError;
use crate::bus::AppendRequest;
use crate::bus::BusEntry;
use crate::bus::CheckTailRequest;
use crate::bus::CheckTailResponse;
use crate::bus::Header;
use crate::bus::Payload;
use crate::bus::PayloadType;
use crate::bus::PollRequest;
use crate::bus::PollResponse;
use crate::bus::ReadNextRequest;
use crate::bus::ReadNextResponse;
use crate::bus_state::bounded;
use crate::bus_state::check_read_next_arguments;
use crate::bus_state::entry_selected;
use crate::bus_state::invalid_bus_id_text;
use crate::bus_state::lemma_selected_append;
use crate::bus_state::missing_payload_text;
use crate::bus_state::poll_limit;
use crate::bus_state::read_next_argument_error;
use crate::bus_state::selected;
use crate::bus_state::start_beyond_end_text;
use crate::bus_state::MAX_POLL_ENTRIES;
use crate::keyed::find_key;
use crate::keyed::keyed_map;
use crate::keyed::keys_distinct;
use crate::keyed::lemma_keyed_push;
use crate::keyed::lemma_keyed_update;
use crate::spaces::WriteOnceError;
use crate::spaces::WriteOnceSpace;
use crate::text::append_i64;
use crate::text::append_str;
use crate::text::append_u64;
use crate::time::Duration;

verus! {

/// The bus's appends claim slots one by one at the tail, so a tail window
/// of one address is enough.
pub const TAIL_WINDOW_SIZE: u64 = 1;

/// The default interval between checks of the space in a blocking poll.
pub const DEFAULT_BLOCKING_POLL_INTERVAL_MILLIS: u64 = 50;

/// The space that holds a bus's log.
pub open spec fn bus_space_id(bus_id: Seq<char>) -> Seq<char> {
    "bus/"@ + bus_id
}

/// The space that holds a bus's log.
pub fn prefixed_space_id(bus_id: &str) -> (r: String)
    ensures
        r@ == bus_space_id(bus_id@),
{
    let mut r = String::new();
    append_str(&mut r, "bus/");
    append_str(&mut r, bus_id);
    r
}

/// The entries stored at addresses `[from, to)` of a space, in address
/// order, skipping empty addresses.
pub open spec fn stored_run(stored: Map<(Seq<char>, u64), BusEntry>, space: Seq<char>, from: int, to: int) -> Seq<
    BusEntry,
>
    decreases to - from,
{
    if to <= from {
        Seq::empty()
    } else if stored.contains_key((space, (to - 1) as u64)) {
        stored_run(stored, space, from, to - 1).push(stored[(space, (to - 1) as u64)])
    } else {
        stored_run(stored, space, from, to - 1)
    }
}

/// The selected entries of `[from, to)` number `max` at address `p`: the
/// `max`-th selected entry is the one at `p`.
pub open spec fn limit_reached_at(
    stored: Map<(Seq<char>, u64), BusEntry>,
    space: Seq<char>,
    from: int,
    p: int,
    filter: Option<Seq<PayloadType>>,
    max: int,
) -> bool {
    &&& selected(stored_run(stored, space, from, p + 1), filter).len() == max
    &&& selected(stored_run(stored, space, from, p), filter).len() < max
}

/// The outcome of one attempt to claim a slot for an append.
#[derive(Debug)]
pub enum AppendAttempt {
    /// The entry was written at this position.
    Appended { log_position: i64 },
    /// The slot was taken; try again at this position.
    RetryAt { position: u64 },
    /// The append failed.
    Failed(AgentBusError),
}

/// An append whose request was accepted, waiting for its slot.
#[derive(Debug)]
pub struct PendingAppend {
    pub bus_id: String,
    pub payload: Payload,
    pub position: u64,
}

/// Accepting an append request, over the next position of each bus before
/// and after: a bad bus id or a missing payload is refused and changes
/// nothing; otherwise the append starts at the bus's next position (0 for a
/// bus not seen before), which is recorded.
pub open spec fn append_accepted(
    before: Map<Seq<char>, u64>,
    request: AppendRequest,
    r: Result<PendingAppend, AgentBusError>,
    after: Map<Seq<char>, u64>,
) -> bool {
    let id = resolved_bus_id(request.agent_bus_id@, request.bus_id);
    let start = if before.contains_key(id) { before[id] } else { 0 };
    if !valid_bus_id(id) {
        &&& r matches Err(AgentBusError::InvalidArgument(m)) && m@ == invalid_bus_id_text()
        &&& after == before
    } else if request.payload is None {
        &&& r matches Err(AgentBusError::InvalidArgument(m)) && m@ == missing_payload_text()
        &&& after == before
    } else {
        &&& r matches Ok(p) && p.bus_id@ == id && Some(p.payload) == request.payload && p.position == start
        &&& after == before.insert(id, start)
    }
}

/// The entry an append writes: the pending payload at its position.
pub open spec fn appended_entry(pending: PendingAppend, rt_timestamp_ms: i64) -> BusEntry {
    BusEntry {
        header: Some(Header { log_position: pending.position as i64, rt_timestamp_ms }),
        payload: Some(pending.payload),
    }
}

/// A pending append written at its position, over the next positions and
/// the stored entries before and after: the slot was free and now holds the
/// entry, and the bus's next position moves past it.
pub open spec fn append_written(
    positions_before: Map<Seq<char>, u64>,
    stored_before: Map<(Seq<char>, u64), BusEntry>,
    pending: PendingAppend,
    rt_timestamp_ms: i64,
    log_position: i64,
    positions_after: Map<Seq<char>, u64>,
    stored_after: Map<(Seq<char>, u64), BusEntry>,
) -> bool {
    let space = bus_space_id(pending.bus_id@);
    &&& log_position == pending.position as i64
    &&& !stored_before.contains_key((space, pending.position))
    &&& stored_after == stored_before.insert((space, pending.position), appended_entry(pending, rt_timestamp_ms))
    &&& positions_after == positions_before.insert(pending.bus_id@, (pending.position + 1) as u64)
}

/// A bus backed by a write-once space. It remembers, per bus, the position
/// where its next append will try first.
pub struct WriteOnceAgentBus<W: WriteOnceSpace<BusEntry>> {
    space: W,
    next_positions: Vec<(String, u64)>,
    blocking_poll_interval: Duration,
}

impl<W: WriteOnceSpace<BusEntry>> WriteOnceAgentBus<W> {
    /// The bus's bookkeeping is consistent and no space holds a value at
    /// its last address.
    pub closed spec fn wf(&self) -> bool {
        &&& keys_distinct(self.next_positions@)
        &&& forall|k: Seq<char>| !#[trigger] self.space.stored().contains_key((k, u64::MAX))
    }

    /// The space behind the bus.
    pub closed spec fn spec_space(&self) -> W {
        self.space
    }

    /// The interval between checks of the space in a blocking poll.
    pub closed spec fn spec_interval(&self) -> Duration {
        self.blocking_poll_interval
    }

    /// The interval between checks of the space in a blocking poll.
    pub fn blocking_poll_interval(&self) -> (d: Duration)
        ensures
            d == self.spec_interval(),
    {
        self.blocking_poll_interval
    }

    /// The position each bus will try first on its next append.
    pub closed spec fn next_positions(&self) -> Map<Seq<char>, u64> {
        keyed_map(self.next_positions@)
    }

    /// A bus over `space`, which must not hold a value at the last address
    /// of any space. `blocking_poll_interval` defaults to 50 ms.
    pub fn new(space: W, blocking_poll_interval: Option<Duration>) -> (b: Self)
        requires
            forall|k: Seq<char>| !#[trigger] space.stored().contains_key((k, u64::MAX)),
        ensures
            b.wf(),
            b.spec_space() == space,
            b.next_positions() == Map::<Seq<char>, u64>::empty(),
            b.spec_interval().nanos == match blocking_poll_interval {
                Some(d) => d.nanos as int,
                None => DEFAULT_BLOCKING_POLL_INTERVAL_MILLIS * 1_000_000,
            },
    {
        let interval = match blocking_poll_interval {
            Some(d) => d,
            None => Duration::from_millis(DEFAULT_BLOCKING_POLL_INTERVAL_MILLIS),
        };
        let b = WriteOnceAgentBus { space, next_positions: Vec::new(), blocking_poll_interval: interval };
        assert(b.next_positions() =~= Map::<Seq<char>, u64>::empty());
        b
    }

    /// The space behind the bus.
    pub fn space(&self) -> (s: &W)
        ensures
            *s == self.spec_space(),
    {
        &self.space
    }

    fn set_next_position(&mut self, id: &str, position: u64)
        requires
            old(self).wf(),
        ensures
            final(self).wf(),
            final(self).next_positions() == old(self).next_positions().insert(id@, position),
            final(self).spec_space() == old(self).spec_space(),
            final(self).spec_interval() == old(self).spec_interval(),
    {
        let ghost old_list = self.next_positions@;
        let key = id.to_owned();
        match find_key(&self.next_positions, id) {
            Some(i) => {
                proof {
                    lemma_keyed_update(old_list, i as int, (key, position));
                }
                let mut list: Vec<(String, u64)> = Vec::new();
                std::mem::swap(&mut list, &mut self.next_positions);
                list.set(i, (key, position));
                self.next_positions = list;
            },
            None => {
                proof {
                    lemma_keyed_push(old_list, (key, position));
                }
                let mut list: Vec<(String, u64)> = Vec::new();
                std::mem::swap(&mut list, &mut self.next_positions);
                list.push((key, position));
                self.next_positions = list;
            },
        }
    }

    /// Accept an append request: check the bus id and the payload, and take
    /// the position the bus will try first (0 for a bus not seen before,
    /// which is recorded).
    pub fn begin_append(&mut self, request: AppendRequest) -> (r: Result<PendingAppend, AgentBusError>)
        requires
            old(self).wf(),
        ensures
            final(self).wf(),
            final(self).spec_space() == old(self).spec_space(),
            final(self).spec_interval() == old(self).spec_interval(),
            append_accepted(old(self).next_positions(), request, r, final(self).next_positions()),
    {
        let id = resolve_bus_id(request.agent_bus_id.as_str(), request.bus_id.as_ref()).to_owned();
        match validate_bus_id(id.as_str()) {
            Ok(()) => {},
            Err(m) => {
                return Err(AgentBusError::InvalidArgument(m));
            },
        }
        let payload = match request.payload {
            Some(p) => p,
            None => {
                let mut m = String::new();
                append_str(&mut m, "Missing or unknown payload in request");
                return Err(AgentBusError::InvalidArgument(m));
            },
        };
        let position = match find_key(&self.next_positions, id.as_str()) {
            Some(i) => self.next_positions[i].1,
            None => 0,
        };
        self.set_next_position(id.as_str(), position);
        proof {
            if old(self).next_positions().contains_key(id@) {
                assert(old(self).next_positions().insert(id@, position) =~= old(self).next_positions());
            }
        }
        Ok(PendingAppend { bus_id: id, payload, position })
    }

    /// Try to write a pending append at its position. On success the next
    /// position of the bus moves past it. When the slot is taken (or a
    /// conflict makes that likely), the space's tail says where to try next.
    /// Other write errors, and a failed tail query, end the append.
    pub fn append_attempt(&mut self, pending: &PendingAppend, rt_timestamp_ms: i64) -> (r: AppendAttempt)
        requires
            old(self).wf(),
            pending.position < u64::MAX,
        ensures
            final(self).wf(),
            final(self).spec_interval() == old(self).spec_interval(),
            ({
                let space = bus_space_id(pending.bus_id@);
                let before = old(self).spec_space().stored();
                let after = final(self).spec_space().stored();
                match r {
                    AppendAttempt::Appended { log_position } => append_written(
                        old(self).next_positions(),
                        before,
                        *pending,
                        rt_timestamp_ms,
                        log_position,
                        final(self).next_positions(),
                        after,
                    ),
                    AppendAttempt::RetryAt { position } => {
                        &&& after == before
                        &&& final(self).spec_space().tail_answer(space, TAIL_WINDOW_SIZE, position)
                        &&& final(self).next_positions() == old(self).next_positions()
                    },
                    AppendAttempt::Failed(e) => {
                        &&& after == before
                        &&& final(self).next_positions() == old(self).next_positions()
                        &&& match e {
                            AgentBusError::Timeout(m) => m@ == "WriteOnceSpace write failed"@,
                            AgentBusError::Unavailable(m) => m@ == "WriteOnceSpace write failed"@ || m@
                                == "Failed to find tail"@,
                            AgentBusError::Internal(m) => m@ == "WriteOnceSpace write failed"@,
                            AgentBusError::InvalidArgument(_) => false,
                        }
                    },
                }
            }),
    {
        let space_id = prefixed_space_id(pending.bus_id.as_str());
        let entry = BusEntry {
            header: Some(Header { log_position: pending.position as i64, rt_timestamp_ms }),
            payload: Some(pending.payload.clone()),
        };
        let ghost before = self.space.stored();
        let result = self.space.write(space_id.as_str(), pending.position, entry);
        proof {
            assert forall|k: Seq<char>| !#[trigger] self.space.stored().contains_key((k, u64::MAX)) by {
                if self.space.stored() != before {
                    assert(self.space.stored() == before.insert((space_id@, pending.position), entry));
                    assert(before.contains_key((k, u64::MAX)) == false);
                }
            }
        }
        match result {
            Ok(()) => {
                self.set_next_position(pending.bus_id.as_str(), pending.position + 1);
                AppendAttempt::Appended { log_position: pending.position as i64 }
            },
            Err(WriteOnceError::AddressAlreadyExists(_)) | Err(WriteOnceError::TransactionConflict(_)) => {
                proof {
                    self.space.lemma_can_tail(space_id@);
                }
                match self.space.tail(space_id.as_str(), TAIL_WINDOW_SIZE) {
                    Ok(t) => AppendAttempt::RetryAt { position: t },
                    Err(_) => {
                        let mut m = String::new();
                        append_str(&mut m, "Failed to find tail");
                        AppendAttempt::Failed(AgentBusError::Unavailable(m))
                    },
                }
            },
            Err(WriteOnceError::Timeout(_)) => {
                let mut m = String::new();
                append_str(&mut m, "WriteOnceSpace write failed");
                AppendAttempt::Failed(AgentBusError::Timeout(m))
            },
            Err(WriteOnceError::BackendUnavailable(_)) => {
                let mut m = String::new();
                append_str(&mut m, "WriteOnceSpace write failed");
                AppendAttempt::Failed(AgentBusError::Unavailable(m))
            },
            Err(WriteOnceError::InternalError(_)) => {
                let mut m = String::new();
                append_str(&mut m, "WriteOnceSpace write failed");
                AppendAttempt::Failed(AgentBusError::Internal(m))
            },
        }
    }

    /// Read the entries of `[from, to)` of a space, skipping those the
    /// filter does not select, stopping after `max` of them. Returns the
    /// entries and, when the limit was reached, the address just past the
    /// last one.
    fn scan(&self, space_id: &String, from: u64, to: u64, max: usize, filter: &Option<Vec<PayloadType>>) -> (r: (
        Vec<BusEntry>,
        Option<u64>,
    ))
        requires
            max > 0,
        ensures
            self.spec_space().reads_exact() ==> ({
                let sel = selected(
                    stored_run(self.spec_space().stored(), space_id@, from as int, to as int),
                    filter_view(*filter),
                );
                &&& r.0@ == bounded(sel, max as int)
                &&& match r.1 {
                    Some(next) => sel.len() >= max && from <= next - 1 < to && limit_reached_at(
                        self.spec_space().stored(),
                        space_id@,
                        from as int,
                        next - 1,
                        filter_view(*filter),
                        max as int,
                    ),
                    None => sel.len() < max,
                }
            }),
    {
        let ghost stored = self.space.stored();
        let ghost fv = filter_view(*filter);
        let mut entries: Vec<BusEntry> = Vec::new();
        let mut pos = from;
        while pos < to
            invariant
                from <= to ==> from <= pos <= to,
                to < from ==> pos == from,
                stored == self.spec_space().stored(),
                fv == filter_view(*filter),
                max > 0,
                self.spec_space().reads_exact() ==> entries@ == selected(
                    stored_run(stored, space_id@, from as int, pos as int),
                    fv,
                ),
                entries@.len() < max,
            decreases to - pos,
        {
            proof {
                lemma_run_step(stored, space_id@, from as int, pos, fv);
            }
            let read = self.space.read(space_id.as_str(), pos);
            match read {
                Some(entry) => {
                    assert(entry == stored[(space_id@, pos)]);
                    let keep = match &entry.payload {
                        Some(p) => payload_matches_filter(p, filter),
                        None => false,
                    };
                    if keep {
                        entries.push(entry);
                        if entries.len() >= max {
                            proof {
                                if self.spec_space().reads_exact() {
                                    let run = stored_run(stored, space_id@, from as int, pos as int + 1);
                                    assert(run == stored_run(stored, space_id@, from as int, pos as int).push(
                                        stored[(space_id@, pos)],
                                    ));
                                    assert(entries@ == selected(run, fv));
                                    lemma_run_prefix(stored, space_id@, from as int, pos as int + 1, to as int, fv);
                                    let sel = selected(stored_run(stored, space_id@, from as int, to as int), fv);
                                    assert(sel.take(max as int) =~= entries@);
                                    if sel.len() == max {
                                        assert(sel =~= entries@);
                                    }
                                }
                            }
                            return (entries, Some(pos + 1));
                        }
                    }
                    proof {
                        if self.spec_space().reads_exact() {
                            assert(stored_run(stored, space_id@, from as int, pos as int + 1) == stored_run(
                                stored,
                                space_id@,
                                from as int,
                                pos as int,
                            ).push(stored[(space_id@, pos)]));
                        }
                    }
                },
                None => {
                    proof {
                        if self.spec_space().reads_exact() {
                            assert(stored_run(stored, space_id@, from as int, pos as int + 1) == stored_run(
                                stored,
                                space_id@,
                                from as int,
                                pos as int,
                            ));
                        }
                    }
                },
            }
            pos = pos + 1;
        }
        proof {
            if to < from {
                assert(stored_run(stored, space_id@, from as int, to as int) == Seq::<BusEntry>::empty());
                assert(stored_run(stored, space_id@, from as int, pos as int) == Seq::<BusEntry>::empty());
            }
        }
        (entries, None)
    }

    /// Read the entries of `[from, to)` of a space that the filter selects,
    /// keeping the first `max`; also whether no further one was found.
    fn poll_scan(&self, space_id: &String, from: u64, to: u64, max: usize, filter: &Option<Vec<PayloadType>>) -> (r: (
        Vec<BusEntry>,
        bool,
    ))
        ensures
            self.spec_space().reads_exact() ==> ({
                let sel = selected(
                    stored_run(self.spec_space().stored(), space_id@, from as int, to as int),
                    filter_view(*filter),
                );
                &&& r.0@ == bounded(sel, max as int)
                &&& r.1 == (sel.len() <= max)
            }),
    {
        let ghost stored = self.space.stored();
        let ghost fv = filter_view(*filter);
        let mut entries: Vec<BusEntry> = Vec::new();
        let mut pos = from;
        while pos < to
            invariant
                from <= to ==> from <= pos <= to,
                to < from ==> pos == from,
                stored == self.spec_space().stored(),
                fv == filter_view(*filter),
                self.spec_space().reads_exact() ==> entries@ == selected(
                    stored_run(stored, space_id@, from as int, pos as int),
                    fv,
                ),
                entries@.len() <= max,
            decreases to - pos,
        {
            proof {
                lemma_run_step(stored, space_id@, from as int, pos, fv);
            }
            let read = self.space.read(space_id.as_str(), pos);
            match read {
                Some(entry) => {
                    assert(entry == stored[(space_id@, pos)]);
                    let keep = match &entry.payload {
                        Some(p) => payload_matches_filter(p, filter),
                        None => false,
                    };
                    proof {
                        if self.spec_space().reads_exact() {
                            assert(stored_run(stored, space_id@, from as int, pos as int + 1) == stored_run(
                                stored,
                                space_id@,
                                from as int,
                                pos as int,
                            ).push(stored[(space_id@, pos)]));
                        }
                    }
                    if keep {
                        if entries.len() >= max {
                            proof {
                                if self.spec_space().reads_exact() {
                                    let run = stored_run(stored, space_id@, from as int, pos as int + 1);
                                    assert(selected(run, fv) == entries@.push(entry));
                                    lemma_run_prefix(stored, space_id@, from as int, pos as int + 1, to as int, fv);
                                    let sel = selected(stored_run(stored, space_id@, from as int, to as int), fv);
                                    assert(sel.len() > max);
                                    assert(sel.take(max as int) =~= entries@);
                                }
                            }
                            return (entries, false);
                        }
                        entries.push(entry);
                    }
                },
                None => {
                    proof {
                        if self.spec_space().reads_exact() {
                            assert(stored_run(stored, space_id@, from as int, pos as int + 1) == stored_run(
                                stored,
                                space_id@,
                                from as int,
                                pos as int,
                            ));
                        }
                    }
                },
            }
            pos = pos + 1;
        }
        proof {
            if to < from {
                assert(stored_run(stored, space_id@, from as int, to as int) == Seq::<BusEntry>::empty());
                assert(stored_run(stored, space_id@, from as int, pos as int) == Seq::<BusEntry>::empty());
            }
        }
        (entries, true)
    }

    /// Poll a bus. An empty filter selects nothing; otherwise the tail of
    /// the bus's space bounds the scan (and becomes the bus's next
    /// position), and the entries the filter selects from
    /// `max(start_log_position, 0)` are returned, at most
    /// `poll_limit(max_entries)` of them, with whether none was left out.
    pub fn poll(&mut self, request: &PollRequest) -> (r: Result<PollResponse, AgentBusError>)
        requires
            old(self).wf(),
        ensures
            old(self).spec_space().tails_succeed() ==> !(r matches Err(AgentBusError::Unavailable(_))),
            old(self).spec_space().tails_succeed() && valid_bus_id(
                resolved_bus_id(request.agent_bus_id@, request.bus_id),
            ) ==> r is Ok,
            final(self).wf(),
            final(self).spec_space() == old(self).spec_space(),
            final(self).spec_interval() == old(self).spec_interval(),
            ({
                let id = resolved_bus_id(request.agent_bus_id@, request.bus_id);
                let space = bus_space_id(id);
                let start = if request.start_log_position < 0 { 0 } else { request.start_log_position as int };
                let filter = request_filter(request.filter);
                if !valid_bus_id(id) {
                    &&& r matches Err(AgentBusError::InvalidArgument(m)) && m@ == invalid_bus_id_text()
                    &&& final(self).next_positions() == old(self).next_positions()
                } else if filter matches Some(f) && f.len() == 0 {
                    &&& r matches Ok(resp) && resp.entries@.len() == 0 && resp.complete
                    &&& final(self).next_positions() == old(self).next_positions()
                } else {
                    match r {
                        Err(e) => {
                            &&& e matches AgentBusError::Unavailable(m) && m@ == "Failed to find tail"@
                            &&& final(self).next_positions() == old(self).next_positions()
                        },
                        Ok(resp) => {
                            let end = final(self).next_positions()[id];
                            let sel = selected(stored_run(old(self).spec_space().stored(), space, start, end as int), filter);
                            &&& old(self).spec_space().tail_answer(space, TAIL_WINDOW_SIZE, end)
                            &&& final(self).next_positions() == old(self).next_positions().insert(id, end)
                            &&& old(self).spec_space().reads_exact() ==> {
                                &&& resp.entries@ == bounded(sel, poll_limit(request.max_entries))
                                &&& resp.complete == (sel.len() <= poll_limit(request.max_entries))
                            }
                        },
                    }
                }
            }),
    {
        let id = resolve_bus_id(request.agent_bus_id.as_str(), request.bus_id.as_ref());
        match validate_bus_id(id) {
            Ok(()) => {},
            Err(m) => {
                return Err(AgentBusError::InvalidArgument(m));
            },
        }
        let max_entries: usize = if request.max_entries < 0 || request.max_entries as usize > MAX_POLL_ENTRIES {
            MAX_POLL_ENTRIES
        } else {
            request.max_entries as usize
        };
        let start: u64 = if request.start_log_position < 0 {
            0
        } else {
            request.start_log_position as u64
        };
        let filter = filter_types(&request.filter);
        match &filter {
            Some(f) => {
                if f.len() == 0 {
                    return Ok(PollResponse { entries: Vec::new(), complete: true });
                }
            },
            None => {},
        }
        let space_id = prefixed_space_id(id);
        proof {
            self.space.lemma_can_tail(space_id@);
        }
        let end = match self.space.tail(space_id.as_str(), TAIL_WINDOW_SIZE) {
            Ok(t) => t,
            Err(_) => {
                let mut m = String::new();
                append_str(&mut m, "Failed to find tail");
                return Err(AgentBusError::Unavailable(m));
            },
        };
        self.set_next_position(id, end);
        if end == 0 {
            proof {
                assert(stored_run(self.space.stored(), space_id@, start as int, 0) == Seq::<BusEntry>::empty());
            }
            return Ok(PollResponse { entries: Vec::new(), complete: true });
        }
        let (entries, complete) = self.poll_scan(&space_id, start, end, max_entries, &filter);
        Ok(PollResponse { entries, complete })
    }

    /// The matching entries of `[start_position, end_position)` of a bus, at
    /// most `min(max_entries, 64)`, and the position to read on from: one
    /// past the last returned entry when the limit was reached, else
    /// `end_position`. A start past the end is refused.
    pub fn read_filtered_entries(
        &self,
        id: &str,
        start_position: u64,
        max_entries: usize,
        filter: &Option<Vec<PayloadType>>,
        end_position: u64,
    ) -> (r: Result<(Vec<BusEntry>, u64), AgentBusError>)
        requires
            max_entries > 0,
        ensures
            ({
                let max = if max_entries < MAX_POLL_ENTRIES { max_entries as int } else { MAX_POLL_ENTRIES as int };
                let space = bus_space_id(id@);
                let stored = self.spec_space().stored();
                let sel = selected(stored_run(stored, space, start_position as int, end_position as int), filter_view(*filter));
                if start_position > end_position {
                    r matches Err(AgentBusError::Internal(m)) && m@ == start_beyond_end_text(
                        start_position as int,
                        end_position as int,
                    )
                } else if start_position == end_position {
                    r matches Ok((entries, next)) && entries@.len() == 0 && next == end_position
                } else {
                    &&& r matches Ok((entries, next))
                    &&& self.spec_space().reads_exact() ==> {
                        &&& entries@ == bounded(sel, max)
                        &&& if sel.len() >= max {
                            start_position <= next - 1 < end_position && limit_reached_at(
                                stored,
                                space,
                                start_position as int,
                                next - 1,
                                filter_view(*filter),
                                max,
                            )
                        } else {
                            next == end_position
                        }
                    }
                }
            }),
    {
        let max: usize = if max_entries < MAX_POLL_ENTRIES {
            max_entries
        } else {
            MAX_POLL_ENTRIES
        };
        if start_position > end_position {
            let mut m = String::new();
            append_str(&mut m, "start_position ");
            append_u64(&mut m, start_position);
            append_str(&mut m, " is beyond end_position ");
            append_u64(&mut m, end_position);
            return Err(AgentBusError::Internal(m));
        }
        if start_position == end_position {
            return Ok((Vec::new(), end_position));
        }
        let space_id = prefixed_space_id(id);
        let (entries, stopped) = self.scan(&space_id, start_position, end_position, max, filter);
        match stopped {
            Some(next) => Ok((entries, next)),
            None => Ok((entries, end_position)),
        }
    }

    /// A bounded read: the argument checks of `check_read_next_arguments`,
    /// then `read_filtered_entries` over the request's range.
    pub fn read_next(&self, request: &ReadNextRequest) -> (r: Result<ReadNextResponse, AgentBusError>)
        ensures
            ({
                let id = resolved_bus_id(request.agent_bus_id@, request.bus_id);
                let space = bus_space_id(id);
                let stored = self.spec_space().stored();
                let start = request.start_log_position as int;
                let end = request.end_log_position as int;
                let max = if request.max_entries < MAX_POLL_ENTRIES { request.max_entries as int } else { MAX_POLL_ENTRIES as int };
                let sel = selected(stored_run(stored, space, start, end), request_filter(request.filter));
                match read_next_argument_error(*request) {
                    Some(m) => r matches Err(AgentBusError::InvalidArgument(s)) && s@ == m,
                    None => if start == end {
                        r matches Ok(resp) && resp.entries@.len() == 0 && resp.next_start_position == end
                    } else {
                        &&& r matches Ok(resp)
                        &&& self.spec_space().reads_exact() ==> {
                            &&& resp.entries@ == bounded(sel, max)
                            &&& if sel.len() >= max {
                                start <= resp.next_start_position - 1 < end && limit_reached_at(
                                    stored,
                                    space,
                                    start,
                                    resp.next_start_position - 1,
                                    request_filter(request.filter),
                                    max,
                                )
                            } else {
                                resp.next_start_position == end
                            }
                        }
                    },
                }
            }),
    {
        match check_read_next_arguments(request) {
            Ok(()) => {},
            Err(e) => {
                return Err(e);
            },
        }
        let id = resolve_bus_id(request.agent_bus_id.as_str(), request.bus_id.as_ref());
        let filter = filter_types(&request.filter);
        match self.read_filtered_entries(
            id,
            request.start_log_position as u64,
            request.max_entries as usize,
            &filter,
            request.end_log_position as u64,
        ) {
            Ok((entries, next)) => Ok(ReadNextResponse { entries, next_start_position: next as i64 }),
            Err(e) => Err(e),
        }
    }

    /// The tail of the bus a request names, from its space.
    pub fn check_tail(&self, request: &CheckTailRequest) -> (r: Result<CheckTailResponse, AgentBusError>)
        requires
            self.wf(),
        ensures
            ({
                let space = bus_space_id(resolved_bus_id(request.agent_bus_id@, request.bus_id));
                match r {
                    Ok(resp) => self.spec_space().tail_answer(space, TAIL_WINDOW_SIZE, resp.tail_position as u64),
                    Err(AgentBusError::Unavailable(m)) => m@ == "Failed to find tail"@,
                    Err(_) => false,
                }
            }),
            self.spec_space().tails_succeed() ==> r is Ok,
    {
        let id = resolve_bus_id(request.agent_bus_id.as_str(), request.bus_id.as_ref());
        let space_id = prefixed_space_id(id);
        proof {
            self.space.lemma_can_tail(space_id@);
        }
        match self.space.tail(space_id.as_str(), TAIL_WINDOW_SIZE) {
            Ok(t) => {
                let position = t as i64;
                assert(position as u64 == t) by (bit_vector)
                    requires
                        position == t as i64,
                ;
                Ok(CheckTailResponse { tail_position: position })
            },
            Err(_) => {
                let mut m = String::new();
                append_str(&mut m, "Failed to find tail");
                Err(AgentBusError::Unavailable(m))
            },
        }
    }
}

/// One more address extends the run by its entry, if it has one.
pub proof fn lemma_run_step(
    stored: Map<(Seq<char>, u64), BusEntry>,
    space: Seq<char>,
    from: int,
    pos: u64,
    filter: Option<Seq<PayloadType>>,
)
    requires
        from <= pos,
    ensures
        selected(stored_run(stored, space, from, pos + 1), filter) == if stored.contains_key((space, pos))
            && entry_selected(stored[(space, pos)], filter) {
            selected(stored_run(stored, space, from, pos as int), filter).push(stored[(space, pos)])
        } else {
            selected(stored_run(stored, space, from, pos as int), filter)
        },
{
    let run = stored_run(stored, space, from, pos + 1);
    let prev = stored_run(stored, space, from, pos as int);
    assert(((pos + 1) - 1) as u64 == pos);
    if stored.contains_key((space, pos)) {
        assert(run == prev.push(stored[(space, pos)]));
        assert(run.drop_last() =~= prev);
        assert(run.last() == stored[(space, pos)]);
    } else {
        assert(run == prev);
    }
}

/// A run over `[from, to)` starts with the run over `[from, mid)`, so the
/// selection from the longer run starts with the selection from the
/// shorter.
pub proof fn lemma_run_prefix(
    stored: Map<(Seq<char>, u64), BusEntry>,
    space: Seq<char>,
    from: int,
    mid: int,
    to: int,
    filter: Option<Seq<PayloadType>>,
)
    requires
        from <= mid <= to,
    ensures
        selected(stored_run(stored, space, from, to), filter) == selected(stored_run(stored, space, from, mid), filter)
            + selected(stored_run(stored, space, mid, to), filter),
    decreases to - mid,
{
    if to == mid {
        assert(stored_run(stored, space, mid, to) == Seq::<BusEntry>::empty());
        assert(selected(stored_run(stored, space, from, mid), filter) + selected(Seq::<BusEntry>::empty(), filter)
            =~= selected(stored_run(stored, space, from, mid), filter));
    } else {
        lemma_run_prefix(stored, space, from, mid, to - 1, filter);
        let a = stored_run(stored, space, from, mid);
        let b = stored_run(stored, space, mid, to - 1);
        lemma_run_split(stored, space, from, mid, to);
        lemma_selected_append(a, stored_run(stored, space, mid, to), filter);
    }
}

/// A run over `[from, to)` is the run over `[from, mid)` followed by the
/// run over `[mid, to)`.
pub proof fn lemma_run_split(stored: Map<(Seq<char>, u64), BusEntry>, space: Seq<char>, from: int, mid: int, to: int)
    requires
        from <= mid <= to,
    ensures
        stored_run(stored, space, from, to) == stored_run(stored, space, from, mid) + stored_run(stored, space, mid, to),
    decreases to - mid,
{
    if to == mid {
        assert(stored_run(stored, space, from, mid) + Seq::<BusEntry>::empty() =~= stored_run(stored, space, from, mid));
    } else {
        lemma_run_split(stored, space, from, mid, to - 1);
        let a = stored_run(stored, space, from, mid);
        let b = stored_run(stored, space, mid, to - 1);
        if stored.contains_key((space, (to - 1) as u64)) {
            assert((a + b).push(stored[(space, (to - 1) as u64)]) =~= a + b.push(stored[(space, (to - 1) as u64)]));
        }
    }
}


/// Once an entry is stored at address `p` of a space, every poll of that
/// space from `p` up to a tail past `p` returns it first, when its filter
/// selects it.
pub proof fn lemma_poll_sees_stored_entry(
    stored: Map<(Seq<char>, u64), BusEntry>,
    space: Seq<char>,
    p: u64,
    end: int,
    filter: Option<Seq<PayloadType>>,
)
    requires
        stored.contains_key((space, p)),
        entry_selected(stored[(space, p)], filter),
        p < end,
    ensures
        selected(stored_run(stored, space, p as int, end), filter).len() >= 1,
        selected(stored_run(stored, space, p as int, end), filter)[0] == stored[(space, p)],
{
    lemma_run_prefix(stored, space, p as int, p + 1, end, filter);
    lemma_run_step(stored, space, p as int, p, filter);
    assert(stored_run(stored, space, p as int, p as int) == Seq::<BusEntry>::empty());
    assert(selected(Seq::<BusEntry>::empty(), filter) == Seq::<BusEntry>::empty());
    assert(selected(stored_run(stored, space, p as int, p + 1), filter) =~= seq![stored[(space, p)]]);
}

/// A run of `n` appends to one bus, each accepted and then written at the
/// first attempt: `positions[i]` and `stored[i]` before append `i`,
/// `accepted[i]` the next positions once request `i` was accepted.
pub open spec fn append_run(
    positions: Seq<Map<Seq<char>, u64>>,
    accepted: Seq<Map<Seq<char>, u64>>,
    stored: Seq<Map<(Seq<char>, u64), BusEntry>>,
    requests: Seq<AppendRequest>,
    pendings: Seq<PendingAppend>,
    stamps: Seq<i64>,
    log_positions: Seq<i64>,
) -> bool {
    let n = requests.len();
    &&& positions.len() == n + 1 && stored.len() == n + 1
    &&& accepted.len() == n && pendings.len() == n && stamps.len() == n && log_positions.len() == n
    &&& forall|i: int|
        0 <= i < n ==> append_accepted(positions[i], #[trigger] requests[i], Ok(pendings[i]), accepted[i])
    &&& forall|i: int|
        0 <= i < n ==> append_written(
            accepted[i],
            stored[i],
            #[trigger] pendings[i],
            stamps[i],
            log_positions[i],
            positions[i + 1],
            stored[i + 1],
        )
}

/// The entry that append `j` of a run writes, at position `j`.
pub open spec fn run_entry(requests: Seq<AppendRequest>, stamps: Seq<i64>, j: int) -> BusEntry {
    BusEntry {
        header: Some(Header { log_position: j as i64, rt_timestamp_ms: stamps[j] }),
        payload: requests[j].payload,
    }
}

/// Before append `k` of a run on bus `bus`, which the bus had not seen, the
/// bus's next position is `k` and slots `0..k` hold the earlier entries.
proof fn lemma_append_run_prefix(
    positions: Seq<Map<Seq<char>, u64>>,
    accepted: Seq<Map<Seq<char>, u64>>,
    stored: Seq<Map<(Seq<char>, u64), BusEntry>>,
    requests: Seq<AppendRequest>,
    pendings: Seq<PendingAppend>,
    stamps: Seq<i64>,
    log_positions: Seq<i64>,
    bus: Seq<char>,
    k: int,
)
    requires
        append_run(positions, accepted, stored, requests, pendings, stamps, log_positions),
        requests.len() <= i64::MAX,
        forall|i: int| 0 <= i < requests.len() ==> resolved_bus_id(#[trigger] requests[i].agent_bus_id@, requests[i].bus_id) == bus,
        !positions[0].contains_key(bus),
        0 <= k <= requests.len(),
    ensures
        k > 0 ==> positions[k].contains_key(bus) && positions[k][bus] == k,
        forall|j: int| 0 <= j < k ==> #[trigger] pendings[j].position == j,
        forall|j: int| 0 <= j < k ==> #[trigger] log_positions[j] == j,
        forall|j: u64| j < k ==> #[trigger] stored[k].contains_key((bus_space_id(bus), j))
            && stored[k][(bus_space_id(bus), j)] == run_entry(requests, stamps, j as int),
    decreases k,
{
    if k > 0 {
        let i = k - 1;
        lemma_append_run_prefix(positions, accepted, stored, requests, pendings, stamps, log_positions, bus, i);
        assert(append_accepted(positions[i], requests[i], Ok(pendings[i]), accepted[i]));
        assert(append_written(
            accepted[i],
            stored[i],
            pendings[i],
            stamps[i],
            log_positions[i],
            positions[i + 1],
            stored[i + 1],
        ));
        assert(resolved_bus_id(requests[i].agent_bus_id@, requests[i].bus_id) == bus);
        assert(pendings[i].position == i);
        assert(pendings[i].bus_id@ == bus);
        assert forall|j: u64| j < k implies #[trigger] stored[k].contains_key((bus_space_id(bus), j))
            && stored[k][(bus_space_id(bus), j)] == run_entry(requests, stamps, j as int) by {
            if j < i {
                assert(stored[i].contains_key((bus_space_id(bus), j)));
                assert((bus_space_id(bus), j) != (bus_space_id(bus), pendings[i].position));
            } else {
                assert(j == pendings[i].position);
                assert(stored[k][(bus_space_id(bus), j)] == appended_entry(pendings[i], stamps[i]));
            }
        }
    }
}

/// Appends to a bus the bus has not seen, each written at the first
/// attempt, take the consecutive positions 0, 1, 2, ...: append `j` reports
/// position `j`, and afterwards slot `j` of the bus's space holds its
/// payload, stamped with position `j`.
pub proof fn lemma_appends_take_consecutive_positions(
    positions: Seq<Map<Seq<char>, u64>>,
    accepted: Seq<Map<Seq<char>, u64>>,
    stored: Seq<Map<(Seq<char>, u64), BusEntry>>,
    requests: Seq<AppendRequest>,
    pendings: Seq<PendingAppend>,
    stamps: Seq<i64>,
    log_positions: Seq<i64>,
    bus: Seq<char>,
)
    requires
        append_run(positions, accepted, stored, requests, pendings, stamps, log_positions),
        requests.len() <= i64::MAX,
        forall|i: int| 0 <= i < requests.len() ==> resolved_bus_id(#[trigger] requests[i].agent_bus_id@, requests[i].bus_id) == bus,
        !positions[0].contains_key(bus),
    ensures
        forall|j: int| 0 <= j < requests.len() ==> #[trigger] log_positions[j] == j,
        forall|j: u64| j < requests.len() ==> #[trigger] stored[requests.len() as int].contains_key((bus_space_id(bus), j))
            && stored[requests.len() as int][(bus_space_id(bus), j)] == run_entry(requests, stamps, j as int),
{
    lemma_append_run_prefix(
        positions,
        accepted,
        stored,
        requests,
        pendings,
        stamps,
        log_positions,
        bus,
        requests.len() as int,
    );
}

} // verus!
