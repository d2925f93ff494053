//! The in-memory state of a set of bus logs: appends, polls, bounded reads
//! and tail queries, keyed by bus id.

use vstd::prelude::*;

use crate::bus::clone_entries;
use crate::bus::filter_types;
use crate::bus::filter_view;
use crate::bus::matches_filter;
use crate::bus::payload_matches_filter;
use crate::bus::request_filter;
use crate::bus::resolve_bus_id;
use crate::bus::resolved_bus_id;
use crate::bus::valid_bus_id;
use crate::bus::validate_bus_id;
use crate::bus::AgentBusError;
use crate::bus::AppendRequest;
use crate::bus::AppendResponse;
use crate::bus::BusEntry;
use crate::bus::CheckTailRequest;
use crate::bus::CheckTailResponse;
use crate::bus::Header;
use crate::bus::Payload;
use crate::bus::PayloadType;
use crate::bus::PollRequest;
use crate::bus::PollResponse;
use crate::bus::ReadNextRequest;
use crate::bus::ReadNextResponse;
use crate::keyed::find_key;
use crate::keyed::keyed_map;
use crate::keyed::keys_distinct;
use crate::keyed::lemma_keyed_lookup;
use crate::keyed::lemma_keyed_push;
use crate::keyed::lemma_keyed_update;
use crate::text::append_i64;
use crate::text::append_str;
use crate::text::signed_decimal;

verus! {

/// Most entries one poll returns.
pub const MAX_POLL_ENTRIES: usize = 64;

/// An entry is selected by a filter when it has a payload that passes it.
pub open spec fn entry_selected(e: BusEntry, filter: Option<Seq<PayloadType>>) -> bool {
    match e.payload {
        Some(p) => matches_filter(p, filter),
        None => false,
    }
}

/// The entries of `log` that a filter selects, in log order.
pub open spec fn selected(log: Seq<BusEntry>, filter: Option<Seq<PayloadType>>) -> Seq<BusEntry>
    decreases log.len(),
{
    if log.len() == 0 {
        Seq::empty()
    } else if entry_selected(log.last(), filter) {
        selected(log.drop_last(), filter).push(log.last())
    } else {
        selected(log.drop_last(), filter)
    }
}

/// Selecting from two parts selects from each in turn.
pub proof fn lemma_selected_append(a: Seq<BusEntry>, b: Seq<BusEntry>, filter: Option<Seq<PayloadType>>)
    ensures
        selected(a + b, filter) == selected(a, filter) + selected(b, filter),
    decreases b.len(),
{
    if b.len() == 0 {
        assert(a + b =~= a);
        assert(selected(a, filter) + selected(b, filter) =~= selected(a, filter));
    } else {
        assert((a + b).drop_last() =~= a + b.drop_last());
        assert((a + b).last() == b.last());
        lemma_selected_append(a, b.drop_last(), filter);
        if entry_selected(b.last(), filter) {
            assert(selected(a, filter) + selected(b.drop_last(), filter).push(b.last()) =~= (selected(a, filter)
                + selected(b.drop_last(), filter)).push(b.last()));
        }
    }
}

/// Every selected entry passes the filter, and none is invented.
pub proof fn lemma_selected_entries(log: Seq<BusEntry>, filter: Option<Seq<PayloadType>>)
    ensures
        selected(log, filter).len() <= log.len(),
        forall|i: int| 0 <= i < selected(log, filter).len() ==> entry_selected(#[trigger] selected(log, filter)[i], filter)
            && log.contains(selected(log, filter)[i]),
    decreases log.len(),
{
    if log.len() > 0 {
        lemma_selected_entries(log.drop_last(), filter);
        let s = selected(log, filter);
        let d = selected(log.drop_last(), filter);
        assert forall|i: int| 0 <= i < s.len() implies entry_selected(#[trigger] s[i], filter) && log.contains(s[i]) by {
            if i < d.len() {
                assert(s[i] == d[i]);
                assert(log.drop_last().contains(d[i]));
                let j = choose|j: int| 0 <= j < log.drop_last().len() && log.drop_last()[j] == d[i];
                assert(log[j] == d[i]);
            } else {
                assert(s[i] == log.last());
                assert(log[log.len() - 1] == log.last());
            }
        }
    }
}

/// The selection from one more entry.
pub proof fn lemma_selected_step(log: Seq<BusEntry>, from: int, to: int, filter: Option<Seq<PayloadType>>)
    requires
        0 <= from <= to < log.len(),
    ensures
        selected(log.subrange(from, to + 1), filter) == if entry_selected(log[to], filter) {
            selected(log.subrange(from, to), filter).push(log[to])
        } else {
            selected(log.subrange(from, to), filter)
        },
{
    let s = log.subrange(from, to + 1);
    assert(s.drop_last() =~= log.subrange(from, to));
    assert(s.last() == log[to]);
}

/// A poll from the position an append returned gives back exactly the
/// appended entry, and reports nothing left out, when its filter selects the
/// entry and it asks for at least one entry (a zero maximum returns none).
pub proof fn lemma_poll_returns_appended(
    log: Seq<BusEntry>,
    e: BusEntry,
    filter: Option<Seq<PayloadType>>,
    max_entries: i32,
)
    requires
        entry_selected(e, filter),
        max_entries != 0,
    ensures
        ({
            let after = log.push(e);
            let sel = selected(after.subrange(log.len() as int, after.len() as int), filter);
            &&& bounded(sel, poll_limit(max_entries)) == seq![e]
            &&& sel.len() <= poll_limit(max_entries)
        }),
{
    let after = log.push(e);
    let run = after.subrange(log.len() as int, after.len() as int);
    assert(run =~= seq![e]);
    assert(run.drop_last() =~= Seq::<BusEntry>::empty());
    assert(run.last() == e);
    assert(selected(run.drop_last(), filter) =~= Seq::<BusEntry>::empty());
    assert(selected(run, filter) =~= seq![e]);
}

/// An append leaves every earlier entry where it was: what a read of the
/// old log's range selected, it still selects.
pub proof fn lemma_append_keeps_earlier_reads(
    log: Seq<BusEntry>,
    e: BusEntry,
    from: int,
    to: int,
    filter: Option<Seq<PayloadType>>,
)
    requires
        0 <= from <= to <= log.len(),
    ensures
        selected(log.push(e).subrange(from, to), filter) == selected(log.subrange(from, to), filter),
{
    assert(log.push(e).subrange(from, to) =~= log.subrange(from, to));
}

/// The number of entries a poll may return for a requested maximum: a
/// negative request wraps to a huge count, so both it and large requests
/// are capped at the poll limit.
pub open spec fn poll_limit(max_entries: i32) -> int {
    if max_entries < 0 || max_entries > MAX_POLL_ENTRIES {
        MAX_POLL_ENTRIES as int
    } else {
        max_entries as int
    }
}

/// Each entry of a log is at its own position and carries a payload, and
/// the next position fits in a signed 64-bit number.
pub open spec fn log_well_formed(log: Seq<BusEntry>) -> bool {
    &&& log.len() < i64::MAX
    &&& forall|j: int|
        0 <= j < log.len() ==> ((#[trigger] log[j]).header matches Some(h) && h.log_position == j && log[j].payload
            is Some)
}

/// The in-memory state of a set of bus logs.
pub struct InMemoryAgentBusState {
    buses: Vec<(String, Vec<BusEntry>)>,
}

/// The message of a refused bus id.
pub open spec fn invalid_bus_id_text() -> Seq<char> {
    "agent_bus_id must not be empty"@
}

/// The message of an append without a payload.
pub open spec fn missing_payload_text() -> Seq<char> {
    "Missing or unknown payload in request"@
}

/// The message of a read whose start lies past its end.
pub open spec fn start_beyond_end_text(start: int, end: int) -> Seq<char> {
    "start_position "@ + signed_decimal(start) + " is beyond end_position "@ + signed_decimal(end)
}

/// The entries a bounded read returns from the selection `sel`, given at
/// most `max` entries: all of them, or the first `max`.
pub open spec fn bounded(sel: Seq<BusEntry>, max: int) -> Seq<BusEntry> {
    if sel.len() <= max {
        sel
    } else {
        sel.take(max)
    }
}

/// The argument errors of a bounded read, checked in order.
pub open spec fn read_next_argument_error(r: ReadNextRequest) -> Option<Seq<char>> {
    if r.max_entries <= 0 {
        Some("max_entries must be > 0"@)
    } else if r.start_log_position < 0 {
        Some("start_log_position must be >= 0"@)
    } else if r.end_log_position < r.start_log_position {
        Some(
            "end_log_position "@ + signed_decimal(r.end_log_position as int) + " is before start_log_position "@
                + signed_decimal(r.start_log_position as int),
        )
    } else if r.filter matches Some(f) && f.payload_types@.len() == 0 {
        Some("filter.payload_types must not be empty; omit filter entirely for no filtering"@)
    } else {
        None
    }
}

/// Check the arguments of a bounded read.
pub fn check_read_next_arguments(request: &ReadNextRequest) -> (r: Result<(), AgentBusError>)
    ensures
        match read_next_argument_error(*request) {
            None => r is Ok,
            Some(m) => r matches Err(AgentBusError::InvalidArgument(s)) && s@ == m,
        },
{
    let mut m = String::new();
    if request.max_entries <= 0 {
        append_str(&mut m, "max_entries must be > 0");
        return Err(AgentBusError::InvalidArgument(m));
    }
    if request.start_log_position < 0 {
        append_str(&mut m, "start_log_position must be >= 0");
        return Err(AgentBusError::InvalidArgument(m));
    }
    if request.end_log_position < request.start_log_position {
        append_str(&mut m, "end_log_position ");
        append_i64(&mut m, request.end_log_position);
        append_str(&mut m, " is before start_log_position ");
        append_i64(&mut m, request.start_log_position);
        return Err(AgentBusError::InvalidArgument(m));
    }
    match &request.filter {
        Some(f) => {
            if f.payload_types.len() == 0 {
                append_str(&mut m, "filter.payload_types must not be empty; omit filter entirely for no filtering");
                return Err(AgentBusError::InvalidArgument(m));
            }
        },
        None => {},
    }
    Ok(())
}

impl InMemoryAgentBusState {
    #[verifier::type_invariant]
    spec fn well_formed(self) -> bool {
        &&& keys_distinct(self.buses@)
        &&& forall|i: int| 0 <= i < self.buses@.len() ==> log_well_formed((#[trigger] self.buses@[i]).1@)
    }

    /// The log of each bus that has one.
    pub closed spec fn logs(&self) -> Map<Seq<char>, Seq<BusEntry>> {
        keyed_map(self.buses@).map_values(|v: Vec<BusEntry>| v@)
    }

    /// The log of a bus, empty for a bus never written.
    pub open spec fn log(&self, id: Seq<char>) -> Seq<BusEntry> {
        if self.logs().contains_key(id) {
            self.logs()[id]
        } else {
            Seq::empty()
        }
    }

    /// No bus has a log yet.
    pub fn new() -> (s: Self)
        ensures
            s.logs() == Map::<Seq<char>, Seq<BusEntry>>::empty(),
    {
        let s = InMemoryAgentBusState { buses: Vec::new() };
        assert(s.logs() =~= Map::<Seq<char>, Seq<BusEntry>>::empty());
        s
    }

    fn find_log(&self, id: &str) -> (r: Option<usize>)
        ensures
            match r {
                Some(i) => i < self.buses@.len() && self.buses@[i as int].0@ == id@ && self.logs().contains_key(id@)
                    && self.log(id@) == self.buses@[i as int].1@ && log_well_formed(self.log(id@)),
                None => !self.logs().contains_key(id@) && self.log(id@) == Seq::<BusEntry>::empty(),
            },
    {
        proof {
            use_type_invariant(self);
        }
        let r = find_key(&self.buses, id);
        match r {
            Some(i) => {
                assert(log_well_formed(self.buses@[i as int].1@));
            },
            None => {},
        }
        r
    }

    /// Append a payload to the log a request names. An invalid bus id or a
    /// missing payload is refused; otherwise the entry goes to the next
    /// position, stamped with `rt_timestamp_ms`.
    pub fn append(&mut self, request: AppendRequest, rt_timestamp_ms: i64) -> (r: Result<
        AppendResponse,
        AgentBusError,
    >)
        ensures
            ({
                let id = resolved_bus_id(request.agent_bus_id@, request.bus_id);
                let log = old(self).log(id);
                if !valid_bus_id(id) {
                    &&& r matches Err(AgentBusError::InvalidArgument(m)) && m@ == invalid_bus_id_text()
                    &&& final(self).logs() == old(self).logs()
                } else if request.payload is None {
                    &&& r matches Err(AgentBusError::InvalidArgument(m)) && m@ == missing_payload_text()
                    &&& final(self).logs() == old(self).logs()
                } else if log.len() + 1 >= i64::MAX {
                    &&& r matches Err(AgentBusError::Internal(_))
                    &&& final(self).logs() == old(self).logs()
                } else {
                    &&& r matches Ok(resp) && resp.log_position == log.len()
                    &&& final(self).logs() == old(self).logs().insert(
                        id,
                        log.push(
                            BusEntry {
                                header: Some(Header { log_position: log.len() as i64, rt_timestamp_ms }),
                                payload: request.payload,
                            },
                        ),
                    )
                }
            }),
    {
        proof {
            use_type_invariant(&*self);
        }
        let id = resolve_bus_id(request.agent_bus_id.as_str(), request.bus_id.as_ref()).to_owned();
        match validate_bus_id(id.as_str()) {
            Ok(()) => {},
            Err(m) => {
                return Err(AgentBusError::InvalidArgument(m));
            },
        }
        let payload = match request.payload {
            Some(p) => p,
            None => {
                let mut m = String::new();
                append_str(&mut m, "Missing or unknown payload in request");
                return Err(AgentBusError::InvalidArgument(m));
            },
        };
        let ghost old_buses = self.buses@;
        match self.find_log(id.as_str()) {
            Some(i) => {
                let len = self.buses[i].1.len();
                if len as u64 + 1 >= i64::MAX as u64 {
                    let mut m = String::new();
                    append_str(&mut m, "bus log is full");
                    return Err(AgentBusError::Internal(m));
                }
                let position = len as i64;
                let entry = BusEntry {
                    header: Some(Header { log_position: position, rt_timestamp_ms }),
                    payload: Some(payload),
                };
                let mut buses: Vec<(String, Vec<BusEntry>)> = Vec::new();
                std::mem::swap(&mut buses, &mut self.buses);
                let (key, mut log) = buses.remove(i);
                let ghost old_log = log@;
                log.push(entry);
                let ghost new_pair = (key, log);
                buses.insert(i, (key, log));
                proof {
                    assert(buses@ =~= old_buses.update(i as int, new_pair));
                    lemma_keyed_update(old_buses, i as int, new_pair);
                    assert forall|j: int| 0 <= j < buses@.len() implies log_well_formed(
                        (#[trigger] buses@[j]).1@,
                    ) by {
                        if j == i {
                            assert(buses@[j].1@ == old_log.push(entry));
                            assert forall|k: int| 0 <= k < buses@[j].1@.len() implies ((
                            #[trigger] buses@[j].1@[k]).header matches Some(h) && h.log_position == k
                                && buses@[j].1@[k].payload is Some) by {
                                if k < old_log.len() {
                                    assert(buses@[j].1@[k] == old_log[k]);
                                }
                            }
                        } else {
                            assert(buses@[j] == old_buses[j]);
                        }
                    }
                }
                self.buses = buses;
                proof {
                    assert(self.logs() =~= old(self).logs().insert(id@, old_log.push(entry)));
                }
                Ok(AppendResponse { log_position: position })
            },
            None => {
                let entry = BusEntry {
                    header: Some(Header { log_position: 0, rt_timestamp_ms }),
                    payload: Some(payload),
                };
                let mut log: Vec<BusEntry> = Vec::new();
                log.push(entry);
                let ghost new_pair = (id, log);
                proof {
                    lemma_keyed_push(old_buses, new_pair);
                }
                let mut buses: Vec<(String, Vec<BusEntry>)> = Vec::new();
                std::mem::swap(&mut buses, &mut self.buses);
                buses.push((id, log));
                proof {
                    assert(buses@ == old_buses.push(new_pair));
                    assert forall|j: int| 0 <= j < buses@.len() implies log_well_formed(
                        (#[trigger] buses@[j]).1@,
                    ) by {
                        if j < old_buses.len() {
                            assert(buses@[j] == old_buses[j]);
                        } else {
                            assert(buses@[j].1@ == seq![entry]);
                        }
                    }
                }
                self.buses = buses;
                proof {
                    assert(Seq::<BusEntry>::empty().push(entry) =~= seq![entry]);
                    assert(self.logs() =~= old(self).logs().insert(id@, Seq::<BusEntry>::empty().push(entry)));
                }
                Ok(AppendResponse { log_position: 0 })
            },
        }
    }

    /// The entries of a bus from `start` (at least 0) that a filter selects:
    /// the first `max_entries` of them, and whether none was left out.
    fn fetch_entries(&self, id: &str, start: i64, max_entries: usize, filter: &Option<Vec<PayloadType>>) -> (r: (
        Vec<BusEntry>,
        bool,
    ))
        ensures
            ({
                let log = self.log(id@);
                let from = if start < 0 { 0 } else { start as int };
                let sel = if from < log.len() { selected(log.subrange(from, log.len() as int), filter_view(*filter)) } else { Seq::empty() };
                &&& r.0@ == bounded(sel, max_entries as int)
                &&& r.1 == (sel.len() <= max_entries)
            }),
    {
        let ghost fv = filter_view(*filter);
        let i = match self.find_log(id) {
            Some(i) => i,
            None => {
                return (Vec::new(), true);
            },
        };
        let log = &self.buses[i].1;
        let ghost l = log@;
        let start_idx: usize = if start < 0 {
            0
        } else if start as u64 >= log.len() as u64 {
            log.len()
        } else {
            start as usize
        };
        let mut result: Vec<BusEntry> = Vec::new();
        let mut k: usize = start_idx;
        while k < log.len()
            invariant
                start_idx <= k <= log@.len(),
                l == log@,
                fv == filter_view(*filter),
                result@ == selected(l.subrange(start_idx as int, k as int), fv),
                result@.len() <= max_entries,
                start_idx as int == if start < 0 { 0 } else if start >= l.len() { l.len() as int } else { start as int },
                self.log(id@) == l,
            decreases log@.len() - k,
        {
            proof {
                lemma_selected_step(l, start_idx as int, k as int, fv);
            }
            let selected_here = match &log[k].payload {
                Some(p) => payload_matches_filter(p, filter),
                None => false,
            };
            if selected_here {
                if result.len() >= max_entries {
                    proof {
                        let tail = l.subrange(k as int + 1, l.len() as int);
                        assert(l.subrange(start_idx as int, l.len() as int) =~= l.subrange(start_idx as int, k as int + 1) + tail);
                        lemma_selected_append(l.subrange(start_idx as int, k as int + 1), tail, fv);
                        let sel = selected(l.subrange(start_idx as int, l.len() as int), fv);
                        let head = selected(l.subrange(start_idx as int, k as int + 1), fv);
                        assert(head == result@.push(l[k as int]));
                        assert(sel == head + selected(tail, fv));
                        assert(sel.len() > max_entries);
                        assert(sel.take(max_entries as int) =~= result@);
                        assert(start_idx as int == (if start < 0 { 0 } else { start as int }));
                    }
                    return (result, false);
                }
                result.push(log[k].clone());
            }
            k += 1;
        }
        proof {
            assert(l.subrange(start_idx as int, l.len() as int) =~= l.subrange(start_idx as int, k as int));
            if start_idx as int >= l.len() {
                assert(l.subrange(start_idx as int, k as int) =~= Seq::<BusEntry>::empty());
            }
        }
        (result, true)
    }

    /// Poll a bus: from `start_log_position` (negative reads from 0), the
    /// entries the filter selects, at most `poll_limit(max_entries)` of them,
    /// and whether none was left out.
    pub fn poll(&self, request: &PollRequest) -> (r: Result<PollResponse, AgentBusError>)
        ensures
            ({
                let id = resolved_bus_id(request.agent_bus_id@, request.bus_id);
                let log = self.log(id);
                let from = if request.start_log_position < 0 { 0 } else { request.start_log_position as int };
                let sel = if from < log.len() { selected(log.subrange(from, log.len() as int), request_filter(request.filter)) } else { Seq::empty() };
                if !valid_bus_id(id) {
                    r matches Err(AgentBusError::InvalidArgument(m)) && m@ == invalid_bus_id_text()
                } else {
                    &&& r matches Ok(resp)
                    &&& resp.entries@ == bounded(sel, poll_limit(request.max_entries))
                    &&& resp.complete == (sel.len() <= poll_limit(request.max_entries))
                }
            }),
    {
        let id = resolve_bus_id(request.agent_bus_id.as_str(), request.bus_id.as_ref());
        match validate_bus_id(id) {
            Ok(()) => {},
            Err(m) => {
                return Err(AgentBusError::InvalidArgument(m));
            },
        }
        let max_entries: usize = if request.max_entries < 0 || request.max_entries as usize > MAX_POLL_ENTRIES {
            MAX_POLL_ENTRIES
        } else {
            request.max_entries as usize
        };
        let filter = filter_types(&request.filter);
        let (entries, complete) = self.fetch_entries(id, request.start_log_position, max_entries, &filter);
        Ok(PollResponse { entries, complete })
    }

    /// The tail of a bus: the position the next append takes, 0 for a bus
    /// never written.
    pub fn get_tail(&self, id: &str) -> (t: i64)
        ensures
            t == self.log(id@).len(),
    {
        match self.find_log(id) {
            Some(i) => self.buses[i].1.len() as i64,
            None => 0,
        }
    }

    /// The matching entries of `[start_position, end_position)` of a bus, at
    /// most `max_entries`, and the position to read on from: one past the
    /// last returned entry when the limit was reached, else `end_position`.
    /// A start past the end is refused.
    pub fn read_filtered_entries(
        &self,
        id: &str,
        start_position: i64,
        max_entries: usize,
        filter: &Option<Vec<PayloadType>>,
        end_position: i64,
    ) -> (r: Result<(Vec<BusEntry>, i64), String>)
        requires
            start_position >= 0,
            max_entries > 0,
            self.logs().contains_key(id@) && start_position < end_position ==> start_position <= self.log(id@).len(),
        ensures
            ({
                let log = self.log(id@);
                let end = if end_position < log.len() { end_position as int } else { log.len() as int };
                if start_position > end_position {
                    r matches Err(m) && m@ == start_beyond_end_text(start_position as int, end_position as int)
                } else if start_position == end_position || !self.logs().contains_key(id@) {
                    r matches Ok((entries, next)) && entries@.len() == 0 && next == end_position
                } else {
                    let sel = selected(log.subrange(start_position as int, end), filter_view(*filter));
                    &&& r matches Ok((entries, next))
                    &&& entries@ == bounded(sel, max_entries as int)
                    &&& if sel.len() >= max_entries {
                        entries@.last().header matches Some(h) && next == h.log_position + 1
                    } else {
                        next == end_position
                    }
                }
            }),
    {
        if start_position > end_position {
            let mut m = String::new();
            append_str(&mut m, "start_position ");
            append_i64(&mut m, start_position);
            append_str(&mut m, " is beyond end_position ");
            append_i64(&mut m, end_position);
            return Err(m);
        }
        if start_position == end_position {
            return Ok((Vec::new(), end_position));
        }
        let ghost fv = filter_view(*filter);
        let i = match self.find_log(id) {
            Some(i) => i,
            None => {
                return Ok((Vec::new(), end_position));
            },
        };
        let log = &self.buses[i].1;
        let ghost l = log@;
        let start_idx: usize = if (start_position as u64) < (log.len() as u64) {
            start_position as usize
        } else {
            log.len()
        };
        assert(start_idx as int == start_position as int);
        let end_idx: usize = if (end_position as u64) < (log.len() as u64) {
            end_position as usize
        } else {
            log.len()
        };
        let mut entries: Vec<BusEntry> = Vec::new();
        let mut k: usize = start_idx;
        while k < end_idx
            invariant
                start_idx <= k <= end_idx <= log@.len(),
                l == log@,
                log_well_formed(l),
                fv == filter_view(*filter),
                entries@ == selected(l.subrange(start_idx as int, k as int), fv),
                entries@.len() < max_entries,
                start_idx as int == start_position as int,
                self.log(id@) == l,
                self.logs().contains_key(id@),
                start_position < end_position,
                end_idx as int == if end_position < l.len() { end_position as int } else { l.len() as int },
            decreases end_idx - k,
        {
            proof {
                lemma_selected_step(l, start_idx as int, k as int, fv);
            }
            let selected_here = match &log[k].payload {
                Some(p) => payload_matches_filter(p, filter),
                None => false,
            };
            if selected_here {
                entries.push(log[k].clone());
                if entries.len() >= max_entries {
                    let next = match log[k].header {
                        Some(h) => h.log_position + 1,
                        None => end_position,
                    };
                    proof {
                        let tail = l.subrange(k as int + 1, end_idx as int);
                        assert(l.subrange(start_idx as int, end_idx as int) =~= l.subrange(
                            start_idx as int,
                            k as int + 1,
                        ) + tail);
                        lemma_selected_append(l.subrange(start_idx as int, k as int + 1), tail, fv);
                        let sel = selected(l.subrange(start_idx as int, end_idx as int), fv);
                        let head = selected(l.subrange(start_idx as int, k as int + 1), fv);
                        assert(head == entries@);
                        assert(sel == head + selected(tail, fv));
                        assert(sel.take(max_entries as int) =~= entries@);
                        if sel.len() == max_entries {
                            assert(sel =~= entries@);
                        }
                        assert(entries@.last() == l[k as int]);
                        assert(l[k as int].header matches Some(h) && h.log_position == k);
                    }
                    return Ok((entries, next));
                }
            }
            k += 1;
        }
        proof {
            assert(l.subrange(start_idx as int, end_idx as int) =~= l.subrange(start_idx as int, k as int));
        }
        Ok((entries, end_position))
    }

    /// A bounded read: the argument checks of `check_read_next_arguments`,
    /// then `read_filtered_entries` over the request's range.
    pub fn read_next(&self, request: &ReadNextRequest) -> (r: Result<ReadNextResponse, AgentBusError>)
        requires
            ({
                let id = resolved_bus_id(request.agent_bus_id@, request.bus_id);
                self.logs().contains_key(id) && 0 <= request.start_log_position < request.end_log_position
                    ==> request.start_log_position <= self.log(id).len()
            }),
        ensures
            ({
                let id = resolved_bus_id(request.agent_bus_id@, request.bus_id);
                let log = self.log(id);
                let start = request.start_log_position;
                let end = if request.end_log_position < log.len() { request.end_log_position as int } else { log.len() as int };
                let max = request.max_entries as int;
                match read_next_argument_error(*request) {
                    Some(m) => r matches Err(AgentBusError::InvalidArgument(s)) && s@ == m,
                    None => if start == request.end_log_position || !self.logs().contains_key(id) {
                        r matches Ok(resp) && resp.entries@.len() == 0 && resp.next_start_position == request.end_log_position
                    } else {
                        let sel = selected(log.subrange(start as int, end), request_filter(request.filter));
                        &&& r matches Ok(resp)
                        &&& resp.entries@ == bounded(sel, max)
                        &&& if sel.len() >= max {
                            resp.entries@.last().header matches Some(h) && resp.next_start_position == h.log_position + 1
                        } else {
                            resp.next_start_position == request.end_log_position
                        }
                    },
                }
            }),
    {
        match check_read_next_arguments(request) {
            Ok(()) => {},
            Err(e) => {
                return Err(e);
            },
        }
        let id = resolve_bus_id(request.agent_bus_id.as_str(), request.bus_id.as_ref());
        let filter = filter_types(&request.filter);
        match self.read_filtered_entries(
            id,
            request.start_log_position,
            request.max_entries as usize,
            &filter,
            request.end_log_position,
        ) {
            Ok((entries, next_start_position)) => Ok(ReadNextResponse { entries, next_start_position }),
            Err(m) => Err(AgentBusError::Internal(m)),
        }
    }

    /// The tail of the bus a request names.
    pub fn check_tail(&self, request: &CheckTailRequest) -> (r: CheckTailResponse)
        ensures
            r.tail_position == self.log(resolved_bus_id(request.agent_bus_id@, request.bus_id)).len(),
    {
        let id = resolve_bus_id(request.agent_bus_id.as_str(), request.bus_id.as_ref());
        CheckTailResponse { tail_position: self.get_tail(id) }
    }
}

} // verus!
