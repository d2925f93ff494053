//! What observable wrappers record around bus calls and address-space
//! calls: the rows they log and the metrics they keep.

use vstd::prelude::*;

use crate::bus::AgentBusError;
use crate::bus::AppendResponse;
use crate::bus::BlockingPollResponse;
use crate::bus::CheckTailResponse;
use crate::bus::PollResponse;
use crate::bus::ReadNextResponse;
use crate::bus::Payload;
use crate::bus::PayloadBody;
use crate::logger::empty_row_view;
use crate::logger::AgentbusLogger;
use crate::logger::FieldValueView;
use crate::logger::LogRow;
use crate::logger::LogRowView;
use crate::metrics::metric_record;
use crate::metrics::AgentBusMetrics;
use crate::metrics::MetricKind;
use crate::metrics::MetricRecord;
use crate::spaces::tail_error_code;
use crate::spaces::tail_error_text;
use crate::spaces::write_once_error_code;
use crate::spaces::write_once_error_full_text;
use crate::spaces::write_once_error_message;
use crate::spaces::TailError;
use crate::spaces::WriteOnceError;
use crate::spaces::WriteOnceSpace;
use crate::time::Clock;
use crate::time::Duration;
use crate::time::NANOS_PER_MICRO;
use crate::time::NANOS_PER_MILLI;

verus! {

/// The component name of bus rows.
pub const BUS_COMPONENT: &'static str = "agent_bus";

/// The component name of write-once space rows.
pub const SPACE_COMPONENT: &'static str = "write_once_space";

/// A row with a call name, latency (whole milliseconds, wrapped into 64
/// bits), component and resource id.
pub open spec fn based_row(row: LogRowView, method: Seq<char>, component: Seq<char>, resource: Seq<char>, elapsed: Duration) -> LogRowView {
    LogRowView {
        api_call_name: method,
        latency_ms: (elapsed.nanos / NANOS_PER_MILLI) as u64,
        fields: row.fields.push(("component"@, FieldValueView::String(component))).push(
            ("resource_id"@, FieldValueView::String(resource)),
        ),
        ..row
    }
}

/// A new row for a bus call on `bus_id` that took `elapsed`.
pub fn base_row(method: &str, bus_id: &str, elapsed: Duration) -> (r: LogRow)
    ensures
        r@ == based_row(empty_row_view(), method@, BUS_COMPONENT@, bus_id@, elapsed),
{
    let row = LogRow::new();
    let ghost empty = row@;
    let r = row.api_call_name(method).latency_ms(elapsed.as_millis() as u64).add_string_field(
        "component",
        BUS_COMPONENT,
    ).add_string_field("resource_id", bus_id);
    assert(r@.fields =~= based_row(empty, method@, BUS_COMPONENT@, bus_id@, elapsed).fields);
    r
}

/// `row` completed as a row for a space call on `space_id` that took
/// `elapsed`.
pub fn space_base_row(row: LogRow, method: &str, space_id: &str, elapsed: Duration) -> (r: LogRow)
    ensures
        r@ == based_row(row@, method@, SPACE_COMPONENT@, space_id@, elapsed),
{
    let ghost before = row@;
    let r = row.api_call_name(method).latency_ms(elapsed.as_millis() as u64).add_string_field(
        "component",
        SPACE_COMPONENT,
    ).add_string_field("resource_id", space_id);
    assert(r@.fields =~= based_row(before, method@, SPACE_COMPONENT@, space_id@, elapsed).fields);
    r
}

/// The name of a payload's type, `unknown` for a payload without a body.
pub open spec fn payload_type_name_text(p: Payload) -> Seq<char> {
    match p.payload {
        Some(PayloadBody::Intention(_)) => "intention"@,
        Some(PayloadBody::Vote(_)) => "vote"@,
        Some(PayloadBody::DeciderPolicy(_)) => "decider_policy"@,
        Some(PayloadBody::Commit(_)) => "commit"@,
        Some(PayloadBody::Abort(_)) => "abort"@,
        Some(PayloadBody::VoterPolicy(_)) => "voter_policy"@,
        Some(PayloadBody::Control(_)) => "control"@,
        Some(PayloadBody::InferenceInput(_)) => "inference_input"@,
        Some(PayloadBody::InferenceOutput(_)) => "inference_output"@,
        Some(PayloadBody::ActionOutput(_)) => "action_output"@,
        Some(PayloadBody::AgentInput(_)) => "agent_input"@,
        Some(PayloadBody::AgentOutput(_)) => "agent_output"@,
        Some(PayloadBody::Mail(_)) => "mail"@,
        None => "unknown"@,
    }
}

/// The name of a payload's type, `unknown` for a payload without a body.
pub fn payload_type_name(payload: &Payload) -> (s: &'static str)
    ensures
        s@ == payload_type_name_text(*payload),
{
    match &payload.payload {
        Some(PayloadBody::Intention(_)) => "intention",
        Some(PayloadBody::Vote(_)) => "vote",
        Some(PayloadBody::DeciderPolicy(_)) => "decider_policy",
        Some(PayloadBody::Commit(_)) => "commit",
        Some(PayloadBody::Abort(_)) => "abort",
        Some(PayloadBody::VoterPolicy(_)) => "voter_policy",
        Some(PayloadBody::Control(_)) => "control",
        Some(PayloadBody::InferenceInput(_)) => "inference_input",
        Some(PayloadBody::InferenceOutput(_)) => "inference_output",
        Some(PayloadBody::ActionOutput(_)) => "action_output",
        Some(PayloadBody::AgentInput(_)) => "agent_input",
        Some(PayloadBody::AgentOutput(_)) => "agent_output",
        Some(PayloadBody::Mail(_)) => "mail",
        None => "unknown",
    }
}

/// The code of a bus error's category.
pub open spec fn bus_error_code_text(e: AgentBusError) -> Seq<char> {
    match e {
        AgentBusError::InvalidArgument(_) => "BusInvalidArgument"@,
        AgentBusError::Timeout(_) => "BusTimeout"@,
        AgentBusError::Unavailable(_) => "BusUnavailable"@,
        AgentBusError::Internal(_) => "BusInternal"@,
    }
}

/// The code of a bus error's category.
pub fn error_code(error: &AgentBusError) -> (s: &'static str)
    ensures
        s@ == bus_error_code_text(*error),
{
    match error {
        AgentBusError::InvalidArgument(_) => "BusInvalidArgument",
        AgentBusError::Timeout(_) => "BusTimeout",
        AgentBusError::Unavailable(_) => "BusUnavailable",
        AgentBusError::Internal(_) => "BusInternal",
    }
}

/// The message of a bus error.
pub open spec fn bus_error_text(e: AgentBusError) -> Seq<char> {
    match e {
        AgentBusError::InvalidArgument(s) => s@,
        AgentBusError::Timeout(s) => s@,
        AgentBusError::Unavailable(s) => s@,
        AgentBusError::Internal(s) => s@,
    }
}

/// `row` with the outcome of a bus call: `success` 1, or `success` 0 with
/// the error's code and message.
pub fn add_result_status<T>(row: LogRow, result: &Result<T, AgentBusError>) -> (r: LogRow)
    ensures
        match result {
            Ok(_) => r@ == (LogRowView { fields: row@.fields.push(("success"@, FieldValueView::I64(1))), ..row@ }),
            Err(e) => r@ == (LogRowView {
                fields: row@.fields.push(("success"@, FieldValueView::I64(0))),
                error_code: Some(bus_error_code_text(*e)),
                error_message: Some(bus_error_text(*e)),
                ..row@
            }),
        },
{
    match result {
        Ok(_) => row.add_i64_field("success", 1),
        Err(e) => row.add_i64_field("success", 0).error_code(error_code(e)).error_message(e.message().as_str()),
    }
}

/// `row` with an integer column added.
pub open spec fn with_i64(row: LogRowView, name: Seq<char>, value: i64) -> LogRowView {
    LogRowView { fields: row.fields.push((name, FieldValueView::I64(value))), ..row }
}

/// `row` with the outcome of a bus call, as `add_result_status` adds it.
pub open spec fn with_status<T>(row: LogRowView, result: Result<T, AgentBusError>) -> LogRowView {
    match result {
        Ok(_) => with_i64(row, "success"@, 1),
        Err(e) => LogRowView {
            error_code: Some(bus_error_code_text(e)),
            error_message: Some(bus_error_text(e)),
            ..with_i64(row, "success"@, 0)
        },
    }
}

/// The row logged for an append of a payload of type `payload_type` to
/// `bus_id`: the call's outcome, and the position on success.
pub open spec fn append_row(
    bus_id: Seq<char>,
    payload_type: Seq<char>,
    elapsed: Duration,
    result: Result<AppendResponse, AgentBusError>,
) -> LogRowView {
    let base = based_row(empty_row_view(), "append"@, BUS_COMPONENT@, bus_id, elapsed);
    let typed = LogRowView { fields: base.fields.push(("payload_type"@, FieldValueView::String(payload_type))), ..base };
    let status = with_status(typed, result);
    match result {
        Ok(resp) => with_i64(status, "position"@, resp.log_position),
        Err(_) => status,
    }
}

/// The row logged for a poll of `bus_id` from `start` for `max_entries`:
/// the outcome, and on success how many entries came back and whether the
/// answer was complete.
pub open spec fn poll_row(
    bus_id: Seq<char>,
    start: i64,
    max_entries: i32,
    elapsed: Duration,
    result: Result<PollResponse, AgentBusError>,
) -> LogRowView {
    let base = with_i64(
        with_i64(based_row(empty_row_view(), "poll"@, BUS_COMPONENT@, bus_id, elapsed), "position"@, start),
        "max_entries"@,
        max_entries as i64,
    );
    let status = with_status(base, result);
    match result {
        Ok(resp) => with_i64(
            with_i64(status, "entries_returned"@, resp.entries@.len() as i64),
            "complete"@,
            if resp.complete { 1 } else { 0 },
        ),
        Err(_) => status,
    }
}

/// The row logged for a bounded read of `bus_id` from `start`: the
/// outcome, and on success how many entries came back and where to read on.
pub open spec fn read_next_row(
    bus_id: Seq<char>,
    start: i64,
    max_entries: i32,
    elapsed: Duration,
    result: Result<ReadNextResponse, AgentBusError>,
) -> LogRowView {
    let base = with_i64(
        with_i64(based_row(empty_row_view(), "read_next"@, BUS_COMPONENT@, bus_id, elapsed), "position"@, start),
        "max_entries"@,
        max_entries as i64,
    );
    let status = with_status(base, result);
    match result {
        Ok(resp) => with_i64(
            with_i64(status, "entries_returned"@, resp.entries@.len() as i64),
            "next_position"@,
            resp.next_start_position,
        ),
        Err(_) => status,
    }
}

/// The row logged for a tail query of `bus_id`: the outcome, and the tail
/// on success.
pub open spec fn check_tail_row(
    bus_id: Seq<char>,
    elapsed: Duration,
    result: Result<CheckTailResponse, AgentBusError>,
) -> LogRowView {
    let status = with_status(based_row(empty_row_view(), "check_tail"@, BUS_COMPONENT@, bus_id, elapsed), result);
    match result {
        Ok(resp) => with_i64(status, "tail_position"@, resp.tail_position),
        Err(_) => status,
    }
}

/// The row logged for a blocking poll of `bus_id` from `start`: the
/// outcome, and on success how many entries came back and where to read on.
pub open spec fn blocking_poll_row(
    bus_id: Seq<char>,
    start: i64,
    max_entries: i32,
    timeout_ms: i32,
    elapsed: Duration,
    result: Result<BlockingPollResponse, AgentBusError>,
) -> LogRowView {
    let base = with_i64(
        with_i64(
            with_i64(
                based_row(empty_row_view(), "blocking_poll"@, BUS_COMPONENT@, bus_id, elapsed),
                "position"@,
                start,
            ),
            "max_entries"@,
            max_entries as i64,
        ),
        "timeout_ms"@,
        timeout_ms as i64,
    );
    let status = with_status(base, result);
    match result {
        Ok(resp) => with_i64(
            with_i64(status, "entries_returned"@, resp.entries@.len() as i64),
            "next_position"@,
            resp.next_start_position,
        ),
        Err(_) => status,
    }
}

/// The row an observable bus logs for an append.
pub fn append_log_row(
    bus_id: &str,
    payload_type: &str,
    elapsed: Duration,
    result: &Result<AppendResponse, AgentBusError>,
) -> (r: LogRow)
    ensures
        r@ == append_row(bus_id@, payload_type@, elapsed, *result),
{
    let row = add_result_status(base_row("append", bus_id, elapsed).add_string_field("payload_type", payload_type), result);
    match result {
        Ok(resp) => row.add_i64_field("position", resp.log_position),
        Err(_) => row,
    }
}

/// The row an observable bus logs for a poll.
pub fn poll_log_row(
    bus_id: &str,
    start: i64,
    max_entries: i32,
    elapsed: Duration,
    result: &Result<PollResponse, AgentBusError>,
) -> (r: LogRow)
    ensures
        r@ == poll_row(bus_id@, start, max_entries, elapsed, *result),
{
    let row = base_row("poll", bus_id, elapsed).add_i64_field("position", start).add_i64_field(
        "max_entries",
        max_entries as i64,
    );
    let row = add_result_status(row, result);
    match result {
        Ok(resp) => {
            let complete: i64 = if resp.complete {
                1
            } else {
                0
            };
            row.add_i64_field("entries_returned", resp.entries.len() as i64).add_i64_field("complete", complete)
        },
        Err(_) => row,
    }
}

/// The row an observable bus logs for a bounded read.
pub fn read_next_log_row(
    bus_id: &str,
    start: i64,
    max_entries: i32,
    elapsed: Duration,
    result: &Result<ReadNextResponse, AgentBusError>,
) -> (r: LogRow)
    ensures
        r@ == read_next_row(bus_id@, start, max_entries, elapsed, *result),
{
    let row = base_row("read_next", bus_id, elapsed).add_i64_field("position", start).add_i64_field(
        "max_entries",
        max_entries as i64,
    );
    let row = add_result_status(row, result);
    match result {
        Ok(resp) => row.add_i64_field("entries_returned", resp.entries.len() as i64).add_i64_field(
            "next_position",
            resp.next_start_position,
        ),
        Err(_) => row,
    }
}

/// The row an observable bus logs for a tail query.
pub fn check_tail_log_row(bus_id: &str, elapsed: Duration, result: &Result<CheckTailResponse, AgentBusError>) -> (r:
    LogRow)
    ensures
        r@ == check_tail_row(bus_id@, elapsed, *result),
{
    let row = add_result_status(base_row("check_tail", bus_id, elapsed), result);
    match result {
        Ok(resp) => row.add_i64_field("tail_position", resp.tail_position),
        Err(_) => row,
    }
}

/// The row an observable bus logs for a blocking poll.
pub fn blocking_poll_log_row(
    bus_id: &str,
    start: i64,
    max_entries: i32,
    timeout_ms: i32,
    elapsed: Duration,
    result: &Result<BlockingPollResponse, AgentBusError>,
) -> (r: LogRow)
    ensures
        r@ == blocking_poll_row(bus_id@, start, max_entries, timeout_ms, elapsed, *result),
{
    let row = base_row("blocking_poll", bus_id, elapsed).add_i64_field("position", start).add_i64_field(
        "max_entries",
        max_entries as i64,
    ).add_i64_field("timeout_ms", timeout_ms as i64);
    let row = add_result_status(row, result);
    match result {
        Ok(resp) => row.add_i64_field("entries_returned", resp.entries.len() as i64).add_i64_field(
            "next_position",
            resp.next_start_position,
        ),
        Err(_) => row,
    }
}

/// `row` with the outcome of a tail query: `success` 1 and the tail, or
/// `success` 0 with the error's code and message.
pub open spec fn with_tail_result(row: LogRowView, result: Result<u64, TailError>) -> LogRowView {
    match result {
        Ok(t) => LogRowView {
            fields: row.fields.push(("success"@, FieldValueView::I64(1))).push(
                ("tail_position"@, FieldValueView::I64(t as i64)),
            ),
            ..row
        },
        Err(e) => LogRowView {
            fields: row.fields.push(("success"@, FieldValueView::I64(0))),
            error_code: Some("BackendUnavailable"@),
            error_message: Some(tail_error_text(e)),
            ..row
        },
    }
}

pub fn add_tail_result(row: LogRow, result: &Result<u64, TailError>) -> (r: LogRow)
    ensures
        r@ == with_tail_result(row@, *result),
{
    match result {
        Ok(t) => row.add_i64_field("success", 1).add_i64_field("tail_position", *t as i64),
        Err(e) => {
            let m = e.message();
            row.add_i64_field("success", 0).error_code(tail_error_code(e)).error_message(m.as_str())
        },
    }
}

/// `row` with the outcome of a write: `success` 1, or `success` 0 with the
/// error's code and full message.
pub open spec fn with_write_result(row: LogRowView, result: Result<(), WriteOnceError>) -> LogRowView {
    match result {
        Ok(_) => LogRowView { fields: row.fields.push(("success"@, FieldValueView::I64(1))), ..row },
        Err(e) => LogRowView {
            fields: row.fields.push(("success"@, FieldValueView::I64(0))),
            error_code: Some(
                match e {
                    WriteOnceError::AddressAlreadyExists(_) => "AddressAlreadyExists"@,
                    WriteOnceError::TransactionConflict(_) => "TransactionConflict"@,
                    WriteOnceError::Timeout(_) => "Timeout"@,
                    WriteOnceError::BackendUnavailable(_) => "BackendUnavailable"@,
                    WriteOnceError::InternalError(_) => "InternalError"@,
                },
            ),
            error_message: Some(write_once_error_full_text(e)),
            ..row
        },
    }
}

pub fn add_write_result(row: LogRow, result: &Result<(), WriteOnceError>) -> (r: LogRow)
    ensures
        r@ == with_write_result(row@, *result),
{
    match result {
        Ok(_) => row.add_i64_field("success", 1),
        Err(e) => {
            let m = write_once_error_message(e);
            row.add_i64_field("success", 0).error_code(write_once_error_code(e)).error_message(m.as_str())
        },
    }
}

/// Record a call's latency, in whole microseconds (wrapped into 64 bits),
/// in a histogram.
pub fn record_latency<M: AgentBusMetrics>(metrics: &mut M, key: &str, elapsed: Duration)
    ensures
        final(metrics).recorded() == old(metrics).recorded().push(latency_record(key@, elapsed)),
{
    metrics.record_histogram(key, elapsed.as_micros() as i64, no_tags());
}

/// The empty list of tags.
fn no_tags() -> (t: &'static [(&'static str, &'static str)])
    ensures
        crate::metrics::tag_views(t@) == Seq::<(Seq<char>, Seq<char>)>::empty(),
{
    let t: &'static [(&'static str, &'static str)] = &[];
    assert(t@ =~= Seq::<(&str, &str)>::empty());
    assert(crate::metrics::tag_views(t@) =~= Seq::<(Seq<char>, Seq<char>)>::empty());
    t
}

/// A latency sample: the span in whole microseconds, wrapped into 64 bits,
/// without tags.
pub open spec fn latency_record(key: Seq<char>, elapsed: Duration) -> MetricRecord {
    (MetricKind::Histogram, key, (elapsed.nanos / NANOS_PER_MICRO) as i64, Seq::empty())
}

/// A count of one, without tags.
pub open spec fn count_record(key: Seq<char>) -> MetricRecord {
    (MetricKind::Counter, key, 1, Seq::empty())
}

/// The metrics recorded around a tail query that took `elapsed`.
pub open spec fn tail_metrics(elapsed: Duration, result: Result<u64, TailError>) -> Seq<MetricRecord> {
    seq![
        count_record("tail.write_once_space.num_calls"@),
        latency_record("tail.write_once_space.latency_us"@, elapsed),
    ] + if result is Err {
        seq![count_record("tail.write_once_space.num_errors"@)]
    } else {
        Seq::empty()
    }
}

/// The row logged for a tail query of `space` that took `elapsed`.
pub open spec fn tail_row(space: Seq<char>, window_size: u64, elapsed: Duration, result: Result<u64, TailError>) -> LogRowView {
    with_tail_result(
        based_row(with_i64(empty_row_view(), "window_size"@, window_size as i64), "tail"@, SPACE_COMPONENT@, space, elapsed),
        result,
    )
}

/// The metrics recorded around a write of `len` bytes that took `elapsed`.
pub open spec fn write_metrics(len: nat, elapsed: Duration, result: Result<(), WriteOnceError>) -> Seq<MetricRecord> {
    seq![
        count_record("write.write_once_space.num_calls"@),
        (MetricKind::Histogram, "write.write_once_space.value_bytes"@, len as i64, Seq::empty()),
        latency_record("write.write_once_space.latency_us"@, elapsed),
    ] + match result {
        Ok(_) => Seq::empty(),
        Err(WriteOnceError::AddressAlreadyExists(_)) => seq![count_record("write.write_once_space.num_conflicts"@)],
        Err(_) => seq![count_record("write.write_once_space.num_errors"@)],
    }
}

/// The row logged for a write of `len` bytes at `address` of `space`.
pub open spec fn write_row(
    space: Seq<char>,
    address: u64,
    len: nat,
    elapsed: Duration,
    result: Result<(), WriteOnceError>,
) -> LogRowView {
    with_write_result(
        based_row(
            with_i64(with_i64(empty_row_view(), "position"@, address as i64), "value_bytes"@, len as i64),
            "write"@,
            SPACE_COMPONENT@,
            space,
            elapsed,
        ),
        result,
    )
}

/// The metrics recorded around a read that took `elapsed`.
pub open spec fn read_metrics(elapsed: Duration, hit: bool) -> Seq<MetricRecord> {
    seq![
        count_record("read.write_once_space.num_calls"@),
        latency_record("read.write_once_space.latency_us"@, elapsed),
    ] + if hit {
        Seq::empty()
    } else {
        seq![count_record("read.write_once_space.num_misses"@)]
    }
}

/// The row logged for a read at `address` of `space`; `value_len` is the
/// length of the value read, if any.
pub open spec fn read_row(space: Seq<char>, address: u64, elapsed: Duration, value_len: Option<nat>) -> LogRowView {
    let base = based_row(
        with_i64(
            with_i64(with_i64(empty_row_view(), "position"@, address as i64), "success"@, 1),
            "hit"@,
            if value_len is Some { 1 } else { 0 },
        ),
        "read"@,
        SPACE_COMPONENT@,
        space,
        elapsed,
    );
    match value_len {
        Some(n) => with_i64(base, "value_bytes"@, n as i64),
        None => base,
    }
}

/// A write-once space of byte strings that records metrics and logs a row
/// around every call to the space it wraps.
pub struct ObservableWriteOnceSpace<W, M, L, C> {
    inner: W,
    metrics: M,
    logger: L,
    clock: C,
}

impl<W, M, L, C> ObservableWriteOnceSpace<W, M, L, C> {
    /// The wrapped space.
    pub closed spec fn spec_inner(&self) -> W {
        self.inner
    }

    /// The metrics backend.
    pub closed spec fn spec_metrics(&self) -> M {
        self.metrics
    }

    /// The row sink.
    pub closed spec fn spec_logger(&self) -> L {
        self.logger
    }

    /// Wrap `inner`, recording to `metrics` and `logger` and timing calls
    /// with `clock`.
    pub fn new(inner: W, metrics: M, logger: L, clock: C) -> (s: Self)
        ensures
            s.spec_inner() == inner,
            s.spec_metrics() == metrics,
            s.spec_logger() == logger,
    {
        ObservableWriteOnceSpace { inner, metrics, logger, clock }
    }

    /// The metrics backend.
    pub fn metrics(&self) -> (m: &M)
        ensures
            *m == self.spec_metrics(),
    {
        &self.metrics
    }

    /// The row sink.
    pub fn logger(&self) -> (l: &L)
        ensures
            *l == self.spec_logger(),
    {
        &self.logger
    }

    /// The wrapped space.
    pub fn inner(&self) -> (w: &W)
        ensures
            *w == self.spec_inner(),
    {
        &self.inner
    }
}

impl<W, M, L, C> ObservableWriteOnceSpace<W, M, L, C> where
    W: WriteOnceSpace<Vec<u8>>,
    M: AgentBusMetrics,
    L: AgentbusLogger,
    C: Clock,
 {
    /// The contiguous tail of a space, with its call counted and timed, its
    /// errors counted, and a row logged.
    pub fn observed_tail(&mut self, space_id: &str, window_size: u64) -> (r: Result<u64, TailError>)
        requires
            old(self).spec_inner().can_tail(space_id@),
        ensures
            final(self).spec_inner() == old(self).spec_inner(),
            r matches Ok(t) ==> old(self).spec_inner().tail_answer(space_id@, window_size, t),
            old(self).spec_inner().tails_succeed() ==> r is Ok,
            exists|elapsed: Duration|
                {
                    &&& final(self).spec_metrics().recorded() == old(self).spec_metrics().recorded() + tail_metrics(
                        elapsed,
                        r,
                    )
                    &&& final(self).spec_logger().logged() == old(self).spec_logger().logged().push(
                        tail_row(space_id@, window_size, elapsed, r),
                    )
                },
    {
        let ghost m0 = self.metrics.recorded();
        let ghost l0 = self.logger.logged();
        self.metrics.record_counter("tail.write_once_space.num_calls", 1, no_tags());
        let start = self.clock.monotonic_time();
        let result = self.inner.tail(space_id, window_size);
        let elapsed = self.clock.monotonic_time().duration_since(start);
        record_latency(&mut self.metrics, "tail.write_once_space.latency_us", elapsed);
        if result.is_err() {
            self.metrics.record_counter("tail.write_once_space.num_errors", 1, no_tags());
        }
        let row = LogRow::new().add_i64_field("window_size", window_size as i64);
        let row = add_tail_result(space_base_row(row, "tail", space_id, elapsed), &result);
        self.logger.log_row(row);
        assert(self.metrics.recorded() =~= m0 + tail_metrics(elapsed, result));
        assert(self.logger.logged() =~= l0.push(tail_row(space_id@, window_size, elapsed, result)));
        result
    }

    /// Write a value, with the call and the value's size recorded, its
    /// latency timed, conflicts and errors counted, and a row logged.
    pub fn observed_write(&mut self, space_id: &str, address: u64, value: Vec<u8>) -> (r: Result<(), WriteOnceError>)
        ensures
            match r {
                Ok(()) => !old(self).spec_inner().stored().contains_key((space_id@, address))
                    && final(self).spec_inner().stored() == old(self).spec_inner().stored().insert((space_id@, address), value),
                Err(WriteOnceError::AddressAlreadyExists(a)) => a == address && old(self).spec_inner().stored().contains_key(
                    (space_id@, address),
                ) && final(self).spec_inner().stored() == old(self).spec_inner().stored(),
                Err(_) => final(self).spec_inner().stored() == old(self).spec_inner().stored(),
            },
            exists|elapsed: Duration|
                {
                    &&& final(self).spec_metrics().recorded() == old(self).spec_metrics().recorded() + write_metrics(
                        value@.len(),
                        elapsed,
                        r,
                    )
                    &&& final(self).spec_logger().logged() == old(self).spec_logger().logged().push(
                        write_row(space_id@, address, value@.len(), elapsed, r),
                    )
                },
    {
        let ghost m0 = self.metrics.recorded();
        let ghost l0 = self.logger.logged();
        let ghost len = value@.len();
        let value_bytes = value.len();
        self.metrics.record_counter("write.write_once_space.num_calls", 1, no_tags());
        self.metrics.record_histogram("write.write_once_space.value_bytes", value_bytes as i64, no_tags());
        let start = self.clock.monotonic_time();
        let result = self.inner.write(space_id, address, value);
        let elapsed = self.clock.monotonic_time().duration_since(start);
        record_latency(&mut self.metrics, "write.write_once_space.latency_us", elapsed);
        match &result {
            Ok(()) => {},
            Err(WriteOnceError::AddressAlreadyExists(_)) => {
                self.metrics.record_counter("write.write_once_space.num_conflicts", 1, no_tags());
            },
            Err(_) => {
                self.metrics.record_counter("write.write_once_space.num_errors", 1, no_tags());
            },
        }
        let row = LogRow::new().add_i64_field("position", address as i64).add_i64_field(
            "value_bytes",
            value_bytes as i64,
        );
        let row = add_write_result(space_base_row(row, "write", space_id, elapsed), &result);
        self.logger.log_row(row);
        assert(self.metrics.recorded() =~= m0 + write_metrics(len, elapsed, result));
        assert(self.logger.logged() =~= l0.push(write_row(space_id@, address, len, elapsed, result)));
        result
    }

    /// Read a value, with the call counted and timed, misses counted, and a
    /// row logged.
    pub fn observed_read(&mut self, space_id: &str, address: u64) -> (r: Option<Vec<u8>>)
        ensures
            final(self).spec_inner() == old(self).spec_inner(),
            r matches Some(v) ==> old(self).spec_inner().stored().contains_key((space_id@, address)) && v@
                == old(self).spec_inner().stored()[(space_id@, address)]@,
            old(self).spec_inner().reads_exact() && r is None ==> !old(self).spec_inner().stored().contains_key(
                (space_id@, address),
            ),
            exists|elapsed: Duration|
                {
                    &&& final(self).spec_metrics().recorded() == old(self).spec_metrics().recorded() + #[trigger] read_metrics(
                        elapsed,
                        r is Some,
                    )
                    &&& final(self).spec_logger().logged() == old(self).spec_logger().logged().push(
                        read_row(
                            space_id@,
                            address,
                            elapsed,
                            match r {
                                Some(v) => Some(v@.len()),
                                None => None,
                            },
                        ),
                    )
                },
    {
        let ghost m0 = self.metrics.recorded();
        let ghost l0 = self.logger.logged();
        self.metrics.record_counter("read.write_once_space.num_calls", 1, no_tags());
        let start = self.clock.monotonic_time();
        let result = self.inner.read(space_id, address);
        let elapsed = self.clock.monotonic_time().duration_since(start);
        record_latency(&mut self.metrics, "read.write_once_space.latency_us", elapsed);
        if result.is_none() {
            self.metrics.record_counter("read.write_once_space.num_misses", 1, no_tags());
        }
        let hit: i64 = if result.is_some() {
            1
        } else {
            0
        };
        let mut row = space_base_row(
            LogRow::new().add_i64_field("position", address as i64).add_i64_field("success", 1).add_i64_field(
                "hit",
                hit,
            ),
            "read",
            space_id,
            elapsed,
        );
        match &result {
            Some(v) => {
                row = row.add_i64_field("value_bytes", v.len() as i64);
                proof {
                    let stored_value = old(self).spec_inner().stored()[(space_id@, address)];
                    assert(v@ =~= stored_value@);
                }
            },
            None => {},
        }
        self.logger.log_row(row);
        let ghost value_len = match &result {
            Some(v) => Some(v@.len()),
            None => None,
        };
        assert(self.metrics.recorded() =~= m0 + read_metrics(elapsed, result is Some));
        assert(self.logger.logged() =~= l0.push(read_row(space_id@, address, elapsed, value_len)));
        result
    }
}

} // verus!
