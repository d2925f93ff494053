//! Structured rows that observable wrappers publish on every call, and the
//! sinks that receive them.

use vstd::prelude::*;

use crate::text::append_i64;
use crate::text::append_str;
use crate::text::signed_decimal;

verus! {

/// Typed value for an extra structured log column.
#[derive(Debug, PartialEq, Eq)]
pub enum LogFieldValue {
    String(String),
    StringVector(Vec<String>),
    I64(i64),
}

/// The views of a list of strings.
pub open spec fn string_views(v: Seq<String>) -> Seq<Seq<char>> {
    v.map_values(|s: String| s@)
}

/// The texts joined by `", "`.
pub open spec fn join_comma_space(v: Seq<Seq<char>>) -> Seq<char>
    decreases v.len(),
{
    if v.len() == 0 {
        Seq::empty()
    } else if v.len() == 1 {
        v[0]
    } else {
        join_comma_space(v.drop_last()) + ", "@ + v.last()
    }
}

/// The text of a field value: a string as it is, a vector as
/// `[a, b, ...]`, a number in decimal.
pub open spec fn field_value_text(v: LogFieldValue) -> Seq<char> {
    match v {
        LogFieldValue::String(s) => s@,
        LogFieldValue::StringVector(vs) => "["@ + join_comma_space(string_views(vs@)) + "]"@,
        LogFieldValue::I64(n) => signed_decimal(n as int),
    }
}

/// The view of a field value.
pub enum FieldValueView {
    String(Seq<char>),
    StringVector(Seq<Seq<char>>),
    I64(i64),
}

pub open spec fn field_value_view(v: LogFieldValue) -> FieldValueView {
    match v {
        LogFieldValue::String(s) => FieldValueView::String(s@),
        LogFieldValue::StringVector(vs) => FieldValueView::StringVector(string_views(vs@)),
        LogFieldValue::I64(n) => FieldValueView::I64(n),
    }
}

fn clone_strings(v: &Vec<String>) -> (r: Vec<String>)
    ensures
        r@ == v@,
{
    let mut out: Vec<String> = Vec::new();
    let mut i: usize = 0;
    while i < v.len()
        invariant
            i <= v@.len(),
            out@ == v@.subrange(0, i as int),
        decreases v@.len() - i,
    {
        out.push(v[i].clone());
        i += 1;
        assert(out@ =~= v@.subrange(0, i as int));
    }
    assert(out@ =~= v@);
    out
}

impl LogFieldValue {
    /// The text of this value.
    pub fn display_text(&self) -> (s: String)
        ensures
            s@ == field_value_text(*self),
    {
        let mut s = String::new();
        match self {
            LogFieldValue::String(v) => append_str(&mut s, v.as_str()),
            LogFieldValue::StringVector(vs) => {
                append_str(&mut s, "[");
                let mut i: usize = 0;
                while i < vs.len()
                    invariant
                        i <= vs@.len(),
                        s@ == "["@ + join_comma_space(string_views(vs@.subrange(0, i as int))),
                    decreases vs@.len() - i,
                {
                    if i > 0 {
                        append_str(&mut s, ", ");
                    }
                    append_str(&mut s, vs[i].as_str());
                    proof {
                        let next = string_views(vs@.subrange(0, i + 1));
                        assert(next.drop_last() =~= string_views(vs@.subrange(0, i as int)));
                        if i == 0 {
                            assert(string_views(vs@.subrange(0, 0)) =~= Seq::<Seq<char>>::empty());
                        }
                    }
                    i += 1;
                }
                append_str(&mut s, "]");
                assert(vs@.subrange(0, vs@.len() as int) =~= vs@);
            },
            LogFieldValue::I64(n) => append_i64(&mut s, *n),
        }
        s
    }

    /// A copy of this value.
    pub fn copy(&self) -> (r: LogFieldValue)
        ensures
            field_value_view(r) == field_value_view(*self),
    {
        match self {
            LogFieldValue::String(s) => LogFieldValue::String(s.clone()),
            LogFieldValue::StringVector(vs) => LogFieldValue::StringVector(clone_strings(vs)),
            LogFieldValue::I64(n) => LogFieldValue::I64(*n),
        }
    }
}

/// A structured row. The error fields stay `None` on a successful call;
/// extra columns land in `additional_fields` in insertion order.
#[derive(Debug, PartialEq, Eq)]
pub struct LogRow {
    pub latency_ms: u64,
    pub api_call_name: String,
    pub error_code: Option<String>,
    pub error_message: Option<String>,
    pub additional_fields: Vec<(String, LogFieldValue)>,
}

/// A row as plain values: latency, call name, error code and message, and
/// the extra columns in order.
pub struct LogRowView {
    pub latency_ms: u64,
    pub api_call_name: Seq<char>,
    pub error_code: Option<Seq<char>>,
    pub error_message: Option<Seq<char>>,
    pub fields: Seq<(Seq<char>, FieldValueView)>,
}

/// The view of an empty row.
pub open spec fn empty_row_view() -> LogRowView {
    LogRowView {
        latency_ms: 0,
        api_call_name: Seq::empty(),
        error_code: None,
        error_message: None,
        fields: Seq::empty(),
    }
}

pub open spec fn opt_view(s: Option<String>) -> Option<Seq<char>> {
    match s {
        Some(t) => Some(t@),
        None => None,
    }
}

pub open spec fn fields_view(f: Seq<(String, LogFieldValue)>) -> Seq<(Seq<char>, FieldValueView)> {
    f.map_values(|p: (String, LogFieldValue)| (p.0@, field_value_view(p.1)))
}

impl View for LogRow {
    type V = LogRowView;

    open spec fn view(&self) -> LogRowView {
        LogRowView {
            latency_ms: self.latency_ms,
            api_call_name: self.api_call_name@,
            error_code: opt_view(self.error_code),
            error_message: opt_view(self.error_message),
            fields: fields_view(self.additional_fields@),
        }
    }
}

impl Default for LogRow {
    fn default() -> (r: Self)
        ensures
            r.latency_ms == 0,
            r.api_call_name@.len() == 0,
            r.error_code is None,
            r.error_message is None,
            r.additional_fields@.len() == 0,
    {
        LogRow {
            latency_ms: 0,
            api_call_name: String::new(),
            error_code: None,
            error_message: None,
            additional_fields: Vec::new(),
        }
    }
}

fn to_owned_string(s: &str) -> (r: String)
    ensures
        r@ == s@,
{
    let mut r = String::new();
    append_str(&mut r, s);
    r
}

impl LogRow {
    /// An empty row.
    pub fn new() -> (r: Self)
        ensures
            r@ == empty_row_view(),
    {
        let r = LogRow::default();
        assert(r@.api_call_name =~= Seq::<char>::empty());
        assert(r@.fields =~= Seq::<(Seq<char>, FieldValueView)>::empty());
        r
    }

    /// Latency the call took, in milliseconds.
    pub fn latency_ms(self, value: u64) -> (r: Self)
        ensures
            r@ == (LogRowView { latency_ms: value, ..self@ }),
    {
        LogRow { latency_ms: value, ..self }
    }

    /// Name of the call being logged.
    pub fn api_call_name(self, value: &str) -> (r: Self)
        ensures
            r@ == (LogRowView { api_call_name: value@, ..self@ }),
    {
        LogRow { api_call_name: to_owned_string(value), ..self }
    }

    /// Code classifying a failure.
    pub fn error_code(self, value: &str) -> (r: Self)
        ensures
            r@ == (LogRowView { error_code: Some(value@), ..self@ }),
    {
        LogRow { error_code: Some(to_owned_string(value)), ..self }
    }

    /// Human-readable error message.
    pub fn error_message(self, value: &str) -> (r: Self)
        ensures
            r@ == (LogRowView { error_message: Some(value@), ..self@ }),
    {
        LogRow { error_message: Some(to_owned_string(value)), ..self }
    }

    fn add_field(self, field: &str, value: LogFieldValue) -> (r: Self)
        ensures
            r@ == (LogRowView { fields: self@.fields.push((field@, field_value_view(value))), ..self@ }),
    {
        let mut fields = self.additional_fields;
        let ghost before = fields@;
        fields.push((to_owned_string(field), value));
        let r = LogRow { additional_fields: fields, ..self };
        assert(fields_view(r.additional_fields@) =~= fields_view(before).push((field@, field_value_view(value))));
        r
    }

    /// Add a string column.
    pub fn add_string_field(self, field: &str, value: &str) -> (r: Self)
        ensures
            r@ == (LogRowView { fields: self@.fields.push((field@, FieldValueView::String(value@))), ..self@ }),
    {
        self.add_field(field, LogFieldValue::String(to_owned_string(value)))
    }

    /// Add a string-vector column.
    pub fn add_string_vector_field(self, field: &str, value: Vec<String>) -> (r: Self)
        ensures
            r@ == (LogRowView {
                fields: self@.fields.push((field@, FieldValueView::StringVector(string_views(value@)))),
                ..self@
            }),
    {
        self.add_field(field, LogFieldValue::StringVector(value))
    }

    /// Add an integer column.
    pub fn add_i64_field(self, field: &str, value: i64) -> (r: Self)
        ensures
            r@ == (LogRowView { fields: self@.fields.push((field@, FieldValueView::I64(value))), ..self@ }),
    {
        self.add_field(field, LogFieldValue::I64(value))
    }

    /// The text of the first column named `key`, if any.
    pub fn field_text(&self, key: &str) -> (r: Option<String>)
        ensures
            match r {
                Some(t) => exists|i: int|
                    0 <= i < self.additional_fields@.len() && (#[trigger] self.additional_fields@[i]).0@ == key@ && t@
                        == field_value_text(self.additional_fields@[i].1) && forall|j: int|
                        0 <= j < i ==> (#[trigger] self.additional_fields@[j]).0@ != key@,
                None => forall|i: int|
                    0 <= i < self.additional_fields@.len() ==> (#[trigger] self.additional_fields@[i]).0@ != key@,
            },
    {
        let k = key.to_owned();
        let mut i: usize = 0;
        while i < self.additional_fields.len()
            invariant
                i <= self.additional_fields@.len(),
                k@ == key@,
                forall|j: int| 0 <= j < i ==> (#[trigger] self.additional_fields@[j]).0@ != key@,
            decreases self.additional_fields@.len() - i,
        {
            if self.additional_fields[i].0 == k {
                return Some(self.additional_fields[i].1.display_text());
            }
            i += 1;
        }
        None
    }

    /// A copy of this row.
    pub fn copy(&self) -> (r: LogRow)
        ensures
            r@ == self@,
    {
        let mut fields: Vec<(String, LogFieldValue)> = Vec::new();
        let mut i: usize = 0;
        while i < self.additional_fields.len()
            invariant
                i <= self.additional_fields@.len(),
                fields_view(fields@) == fields_view(self.additional_fields@.subrange(0, i as int)),
            decreases self.additional_fields@.len() - i,
        {
            let (k, v) = &self.additional_fields[i];
            let ghost prev = fields@;
            let pair = (k.clone(), v.copy());
            fields.push(pair);
            proof {
                assert(fields@ =~= prev.push(pair));
                assert(fields_view(fields@) =~= fields_view(prev).push((pair.0@, field_value_view(pair.1))));
                assert(self.additional_fields@.subrange(0, i + 1) =~= self.additional_fields@.subrange(0, i as int).push(
                    self.additional_fields@[i as int],
                ));
                assert(fields_view(self.additional_fields@.subrange(0, i + 1)) =~= fields_view(
                    self.additional_fields@.subrange(0, i as int),
                ).push((self.additional_fields@[i as int].0@, field_value_view(self.additional_fields@[i as int].1))));
            }
            i += 1;
        }
        assert(self.additional_fields@.subrange(0, i as int) =~= self.additional_fields@);
        LogRow {
            latency_ms: self.latency_ms,
            api_call_name: self.api_call_name.clone(),
            error_code: match &self.error_code {
                Some(s) => Some(s.clone()),
                None => None,
            },
            error_message: match &self.error_message {
                Some(s) => Some(s.clone()),
                None => None,
            },
            additional_fields: fields,
        }
    }
}

/// A sink for structured rows.
pub trait AgentbusLogger {
    /// The rows handed to this sink, in order.
    closed spec fn logged(&self) -> Seq<LogRowView> {
        Seq::empty()
    }

    /// Publish a finalized row.
    fn log_row(&mut self, row: LogRow)
        ensures
            final(self).logged() == old(self).logged().push(row@),
    ;
}

/// Records every published row in memory.
pub struct InMemoryLogger {
    rows: Vec<LogRow>,
}

impl InMemoryLogger {
    pub fn new() -> (l: Self)
        ensures
            l.logged().len() == 0,
    {
        InMemoryLogger { rows: Vec::new() }
    }

    /// A snapshot of the rows published so far.
    pub fn rows(&self) -> (r: Vec<LogRow>)
        ensures
            r@.map_values(|x: LogRow| x@) == self.logged(),
    {
        let mut out: Vec<LogRow> = Vec::new();
        let mut i: usize = 0;
        while i < self.rows.len()
            invariant
                i <= self.rows@.len(),
                out@.map_values(|x: LogRow| x@) == self.rows@.subrange(0, i as int).map_values(|x: LogRow| x@),
            decreases self.rows@.len() - i,
        {
            let ghost prev = out@;
            let row = self.rows[i].copy();
            out.push(row);
            proof {
                assert(out@ =~= prev.push(row));
                assert(out@.map_values(|x: LogRow| x@) =~= prev.map_values(|x: LogRow| x@).push(row@));
                assert(self.rows@.subrange(0, i + 1) =~= self.rows@.subrange(0, i as int).push(self.rows@[i as int]));
                assert(self.rows@.subrange(0, i + 1).map_values(|x: LogRow| x@) =~= self.rows@.subrange(
                    0,
                    i as int,
                ).map_values(|x: LogRow| x@).push(self.rows@[i as int]@));
            }
            i += 1;
        }
        assert(self.rows@.subrange(0, i as int) =~= self.rows@);
        out
    }
}

impl AgentbusLogger for InMemoryLogger {
    closed spec fn logged(&self) -> Seq<LogRowView> {
        self.rows@.map_values(|r: LogRow| r@)
    }

    fn log_row(&mut self, row: LogRow) {
        self.rows.push(row);
        assert(self.logged() =~= old(self).logged().push(row@));
    }
}

/// A logger that discards all rows.
pub struct NoopLogger {
    handed: Ghost<Seq<LogRowView>>,
}

impl NoopLogger {
    pub fn new() -> (l: Self)
        ensures
            l.logged().len() == 0,
    {
        NoopLogger { handed: Ghost(Seq::empty()) }
    }
}

impl AgentbusLogger for NoopLogger {
    closed spec fn logged(&self) -> Seq<LogRowView> {
        self.handed@
    }

    fn log_row(&mut self, row: LogRow) {
        self.handed = Ghost(self.handed@.push(row@));
    }
}

} // verus!
