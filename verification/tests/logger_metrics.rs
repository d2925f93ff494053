use agentbus::logger::AgentbusLogger;
use agentbus::logger::InMemoryLogger;
use agentbus::logger::LogFieldValue;
use agentbus::logger::LogRow;
use agentbus::logger::NoopLogger;
use agentbus::metrics::AgentBusMetrics;
use agentbus::metrics::InMemoryMetrics;
use agentbus::metrics::NoopMetrics;
use agentbus::metrics::PrefixedMetrics;

#[derive(Debug, Clone, PartialEq, Eq)]
struct Record {
    key: String,
    value: i64,
    tags: Vec<(String, String)>,
}

#[derive(Default)]
struct RecordingMetrics {
    counters: Vec<Record>,
    histograms: Vec<Record>,
}

fn record(key: &str, value: i64, tags: &[(&str, &str)]) -> Record {
    Record {
        key: key.to_string(),
        value,
        tags: tags
            .iter()
            .map(|(tag_key, tag_value)| (tag_key.to_string(), tag_value.to_string()))
            .collect(),
    }
}

impl AgentBusMetrics for RecordingMetrics {
    fn record_counter(&mut self, key: &str, value: i64, tags: &[(&str, &str)]) {
        self.counters.push(record(key, value, tags));
    }

    fn record_histogram(&mut self, key: &str, value: i64, tags: &[(&str, &str)]) {
        self.histograms.push(record(key, value, tags));
    }
}

struct Echo;

impl Echo {
    fn call(&self, input: &str) -> String {
        format!("echo:{input}")
    }
}

struct ObservableEcho<'a> {
    inner: Echo,
    logger: &'a mut InMemoryLogger,
}

impl<'a> ObservableEcho<'a> {
    fn call(&mut self, input: &str) -> String {
        let result = self.inner.call(input);
        let row = LogRow::default()
            .api_call_name("call")
            .latency_ms(42)
            .add_string_field("input", input)
            .add_i64_field("success", 1);
        self.logger.log_row(row);
        result
    }
}

#[test]
fn builder_populates_all_fields() {
    let row = LogRow::default()
        .api_call_name("apply")
        .latency_ms(7)
        .error_code("StalePosition")
        .error_message("stale apply for position 5: last applied position was 11")
        .add_string_field("bus_id", "bus-1")
        .add_string_vector_field("request", vec!["payload_type:intention".to_string()])
        .add_i64_field("success", 1);

    assert_eq!(
        row,
        LogRow {
            latency_ms: 7,
            api_call_name: "apply".to_string(),
            error_code: Some("StalePosition".to_string()),
            error_message: Some(
                "stale apply for position 5: last applied position was 11".to_string()
            ),
            additional_fields: vec![
                (
                    "bus_id".to_string(),
                    LogFieldValue::String("bus-1".to_string())
                ),
                (
                    "request".to_string(),
                    LogFieldValue::StringVector(vec!["payload_type:intention".to_string()])
                ),
                ("success".to_string(), LogFieldValue::I64(1)),
            ],
        },
        "every chained setter should land in its column"
    );
}

#[test]
fn observable_wrapper_logs_correct_row() {
    let mut logger = InMemoryLogger::new();
    let out = {
        let mut observable = ObservableEcho {
            inner: Echo,
            logger: &mut logger,
        };
        observable.call("hi")
    };
    assert_eq!(out, "echo:hi", "wrapper must pass the inner result through");

    let rows = logger.rows();
    assert_eq!(rows.len(), 1, "exactly one row should be logged per call");
    assert_eq!(
        rows[0],
        LogRow {
            latency_ms: 42,
            api_call_name: "call".to_string(),
            error_code: None,
            error_message: None,
            additional_fields: vec![
                ("input".to_string(), LogFieldValue::String("hi".to_string())),
                ("success".to_string(), LogFieldValue::I64(1)),
            ],
        },
        "the logged row should carry exactly the fields the wrapper set"
    );
}

#[test]
fn prefixed_metrics_prefixes_counters_and_preserves_tags() {
    let mut metrics = PrefixedMetrics::new("commit_service", RecordingMetrics::default());

    metrics.record_counter(
        "apply.applicator.num_calls",
        1,
        &[("applicator_kind", "decider")],
    );

    assert_eq!(
        metrics.inner().counters,
        vec![record(
            "commit_service.apply.applicator.num_calls",
            1,
            &[("applicator_kind", "decider")]
        )]
    );
}

#[test]
fn prefixed_metrics_prefixes_histograms() {
    let mut metrics = PrefixedMetrics::new("commit_service", RecordingMetrics::default());

    metrics.record_histogram("write.write_once_space.latency_us", 42, &[]);

    assert_eq!(
        metrics.inner().histograms,
        vec![record(
            "commit_service.write.write_once_space.latency_us",
            42,
            &[]
        )]
    );
}

#[test]
fn empty_prefix_leaves_keys_unchanged() {
    let metrics = PrefixedMetrics::new("", RecordingMetrics::default());
    assert_eq!(metrics.key("a.b"), "a.b");
    let prefixed = PrefixedMetrics::new("svc", RecordingMetrics::default());
    assert_eq!(prefixed.key("a.b"), "svc.a.b");
}

#[test]
fn in_memory_metrics_accumulate_counters_and_histograms() {
    let mut metrics = InMemoryMetrics::new();
    assert_eq!(metrics.counter("calls"), 0);
    assert!(metrics.histogram("latency").is_empty());

    metrics.record_counter("calls", 1, &[]);
    metrics.record_counter("calls", 2, &[("k", "v")]);
    metrics.record_counter("errors", 5, &[]);
    metrics.record_histogram("latency", 10, &[]);
    metrics.record_histogram("latency", 30, &[]);

    assert_eq!(metrics.counter("calls"), 3);
    assert_eq!(metrics.counter("errors"), 5);
    assert_eq!(metrics.histogram("latency"), vec![10, 30]);
    assert!(metrics.histogram("other").is_empty());
}

#[test]
fn prefixed_in_memory_metrics_store_under_prefixed_key() {
    let mut metrics = PrefixedMetrics::new("svc", InMemoryMetrics::new());
    metrics.record_counter("calls", 4, &[]);
    assert_eq!(metrics.inner().counter("svc.calls"), 4);
    assert_eq!(metrics.inner().counter("calls"), 0);
}

#[test]
fn field_text_renders_each_value_kind() {
    let row = LogRow::new()
        .add_string_field("name", "bus-1")
        .add_string_vector_field("list", vec!["a".to_string(), "b".to_string()])
        .add_i64_field("count", -3);
    assert_eq!(row.field_text("name"), Some("bus-1".to_string()));
    assert_eq!(row.field_text("list"), Some("[a, b]".to_string()));
    assert_eq!(row.field_text("count"), Some("-3".to_string()));
    assert_eq!(row.field_text("missing"), None);
}

#[test]
fn in_memory_logger_keeps_rows_in_order_and_noop_discards() {
    let mut logger = InMemoryLogger::new();
    assert!(logger.rows().is_empty());
    logger.log_row(LogRow::new().api_call_name("first"));
    logger.log_row(LogRow::new().api_call_name("second"));
    let rows = logger.rows();
    assert_eq!(rows.len(), 2);
    assert_eq!(rows[0].api_call_name, "first");
    assert_eq!(rows[1].api_call_name, "second");

    let mut noop = NoopLogger::new();
    noop.log_row(LogRow::new());
}

#[test]
fn new_row_is_empty() {
    let row = LogRow::new();
    assert_eq!(row, LogRow::default());
    assert_eq!(row.latency_ms, 0);
    assert!(row.api_call_name.is_empty());
    assert!(row.error_code.is_none());
    assert!(row.error_message.is_none());
    assert!(row.additional_fields.is_empty());
}

#[test]
fn noop_metrics_accept_every_record() {
    let mut metrics = NoopMetrics::new();
    metrics.record_counter("calls", 1, &[("k", "v")]);
    metrics.record_histogram("latency", 7, &[]);
    let mut prefixed = PrefixedMetrics::new("svc", NoopMetrics::new());
    prefixed.record_counter("calls", 2, &[]);
    assert_eq!(prefixed.key("calls"), "svc.calls");
}
