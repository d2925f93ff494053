use agentbus::conditional::sqlite_write_plan;
use agentbus::conditional::tail_from_recent_addresses;
use agentbus::conditional::to_sqlite_address;
use agentbus::conditional::SqliteWritePlan;
use agentbus::conditional::Version;
use agentbus::conditional::version_from_u64;
use agentbus::conditional::try_version_to_u64;
use agentbus::conditional::ConditionalWriteSpace;
use agentbus::conditional::InMemoryConditionalWriteSpace;
use agentbus::conditional::WriteOnceSpaceAdapter;
use agentbus::logger::InMemoryLogger;
use agentbus::metrics::InMemoryMetrics;
use agentbus::observability::ObservableWriteOnceSpace;
use agentbus::spaces::map_conditional_write_error;
use agentbus::spaces::write_once_error_code;
use agentbus::spaces::write_once_error_message;
use agentbus::spaces::ConditionalWriteError;
use agentbus::spaces::TailableSpace;
use agentbus::spaces::WriteOnceError;
use agentbus::spaces::WriteOnceSpace;
use agentbus::time::Duration;
use agentbus::time::ManualClock;
use agentbus::time::MonotonicInstant;
use agentbus::time::UnsafeWallTime;
use agentbus::write_once::InMemoryWriteOnceSpace;

#[test]
fn preserves_conditional_write_error_categories() {
    for (conditional_error, write_once_error, source_message) in [
        (
            ConditionalWriteError::TransactionConflict("conflict".to_owned()),
            WriteOnceError::TransactionConflict("expected".to_owned()),
            "conflict",
        ),
        (
            ConditionalWriteError::Timeout("timeout".to_owned()),
            WriteOnceError::Timeout("expected".to_owned()),
            "timeout",
        ),
        (
            ConditionalWriteError::BackendUnavailable("unavailable".to_owned()),
            WriteOnceError::BackendUnavailable("expected".to_owned()),
            "unavailable",
        ),
        (
            ConditionalWriteError::InternalError("internal".to_owned()),
            WriteOnceError::InternalError("expected".to_owned()),
            "internal",
        ),
    ] {
        let mapped = map_conditional_write_error(conditional_error);
        assert_eq!(std::mem::discriminant(&mapped), std::mem::discriminant(&write_once_error));
        assert_eq!(mapped.source_message().unwrap(), source_message);
    }
}

#[test]
fn to_sqlite_address_accepts_valid_values() {
    assert_eq!(to_sqlite_address(0).unwrap(), 0);
    assert_eq!(to_sqlite_address(1).unwrap(), 1);
    assert_eq!(to_sqlite_address(i64::MAX as u64).unwrap(), i64::MAX);
}

#[test]
fn to_sqlite_address_rejects_overflow() {
    assert!(
        to_sqlite_address(i64::MAX as u64 + 1).is_err(),
        "First value beyond i64::MAX should be rejected"
    );
    assert!(to_sqlite_address(u64::MAX).is_err(), "u64::MAX should be rejected");
    match to_sqlite_address(u64::MAX) {
        Err(ConditionalWriteError::InternalError(m)) => assert_eq!(
            m,
            "address 18446744073709551615 exceeds SQLite signed 64-bit integer range"
        ),
        other => panic!("unexpected result {other:?}"),
    }
}

#[test]
fn write_once_error_codes_preserve_categories() {
    for (error, code, message) in [
        (WriteOnceError::AddressAlreadyExists(1), "AddressAlreadyExists", "address already exists: 1"),
        (
            WriteOnceError::TransactionConflict("conflict source".to_owned()),
            "TransactionConflict",
            "transaction conflict: conflict source",
        ),
        (WriteOnceError::Timeout("timeout source".to_owned()), "Timeout", "timeout: timeout source"),
        (
            WriteOnceError::BackendUnavailable("unavailable".to_owned()),
            "BackendUnavailable",
            "backend unavailable: unavailable",
        ),
        (WriteOnceError::InternalError("internal".to_owned()), "InternalError", "internal error: internal"),
    ] {
        assert_eq!(write_once_error_code(&error), code);
        assert_eq!(write_once_error_message(&error), message);
    }
}

fn clock() -> ManualClock {
    ManualClock {
        now: MonotonicInstant::from_duration_since_clock_origin(Duration::zero()),
        wall: UnsafeWallTime::from_duration_since_epoch(Duration::zero()),
    }
}

#[test]
fn test_observable_write_once_space_records_metrics() {
    let mut space = ObservableWriteOnceSpace::new(
        InMemoryWriteOnceSpace::<Vec<u8>>::new(),
        InMemoryMetrics::new(),
        InMemoryLogger::new(),
        clock(),
    );

    space.observed_write("space", 0, b"value".to_vec()).expect("initial write should succeed");
    assert_eq!(space.metrics().counter("write.write_once_space.num_calls"), 1);
    assert_eq!(space.metrics().histogram("write.write_once_space.latency_us").len(), 1);
    assert_eq!(space.metrics().histogram("write.write_once_space.value_bytes"), vec![5]);

    let conflict = space
        .observed_write("space", 0, b"other".to_vec())
        .expect_err("duplicate write should conflict");
    assert!(matches!(conflict, WriteOnceError::AddressAlreadyExists(0)));
    assert_eq!(space.metrics().counter("write.write_once_space.num_conflicts"), 1);

    assert_eq!(space.observed_read("space", 0), Some(b"value".to_vec()));
    assert_eq!(space.observed_read("space", 1), None);
    assert_eq!(space.metrics().counter("read.write_once_space.num_calls"), 2);
    assert_eq!(space.metrics().counter("read.write_once_space.num_misses"), 1);

    assert_eq!(space.observed_tail("space", 10).unwrap(), 1);
    assert_eq!(space.metrics().counter("tail.write_once_space.num_calls"), 1);
    assert_eq!(space.metrics().histogram("tail.write_once_space.latency_us").len(), 1);

    let rows = space.logger().rows();
    assert_eq!(rows.len(), 5, "one row per write-once operation");

    let write = &rows[0];
    assert_eq!(write.api_call_name, "write");
    assert_eq!(write.field_text("component"), Some("write_once_space".to_string()));
    assert_eq!(write.field_text("resource_id"), Some("space".to_string()));
    assert_eq!(write.field_text("position"), Some("0".to_string()));
    assert_eq!(write.field_text("value_bytes"), Some("5".to_string()));
    assert_eq!(write.field_text("success"), Some("1".to_string()));

    let conflict = &rows[1];
    assert_eq!(conflict.api_call_name, "write");
    assert_eq!(conflict.field_text("success"), Some("0".to_string()));
    assert_eq!(conflict.error_code.as_deref(), Some("AddressAlreadyExists"));
    assert_eq!(conflict.error_message.as_deref(), Some("address already exists: 0"));

    let read_hit = &rows[2];
    assert_eq!(read_hit.api_call_name, "read");
    assert_eq!(read_hit.field_text("hit"), Some("1".to_string()));
    assert_eq!(read_hit.field_text("value_bytes"), Some("5".to_string()));

    let read_miss = &rows[3];
    assert_eq!(read_miss.field_text("hit"), Some("0".to_string()));
    assert_eq!(read_miss.field_text("value_bytes"), None);

    let tail = &rows[4];
    assert_eq!(tail.api_call_name, "tail");
    assert_eq!(tail.field_text("window_size"), Some("10".to_string()));
    assert_eq!(tail.field_text("tail_position"), Some("1".to_string()));
}

#[test]
fn in_memory_write_once_space_reads_back_writes_and_refuses_second_writes() {
    let mut space = InMemoryWriteOnceSpace::<u32>::new();
    assert_eq!(space.tail("s", 4).unwrap(), 0);
    space.write("s", 0, 7).unwrap();
    space.write("s", 2, 9).unwrap();
    assert!(matches!(space.write("s", 0, 8), Err(WriteOnceError::AddressAlreadyExists(0))));
    assert_eq!(space.read("s", 0), Some(7));
    assert_eq!(space.read("s", 1), None);
    assert_eq!(space.read("other", 0), None);
    // Address 1 is missing inside the window, so the contiguous tail stops there.
    assert_eq!(space.tail("s", 4).unwrap(), 1);
    // With a window of one address only the last one is examined.
    assert_eq!(space.tail("s", 1).unwrap(), 3);
}

#[test]
fn conditional_space_versions_count_up_from_zero() {
    let mut space = InMemoryConditionalWriteSpace::<&'static str>::new();
    assert!(space.write("s", 0, None, "a").unwrap());
    assert!(!space.write("s", 0, None, "b").unwrap(), "an occupied address refuses a first write");
    let current = space.read("s", 0).unwrap().unwrap();
    assert_eq!(try_version_to_u64(&current.version), Some(0));
    assert_eq!(current.value, "a");
    assert!(!space.write("s", 0, Some(version_from_u64(5)), "c").unwrap(), "a wrong version is refused");
    assert!(space.write("s", 0, Some(current.version), "d").unwrap());
    let updated = space.read("s", 0).unwrap().unwrap();
    assert_eq!(try_version_to_u64(&updated.version), Some(1));
    assert_eq!(updated.value, "d");
    assert!(space.read("s", 1).unwrap().is_none());
}

#[test]
fn adapter_gives_write_once_semantics() {
    let mut space = WriteOnceSpaceAdapter::new(InMemoryConditionalWriteSpace::<u8>::new());
    space.write("s", 3, 1).unwrap();
    assert!(matches!(space.write("s", 3, 2), Err(WriteOnceError::AddressAlreadyExists(3))));
    assert_eq!(space.read("s", 3), Some(1));
    assert_eq!(space.read("s", 4), None);
}

#[test]
fn versions_round_trip_through_big_endian_bytes() {
    let v = version_from_u64(0x0102_0304_0506_0708);
    assert_eq!(v.0, vec![1, 2, 3, 4, 5, 6, 7, 8]);
    assert_eq!(try_version_to_u64(&v), Some(0x0102_0304_0506_0708));
    assert_eq!(try_version_to_u64(&agentbus::conditional::Version(vec![1, 2])), None);
}

#[test]
fn sqlite_write_plans_follow_the_expected_version() {

    assert_eq!(sqlite_write_plan(&None).unwrap(), SqliteWritePlan::InsertIfAbsent);
    assert_eq!(
        sqlite_write_plan(&Some(version_from_u64(4))).unwrap(),
        SqliteWritePlan::CompareAndSet { current: 4, next: 5 }
    );
    match sqlite_write_plan(&Some(Version(b"bogus".to_vec()))) {
        Err(ConditionalWriteError::InternalError(m)) => {
            assert_eq!(m, "invalid version: expected 8 bytes, got 5")
        }
        other => panic!("unexpected {other:?}"),
    }
}

#[test]
fn tail_from_recent_addresses_finds_the_first_gap() {

    assert_eq!(tail_from_recent_addresses(&vec![], 4), 0);
    assert_eq!(tail_from_recent_addresses(&vec![9], 1), 10);
    assert_eq!(tail_from_recent_addresses(&vec![9, 8, 6], 4), 7);
    assert_eq!(tail_from_recent_addresses(&vec![9, 7], 2), 8);
    assert_eq!(tail_from_recent_addresses(&vec![2, 1, 0], 10), 3);
    assert_eq!(tail_from_recent_addresses(&vec![3, 1], 10), 0);
}

#[test]
fn only_one_compare_and_swap_from_a_version_wins() {
    let mut space = InMemoryConditionalWriteSpace::<u8>::new();
    assert!(space.write("s", 0, None, 1).unwrap());
    let seen = space.read("s", 0).unwrap().unwrap().version;
    assert!(space.write("s", 0, Some(seen.clone()), 2).unwrap());
    assert!(!space.write("s", 0, Some(seen), 3).unwrap(), "the second writer from the same version loses");
    assert_eq!(space.read("s", 0).unwrap().unwrap().value, 2);
}
