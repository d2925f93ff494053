use agentbus::server::app_server_config;
use agentbus::server::check_cli_backend;
use agentbus::server::default_gate_timeout;
use agentbus::server::parse_backend_url;
use agentbus::server::BackendPlan;
use agentbus::server::CommonServerArgs;
use agentbus::server::CoreAgentBusFactory;
use agentbus::server::ParsedBackend;

#[test]
fn test_parse_backend_url_preserves_unknown_url() {
    assert_eq!(
        parse_backend_url("custom://backend").unwrap(),
        ParsedBackend::Other("custom://backend".to_owned())
    );
}

#[test]
fn test_parse_backend_url_rejects_missing_scheme() {
    let error = parse_backend_url("not-a-url").unwrap_err();
    assert!(error.contains("expected <scheme>://"), "unexpected parse error: {error}");
    assert_eq!(error, "Invalid URL 'not-a-url': expected <scheme>://...");
}

#[test]
fn parse_backend_url_recognizes_known_schemes() {
    assert_eq!(parse_backend_url("memory://").unwrap(), ParsedBackend::Memory);
    assert_eq!(
        parse_backend_url("http://localhost:9999").unwrap(),
        ParsedBackend::Http("http://localhost:9999".to_owned())
    );
    assert_eq!(
        parse_backend_url("https://bus.example").unwrap(),
        ParsedBackend::Http("https://bus.example".to_owned())
    );
    assert_eq!(
        parse_backend_url("sqlite:///tmp/bus.db").unwrap(),
        ParsedBackend::Sqlite("/tmp/bus.db".to_owned())
    );
    assert_eq!(
        parse_backend_url("sqlite://").unwrap_err(),
        "sqlite:// requires a file path, e.g. sqlite:///abs/path/to/db"
    );
    assert_eq!(
        parse_backend_url("custom://a://b").unwrap(),
        ParsedBackend::Other("custom://a://b".to_owned())
    );
}

#[test]
fn cli_refuses_the_in_memory_backend() {
    assert!(check_cli_backend(&ParsedBackend::Memory).is_err());
    assert!(check_cli_backend(&ParsedBackend::Sqlite("/db".to_owned())).is_ok());
}

#[test]
fn factory_plans_each_backend() {
    let factory = CoreAgentBusFactory::new(None);
    assert_eq!(factory.plan(ParsedBackend::Memory).unwrap(), BackendPlan::InMemoryWriteOnce);
    assert_eq!(
        factory.plan(ParsedBackend::Sqlite("/db".to_owned())).unwrap(),
        BackendPlan::SqliteWriteOnce("/db".to_owned())
    );
    assert_eq!(
        factory.plan(ParsedBackend::Other("ftp://x".to_owned())).unwrap_err(),
        "Unsupported URL 'ftp://x'. Supported schemes: memory://, http://, https://, sqlite://"
    );
}

#[test]
fn server_defaults() {
    let args = CommonServerArgs::default();
    assert_eq!(args.port, 9999);
    assert_eq!(args.host, "[::]");
    assert_eq!(default_gate_timeout(), 30000);
    let config = app_server_config("bus".to_owned(), 1500, Some(20));
    assert_eq!(config.gate_check_timeout.as_millis(), 1500);
    assert_eq!(config.blocking_poll_interval.map(|d| d.as_millis()), Some(20));
}
