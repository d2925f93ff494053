//! Backend URLs, server arguments and configuration: which backend a URL
//! names, and how a server or tool is set up from its arguments.

use vstd::prelude::*;

use crate::text::append_str;
use crate::time::Duration;
use crate::time::NANOS_PER_MILLI;

verus! {

/// The backend a URL names.
#[derive(Debug, PartialEq, Eq)]
pub enum ParsedBackend {
    /// In-memory backend (`memory://`).
    Memory,
    /// HTTP/HTTPS relay to an upstream gRPC server (`http://` or
    /// `https://`); the whole URL.
    Http(String),
    /// SQLite file backend (`sqlite:///abs/path/to/db`); the path.
    Sqlite(String),
    /// Unrecognized scheme; the whole URL.
    Other(String),
}

/// `s` has the separator `://` at `i`.
pub open spec fn separator_at(s: Seq<char>, i: int) -> bool {
    0 <= i && i + 3 <= s.len() && s[i] == ':' && s[i + 1] == '/' && s[i + 2] == '/'
}

/// The first position of `://` in `s`, if any.
pub open spec fn first_separator(s: Seq<char>) -> Option<int> {
    if exists|i: int| #[trigger] separator_at(s, i) {
        Some(choose|i: int| #[trigger] separator_at(s, i) && forall|j: int| 0 <= j < i ==> !separator_at(s, j))
    } else {
        None
    }
}

/// The outcome of parsing a backend URL, as plain values.
pub enum BackendView {
    Memory,
    Http(Seq<char>),
    Sqlite(Seq<char>),
    Other(Seq<char>),
    Invalid(Seq<char>),
}

/// What a URL names: by its scheme (the text before the first `://`),
/// memory, an HTTP(S) relay, an SQLite path (which must not be empty), or
/// another backend; a URL without `://` is invalid.
pub open spec fn backend_of(url: Seq<char>) -> BackendView {
    match first_separator(url) {
        None => BackendView::Invalid("Invalid URL '"@ + url + "': expected <scheme>://..."@),
        Some(i) => {
            let scheme = url.take(i);
            let rest = url.skip(i + 3);
            if scheme == "memory"@ {
                BackendView::Memory
            } else if scheme == "http"@ || scheme == "https"@ {
                BackendView::Http(url)
            } else if scheme == "sqlite"@ {
                if rest.len() == 0 {
                    BackendView::Invalid("sqlite:// requires a file path, e.g. sqlite:///abs/path/to/db"@)
                } else {
                    BackendView::Sqlite(rest)
                }
            } else {
                BackendView::Other(url)
            }
        },
    }
}

/// The view of a parse result.
pub open spec fn parse_view(r: Result<ParsedBackend, String>) -> BackendView {
    match r {
        Ok(ParsedBackend::Memory) => BackendView::Memory,
        Ok(ParsedBackend::Http(u)) => BackendView::Http(u@),
        Ok(ParsedBackend::Sqlite(p)) => BackendView::Sqlite(p@),
        Ok(ParsedBackend::Other(u)) => BackendView::Other(u@),
        Err(m) => BackendView::Invalid(m@),
    }
}

/// The position of the first `://` in a text.
fn find_separator(s: &str) -> (r: Option<usize>)
    ensures
        match r {
            Some(i) => first_separator(s@) == Some(i as int) && separator_at(s@, i as int) && forall|j: int|
                0 <= j < i ==> !separator_at(s@, j),
            None => first_separator(s@) is None,
        },
{
    let n = s.unicode_len();
    let mut i: usize = 0;
    while n >= 3 && i <= n - 3
        invariant
            n == s@.len(),
            forall|j: int| 0 <= j < i ==> !separator_at(s@, j),
        decreases n - i,
    {
        if s.get_char(i) == ':' && s.get_char(i + 1) == '/' && s.get_char(i + 2) == '/' {
            assert(separator_at(s@, i as int));
            let ghost c = choose|k: int| #[trigger] separator_at(s@, k) && forall|j: int| 0 <= j < k ==> !separator_at(s@, j);
            assert(separator_at(s@, c) && forall|j: int| 0 <= j < c ==> !separator_at(s@, j));
            assert(c == i) by {
                if c < i {
                    assert(!separator_at(s@, c));
                }
                if c > i {
                    assert(!separator_at(s@, i as int));
                }
            }
            return Some(i);
        }
        i += 1;
    }
    assert(!exists|j: int| #[trigger] separator_at(s@, j)) by {
        assert forall|j: int| !#[trigger] separator_at(s@, j) by {
            if j >= i {
                assert(!(j + 3 <= n) || j < 0);
            }
        }
    }
    None
}

fn same_text(a: &str, b: &str) -> (r: bool)
    ensures
        r == (a@ == b@),
{
    let n = a.unicode_len();
    if n != b.unicode_len() {
        return false;
    }
    let mut i: usize = 0;
    while i < n
        invariant
            n == a@.len(),
            a@.len() == b@.len(),
            i <= n,
            forall|k: int| 0 <= k < i ==> a@[k] == b@[k],
        decreases n - i,
    {
        if a.get_char(i) != b.get_char(i) {
            return false;
        }
        i += 1;
    }
    assert(a@ =~= b@);
    true
}

/// Parse a backend URL into a known scheme.
#[verifier::rlimit(40)]
pub fn parse_backend_url(url: &str) -> (r: Result<ParsedBackend, String>)
    ensures
        parse_view(r) == backend_of(url@),
{
    let n = url.unicode_len();
    let i = match find_separator(url) {
        Some(i) => i,
        None => {
            let mut m = String::new();
            append_str(&mut m, "Invalid URL '");
            append_str(&mut m, url);
            append_str(&mut m, "': expected <scheme>://...");
            return Err(m);
        },
    };
    let scheme = url.substring_char(0, i);
    let rest = url.substring_char(i + 3, n);
    assert(scheme@ =~= url@.take(i as int));
    assert(rest@ =~= url@.skip(i + 3));
    if same_text(scheme, "memory") {
        Ok(ParsedBackend::Memory)
    } else if same_text(scheme, "http") || same_text(scheme, "https") {
        Ok(ParsedBackend::Http(url.to_owned()))
    } else if same_text(scheme, "sqlite") {
        if rest.unicode_len() == 0 {
            let mut m = String::new();
            append_str(&mut m, "sqlite:// requires a file path, e.g. sqlite:///abs/path/to/db");
            Err(m)
        } else {
            Ok(ParsedBackend::Sqlite(rest.to_owned()))
        }
    } else {
        Ok(ParsedBackend::Other(url.to_owned()))
    }
}

/// What a command-line tool can use: any backend but the in-memory one,
/// which would not outlive the command.
pub fn check_cli_backend(backend: &ParsedBackend) -> (r: Result<(), String>)
    ensures
        match *backend {
            ParsedBackend::Memory => r matches Err(m) && m@
                == "memory:// is not supported by the AgentBus CLI. Use sqlite:///abs/path/to/db for local testing."@,
            _ => r is Ok,
        },
{
    match backend {
        ParsedBackend::Memory => {
            let mut m = String::new();
            append_str(
                &mut m,
                "memory:// is not supported by the AgentBus CLI. Use sqlite:///abs/path/to/db for local testing.",
            );
            Err(m)
        },
        _ => Ok(()),
    }
}

/// Arguments shared by all bus servers: the port and the address to bind.
#[derive(Debug)]
pub struct CommonServerArgs {
    pub port: u16,
    pub host: String,
}

impl Default for CommonServerArgs {
    /// Port 9999 on every address (`[::]`).
    fn default() -> (a: Self)
        ensures
            a.port == 9999,
            a.host@ == "[::]"@,
    {
        let mut host = String::new();
        append_str(&mut host, "[::]");
        CommonServerArgs { port: 9999, host }
    }
}

/// How long a decision may take, in milliseconds, unless set otherwise.
pub fn default_gate_timeout() -> (ms: u64)
    ensures
        ms == 30000,
{
    30000
}

/// The setup of an application server for one bus.
#[derive(Debug)]
pub struct AppServerConfig {
    pub bus_id: String,
    pub gate_check_timeout: Duration,
    pub blocking_poll_interval: Option<Duration>,
}

/// The server setup from a configuration's bus id, gate timeout and
/// optional poll interval, both in milliseconds.
pub fn app_server_config(bus_id: String, gate_check_timeout_ms: u64, blocking_poll_interval_ms: Option<u64>) -> (c:
    AppServerConfig)
    ensures
        c.bus_id == bus_id,
        c.gate_check_timeout.nanos == gate_check_timeout_ms * NANOS_PER_MILLI,
        match blocking_poll_interval_ms {
            Some(ms) => c.blocking_poll_interval matches Some(d) && d.nanos == ms * NANOS_PER_MILLI,
            None => c.blocking_poll_interval is None,
        },
{
    AppServerConfig {
        bus_id,
        gate_check_timeout: Duration::from_millis(gate_check_timeout_ms),
        blocking_poll_interval: match blocking_poll_interval_ms {
            Some(ms) => Some(Duration::from_millis(ms)),
            None => None,
        },
    }
}

/// How a parsed backend is built.
#[derive(Debug, PartialEq, Eq)]
pub enum BackendPlan {
    /// A write-once bus over an in-memory space.
    InMemoryWriteOnce,
    /// A client of the gRPC server at this URL.
    GrpcClient(String),
    /// A write-once bus over an SQLite-backed conditional-write space at
    /// this path.
    SqliteWriteOnce(String),
}

/// Builds buses for the backends this project provides.
#[derive(Clone, Copy, Debug)]
pub struct CoreAgentBusFactory {
    pub blocking_poll_interval: Option<Duration>,
}

impl CoreAgentBusFactory {
    /// A factory whose write-once buses check their space at
    /// `blocking_poll_interval` (50 ms unless given).
    pub fn new(blocking_poll_interval: Option<Duration>) -> (f: Self)
        ensures
            f.blocking_poll_interval == blocking_poll_interval,
    {
        CoreAgentBusFactory { blocking_poll_interval }
    }

    /// How to build a backend: memory and SQLite as write-once buses, HTTP
    /// as a gRPC client; any other scheme is unsupported.
    pub fn plan(&self, backend: ParsedBackend) -> (r: Result<BackendPlan, String>)
        ensures
            match backend {
                ParsedBackend::Memory => r matches Ok(BackendPlan::InMemoryWriteOnce),
                ParsedBackend::Http(u) => r matches Ok(BackendPlan::GrpcClient(v)) && v == u,
                ParsedBackend::Sqlite(p) => r matches Ok(BackendPlan::SqliteWriteOnce(v)) && v == p,
                ParsedBackend::Other(u) => r matches Err(m) && m@ == "Unsupported URL '"@ + u@
                    + "'. Supported schemes: memory://, http://, https://, sqlite://"@,
            },
    {
        match backend {
            ParsedBackend::Memory => Ok(BackendPlan::InMemoryWriteOnce),
            ParsedBackend::Http(u) => Ok(BackendPlan::GrpcClient(u)),
            ParsedBackend::Sqlite(p) => Ok(BackendPlan::SqliteWriteOnce(p)),
            ParsedBackend::Other(u) => {
                let mut m = String::new();
                append_str(&mut m, "Unsupported URL '");
                append_str(&mut m, u.as_str());
                append_str(&mut m, "'. Supported schemes: memory://, http://, https://, sqlite://");
                Err(m)
            },
        }
    }
}

} // verus!
