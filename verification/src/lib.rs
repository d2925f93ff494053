//! AgentBus: an intention-vote-commit log for coordinating agent actions,
//! with verified write-once and conditional-write address spaces, bus state,
//! decision state machines and linearizability testing of histories.

pub mod agents;
pub mod bus;
pub mod bus_state;
pub mod cli;
pub mod conditional;
pub mod config;
pub mod entry_text;
pub mod entry_view;
pub mod history;
pub mod keyed;
pub mod linearizability;
pub mod logger;
pub mod metrics;
pub mod observability;
pub mod poll_loops;
pub mod retry;
pub mod scenario_args;
pub mod server;
pub mod spaces;
pub mod text;
pub mod time;
pub mod write_once;
pub mod write_once_bus;
