//! Information-flow labels for an agent.
//!
//! Two observers of an agent stand side by side. The one in [`trace`] and [`provider`] labels
//! single values with the readers that may see them and records what depends on what. The one
//! in [`fides`] stands between an agent and its tools: it keeps a coarse label for each
//! session, hides untrusted results and checks calls against policies.
pub mod digest;
pub mod fides;
pub mod json;
pub mod json_laws;
pub mod label;
pub mod line;
pub mod provider;
pub mod provider_flow;
pub mod provider_laws;
pub mod provider_records;
pub mod provider_steps;
pub mod reader_laws;
pub mod record_json;
pub mod record_laws;
pub mod sandbox;
pub mod table;
pub mod text;
pub mod trace;
pub mod trace_laws;
pub mod views;
pub mod wire_laws;

pub use digest::content_digest;
pub use label::{Decision, Label, ReaderSet, Readers};
pub use trace::{
    Context, Dependencies, Domain, Exposure, Operation, Record, Trace, Value, ValueRef,
};
