//! Tool middleware with coarse labels: two classification axes, hidden variables and checks of
//! tool calls.
pub mod call_laws;
pub mod content_label;
pub mod delivery;
pub mod event;
pub mod expansion_laws;
pub mod invocation;
pub mod label_laws;
pub mod laws;
pub mod message;
pub mod policy;
pub mod quarantine;
pub mod references;
pub mod result_laws;
pub mod session;
pub mod tools;
pub mod tracker;

pub use content_label::{Confidentiality, ContentLabel, ContentLabelView, Integrity};
pub use message::{
    security_error, CallToolRequestParams, CallToolResult, ContentItem, SecurityError, Tool,
    ToolAnnotations,
};
pub use policy::{SecureAgentConfig, ToolPolicy};
pub use invocation::ToolInvocation;
pub use quarantine::{quarantine_request, quarantine_result, QuarantineRequest, Reply, ReplyContent};
pub use references::{INSPECT_VARIABLE, QUARANTINED_LLM};
pub use tools::security_tools;
pub use tracker::LabelTracker;
