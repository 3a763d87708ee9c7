//! Policies: what tools may be called with and how their results are labeled.
use crate::fides::content_label::{Confidentiality, ContentLabel, ContentLabelView, Integrity};
use crate::fides::message::{Tool, ToolView};
use crate::table::Table;
use vstd::prelude::*;

verus! {

/// How one tool is treated.
#[derive(Debug)]
pub struct ToolPolicy {
    /// The label of the tool's results.
    pub source_label: ContentLabel,
    /// Whether the tool may be called from an untrusted context.
    pub accepts_untrusted: bool,
    /// The most confidential context from which the tool may be called; none for no limit.
    pub max_allowed_confidentiality: Option<Confidentiality>,
    /// Whether labels in the tool's results are believed.
    pub trust_result_labels: bool,
}

#[verifier::ext_equal]
pub struct PolicyView {
    pub source_label: ContentLabelView,
    pub accepts_untrusted: bool,
    pub max_allowed_confidentiality: Option<Confidentiality>,
    pub trust_result_labels: bool,
}

impl View for ToolPolicy {
    type V = PolicyView;

    open spec fn view(&self) -> PolicyView {
        PolicyView {
            source_label: self.source_label@,
            accepts_untrusted: self.accepts_untrusted,
            max_allowed_confidentiality: self.max_allowed_confidentiality,
            trust_result_labels: self.trust_result_labels,
        }
    }
}

impl PolicyView {
    /// The policy of a tool that says nothing of itself.
    pub open spec fn strict() -> PolicyView {
        PolicyView {
            source_label: ContentLabelView::untrusted(Confidentiality::Public),
            accepts_untrusted: false,
            max_allowed_confidentiality: Some(Confidentiality::Public),
            trust_result_labels: false,
        }
    }

    /// The policy that a tool's own hints give: a closed world makes its results trusted, and
    /// only a read-only tool may be called from any context.
    pub open spec fn of_tool(tool: ToolView) -> PolicyView {
        let closed_world = tool.annotations matches Some(hints) && hints.open_world_hint == Some(
            false,
        );
        let read_only = tool.annotations matches Some(hints) && hints.read_only_hint == Some(true);
        PolicyView {
            source_label: ContentLabelView {
                integrity: if closed_world {
                    Integrity::Trusted
                } else {
                    Integrity::Untrusted
                },
                confidentiality: Confidentiality::Public,
                metadata: Seq::empty(),
            },
            accepts_untrusted: read_only,
            max_allowed_confidentiality: if read_only {
                None
            } else {
                Some(Confidentiality::Public)
            },
            trust_result_labels: false,
        }
    }

    /// The policy of the middleware's own tools: any context, no labels believed.
    pub open spec fn internal(self) -> PolicyView {
        PolicyView {
            accepts_untrusted: true,
            max_allowed_confidentiality: None,
            trust_result_labels: false,
            ..self
        }
    }

    /// Whether a call under `label` breaks the policy by its integrity.
    pub open spec fn integrity_violation(self, label: ContentLabelView) -> bool {
        label.integrity == Integrity::Untrusted && !self.accepts_untrusted
    }

    /// Whether a call under `label` breaks the policy by its confidentiality.
    pub open spec fn confidentiality_violation(self, label: ContentLabelView) -> bool {
        self.max_allowed_confidentiality matches Some(maximum) && label.confidentiality.rank()
            > maximum.rank()
    }

    /// Whether a call under `label` is in keeping with the policy.
    pub open spec fn allows(self, label: ContentLabelView) -> bool {
        !self.integrity_violation(label) && !self.confidentiality_violation(label)
    }
}

impl Clone for ToolPolicy {
    fn clone(&self) -> (copy: Self)
        ensures
            copy@ == self@,
    {
        ToolPolicy {
            source_label: self.source_label.clone(),
            accepts_untrusted: self.accepts_untrusted,
            max_allowed_confidentiality: self.max_allowed_confidentiality,
            trust_result_labels: self.trust_result_labels,
        }
    }
}

impl Default for ToolPolicy {
    fn default() -> (policy: Self)
        ensures
            policy@ == PolicyView::strict(),
    {
        ToolPolicy {
            source_label: ContentLabel::untrusted(Confidentiality::Public),
            accepts_untrusted: false,
            max_allowed_confidentiality: Some(Confidentiality::Public),
            trust_result_labels: false,
        }
    }
}

/// Whether a hint is given and says `expected`.
fn hint_is(hint: Option<bool>, expected: bool) -> (is: bool)
    ensures
        is == (hint == Some(expected)),
{
    match hint {
        Some(value) => value == expected,
        None => false,
    }
}

impl ToolPolicy {
    /// The policy that a tool's own hints give.
    pub fn from_tool(tool: &Tool) -> (policy: Self)
        ensures
            policy@ == PolicyView::of_tool(tool@),
    {
        let (read_only, closed_world) = match &tool.annotations {
            Some(hints) => (
                hint_is(hints.read_only_hint, true),
                hint_is(hints.open_world_hint, false),
            ),
            None => (false, false),
        };
        let policy = ToolPolicy {
            source_label: ContentLabel {
                integrity: if closed_world {
                    Integrity::Trusted
                } else {
                    Integrity::Untrusted
                },
                confidentiality: Confidentiality::Public,
                metadata: Vec::new(),
            },
            accepts_untrusted: read_only,
            max_allowed_confidentiality: if read_only {
                None
            } else {
                Some(Confidentiality::Public)
            },
            trust_result_labels: false,
        };
        assert(policy@.source_label =~= PolicyView::of_tool(tool@).source_label);
        policy
    }

    /// Whether a call under `label` breaks the policy by its integrity.
    pub fn integrity_violation(&self, label: &ContentLabel) -> (violation: bool)
        ensures
            violation == self@.integrity_violation(label@),
    {
        label.integrity == Integrity::Untrusted && !self.accepts_untrusted
    }

    /// Whether a call under `label` breaks the policy by its confidentiality.
    pub fn confidentiality_violation(&self, label: &ContentLabel) -> (violation: bool)
        ensures
            violation == self@.confidentiality_violation(label@),
    {
        match self.max_allowed_confidentiality {
            Some(maximum) => label.confidentiality.exceeds(maximum),
            None => false,
        }
    }
}

/// How the middleware is set up.
#[derive(Clone, Debug)]
pub struct SecureAgentConfig {
    /// The label of a session before anything happened in it.
    pub initial_label: ContentLabel,
    /// Whether untrusted results are hidden from a trusted context.
    pub auto_hide_untrusted: bool,
    /// Whether a call that breaks its policy is blocked, and not only noted.
    pub block_on_violation: bool,
    /// The policies of tools by name, in place of what their hints give.
    pub tools: Table<String, ToolPolicy>,
}

#[verifier::ext_equal]
pub struct ConfigView {
    pub initial_label: ContentLabelView,
    pub auto_hide_untrusted: bool,
    pub block_on_violation: bool,
    pub tools: Map<Seq<char>, PolicyView>,
}

impl View for SecureAgentConfig {
    type V = ConfigView;

    open spec fn view(&self) -> ConfigView {
        ConfigView {
            initial_label: self.initial_label@,
            auto_hide_untrusted: self.auto_hide_untrusted,
            block_on_violation: self.block_on_violation,
            tools: self.tools@,
        }
    }
}

impl ConfigView {
    /// The policy of a tool: the one configured under its name, else the one of its hints.
    pub open spec fn policy(self, tool: ToolView) -> PolicyView {
        if self.tools.contains_key(tool.name) {
            self.tools[tool.name]
        } else {
            PolicyView::of_tool(tool)
        }
    }
}

impl SecureAgentConfig {
    /// No tool is listed twice.
    pub open spec fn wf(&self) -> bool {
        self.tools.wf()
    }

    /// The policy of a tool.
    pub fn policy(&self, tool: &Tool) -> (policy: ToolPolicy)
        requires
            self.wf(),
        ensures
            policy@ == self@.policy(tool@),
    {
        match self.tools.get(&tool.name) {
            Some(policy) => policy.clone(),
            None => ToolPolicy::from_tool(tool),
        }
    }
}

impl Default for SecureAgentConfig {
    fn default() -> (config: Self)
        ensures
            config.wf(),
            config@ == (ConfigView {
                initial_label: ContentLabelView::lowest(),
                auto_hide_untrusted: true,
                block_on_violation: false,
                tools: Map::empty(),
            }),
    {
        SecureAgentConfig {
            initial_label: ContentLabel::default(),
            auto_hide_untrusted: true,
            block_on_violation: false,
            tools: Table::new(),
        }
    }
}

} // verus!
