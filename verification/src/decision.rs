//! The outcome of a policy check: what is required before a command runs.
use vstd::prelude::*;

use crate::protocol::{NetworkAmendmentView, NetworkPolicyAmendment};
use crate::rules::{opt_text_view, texts_view};

verus! {

/// A proposal to add allow prefixes to the policy.
#[derive(Debug, Clone, PartialEq, Eq)]
pub struct ExecPolicyAmendment {
    pub prefixes: Vec<String>,
}

/// The proposed prefixes of an optional amendment.
pub open spec fn amendment_view(a: Option<ExecPolicyAmendment>) -> Option<Seq<Seq<char>>> {
    match a {
        Some(x) => Some(texts_view(x.prefixes@)),
        None => None,
    }
}

/// What a command needs before it may run.
#[derive(Debug, Clone, PartialEq, Eq)]
pub enum ExecApprovalRequirement {
    Skip { bypass_sandbox: bool, proposed_execpolicy_amendment: Option<ExecPolicyAmendment> },
    NeedsApproval {
        reason: String,
        proposed_execpolicy_amendment: Option<ExecPolicyAmendment>,
        proposed_network_policy_amendments: Vec<NetworkPolicyAmendment>,
    },
    Forbidden { reason: String },
}

/// The model of an [`ExecApprovalRequirement`].
pub enum RequirementView {
    Skip { bypass_sandbox: bool, amendment: Option<Seq<Seq<char>>> },
    NeedsApproval {
        reason: Seq<char>,
        amendment: Option<Seq<Seq<char>>>,
        network: Seq<NetworkAmendmentView>,
    },
    Forbidden { reason: Seq<char> },
}

impl View for ExecApprovalRequirement {
    type V = RequirementView;

    open spec fn view(&self) -> RequirementView {
        match self {
            ExecApprovalRequirement::Skip { bypass_sandbox, proposed_execpolicy_amendment } =>
                RequirementView::Skip {
                bypass_sandbox: *bypass_sandbox,
                amendment: amendment_view(*proposed_execpolicy_amendment),
            },
            ExecApprovalRequirement::NeedsApproval {
                reason,
                proposed_execpolicy_amendment,
                proposed_network_policy_amendments,
            } => RequirementView::NeedsApproval {
                reason: reason@,
                amendment: amendment_view(*proposed_execpolicy_amendment),
                network: proposed_network_policy_amendments@.map_values(
                    |a: NetworkPolicyAmendment| a@,
                ),
            },
            ExecApprovalRequirement::Forbidden { reason } => RequirementView::Forbidden {
                reason: reason@,
            },
        }
    }
}

/// The reason that a requirement gives.
pub open spec fn reason_of(r: RequirementView) -> Seq<char> {
    match r {
        RequirementView::Skip { .. } => "Execution allowed by policy."@,
        RequirementView::NeedsApproval { reason, .. } => reason,
        RequirementView::Forbidden { reason } => reason,
    }
}

/// The name of the phase that a requirement puts a command in.
pub open spec fn phase_of(r: RequirementView) -> Seq<char> {
    match r {
        RequirementView::Skip { .. } => "allowed"@,
        RequirementView::NeedsApproval { .. } => "needs_approval"@,
        RequirementView::Forbidden { .. } => "forbidden"@,
    }
}

impl ExecApprovalRequirement {
    /// The reason that this requirement gives (see [`reason_of`]).
    pub fn reason(&self) -> (r: &str)
        ensures
            r@ == reason_of(self@),
    {
        match self {
            ExecApprovalRequirement::Skip { .. } => "Execution allowed by policy.",
            ExecApprovalRequirement::NeedsApproval { reason, .. } => reason.as_str(),
            ExecApprovalRequirement::Forbidden { reason } => reason.as_str(),
        }
    }

    /// `allowed`, `needs_approval` or `forbidden` (see [`phase_of`]).
    pub fn phase(&self) -> (r: &'static str)
        ensures
            r@ == phase_of(self@),
    {
        match self {
            ExecApprovalRequirement::Skip { .. } => "allowed",
            ExecApprovalRequirement::NeedsApproval { .. } => "needs_approval",
            ExecApprovalRequirement::Forbidden { .. } => "forbidden",
        }
    }
}

/// The decision of a policy check.
#[derive(Debug, Clone, PartialEq, Eq)]
pub struct ExecPolicyDecision {
    pub allow: bool,
    pub requires_approval: bool,
    pub requirement: ExecApprovalRequirement,
    pub matched_rule: Option<String>,
}

/// The model of an [`ExecPolicyDecision`].
pub struct DecisionView {
    pub allow: bool,
    pub requires_approval: bool,
    pub requirement: RequirementView,
    pub matched_rule: Option<Seq<char>>,
}

impl View for ExecPolicyDecision {
    type V = DecisionView;

    open spec fn view(&self) -> DecisionView {
        DecisionView {
            allow: self.allow,
            requires_approval: self.requires_approval,
            requirement: self.requirement@,
            matched_rule: opt_text_view(self.matched_rule),
        }
    }
}

impl ExecPolicyDecision {
    /// The reason that the decision's requirement gives.
    pub fn reason(&self) -> (r: &str)
        ensures
            r@ == reason_of(self@.requirement),
    {
        self.requirement.reason()
    }
}

} // verus!
