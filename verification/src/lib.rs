//! Execution policy for shell commands and tool calls: layered allow/deny
//! prefix rules, typed ask rules and approval modes decide whether a
//! command runs, needs approval, or is forbidden.
use vstd::prelude::*;

pub mod bash_arity;
pub mod decision;
pub mod engine;
pub mod laws;
pub mod layers;
pub mod normalize;
pub mod protocol;
pub mod rules;
pub mod shim;
pub mod text;

pub use decision::{ExecApprovalRequirement, ExecPolicyAmendment, ExecPolicyDecision};
pub use engine::{ExecPolicyContext, ExecPolicyEngine};
pub use protocol::{NetworkPolicyAmendment, NetworkPolicyRuleAction};
pub use rules::{AskForApproval, Ruleset, RulesetLayer, ToolAskRule};

verus! {

} // verus!
