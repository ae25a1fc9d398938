//! Network policy amendments that an approval request may propose.
use vstd::prelude::*;

verus! {

/// What a network policy rule does with the host it names.
#[derive(Debug, Clone, Copy, PartialEq, Eq, Structural)]
pub enum NetworkPolicyRuleAction {
    Allow,
    Deny,
}

/// A proposed network policy rule for one host.
#[derive(Debug, Clone, PartialEq, Eq)]
pub struct NetworkPolicyAmendment {
    pub host: String,
    pub action: NetworkPolicyRuleAction,
}

/// The model of a [`NetworkPolicyAmendment`].
pub struct NetworkAmendmentView {
    pub host: Seq<char>,
    pub action: NetworkPolicyRuleAction,
}

impl View for NetworkPolicyAmendment {
    type V = NetworkAmendmentView;

    open spec fn view(&self) -> NetworkAmendmentView {
        NetworkAmendmentView { host: self.host@, action: self.action }
    }
}

} // verus!
