//! Rulesets, their priority layers, typed ask rules and approval modes.
use vstd::prelude::*;
use vstd::string::StringExecFns;

verus! {

/// Priority layer for a permission ruleset. Higher ordinal = higher priority.
/// On conflict, the highest-priority layer's longest matching prefix wins.
#[derive(Debug, Clone, Copy, PartialEq, Eq, Structural, PartialOrd, Ord, Hash)]
pub enum RulesetLayer {
    BuiltinDefault,
    Agent,
    User,
}

/// The views of a sequence of texts.
pub open spec fn texts_view(v: Seq<String>) -> Seq<Seq<char>> {
    v.map_values(|s: String| s@)
}

/// The view of an optional text.
pub open spec fn opt_text_view(o: Option<String>) -> Option<Seq<char>> {
    match o {
        Some(s) => Some(s@),
        None => None,
    }
}

/// Typed rule that marks a tool invocation as requiring approval.
///
/// Ask rules only take effect when the approval mode is
/// [`AskForApproval::Never`]: they make such invocations forbidden.
#[derive(Debug, Clone, PartialEq, Eq)]
pub struct ToolAskRule {
    pub tool: String,
    pub command: Option<String>,
    pub path: Option<String>,
}

/// The model of a [`ToolAskRule`].
pub struct AskRuleView {
    pub tool: Seq<char>,
    pub command: Option<Seq<char>>,
    pub path: Option<Seq<char>>,
}

impl View for ToolAskRule {
    type V = AskRuleView;

    open spec fn view(&self) -> AskRuleView {
        AskRuleView {
            tool: self.tool@,
            command: opt_text_view(self.command),
            path: opt_text_view(self.path),
        }
    }
}

/// The label of an ask rule: `tool=<tool>`, then ` command=<command>` and
/// ` path=<path>` for the parts that it has.
pub open spec fn label_of(r: AskRuleView) -> Seq<char> {
    "tool="@ + r.tool + match r.command {
        Some(c) => " command="@ + c,
        None => Seq::empty(),
    } + match r.path {
        Some(p) => " path="@ + p,
        None => Seq::empty(),
    }
}

impl ToolAskRule {
    /// A rule for any invocation of `tool`.
    pub fn new(tool: &str) -> (r: Self)
        ensures
            r@ == (AskRuleView { tool: tool@, command: None, path: None }),
    {
        ToolAskRule { tool: tool.to_owned(), command: None, path: None }
    }

    /// A rule for shell commands whose words begin with those of `command`.
    pub fn exec_shell(command: &str) -> (r: Self)
        ensures
            r@ == (AskRuleView { tool: "exec_shell"@, command: Some(command@), path: None }),
    {
        ToolAskRule { tool: "exec_shell".to_owned(), command: Some(command.to_owned()), path: None }
    }

    /// A rule for invocations of `tool` on `path`.
    pub fn file_path(tool: &str, path: &str) -> (r: Self)
        ensures
            r@ == (AskRuleView { tool: tool@, command: None, path: Some(path@) }),
    {
        ToolAskRule { tool: tool.to_owned(), command: None, path: Some(path.to_owned()) }
    }

    /// The rule's label (see [`label_of`]).
    pub fn label(&self) -> (r: String)
        ensures
            r@ == label_of(self@),
    {
        let mut s = "tool=".to_owned();
        s.append(self.tool.as_str());
        let ghost after_tool = s@;
        match &self.command {
            Some(c) => {
                s.append(" command=");
                s.append(c.as_str());
            },
            None => {},
        }
        let ghost after_command = s@;
        match &self.path {
            Some(p) => {
                s.append(" path=");
                s.append(p.as_str());
            },
            None => {},
        }
        proof {
            let c_part = match self@.command {
                Some(c) => " command="@ + c,
                None => Seq::<char>::empty(),
            };
            let p_part = match self@.path {
                Some(p) => " path="@ + p,
                None => Seq::<char>::empty(),
            };
            assert(after_command =~= "tool="@ + self.tool@ + c_part);
            assert(s@ =~= after_command + p_part);
        }
        s
    }
}

/// A named set of allow/deny prefix rules at a given priority layer.
#[derive(Debug, Clone)]
pub struct Ruleset {
    pub layer: RulesetLayer,
    pub trusted_prefixes: Vec<String>,
    pub denied_prefixes: Vec<String>,
    pub ask_rules: Vec<ToolAskRule>,
}

/// The model of a [`Ruleset`].
pub struct RulesetView {
    pub layer: RulesetLayer,
    pub trusted: Seq<Seq<char>>,
    pub denied: Seq<Seq<char>>,
    pub ask_rules: Seq<AskRuleView>,
}

impl View for Ruleset {
    type V = RulesetView;

    open spec fn view(&self) -> RulesetView {
        RulesetView {
            layer: self.layer,
            trusted: texts_view(self.trusted_prefixes@),
            denied: texts_view(self.denied_prefixes@),
            ask_rules: self.ask_rules@.map_values(|r: ToolAskRule| r@),
        }
    }
}

impl Ruleset {
    /// An empty ruleset at the built-in default layer.
    pub fn builtin_default() -> (r: Self)
        ensures
            r.layer == RulesetLayer::BuiltinDefault,
            r.trusted_prefixes@.len() == 0,
            r.denied_prefixes@.len() == 0,
            r.ask_rules@.len() == 0,
    {
        Ruleset {
            layer: RulesetLayer::BuiltinDefault,
            trusted_prefixes: Vec::new(),
            denied_prefixes: Vec::new(),
            ask_rules: Vec::new(),
        }
    }

    /// A ruleset at the agent layer with the given allow and deny prefixes.
    pub fn agent(trusted: Vec<String>, denied: Vec<String>) -> (r: Self)
        ensures
            r.layer == RulesetLayer::Agent,
            r.trusted_prefixes == trusted,
            r.denied_prefixes == denied,
            r.ask_rules@.len() == 0,
    {
        Ruleset {
            layer: RulesetLayer::Agent,
            trusted_prefixes: trusted,
            denied_prefixes: denied,
            ask_rules: Vec::new(),
        }
    }

    /// A ruleset at the user layer with the given allow and deny prefixes.
    pub fn user(trusted: Vec<String>, denied: Vec<String>) -> (r: Self)
        ensures
            r.layer == RulesetLayer::User,
            r.trusted_prefixes == trusted,
            r.denied_prefixes == denied,
            r.ask_rules@.len() == 0,
    {
        Ruleset {
            layer: RulesetLayer::User,
            trusted_prefixes: trusted,
            denied_prefixes: denied,
            ask_rules: Vec::new(),
        }
    }

    /// This ruleset with its ask rules replaced by `ask_rules`.
    pub fn with_ask_rules(self, ask_rules: Vec<ToolAskRule>) -> (r: Self)
        ensures
            r.layer == self.layer,
            r.trusted_prefixes == self.trusted_prefixes,
            r.denied_prefixes == self.denied_prefixes,
            r.ask_rules == ask_rules,
    {
        let mut s = self;
        s.ask_rules = ask_rules;
        s
    }
}

/// When the user is asked to approve an execution.
#[derive(Debug, Clone, PartialEq, Eq)]
pub enum AskForApproval {
    UnlessTrusted,
    OnFailure,
    OnRequest,
    Reject { sandbox_approval: bool, rules: bool, mcp_elicitations: bool },
    Never,
}

} // verus!
