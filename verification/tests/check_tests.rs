use execpolicy::{
    AskForApproval, ExecApprovalRequirement, ExecPolicyContext, ExecPolicyEngine,
    NetworkPolicyAmendment, NetworkPolicyRuleAction, Ruleset, ToolAskRule,
};

fn ctx(command: &str, ask_for_approval: AskForApproval) -> ExecPolicyContext<'_> {
    ExecPolicyContext {
        command,
        cwd: "/workspace",
        tool: Some("exec_shell"),
        path: None,
        ask_for_approval,
        sandbox_mode: Some("workspace-write"),
    }
}

#[test]
fn trusted_prefix_skips_approval_when_policy_is_unless_trusted() {
    let engine = ExecPolicyEngine::new(vec!["git status".to_string()], vec![]);

    let decision = engine.check(ctx("git status --porcelain", AskForApproval::UnlessTrusted));

    assert!(decision.allow);
    assert!(!decision.requires_approval);
    assert_eq!(decision.matched_rule.as_deref(), Some("git status"));
    assert!(matches!(
        decision.requirement,
        ExecApprovalRequirement::Skip {
            bypass_sandbox: false,
            proposed_execpolicy_amendment: None,
        }
    ));
}

#[test]
fn denied_prefix_blocks_even_when_command_is_also_trusted() {
    let engine = ExecPolicyEngine::new(
        vec!["git status".to_string()],
        vec!["git status".to_string()],
    );

    let decision = engine.check(ctx("git status --porcelain", AskForApproval::UnlessTrusted));

    assert!(!decision.allow);
    assert!(!decision.requires_approval);
    assert_eq!(decision.matched_rule.as_deref(), Some("git status"));
    assert!(matches!(
        decision.requirement,
        ExecApprovalRequirement::Forbidden { .. }
    ));
    assert_eq!(
        decision.reason(),
        "Command blocked by denied prefix rule 'git status'"
    );
}

#[test]
fn unmatched_command_requires_approval_and_proposes_first_token_rule() {
    let engine = ExecPolicyEngine::new(vec![], vec![]);

    let decision = engine.check(ctx("cargo test --workspace", AskForApproval::UnlessTrusted));

    assert!(decision.allow);
    assert!(decision.requires_approval);
    assert_eq!(decision.matched_rule, None);
    match decision.requirement {
        ExecApprovalRequirement::NeedsApproval {
            proposed_execpolicy_amendment: Some(amendment),
            proposed_network_policy_amendments,
            ..
        } => {
            assert_eq!(amendment.prefixes, vec!["cargo"]);
            assert_eq!(
                proposed_network_policy_amendments,
                vec![NetworkPolicyAmendment {
                    host: "/workspace".to_string(),
                    action: NetworkPolicyRuleAction::Allow,
                }]
            );
        }
        other => panic!("expected approval with proposed amendment, got {other:?}"),
    }
}

#[test]
fn trusted_command_in_on_request_mode_still_requires_approval_without_new_rule() {
    let engine = ExecPolicyEngine::new(vec!["cargo test".to_string()], vec![]);

    let decision = engine.check(ctx("cargo test --workspace", AskForApproval::OnRequest));

    assert!(decision.allow);
    assert!(decision.requires_approval);
    assert_eq!(decision.matched_rule.as_deref(), Some("cargo test"));
    match decision.requirement {
        ExecApprovalRequirement::NeedsApproval {
            proposed_execpolicy_amendment,
            ..
        } => assert_eq!(proposed_execpolicy_amendment, None),
        other => panic!("expected approval without amendment, got {other:?}"),
    }
}

#[test]
fn reject_rules_mode_forbids_unmatched_command() {
    let engine = ExecPolicyEngine::new(vec![], vec![]);

    let decision = engine.check(ctx(
        "npm install",
        AskForApproval::Reject {
            sandbox_approval: false,
            rules: true,
            mcp_elicitations: false,
        },
    ));

    assert!(!decision.allow);
    assert!(!decision.requires_approval);
    assert_eq!(decision.matched_rule, None);
    assert_eq!(decision.requirement.phase(), "forbidden");
    assert_eq!(
        decision.reason(),
        "Policy is configured to reject rule-exceptions."
    );
}

#[test]
fn typed_ask_rule_forbids_matching_command_when_policy_is_never() {
    let engine = ExecPolicyEngine::with_rulesets(vec![
        Ruleset::user(vec![], vec![]).with_ask_rules(vec![ToolAskRule::exec_shell("cargo test")]),
    ]);

    let decision = engine.check(ctx("cargo test --workspace", AskForApproval::Never));

    assert!(!decision.allow);
    assert!(!decision.requires_approval);
    assert_eq!(
        decision.matched_rule.as_deref(),
        Some("tool=exec_shell command=cargo test")
    );
    assert_eq!(decision.requirement.phase(), "forbidden");
    assert_eq!(
        decision.reason(),
        "Typed ask rule 'tool=exec_shell command=cargo test' requires approval, but approval policy is never."
    );
}

#[test]
fn typed_ask_rule_is_ignored_outside_never_mode_for_now() {
    let engine = ExecPolicyEngine::with_rulesets(vec![
        Ruleset::user(vec![], vec![]).with_ask_rules(vec![ToolAskRule::exec_shell("cargo test")]),
    ]);

    let decision = engine.check(ctx("cargo test --workspace", AskForApproval::UnlessTrusted));

    assert!(decision.allow);
    assert!(decision.requires_approval);
    assert_eq!(decision.matched_rule, None);
    match decision.requirement {
        ExecApprovalRequirement::NeedsApproval {
            proposed_execpolicy_amendment: Some(amendment),
            ..
        } => assert_eq!(amendment.prefixes, vec!["cargo"]),
        other => panic!("expected unchanged approval behavior, got {other:?}"),
    }
}

#[test]
fn typed_ask_rule_does_not_change_allow_deny_precedence() {
    let engine = ExecPolicyEngine::with_rulesets(vec![Ruleset::user(
        vec!["cargo test".to_string()],
        vec!["cargo test --danger".to_string()],
    )
    .with_ask_rules(vec![ToolAskRule::exec_shell("cargo test")])]);

    let trusted = engine.check(ctx("cargo test --workspace", AskForApproval::UnlessTrusted));
    assert!(trusted.allow);
    assert!(!trusted.requires_approval);
    assert_eq!(trusted.matched_rule.as_deref(), Some("cargo test"));

    let denied = engine.check(ctx("cargo test --danger", AskForApproval::Never));
    assert!(!denied.allow);
    assert!(!denied.requires_approval);
    assert_eq!(denied.matched_rule.as_deref(), Some("cargo test --danger"));
    assert_eq!(
        denied.reason(),
        "Command blocked by denied prefix rule 'cargo test --danger'"
    );
}

#[test]
fn typed_ask_rule_label_wins_when_never_blocks_trusted_command() {
    let engine = ExecPolicyEngine::with_rulesets(vec![Ruleset::user(
        vec!["cargo test".to_string()],
        vec![],
    )
    .with_ask_rules(vec![ToolAskRule::exec_shell("cargo test")])]);

    let decision = engine.check(ctx("cargo test --workspace", AskForApproval::Never));

    assert!(!decision.allow);
    assert_eq!(
        decision.matched_rule.as_deref(),
        Some("tool=exec_shell command=cargo test")
    );
    assert_eq!(
        decision.reason(),
        "Typed ask rule 'tool=exec_shell command=cargo test' requires approval, but approval policy is never."
    );
}

#[test]
fn typed_ask_path_matching_trims_spaces_before_boundary_slashes() {
    let engine = ExecPolicyEngine::with_rulesets(vec![Ruleset::user(vec![], vec![])
        .with_ask_rules(vec![ToolAskRule::file_path("edit_file", " /TMP/PROJECT/ ")])]);

    let decision = engine.check(ExecPolicyContext {
        command: "",
        cwd: "/workspace",
        tool: Some("edit_file"),
        path: Some("tmp/project"),
        ask_for_approval: AskForApproval::Never,
        sandbox_mode: Some("workspace-write"),
    });

    assert!(!decision.allow);
    assert_eq!(
        decision.matched_rule.as_deref(),
        Some("tool=edit_file path= /TMP/PROJECT/ ")
    );
}
