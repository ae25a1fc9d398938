use execpolicy::bash_arity::BashArityDict;
use execpolicy::shim::legacy_exit_code;
use execpolicy::{
    AskForApproval, ExecApprovalRequirement, ExecPolicyContext, ExecPolicyEngine, Ruleset,
    RulesetLayer, ToolAskRule,
};

fn shell(command: &str, ask_for_approval: AskForApproval) -> ExecPolicyContext<'_> {
    ExecPolicyContext {
        command,
        cwd: "/home/dev",
        tool: None,
        path: None,
        ask_for_approval,
        sandbox_mode: None,
    }
}

fn file_ctx<'a>(tool: &'a str, path: Option<&'a str>) -> ExecPolicyContext<'a> {
    ExecPolicyContext {
        command: "",
        cwd: "/home/dev",
        tool: Some(tool),
        path,
        ask_for_approval: AskForApproval::Never,
        sandbox_mode: None,
    }
}

fn all_modes() -> Vec<AskForApproval> {
    vec![
        AskForApproval::UnlessTrusted,
        AskForApproval::OnFailure,
        AskForApproval::OnRequest,
        AskForApproval::Reject { sandbox_approval: true, rules: true, mcp_elicitations: true },
        AskForApproval::Reject { sandbox_approval: false, rules: false, mcp_elicitations: false },
        AskForApproval::Never,
    ]
}

#[test]
fn allow_rule_matches_whole_leading_words() {
    let dict = BashArityDict::new();
    assert!(dict.allow_rule_matches("git status", "git status -s"));
    assert!(dict.allow_rule_matches("git status", "git status"));
    assert!(!dict.allow_rule_matches("git status", "git push origin main"));
    assert!(!dict.allow_rule_matches("git status", "git statusx"));
    assert!(!dict.allow_rule_matches("git status -s", "git status"));
    assert!(dict.allow_rule_matches("  git   status ", "\tgit status  --short"));
    assert!(!dict.allow_rule_matches("Git status", "git status"));
}

#[test]
fn allow_rule_without_words_matches_nothing() {
    let dict = BashArityDict::new();
    assert!(!dict.allow_rule_matches("", "ls"));
    assert!(!dict.allow_rule_matches("   ", "ls -la"));
    assert!(!dict.allow_rule_matches("", ""));
}

#[test]
fn deny_prefix_is_compared_trimmed_and_lowercased() {
    let engine = ExecPolicyEngine::new(vec![], vec![" GIT Push ".to_string()]);
    let d = engine.check(shell("  git push origin main", AskForApproval::OnFailure));
    assert!(!d.allow);
    assert_eq!(d.matched_rule.as_deref(), Some(" GIT Push "));
    assert_eq!(d.reason(), "Command blocked by denied prefix rule ' GIT Push '");
}

#[test]
fn deny_prefix_matches_inside_a_word() {
    let engine = ExecPolicyEngine::new(vec!["rmdir".to_string()], vec!["rm".to_string()]);
    let d = engine.check(shell("rmdir build", AskForApproval::UnlessTrusted));
    assert!(!d.allow);
    assert_eq!(d.requirement.phase(), "forbidden");
}

#[test]
fn deny_prefix_folds_only_ascii_case() {
    let engine = ExecPolicyEngine::new(vec![], vec!["É".to_string()]);
    let d = engine.check(shell("é", AskForApproval::OnFailure));
    assert!(d.allow);
    let d2 = engine.check(shell("É", AskForApproval::OnFailure));
    assert!(!d2.allow);
}

#[test]
fn unicode_whitespace_is_trimmed_before_deny_matching() {
    let engine = ExecPolicyEngine::new(vec![], vec!["git".to_string()]);
    let d = engine.check(shell("\u{3000}GIT push", AskForApproval::OnFailure));
    assert!(!d.allow);
}

#[test]
fn deny_always_wins_in_every_mode() {
    let engine = ExecPolicyEngine::with_rulesets(vec![
        Ruleset::user(vec!["cargo".to_string()], vec![]),
        Ruleset::builtin_default(),
        Ruleset::agent(vec![], vec!["cargo publish".to_string()]),
    ]);
    for mode in all_modes() {
        let d = engine.check(shell("cargo publish --dry-run", mode));
        assert!(!d.allow);
        assert!(!d.requires_approval);
        assert_eq!(d.matched_rule.as_deref(), Some("cargo publish"));
    }
}

#[test]
fn proposal_uses_first_word_after_leading_whitespace() {
    let engine = ExecPolicyEngine::new(vec![], vec![]);
    let d = engine.check(shell("   npm\tinstall left-pad", AskForApproval::OnRequest));
    match d.requirement {
        ExecApprovalRequirement::NeedsApproval {
            reason,
            proposed_execpolicy_amendment: Some(amendment),
            proposed_network_policy_amendments,
        } => {
            assert_eq!(reason, "Unmatched command prefix requires approval.");
            assert_eq!(amendment.prefixes, vec!["npm"]);
            assert_eq!(proposed_network_policy_amendments.len(), 1);
            assert_eq!(proposed_network_policy_amendments[0].host, "/home/dev");
        }
        other => panic!("unexpected requirement {other:?}"),
    }
}

#[test]
fn empty_command_proposes_empty_prefix() {
    let engine = ExecPolicyEngine::new(vec![], vec![]);
    let d = engine.check(shell("", AskForApproval::UnlessTrusted));
    assert!(d.requires_approval);
    match d.requirement {
        ExecApprovalRequirement::NeedsApproval {
            proposed_execpolicy_amendment: Some(amendment),
            ..
        } => assert_eq!(amendment.prefixes, vec![""]),
        other => panic!("unexpected requirement {other:?}"),
    }
}

#[test]
fn on_failure_runs_without_approval() {
    let engine = ExecPolicyEngine::new(vec![], vec![]);
    let d = engine.check(shell("make", AskForApproval::OnFailure));
    assert!(d.allow);
    assert!(!d.requires_approval);
    assert_eq!(d.requirement.phase(), "allowed");
    assert_eq!(d.reason(), "Execution allowed by policy.");
}

#[test]
fn trusted_command_in_request_mode_gives_policy_mode_reason() {
    let engine = ExecPolicyEngine::new(vec!["make".to_string()], vec![]);
    let d = engine.check(shell("make all", AskForApproval::OnRequest));
    assert!(d.requires_approval);
    assert_eq!(d.requirement.phase(), "needs_approval");
    assert_eq!(d.reason(), "Approval requested by policy mode.");
}

#[test]
fn reject_without_rules_flag_asks_for_approval() {
    let engine = ExecPolicyEngine::new(vec![], vec![]);
    let d = engine.check(shell(
        "make",
        AskForApproval::Reject { sandbox_approval: true, rules: false, mcp_elicitations: true },
    ));
    assert!(d.allow);
    assert!(d.requires_approval);
}

#[test]
fn never_mode_without_ask_rule_reports_trusted_rule() {
    let engine = ExecPolicyEngine::new(vec!["ls".to_string()], vec![]);
    let d = engine.check(shell("ls -la", AskForApproval::Never));
    assert!(d.allow);
    assert!(!d.requires_approval);
    assert_eq!(d.matched_rule.as_deref(), Some("ls"));
    let d2 = engine.check(shell("whoami", AskForApproval::Never));
    assert!(d2.allow);
    assert_eq!(d2.matched_rule, None);
}

#[test]
fn highest_priority_layer_wins_on_conflict() {
    let builtin = Ruleset {
        layer: RulesetLayer::BuiltinDefault,
        trusted_prefixes: vec!["git status".to_string()],
        denied_prefixes: vec![],
        ask_rules: vec![],
    };
    let engine = ExecPolicyEngine::with_rulesets(vec![
        Ruleset::user(vec!["git".to_string()], vec![]),
        Ruleset::agent(vec!["git status -s".to_string()], vec![]),
        builtin,
    ]);
    let d = engine.check(shell("git status -s", AskForApproval::UnlessTrusted));
    assert_eq!(d.matched_rule.as_deref(), Some("git"));
    let d2 = engine.check(shell("git log", AskForApproval::UnlessTrusted));
    assert_eq!(d2.matched_rule.as_deref(), Some("git"));
}

#[test]
fn user_layer_beats_agent_layer_for_allow_rules() {
    let engine = ExecPolicyEngine::with_rulesets(vec![
        Ruleset::agent(vec!["a".to_string()], vec![]),
        Ruleset::user(vec!["a b".to_string()], vec![]),
    ]);
    let d = engine.check(shell("a b", AskForApproval::UnlessTrusted));
    assert_eq!(d.matched_rule.as_deref(), Some("a b"));
    let d2 = engine.check(shell("a c", AskForApproval::UnlessTrusted));
    assert_eq!(d2.matched_rule.as_deref(), Some("a"));
}

#[test]
fn longest_allow_rule_within_a_layer_wins() {
    let engine = ExecPolicyEngine::with_rulesets(vec![Ruleset::user(
        vec!["git".to_string(), "git status".to_string(), "git".to_string()],
        vec![],
    )]);
    let d = engine.check(shell("git status --short", AskForApproval::UnlessTrusted));
    assert_eq!(d.matched_rule.as_deref(), Some("git status"));
}

#[test]
fn first_of_equally_long_allow_rules_wins() {
    let engine = ExecPolicyEngine::new(vec!["ls a".to_string(), "ls\ta".to_string()], vec![]);
    let d = engine.check(shell("ls a b", AskForApproval::UnlessTrusted));
    assert_eq!(d.matched_rule.as_deref(), Some("ls a"));
}

#[test]
fn reported_deny_rule_is_the_highest_layer_longest() {
    let builtin = Ruleset {
        layer: RulesetLayer::BuiltinDefault,
        trusted_prefixes: vec![],
        denied_prefixes: vec!["rm -rf /".to_string()],
        ask_rules: vec![],
    };
    let engine = ExecPolicyEngine::with_rulesets(vec![
        builtin,
        Ruleset::user(vec![], vec!["rm".to_string(), "rm -rf".to_string()]),
    ]);
    let d = engine.check(shell("rm -rf /", AskForApproval::OnFailure));
    assert!(!d.allow);
    assert_eq!(d.matched_rule.as_deref(), Some("rm -rf"));
    assert_eq!(d.reason(), "Command blocked by denied prefix rule 'rm -rf'");
    let tie = ExecPolicyEngine::new(vec![], vec!["rm ".to_string(), " rm".to_string()]);
    let d2 = tie.check(shell("rm x", AskForApproval::OnFailure));
    assert_eq!(d2.matched_rule.as_deref(), Some("rm "));
}

#[test]
fn added_ruleset_takes_its_layer_place() {
    let mut engine =
        ExecPolicyEngine::with_rulesets(vec![Ruleset::user(vec!["git".to_string()], vec![])]);
    engine.add_ruleset(Ruleset::agent(vec!["git log".to_string()], vec![]));
    let d = engine.check(shell("git log -1", AskForApproval::UnlessTrusted));
    assert_eq!(d.matched_rule.as_deref(), Some("git"));
    engine.add_ruleset(Ruleset::user(vec!["git log".to_string()], vec![]));
    let d2 = engine.check(shell("git log -1", AskForApproval::UnlessTrusted));
    assert_eq!(d2.matched_rule.as_deref(), Some("git log"));
}

#[test]
fn legacy_lists_count_as_user_layer() {
    let mut engine = ExecPolicyEngine::new(vec!["cargo".to_string()], vec![]);
    engine.add_ruleset(Ruleset::user(vec!["cargo build".to_string()], vec![]));
    let d = engine.check(shell("cargo build --release", AskForApproval::UnlessTrusted));
    assert_eq!(d.matched_rule.as_deref(), Some("cargo build"));
    let d2 = engine.check(shell("cargo fmt", AskForApproval::UnlessTrusted));
    assert_eq!(d2.matched_rule.as_deref(), Some("cargo"));
}

#[test]
fn most_specific_ask_rule_wins() {
    let engine = ExecPolicyEngine::with_rulesets(vec![Ruleset::agent(vec![], vec![])
        .with_ask_rules(vec![
            ToolAskRule::exec_shell("cargo test"),
            ToolAskRule::exec_shell("cargo"),
            ToolAskRule::new("exec_shell"),
        ])]);
    let d = engine.check(shell("cargo test --all", AskForApproval::Never));
    assert_eq!(d.matched_rule.as_deref(), Some("tool=exec_shell command=cargo test"));
    let d2 = engine.check(shell("cargo fmt", AskForApproval::Never));
    assert_eq!(d2.matched_rule.as_deref(), Some("tool=exec_shell command=cargo"));
    let d3 = engine.check(shell("ls", AskForApproval::Never));
    assert_eq!(d3.matched_rule.as_deref(), Some("tool=exec_shell"));
    assert!(!d3.allow);
}

#[test]
fn last_of_equally_specific_ask_rules_wins() {
    let engine = ExecPolicyEngine::with_rulesets(vec![Ruleset::user(vec![], vec![])
        .with_ask_rules(vec![
            ToolAskRule::file_path("edit_file", "A"),
            ToolAskRule::file_path("edit_file", "a"),
        ])]);
    let d = engine.check(file_ctx("edit_file", Some("/a/")));
    assert_eq!(d.matched_rule.as_deref(), Some("tool=edit_file path=a"));
}

#[test]
fn ask_rule_path_needs_a_path_and_normalizes_backslashes() {
    let engine = ExecPolicyEngine::with_rulesets(vec![Ruleset::user(vec![], vec![])
        .with_ask_rules(vec![ToolAskRule::file_path("edit_file", "C:\\Work\\")])]);
    let without_path = engine.check(file_ctx("edit_file", None));
    assert!(without_path.allow);
    let other_tool = engine.check(file_ctx("read_file", Some("c:/work")));
    assert!(other_tool.allow);
    let matching = engine.check(file_ctx("edit_file", Some("c:/work")));
    assert!(!matching.allow);
    assert_eq!(matching.matched_rule.as_deref(), Some("tool=edit_file path=C:\\Work\\"));
}

#[test]
fn ask_rules_change_nothing_outside_never_mode() {
    let with_asks = ExecPolicyEngine::with_rulesets(vec![Ruleset::user(
        vec!["ls".to_string()],
        vec!["rm".to_string()],
    )
    .with_ask_rules(vec![ToolAskRule::exec_shell("ls"), ToolAskRule::new("exec_shell")])]);
    let without = ExecPolicyEngine::with_rulesets(vec![Ruleset::user(
        vec!["ls".to_string()],
        vec!["rm".to_string()],
    )]);
    for mode in all_modes() {
        if mode == AskForApproval::Never {
            continue;
        }
        for command in ["ls -l", "rm -rf x", "cat file"] {
            let a = with_asks.check(shell(command, mode.clone()));
            let b = without.check(shell(command, mode.clone()));
            assert_eq!(a, b);
        }
    }
}

#[test]
fn proposed_amendment_lets_the_command_run_once_trusted() {
    let engine = ExecPolicyEngine::new(vec![], vec![]);
    let d = engine.check(shell("docker ps -a", AskForApproval::UnlessTrusted));
    let prefixes = match d.requirement {
        ExecApprovalRequirement::NeedsApproval {
            proposed_execpolicy_amendment: Some(amendment),
            ..
        } => amendment.prefixes,
        other => panic!("unexpected requirement {other:?}"),
    };
    let amended = ExecPolicyEngine::new(prefixes, vec![]);
    let d2 = amended.check(shell("docker ps -a", AskForApproval::UnlessTrusted));
    assert!(d2.allow);
    assert!(!d2.requires_approval);
    assert_eq!(d2.matched_rule.as_deref(), Some("docker"));
}

#[test]
fn session_approvals_are_remembered() {
    let mut engine = ExecPolicyEngine::default();
    assert!(!engine.is_session_approved("exec:ls"));
    engine.remember_session_approval("exec:ls".to_string());
    engine.remember_session_approval("exec:ls".to_string());
    assert!(engine.is_session_approved("exec:ls"));
    assert!(!engine.is_session_approved("exec:rm"));
    engine.remember_session_approval("exec:rm".to_string());
    assert!(engine.is_session_approved("exec:rm"));
    assert!(engine.is_session_approved("exec:ls"));
}

#[test]
fn ask_rule_labels_list_present_parts() {
    assert_eq!(ToolAskRule::new("grep").label(), "tool=grep");
    assert_eq!(
        ToolAskRule::file_path("edit_file", "/tmp/x").label(),
        "tool=edit_file path=/tmp/x"
    );
    assert_eq!(ToolAskRule::exec_shell("ls -l").label(), "tool=exec_shell command=ls -l");
    let both = ToolAskRule {
        tool: "t".to_string(),
        command: Some("c".to_string()),
        path: Some("p".to_string()),
    };
    assert_eq!(both.label(), "tool=t command=c path=p");
}

#[test]
fn ruleset_constructors_set_layers() {
    let r = Ruleset::builtin_default();
    assert_eq!(r.layer, RulesetLayer::BuiltinDefault);
    assert!(r.trusted_prefixes.is_empty() && r.denied_prefixes.is_empty() && r.ask_rules.is_empty());
    let a = Ruleset::agent(vec!["a".to_string()], vec!["b".to_string()]);
    assert_eq!(a.layer, RulesetLayer::Agent);
    assert_eq!(a.trusted_prefixes, vec!["a"]);
    assert_eq!(a.denied_prefixes, vec!["b"]);
    let u = Ruleset::user(vec![], vec![]).with_ask_rules(vec![ToolAskRule::new("x")]);
    assert_eq!(u.layer, RulesetLayer::User);
    assert_eq!(u.ask_rules, vec![ToolAskRule::new("x")]);
    assert!(RulesetLayer::BuiltinDefault < RulesetLayer::Agent);
    assert!(RulesetLayer::Agent < RulesetLayer::User);
}

#[test]
fn legacy_alias_exit_codes() {
    assert_eq!(legacy_exit_code(false, None), 127);
    assert_eq!(legacy_exit_code(false, Some(3)), 127);
    assert_eq!(legacy_exit_code(true, Some(0)), 0);
    assert_eq!(legacy_exit_code(true, Some(42)), 42);
    assert_eq!(legacy_exit_code(true, None), 1);
}
