//! Properties that hold of every engine, check and ruleset list.
use vstd::prelude::*;

use crate::bash_arity::rule_matches;
use crate::decision::RequirementView;
use crate::protocol::{NetworkAmendmentView, NetworkPolicyRuleAction};
use crate::engine::{
    all_denied, all_trusted, allow_hit, best_ask, best_match, decide, deny_hit, deny_reason,
    layered_asks, layered_denied, layered_trusted, outranks, rule_text, strictly_outranks, skip_requirement,
    ContextView, EngineView, Tagged, ask_specificity, byte_len, ask_matches,
};
use crate::layers::{bucket, by_layer, layer_rank, layer_sorted};
use crate::normalize::{normalized_command, normalized_path, unbackslash};
use crate::rules::{label_of, AskForApproval, AskRuleView, RulesetLayer, RulesetView};
use crate::text::{
    close_span, first_word, is_ws, lead_from, lemma_trail_from_bounds, lower, lower_char, spans_from,
    strip, trail_from, word_spans, words, Strip,
};

verus! {

proof fn lemma_bucket_layers(s: Seq<RulesetView>, l: RulesetLayer)
    ensures
        forall|i: int| 0 <= i < bucket(s, l).len() ==> (#[trigger] bucket(s, l)[i]).layer == l,
        bucket(s, l).len() <= s.len(),
    decreases s.len(),
{
    if s.len() > 0 {
        lemma_bucket_layers(s.drop_last(), l);
    }
}

proof fn lemma_bucket_concat(a: Seq<RulesetView>, b: Seq<RulesetView>, l: RulesetLayer)
    ensures
        bucket(a + b, l) == bucket(a, l) + bucket(b, l),
    decreases b.len(),
{
    if b.len() == 0 {
        assert(a + b =~= a);
        assert(bucket(a, l) + bucket(b, l) =~= bucket(a, l));
    } else {
        lemma_bucket_concat(a, b.drop_last(), l);
        assert((a + b).drop_last() =~= a + b.drop_last());
        assert((a + b).last() == b.last());
        if b.last().layer == l {
            assert(bucket(a, l) + bucket(b, l) =~= (bucket(a, l) + bucket(b.drop_last(), l)).push(
                b.last(),
            ));
        }
    }
}

proof fn lemma_bucket_uniform(s: Seq<RulesetView>, l: RulesetLayer, m: RulesetLayer)
    requires
        forall|i: int| 0 <= i < s.len() ==> (#[trigger] s[i]).layer == l,
    ensures
        bucket(s, m) == (if m == l { s } else { Seq::empty() }),
    decreases s.len(),
{
    if s.len() > 0 {
        lemma_bucket_uniform(s.drop_last(), l, m);
        assert(s.last().layer == l);
        if m == l {
            assert(s.drop_last().push(s.last()) =~= s);
        }
    }
}

/// Sorting by layer puts the rulesets in layer order.
pub proof fn law_by_layer_sorted(s: Seq<RulesetView>)
    ensures
        layer_sorted(by_layer(s)),
        by_layer(s).len() == s.len(),
{
    let b0 = bucket(s, RulesetLayer::BuiltinDefault);
    let b1 = bucket(s, RulesetLayer::Agent);
    let b2 = bucket(s, RulesetLayer::User);
    lemma_bucket_layers(s, RulesetLayer::BuiltinDefault);
    lemma_bucket_layers(s, RulesetLayer::Agent);
    lemma_bucket_layers(s, RulesetLayer::User);
    let r = by_layer(s);
    assert forall|i: int| 0 <= i < r.len() implies layer_rank(#[trigger] r[i].layer) == (if i
        < b0.len() {
        0int
    } else if i < b0.len() + b1.len() {
        1int
    } else {
        2int
    }) by {
        if i < b0.len() {
            assert(r[i] == b0[i]);
        } else if i < b0.len() + b1.len() {
            assert(r[i] == b1[i - b0.len()]);
        } else {
            assert(r[i] == b2[i - b0.len() - b1.len()]);
        }
    }
    lemma_by_layer_len(s);
}

proof fn lemma_by_layer_len(s: Seq<RulesetView>)
    ensures
        by_layer(s).len() == s.len(),
    decreases s.len(),
{
    if s.len() > 0 {
        lemma_by_layer_len(s.drop_last());
    }
}

/// Sorting by layer keeps, for each layer, exactly the rulesets of that
/// layer in the order they were given (the sort is stable and loses nothing).
pub proof fn law_by_layer_stable(s: Seq<RulesetView>, l: RulesetLayer)
    ensures
        bucket(by_layer(s), l) == bucket(s, l),
{
    let b0 = bucket(s, RulesetLayer::BuiltinDefault);
    let b1 = bucket(s, RulesetLayer::Agent);
    let b2 = bucket(s, RulesetLayer::User);
    lemma_bucket_layers(s, RulesetLayer::BuiltinDefault);
    lemma_bucket_layers(s, RulesetLayer::Agent);
    lemma_bucket_layers(s, RulesetLayer::User);
    lemma_bucket_concat(b0 + b1, b2, l);
    lemma_bucket_concat(b0, b1, l);
    lemma_bucket_uniform(b0, RulesetLayer::BuiltinDefault, l);
    lemma_bucket_uniform(b1, RulesetLayer::Agent, l);
    lemma_bucket_uniform(b2, RulesetLayer::User, l);
    match l {
        RulesetLayer::BuiltinDefault => {
            assert(b0 + Seq::<RulesetView>::empty() + Seq::<RulesetView>::empty() =~= b0);
        },
        RulesetLayer::Agent => {
            assert(Seq::<RulesetView>::empty() + b1 + Seq::<RulesetView>::empty() =~= b1);
        },
        RulesetLayer::User => {
            assert(Seq::<RulesetView>::empty() + Seq::<RulesetView>::empty() + b2 =~= b2);
        },
    }
}

/// Sorting rulesets that are already in layer order changes nothing.
pub proof fn law_by_layer_idempotent(s: Seq<RulesetView>)
    ensures
        by_layer(by_layer(s)) == by_layer(s),
{
    law_by_layer_stable(s, RulesetLayer::BuiltinDefault);
    law_by_layer_stable(s, RulesetLayer::Agent);
    law_by_layer_stable(s, RulesetLayer::User);
}


/// The rule that wins on conflict is one that `hit` selects, it is in the
/// list, it ranks at least as high as every rule of the list that `hit`
/// selects, and strictly higher than every such rule before it (so of
/// equally ranked rules the first wins); there is one exactly when `hit`
/// selects some rule of the list.
pub proof fn law_conflict_winner(list: Seq<Tagged>, hit: spec_fn(Tagged) -> bool)
    ensures
        (best_match(list, hit) is Some) == (exists|i: int| 0 <= i < list.len() && hit(#[trigger] list[i])),
        best_match(list, hit) matches Some(w) ==> {
            &&& hit(w)
            &&& list.contains(w)
            &&& forall|i: int| 0 <= i < list.len() && hit(#[trigger] list[i]) ==> outranks(w, list[i])
            &&& exists|k: int|
                0 <= k < list.len() && #[trigger] list[k] == w && forall|i: int|
                    0 <= i < k && hit(#[trigger] list[i]) ==> strictly_outranks(w, list[i])
        },
    decreases list.len(),
{
    if list.len() > 0 {
        let init = list.drop_last();
        let x = list.last();
        law_conflict_winner(init, hit);
        assert forall|i: int| 0 <= i < init.len() implies #[trigger] init[i] == list[i] by {}
        if let Some(p) = best_match(init, hit) {
            let k = choose|k: int| 0 <= k < init.len() && init[k] == p;
            assert(list[k] == p);
        }
        if exists|i: int| 0 <= i < list.len() && hit(#[trigger] list[i]) {
            let i = choose|i: int| 0 <= i < list.len() && hit(#[trigger] list[i]);
            if i < list.len() - 1 {
                assert(hit(init[i]));
            }
        }
        if exists|i: int| 0 <= i < init.len() && hit(#[trigger] init[i]) {
            let i = choose|i: int| 0 <= i < init.len() && hit(#[trigger] init[i]);
            assert(hit(list[i]));
        }
        assert(list[list.len() - 1] == x);
        if let Some(w) = best_match(list, hit) {
            assert forall|i: int| 0 <= i < list.len() && hit(#[trigger] list[i]) implies outranks(
                w,
                list[i],
            ) by {
                if i < list.len() - 1 {
                    assert(init[i] == list[i]);
                    assert(hit(init[i]));
                    if let Some(p) = best_match(init, hit) {
                        assert(outranks(p, init[i]));
                    }
                }
            }
            if best_match(init, hit) == Some(w) {
                let k = choose|k: int|
                    0 <= k < init.len() && #[trigger] init[k] == w && forall|i: int|
                        0 <= i < k && hit(#[trigger] init[i]) ==> strictly_outranks(w, init[i]);
                assert(list[k] == w);
                assert forall|i: int| 0 <= i < k && hit(#[trigger] list[i]) implies strictly_outranks(
                    w,
                    list[i],
                ) by {
                    assert(init[i] == list[i]);
                }
            } else {
                let k = list.len() - 1;
                assert(list[k] == w);
                assert forall|i: int| 0 <= i < k && hit(#[trigger] list[i]) implies strictly_outranks(
                    w,
                    list[i],
                ) by {
                    assert(init[i] == list[i]);
                    assert(hit(init[i]));
                    if let Some(p) = best_match(init, hit) {
                        assert(outranks(p, init[i]));
                    }
                }
            }
        }
    }
}

/// Deny always wins: when a deny prefix of any layer (or of the legacy
/// list) begins the command, both in normal form, the command is forbidden,
/// whatever the approval mode, the allow prefixes and the ask rules. The
/// deny prefix reported is the one that wins on conflict: of the blocking
/// prefixes of the highest-priority layer that has any, the longest.
pub proof fn law_deny_always_wins(e: EngineView, c: ContextView, d: Tagged)
    requires
        all_denied(e).contains(d),
        normalized_command(d.1).is_prefix_of(normalized_command(c.command)),
    ensures
        !decide(e, c).allow,
        !decide(e, c).requires_approval,
        decide(e, c).requirement is Forbidden,
        exists|w: Tagged|
            {
                &&& #[trigger] all_denied(e).contains(w)
                &&& normalized_command(w.1).is_prefix_of(normalized_command(c.command))
                &&& forall|i: int|
                    0 <= i < all_denied(e).len() && normalized_command(
                        (#[trigger] all_denied(e)[i]).1,
                    ).is_prefix_of(normalized_command(c.command)) ==> outranks(
                        w,
                        all_denied(e)[i],
                    )
                &&& decide(e, c).matched_rule == Some(w.1)
                &&& decide(e, c).requirement == RequirementView::Forbidden {
                    reason: deny_reason(w.1),
                }
            },
{
    let list = all_denied(e);
    let hit = deny_hit(normalized_command(c.command));
    let k = choose|k: int| 0 <= k < list.len() && list[k] == d;
    assert(hit(list[k]));
    law_conflict_winner(list, hit);
    let w = best_match(list, hit)->0;
    assert forall|i: int|
        0 <= i < list.len() && normalized_command((#[trigger] list[i]).1).is_prefix_of(
            normalized_command(c.command),
        ) implies outranks(w, list[i]) by {
        assert(hit(list[i]));
    }
    assert(list.contains(w));
}

/// On conflict between allow prefixes, the highest-priority layer's longest
/// covering prefix wins: outside `Never` mode, when no deny prefix blocks the
/// command and some allow prefix covers it, the reported matched rule is a
/// covering allow prefix that takes precedence over every other covering one.
pub proof fn law_highest_layer_longest_allow_wins(e: EngineView, c: ContextView, t: Tagged)
    requires
        !(c.ask is Never),
        all_trusted(e).contains(t),
        rule_matches(t.1, c.command),
        forall|k: int|
            0 <= k < all_denied(e).len() ==> !normalized_command(
                (#[trigger] all_denied(e)[k]).1,
            ).is_prefix_of(normalized_command(c.command)),
    ensures
        exists|w: Tagged|
            {
                &&& #[trigger] all_trusted(e).contains(w)
                &&& rule_matches(w.1, c.command)
                &&& forall|i: int|
                    0 <= i < all_trusted(e).len() && rule_matches(
                        (#[trigger] all_trusted(e)[i]).1,
                        c.command,
                    ) ==> outranks(w, all_trusted(e)[i])
                &&& decide(e, c).matched_rule == Some(w.1)
            },
{
    lemma_no_deny(e, c);
    let list = all_trusted(e);
    let hit = allow_hit(c.command);
    let k = choose|k: int| 0 <= k < list.len() && list[k] == t;
    assert(hit(list[k]));
    law_conflict_winner(list, hit);
    let w = best_match(list, hit)->0;
    assert forall|i: int|
        0 <= i < list.len() && rule_matches((#[trigger] list[i]).1, c.command) implies outranks(
        w,
        list[i],
    ) by {
        assert(hit(list[i]));
    }
    assert(list.contains(w));
}

proof fn lemma_no_deny(e: EngineView, c: ContextView)
    requires
        forall|k: int|
            0 <= k < all_denied(e).len() ==> !normalized_command(
                (#[trigger] all_denied(e)[k]).1,
            ).is_prefix_of(normalized_command(c.command)),
    ensures
        best_match(all_denied(e), deny_hit(normalized_command(c.command))) is None,
{
    let list = all_denied(e);
    let hit = deny_hit(normalized_command(c.command));
    law_conflict_winner(list, hit);
    if exists|i: int| 0 <= i < list.len() && hit(#[trigger] list[i]) {
        let i = choose|i: int| 0 <= i < list.len() && hit(#[trigger] list[i]);
        assert(!normalized_command(list[i].1).is_prefix_of(normalized_command(c.command)));
    }
}

proof fn lemma_allow_found(list: Seq<Tagged>, command: Seq<char>, t: Tagged)
    requires
        list.contains(t),
        rule_matches(t.1, command),
    ensures
        best_match(list, allow_hit(command)) matches Some(w) && rule_matches(w.1, command),
{
    let hit = allow_hit(command);
    let k = choose|k: int| 0 <= k < list.len() && list[k] == t;
    assert(hit(list[k]));
    law_conflict_winner(list, hit);
    let w = best_match(list, hit)->0;
    assert(hit(w));
}

/// In `UnlessTrusted` mode, a command that no deny prefix blocks and that an
/// allow prefix covers runs without approval, and the covering allow prefix
/// that wins on conflict is reported as the matched rule.
pub proof fn law_trusted_runs_unless_trusted(e: EngineView, c: ContextView, t: Tagged)
    requires
        c.ask is UnlessTrusted,
        all_trusted(e).contains(t),
        rule_matches(t.1, c.command),
        forall|k: int|
            0 <= k < all_denied(e).len() ==> !normalized_command(
                (#[trigger] all_denied(e)[k]).1,
            ).is_prefix_of(normalized_command(c.command)),
    ensures
        decide(e, c).allow,
        !decide(e, c).requires_approval,
        decide(e, c).requirement == skip_requirement(),
        decide(e, c).matched_rule == rule_text(best_match(all_trusted(e), allow_hit(c.command))),
        decide(e, c).matched_rule is Some,
{
    lemma_no_deny(e, c);
    lemma_allow_found(all_trusted(e), c.command, t);
}

/// The outcome flags agree with the requirement: a command is allowed
/// unless forbidden, and needs approval exactly when approval is requested.
pub proof fn law_flags_follow_requirement(e: EngineView, c: ContextView)
    ensures
        decide(e, c).allow == !(decide(e, c).requirement is Forbidden),
        decide(e, c).requires_approval == (decide(e, c).requirement is NeedsApproval),
        decide(e, c).requires_approval ==> decide(e, c).allow,
{
}

/// In `Never` mode no command waits for approval: it runs unless a deny
/// prefix or an applicable ask rule forbids it.
pub proof fn law_never_mode_never_asks(e: EngineView, c: ContextView)
    requires
        c.ask is Never,
    ensures
        !decide(e, c).requires_approval,
        decide(e, c).allow == (best_match(all_denied(e), deny_hit(normalized_command(c.command))) is None
            && best_ask(layered_asks(e.rulesets), c) is None),
{
}

/// `OnFailure` mode runs every command that no deny prefix blocks without
/// asking for approval.
pub proof fn law_on_failure_runs_unless_denied(e: EngineView, c: ContextView)
    requires
        c.ask is OnFailure,
    ensures
        decide(e, c).allow == (best_match(all_denied(e), deny_hit(normalized_command(c.command))) is None),
        !decide(e, c).requires_approval,
        decide(e, c).allow ==> decide(e, c).requirement == (RequirementView::Skip {
            bypass_sandbox: false,
            amendment: None,
        }),
{
}

/// No decision ever lets a command bypass the sandbox or proposes an
/// amendment along with running it: every `Skip` requirement has
/// `bypass_sandbox` false and no amendment.
pub proof fn law_skip_never_bypasses_sandbox(e: EngineView, c: ContextView)
    ensures
        decide(e, c).requirement matches RequirementView::Skip { bypass_sandbox, amendment }
            ==> !bypass_sandbox && amendment is None,
{
}

/// A `Reject` mode that rejects rule exceptions never lets a command run.
pub proof fn law_reject_rules_forbids(e: EngineView, c: ContextView)
    requires
        c.ask matches AskForApproval::Reject { rules, .. } && rules,
    ensures
        !decide(e, c).allow,
        decide(e, c).requirement is Forbidden,
{
}

/// `rs` with the ask rules of every layer removed.
pub open spec fn without_asks(rs: Seq<RulesetView>) -> Seq<RulesetView> {
    rs.map_values(
        |r: RulesetView| RulesetView { layer: r.layer, trusted: r.trusted, denied: r.denied, ask_rules: Seq::empty() },
    )
}

proof fn lemma_without_asks_prefixes(rs: Seq<RulesetView>)
    ensures
        layered_trusted(without_asks(rs)) == layered_trusted(rs),
        layered_denied(without_asks(rs)) == layered_denied(rs),
    decreases rs.len(),
{
    if rs.len() > 0 {
        assert(without_asks(rs).drop_last() =~= without_asks(rs.drop_last()));
        lemma_without_asks_prefixes(rs.drop_last());
    }
}

/// Typed ask rules change nothing outside `Never` mode: the decision is the
/// one the engine gives with every ask rule removed.
pub proof fn law_ask_rules_only_matter_in_never_mode(e: EngineView, c: ContextView)
    requires
        !(c.ask is Never),
    ensures
        decide(e, c) == decide(
            EngineView {
                rulesets: without_asks(e.rulesets),
                trusted: e.trusted,
                denied: e.denied,
                approved: e.approved,
            },
            c,
        ),
{
    lemma_without_asks_prefixes(e.rulesets);
}

/// A remembered approval key is approved afterwards, and every other key
/// keeps the status it had.
pub proof fn law_remembered_key_is_approved(e: EngineView, key: Seq<char>, other: Seq<char>)
    ensures
        e.approved.insert(key).contains(key),
        other != key ==> (e.approved.insert(key).contains(other) == e.approved.contains(other)),
{
}

proof fn lemma_spans_valid(s: Seq<char>, i: int, start: Option<int>)
    requires
        0 <= i <= s.len(),
        start matches Some(a) ==> 0 <= a < i && forall|m: int| a <= m < i ==> !is_ws(#[trigger] s[m]),
    ensures
        forall|k: int|
            0 <= k < spans_from(s, i, start).len() ==> {
                let p = #[trigger] spans_from(s, i, start)[k];
                &&& 0 <= p.0 < p.1 <= s.len()
                &&& forall|m: int| p.0 <= m < p.1 ==> !is_ws(#[trigger] s[m])
            },
    decreases s.len() - i,
{
    if i < s.len() {
        if is_ws(s[i]) {
            lemma_spans_valid(s, i + 1, None);
            let head = close_span(start, i);
            let tail = spans_from(s, i + 1, None);
            assert forall|k: int| 0 <= k < spans_from(s, i, start).len() implies {
                let p = #[trigger] spans_from(s, i, start)[k];
                &&& 0 <= p.0 < p.1 <= s.len()
                &&& forall|m: int| p.0 <= m < p.1 ==> !is_ws(#[trigger] s[m])
            } by {
                if k >= head.len() {
                    assert(spans_from(s, i, start)[k] == tail[k - head.len()]);
                }
            }
        } else {
            let next = if start is Some { start } else { Some(i) };
            lemma_spans_valid(s, i + 1, next);
            assert(spans_from(s, i, start) == spans_from(s, i + 1, next));
        }
    } else {
        assert(spans_from(s, i, start) == close_span(start, s.len() as int));
        if let Some(a) = start {
            assert(close_span(start, s.len() as int)[0] == (a, s.len() as int));
        }
    }
}

proof fn lemma_word_alone(w: Seq<char>, i: int)
    requires
        1 <= i <= w.len(),
        forall|m: int| 0 <= m < w.len() ==> !is_ws(#[trigger] w[m]),
    ensures
        spans_from(w, i, Some(0)) == seq![(0int, w.len() as int)],
    decreases w.len() - i,
{
    if i < w.len() {
        assert(!is_ws(w[i]));
        lemma_word_alone(w, i + 1);
    }
}

/// A word has itself as its only word.
proof fn lemma_single_word(w: Seq<char>)
    requires
        w.len() > 0,
        forall|m: int| 0 <= m < w.len() ==> !is_ws(#[trigger] w[m]),
    ensures
        words(w) == seq![w],
{
    assert(!is_ws(w[0]));
    lemma_word_alone(w, 1);
    assert(word_spans(w) == spans_from(w, 1, Some(0)));
    assert(w.subrange(0, w.len() as int) =~= w);
    assert(words(w) =~= seq![w]);
}

/// The first word of a command that has one, taken as an allow rule,
/// covers that command.
pub proof fn law_first_word_covers_command(command: Seq<char>)
    requires
        words(command).len() > 0,
    ensures
        rule_matches(first_word(command), command),
{
    lemma_spans_valid(command, 0, None);
    let p = word_spans(command)[0];
    let w = first_word(command);
    assert(w == command.subrange(p.0, p.1));
    assert forall|m: int| 0 <= m < w.len() implies !is_ws(#[trigger] w[m]) by {
        assert(w[m] == command[p.0 + m]);
    }
    lemma_single_word(w);
    assert(words(w) =~= words(command).subrange(0, 1));
}

/// The amendment that an approval request proposes, once added as an allow
/// prefix, lets the same command run without approval in `UnlessTrusted`
/// mode (for a command with at least one word).
pub proof fn law_proposed_amendment_is_sufficient(e: EngineView, c: ContextView)
    requires
        words(c.command).len() > 0,
        decide(e, c).requirement matches RequirementView::NeedsApproval { amendment, .. }
            && amendment is Some,
    ensures
        decide(e, c).requirement matches RequirementView::NeedsApproval { amendment, .. }
            && amendment == Some(seq![first_word(c.command)]),
        ({
            let e2 = EngineView {
                rulesets: e.rulesets,
                trusted: e.trusted.push(first_word(c.command)),
                denied: e.denied,
                approved: e.approved,
            };
            let c2 = ContextView {
                command: c.command,
                cwd: c.cwd,
                tool: c.tool,
                path: c.path,
                ask: AskForApproval::UnlessTrusted,
                sandbox_mode: c.sandbox_mode,
            };
            decide(e2, c2).allow && !decide(e2, c2).requires_approval
        }),
{
    let w = first_word(c.command);
    let e2 = EngineView {
        rulesets: e.rulesets,
        trusted: e.trusted.push(w),
        denied: e.denied,
        approved: e.approved,
    };
    let c2 = ContextView {
        command: c.command,
        cwd: c.cwd,
        tool: c.tool,
        path: c.path,
        ask: AskForApproval::UnlessTrusted,
        sandbox_mode: c.sandbox_mode,
    };
    law_first_word_covers_command(c.command);
    assert(all_denied(e2) == all_denied(e));
    let at = all_trusted(e2);
    assert(at =~= all_trusted(e).push((RulesetLayer::User, w)));
    assert(at[at.len() - 1] == (RulesetLayer::User, w));
    assert(at.contains((RulesetLayer::User, w)));
    lemma_allow_found(at, c.command, (RulesetLayer::User, w));
}


/// How many of command and path an ask rule constrains.
pub open spec fn ask_constraints(r: AskRuleView) -> int {
    (if r.command is Some { 1int } else { 0int }) + (if r.path is Some { 1int } else { 0int })
}

/// The total byte length of an ask rule's texts.
pub open spec fn ask_text_len(r: AskRuleView) -> int {
    byte_len(r.tool) + match r.command {
        Some(c) => byte_len(c),
        None => 0,
    } + match r.path {
        Some(p) => byte_len(p),
        None => 0,
    }
}

/// Of two ask rules whose texts are shorter than 1000 bytes in all, the one
/// that constrains more of command and path is always the more specific;
/// with as many constraints, the one with the longer texts is.
pub proof fn law_more_constrained_ask_rules_are_more_specific(r1: AskRuleView, r2: AskRuleView)
    requires
        ask_text_len(r1) < 1000,
        ask_text_len(r2) < 1000,
    ensures
        ask_specificity(r1) == 1000 * ask_constraints(r1) + ask_text_len(r1),
        ask_specificity(r2) == 1000 * ask_constraints(r2) + ask_text_len(r2),
        (ask_specificity(r1) < ask_specificity(r2)) == (ask_constraints(r1) < ask_constraints(r2)
            || (ask_constraints(r1) == ask_constraints(r2) && ask_text_len(r1) < ask_text_len(r2))),
{
    assert(byte_len(r1.tool) >= 0 && byte_len(r2.tool) >= 0);
    if let Some(c) = r1.command {
        assert(byte_len(c) >= 0);
    }
    if let Some(p) = r1.path {
        assert(byte_len(p) >= 0);
    }
    if let Some(c) = r2.command {
        assert(byte_len(c) >= 0);
    }
    if let Some(p) = r2.path {
        assert(byte_len(p) >= 0);
    }
}


proof fn lemma_lead_from_at_least(s: Seq<char>, i: int, k: Strip)
    requires
        0 <= i,
    ensures
        i <= lead_from(s, i, k),
    decreases s.len() - i,
{
    if i < s.len() && k.holds(s[i]) {
        lemma_lead_from_at_least(s, i + 1, k);
    }
}

proof fn lemma_lead_from_map(s: Seq<char>, i: int, k: Strip, f: spec_fn(char) -> char)
    requires
        forall|c: char| #[trigger] k.holds(f(c)) == k.holds(c),
    ensures
        lead_from(s.map_values(f), i, k) == lead_from(s, i, k),
    decreases s.len() - i,
{
    if 0 <= i < s.len() {
        assert(s.map_values(f)[i] == f(s[i]));
        assert(k.holds(f(s[i])) == k.holds(s[i]));
        lemma_lead_from_map(s, i + 1, k, f);
    }
}

proof fn lemma_trail_from_map(s: Seq<char>, j: int, k: Strip, f: spec_fn(char) -> char)
    requires
        forall|c: char| #[trigger] k.holds(f(c)) == k.holds(c),
    ensures
        trail_from(s.map_values(f), j, k) == trail_from(s, j, k),
    decreases j,
{
    if 0 < j <= s.len() {
        assert(s.map_values(f)[j - 1] == f(s[j - 1]));
        assert(k.holds(f(s[j - 1])) == k.holds(s[j - 1]));
        lemma_trail_from_map(s, j - 1, k, f);
    }
}

/// Stripping a class of characters commutes with a character map that
/// keeps every character in or out of that class.
proof fn lemma_strip_map(s: Seq<char>, k: Strip, f: spec_fn(char) -> char)
    requires
        forall|c: char| #[trigger] k.holds(f(c)) == k.holds(c),
    ensures
        strip(s.map_values(f), k) == strip(s, k).map_values(f),
{
    lemma_lead_from_map(s, 0, k, f);
    lemma_trail_from_map(s, s.len() as int, k, f);
    lemma_trail_from_bounds(s, s.len() as int, k);
    lemma_lead_from_at_least(s, 0, k);
    let a = lead_from(s, 0, k);
    let b = trail_from(s, s.len() as int, k);
    if a < b {
        assert(s.map_values(f).subrange(a, b) =~= s.subrange(a, b).map_values(f));
    } else {
        assert(strip(s, k).map_values(f) =~= Seq::<char>::empty());
    }
}

/// ASCII upper-casing of one character.
pub open spec fn upper_char(c: char) -> char {
    if 'a' <= c && c <= 'z' {
        ((c as u32) - 32) as char
    } else {
        c
    }
}

/// `s` with every slash turned into a backslash.
pub open spec fn slash_to_backslash(s: Seq<char>) -> Seq<char> {
    s.map_values(|c: char| if c == '/' { '\\' } else { c })
}

/// Path normal forms ignore ASCII case and whether separators are written
/// as slashes or backslashes.
pub proof fn law_path_normal_form_ignores_case_and_slash_style(s: Seq<char>)
    ensures
        normalized_path(s.map_values(|c: char| upper_char(c))) == normalized_path(s),
        normalized_path(unbackslash(s)) == normalized_path(s),
        normalized_path(slash_to_backslash(s)) == normalized_path(s),
{
    let up = |c: char| upper_char(c);
    let u = unbackslash(s);
    // Upper-casing: it commutes with turning backslashes into slashes.
    assert(unbackslash(s.map_values(up)) =~= u.map_values(up));
    assert forall|c: char| #[trigger] Strip::Whitespace.holds(up(c)) == Strip::Whitespace.holds(c) by {
        if 'a' <= c && c <= 'z' {
            assert((c as u32) - 32 >= 0x41);
        }
    }
    assert forall|c: char| #[trigger] Strip::Slash.holds(up(c)) == Strip::Slash.holds(c) by {
        if 'a' <= c && c <= 'z' {
            assert(((c as u32) - 32) as char != '/');
        }
    }
    lemma_strip_map(u, Strip::Whitespace, up);
    let t = strip(u, Strip::Whitespace);
    lemma_strip_map(t, Strip::Slash, up);
    let t2 = strip(t, Strip::Slash);
    assert forall|i: int| 0 <= i < t2.len() implies #[trigger] lower(t2.map_values(up))[i] == lower(
        t2,
    )[i] by {
        let c = t2[i];
        if 'a' <= c && c <= 'z' {
            assert(lower_char(upper_char(c)) == c) by {
                assert(((c as u32) - 32) as char as u32 == (c as u32) - 32);
            }
        }
    }
    assert(lower(t2.map_values(up)) =~= lower(t2));
    // Slash style: both forms turn every separator into a slash.
    assert(unbackslash(unbackslash(s)) =~= u);
    assert(unbackslash(slash_to_backslash(s)) =~= u);
}


/// An allow rule covers a command exactly through the command's leading
/// words: the rule has at least one word, the command has at least as many,
/// and the command's first words are the rule's words, one for one.
pub proof fn law_allow_rule_covers_leading_words(rule: Seq<char>, command: Seq<char>)
    ensures
        rule_matches(rule, command) <==> ({
            &&& words(rule).len() > 0
            &&& words(rule).len() <= words(command).len()
            &&& forall|i: int| 0 <= i < words(rule).len() ==> #[trigger] words(command)[i] == words(rule)[i]
        }),
        rule_matches(rule, command) ==> words(command)[0] == words(rule)[0],
{
    let rw = words(rule);
    let cw = words(command);
    if rw.len() > 0 && rw.len() <= cw.len() && forall|i: int|
        0 <= i < rw.len() ==> #[trigger] cw[i] == rw[i] {
        assert(rw =~= cw.subrange(0, rw.len() as int));
    }
    if rule_matches(rule, command) {
        assert forall|i: int| 0 <= i < rw.len() implies #[trigger] cw[i] == rw[i] by {
            assert(cw.subrange(0, rw.len() as int)[i] == cw[i]);
        }
    }
}

proof fn lemma_layered_asks_contains(rs: Seq<RulesetView>, i: int, j: int)
    requires
        0 <= i < rs.len(),
        0 <= j < rs[i].ask_rules.len(),
    ensures
        layered_asks(rs).contains(rs[i].ask_rules[j]),
    decreases rs.len(),
{
    let init = rs.drop_last();
    let head = layered_asks(init);
    if i == rs.len() - 1 {
        assert(layered_asks(rs)[head.len() + j] == rs[i].ask_rules[j]);
    } else {
        assert(init[i] == rs[i]);
        lemma_layered_asks_contains(init, i, j);
        let k = choose|k: int| 0 <= k < head.len() && head[k] == rs[i].ask_rules[j];
        assert(layered_asks(rs)[k] == head[k]);
    }
}

proof fn lemma_layered_denied_contains(rs: Seq<RulesetView>, i: int, j: int)
    requires
        0 <= i < rs.len(),
        0 <= j < rs[i].denied.len(),
    ensures
        layered_denied(rs).contains((rs[i].layer, rs[i].denied[j])),
    decreases rs.len(),
{
    let init = rs.drop_last();
    let head = layered_denied(init);
    if i == rs.len() - 1 {
        assert(layered_denied(rs)[head.len() + j] == (rs[i].layer, rs[i].denied[j]));
    } else {
        assert(init[i] == rs[i]);
        lemma_layered_denied_contains(init, i, j);
        let k = choose|k: int| 0 <= k < head.len() && head[k] == (rs[i].layer, rs[i].denied[j]);
        assert(layered_denied(rs)[k] == head[k]);
    }
}

proof fn lemma_layered_trusted_contains(rs: Seq<RulesetView>, i: int, j: int)
    requires
        0 <= i < rs.len(),
        0 <= j < rs[i].trusted.len(),
    ensures
        layered_trusted(rs).contains((rs[i].layer, rs[i].trusted[j])),
    decreases rs.len(),
{
    let init = rs.drop_last();
    let head = layered_trusted(init);
    if i == rs.len() - 1 {
        assert(layered_trusted(rs)[head.len() + j] == (rs[i].layer, rs[i].trusted[j]));
    } else {
        assert(init[i] == rs[i]);
        lemma_layered_trusted_contains(init, i, j);
        let k = choose|k: int| 0 <= k < head.len() && head[k] == (rs[i].layer, rs[i].trusted[j]);
        assert(layered_trusted(rs)[k] == head[k]);
    }
}

/// The ask rule chosen for a check applies to it, is one of the given rules,
/// and no applicable rule is more specific; there is one exactly when some
/// rule applies.
pub proof fn law_ask_winner(rules: Seq<AskRuleView>, c: ContextView)
    ensures
        (best_ask(rules, c) is Some) == (exists|i: int| 0 <= i < rules.len() && ask_matches(#[trigger] rules[i], c)),
        best_ask(rules, c) matches Some(w) ==> {
            &&& ask_matches(w, c)
            &&& rules.contains(w)
            &&& forall|i: int|
                0 <= i < rules.len() && ask_matches(#[trigger] rules[i], c) ==> ask_specificity(rules[i])
                    <= ask_specificity(w)
        },
    decreases rules.len(),
{
    if rules.len() > 0 {
        let init = rules.drop_last();
        law_ask_winner(init, c);
        assert forall|i: int| 0 <= i < init.len() implies #[trigger] init[i] == rules[i] by {}
        if let Some(p) = best_ask(init, c) {
            let k = choose|k: int| 0 <= k < init.len() && init[k] == p;
            assert(rules[k] == p);
        }
        if exists|i: int| 0 <= i < rules.len() && ask_matches(#[trigger] rules[i], c) {
            let i = choose|i: int| 0 <= i < rules.len() && ask_matches(#[trigger] rules[i], c);
            if i < rules.len() - 1 {
                assert(ask_matches(init[i], c));
            }
        }
        if exists|i: int| 0 <= i < init.len() && ask_matches(#[trigger] init[i], c) {
            let i = choose|i: int| 0 <= i < init.len() && ask_matches(#[trigger] init[i], c);
            assert(ask_matches(rules[i], c));
        }
        assert(rules[rules.len() - 1] == rules.last());
        if let Some(w) = best_ask(rules, c) {
            assert forall|i: int|
                0 <= i < rules.len() && ask_matches(#[trigger] rules[i], c) implies ask_specificity(
                rules[i],
            ) <= ask_specificity(w) by {
                if i < rules.len() - 1 {
                    assert(init[i] == rules[i]);
                    assert(ask_matches(init[i], c));
                }
            }
        }
    }
}

/// In `Never` mode, an ask rule of any ruleset of the engine that applies to
/// the check forbids the command.
pub proof fn law_never_mode_any_applicable_ask_rule_forbids(
    e: EngineView,
    c: ContextView,
    i: int,
    j: int,
)
    requires
        c.ask is Never,
        0 <= i < e.rulesets.len(),
        0 <= j < e.rulesets[i].ask_rules.len(),
        ask_matches(e.rulesets[i].ask_rules[j], c),
    ensures
        !decide(e, c).allow,
        !decide(e, c).requires_approval,
        decide(e, c).requirement is Forbidden,
        decide(e, c).matched_rule is Some,
{
    let rules = layered_asks(e.rulesets);
    lemma_layered_asks_contains(e.rulesets, i, j);
    let k = choose|k: int| 0 <= k < rules.len() && rules[k] == e.rulesets[i].ask_rules[j];
    assert(ask_matches(rules[k], c));
    law_ask_winner(rules, c);
}

/// In `Never` mode, when no deny prefix blocks the command, the reported
/// rule is the label of an applicable ask rule of the engine that no other
/// applicable ask rule exceeds in specificity, and the reason names it.
pub proof fn law_never_mode_reports_most_specific_ask_rule(e: EngineView, c: ContextView, i: int, j: int)
    requires
        c.ask is Never,
        0 <= i < e.rulesets.len(),
        0 <= j < e.rulesets[i].ask_rules.len(),
        ask_matches(e.rulesets[i].ask_rules[j], c),
        forall|k: int|
            0 <= k < all_denied(e).len() ==> !normalized_command(
                (#[trigger] all_denied(e)[k]).1,
            ).is_prefix_of(normalized_command(c.command)),
    ensures
        exists|w: AskRuleView|
            {
                &&& #[trigger] layered_asks(e.rulesets).contains(w)
                &&& ask_matches(w, c)
                &&& ask_specificity(e.rulesets[i].ask_rules[j]) <= ask_specificity(w)
                &&& decide(e, c).matched_rule == Some(label_of(w))
                &&& decide(e, c).requirement == RequirementView::Forbidden {
                    reason: "Typed ask rule '"@ + label_of(w) + "' requires approval, but approval policy is never."@,
                }
            },
{
    lemma_no_deny(e, c);
    let rules = layered_asks(e.rulesets);
    lemma_layered_asks_contains(e.rulesets, i, j);
    let k = choose|k: int| 0 <= k < rules.len() && rules[k] == e.rulesets[i].ask_rules[j];
    assert(ask_matches(rules[k], c));
    law_ask_winner(rules, c);
    let w = best_ask(rules, c)->0;
    assert(rules.contains(w));
}

/// Every deny prefix of every ruleset of the engine is in force: when its
/// normal form begins the command's, the command is forbidden.
pub proof fn law_layer_deny_prefix_in_force(e: EngineView, c: ContextView, i: int, j: int)
    requires
        0 <= i < e.rulesets.len(),
        0 <= j < e.rulesets[i].denied.len(),
        normalized_command(e.rulesets[i].denied[j]).is_prefix_of(normalized_command(c.command)),
    ensures
        !decide(e, c).allow,
        decide(e, c).requirement is Forbidden,
{
    lemma_layered_denied_contains(e.rulesets, i, j);
    let d = (e.rulesets[i].layer, e.rulesets[i].denied[j]);
    let l = layered_denied(e.rulesets);
    let k = choose|k: int| 0 <= k < l.len() && l[k] == d;
    assert(all_denied(e)[k] == d);
    law_deny_always_wins(e, c, d);
}

/// Every legacy deny prefix stays in force whatever rulesets the engine has:
/// when its normal form begins the command's, the command is forbidden.
pub proof fn law_legacy_deny_prefix_in_force(e: EngineView, c: ContextView, k: int)
    requires
        0 <= k < e.denied.len(),
        normalized_command(e.denied[k]).is_prefix_of(normalized_command(c.command)),
    ensures
        !decide(e, c).allow,
        decide(e, c).requirement is Forbidden,
{
    let d = (RulesetLayer::User, e.denied[k]);
    let l = layered_denied(e.rulesets);
    assert(all_denied(e)[l.len() + k] == d);
    law_deny_always_wins(e, c, d);
}

/// Every allow prefix of every ruleset is in force: in `UnlessTrusted` mode
/// a command that it covers and no deny prefix blocks runs without approval.
pub proof fn law_layer_allow_prefix_in_force(e: EngineView, c: ContextView, i: int, j: int)
    requires
        c.ask is UnlessTrusted,
        0 <= i < e.rulesets.len(),
        0 <= j < e.rulesets[i].trusted.len(),
        rule_matches(e.rulesets[i].trusted[j], c.command),
        forall|k: int|
            0 <= k < all_denied(e).len() ==> !normalized_command(
                (#[trigger] all_denied(e)[k]).1,
            ).is_prefix_of(normalized_command(c.command)),
    ensures
        decide(e, c).allow,
        !decide(e, c).requires_approval,
{
    lemma_layered_trusted_contains(e.rulesets, i, j);
    let t = (e.rulesets[i].layer, e.rulesets[i].trusted[j]);
    let l = layered_trusted(e.rulesets);
    let k = choose|k: int| 0 <= k < l.len() && l[k] == t;
    assert(all_trusted(e)[k] == t);
    law_trusted_runs_unless_trusted(e, c, t);
}

/// Every legacy allow prefix stays in force whatever rulesets the engine
/// has: in `UnlessTrusted` mode a command that it covers and no deny prefix
/// blocks runs without approval.
pub proof fn law_legacy_allow_prefix_in_force(e: EngineView, c: ContextView, k: int)
    requires
        c.ask is UnlessTrusted,
        0 <= k < e.trusted.len(),
        rule_matches(e.trusted[k], c.command),
        forall|m: int|
            0 <= m < all_denied(e).len() ==> !normalized_command(
                (#[trigger] all_denied(e)[m]).1,
            ).is_prefix_of(normalized_command(c.command)),
    ensures
        decide(e, c).allow,
        !decide(e, c).requires_approval,
{
    let t = (RulesetLayer::User, e.trusted[k]);
    let l = layered_trusted(e.rulesets);
    assert(all_trusted(e)[l.len() + k] == t);
    law_trusted_runs_unless_trusted(e, c, t);
}

proof fn lemma_lead_bounds(s: Seq<char>, i: int, k: Strip)
    requires
        0 <= i <= s.len(),
    ensures
        i <= lead_from(s, i, k) <= s.len(),
        lead_from(s, i, k) < s.len() ==> !k.holds(s[lead_from(s, i, k)]),
    decreases s.len() - i,
{
    if i < s.len() && k.holds(s[i]) {
        lemma_lead_bounds(s, i + 1, k);
    }
}

proof fn lemma_lead_skip(u: Seq<char>, i: int, m: int, k: Strip)
    requires
        0 <= i <= m <= u.len(),
        forall|x: int| i <= x < m ==> k.holds(#[trigger] u[x]),
    ensures
        lead_from(u, i, k) == lead_from(u, m, k),
    decreases m - i,
{
    if i < m {
        lemma_lead_skip(u, i + 1, m, k);
    }
}

proof fn lemma_trail_skip(u: Seq<char>, j: int, m: int, k: Strip)
    requires
        0 <= m <= j <= u.len(),
        forall|x: int| m <= x < j ==> k.holds(#[trigger] u[x]),
    ensures
        trail_from(u, j, k) == trail_from(u, m, k),
    decreases j,
{
    if j > m {
        lemma_trail_skip(u, j - 1, m, k);
    }
}

proof fn lemma_trail_prefix(s: Seq<char>, t: Seq<char>, j: int, k: Strip)
    requires
        0 <= j <= s.len(),
    ensures
        trail_from(s + t, j, k) == trail_from(s, j, k),
    decreases j,
{
    if j > 0 {
        assert((s + t)[j - 1] == s[j - 1]);
        lemma_trail_prefix(s, t, j - 1, k);
    }
}

proof fn lemma_lead_prefix(s: Seq<char>, t: Seq<char>, i: int, k: Strip)
    requires
        0 <= i <= s.len(),
    ensures
        lead_from(s + t, i, k) == if lead_from(s, i, k) < s.len() {
            lead_from(s, i, k)
        } else {
            lead_from(s + t, s.len() as int, k)
        },
    decreases s.len() - i,
{
    if i < s.len() {
        assert((s + t)[i] == s[i]);
        lemma_lead_prefix(s, t, i + 1, k);
    }
}

proof fn lemma_lead_shift(t: Seq<char>, s: Seq<char>, i: int, k: Strip)
    requires
        0 <= i <= s.len(),
    ensures
        lead_from(t + s, t.len() + i, k) == t.len() + lead_from(s, i, k),
    decreases s.len() - i,
{
    if i < s.len() {
        assert((t + s)[t.len() + i] == s[i]);
        lemma_lead_shift(t, s, i + 1, k);
    }
}

proof fn lemma_trail_shift(t: Seq<char>, s: Seq<char>, j: int, k: Strip)
    requires
        0 <= j <= s.len(),
    ensures
        trail_from(t + s, t.len() + j, k) == if trail_from(s, j, k) > 0 {
            t.len() + trail_from(s, j, k)
        } else {
            trail_from(t + s, t.len() as int, k)
        },
    decreases j,
{
    if j > 0 {
        assert((t + s)[t.len() + j - 1] == s[j - 1]);
        lemma_trail_shift(t, s, j - 1, k);
    }
}

/// Removing the characters of class `k` at both ends ignores any run of
/// such characters added at either end.
proof fn lemma_strip_ignores_outer_runs(s: Seq<char>, t: Seq<char>, k: Strip)
    requires
        forall|x: int| 0 <= x < t.len() ==> k.holds(#[trigger] t[x]),
    ensures
        strip(s + t, k) == strip(s, k),
        strip(t + s, k) == strip(s, k),
{
    let a = lead_from(s, 0, k);
    let b = trail_from(s, s.len() as int, k);
    lemma_lead_bounds(s, 0, k);
    lemma_trail_from_bounds(s, s.len() as int, k);
    // Run added at the end.
    let st = s + t;
    assert forall|x: int| s.len() <= x < st.len() implies k.holds(#[trigger] st[x]) by {
        assert(st[x] == t[x - s.len()]);
    }
    lemma_lead_prefix(s, t, 0, k);
    lemma_lead_skip(st, s.len() as int, st.len() as int, k);
    lemma_trail_skip(st, st.len() as int, s.len() as int, k);
    lemma_trail_prefix(s, t, s.len() as int, k);
    if a < b {
        assert(st.subrange(a, b) =~= s.subrange(a, b));
    }
    // Run added at the start.
    let ts = t + s;
    assert forall|x: int| 0 <= x < t.len() implies k.holds(#[trigger] ts[x]) by {
        assert(ts[x] == t[x]);
    }
    lemma_lead_skip(ts, 0, t.len() as int, k);
    lemma_lead_shift(t, s, 0, k);
    lemma_trail_shift(t, s, s.len() as int, k);
    lemma_trail_skip(ts, t.len() as int, 0, k);
    assert(trail_from(ts, 0, k) == 0);
    assert(t.len() + s.len() == ts.len());
    if a < b {
        assert(ts.subrange(t.len() + a, t.len() + b) =~= s.subrange(a, b));
    }
}

proof fn lemma_lower_keeps_whitespace(c: char)
    ensures
        is_ws(lower_char(c)) == is_ws(c),
{
    if 'A' <= c && c <= 'Z' {
        assert(((c as u32) + 32) as char as u32 == (c as u32) + 32);
    }
}

/// The normal form of a command ignores whitespace added at either end.
pub proof fn law_command_normal_form_ignores_outer_whitespace(s: Seq<char>, t: Seq<char>)
    requires
        forall|x: int| 0 <= x < t.len() ==> is_ws(#[trigger] t[x]),
    ensures
        normalized_command(s + t) == normalized_command(s),
        normalized_command(t + s) == normalized_command(s),
{
    assert forall|x: int| 0 <= x < t.len() implies Strip::Whitespace.holds(#[trigger] t[x]) by {
        assert(is_ws(t[x]));
    }
    lemma_strip_ignores_outer_runs(s, t, Strip::Whitespace);
}

/// The normal form of a command neither begins nor ends with whitespace,
/// and is no longer than the command.
pub proof fn law_command_normal_form_has_no_outer_whitespace(s: Seq<char>)
    ensures
        normalized_command(s).len() <= s.len(),
        normalized_command(s).len() > 0 ==> !is_ws(normalized_command(s)[0]) && !is_ws(
            normalized_command(s)[normalized_command(s).len() - 1],
        ),
{
    let k = Strip::Whitespace;
    let a = lead_from(s, 0, k);
    let b = trail_from(s, s.len() as int, k);
    lemma_lead_bounds(s, 0, k);
    lemma_trail_from_bounds(s, s.len() as int, k);
    let n = normalized_command(s);
    if a < b {
        let t = s.subrange(a, b);
        assert(n[0] == lower_char(s[a]));
        lemma_lower_keeps_whitespace(s[a]);
        assert(n[n.len() - 1] == lower_char(s[b - 1]));
        lemma_lower_keeps_whitespace(s[b - 1]);
    }
}

/// Outside `Never`, `OnFailure` and rule-rejecting `Reject` modes, a command
/// that no deny prefix blocks and that is not trusted (or is asked about in
/// a mode other than `UnlessTrusted`) needs approval; the request proposes
/// allowing the command's first word exactly when no allow prefix covers
/// the command, and proposes allowing network access to the working
/// directory.
pub proof fn law_approval_request_contents(e: EngineView, c: ContextView)
    requires
        !(c.ask is Never),
        !(c.ask is OnFailure),
        !(c.ask matches AskForApproval::Reject { rules, .. } && rules),
        forall|k: int|
            0 <= k < all_denied(e).len() ==> !normalized_command(
                (#[trigger] all_denied(e)[k]).1,
            ).is_prefix_of(normalized_command(c.command)),
        !(c.ask is UnlessTrusted) || forall|k: int|
            0 <= k < all_trusted(e).len() ==> !rule_matches((#[trigger] all_trusted(e)[k]).1, c.command),
    ensures
        decide(e, c).allow,
        decide(e, c).requires_approval,
        decide(e, c).matched_rule == rule_text(best_match(all_trusted(e), allow_hit(c.command))),
        decide(e, c).requirement matches RequirementView::NeedsApproval { amendment, network, .. } && {
            &&& network == seq![
                NetworkAmendmentView { host: c.cwd, action: NetworkPolicyRuleAction::Allow },
            ]
            &&& (amendment == Some(seq![first_word(c.command)])) == (forall|k: int|
                0 <= k < all_trusted(e).len() ==> !rule_matches(
                    (#[trigger] all_trusted(e)[k]).1,
                    c.command,
                ))
        },
{
    lemma_no_deny(e, c);
    let list = all_trusted(e);
    let hit = allow_hit(c.command);
    law_conflict_winner(list, hit);
    if exists|i: int| 0 <= i < list.len() && hit(#[trigger] list[i]) {
        let i = choose|i: int| 0 <= i < list.len() && hit(#[trigger] list[i]);
        assert(rule_matches(list[i].1, c.command));
    }
    if forall|k: int| 0 <= k < list.len() ==> !rule_matches((#[trigger] list[k]).1, c.command) {
        if exists|i: int| 0 <= i < list.len() && hit(#[trigger] list[i]) {
            let i = choose|i: int| 0 <= i < list.len() && hit(#[trigger] list[i]);
            assert(!rule_matches(list[i].1, c.command));
        }
    }
}

} // verus!
