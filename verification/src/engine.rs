//! The policy engine: layered rulesets, legacy flat prefix lists, session
//! approvals, and the check that decides what a command needs before it runs.
use vstd::prelude::*;
use vstd::string::{StrSliceExecFns, StringExecFns};

use crate::bash_arity::{rule_matches, BashArityDict};
use crate::decision::{
    DecisionView, ExecApprovalRequirement, ExecPolicyAmendment, ExecPolicyDecision,
    RequirementView,
};
use crate::laws::law_by_layer_sorted;
use crate::layers::{by_layer, layer_rank, layer_sorted, rank_of, rulesets_view, sort_by_layer};
use crate::normalize::{
    first_token, normalize_command, normalize_path_value, normalized_command, normalized_path,
};
use crate::protocol::{NetworkAmendmentView, NetworkPolicyAmendment, NetworkPolicyRuleAction};
use crate::rules::{
    label_of, texts_view, AskForApproval, AskRuleView, Ruleset, RulesetLayer, RulesetView,
    ToolAskRule,
};
use crate::text::{chars_equal, chars_of, first_word, is_prefix};

verus! {

/// The view of an optional text slice.
pub open spec fn opt_str_view(o: Option<&str>) -> Option<Seq<char>> {
    match o {
        Some(s) => Some(s@),
        None => None,
    }
}

/// The inputs of one policy check.
#[derive(Debug, Clone)]
pub struct ExecPolicyContext<'a> {
    pub command: &'a str,
    pub cwd: &'a str,
    pub tool: Option<&'a str>,
    pub path: Option<&'a str>,
    pub ask_for_approval: AskForApproval,
    pub sandbox_mode: Option<&'a str>,
}

/// The model of an [`ExecPolicyContext`].
pub struct ContextView {
    pub command: Seq<char>,
    pub cwd: Seq<char>,
    pub tool: Option<Seq<char>>,
    pub path: Option<Seq<char>>,
    pub ask: AskForApproval,
    pub sandbox_mode: Option<Seq<char>>,
}

impl<'a> View for ExecPolicyContext<'a> {
    type V = ContextView;

    open spec fn view(&self) -> ContextView {
        ContextView {
            command: self.command@,
            cwd: self.cwd@,
            tool: opt_str_view(self.tool),
            path: opt_str_view(self.path),
            ask: self.ask_for_approval,
            sandbox_mode: opt_str_view(self.sandbox_mode),
        }
    }
}

/// The policy engine.
#[derive(Debug, Clone)]
pub struct ExecPolicyEngine {
    /// Layered rulesets, kept in layer order (builtin, agent, user).
    rulesets: Vec<Ruleset>,
    /// Flat lists of the legacy constructor; they count as the user layer.
    trusted_prefixes: Vec<String>,
    denied_prefixes: Vec<String>,
    /// Approval keys remembered for the session.
    approved_for_session: Vec<String>,
    /// Matcher of allow rules against command lines.
    arity_dict: BashArityDict,
}

/// The model of an [`ExecPolicyEngine`].
pub struct EngineView {
    pub rulesets: Seq<RulesetView>,
    pub trusted: Seq<Seq<char>>,
    pub denied: Seq<Seq<char>>,
    pub approved: Set<Seq<char>>,
}

impl View for ExecPolicyEngine {
    type V = EngineView;

    closed spec fn view(&self) -> EngineView {
        EngineView {
            rulesets: rulesets_view(self.rulesets@),
            trusted: texts_view(self.trusted_prefixes@),
            denied: texts_view(self.denied_prefixes@),
            approved: texts_view(self.approved_for_session@).to_set(),
        }
    }
}

/// A prefix rule together with the layer it belongs to.
pub type Tagged = (RulesetLayer, Seq<char>);

/// The texts of `s`, each tagged with the layer `l`.
pub open spec fn tag(l: RulesetLayer, s: Seq<Seq<char>>) -> Seq<Tagged> {
    s.map_values(|t: Seq<char>| (l, t))
}

/// The allow prefixes of the layers of `rs`, layer after layer, each with its layer.
pub open spec fn layered_trusted(rs: Seq<RulesetView>) -> Seq<Tagged>
    decreases rs.len(),
{
    if rs.len() == 0 {
        Seq::empty()
    } else {
        layered_trusted(rs.drop_last()) + tag(rs.last().layer, rs.last().trusted)
    }
}

/// The deny prefixes of the layers of `rs`, layer after layer, each with its layer.
pub open spec fn layered_denied(rs: Seq<RulesetView>) -> Seq<Tagged>
    decreases rs.len(),
{
    if rs.len() == 0 {
        Seq::empty()
    } else {
        layered_denied(rs.drop_last()) + tag(rs.last().layer, rs.last().denied)
    }
}

/// The ask rules of the layers of `rs`, layer after layer.
pub open spec fn layered_asks(rs: Seq<RulesetView>) -> Seq<AskRuleView>
    decreases rs.len(),
{
    if rs.len() == 0 {
        Seq::empty()
    } else {
        layered_asks(rs.drop_last()) + rs.last().ask_rules
    }
}

/// Every allow prefix in force: those of all layers, then the legacy ones,
/// which count as the user layer.
pub open spec fn all_trusted(e: EngineView) -> Seq<Tagged> {
    layered_trusted(e.rulesets) + tag(RulesetLayer::User, e.trusted)
}

/// Every deny prefix in force: those of all layers, then the legacy ones,
/// which count as the user layer.
pub open spec fn all_denied(e: EngineView) -> Seq<Tagged> {
    layered_denied(e.rulesets) + tag(RulesetLayer::User, e.denied)
}

/// Whether rule `a` ranks at least as high as rule `b` on conflict: its
/// layer has higher priority, or the same priority and it is at least as long.
pub open spec fn outranks(a: Tagged, b: Tagged) -> bool {
    layer_rank(a.0) > layer_rank(b.0) || (layer_rank(a.0) == layer_rank(b.0) && a.1.len()
        >= b.1.len())
}

/// Whether rule `a` ranks strictly higher than rule `b` on conflict: its
/// layer has higher priority, or the same priority and it is longer.
pub open spec fn strictly_outranks(a: Tagged, b: Tagged) -> bool {
    layer_rank(a.0) > layer_rank(b.0) || (layer_rank(a.0) == layer_rank(b.0) && a.1.len()
        > b.1.len())
}

/// Whether a deny rule blocks the normalized command `ncmd`: its normal form begins it.
pub open spec fn deny_hit(ncmd: Seq<char>) -> spec_fn(Tagged) -> bool {
    |x: Tagged| normalized_command(x.1).is_prefix_of(ncmd)
}

/// Whether an allow rule covers `command` word by word.
pub open spec fn allow_hit(command: Seq<char>) -> spec_fn(Tagged) -> bool {
    |x: Tagged| rule_matches(x.1, command)
}

/// The rule of `list` that `hit` selects and that wins on conflict: from the
/// highest-priority layer with such a rule, the longest; of equally long
/// ones in that layer, the first.
pub open spec fn best_match(list: Seq<Tagged>, hit: spec_fn(Tagged) -> bool) -> Option<Tagged>
    decreases list.len(),
{
    if list.len() == 0 {
        None
    } else {
        let prev = best_match(list.drop_last(), hit);
        let x = list.last();
        if hit(x) && match prev {
            None => true,
            Some(p) => strictly_outranks(x, p),
        } {
            Some(x)
        } else {
            prev
        }
    }
}

/// The text of an optional tagged rule.
pub open spec fn rule_text(o: Option<Tagged>) -> Option<Seq<char>> {
    match o {
        Some(x) => Some(x.1),
        None => None,
    }
}

/// The tool of a check: the one given, or `exec_shell`.
pub open spec fn tool_of(t: Option<Seq<char>>) -> Seq<char> {
    match t {
        Some(x) => x,
        None => "exec_shell"@,
    }
}

/// Whether an ask rule applies to a check: same tool, its command (if it
/// has one) covers the check's command, and its path (if it has one) has
/// the normal form of the check's path.
pub open spec fn ask_matches(r: AskRuleView, c: ContextView) -> bool {
    &&& r.tool == tool_of(c.tool)
    &&& match r.command {
        Some(cmd) => rule_matches(cmd, c.command),
        None => true,
    }
    &&& match (r.path, c.path) {
        (Some(p), Some(q)) => normalized_path(p) == normalized_path(q),
        (Some(_), None) => false,
        (None, _) => true,
    }
}

/// The length in bytes of the UTF-8 encoding of a text.
pub open spec fn byte_len(s: Seq<char>) -> int {
    (vstd::utf8::encode_utf8(s).len() as usize) as int
}

/// How specific an ask rule is: the byte lengths of its parts, plus 1000
/// for a command and 1000 for a path.
pub open spec fn ask_specificity(r: AskRuleView) -> int {
    byte_len(r.tool) + match r.command {
        Some(c) => byte_len(c) + 1000,
        None => 0,
    } + match r.path {
        Some(p) => byte_len(p) + 1000,
        None => 0,
    }
}

/// The most specific ask rule of `rules` that applies to `c`; of equally
/// specific ones, the last.
pub open spec fn best_ask(rules: Seq<AskRuleView>, c: ContextView) -> Option<AskRuleView>
    decreases rules.len(),
{
    if rules.len() == 0 {
        None
    } else {
        let prev = best_ask(rules.drop_last(), c);
        let x = rules.last();
        if ask_matches(x, c) && match prev {
            None => true,
            Some(p) => ask_specificity(p) <= ask_specificity(x),
        } {
            Some(x)
        } else {
            prev
        }
    }
}

/// The reason given when a deny prefix blocks a command.
pub open spec fn deny_reason(rule: Seq<char>) -> Seq<char> {
    "Command blocked by denied prefix rule '"@ + rule + "'"@
}

/// The reason given when an ask rule blocks a command in `Never` mode.
pub open spec fn never_reason(label: Seq<char>) -> Seq<char> {
    "Typed ask rule '"@ + label + "' requires approval, but approval policy is never."@
}

/// A requirement that lets the command run with no approval.
pub open spec fn skip_requirement() -> RequirementView {
    RequirementView::Skip { bypass_sandbox: false, amendment: None }
}

/// What a command that no deny prefix blocks requires, given the approval
/// mode, whether an allow prefix covers it, and the ask rule that applies.
pub open spec fn requirement_for(
    mode: AskForApproval,
    trusted: bool,
    ask: Option<AskRuleView>,
    c: ContextView,
) -> RequirementView {
    if mode is Never {
        match ask {
            Some(a) => RequirementView::Forbidden { reason: never_reason(label_of(a)) },
            None => skip_requirement(),
        }
    } else if (mode is UnlessTrusted && trusted) || mode is OnFailure {
        skip_requirement()
    } else if mode matches AskForApproval::Reject { rules, .. } && rules {
        RequirementView::Forbidden { reason: "Policy is configured to reject rule-exceptions."@ }
    } else {
        RequirementView::NeedsApproval {
            reason: if trusted {
                "Approval requested by policy mode."@
            } else {
                "Unmatched command prefix requires approval."@
            },
            amendment: if trusted {
                None
            } else {
                Some(seq![first_word(c.command)])
            },
            network: seq![
                NetworkAmendmentView { host: c.cwd, action: NetworkPolicyRuleAction::Allow },
            ],
        }
    }
}

/// The decision of the engine `e` on the check `c`.
///
/// A deny prefix that begins the command (both in normal form) forbids it,
/// whatever the layer, mode or other rules; the deny prefix reported is the
/// one that wins on conflict (see [`best_match`]). Otherwise the approval
/// mode, whether an allow prefix covers the command, and (in `Never` mode
/// only) the most specific ask rule that applies decide the requirement;
/// the allow prefix reported is again the one that wins on conflict.
pub open spec fn decide(e: EngineView, c: ContextView) -> DecisionView {
    match best_match(all_denied(e), deny_hit(normalized_command(c.command))) {
        Some(d) => DecisionView {
            allow: false,
            requires_approval: false,
            requirement: RequirementView::Forbidden { reason: deny_reason(d.1) },
            matched_rule: Some(d.1),
        },
        None => {
            let tr = best_match(all_trusted(e), allow_hit(c.command));
            let ask = best_ask(layered_asks(e.rulesets), c);
            let req = requirement_for(c.ask, tr is Some, ask, c);
            DecisionView {
                allow: !(req is Forbidden),
                requires_approval: req is NeedsApproval,
                requirement: req,
                matched_rule: if c.ask is Never && ask is Some {
                    Some(label_of(ask->0))
                } else {
                    rule_text(tr)
                },
            }
        },
    }
}

/// An engine with no rulesets, the given legacy lists and no approvals.
pub open spec fn legacy_engine(trusted: Seq<Seq<char>>, denied: Seq<Seq<char>>) -> EngineView {
    EngineView { rulesets: Seq::empty(), trusted, denied, approved: Set::empty() }
}

/// The views of a sequence of tagged texts.
pub open spec fn tagged_view(v: Seq<(RulesetLayer, String)>) -> Seq<Tagged> {
    v.map_values(|p: (RulesetLayer, String)| (p.0, p.1@))
}

/// Appends the texts of `src`, tagged with the layer `l`, to `dst`.
fn extend_tagged(dst: &mut Vec<(RulesetLayer, String)>, src: &Vec<String>, l: RulesetLayer)
    ensures
        tagged_view(final(dst)@) == tagged_view(old(dst)@) + tag(l, texts_view(src@)),
{
    let ghost d0 = dst@;
    let mut j: usize = 0;
    while j < src.len()
        invariant
            j <= src@.len(),
            tagged_view(dst@) == tagged_view(d0) + tag(l, texts_view(src@.take(j as int))),
        decreases src.len() - j,
    {
        let ghost before = dst@;
        dst.push((l, src[j].clone()));
        proof {
            assert(tagged_view(dst@) =~= tagged_view(before).push((l, src@[j as int]@)));
            assert(tag(l, texts_view(src@.take(j + 1))) =~= tag(l, texts_view(src@.take(j as int))).push(
                (l, src@[j as int]@),
            ));
        }
        j = j + 1;
    }
    proof {
        assert(src@.take(src@.len() as int) =~= src@);
    }
}

impl ExecPolicyEngine {
    /// An engine with the given legacy allow and deny prefixes and no rulesets.
    pub fn new(trusted_prefixes: Vec<String>, denied_prefixes: Vec<String>) -> (r: Self)
        ensures
            r@ == legacy_engine(texts_view(trusted_prefixes@), texts_view(denied_prefixes@)),
    {
        let r = ExecPolicyEngine {
            rulesets: Vec::new(),
            trusted_prefixes,
            denied_prefixes,
            approved_for_session: Vec::new(),
            arity_dict: BashArityDict::new(),
        };
        proof {
            assert(rulesets_view(r.rulesets@) =~= Seq::<RulesetView>::empty());
            assert(texts_view(r.approved_for_session@).to_set() =~= Set::<Seq<char>>::empty());
        }
        r
    }

    /// An engine built from layered rulesets, sorted by layer.
    pub fn with_rulesets(rulesets: Vec<Ruleset>) -> (r: Self)
        ensures
            r@ == (EngineView {
                rulesets: by_layer(rulesets_view(rulesets@)),
                trusted: Seq::empty(),
                denied: Seq::empty(),
                approved: Set::empty(),
            }),
            layer_sorted(r@.rulesets),
    {
        proof {
            law_by_layer_sorted(rulesets_view(rulesets@));
        }
        let sorted = sort_by_layer(rulesets);
        let r = ExecPolicyEngine {
            rulesets: sorted,
            trusted_prefixes: Vec::new(),
            denied_prefixes: Vec::new(),
            approved_for_session: Vec::new(),
            arity_dict: BashArityDict::new(),
        };
        proof {
            assert(texts_view(r.trusted_prefixes@) =~= Seq::<Seq<char>>::empty());
            assert(texts_view(r.denied_prefixes@) =~= Seq::<Seq<char>>::empty());
            assert(texts_view(r.approved_for_session@).to_set() =~= Set::<Seq<char>>::empty());
        }
        r
    }

    /// Adds a ruleset layer and sorts the layers again.
    pub fn add_ruleset(&mut self, ruleset: Ruleset)
        ensures
            final(self)@ == (EngineView {
                rulesets: by_layer(old(self)@.rulesets.push(ruleset@)),
                ..old(self)@
            }),
            layer_sorted(final(self)@.rulesets),
    {
        proof {
            law_by_layer_sorted(old(self)@.rulesets.push(ruleset@));
        }
        let mut rs = Vec::new();
        std::mem::swap(&mut rs, &mut self.rulesets);
        let ghost before = rs@;
        rs.push(ruleset);
        proof {
            assert(rulesets_view(rs@) =~= rulesets_view(before).push(ruleset@));
        }
        self.rulesets = sort_by_layer(rs);
    }

    /// Remembers an approval key for the rest of the session.
    pub fn remember_session_approval(&mut self, approval_key: String)
        ensures
            final(self)@ == (EngineView {
                approved: old(self)@.approved.insert(approval_key@),
                ..old(self)@
            }),
    {
        let ghost before = self.approved_for_session@;
        if !self.is_session_approved(approval_key.as_str()) {
            self.approved_for_session.push(approval_key);
            proof {
                assert(texts_view(self.approved_for_session@) =~= texts_view(before).push(
                    approval_key@,
                ));
                let ks = texts_view(self.approved_for_session@);
                let k0 = texts_view(before);
                assert(ks == k0.push(approval_key@));
                assert forall|a: Seq<char>| ks.contains(a) == k0.to_set().insert(
                    approval_key@,
                ).contains(a) by {
                    if ks.contains(a) {
                        let m = choose|m: int| 0 <= m < ks.len() && ks[m] == a;
                        if m < k0.len() {
                            assert(k0[m] == a);
                        }
                    }
                    if k0.contains(a) {
                        let m = choose|m: int| 0 <= m < k0.len() && k0[m] == a;
                        assert(ks[m] == a);
                    }
                    if a == approval_key@ {
                        assert(ks[k0.len() as int] == a);
                    }
                }
                assert(ks.to_set() =~= k0.to_set().insert(approval_key@));
            }
        } else {
            proof {
                assert(texts_view(before).to_set().insert(approval_key@) =~= texts_view(
                    before,
                ).to_set());
            }
        }
    }

    /// Whether an approval key was remembered for the session.
    pub fn is_session_approved(&self, approval_key: &str) -> (r: bool)
        ensures
            r == self@.approved.contains(approval_key@),
    {
        let key = approval_key.to_owned();
        let ghost ks = texts_view(self.approved_for_session@);
        let mut i: usize = 0;
        while i < self.approved_for_session.len()
            invariant
                i <= self.approved_for_session@.len(),
                ks == texts_view(self.approved_for_session@),
                key@ == approval_key@,
                forall|m: int| 0 <= m < i ==> #[trigger] ks[m] != key@,
            decreases self.approved_for_session.len() - i,
        {
            if self.approved_for_session[i] == key {
                proof {
                    assert(ks[i as int] == key@);
                    assert(ks.contains(key@));
                }
                return true;
            }
            i = i + 1;
        }
        proof {
            assert(!ks.contains(key@));
        }
        false
    }
}

/// The deny rule of `list` that blocks `normalized` and wins on conflict
/// (see [`best_match`]).
fn find_denied(list: &Vec<(RulesetLayer, String)>, normalized: &Vec<char>) -> (r: Option<String>)
    ensures
        crate::rules::opt_text_view(r) == rule_text(
            best_match(tagged_view(list@), deny_hit(normalized@)),
        ),
{
    let ghost lv = tagged_view(list@);
    let ghost hit = deny_hit(normalized@);
    let mut best: Option<usize> = None;
    let mut best_rank: u8 = 0;
    let mut best_len: usize = 0;
    let mut i: usize = 0;
    proof {
        assert(lv.take(0) =~= Seq::<Tagged>::empty());
    }
    while i < list.len()
        invariant
            i <= list@.len(),
            lv == tagged_view(list@),
            hit == deny_hit(normalized@),
            match best {
                Some(k) => k < i && best_match(lv.take(i as int), hit) == Some(lv[k as int])
                    && best_rank == layer_rank(lv[k as int].0) && best_len == lv[k as int].1.len(),
                None => best_match(lv.take(i as int), hit) is None,
            },
        decreases list.len() - i,
    {
        proof {
            assert(lv.take(i + 1).drop_last() =~= lv.take(i as int));
            assert(lv.take(i + 1).last() == lv[i as int]);
            assert(lv[i as int] == (list@[i as int].0, list@[i as int].1@));
        }
        let nr = normalize_command(list[i].1.as_str());
        if is_prefix(&nr, normalized) {
            let r = rank_of(list[i].0);
            let n = list[i].1.as_str().unicode_len();
            if best.is_none() || r > best_rank || (r == best_rank && n > best_len) {
                best = Some(i);
                best_rank = r;
                best_len = n;
            }
        }
        i = i + 1;
    }
    proof {
        assert(lv.take(i as int) =~= lv);
    }
    match best {
        Some(k) => Some(list[k].1.clone()),
        None => None,
    }
}

/// Computes the specificity of an ask rule (see [`ask_specificity`]).
fn ask_rule_specificity(rule: &ToolAskRule) -> (r: u128)
    ensures
        r == ask_specificity(rule@),
{
    let t = rule.tool.as_str().len() as u128;
    let c: u128 = match &rule.command {
        Some(command) => command.as_str().len() as u128 + 1000,
        None => 0,
    };
    let p: u128 = match &rule.path {
        Some(path) => path.as_str().len() as u128 + 1000,
        None => 0,
    };
    t + c + p
}

impl ExecPolicyEngine {
    /// Every allow and every deny prefix in force, each with its layer:
    /// those of all layers in layer order, then those of the legacy lists,
    /// which count as the user layer.
    fn resolve_prefixes(&self) -> (r: (Vec<(RulesetLayer, String)>, Vec<(RulesetLayer, String)>))
        ensures
            tagged_view(r.0@) == all_trusted(self@),
            tagged_view(r.1@) == all_denied(self@),
    {
        let mut trusted: Vec<(RulesetLayer, String)> = Vec::new();
        let mut denied: Vec<(RulesetLayer, String)> = Vec::new();
        let ghost rv = rulesets_view(self.rulesets@);
        proof {
            assert(rv.take(0) =~= Seq::<RulesetView>::empty());
            assert(tagged_view(trusted@) =~= Seq::<Tagged>::empty());
            assert(tagged_view(denied@) =~= Seq::<Tagged>::empty());
        }
        let mut i: usize = 0;
        while i < self.rulesets.len()
            invariant
                i <= self.rulesets@.len(),
                rv == rulesets_view(self.rulesets@),
                tagged_view(trusted@) == layered_trusted(rv.take(i as int)),
                tagged_view(denied@) == layered_denied(rv.take(i as int)),
            decreases self.rulesets.len() - i,
        {
            let rs = &self.rulesets[i];
            extend_tagged(&mut trusted, &rs.trusted_prefixes, rs.layer);
            extend_tagged(&mut denied, &rs.denied_prefixes, rs.layer);
            proof {
                assert(rv[i as int] == rs@);
                assert(rv.take(i + 1).drop_last() =~= rv.take(i as int));
            }
            i = i + 1;
        }
        proof {
            assert(rv.take(i as int) =~= rv);
        }
        extend_tagged(&mut trusted, &self.trusted_prefixes, RulesetLayer::User);
        extend_tagged(&mut denied, &self.denied_prefixes, RulesetLayer::User);
        (trusted, denied)
    }

    /// The allow rule of `list` that covers `command` and wins on conflict
    /// (see [`best_match`]).
    fn find_trusted(&self, list: &Vec<(RulesetLayer, String)>, command: &str) -> (r: Option<String>)
        ensures
            crate::rules::opt_text_view(r) == rule_text(
                best_match(tagged_view(list@), allow_hit(command@)),
            ),
    {
        let ghost lv = tagged_view(list@);
        let ghost hit = allow_hit(command@);
        let mut best: Option<usize> = None;
        let mut best_rank: u8 = 0;
        let mut best_len: usize = 0;
        let mut i: usize = 0;
        proof {
            assert(lv.take(0) =~= Seq::<Tagged>::empty());
        }
        while i < list.len()
            invariant
                i <= list@.len(),
                lv == tagged_view(list@),
                hit == allow_hit(command@),
                match best {
                    Some(k) => k < i && best_match(lv.take(i as int), hit) == Some(lv[k as int])
                        && best_rank == layer_rank(lv[k as int].0) && best_len
                        == lv[k as int].1.len(),
                    None => best_match(lv.take(i as int), hit) is None,
                },
            decreases list.len() - i,
        {
            proof {
                assert(lv.take(i + 1).drop_last() =~= lv.take(i as int));
                assert(lv.take(i + 1).last() == lv[i as int]);
                assert(lv[i as int] == (list@[i as int].0, list@[i as int].1@));
            }
            if self.arity_dict.allow_rule_matches(list[i].1.as_str(), command) {
                let r = rank_of(list[i].0);
                let n = list[i].1.as_str().unicode_len();
                if best.is_none() || r > best_rank || (r == best_rank && n > best_len) {
                    best = Some(i);
                    best_rank = r;
                    best_len = n;
                }
            }
            i = i + 1;
        }
        proof {
            assert(lv.take(i as int) =~= lv);
        }
        match best {
            Some(k) => Some(list[k].1.clone()),
            None => None,
        }
    }

    /// Whether `rule` applies to the check `ctx`, given the check's tool
    /// and the normal form of its path.
    fn ask_rule_applies(
        &self,
        rule: &ToolAskRule,
        ctx: &ExecPolicyContext,
        tool: &Vec<char>,
        npath: &Option<Vec<char>>,
    ) -> (r: bool)
        requires
            tool@ == tool_of(ctx@.tool),
            match npath {
                Some(v) => ctx@.path is Some && v@ == normalized_path(ctx@.path->0),
                None => ctx@.path is None,
            },
        ensures
            r == ask_matches(rule@, ctx@),
    {
        let rt = chars_of(rule.tool.as_str());
        if !chars_equal(&rt, tool) {
            return false;
        }
        let command_ok = match &rule.command {
            Some(command) => self.arity_dict.allow_rule_matches(command.as_str(), ctx.command),
            None => true,
        };
        if !command_ok {
            return false;
        }
        match (&rule.path, npath) {
            (Some(pattern), Some(p)) => {
                let np = normalize_path_value(pattern.as_str());
                chars_equal(&np, p)
            },
            (Some(_), None) => false,
            (None, _) => true,
        }
    }

    /// The most specific ask rule that applies to `ctx` (see [`best_ask`]).
    fn matching_ask_rule<'b>(&'b self, ctx: &ExecPolicyContext) -> (r: Option<&'b ToolAskRule>)
        ensures
            match r {
                Some(x) => Some(x@),
                None => None,
            } == best_ask(layered_asks(self@.rulesets), ctx@),
    {
        let tool_str: &str = match ctx.tool {
            Some(t) => t,
            None => "exec_shell",
        };
        let tool = chars_of(tool_str);
        let npath: Option<Vec<char>> = match ctx.path {
            Some(p) => Some(normalize_path_value(p)),
            None => None,
        };
        let ghost rv = rulesets_view(self.rulesets@);
        let ghost c = ctx@;
        let mut best: Option<&'b ToolAskRule> = None;
        let mut best_key: u128 = 0;
        proof {
            assert(rv.take(0) =~= Seq::<RulesetView>::empty());
        }
        let mut i: usize = 0;
        while i < self.rulesets.len()
            invariant
                i <= self.rulesets@.len(),
                rv == rulesets_view(self.rulesets@),
                c == ctx@,
                tool@ == tool_of(ctx@.tool),
                match npath {
                    Some(v) => ctx@.path is Some && v@ == normalized_path(ctx@.path->0),
                    None => ctx@.path is None,
                },
                match best {
                    Some(x) => Some(x@),
                    None => None,
                } == best_ask(layered_asks(rv.take(i as int)), c),
                best matches Some(x) ==> best_key == ask_specificity(x@),
            decreases self.rulesets.len() - i,
        {
            let rules = &self.rulesets[i].ask_rules;
            let ghost done = layered_asks(rv.take(i as int));
            let ghost av = rules@.map_values(|r: ToolAskRule| r@);
            proof {
                assert(done + av.take(0) =~= done);
            }
            let mut j: usize = 0;
            while j < rules.len()
                invariant
                    j <= rules@.len(),
                    av == rules@.map_values(|r: ToolAskRule| r@),
                    tool@ == tool_of(ctx@.tool),
                    c == ctx@,
                    match npath {
                        Some(v) => ctx@.path is Some && v@ == normalized_path(ctx@.path->0),
                        None => ctx@.path is None,
                    },
                    match best {
                        Some(x) => Some(x@),
                        None => None,
                    } == best_ask(done + av.take(j as int), c),
                    best matches Some(x) ==> best_key == ask_specificity(x@),
                decreases rules.len() - j,
            {
                let rule = &rules[j];
                proof {
                    assert((done + av.take(j + 1)).drop_last() =~= done + av.take(j as int));
                    assert((done + av.take(j + 1)).last() == rule@);
                }
                if self.ask_rule_applies(rule, ctx, &tool, &npath) {
                    let key = ask_rule_specificity(rule);
                    if best.is_none() || key >= best_key {
                        best = Some(rule);
                        best_key = key;
                    }
                }
                j = j + 1;
            }
            proof {
                assert(av.take(rules@.len() as int) =~= av);
                assert(rv[i as int].ask_rules == av);
                assert(rv.take(i + 1).drop_last() =~= rv.take(i as int));
            }
            i = i + 1;
        }
        proof {
            assert(rv.take(i as int) =~= rv);
        }
        best
    }
}

impl ExecPolicyEngine {
    /// Decides what the command of `ctx` requires before it runs (see [`decide`]).
    pub fn check(&self, ctx: ExecPolicyContext<'_>) -> (d: ExecPolicyDecision)
        ensures
            d@ == decide(self@, ctx@),
    {
        let normalized = normalize_command(ctx.command);
        let (trusted_prefixes, denied_prefixes) = self.resolve_prefixes();
        // Deny rules use plain prefix matching on normal forms.
        if let Some(rule) = find_denied(&denied_prefixes, &normalized) {
            let mut reason = "Command blocked by denied prefix rule '".to_owned();
            reason.append(rule.as_str());
            reason.append("'");
            return ExecPolicyDecision {
                allow: false,
                requires_approval: false,
                matched_rule: Some(rule),
                requirement: ExecApprovalRequirement::Forbidden { reason },
            };
        }
        // Allow rules match word by word, so that `git status` covers
        // `git status -s` but not `git push origin main`.

        let trusted_rule = self.find_trusted(&trusted_prefixes, ctx.command);
        let is_trusted = trusted_rule.is_some();
        let ask_rule = self.matching_ask_rule(&ctx);
        let ghost c = ctx@;
        let ghost ask_view = match ask_rule {
            Some(x) => Some(x@),
            None => None,
        };
        let requirement = match &ctx.ask_for_approval {
            AskForApproval::Never => {
                match ask_rule {
                    Some(rule) => {
                        let mut reason = "Typed ask rule '".to_owned();
                        let label = rule.label();
                        reason.append(label.as_str());
                        reason.append("' requires approval, but approval policy is never.");
                        ExecApprovalRequirement::Forbidden { reason }
                    },
                    None => ExecApprovalRequirement::Skip {
                        bypass_sandbox: false,
                        proposed_execpolicy_amendment: None,
                    },
                }
            },
            AskForApproval::UnlessTrusted if is_trusted => ExecApprovalRequirement::Skip {
                bypass_sandbox: false,
                proposed_execpolicy_amendment: None,
            },
            AskForApproval::OnFailure => ExecApprovalRequirement::Skip {
                bypass_sandbox: false,
                proposed_execpolicy_amendment: None,
            },
            AskForApproval::Reject { rules, .. } if *rules => ExecApprovalRequirement::Forbidden {
                reason: "Policy is configured to reject rule-exceptions.".to_owned(),
            },
            _ => {
                let reason = if is_trusted {
                    "Approval requested by policy mode.".to_owned()
                } else {
                    "Unmatched command prefix requires approval.".to_owned()
                };
                let amendment = if is_trusted {
                    None
                } else {
                    let mut prefixes: Vec<String> = Vec::new();
                    prefixes.push(first_token(ctx.command));
                    proof {
                        assert(texts_view(prefixes@) =~= seq![first_word(c.command)]);
                    }
                    Some(ExecPolicyAmendment { prefixes })
                };
                let mut network: Vec<NetworkPolicyAmendment> = Vec::new();
                network.push(
                    NetworkPolicyAmendment {
                        host: ctx.cwd.to_owned(),
                        action: NetworkPolicyRuleAction::Allow,
                    },
                );
                proof {
                    assert(network@.map_values(|a: NetworkPolicyAmendment| a@) =~= seq![
                        NetworkAmendmentView { host: c.cwd, action: NetworkPolicyRuleAction::Allow },
                    ]);
                }
                ExecApprovalRequirement::NeedsApproval {
                    reason,
                    proposed_execpolicy_amendment: amendment,
                    proposed_network_policy_amendments: network,
                }
            },
        };
        assert(requirement@ == requirement_for(c.ask, is_trusted, ask_view, c));
        let (allow, requires_approval) = match &requirement {
            ExecApprovalRequirement::Skip { .. } => (true, false),
            ExecApprovalRequirement::NeedsApproval { .. } => (true, true),
            ExecApprovalRequirement::Forbidden { .. } => (false, false),
        };
        let matched_ask_rule: Option<String> = match &ctx.ask_for_approval {
            AskForApproval::Never => match ask_rule {
                Some(rule) => Some(rule.label()),
                None => None,
            },
            _ => None,
        };
        let matched_rule = match matched_ask_rule {
            Some(label) => Some(label),
            None => trusted_rule,
        };
        ExecPolicyDecision { allow, requires_approval, matched_rule, requirement }
    }
}

impl Default for ExecPolicyEngine {
    fn default() -> (r: Self)
        ensures
            r@ == legacy_engine(Seq::empty(), Seq::empty()),
    {
        let t: Vec<String> = Vec::new();
        let d: Vec<String> = Vec::new();
        proof {
            assert(texts_view(t@) =~= Seq::<Seq<char>>::empty());
            assert(texts_view(d@) =~= Seq::<Seq<char>>::empty());
        }
        ExecPolicyEngine::new(t, d)
    }
}

} // verus!
