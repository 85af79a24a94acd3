//! Audit of egress groups: what to probe for each enabled rule, the result
//! of each rule once probed, and the aggregate of each group.

use vstd::prelude::*;
use vstd::string::*;
use crate::egress::{enabled_rules, group_views, rule_enabled_pred, EgressGroup, EgressRule, GroupView};
use crate::filters::lemma_filter_membership;
use crate::target::{build_conn_string, destination, is_host_port, is_valid_destination};
use crate::text::str_eq;

verus! {

/// Protocol value of a connection-oriented probe.
pub const TCP: &'static str = "tcp";

/// Protocol value of a connectionless probe.
pub const UDP: &'static str = "udp";

/// Diagnostic for a destination that is not of the form `host:port`.
pub const INVALID_ADDRESS: &'static str = "invalid socket address syntax";

/// Diagnostic for a protocol that no probe handles; the protocol follows it.
pub const UNSUPPORTED_PROTOCOL: &'static str = "protocol not supported: ";

/// Diagnostic for a check that failed without saying why.
pub const CHECK_FAILED: &'static str = "check failed";

/// Outcome of one rule.
#[derive(Debug, PartialEq, Eq, Structural, PartialOrd, Ord, Clone, Copy)]
pub enum ConnCheckResult {
    Pass,
    Fail,
}

/// Aggregate of one audited group.
#[derive(Debug)]
pub struct EgressGroupResult {
    /// Share of the attempted rules that passed, in percent, rounded.
    pub pass_pct: i8,
    /// The failed rules, in rule order; empty (never absent) when all passed.
    pub failed_checks: Option<Vec<EgressRuleResult>>,
}

/// Outcome of one rule, with a diagnostic when it failed.
#[derive(Debug)]
pub struct EgressRuleResult {
    pub name: String,
    pub result: ConnCheckResult,
    pub err_msg: Option<String>,
}

impl Clone for EgressRuleResult {
    fn clone(&self) -> (r: Self)
        ensures
            r == *self,
    {
        let err_msg = match &self.err_msg {
            Some(e) => Some(e.clone()),
            None => None,
        };
        EgressRuleResult { name: self.name.clone(), result: self.result, err_msg }
    }
}

/// The probe that a rule asks for.
#[derive(Debug, PartialEq, Eq, Structural, Clone, Copy)]
pub enum Transport {
    /// Connect, then close at once.
    Tcp,
    /// Bind a local endpoint and associate it with the destination.
    Udp,
}

/// What to do for one enabled rule.
#[derive(Debug)]
pub enum CheckAction {
    /// Probe `dest` with `transport`.
    Probe { transport: Transport, dest: String },
    /// No probe: the rule fails with `reason`.
    Reject { reason: String },
}

/// The check of one enabled rule.
#[derive(Debug)]
pub struct PlannedCheck {
    pub name: String,
    pub action: CheckAction,
}

/// The checks of one enabled group, one per enabled rule, in rule order.
#[derive(Debug)]
pub struct GroupPlan {
    pub name: String,
    pub checks: Vec<PlannedCheck>,
}

pub enum ActionView {
    Probe { transport: Transport, dest: Seq<char> },
    Reject { reason: Seq<char> },
}

pub struct CheckView {
    pub name: Seq<char>,
    pub action: ActionView,
}

pub struct GroupPlanView {
    pub name: Seq<char>,
    pub checks: Seq<CheckView>,
}

impl View for CheckAction {
    type V = ActionView;

    open spec fn view(&self) -> ActionView {
        match self {
            CheckAction::Probe { transport, dest } => ActionView::Probe {
                transport: *transport,
                dest: dest@,
            },
            CheckAction::Reject { reason } => ActionView::Reject { reason: reason@ },
        }
    }
}

impl View for PlannedCheck {
    type V = CheckView;

    open spec fn view(&self) -> CheckView {
        CheckView { name: self.name@, action: self.action@ }
    }
}

pub open spec fn check_views(checks: Seq<PlannedCheck>) -> Seq<CheckView> {
    checks.map_values(|c: PlannedCheck| c@)
}

impl View for GroupPlan {
    type V = GroupPlanView;

    open spec fn view(&self) -> GroupPlanView {
        GroupPlanView { name: self.name@, checks: check_views(self.checks@) }
    }
}

/// The probe for a protocol value, if one handles it.
pub open spec fn transport_of(protocol: Seq<char>) -> Option<Transport> {
    if protocol == TCP@ {
        Some(Transport::Tcp)
    } else if protocol == UDP@ {
        Some(Transport::Udp)
    } else {
        None
    }
}

/// What a rule asks for: a rule whose destination is not `host:port` fails
/// unprobed; else one with a known protocol is probed; else it fails as
/// unsupported.
pub open spec fn planned_action(rule: EgressRule, ccp: Seq<char>, region: Seq<char>) -> ActionView {
    let dest = destination(rule, ccp, region);
    if !is_host_port(dest) {
        ActionView::Reject { reason: INVALID_ADDRESS@ }
    } else {
        match transport_of(rule.protocol@) {
            Some(t) => ActionView::Probe { transport: t, dest },
            None => ActionView::Reject { reason: UNSUPPORTED_PROTOCOL@ + rule.protocol@ },
        }
    }
}

pub open spec fn planned_check(rule: EgressRule, ccp: Seq<char>, region: Seq<char>) -> CheckView {
    CheckView { name: rule.name@, action: planned_action(rule, ccp, region) }
}

/// The checks of a sequence of rules: one per enabled rule, in order.
pub open spec fn planned_checks(rules: Seq<EgressRule>, ccp: Seq<char>, region: Seq<char>) -> Seq<
    CheckView,
> {
    enabled_rules(rules).map_values(|r: EgressRule| planned_check(r, ccp, region))
}

/// Decides what to do for `rule`, for control-plane address `ccp` and
/// deployment region `vm_region`.
pub fn plan_rule(rule: &EgressRule, ccp: &str, vm_region: &str) -> (r: PlannedCheck)
    ensures
        r@ == planned_check(*rule, ccp@, vm_region@),
{
    let dest = build_conn_string(rule, ccp, vm_region);
    let action = if !is_valid_destination(dest.as_str()) {
        CheckAction::Reject { reason: INVALID_ADDRESS.to_owned() }
    } else if str_eq(rule.protocol.as_str(), TCP) {
        CheckAction::Probe { transport: Transport::Tcp, dest }
    } else if str_eq(rule.protocol.as_str(), UDP) {
        CheckAction::Probe { transport: Transport::Udp, dest }
    } else {
        let mut reason = UNSUPPORTED_PROTOCOL.to_owned();
        reason.append(rule.protocol.as_str());
        CheckAction::Reject { reason }
    };
    PlannedCheck { name: rule.name.clone(), action }
}

/// The checks of `group`: one for each enabled rule, in rule order; disabled
/// rules get none.
pub fn plan_group(group: &EgressGroup, ccp: &str, vm_region: &str) -> (r: GroupPlan)
    ensures
        r@ == (GroupPlanView {
            name: group.name@,
            checks: planned_checks(group.rules@, ccp@, vm_region@),
        }),
{
    let ghost rules = group.rules@;
    let ghost f = |r: EgressRule| planned_check(r, ccp@, vm_region@);
    let mut checks: Vec<PlannedCheck> = Vec::new();
    let mut i: usize = 0;
    while i < group.rules.len()
        invariant
            i <= rules.len(),
            rules == group.rules@,
            f == (|r: EgressRule| planned_check(r, ccp@, vm_region@)),
            check_views(checks@) == enabled_rules(rules.subrange(0, i as int)).map_values(f),
        decreases rules.len() - i,
    {
        let rule = &group.rules[i];
        proof {
            reveal(Seq::filter);
            assert(rules.subrange(0, i + 1).drop_last() =~= rules.subrange(0, i as int));
        }
        if rule.rule_enabled {
            let ghost before = checks@;
            let c = plan_rule(rule, ccp, vm_region);
            checks.push(c);
            let ghost prev = enabled_rules(rules.subrange(0, i as int));
            assert(rules.subrange(0, i + 1).last() == rules[i as int]);
            assert(enabled_rules(rules.subrange(0, i + 1)) == prev.push(rules[i as int]));
            assert(prev.push(rules[i as int]).map_values(f) =~= prev.map_values(f).push(
                f(rules[i as int]),
            ));
            assert(check_views(checks@) =~= check_views(before).push(c@));
        } else {
            assert(enabled_rules(rules.subrange(0, i + 1)) == enabled_rules(
                rules.subrange(0, i as int),
            ));
        }
        i = i + 1;
    }
    assert(rules.subrange(0, rules.len() as int) =~= rules);
    GroupPlan { name: group.name.clone(), checks }
}

pub open spec fn group_enabled_pred() -> spec_fn(GroupView) -> bool {
    |g: GroupView| g.enabled
}

pub open spec fn group_plan_of(g: GroupView, ccp: Seq<char>, region: Seq<char>) -> GroupPlanView {
    GroupPlanView { name: g.name, checks: planned_checks(g.rules, ccp, region) }
}

/// The plans of a sequence of groups: one per enabled group, in order.
pub open spec fn planned_groups(groups: Seq<GroupView>, ccp: Seq<char>, region: Seq<char>) -> Seq<
    GroupPlanView,
> {
    groups.filter(group_enabled_pred()).map_values(|g: GroupView| group_plan_of(g, ccp, region))
}

pub open spec fn plan_views(plans: Seq<GroupPlan>) -> Seq<GroupPlanView> {
    plans.map_values(|p: GroupPlan| p@)
}

/// The plans of the audit: one for each enabled group, in group order;
/// disabled groups get none.
pub fn plan_audit(groups: &Vec<EgressGroup>, ccp: &str, vm_region: &str) -> (r: Vec<GroupPlan>)
    ensures
        plan_views(r@) == planned_groups(group_views(groups@), ccp@, vm_region@),
{
    let ghost gs = group_views(groups@);
    let ghost f = |g: GroupView| group_plan_of(g, ccp@, vm_region@);
    let mut plans: Vec<GroupPlan> = Vec::new();
    let mut i: usize = 0;
    while i < groups.len()
        invariant
            i <= gs.len(),
            gs == group_views(groups@),
            f == (|g: GroupView| group_plan_of(g, ccp@, vm_region@)),
            plan_views(plans@) == gs.subrange(0, i as int).filter(group_enabled_pred()).map_values(f),
        decreases gs.len() - i,
    {
        let group = &groups[i];
        proof {
            reveal(Seq::filter);
            assert(gs.subrange(0, i + 1).drop_last() =~= gs.subrange(0, i as int));
        }
        if group.enabled {
            let p = plan_group(group, ccp, vm_region);
            let ghost before = plans@;
            plans.push(p);
            let ghost prev = gs.subrange(0, i as int).filter(group_enabled_pred());
            assert(gs.subrange(0, i + 1).last() == gs[i as int]);
            assert(gs[i as int] == groups@[i as int]@);
            assert(gs.subrange(0, i + 1).filter(group_enabled_pred()) == prev.push(gs[i as int]));
            assert(prev.push(gs[i as int]).map_values(f) =~= prev.map_values(f).push(
                f(gs[i as int]),
            ));
            assert(plan_views(plans@) =~= plan_views(before).push(p@));
        }
        i = i + 1;
    }
    assert(gs.subrange(0, gs.len() as int) =~= gs);
    plans
}


pub open spec fn opt_view(o: Option<String>) -> Option<Seq<char>> {
    match o {
        Some(s) => Some(s@),
        None => None,
    }
}

/// The diagnostic of a failure whose cause reads `e`: `e` itself, or
/// `CHECK_FAILED` when `e` is empty.
pub open spec fn diagnostic(e: Seq<char>) -> Seq<char> {
    if e.len() == 0 {
        CHECK_FAILED@
    } else {
        e
    }
}

/// The result and diagnostic of a check: a rejected rule fails with its
/// reason; a probed rule passes when the probe reported no error, and else
/// fails with the probe's error (see `diagnostic`).
pub open spec fn expected_outcome(action: ActionView, probe_error: Option<Seq<char>>) -> (
    ConnCheckResult,
    Option<Seq<char>>,
) {
    match action {
        ActionView::Reject { reason } => (ConnCheckResult::Fail, Some(diagnostic(reason))),
        ActionView::Probe { .. } => match probe_error {
            None => (ConnCheckResult::Pass, None),
            Some(e) => (ConnCheckResult::Fail, Some(diagnostic(e))),
        },
    }
}

/// What a failed rule carries: a non-empty diagnostic; a passed rule carries
/// none.
pub open spec fn has_diagnostic_iff_failed(result: ConnCheckResult, err_msg: Option<Seq<char>>) -> bool {
    match result {
        ConnCheckResult::Fail => err_msg matches Some(m) && m.len() > 0,
        ConnCheckResult::Pass => err_msg is None,
    }
}

proof fn lemma_diagnostics_nonempty()
    ensures
        INVALID_ADDRESS@.len() > 0,
        UNSUPPORTED_PROTOCOL@.len() > 0,
        CHECK_FAILED@.len() > 0,
{
    reveal_strlit("invalid socket address syntax");
    reveal_strlit("protocol not supported: ");
    reveal_strlit("check failed");
}

/// A failure's diagnostic is never empty; a non-empty cause is kept as it is.
pub proof fn lemma_diagnostic_nonempty(e: Seq<char>)
    ensures
        diagnostic(e).len() > 0,
        e.len() > 0 ==> diagnostic(e) == e,
{
    lemma_diagnostics_nonempty();
}

/// A planned rejection reads its reason as given: the reason is never empty.
pub proof fn lemma_planned_reason_kept(rule: EgressRule, ccp: Seq<char>, region: Seq<char>)
    ensures
        planned_action(rule, ccp, region) matches ActionView::Reject { reason } ==> diagnostic(reason)
            == reason,
{
    lemma_diagnostics_nonempty();
}

fn fail_message(e: String) -> (r: String)
    ensures
        r@ == diagnostic(e@),
{
    if e.unicode_len() == 0 {
        CHECK_FAILED.to_owned()
    } else {
        e
    }
}

/// The result of `check`, given what its probe reported (`None`: the
/// connection was made; `Some(e)`: it failed with `e`). A rejected check
/// was never probed and ignores `probe_error`.
pub fn rule_result(check: &PlannedCheck, probe_error: Option<String>) -> (r: EgressRuleResult)
    ensures
        r.name@ == check@.name,
        (r.result, opt_view(r.err_msg)) == expected_outcome(check@.action, opt_view(probe_error)),
        has_diagnostic_iff_failed(r.result, opt_view(r.err_msg)),
{
    proof {
        lemma_diagnostics_nonempty();
    }
    let (result, err_msg) = match &check.action {
        CheckAction::Reject { reason } => (ConnCheckResult::Fail, Some(fail_message(reason.clone()))),
        CheckAction::Probe { .. } => match probe_error {
            None => (ConnCheckResult::Pass, None),
            Some(e) => (ConnCheckResult::Fail, Some(fail_message(e))),
        },
    };
    EgressRuleResult { name: check.name.clone(), result, err_msg }
}

pub open spec fn is_fail() -> spec_fn(EgressRuleResult) -> bool {
    |r: EgressRuleResult| r.result == ConnCheckResult::Fail
}

pub open spec fn is_pass() -> spec_fn(EgressRuleResult) -> bool {
    |r: EgressRuleResult| r.result == ConnCheckResult::Pass
}

/// The failed results, in order.
pub open spec fn failed_results(rs: Seq<EgressRuleResult>) -> Seq<EgressRuleResult> {
    rs.filter(is_fail())
}

/// How many results passed.
pub open spec fn passed_count(rs: Seq<EgressRuleResult>) -> nat {
    rs.filter(is_pass()).len()
}

/// `100 * passed / attempted` rounded to the nearest integer, halves upward;
/// 100 when nothing was attempted.
pub open spec fn pass_percentage(passed: int, attempted: int) -> int {
    if attempted == 0 {
        100
    } else {
        (200 * passed + attempted) / (2 * attempted)
    }
}

/// Every result either passed or failed.
proof fn lemma_pass_fail_split(rs: Seq<EgressRuleResult>)
    ensures
        failed_results(rs).len() + passed_count(rs) == rs.len(),
    decreases rs.len(),
{
    reveal(Seq::filter);
    if rs.len() > 0 {
        lemma_pass_fail_split(rs.drop_last());
    }
}

/// In every group, the failed checks number the attempted rules less the
/// passed ones, and the pass percentage lies between 0 and 100, being 100
/// when nothing was attempted.
pub proof fn lemma_group_accounting(rs: Seq<EgressRuleResult>)
    ensures
        failed_results(rs).len() == rs.len() - passed_count(rs),
        0 <= pass_percentage(passed_count(rs) as int, rs.len() as int) <= 100,
        rs.len() == 0 ==> pass_percentage(passed_count(rs) as int, rs.len() as int) == 100,
{
    lemma_pass_fail_split(rs);
    let p = passed_count(rs) as int;
    let a = rs.len() as int;
    if a > 0 {
        assert(0 <= (200 * p + a) / (2 * a) <= 100) by (nonlinear_arith)
            requires
                0 <= p <= a,
                a > 0,
        ;
    }
}

/// The aggregate of a group's rule results: the failed ones in order, and
/// the share that passed (see `pass_percentage`).
pub fn summarize_group(results: &Vec<EgressRuleResult>) -> (r: EgressGroupResult)
    ensures
        r.failed_checks matches Some(f) && f@ == failed_results(results@) && f@.len()
            == results@.len() - passed_count(results@),
        r.pass_pct == pass_percentage(passed_count(results@) as int, results@.len() as int),
        0 <= r.pass_pct <= 100,
{
    let ghost rs = results@;
    let mut failed: Vec<EgressRuleResult> = Vec::new();
    let mut passed: usize = 0;
    let mut i: usize = 0;
    while i < results.len()
        invariant
            i <= rs.len(),
            rs == results@,
            failed@ == rs.subrange(0, i as int).filter(is_fail()),
            passed == rs.subrange(0, i as int).filter(is_pass()).len(),
            passed <= i,
        decreases rs.len() - i,
    {
        proof {
            reveal(Seq::filter);
            assert(rs.subrange(0, i + 1).drop_last() =~= rs.subrange(0, i as int));
            assert(rs.subrange(0, i + 1).last() == rs[i as int]);
        }
        if results[i].result == ConnCheckResult::Pass {
            passed = passed + 1;
        } else {
            failed.push(results[i].clone());
        }
        i = i + 1;
    }
    assert(rs.subrange(0, rs.len() as int) =~= rs);
    proof {
        lemma_group_accounting(rs);
    }
    let n = results.len();
    let pct: i8 = if n == 0 {
        100
    } else {
        let a = n as u128;
        let p = passed as u128;
        let q = (200 * p + a) / (2 * a);
        assert(q <= 100) by (nonlinear_arith)
            requires
                p <= a,
                a > 0,
                q == (200 * p + a) / (2 * a),
        ;
        q as i8
    };
    EgressGroupResult { pass_pct: pct, failed_checks: Some(failed) }
}

/// A disabled rule gets no check, wherever it stands among the rules:
/// removing it leaves the checks as they were.
pub proof fn lemma_disabled_rule_unchecked(
    before: Seq<EgressRule>,
    rule: EgressRule,
    after: Seq<EgressRule>,
    ccp: Seq<char>,
    region: Seq<char>,
)
    requires
        !rule.rule_enabled,
    ensures
        planned_checks(before + seq![rule] + after, ccp, region) == planned_checks(
            before + after,
            ccp,
            region,
        ),
{
    let p = rule_enabled_pred();
    reveal(Seq::filter);
    Seq::filter_distributes_over_add(before + seq![rule], after, p);
    Seq::filter_distributes_over_add(before, seq![rule], p);
    Seq::filter_distributes_over_add(before, after, p);
    assert(!p(rule));
    assert(seq![rule].drop_last() =~= Seq::<EgressRule>::empty());
    assert(Seq::<EgressRule>::empty().filter(p) =~= Seq::<EgressRule>::empty());
    assert(seq![rule].last() == rule);
    assert(seq![rule].filter(p) =~= Seq::<EgressRule>::empty());
    assert(before.filter(p) + Seq::<EgressRule>::empty() =~= before.filter(p));
}

/// Some enabled rule among `rules` is named `name`.
pub open spec fn names_enabled_rule(rules: Seq<EgressRule>, name: Seq<char>) -> bool {
    exists|j: int| 0 <= j < rules.len() && rules[j].rule_enabled && #[trigger] rules[j].name@ == name
}

/// The checks of a sequence of rules are one per enabled rule, each named
/// after an enabled rule.
pub proof fn lemma_checks_follow_enabled_rules(
    rules: Seq<EgressRule>,
    ccp: Seq<char>,
    region: Seq<char>,
)
    ensures
        planned_checks(rules, ccp, region).len() == enabled_rules(rules).len(),
        forall|i: int|
            0 <= i < planned_checks(rules, ccp, region).len() ==> names_enabled_rule(
                rules,
                #[trigger] planned_checks(rules, ccp, region)[i].name,
            ),
{
    let en = enabled_rules(rules);
    lemma_filter_membership(rules, rule_enabled_pred());
    assert forall|i: int| 0 <= i < planned_checks(rules, ccp, region).len() implies names_enabled_rule(
        rules,
        #[trigger] planned_checks(rules, ccp, region)[i].name,
    ) by {
        let x = en[i];
        assert(en.contains(x));
        assert(rules.filter(rule_enabled_pred()).contains(x));
        assert(rules.contains(x));
        let j = choose|j: int| 0 <= j < rules.len() && rules[j] == x;
        assert(rules[j].rule_enabled && rules[j].name@ == planned_checks(rules, ccp, region)[i].name);
    }
}

/// A rule whose protocol no probe handles fails, whatever its destination
/// and whatever a probe would have reported.
pub proof fn lemma_unsupported_protocol_fails(
    rule: EgressRule,
    ccp: Seq<char>,
    region: Seq<char>,
    probe_error: Option<Seq<char>>,
)
    requires
        transport_of(rule.protocol@) is None,
    ensures
        planned_action(rule, ccp, region) is Reject,
        expected_outcome(planned_action(rule, ccp, region), probe_error).0 == ConnCheckResult::Fail,
{
}


/// A probed rule whose probe reports an error fails with a non-empty
/// diagnostic; a group of that one rule passes at 0 % and lists it as its
/// only failure.
pub proof fn lemma_failed_probe_fails_group(check: CheckView, e: Seq<char>, r: EgressRuleResult)
    requires
        check.action is Probe,
        r.name@ == check.name,
        (r.result, opt_view(r.err_msg)) == expected_outcome(check.action, Some(e)),
    ensures
        r.result == ConnCheckResult::Fail,
        r.err_msg matches Some(m) && m@.len() > 0,
        failed_results(seq![r]) == seq![r],
        pass_percentage(passed_count(seq![r]) as int, 1) == 0,
{
    lemma_diagnostics_nonempty();
    reveal(Seq::filter);
    assert(seq![r].drop_last() =~= Seq::<EgressRuleResult>::empty());
    assert(seq![r].last() == r);
    assert(Seq::<EgressRuleResult>::empty().filter(is_fail()) =~= Seq::<EgressRuleResult>::empty());
    assert(Seq::<EgressRuleResult>::empty().filter(is_pass()) =~= Seq::<EgressRuleResult>::empty());
    assert(seq![r].filter(is_pass()) =~= Seq::<EgressRuleResult>::empty());
    assert(Seq::<EgressRuleResult>::empty().push(r) =~= seq![r]);
    assert(passed_count(seq![r]) == 0);
    assert(pass_percentage(0, 1) == (200 * 0 + 1) / (2 * 1));
}

} // verus!
