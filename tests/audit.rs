use aks_egress_checker::conncheck::{
    plan_audit, plan_group, plan_rule, rule_result, summarize_group, CheckAction, ConnCheckResult,
    EgressRuleResult, PlannedCheck, Transport,
};
use aks_egress_checker::egress::{EgressGroup, EgressRule};

fn rule(name: &str, dst: &str, protocol: &str, enabled: bool) -> EgressRule {
    EgressRule {
        name: name.to_string(),
        dst: dst.to_string(),
        protocol: protocol.to_string(),
        port: "443".to_string(),
        description: String::new(),
        required_private: false,
        rule_enabled: enabled,
    }
}

fn outcome(name: &str, pass: bool) -> EgressRuleResult {
    EgressRuleResult {
        name: name.to_string(),
        result: if pass { ConnCheckResult::Pass } else { ConnCheckResult::Fail },
        err_msg: if pass { None } else { Some(format!("{} unreachable", name)) },
    }
}

#[test]
fn tcp_rule_is_probed_over_tcp() {
    let c = plan_rule(&rule("mcr", "mcr.{region}.io", "tcp", true), "ccp", "eastus2");
    assert_eq!(c.name, "mcr");
    match c.action {
        CheckAction::Probe { transport, dest } => {
            assert_eq!(transport, Transport::Tcp);
            assert_eq!(dest, "mcr.eastus2.io:443");
        }
        CheckAction::Reject { .. } => panic!("expected a probe"),
    }
}

#[test]
fn udp_rule_is_probed_over_udp() {
    let c = plan_rule(&rule("ntp", "ntp.ubuntu.com", "udp", true), "ccp", "eastus2");
    match c.action {
        CheckAction::Probe { transport, dest } => {
            assert_eq!(transport, Transport::Udp);
            assert_eq!(dest, "ntp.ubuntu.com:443");
        }
        CheckAction::Reject { .. } => panic!("expected a probe"),
    }
}

#[test]
fn unsupported_protocol_fails_without_probe() {
    let c = plan_rule(&rule("web", "example.com", "http", true), "ccp", "eastus2");
    match &c.action {
        CheckAction::Reject { reason } => assert_eq!(reason, "protocol not supported: http"),
        CheckAction::Probe { .. } => panic!("expected a rejection"),
    }
    let r = rule_result(&c, None);
    assert_eq!(r.result, ConnCheckResult::Fail);
    assert_eq!(r.err_msg.as_deref(), Some("protocol not supported: http"));
    let r2 = rule_result(&c, Some("refused".to_string()));
    assert_eq!(r2.result, ConnCheckResult::Fail);
}

#[test]
fn malformed_destination_fails_without_probe() {
    let mut r = rule("bad", "example.com", "tcp", true);
    r.port = "https".to_string();
    let c = plan_rule(&r, "ccp", "eastus2");
    match &c.action {
        CheckAction::Reject { reason } => assert_eq!(reason, "invalid socket address syntax"),
        CheckAction::Probe { .. } => panic!("expected a rejection"),
    }
}

#[test]
fn malformed_host_fails_without_probe() {
    for dst in ["not an address", "*"] {
        let c = plan_rule(&rule("odd", dst, "tcp", true), "ccp", "eastus2");
        match &c.action {
            CheckAction::Reject { reason } => assert_eq!(reason, "invalid socket address syntax"),
            CheckAction::Probe { .. } => panic!("expected a rejection"),
        }
        let r = rule_result(&c, None);
        assert_eq!(r.result, ConnCheckResult::Fail);
        assert_eq!(r.err_msg.as_deref(), Some("invalid socket address syntax"));
    }
}

#[test]
fn empty_failure_text_gets_a_diagnostic() {
    let probe = PlannedCheck {
        name: "x".to_string(),
        action: CheckAction::Probe { transport: Transport::Tcp, dest: "127.0.0.1:1".to_string() },
    };
    let r = rule_result(&probe, Some(String::new()));
    assert_eq!(r.result, ConnCheckResult::Fail);
    assert_eq!(r.err_msg.as_deref(), Some("check failed"));
    let reject = PlannedCheck { name: "y".to_string(), action: CheckAction::Reject { reason: String::new() } };
    assert_eq!(rule_result(&reject, None).err_msg.as_deref(), Some("check failed"));
}

#[test]
fn refused_probe_fails_its_group() {
    let c = plan_rule(&rule("local", "127.0.0.1", "tcp", true), "ccp", "eastus2");
    let r = rule_result(&c, Some("Connection refused (os error 111)".to_string()));
    let g = summarize_group(&vec![r]);
    assert_eq!(g.pass_pct, 0);
    let failed = g.failed_checks.unwrap();
    assert_eq!(failed.len(), 1);
    assert_eq!(failed[0].name, "local");
    assert_eq!(failed[0].err_msg.as_deref(), Some("Connection refused (os error 111)"));
}

#[test]
fn probe_outcome_decides_result() {
    let c = PlannedCheck {
        name: "x".to_string(),
        action: CheckAction::Probe { transport: Transport::Tcp, dest: "127.0.0.1:1".to_string() },
    };
    let ok = rule_result(&c, None);
    assert_eq!(ok.name, "x");
    assert_eq!(ok.result, ConnCheckResult::Pass);
    assert_eq!(ok.err_msg, None);
    let bad = rule_result(&c, Some("Connection refused (os error 111)".to_string()));
    assert_eq!(bad.result, ConnCheckResult::Fail);
    assert_eq!(bad.err_msg.as_deref(), Some("Connection refused (os error 111)"));
}

#[test]
fn disabled_rules_get_no_check() {
    let g = EgressGroup {
        enabled: true,
        name: "core".to_string(),
        required_group: true,
        rules: vec![
            rule("a", "a.com", "tcp", false),
            rule("b", "b.com", "tcp", true),
            rule("c", "c.com", "udp", false),
            rule("d", "d.com", "ftp", true),
        ],
    };
    let p = plan_group(&g, "ccp", "eastus2");
    assert_eq!(p.name, "core");
    let names: Vec<&str> = p.checks.iter().map(|c| c.name.as_str()).collect();
    assert_eq!(names, vec!["b", "d"]);
}

#[test]
fn disabled_groups_get_no_plan() {
    let on = EgressGroup { enabled: true, name: "on".to_string(), required_group: true, rules: vec![] };
    let off = EgressGroup { enabled: false, name: "off".to_string(), required_group: true, rules: vec![] };
    let on2 = EgressGroup { enabled: true, name: "on2".to_string(), required_group: false, rules: vec![] };
    let plans = plan_audit(&vec![on, off, on2], "ccp", "eastus2");
    let names: Vec<&str> = plans.iter().map(|p| p.name.as_str()).collect();
    assert_eq!(names, vec!["on", "on2"]);
}

#[test]
fn group_without_attempts_passes_fully() {
    let g = summarize_group(&vec![]);
    assert_eq!(g.pass_pct, 100);
    assert_eq!(g.failed_checks.map(|f| f.len()), Some(0));
}

#[test]
fn all_passed_gives_empty_failures() {
    let g = summarize_group(&vec![outcome("a", true), outcome("b", true)]);
    assert_eq!(g.pass_pct, 100);
    assert_eq!(g.failed_checks.map(|f| f.len()), Some(0));
}

#[test]
fn failures_are_kept_in_order() {
    let g = summarize_group(&vec![outcome("a", false), outcome("b", true), outcome("c", false)]);
    assert_eq!(g.pass_pct, 33);
    let failed = g.failed_checks.unwrap();
    assert_eq!(failed.len(), 2);
    assert_eq!(failed[0].name, "a");
    assert_eq!(failed[1].name, "c");
    assert_eq!(failed[1].err_msg.as_deref(), Some("c unreachable"));
}

#[test]
fn pass_percentage_rounds_to_nearest() {
    let two_of_three = summarize_group(&vec![outcome("a", true), outcome("b", false), outcome("c", true)]);
    assert_eq!(two_of_three.pass_pct, 67);
    let mut eight = vec![outcome("p", true)];
    for i in 0..7 {
        eight.push(outcome(&format!("f{}", i), false));
    }
    assert_eq!(summarize_group(&eight).pass_pct, 13);
    assert_eq!(summarize_group(&vec![outcome("a", false)]).pass_pct, 0);
}
