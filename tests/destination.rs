use aks_egress_checker::egress::EgressRule;
use aks_egress_checker::target::{build_conn_string, is_valid_destination};
use aks_egress_checker::text::{contains_str, eq_ignore_ascii_case, str_eq};

fn rule(name: &str, dst: &str, port: &str) -> EgressRule {
    EgressRule {
        name: name.to_string(),
        dst: dst.to_string(),
        protocol: "tcp".to_string(),
        port: port.to_string(),
        description: String::new(),
        required_private: true,
        rule_enabled: true,
    }
}

#[test]
fn wildcard_api_server_rule_targets_control_plane() {
    let r = rule("api-server-primary", "*", "443");
    assert_eq!(build_conn_string(&r, "ccp.example.com", "eastus2"), "ccp.example.com:443");
}

#[test]
fn region_template_is_filled_in() {
    let r = rule("svc", "svc.{region}.example.com", "443");
    assert_eq!(build_conn_string(&r, "ccp.example.com", "eastus2"), "svc.eastus2.example.com:443");
}

#[test]
fn every_region_token_is_filled_in() {
    let r = rule("svc", "{region}.a.{region}.b", "80");
    assert_eq!(build_conn_string(&r, "ccp", "westeurope"), "westeurope.a.westeurope.b:80");
}

#[test]
fn wildcard_without_api_server_name_stays_literal() {
    let r = rule("anything", "*", "443");
    assert_eq!(build_conn_string(&r, "ccp.example.com", "eastus2"), "*:443");
}

#[test]
fn other_tokens_stay_unresolved() {
    let r = rule("svc", "{endpoint}.blob.{region}.net", "443");
    assert_eq!(build_conn_string(&r, "ccp", "eastus2"), "{endpoint}.blob.eastus2.net:443");
}

#[test]
fn host_port_destinations_are_valid() {
    assert!(is_valid_destination("ccp.example.com:443"));
    assert!(is_valid_destination("10.0.0.1:53"));
    assert!(is_valid_destination("[::1]:80"));
    assert!(is_valid_destination("h:65535"));
    assert!(is_valid_destination("h:0"));
    assert!(is_valid_destination("kubernetes.default.svc.cluster.local:443"));
    assert!(is_valid_destination("my-host-1.Example.COM:8080"));
    assert!(is_valid_destination("[fe80::1ff:fe23:4567:890a]:443"));
    assert!(is_valid_destination("[2001:db8::8a2e:370:7334]:443"));
    assert!(is_valid_destination("[1:2:3:4:5:6:7:8]:80"));
    assert!(is_valid_destination("[::]:80"));
    assert!(is_valid_destination("[1::]:80"));
    assert!(is_valid_destination("[::2:3:4:5:6:7:8]:80"));
}

#[test]
fn malformed_hosts_are_invalid() {
    assert!(!is_valid_destination("not an address:443"));
    assert!(!is_valid_destination("*:443"));
    assert!(!is_valid_destination("{endpoint}.blob.core.windows.net:443"));
    assert!(!is_valid_destination(".example.com:443"));
    assert!(!is_valid_destination("example.com.:443"));
    assert!(!is_valid_destination("a..b:443"));
    assert!(!is_valid_destination("host_name:443"));
    assert!(!is_valid_destination("[1]:443"));
    assert!(!is_valid_destination("[::1:443"));
    assert!(!is_valid_destination("[::g]:443"));
    assert!(!is_valid_destination("::1:443"));
    assert!(!is_valid_destination("[:::]:443"));
    assert!(!is_valid_destination("[1:2:3:4:5:6:7]:443"));
    assert!(!is_valid_destination("[1:2:3:4:5:6:7:8:9]:443"));
    assert!(!is_valid_destination("[1::2:3:4:5:6:7:8]:443"));
    assert!(!is_valid_destination("[12345::1]:443"));
    assert!(!is_valid_destination("[1::2::3]:443"));
    assert!(!is_valid_destination("[:1::2]:443"));
    assert!(!is_valid_destination("[1::2:]:443"));
    assert!(!is_valid_destination("[::ffff:192.0.2.128]:53"));
}

#[test]
fn malformed_destinations_are_invalid() {
    assert!(!is_valid_destination(""));
    assert!(!is_valid_destination("host"));
    assert!(!is_valid_destination(":443"));
    assert!(!is_valid_destination("host:"));
    assert!(!is_valid_destination("host:65536"));
    assert!(!is_valid_destination("host:4a3"));
    assert!(!is_valid_destination("host:443:"));
    assert!(!is_valid_destination("host:99999999999999999999"));
}

#[test]
fn text_helpers_work_on_characters() {
    assert!(str_eq("tcp", "tcp"));
    assert!(!str_eq("tcp", "tcp "));
    assert!(eq_ignore_ascii_case("Optional-Egress-Only", "optional-egress-only"));
    assert!(!eq_ignore_ascii_case("optional", "optionaI"));
    assert!(contains_str("kube-api-server", "api-server"));
    assert!(!contains_str("api-serve", "api-server"));
    assert!(contains_str("x", ""));
}
