use aks_egress_checker::egress::{egress_data_dir, table_rows, EgressData, EgressGroup, EgressRule};

fn rule(name: &str, enabled: bool) -> EgressRule {
    EgressRule {
        name: name.to_string(),
        dst: format!("{}.example.com", name),
        protocol: "tcp".to_string(),
        port: "443".to_string(),
        description: String::new(),
        required_private: false,
        rule_enabled: enabled,
    }
}

fn group(name: &str, required: bool) -> EgressGroup {
    EgressGroup { enabled: true, name: name.to_string(), required_group: required, rules: vec![rule("r", true)] }
}

fn data() -> EgressData {
    EgressData {
        egress_version: "1".to_string(),
        name: "aks-egress".to_string(),
        groups: vec![
            group("core", true),
            group("foo", false),
            group("bar", true),
            group("monitoring", false),
        ],
    }
}

fn names(d: &EgressData) -> Vec<String> {
    d.groups.iter().map(|g| g.name.clone()).collect()
}

#[test]
fn required_only_keeps_required_groups() {
    let mut d = data();
    let sel = "required-egress-only".to_string();
    d.filter_groups(&vec![&sel]);
    assert_eq!(names(&d), vec!["core", "bar"]);
    assert_eq!(d.name, "aks-egress");
    assert_eq!(d.egress_version, "1");
}

#[test]
fn required_only_is_idempotent() {
    let mut d = data();
    let sel = "required-egress-only".to_string();
    d.filter_groups(&vec![&sel]);
    let once = names(&d);
    d.filter_groups(&vec![&sel]);
    assert_eq!(names(&d), once);
}

#[test]
fn required_only_ignores_ascii_case() {
    let mut d = data();
    let sel = "Required-Egress-ONLY".to_string();
    d.filter_groups(&vec![&sel]);
    assert_eq!(names(&d), vec!["core", "bar"]);
}

#[test]
fn optional_only_keeps_optional_groups() {
    let mut d = data();
    let sel = "optional-egress-only".to_string();
    d.filter_groups(&vec![&sel]);
    assert_eq!(names(&d), vec!["foo", "monitoring"]);
}

#[test]
fn two_names_select_their_union() {
    let mut d = data();
    let a = "foo".to_string();
    let b = "bar".to_string();
    d.filter_groups(&vec![&a, &b]);
    assert_eq!(names(&d), vec!["foo", "bar"]);
}

#[test]
fn one_plain_name_selects_that_group() {
    let mut d = data();
    let a = "monitoring".to_string();
    d.filter_groups(&vec![&a]);
    assert_eq!(names(&d), vec!["monitoring"]);
}

#[test]
fn unmatched_selector_leaves_no_group() {
    let mut d = data();
    let a = "nothing".to_string();
    let b = "FOO".to_string();
    d.filter_groups(&vec![&a, &b]);
    assert!(d.groups.is_empty());
}

#[test]
fn empty_selector_list_leaves_no_group() {
    let mut d = data();
    d.filter_groups(&vec![]);
    assert!(d.groups.is_empty());
}

#[test]
fn keyword_among_several_selectors_is_a_name() {
    let mut d = data();
    let a = "required-egress-only".to_string();
    let b = "foo".to_string();
    d.filter_groups(&vec![&a, &b]);
    assert_eq!(names(&d), vec!["foo"]);
}

#[test]
fn table_lists_enabled_rules_only() {
    let mut g = group("core", true);
    let mut private_rule = rule("api", true);
    private_rule.required_private = true;
    g.rules = vec![private_rule, rule("off", false), rule("mcr", true)];
    let d = EgressData { egress_version: String::new(), name: String::new(), groups: vec![g, group("extra", false)] };
    let rows = table_rows(&d);
    assert_eq!(rows.len(), 3);
    assert_eq!(rows[0], vec!["core", "api", "api.example.com", "443", "tcp", "Yes", "Yes"]);
    assert_eq!(rows[1], vec!["core", "mcr", "mcr.example.com", "443", "tcp", "No", "Yes"]);
    assert_eq!(rows[2], vec!["extra", "r", "r.example.com", "443", "tcp", "No", "Yes"]);
}

#[test]
fn data_dir_follows_local_test_switch() {
    assert_eq!(egress_data_dir(Some("true")), "./egress-data");
    assert_eq!(egress_data_dir(Some("false")), "/etc/egress-data");
    assert_eq!(egress_data_dir(Some("TRUE")), "/etc/egress-data");
    assert_eq!(egress_data_dir(None), "/etc/egress-data");
}
