use aks_egress_checker::imds::{imds_url, region_from_location, ImdsAction, RegionError, RegionQuery, IMDS_HOST};

const IMDS_RESP: &str = r#"{"compute":{"azEnvironment":"AzurePublicCloud","location":"eastus2","name":"aks-nodepool1-vmss_0","osType":"Linux","vmSize":"Standard_D2s_v3"},"network":{"interface":[]}}"#;

fn finished(a: ImdsAction) -> Result<String, RegionError> {
    match a {
        ImdsAction::Finish(r) => r,
        ImdsAction::Retry { delay_secs } => panic!("unexpected retry after {} s", delay_secs),
    }
}

#[test]
fn client_should_extract_region_from_successful_response() {
    let mut q = RegionQuery::new();
    let region = finished(q.on_response(200, IMDS_RESP)).unwrap();
    assert_eq!("eastus2", region.as_str());
}

#[test]
fn client_should_retry_on_retriable_error() {
    let mut q = RegionQuery::new();
    for n in 1..=4u64 {
        match q.on_response(500, "") {
            ImdsAction::Retry { delay_secs } => assert_eq!(delay_secs, 10 * n),
            ImdsAction::Finish(_) => panic!("gave up too early"),
        }
    }
    assert_eq!(q.retries, 4);
    match finished(q.on_response(500, "")) {
        Err(RegionError::AttemptsExhausted { status }) => assert_eq!(status, 500),
        other => panic!("unexpected {:?}", other),
    }
}

#[test]
fn client_should_exit_on_client_error_response() {
    let mut q = RegionQuery::new();
    match finished(q.on_response(400, IMDS_RESP)) {
        Err(RegionError::BadRequest { body }) => assert_eq!(body, IMDS_RESP),
        other => panic!("unexpected {:?}", other),
    }
    assert_eq!(q.retries, 0);
}

#[test]
fn region_found_after_two_retries() {
    let mut q = RegionQuery::new();
    let body = r#"{"compute":{"location":"eastus2"}}"#;
    let mut sleeps = Vec::new();
    let mut statuses = vec![500u16, 500, 200].into_iter();
    let region = loop {
        match q.on_response(statuses.next().unwrap(), body) {
            ImdsAction::Retry { delay_secs } => sleeps.push(delay_secs),
            ImdsAction::Finish(r) => break r.unwrap(),
        }
    };
    assert_eq!(region, "eastus2");
    assert_eq!(sleeps, vec![10, 20]);
}

#[test]
fn fifth_attempt_is_the_last() {
    let mut q = RegionQuery::new();
    for _ in 0..4 {
        assert!(matches!(q.on_response(429, ""), ImdsAction::Retry { .. }));
    }
    match finished(q.on_response(410, "")) {
        Err(RegionError::AttemptsExhausted { status }) => assert_eq!(status, 410),
        other => panic!("unexpected {:?}", other),
    }
    let mut q = RegionQuery::new();
    for _ in 0..4 {
        assert!(matches!(q.on_response(500, ""), ImdsAction::Retry { .. }));
    }
    let region = finished(q.on_response(200, r#"{"compute":{"location":"eastus2"}}"#)).unwrap();
    assert_eq!(region, "eastus2");
}

#[test]
fn gone_and_throttled_are_retried() {
    let mut q = RegionQuery::new();
    assert!(matches!(q.on_response(410, ""), ImdsAction::Retry { delay_secs: 10 }));
    assert!(matches!(q.on_response(429, ""), ImdsAction::Retry { delay_secs: 20 }));
}

#[test]
fn not_found_and_bad_method_are_final() {
    for status in [404u16, 405] {
        let mut q = RegionQuery::new();
        match finished(q.on_response(status, "nope")) {
            Err(RegionError::NotAvailable { status: s, body }) => {
                assert_eq!(s, status);
                assert_eq!(body, "nope");
            }
            other => panic!("unexpected {:?}", other),
        }
    }
}

#[test]
fn other_error_statuses_are_final() {
    for status in [401u16, 403, 502, 503] {
        let mut q = RegionQuery::new();
        match finished(q.on_response(status, "down")) {
            Err(RegionError::UnexpectedStatus { status: s, body }) => {
                assert_eq!(s, status);
                assert_eq!(body, "down");
            }
            other => panic!("unexpected {:?}", other),
        }
    }
}

#[test]
fn empty_or_absent_region_is_an_error() {
    for body in [r#"{"compute":{"location":""}}"#, r#"{"compute":{}}"#, r#"{"compute":{"location":7}}"#, "not json"] {
        let mut q = RegionQuery::new();
        match finished(q.on_response(200, body)) {
            Err(RegionError::MissingRegion { body: b }) => assert_eq!(b, body),
            other => panic!("unexpected {:?}", other),
        }
    }
}

#[test]
fn region_from_location_checks_emptiness() {
    assert_eq!(region_from_location(Some("westus".to_string()), "b").unwrap(), "westus");
    assert!(matches!(region_from_location(Some(String::new()), "b"), Err(RegionError::MissingRegion { .. })));
    assert!(matches!(region_from_location(None, "b"), Err(RegionError::MissingRegion { .. })));
}

#[test]
fn metadata_url_names_host_and_version() {
    assert_eq!(imds_url(IMDS_HOST), "http://169.254.169.254/metadata/instance?api-version=2021-12-13");
    assert_eq!(imds_url("127.0.0.1:8080"), "http://127.0.0.1:8080/metadata/instance?api-version=2021-12-13");
}
