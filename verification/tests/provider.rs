use skillranker::jev::admission::{
    AdmissionError, AdmissionRefusal, AttemptAdmission, AttemptBudget, AttemptId, ClockReading,
    CostReceipt, RankingStage, Usage,
};
use skillranker::jev::endpoint::{
    sanitize_url_for_diagnostics, AddressReadings, CanonicalOrigin,
    CredentialRoutingError, EndpointConfig, EndpointError, EnvVar, OriginScopedCredential,
    ProxyPolicy, RedirectPolicy, RoutingKind, Scheme,
};
use skillranker::jev::punycode::encode_punycode_label;
use skillranker::output::ErrorKind;

fn named() -> AddressReadings {
    AddressReadings::named_host()
}

fn parse(text: &str) -> Result<CanonicalOrigin, EndpointError> {
    CanonicalOrigin::parse(text, &named())
}

fn canonical(text: &str) -> String {
    parse(text).unwrap().as_str().to_string()
}

#[test]
fn equivalent_spellings_share_one_origin() {
    for spelling in [
        "https://api.typesafe.ai",
        "https://api.typesafe.ai/",
        "https://api.typesafe.ai:443",
        "HTTPS://API.TypeSafe.AI",
        "https://api.typesafe.ai.",
    ] {
        assert_eq!(canonical(spelling), "https://api.typesafe.ai");
    }
    assert_eq!(canonical("https://a.example:8443/"), "https://a.example:8443");
    assert_eq!(canonical(&canonical("https://Bücher.example:8443")), canonical("https://bücher.example:8443"));
    assert_eq!(canonical("https://bücher.example"), "https://xn--bcher-kva.example");
    assert_eq!(
        canonical("https://bücher.example"),
        canonical("https://XN--bcher-KVA.example")
    );
}

#[test]
fn labels_encode_as_punycode() {
    assert_eq!(encode_punycode_label("bücher").unwrap(), "bcher-kva");
    assert_eq!(encode_punycode_label("münchen").unwrap(), "mnchen-3ya");
    assert_eq!(encode_punycode_label("ü").unwrap(), "tda");
}

#[test]
fn refused_endpoints_say_why() {
    assert!(matches!(parse(""), Err(EndpointError::EmptyInput)));
    assert!(matches!(
        parse(&format!("https://{}", "a".repeat(2048))),
        Err(EndpointError::InputTooLong(2056))
    ));
    assert!(matches!(parse("api.typesafe.ai"), Err(EndpointError::MissingScheme)));
    assert!(matches!(parse("ftp://a"), Err(EndpointError::UnsupportedScheme(s)) if s == "ftp"));
    assert!(matches!(
        parse("http://a.example"),
        Err(EndpointError::InsecureScheme { host, .. }) if host == "a.example"
    ));
    assert!(matches!(parse("https://u:p@a"), Err(EndpointError::UserinfoForbidden)));
    assert!(matches!(parse("https://a?x"), Err(EndpointError::QueryForbidden)));
    assert!(matches!(parse("https://a#x"), Err(EndpointError::FragmentForbidden)));
    assert!(matches!(
        parse("https://a/path"),
        Err(EndpointError::NonRootPathForbidden { path }) if path == "/path"
    ));
    assert!(matches!(
        parse("https://a/v1/systemone"),
        Err(EndpointError::DuplicatePathJoin { .. })
    ));
    assert!(matches!(parse("https:///"), Err(EndpointError::EmptyHost)));
    assert!(matches!(parse("https://a_b"), Err(EndpointError::InvalidHost(_))));
    assert!(matches!(parse("https://-a"), Err(EndpointError::InvalidHost(_))));
    assert!(matches!(parse("https://a..b"), Err(EndpointError::InvalidHost(_))));
    assert!(matches!(parse("https://a:0"), Err(EndpointError::InvalidPort(p)) if p == "0"));
    assert!(matches!(parse("https://a:x"), Err(EndpointError::InvalidPort(_))));
    assert_eq!(
        parse("https://a?x").err().unwrap().message(),
        "query string in base origin is forbidden"
    );
    assert_eq!(
        parse("https://a?x").err().unwrap().kind(),
        RoutingKind::InvalidConfiguration
    );
}

#[test]
fn loopback_may_use_plain_http() {
    let origin = parse("http://localhost:80").unwrap();
    assert_eq!(origin.as_str(), "http://localhost");
    assert!(origin.is_loopback() && !origin.is_secure());
    let address = parse("http://127.0.0.1:9000").unwrap();
    assert_eq!(address.as_str(), "http://127.0.0.1:9000");
    assert_eq!(address.port(), Some(9000));
    assert!(address.is_loopback());
    assert!(!parse("https://10.0.0.1").unwrap().is_loopback());
    for refused in ["http://10.0.0.1", "http://127.0.0.01", "http://127.0.0.256", "http://127.0.1"] {
        assert!(
            matches!(parse(refused), Err(EndpointError::InsecureScheme { .. })),
            "{refused}"
        );
    }
    assert!(parse("https://127.0.0.1.").unwrap().is_loopback());
    let v6 = AddressReadings {
        authority_is_v6: false,
        host_v6: Some("::1".to_string()),
    };
    let address = CanonicalOrigin::parse("http://[0:0::1]:80/", &v6).unwrap();
    assert!(address.is_loopback());
    assert_eq!(address.as_str(), "http://[::1]");
}

#[test]
fn the_api_path_is_joined_once() {
    let config = EndpointConfig::from_override("https://a.example/", &named()).unwrap();
    assert_eq!(config.target_url().as_str(), "https://a.example/v1/systemone");
    assert_eq!(config.origin().origin_key(), "https://a.example");
    assert_eq!(
        EndpointConfig::production().target_url().as_str(),
        "https://api.typesafe.ai/v1/systemone"
    );
    assert_eq!(CanonicalOrigin::production().scheme(), Scheme::Https);
}

#[test]
fn credentials_reach_their_own_origin_alone() {
    let own = parse("https://a.example").unwrap();
    let bound = OriginScopedCredential::bind("token".to_string(), &own).unwrap();
    let same = parse("https://A.example:443/").unwrap();
    assert_eq!(bound.authorization_header_for(&same).unwrap(), "Bearer token");
    for other in ["https://b.example", "https://a.example:8443", "http://localhost"] {
        assert!(matches!(
            bound.authorization_header_for(&parse(other).unwrap()),
            Err(CredentialRoutingError::OriginMismatch { .. })
        ));
    }
    let plain = parse("http://localhost").unwrap();
    let refused = OriginScopedCredential::bind("token".to_string(), &plain).err().unwrap();
    assert!(matches!(refused, CredentialRoutingError::InsecureHttpForbidden { .. }));
    assert_eq!(refused.kind(), RoutingKind::InvalidConfiguration);
    assert!(!refused.message().contains("token"));
}

#[test]
fn redirects_are_refused() {
    for code in [300, 301, 307, 399] {
        let error = RedirectPolicy::validate_response_status(code, Some("https://u:p@h/x?q=1"))
            .err()
            .unwrap();
        assert!(!error.message().contains("u:p"));
        assert!(!error.message().contains("q=1"));
    }
    assert!(RedirectPolicy::validate_response_status(200, None).is_ok());
    assert!(RedirectPolicy::validate_response_status(400, None).is_ok());
}

#[test]
fn diagnostics_carry_no_credentials_and_no_query() {
    assert_eq!(
        sanitize_url_for_diagnostics("http://user:pw@host:8080/path?token=1"),
        "http://[REDACTED]@host:8080/path[QUERY-REDACTED]"
    );
    assert_eq!(sanitize_url_for_diagnostics("http://host/path"), "http://host/path");
    assert_eq!(sanitize_url_for_diagnostics("user@host"), "[REDACTED]@host");
    assert_eq!(
        sanitize_url_for_diagnostics("http://user:p@ss@host/a@b"),
        "http://[REDACTED]@host/a@b"
    );
    assert_eq!(
        sanitize_url_for_diagnostics("http://host?token=1/x"),
        "http://host[QUERY-REDACTED]"
    );
    let vars = vec![
        EnvVar { name: "HTTP_PROXY".to_string(), value: "http://a:b@p".to_string() },
        EnvVar { name: "PATH".to_string(), value: "/bin".to_string() },
        EnvVar { name: "no_proxy".to_string(), value: String::new() },
    ];
    let found = ProxyPolicy::inspect_ambient_environment(&vars);
    assert_eq!(found.len(), 1);
    assert_eq!(found[0].name, "HTTP_PROXY");
    assert_eq!(found[0].value, "http://[REDACTED]@p");
}

const OPEN: ClockReading = ClockReading {
    now_ms: Some(5),
    remaining_before_cleanup_ms: 1_000,
};

#[test]
fn two_requests_and_four_attempts_are_admitted() {
    let origin = CanonicalOrigin::production();
    let mut admission = AttemptAdmission::default_invocation("inv");
    assert!(matches!(
        admission.admit_attempt(RankingStage::Rerank, &origin, OPEN),
        Err(AdmissionRefusal::StageOrderingViolation { .. })
    ));
    let permit = admission.admit_attempt(RankingStage::Wide, &origin, OPEN).unwrap();
    assert_eq!(permit.attempt_id().as_str(), "inv-att-1");
    assert_eq!(permit.admitted_at(), 5);
    let sent = permit.mark_sent().unwrap();
    admission.record_sent(&sent).unwrap();
    let usage = Usage { input_tokens: 10, output_tokens: 2 };
    admission.record_response(&sent, usage).unwrap();
    assert!(admission.is_wide_completed());
    assert!(admission.can_attempt_rerank());
    for n in 2..5 {
        let permit = admission.admit_attempt(RankingStage::Rerank, &origin, OPEN).unwrap();
        assert_eq!(permit.attempt_id().as_str(), format!("inv-att-{n}"));
        let sent = permit.mark_sent().unwrap();
        admission.record_sent(&sent).unwrap();
        admission.record_terminal_failure(&sent).unwrap();
    }
    let refused = admission.admit_attempt(RankingStage::Rerank, &origin, OPEN).err().unwrap();
    assert!(matches!(refused, AdmissionRefusal::AttemptsExhausted { attempts_used: 4, limit: 4 }));
    assert_eq!(refused.error_kind(), ErrorKind::RequestBudget);
    assert_eq!(refused.exit_code(), 4);
    assert_eq!(refused.message(), "HTTP attempt budget exhausted (4/4 attempts used)");
    assert!(matches!(
        admission.admit_attempt(RankingStage::Probe, &origin, OPEN),
        Err(AdmissionRefusal::LogicalRequestsExhausted { .. })
    ));
    let receipt = admission.into_receipt();
    assert_eq!(receipt.sent_attempts, 4);
    assert_eq!(receipt.unknown_usage_attempts, 3);
    assert!(receipt.has_unknown_usage);
    assert_eq!(receipt.total_tokens(), 12);
}

#[test]
fn a_discarded_permit_costs_a_slot_and_no_tokens() {
    let origin = CanonicalOrigin::production();
    let mut admission = AttemptAdmission::default_invocation("inv");
    let permit = admission.admit_attempt(RankingStage::Wide, &origin, OPEN).unwrap();
    let discarded = permit.discard_before_send("cancelled");
    assert_eq!(discarded.reason(), "cancelled");
    admission.record_discard(&discarded).unwrap();
    assert_eq!(admission.remaining_http_attempts(), 3);
    assert_eq!(admission.receipt().unknown_usage_attempts, 0);
    assert_eq!(admission.receipt().sent_attempts, 0);
}

#[test]
fn late_attempts_are_refused() {
    let origin = CanonicalOrigin::production();
    let mut admission = AttemptAdmission::default_invocation("inv");
    let closed = ClockReading { now_ms: None, remaining_before_cleanup_ms: 0 };
    assert!(matches!(
        admission.admit_attempt(RankingStage::Wide, &origin, closed),
        Err(AdmissionRefusal::InsufficientDeadline { remaining_ms: 0, required_ms: 50 })
    ));
    let short = ClockReading { now_ms: Some(1), remaining_before_cleanup_ms: 49 };
    let refused = admission.admit_attempt(RankingStage::Wide, &origin, short).err().unwrap();
    assert_eq!(refused.error_kind(), ErrorKind::Timeout);
    assert_eq!(refused.exit_code(), 6);
}

#[test]
fn budgets_and_identifiers_are_validated() {
    assert!(matches!(AttemptBudget::new(0, 1), Err(AdmissionError::InvalidBudget(_))));
    assert!(matches!(AttemptBudget::new(1, 0), Err(AdmissionError::InvalidBudget(_))));
    assert!(matches!(AttemptBudget::new(3, 2), Err(AdmissionError::InvalidBudget(_))));
    assert_eq!(AttemptBudget::new(1, 2).unwrap().max_http_attempts(), 2);
    assert!(AttemptId::parse("ok").is_ok());
    assert!(AttemptId::parse("").is_err());
    let free = CostReceipt::zero_cost_cache_hit();
    assert!(free.cache_served);
    assert_eq!(free.total_tokens(), 0);
}

#[test]
fn case_is_ignored_in_every_script() {
    assert_eq!(canonical("https://BÜCHER.example"), "https://xn--bcher-kva.example");
    assert_eq!(canonical("https://ПРИМЕР.РФ"), canonical("https://пример.рф"));
    // The Kelvin sign is a capital of an ASCII letter.
    assert_eq!(canonical("https://\u{212a}elvin.example"), "https://kelvin.example");
    assert_eq!(parse("https://Bücher.example").unwrap().host(), "xn--bcher-kva.example");
}

#[test]
fn canonical_texts_are_read_back() {
    let v6 = AddressReadings {
        authority_is_v6: false,
        host_v6: Some("2001:db8::1".to_string()),
    };
    for (spelling, readings) in [
        ("https://Bücher.example:8443/", named()),
        ("https://192.168.0.1:9000", named()),
        ("https://[2001:DB8:0::1]:8443", v6.clone()),
        ("https://[2001:DB8:0::1]:443", v6),
    ] {
        let origin = CanonicalOrigin::parse(spelling, &readings).unwrap();
        let again = CanonicalOrigin::parse(origin.as_str(), &readings).unwrap();
        assert_eq!(again.as_str(), origin.as_str());
        assert_eq!(
            (again.scheme(), again.host(), again.port()),
            (origin.scheme(), origin.host(), origin.port())
        );
        let target = origin.join_systemone();
        assert_eq!(target.as_str().matches("/v1/systemone").count(), 1);
        assert!(CanonicalOrigin::parse(target.as_str(), &readings).is_err());
    }
    let production = EndpointConfig::production();
    assert_eq!(production.origin().as_str(), "https://api.typesafe.ai");
    assert!(production.origin().is_secure() && !production.origin().is_loopback());
}

#[test]
fn default_admissions_count_every_stage_change() {
    let endpoint = CanonicalOrigin::production();
    let clock = ClockReading {
        now_ms: Some(0),
        remaining_before_cleanup_ms: 50,
    };
    let mut admission = AttemptAdmission::default_invocation("inv");
    assert!(matches!(
        admission.admit_attempt(RankingStage::Rerank, &endpoint, clock),
        Err(AdmissionRefusal::StageOrderingViolation { .. })
    ));
    let first = admission.admit_attempt(RankingStage::Wide, &endpoint, clock).unwrap();
    assert_eq!(first.attempt_id().as_str(), "inv-att-1");
    assert!(!first.endpoint().is_loopback());
    let second = admission.admit_attempt(RankingStage::Probe, &endpoint, clock).unwrap();
    assert_eq!(second.attempt_id().as_str(), "inv-att-2");
    assert!(matches!(
        admission.admit_attempt(RankingStage::Wide, &endpoint, clock),
        Err(AdmissionRefusal::LogicalRequestsExhausted {
            logical_used: 2,
            limit: 2,
        })
    ));
}

#[test]
fn possible_reranks_are_admitted_in_time() {
    let endpoint = CanonicalOrigin::production();
    let clock = ClockReading {
        now_ms: Some(0),
        remaining_before_cleanup_ms: 5_000,
    };
    let mut admission = AttemptAdmission::default_invocation("inv");
    let wide = admission.admit_attempt(RankingStage::Wide, &endpoint, clock).unwrap();
    let sent = wide.mark_sent().unwrap();
    admission.record_sent(&sent).unwrap();
    let usage = Usage {
        input_tokens: 1,
        output_tokens: 1,
    };
    admission.record_response(&sent, usage).unwrap();
    assert!(admission.can_attempt_rerank());
    assert!(admission.admit_attempt(RankingStage::Rerank, &endpoint, clock).is_ok());
}

#[test]
fn a_life_stays_within_its_budget() {
    let endpoint = CanonicalOrigin::production();
    let clock = ClockReading {
        now_ms: Some(0),
        remaining_before_cleanup_ms: 5_000,
    };
    let mut admission = AttemptAdmission::default_invocation("inv");
    let mut admitted = 0;
    for _ in 0..10 {
        if let Ok(permit) = admission.admit_attempt(RankingStage::Wide, &endpoint, clock) {
            admitted += 1;
            let discarded = permit.discard_before_send("cancelled");
            admission.record_discard(&discarded).unwrap();
        }
    }
    assert_eq!(admitted, 4);
    admission.record_cache_hit();
    assert!(admission.admit_attempt(RankingStage::Wide, &endpoint, clock).is_err());
}

#[test]
fn readings_that_cannot_be_addresses_are_ignored() {
    let odd = AddressReadings {
        authority_is_v6: true,
        host_v6: Some("::1".to_string()),
    };
    let origin = CanonicalOrigin::parse("https://a.example:8443", &odd).unwrap();
    assert_eq!(origin.as_str(), "https://a.example:8443");
    let whole = CanonicalOrigin::parse("https://0:0::1", &odd).unwrap();
    assert_eq!(whole.as_str(), "https://[::1]");
}
