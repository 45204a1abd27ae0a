use openshell::secrets::{
    describe, evaluate_http_request, list_kinds, redact_common_secrets, replace_matches,
    request_result, validate_config, Decision, Finding, HttpRequestResult, MiddlewareOperation,
    MiddlewarePhase, SecretKind, SecretMatch, SecretsConfig, SecretsMode,
};

fn evaluated(body: &str) -> HttpRequestResult {
    evaluate_http_request(&Ok(SecretsConfig::default()), body.as_bytes().to_vec())
        .expect("text is never refused")
}

#[test]
fn the_binding_is_described() {
    let binding = describe();
    assert_eq!(binding.id, "openshell/secrets");
    assert_eq!(binding.operation, MiddlewareOperation::HttpRequest);
    assert_eq!(binding.phase, MiddlewarePhase::PreCredentials);
    assert_eq!(binding.max_body_bytes, 262144);
    assert_eq!(SecretsConfig::default().secrets, SecretsMode::Redact);
}

#[test]
fn values_after_a_word_are_redacted() {
    let result = evaluated(r#"{"api_key": "abc123", "Password":'hunter2', "user": "bob"}"#);
    assert_eq!(
        String::from_utf8(result.body).unwrap(),
        r#"{"api_key": "[REDACTED]", "Password":'[REDACTED]', "user": "bob"}"#
    );
    assert_eq!(result.decision, Decision::Allow);
    assert!(result.has_body);
    assert_eq!(result.reason, "");
    assert_eq!(
        result.findings,
        vec![Finding {
            finding_type: "secret.keyword".to_string(),
            label: "keyword secret pattern".to_string(),
            count: 2,
            confidence: "medium".to_string(),
            severity: "medium".to_string(),
        }]
    );
    assert_eq!(
        result.metadata.get("secrets_redacted"),
        Some(&"2".to_string())
    );
    assert_eq!(result.metadata.len(), 1);
    assert_eq!(result.add_headers.len(), 0);
}

#[test]
fn keys_are_redacted_wherever_they_stand() {
    let (text, found) =
        redact_common_secrets("é use sk-abcdefghijklmnop and sk-short and sk-ABCDEFGHIJ_KLMN-OP.");
    assert_eq!(text, "é use [REDACTED] and sk-short and [REDACTED].");
    assert_eq!(found, vec![(SecretKind::OpenAi, 2)]);
}

#[test]
fn both_kinds_are_counted() {
    let result = evaluated(r#"secret = "x" then sk-0123456789abcdef"#);
    assert_eq!(
        String::from_utf8(result.body).unwrap(),
        r#"secret = "[REDACTED]" then [REDACTED]"#
    );
    assert_eq!(result.findings.len(), 2);
    assert_eq!(result.findings[1].finding_type, "secret.openai");
    assert_eq!(
        result.metadata.get("secrets_redacted"),
        Some(&"2".to_string())
    );
}

#[test]
fn a_key_behind_a_word_is_found_once() {
    let result = evaluated(r#"access_token: "sk-0123456789abcdef""#);
    assert_eq!(
        String::from_utf8(result.body).unwrap(),
        r#"access_token: "[REDACTED]""#
    );
    assert_eq!(result.findings.len(), 1);
}

#[test]
fn a_body_without_secrets_stays() {
    let result = evaluated("nothing to see here");
    assert_eq!(result.body, b"nothing to see here".to_vec());
    assert!(!result.has_body);
    assert!(result.findings.is_empty());
    assert_eq!(result.metadata.len(), 0);
}

#[test]
fn what_is_no_text_is_refused() {
    assert_eq!(
        evaluate_http_request(&Ok(SecretsConfig::default()), vec![0xc3]).unwrap_err(),
        "openshell/secrets requires UTF-8 request bodies"
    );
}

#[test]
fn a_configuration_that_cannot_be_read_is_refused() {
    let config = Err("unknown field `x`".to_string());
    let message =
        "invalid openshell/secrets config: unknown field `x`; phase 1 supports only secrets: redact";
    assert_eq!(validate_config(&config).unwrap_err(), message);
    assert_eq!(
        evaluate_http_request(&config, vec![0xc3]).unwrap_err(),
        message
    );
}

#[test]
fn matches_are_replaced_and_nothing_else() {
    let found = |start: usize, end: usize, groups: &[&str]| SecretMatch {
        start,
        end,
        groups: groups.iter().map(|g| g.to_string()).collect(),
    };
    assert_eq!(
        replace_matches("0123456789", &vec![found(1, 3, &["a", "b", "c"]), found(7, 10, &["x"])]),
        "0ab[REDACTED]c3456[REDACTED]"
    );
    assert_eq!(replace_matches("0123", &vec![]), "0123");
}

#[test]
fn counts_stop_at_the_largest_number() {
    assert_eq!(list_kinds(0, 0), vec![]);
    assert_eq!(
        list_kinds(usize::MAX, 1),
        vec![(SecretKind::Keyword, u32::MAX), (SecretKind::OpenAi, 1)]
    );
    let result = request_result("x", &list_kinds(usize::MAX, 1));
    assert_eq!(
        result.metadata.get("secrets_redacted"),
        Some(&"4294967295".to_string())
    );
}

#[test]
fn a_redacted_body_stays() {
    let result = evaluated(r#"{"password": "hunter2", "key": "sk-0123456789abcdef"}"#);
    let again = evaluated(&String::from_utf8(result.body.clone()).unwrap());
    assert_eq!(again.body, result.body);
}

#[test]
fn matches_that_are_redacted_already_stay() {
    let matches = vec![SecretMatch {
        start: 2,
        end: 12,
        groups: vec!["sk-x".to_string()],
    }];
    assert_eq!(replace_matches("a [REDACTED] b", &matches), "a [REDACTED] b");
}
