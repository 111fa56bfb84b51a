use codex_lcm::external_context::additional_contexts;
use codex_lcm::external_context::bearer_token;
use codex_lcm::external_context::provider_status_error;

#[test]
fn bearer_tokens_are_trimmed_and_blank_ones_refused() {
    assert_eq!(bearer_token("TOKEN", "  abc \n"), Ok("abc".to_string()));
    assert_eq!(bearer_token("TOKEN", "   "), Err("bearer token env var `TOKEN` is empty".to_string()));
}

#[test]
fn failed_answers_are_reported_with_their_detail() {
    assert_eq!(
        provider_status_error("503 Service Unavailable", "  busy  "),
        "external context provider returned HTTP 503 Service Unavailable: busy"
    );
    assert_eq!(
        provider_status_error("404 Not Found", " \n"),
        "external context provider returned HTTP 404 Not Found"
    );
}

#[test]
fn only_non_blank_contexts_are_kept() {
    let values = vec![" a ".to_string(), "   ".to_string(), "b".to_string()];
    assert_eq!(additional_contexts(&values), vec!["a".to_string(), "b".to_string()]);
}
