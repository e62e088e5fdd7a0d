use todero_protocol::json::JsonValue;
use todero_protocol::orchestrator_api::{
    DiscoverCandidatesResponse, OutageBehaviorContract, RetryBudget, TraceContext,
};

#[test]
fn contracts_hold_what_they_are_given() {
    let contract = OutageBehaviorContract {
        cached_candidate_fallback: true,
        retry_budget: RetryBudget {
            max_retries: 5,
            base_backoff_ms: 250,
            jitter_ratio_bps: 1500,
        },
        safe_failure_mode: "relay-only".to_string(),
    };
    assert_eq!(contract.clone(), contract);
    assert_eq!(TraceContext::default().trace_id, None);
    let response = DiscoverCandidatesResponse { found: true, payload: Some(JsonValue::Null) };
    assert_eq!(response.payload, Some(JsonValue::Null));
}
