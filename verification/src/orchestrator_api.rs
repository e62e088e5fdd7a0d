//! Shared contracts of the signaling and discovery interface.

use vstd::prelude::*;

use crate::json::JsonValue;

verus! {

#[derive(Debug, Clone, PartialEq, Eq)]
pub struct TraceContext {
    pub trace_id: Option<String>,
}

impl Default for TraceContext {
    fn default() -> (trace: TraceContext)
        ensures
            trace.trace_id is None,
    {
        TraceContext { trace_id: None }
    }
}

#[derive(Debug, Clone, PartialEq, Eq)]
pub struct RegisterEndpointRequest {
    pub endpoint_id: String,
    pub vhost: String,
    pub ttl_ms: u64,
    pub trace: TraceContext,
}

#[derive(Debug, Clone, PartialEq, Eq)]
pub struct AckResponse {
    pub ok: bool,
}

#[derive(Debug, PartialEq, Eq)]
pub struct PublishCandidatesRequest {
    pub endpoint_id: String,
    pub vhost: String,
    pub generation: u64,
    pub ttl_ms: u64,
    pub payload: JsonValue,
    pub trace: TraceContext,
}

#[derive(Debug, Clone, PartialEq, Eq)]
pub struct DiscoverCandidatesRequest {
    pub endpoint_id: String,
    pub vhost: String,
    pub trace: TraceContext,
}

#[derive(Debug, PartialEq, Eq)]
pub struct DiscoverCandidatesResponse {
    pub found: bool,
    pub payload: Option<JsonValue>,
}

#[derive(Debug, Clone, PartialEq, Eq)]
pub struct TurnCredentialsRequest {
    pub vhost: String,
    pub purpose: String,
    pub ttl_seconds: u64,
    pub trace: TraceContext,
}

#[derive(Debug, Clone, PartialEq, Eq)]
pub struct TurnCredentialsResponse {
    pub username: String,
    pub credential: String,
    pub ttl_seconds: u64,
    pub realm: String,
    pub not_before_epoch: u64,
    pub not_after_epoch: u64,
    pub rotation_epoch: u64,
    pub scope: String,
}

#[derive(Debug, PartialEq, Eq)]
pub struct PathSelectedRequest {
    pub source_endpoint_id: String,
    pub target_endpoint_id: String,
    pub vhost: String,
    pub selected: JsonValue,
    pub trace: TraceContext,
}

#[derive(Debug, Clone, PartialEq, Eq)]
pub struct RetryBudget {
    pub max_retries: u32,
    pub base_backoff_ms: u64,
    pub jitter_ratio_bps: u16,
}

#[derive(Debug, Clone, PartialEq, Eq)]
pub struct OutageBehaviorContract {
    pub cached_candidate_fallback: bool,
    pub retry_budget: RetryBudget,
    pub safe_failure_mode: String,
}

} // verus!
