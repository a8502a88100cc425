//! The records that the gateway stores and reports. Identifiers are the 128-bit
//! values of UUIDs and times are milliseconds since the Unix epoch, UTC.
use vstd::prelude::*;

verus! {

/// A tenant's API key, as stored.
#[derive(Debug, Clone, PartialEq, Eq)]
pub struct ApiKey {
    pub id: u128,
    pub key: String,
    pub name: String,
    pub usage_count: i32,
    pub is_active: bool,
    pub created_at: i64,
    pub updated_at: i64,
}

impl ApiKey {
    /// A field-by-field copy.
    pub fn duplicate(&self) -> (r: ApiKey)
        ensures
            r == *self,
    {
        ApiKey {
            id: self.id,
            key: self.key.clone(),
            name: self.name.clone(),
            usage_count: self.usage_count,
            is_active: self.is_active,
            created_at: self.created_at,
            updated_at: self.updated_at,
        }
    }
}

#[derive(Debug, Clone, PartialEq, Eq)]
pub struct CreateApiKeyRequest {
    pub name: String,
}

#[derive(Debug, Clone, PartialEq, Eq)]
pub struct CreateApiKeyResponse {
    pub id: u128,
    pub key: String,
    pub name: String,
}

#[derive(Debug, Clone, PartialEq, Eq)]
pub struct ApiKeyListResponse {
    pub keys: Vec<ApiKeyInfo>,
}

/// What a key listing shows of a key: everything but the secret.
#[derive(Debug, Clone, PartialEq, Eq)]
pub struct ApiKeyInfo {
    pub id: u128,
    pub name: String,
    pub usage_count: i32,
    pub is_active: bool,
    pub created_at: i64,
}

/// One telemetry record: a completed request made with a known key.
#[derive(Debug, Clone, PartialEq, Eq)]
pub struct Request {
    pub id: u128,
    pub api_key_id: u128,
    pub endpoint: String,
    pub method: String,
    pub status_code: i32,
    pub response_time_ms: Option<i32>,
    pub created_at: i64,
}

#[derive(Debug, Clone, PartialEq, Eq)]
pub struct UsageStats {
    pub api_key_name: String,
    pub total_requests: i64,
    pub requests_today: i64,
    pub requests_this_month: i64,
    pub last_used: Option<i64>,
}

#[derive(Debug, Clone, PartialEq, Eq)]
pub struct MonthlyReport {
    pub api_key_name: String,
    pub month: String,
    pub year: i32,
    pub total_requests: i64,
    pub daily_breakdown: Vec<DailyUsage>,
}

#[derive(Debug, Clone, PartialEq, Eq)]
pub struct DailyUsage {
    pub date: String,
    pub requests: i64,
}

#[derive(Debug, Clone, PartialEq, Eq)]
pub struct EndpointUsage {
    pub endpoint: String,
    pub count: i64,
}

#[derive(Debug, Clone, PartialEq, Eq)]
pub struct StatusDistribution {
    pub success_2xx: i64,
    pub client_error_4xx: i64,
    pub server_error_5xx: i64,
}

/// Occupancy of the storage connection pool.
#[derive(Debug, Clone, PartialEq, Eq)]
pub struct PoolStats {
    pub size: u32,
    pub num_idle: usize,
}

/// Sum and number of the measured latencies; their mean is `total_ms / samples`.
#[derive(Debug, Clone, PartialEq, Eq)]
pub struct LatencyTotals {
    pub total_ms: i128,
    pub samples: i64,
}

#[derive(Debug, Clone, PartialEq, Eq)]
pub struct SystemMetrics {
    pub total_requests: i64,
    pub total_api_keys: i64,
    pub active_api_keys: i64,
    pub latency: Option<LatencyTotals>,
    pub requests_last_hour: i64,
    pub requests_last_24h: i64,
    pub top_endpoints: Vec<EndpointUsage>,
    pub status_distribution: StatusDistribution,
    pub database_pool_stats: PoolStats,
}

} // verus!
