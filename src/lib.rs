//! Request-admission core of a multi-tenant ingestion gateway: API-key
//! authentication with usage accounting, sliding-window rate limiting,
//! telemetry records, system metrics and per-key usage reports.

pub mod auth;
mod clock;
pub mod keys;
pub mod metrics;
pub mod models;
pub mod rate_limiter;
pub mod recorder;
mod text;
pub mod usage;
pub mod validation;
