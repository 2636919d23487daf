//! An HTTP gateway: it routes requests to the stable or the canary cluster of a service,
//! hands their remaining time from hop to hop, keeps away from services that fail, and
//! picks requests for tracing. This library decides; sockets, tasks and files are the
//! concern of the program around it.

pub mod admin_api;
pub mod async_logger;
pub mod binary64;
pub mod circuit_breaker;
pub mod config;
pub mod echo;
pub mod grpc_metadata;
pub mod headers;
pub mod proxy;
pub mod random;
pub mod span_context;
pub mod state;
pub mod string_map;
pub mod text;
pub mod time;
pub mod timeout_budget;
pub mod trace_record;
pub mod trace_sampler;
pub mod traffic_coloring;
pub mod types;
