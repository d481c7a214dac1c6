//! Verified core of an AI integration gateway: the policy engine, the
//! legacy-system inventory, tool registry checks, principal resolution,
//! circuit breaking, rate and budget limits, output shaping, PII masking and
//! prompt-injection flagging.
pub mod adapter;
pub mod approval;
pub mod archive;
pub mod audit;
pub mod auth;
pub mod breaker;
pub mod canon;
pub mod budget;
pub mod clock;
pub mod config_reload;
pub mod console;
pub mod digest;
pub mod eval;
pub mod gateway;
pub mod injection;
pub mod inventory;
pub mod json;
pub mod keyed;
pub mod llm;
pub mod mcp;
pub mod pattern;
pub mod pii;
pub mod policy;
pub mod probe;
pub mod ratelimit;
pub mod registry;
pub mod retention;
pub mod schema;
pub mod telemetry;
pub mod templates;
pub mod text;
pub mod toolcatalog;
pub mod transient;
pub mod views;
pub mod wiring;
