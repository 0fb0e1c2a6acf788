//! Multi-tab session coordination: a fair priority dispatch queue, a file
//! conflict tracker, a keyword task router, and the coordinator that joins
//! them; with the smaller decisions around them (text complexity, server
//! health, build freshness).
pub mod complexity;
pub mod conflict;
pub mod freshness;
pub mod health;
pub mod queue;
pub mod router;
pub mod session;
pub mod text;
pub mod types;
