//! Memoria: verified core of a memory service for agents.
pub mod auth;
pub mod backup;
pub mod calls;
pub mod clock;
pub mod consolidation;
pub mod dates;
pub mod dispatch;
pub mod document;
pub mod engine;
pub mod gates;
pub mod hash;
pub mod health;
pub mod json;
pub mod mcp_server;
pub mod ontology;
pub mod paths;
pub mod permissions;
pub mod quota;
pub mod replies;
pub mod search;
pub mod server;
pub mod service;
pub mod session_watcher;
pub mod table;
pub mod text;
pub mod tools;
pub mod turtle;
