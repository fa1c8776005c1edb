//! Bridges one-event-at-a-time invocations to a long-lived request engine,
//! and prepares the engine's configuration document before it is typed.
pub mod bridge;
pub mod config;
pub mod engine;
pub mod placeholder;
pub mod retry;
pub mod text;
