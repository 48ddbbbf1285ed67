//! Core of an OpenAI-compatible gateway, verified with Verus.
pub mod text;
pub mod calendar;
pub mod outside;
pub mod util;
pub mod stats;
pub mod percentile;
pub mod dashboard;
pub mod framing;
pub mod retry;
pub mod executor;
pub mod stream_model;
pub mod stream_laws;
pub mod refresh;
pub mod body_laws;
pub mod dashboard_laws;
pub mod step_laws;
