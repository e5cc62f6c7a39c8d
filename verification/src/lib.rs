//! Moogsoft sinks and the Prometheus text reparser of a log and metrics router,
//! with the event model they work on.

pub mod text;
pub mod time;
pub mod event;
pub mod internal_events;
pub mod sink_http;
pub mod moogsoft;
pub mod moogsoft_controller;
pub mod moogsoft_internal_logs;
pub mod prometheus;
pub mod driver;
pub mod providers;
