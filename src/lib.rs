//! Turns sampled network telemetry into a rectangular feature dataset and
//! decides, model by model, how a run of analysis models is planned,
//! checked and reported.

pub mod config;
pub mod features;
pub mod models;
pub mod pipeline;
pub mod record;
