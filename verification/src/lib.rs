//! Read-only capture service core: request budgets, schedulers, provisional
//! lanes, dataset layouts and configuration rules.

pub mod text;
pub mod request_budget;
pub mod egress;
pub mod info_scheduler;
pub mod subjects;
pub mod strmap;
pub mod digest;
pub mod provisional_pipeline;
pub mod snapshot_store;
pub mod historical_manifest;
pub mod config;
pub mod info_rest;
pub mod public_ws;
pub mod publication;
pub mod jetstream;
pub mod disk;
pub mod failover;
pub mod historical_progress;
pub mod historical_backfill;
pub mod node_files;
pub mod sequencing;
pub mod aux_checkpoint;
pub mod backlog;
pub mod info_capture;
pub mod runtime_health;
pub mod lifecycle;
pub mod publication_plan;
pub mod service_errors;
pub mod capture_progress;
pub mod quarantine;
pub mod canonical_sequencer;
pub mod raw_segment;
pub mod maintenance;
