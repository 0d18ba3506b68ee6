//! The forked-state cache.

pub mod account;
pub mod balance_scan;
pub mod base;
pub mod builder;
pub mod checkpoint_files;
pub mod code_file;
pub mod code_seeds;
pub mod config;
pub mod context;
pub mod context_laws;
pub mod decimals_file;
pub mod delta_run;
pub mod durable_checkpoint;
pub mod erc20;
pub mod evm_cache;
pub mod fetch_laws;
pub mod file_laws;
pub mod freshness;
pub mod hashed_slots;
pub mod hydration;
pub mod hydration_laws;
pub mod journal;
pub mod layers;
pub mod machine_laws;
pub mod machine_state;
pub mod mapping;
pub mod metadata;
pub mod overlay;
pub mod payload;
pub mod point_reads;
pub mod prepared;
pub mod read_set;
pub mod saved_state;
pub mod seed_laws;
pub mod seeding;
pub mod service_laws;
pub mod shared_backend;
pub mod slot_observations;
pub mod snapshot;
pub mod state_snapshot;
pub mod state_update;
pub mod token_laws;
pub mod trace;
pub mod trace_laws;
pub mod update_laws;
pub mod versioned;
pub mod write_laws;
pub mod writes;
