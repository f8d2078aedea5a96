//! Verified core of InferenceBridge: the text parsers, download and release
//! rules, model-browser mapping and runtime decisions of a local llama.cpp
//! front end, each stated by its contract.

pub mod text;
pub mod encoding;
pub mod config;
pub mod engine;
pub mod hub;
pub mod context;
pub mod downloads;
pub mod download_jobs;
pub mod image;
pub mod image_job;
pub mod image_status;
pub mod image_request;
pub mod runtime;
pub mod model_load;
pub mod status;
pub mod chat;
pub mod chat_turn;
pub mod settings;
pub mod debug;
pub mod agent_check;
