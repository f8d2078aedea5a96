//! Runtime engine logic: output streaming, llama.cpp releases and launch flags.

pub mod streaming;
pub mod download;
pub mod process;
pub mod client;
pub mod launch;
pub mod mmproj;
pub mod kwargs;
pub mod sse;
pub mod native_chat;
