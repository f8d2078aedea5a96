//! What llama-server reports about its slots and properties.

use vstd::prelude::*;

verus! {

/// Decoding progress of the token a slot is producing.
#[derive(Clone, Copy, Debug)]
pub struct NextTokenInfo {
    pub n_decoded: u32,
    pub n_remain: i64,
}

/// One inference slot, as `/slots` reports it.
#[derive(Clone, Debug)]
pub struct SlotInfo {
    pub id: u32,
    pub n_ctx: u32,
    pub n_past: u32,
    pub state: u32,
    pub next_token: Option<NextTokenInfo>,
    pub is_processing: bool,
}

/// Default generation settings of the server.
#[derive(Clone, Copy, Debug)]
pub struct GenerationSettings {
    pub n_ctx: Option<u32>,
}

/// Server properties, as `/props` reports them.
#[derive(Clone, Debug)]
pub struct ServerProps {
    pub default_generation_settings: Option<GenerationSettings>,
    pub build_info: Option<String>,
    pub total_slots: Option<u32>,
}

pub open spec fn props_context(p: ServerProps) -> u32 {
    match p.default_generation_settings {
        Some(g) => match g.n_ctx {
            Some(n) => n,
            None => 0,
        },
        None => 0,
    }
}

/// The context window the server's default settings declare, or 0.
pub fn props_context_size(props: &ServerProps) -> (n: u32)
    ensures
        n == props_context(*props),
{
    match props.default_generation_settings {
        Some(g) => match g.n_ctx {
            Some(n) => n,
            None => 0,
        },
        None => 0,
    }
}

/// Concurrency of the request scheduler at one moment.
#[derive(Clone, Copy, Debug)]
pub struct SchedulerSnapshot {
    pub limit: u32,
    pub active: usize,
    pub queued: usize,
}

/// The number of requests run at once: the configured limit, at least one.
pub fn scheduler_limit(limit: u32) -> (n: u32)
    ensures
        n == if limit >= 1 { limit } else { 1 },
        n >= 1,
{
    if limit >= 1 {
        limit
    } else {
        1
    }
}

/// Launch settings recorded with a benchmark run.
#[derive(Clone, Debug)]
pub struct BenchmarkRuntimeStats {
    pub spec_type: String,
    pub spec_draft_n_max: u32,
    pub launch_args: Vec<String>,
}

} // verus!
