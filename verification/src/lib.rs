//! Character scale bookkeeping for Elden Ring characters: refresh scheduling,
//! cloth ownership routes and the cloth topology they reach, render-source
//! masks, rule resolution, the sharing of cloth resources between
//! characters, and the bounded retry policies that keep native memory
//! untouched on failure.
use vstd::prelude::*;

pub mod aabb_pass;
pub mod bytes;
pub mod config;
pub mod connect;
pub mod dimension;
pub mod effects;
pub mod field_spans;
pub mod identity;
pub mod local_pass;
pub mod ordered_step;
pub mod owner_scope;
pub mod render_scale;
pub mod retry;
pub mod memory;
pub mod schedule;
pub mod shared;
pub mod shared_fields;
pub mod step_json;
pub mod topology;

verus! {

} // verus!
