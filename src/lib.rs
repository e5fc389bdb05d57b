//! A per-flow traffic policer: header views over packet buffers, flow keys,
//! a bounded flow table, an expiration pool and token-bucket admission.
use vstd::prelude::*;

pub mod bucket;
pub mod flow_key;
pub mod headers;
pub mod policer;
pub mod pool;
pub mod table;

verus! {

} // verus!
