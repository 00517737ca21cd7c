//! Client for communicating with services located by DNS SRV records.
//!
//! The library keeps a time-bounded cache of SRV targets, orders the targets
//! with a pluggable policy (affinity for the last working target, or the
//! priority/weight rule of RFC 2782), and drives an operation across the
//! ordered targets with fail-over.
use vstd::prelude::*;

pub mod client;
pub mod record;
pub mod resolver;

pub use client::cache::Cache;
pub use client::execution::{Attempts, AttemptsView};
pub use client::policy::{Affinity, AffinityUriIter, ParsedRecord, Policy, Rfc2782};
pub use client::{Execution, SrvClient, SrvError};
pub use record::SrvRecord;
pub use resolver::libresolv::{LibResolv, LibResolvError, LibResolvSrvRecord, ResolverError};

verus! {

/// A SRV name that the library's own examples look up.
pub const EXAMPLE_SRV: &'static str = "_http._tcp.srv-client-rust.deshaw.org";

} // verus!
