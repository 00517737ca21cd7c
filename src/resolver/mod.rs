//! SRV resolvers: what the library decides around a DNS lookup.
use vstd::prelude::*;

pub mod libresolv;

verus! {

} // verus!
