//! The UDP transport, as far as it has been laid out.

use vstd::prelude::*;

verus! {

pub const CRATE_NAME: &'static str = "v3-transport-udp";

} // verus!
