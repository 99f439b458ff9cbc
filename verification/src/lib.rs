//! Stateful firewall-and-routing bridge: a verified core.
//!
//! The crate models the bridge's persistent store, lifecycle state machine,
//! packet-filter command synthesis, routing-netlink message construction and
//! drift detection. Kernel round-trips themselves are performed by an
//! unverified shell around this library; everything the bridge decides or
//! computes is specified and proved here.

use vstd::prelude::*;

pub mod db;
pub mod error;
pub mod nft;
pub mod presets;
pub mod route;
pub mod state;
pub mod text;
pub mod verify;

verus! {

/// The schema version the store migrates to.
pub fn schema_version() -> (v: i32)
    ensures
        v == 1,
{
    1
}

} // verus!
