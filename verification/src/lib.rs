use vstd::prelude::*;

pub mod clock;
pub mod text;
pub mod strmap;
pub mod key32map;
pub mod bytes;
pub mod wire;
pub mod hashing;
pub mod signing;
pub mod crypto_prims;
pub mod environment;
pub mod credential;
pub mod admission_policy;
pub mod descriptor;
pub mod descriptor_store;
pub mod connection_health;
pub mod detector;
pub mod reputation;
pub mod sybil;
pub mod error;
pub mod metrics;
pub mod pipeline;
pub mod repair;
pub mod types;
pub mod netaddr;
pub mod address;
pub mod bls;
pub mod bbs_credential;
pub mod routing;
pub mod path_selection;
pub mod packet;
pub mod onion_relay;
pub mod peer_state;
pub mod relay_probe;
pub mod node;
pub mod dht;
pub mod relay_plan;
pub mod circuit;

verus! {

} // verus!
