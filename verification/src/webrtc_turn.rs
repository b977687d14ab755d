//! NAT traversal for residential nodes: TURN relays behind carrier-grade NAT,
//! and the role a path plays in the erasure-coded shard set.
use vstd::prelude::*;
use vstd::string::StringExecFns;

verus! {

pub struct NatTraversalEngine {
    pub is_behind_cgnat: bool,
    pub turn_reflector_endpoints: Vec<String>,
}

/// The role of path `path_id`: the first ten carry data shards, the rest
/// parity shards.
pub open spec fn path_role(path_id: usize) -> Seq<char> {
    if path_id <= 10 {
        "Tier 1 Primary Data Shard (d1..d10) - Bare-Metal Guard"@
    } else {
        "Tier 2 Redundant Parity Shard (p1..p6) - Residential Node"@
    }
}

impl NatTraversalEngine {
    /// Behind CGNAT, with the two guard TURN reflectors.
    pub fn new() -> (r: Self)
        ensures
            r.is_behind_cgnat,
            r.turn_reflector_endpoints@.len() == 2,
            r.turn_reflector_endpoints@[0]@ == "turn:guard1.chronos-network.org:3478"@,
            r.turn_reflector_endpoints@[1]@ == "turn:guard2.chronos-network.org:3478"@,
    {
        let mut endpoints: Vec<String> = Vec::new();
        endpoints.push(String::from_str("turn:guard1.chronos-network.org:3478"));
        endpoints.push(String::from_str("turn:guard2.chronos-network.org:3478"));
        Self { is_behind_cgnat: true, turn_reflector_endpoints: endpoints }
    }

    /// Sets up the path: a TURN bridge behind CGNAT, the public address
    /// otherwise.
    pub fn establish_turn_relay_bridge(&self) -> (r: Result<String, String>)
        ensures
            r matches Ok(s) && s@ == if self.is_behind_cgnat {
                "webrtc-turn-bridge-active"@
            } else {
                "direct-public-ip-active"@
            },
    {
        if self.is_behind_cgnat {
            Ok(String::from_str("webrtc-turn-bridge-active"))
        } else {
            Ok(String::from_str("direct-public-ip-active"))
        }
    }

    /// The role of path `path_id`.
    pub fn assign_path_weighting_role(&self, path_id: usize) -> (r: &'static str)
        ensures
            r@ == path_role(path_id),
    {
        if path_id <= 10 {
            "Tier 1 Primary Data Shard (d1..d10) - Bare-Metal Guard"
        } else {
            "Tier 2 Redundant Parity Shard (p1..p6) - Residential Node"
        }
    }
}

} // verus!
