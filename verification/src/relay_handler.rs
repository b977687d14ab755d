//! A validating relay: shard packets carry an intact secure cell and a fresh
//! per-stream sequence number, route packets carry a route packet not seen
//! before; each forwarded packet is answered with an acknowledgement. Shard
//! payloads are not decrypted here.
use vstd::prelude::*;
use crate::relay_packet::{
    relay_model, route_payload_parse, RelayModel, RelayPacket, RelayPacketError, RelayPacketType,
};
use crate::route_layer::{replay_observed, RouteLayerError, RouteReplayCache};
use crate::secure_cell::{
    advanced_highest, cell_bytes, header_check, lemma_cell_bytes_determine_cell, replay_verdict, ReplayError,
    ReplayWindow, SecureShardCell,
};
use crate::framing::APP_CELL_PAYLOAD_SIZE;

verus! {

#[derive(Debug, Clone, PartialEq, Eq)]
pub enum RelayHandlerError {
    Packet(RelayPacketError),
    Replay(ReplayError),
    UnsupportedType(RelayPacketType),
    Route(RouteLayerError),
}

#[derive(Debug, Clone, PartialEq, Eq)]
pub enum RelayDecision {
    ForwardShard { packet: RelayPacket, ack: RelayPacket },
    ForwardRoute { packet: RelayPacket, ack: RelayPacket },
    Respond(RelayPacket),
}

impl From<RelayPacketError> for RelayHandlerError {
    fn from(value: RelayPacketError) -> (r: Self) {
        RelayHandlerError::Packet(value)
    }
}

impl vstd::std_specs::convert::FromSpecImpl<RelayPacketError> for RelayHandlerError {
    open spec fn obeys_from_spec() -> bool {
        true
    }

    open spec fn from_spec(v: RelayPacketError) -> Self {
        RelayHandlerError::Packet(v)
    }
}

/// The acknowledgement for a packet on `stream_id` with `sequence`.
pub open spec fn ack_model(stream_id: u64, sequence: u64) -> RelayModel {
    (RelayPacketType::Ack, 0u8, stream_id, sequence, seq![0x4fu8, 0x4bu8])
}

/// Per-stream replay windows and the route replay cache of one relay.
pub struct RelayPacketHandler {
    replay_window_size: usize,
    streams: Vec<(u64, ReplayWindow)>,
    route_replay: RouteReplayCache,
    windows: Ghost<Map<u64, ReplayWindow>>,
}

impl RelayPacketHandler {
    /// The replay window of each stream seen so far.
    pub closed spec fn stream_windows(&self) -> Map<u64, ReplayWindow> {
        self.windows@
    }

    /// The size of every stream's replay window.
    pub closed spec fn window_size(&self) -> nat {
        self.replay_window_size as nat
    }

    /// The replay memory for route packets.
    pub closed spec fn route_cache(&self) -> RouteReplayCache {
        self.route_replay
    }

    /// The vector holds exactly the map's windows, each stream once, and every
    /// window has the configured size.
    pub closed spec fn wf(&self) -> bool {
        let s = self.streams@;
        let m = self.windows@;
        &&& 1 <= self.replay_window_size <= 128
        &&& forall|i: int|
            0 <= i < s.len() ==> #[trigger] m.contains_key(s[i].0) && m[s[i].0] == s[i].1
        &&& forall|k: u64| #[trigger]
            m.contains_key(k) ==> exists|i: int| 0 <= i < s.len() && #[trigger] s[i].0 == k
        &&& forall|i: int, j: int| 0 <= i < j < s.len() ==> #[trigger] s[i].0 != #[trigger] s[j].0
        &&& forall|k: u64| #[trigger] m.contains_key(k) ==> m[k].window() == self.replay_window_size
    }

    /// A handler whose streams get windows of `replay_window_size`, which must
    /// be between 1 and 128.
    pub fn new(replay_window_size: usize) -> (r: Result<Self, ReplayError>)
        ensures
            !(1 <= replay_window_size <= 128) ==> r == Err::<Self, ReplayError>(
                ReplayError::InvalidWindowSize(replay_window_size),
            ),
            1 <= replay_window_size <= 128 ==> (r matches Ok(h) && h.wf() && h.stream_windows()
                == Map::<u64, ReplayWindow>::empty() && h.window_size() == replay_window_size
                && h.route_cache().entries() == Seq::<(u64, u8, u128)>::empty()
                && h.route_cache().capacity() == 4096 && h.route_cache().ttl()
                == 300_000_000_000),
    {
        ReplayWindow::new(replay_window_size)?;
        Ok(
            Self {
                replay_window_size,
                streams: Vec::new(),
                route_replay: RouteReplayCache::new(),
                windows: Ghost(Map::empty()),
            },
        )
    }

    fn stream_index(&self, stream_id: u64) -> (r: Option<usize>)
        requires
            self.wf(),
        ensures
            match r {
                Some(i) => i < self.streams@.len() && self.streams@[i as int].0 == stream_id
                    && self.windows@.contains_key(stream_id),
                None => !self.windows@.contains_key(stream_id),
            },
    {
        let mut i: usize = 0;
        while i < self.streams.len()
            invariant
                self.wf(),
                i <= self.streams@.len(),
                forall|j: int| 0 <= j < i ==> #[trigger] self.streams@[j].0 != stream_id,
            decreases self.streams@.len() - i,
        {
            if self.streams[i].0 == stream_id {
                return Some(i);
            }
            i = i + 1;
        }
        None
    }

    /// Runs `observe(seq)` on the window of `stream_id`, creating a fresh
    /// window for a stream not seen before.
    fn observe_stream(&mut self, stream_id: u64, seq: u64) -> (r: Result<(), ReplayError>)
        requires
            old(self).wf(),
        ensures
            final(self).wf(),
            final(self).window_size() == old(self).window_size(),
            final(self).route_cache() == old(self).route_cache(),
            final(self).stream_windows().dom() == old(self).stream_windows().dom().insert(
                stream_id,
            ),
            forall|k: u64|
                k != stream_id && #[trigger] old(self).stream_windows().contains_key(k)
                    ==> final(self).stream_windows()[k] == old(self).stream_windows()[k],
            old(self).stream_windows().contains_key(stream_id) ==> {
                let w = old(self).stream_windows()[stream_id];
                let v = final(self).stream_windows()[stream_id];
                &&& r == replay_verdict(w, seq)
                &&& v.accepted() == if r is Ok {
                    w.accepted().insert(seq)
                } else {
                    w.accepted()
                }
                &&& v.highest() == if r is Ok {
                    advanced_highest(w.highest(), seq)
                } else {
                    w.highest()
                }
            },
            !old(self).stream_windows().contains_key(stream_id) ==> {
                &&& r is Ok
                &&& final(self).stream_windows()[stream_id].accepted() == set![seq]
                &&& final(self).stream_windows()[stream_id].highest() == Some(seq)
            },
            final(self).stream_windows()[stream_id].window() == old(self).window_size(),
    {
        let ghost old_map = self.windows@;
        let ghost old_seq = self.streams@;
        let idx = self.stream_index(stream_id);
        let ghost removed: int = match idx {
            Some(i) => i as int,
            None => -1,
        };
        let (id, mut window) = match idx {
            Some(i) => self.streams.remove(i),
            None => {
                let w = match ReplayWindow::new(self.replay_window_size) {
                    Ok(w) => w,
                    Err(_) => {
                        return Err(ReplayError::InvalidWindowSize(self.replay_window_size));
                    },
                };
                (stream_id, w)
            },
        };
        proof {
            if removed >= 0 {
                assert(old_map[old_seq[removed].0] == old_seq[removed].1);
            }
        }
        let result = window.observe(seq);
        let ghost mid = self.streams@;
        self.streams.push((id, window));
        proof {
            assert(set![seq] =~= Set::<u64>::empty().insert(seq));
            lemma_relink(old_seq, old_map, mid, stream_id, window, removed);
            self.windows@ = old_map.insert(stream_id, window);
            assert(self.streams@ =~= mid.push((stream_id, window)));
        }
        result
    }

    /// Handles one packet: shard and route packets are validated, checked for
    /// replay and forwarded with an acknowledgement; other types are refused.
    pub fn process(&mut self, packet: RelayPacket) -> (r: Result<RelayDecision, RelayHandlerError>)
        requires
            old(self).wf(),
        ensures
            final(self).wf(),
            final(self).window_size() == old(self).window_size(),
            packet.packet_type == RelayPacketType::Shard ==> shard_outcome(
                *old(self),
                packet,
                r,
                *final(self),
            ),
            packet.packet_type == RelayPacketType::Route ==> route_outcome(
                *old(self),
                packet,
                r,
                *final(self),
            ),
            packet.packet_type != RelayPacketType::Shard && packet.packet_type
                != RelayPacketType::Route ==> r == Err::<RelayDecision, RelayHandlerError>(
                RelayHandlerError::UnsupportedType(packet.packet_type),
            ) && final(self).stream_windows() == old(self).stream_windows()
                && final(self).route_cache() == old(self).route_cache(),
    {
        match packet.packet_type {
            RelayPacketType::Shard => self.process_shard(packet),
            RelayPacketType::Route => self.process_route(packet),
            RelayPacketType::Hello
            | RelayPacketType::Ack
            | RelayPacketType::Error
            | RelayPacketType::Data => Err(RelayHandlerError::UnsupportedType(packet.packet_type)),
        }
    }

    fn process_shard(&mut self, packet: RelayPacket) -> (r: Result<RelayDecision, RelayHandlerError>)
        requires
            old(self).wf(),
            packet.packet_type == RelayPacketType::Shard,
        ensures
            final(self).wf(),
            final(self).window_size() == old(self).window_size(),
            shard_outcome(*old(self), packet, r, *final(self)),
    {
        match packet.shard_cell() {
            Err(e) => {
                proof {
                    if shard_payload_ok(packet.payload@) {
                        let good = choose|c: SecureShardCell| cell_bytes(c) == packet.payload@
                            && #[trigger] header_check(c) is Ok;
                        let bad = choose|c: SecureShardCell| cell_bytes(c) == packet.payload@
                            && #[trigger] header_check(c) is Err && e
                            == RelayPacketError::InvalidShardCell(header_check(c)->Err_0);
                        lemma_cell_bytes_determine_cell(good, bad);
                        assert(header_check(good) == header_check(bad));
                    }
                }
                return Err(RelayHandlerError::Packet(e));
            },
            Ok(c) => {
                assert(shard_payload_ok(packet.payload@)) by {
                    assert(cell_bytes(c) == packet.payload@ && header_check(c) is Ok);
                }
            },
        }
        if let Err(e) = self.observe_stream(packet.stream_id, packet.sequence) {
            return Err(RelayHandlerError::Replay(e));
        }
        let ack = match RelayPacket::ack(packet.stream_id, packet.sequence) {
            Ok(a) => a,
            Err(e) => return Err(RelayHandlerError::Packet(e)),
        };
        Ok(RelayDecision::ForwardShard { packet, ack })
    }

    fn process_route(&mut self, packet: RelayPacket) -> (r: Result<RelayDecision, RelayHandlerError>)
        requires
            old(self).wf(),
            packet.packet_type == RelayPacketType::Route,
        ensures
            final(self).wf(),
            final(self).window_size() == old(self).window_size(),
            route_outcome(*old(self), packet, r, *final(self)),
    {
        let route_packet = match packet.route_packet() {
            Ok(p) => p,
            Err(e) => {
                let r = Err(RelayHandlerError::Packet(e));
                assert(route_outcome_at(*old(self), packet, r, *self, 0));
                return r;
            },
        };
        let observed = self.route_replay.observe(&route_packet);
        assert(self.streams == old(self).streams && self.windows == old(self).windows
            && self.replay_window_size == old(self).replay_window_size);
        let ghost now = choose|t: u128|
            #[trigger] replay_observed(
                old(self).route_replay.entries(),
                old(self).route_replay.ttl(),
                old(self).route_replay.capacity(),
                route_packet.packet_id,
                route_packet.hop_index,
                t,
                observed,
                self.route_replay.entries(),
            );
        if let Err(e) = observed {
            let r = Err(RelayHandlerError::Route(e));
            assert(route_outcome_at(*old(self), packet, r, *self, now));
            return r;
        }
        let ack = match RelayPacket::ack(packet.stream_id, packet.sequence) {
            Ok(a) => a,
            Err(e) => return Err(RelayHandlerError::Packet(e)),
        };
        let r = Ok(RelayDecision::ForwardRoute { packet, ack });
        assert(route_outcome_at(*old(self), packet, r, *self, now));
        r
    }
}

/// Taking the entry of `k` out of a vector of distinct keys that mirrors a
/// map, and appending `(k, w)`, mirrors the map with `k` set to `w`.
proof fn lemma_relink(
    old_seq: Seq<(u64, ReplayWindow)>,
    old_map: Map<u64, ReplayWindow>,
    mid: Seq<(u64, ReplayWindow)>,
    k: u64,
    w: ReplayWindow,
    removed: int,
)
    requires
        forall|i: int|
            0 <= i < old_seq.len() ==> #[trigger] old_map.contains_key(old_seq[i].0)
                && old_map[old_seq[i].0] == old_seq[i].1,
        forall|x: u64| #[trigger]
            old_map.contains_key(x) ==> exists|i: int| 0 <= i < old_seq.len() && #[trigger] old_seq[i].0 == x,
        forall|i: int, j: int|
            0 <= i < j < old_seq.len() ==> #[trigger] old_seq[i].0 != #[trigger] old_seq[j].0,
        removed < 0 ==> mid == old_seq && !old_map.contains_key(k),
        removed >= 0 ==> removed < old_seq.len() && old_seq[removed].0 == k && mid == old_seq.remove(removed),
    ensures
        ({
            let s = mid.push((k, w));
            let m = old_map.insert(k, w);
            &&& forall|i: int|
                0 <= i < s.len() ==> #[trigger] m.contains_key(s[i].0) && m[s[i].0] == s[i].1
            &&& forall|x: u64| #[trigger]
                m.contains_key(x) ==> exists|i: int| 0 <= i < s.len() && #[trigger] s[i].0 == x
            &&& forall|i: int, j: int| 0 <= i < j < s.len() ==> #[trigger] s[i].0 != #[trigger] s[j].0
        }),
{
    let s = mid.push((k, w));
    let m = old_map.insert(k, w);
    // Position in `old_seq` of the entry at `i` in `mid`.
    assert forall|i: int| 0 <= i < mid.len() implies mid[i] == old_seq[if removed >= 0 && i
        >= removed {
        i + 1
    } else {
        i
    }] by {}
    assert forall|i: int| 0 <= i < mid.len() implies #[trigger] mid[i].0 != k by {
        let j = if removed >= 0 && i >= removed { i + 1 } else { i };
        assert(mid[i] == old_seq[j]);
        if removed < 0 {
            assert(old_map.contains_key(old_seq[j].0));
        } else {
            assert(old_seq[j].0 != old_seq[removed].0);
        }
    }
    assert forall|i: int| 0 <= i < s.len() implies #[trigger] m.contains_key(s[i].0) && m[s[i].0]
        == s[i].1 by {
        if i < mid.len() {
            let j = if removed >= 0 && i >= removed { i + 1 } else { i };
            assert(s[i] == mid[i]);
            assert(mid[i] == old_seq[j]);
            assert(old_map.contains_key(old_seq[j].0));
        }
    }
    assert forall|x: u64| #[trigger] m.contains_key(x) implies exists|i: int|
        0 <= i < s.len() && #[trigger] s[i].0 == x by {
        if x == k {
            assert(s[s.len() - 1].0 == x);
        } else {
            let j = choose|j: int| 0 <= j < old_seq.len() && #[trigger] old_seq[j].0 == x;
            let i = if removed >= 0 && j > removed { j - 1 } else { j };
            if removed >= 0 {
                assert(j != removed);
            }
            assert(mid[i] == old_seq[j]);
            assert(s[i] == mid[i]);
        }
    }
    assert forall|i: int, j: int| 0 <= i < j < s.len() implies #[trigger] s[i].0
        != #[trigger] s[j].0 by {
        if j < mid.len() {
            let a = if removed >= 0 && i >= removed { i + 1 } else { i };
            let b = if removed >= 0 && j >= removed { j + 1 } else { j };
            assert(s[i] == mid[i] && s[j] == mid[j]);
            assert(mid[i] == old_seq[a] && mid[j] == old_seq[b]);
        } else {
            assert(s[i] == mid[i]);
        }
    }
}

/// Whether a shard packet's payload is an intact secure cell: of cell size,
/// with a header that checks.
pub open spec fn shard_payload_ok(payload: Seq<u8>) -> bool {
    payload.len() == APP_CELL_PAYLOAD_SIZE && exists|c| cell_bytes(c) == payload && #[trigger] header_check(c) is Ok
}

/// What handling a shard packet does. A payload that is no intact cell is
/// refused and nothing changes. Otherwise the stream's window (a fresh one
/// for a new stream) judges the sequence number: a refused number is reported
/// as a replay; an accepted one is remembered and the packet is forwarded
/// with an acknowledgement. Other streams and the route cache are untouched.
pub open spec fn shard_outcome(
    before: RelayPacketHandler,
    packet: RelayPacket,
    r: Result<RelayDecision, RelayHandlerError>,
    after: RelayPacketHandler,
) -> bool {
    let sid = packet.stream_id;
    let seq = packet.sequence;
    let known = before.stream_windows().contains_key(sid);
    let verdict = if known {
        replay_verdict(before.stream_windows()[sid], seq)
    } else {
        Ok(())
    };
    let accepted = if known {
        before.stream_windows()[sid].accepted()
    } else {
        Set::<u64>::empty()
    };
    let highest = if known {
        before.stream_windows()[sid].highest()
    } else {
        None
    };
    &&& after.route_cache() == before.route_cache()
    &&& if !shard_payload_ok(packet.payload@) {
        &&& r matches Err(RelayHandlerError::Packet(_))
        &&& after.stream_windows() == before.stream_windows()
    } else {
        &&& after.stream_windows().dom() == before.stream_windows().dom().insert(sid)
        &&& after.stream_windows()[sid].window() == before.window_size()
        &&& forall|k: u64|
            k != sid && #[trigger] before.stream_windows().contains_key(k)
                ==> after.stream_windows()[k] == before.stream_windows()[k]
        &&& match verdict {
            Err(e) => {
                &&& r == Err::<RelayDecision, RelayHandlerError>(RelayHandlerError::Replay(e))
                &&& after.stream_windows()[sid].accepted() == accepted
                &&& after.stream_windows()[sid].highest() == highest
            },
            Ok(()) => {
                &&& after.stream_windows()[sid].accepted() == accepted.insert(seq)
                &&& after.stream_windows()[sid].highest() == advanced_highest(highest, seq)
                &&& r matches Ok(RelayDecision::ForwardShard { packet: fwd, ack }) && fwd == packet
                    && relay_model(ack) == ack_model(sid, seq)
            },
        }
    }
}

/// What handling a route packet does. A payload that holds no route packet
/// is refused and nothing changes. Otherwise the route replay cache observes
/// the route packet's (id, hop) at some time; the handler reports the
/// cache's refusal, or forwards the packet with an acknowledgement. Stream
/// windows are untouched.
pub open spec fn route_outcome(
    before: RelayPacketHandler,
    packet: RelayPacket,
    r: Result<RelayDecision, RelayHandlerError>,
    after: RelayPacketHandler,
) -> bool {
    exists|now: u128| #[trigger] route_outcome_at(before, packet, r, after, now)
}

/// `route_outcome` with the cache observing at time `now`.
pub open spec fn route_outcome_at(
    before: RelayPacketHandler,
    packet: RelayPacket,
    r: Result<RelayDecision, RelayHandlerError>,
    after: RelayPacketHandler,
    now: u128,
) -> bool {
    &&& after.stream_windows() == before.stream_windows()
    &&& after.route_cache().capacity() == before.route_cache().capacity()
    &&& after.route_cache().ttl() == before.route_cache().ttl()
    &&& match route_payload_parse(packet.payload@) {
        Err(e) => r == Err::<RelayDecision, RelayHandlerError>(RelayHandlerError::Packet(e))
            && after.route_cache() == before.route_cache(),
        Ok((packet_id, hop_index, _)) => {
            &&& replay_observed(
                before.route_cache().entries(),
                before.route_cache().ttl(),
                before.route_cache().capacity(),
                packet_id,
                hop_index,
                now,
                route_verdict(r),
                after.route_cache().entries(),
            )
            &&& match r {
                Err(RelayHandlerError::Route(_)) => true,
                Ok(RelayDecision::ForwardRoute { packet: fwd, ack }) => fwd == packet && relay_model(
                    ack,
                ) == ack_model(packet.stream_id, packet.sequence),
                _ => false,
            }
        },
    }
}

/// The route cache's answer that a handler result reports.
pub open spec fn route_verdict(r: Result<RelayDecision, RelayHandlerError>) -> Result<
    (),
    RouteLayerError,
> {
    match r {
        Err(RelayHandlerError::Route(e)) => Err(e),
        _ => Ok(()),
    }
}

impl Default for RelayPacketHandler {
    fn default() -> (h: Self)
        ensures
            h.wf(),
            h.stream_windows() == Map::<u64, ReplayWindow>::empty(),
            h.window_size() == 128,
            h.route_cache().entries() == Seq::<(u64, u8, u128)>::empty(),
    {
        Self {
            replay_window_size: 128,
            streams: Vec::new(),
            route_replay: RouteReplayCache::new(),
            windows: Ghost(Map::empty()),
        }
    }
}

} // verus!
