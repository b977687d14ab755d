//! Circuit session lifecycle: open, touch, rekey, close and idle expiry.
use vstd::prelude::*;
use std::time::{Duration, Instant};
use crate::route_layer::RouteHopSecret;
use crate::time::{duration_as_nanos, instant_duration_since, instant_now, duration_nanos};

verus! {

#[derive(Debug, Clone, Copy, PartialEq, Eq, Structural)]
pub enum SessionState {
    Open,
    Closing,
    Closed,
}

#[derive(Debug, Clone)]
pub struct CircuitSession {
    pub session_id: u64,
    pub stream_id: u64,
    pub route_secret: RouteHopSecret,
    pub state: SessionState,
    pub created_at: Instant,
    pub last_active: Instant,
    pub rekey_counter: u64,
}

#[derive(Debug, Clone, PartialEq, Eq, Structural)]
pub enum SessionError {
    NotFound(u64),
    Closed(u64),
}

/// Sessions by id; ids and stream ids are handed out in increasing order.
pub struct SessionManager {
    sessions: Vec<CircuitSession>,
    next_session_id: u64,
    next_stream_id: u64,
    by_id: Ghost<Map<u64, CircuitSession>>,
}

fn copy_secret(s: &RouteHopSecret) -> (r: RouteHopSecret)
    ensures
        r == *s,
{
    RouteHopSecret(s.0)
}

fn copy_session(s: &CircuitSession) -> (r: CircuitSession)
    ensures
        r == *s,
{
    CircuitSession {
        session_id: s.session_id,
        stream_id: s.stream_id,
        route_secret: copy_secret(&s.route_secret),
        state: s.state,
        created_at: s.created_at.clone(),
        last_active: s.last_active.clone(),
        rekey_counter: s.rekey_counter,
    }
}

impl View for SessionManager {
    type V = Map<u64, CircuitSession>;

    /// The open sessions, by session id.
    closed spec fn view(&self) -> Map<u64, CircuitSession> {
        self.by_id@
    }
}

impl SessionManager {
    /// The id the next opened session gets.
    pub closed spec fn next_id(&self) -> u64 {
        self.next_session_id
    }

    /// The stream id the next opened session gets.
    pub closed spec fn next_stream(&self) -> u64 {
        self.next_stream_id
    }

    /// The vector holds exactly the sessions of the map, each once, keyed by
    /// its own id, and every id is below the next one handed out.
    pub closed spec fn wf(&self) -> bool {
        let s = self.sessions@;
        let m = self.by_id@;
        &&& m.dom().finite()
        &&& m.len() == s.len()
        &&& forall|i: int|
            0 <= i < s.len() ==> #[trigger] m.contains_key(s[i].session_id) && m[s[i].session_id]
                == s[i]
        &&& forall|i: int, j: int|
            0 <= i < j < s.len() ==> #[trigger] s[i].session_id != #[trigger] s[j].session_id
        &&& forall|k: u64| #[trigger] m.contains_key(k) ==> k < self.next_session_id
        &&& forall|k: u64| #[trigger]
            m.contains_key(k) ==> m[k].session_id == k
    }

    pub fn new() -> (m: Self)
        ensures
            m.wf(),
            m@ == Map::<u64, CircuitSession>::empty(),
            m.next_id() == 1,
            m.next_stream() == 10_000,
    {
        Self { sessions: Vec::new(), next_session_id: 1, next_stream_id: 10_000, by_id: Ghost(Map::empty()) }
    }

    fn index_of(&self, session_id: u64) -> (r: Option<usize>)
        requires
            self.wf(),
        ensures
            match r {
                Some(i) => i < self.sessions@.len() && self.sessions@[i as int].session_id
                    == session_id && self@.contains_key(session_id) && self@[session_id]
                    == self.sessions@[i as int],
                None => !self@.contains_key(session_id),
            },
    {
        let mut i: usize = 0;
        while i < self.sessions.len()
            invariant
                self.wf(),
                i <= self.sessions@.len(),
                forall|j: int| 0 <= j < i ==> #[trigger] self.sessions@[j].session_id != session_id,
            decreases self.sessions@.len() - i,
        {
            if self.sessions[i].session_id == session_id {
                return Some(i);
            }
            i = i + 1;
        }
        proof {
            if self.by_id@.contains_key(session_id) {
                self.lemma_key_has_index(session_id);
            }
        }
        None
    }

    proof fn lemma_key_has_index(&self, k: u64)
        requires
            self.wf(),
            self@.contains_key(k),
        ensures
            exists|i: int| 0 <= i < self.sessions@.len() && #[trigger] self.sessions@[i].session_id == k,
    {
        let s = self.sessions@;
        let m = self.by_id@;
        if forall|i: int| 0 <= i < s.len() ==> #[trigger] s[i].session_id != k {
            // Then the sessions' ids form a set that misses `k` yet has as
            // many elements as the map's domain, which holds `k`.
            let ids = Set::new(|x: u64| exists|i: int| 0 <= i < s.len() && s[i].session_id == x);
            assert(ids.subset_of(m.dom().remove(k))) by {
                assert forall|x: u64| ids.contains(x) implies m.dom().remove(k).contains(x) by {
                    let i = choose|i: int| 0 <= i < s.len() && s[i].session_id == x;
                    assert(m.contains_key(s[i].session_id));
                }
            }
            vstd::set_lib::lemma_len_subset(ids, m.dom().remove(k));
            lemma_distinct_ids_count(s, s.len() as int);
            assert(ids =~= distinct_ids_prefix(s, s.len() as int));
        }
    }

    /// Opens a session with the next session and stream ids.
    pub fn open(&mut self, route_secret: RouteHopSecret) -> (s: CircuitSession)
        requires
            old(self).wf(),
            old(self).next_id() < u64::MAX,
            old(self).next_stream() < u64::MAX,
        ensures
            final(self).wf(),
            s.session_id == old(self).next_id(),
            s.stream_id == old(self).next_stream(),
            s.route_secret == route_secret,
            s.state == SessionState::Open,
            s.last_active == s.created_at,
            s.rekey_counter == 0,
            !old(self)@.contains_key(s.session_id),
            final(self)@ == old(self)@.insert(s.session_id, s),
            final(self).next_id() == old(self).next_id() + 1,
            final(self).next_stream() == old(self).next_stream() + 1,
    {
        let now = instant_now();
        let session = CircuitSession {
            session_id: self.next_session_id,
            stream_id: self.next_stream_id,
            route_secret,
            state: SessionState::Open,
            created_at: now.clone(),
            last_active: now,
            rekey_counter: 0,
        };
        let stored = copy_session(&session);
        let ghost old_map = self.by_id@;
        let ghost old_seq = self.sessions@;
        assert(!old_map.contains_key(session.session_id));
        self.next_session_id = self.next_session_id + 1;
        self.next_stream_id = self.next_stream_id + 1;
        self.sessions.push(stored);
        self.by_id = Ghost(old_map.insert(session.session_id, session));
        proof {
            let s = self.sessions@;
            assert forall|i: int| 0 <= i < s.len() implies #[trigger] self.by_id@.contains_key(
                s[i].session_id,
            ) && self.by_id@[s[i].session_id] == s[i] by {
                if i < old_seq.len() {
                    assert(s[i] == old_seq[i]);
                    assert(old_map.contains_key(old_seq[i].session_id));
                }
            }
            assert forall|i: int, j: int|
                0 <= i < j < s.len() implies #[trigger] s[i].session_id
                != #[trigger] s[j].session_id by {
                if j < old_seq.len() {
                    assert(s[i] == old_seq[i] && s[j] == old_seq[j]);
                } else {
                    assert(s[i] == old_seq[i]);
                    assert(old_map.contains_key(old_seq[i].session_id));
                }
            }
        }
        session
    }

    /// Replaces the session at `i` by `updated`, which keeps its id.
    fn replace_at(&mut self, i: usize, updated: CircuitSession)
        requires
            old(self).wf(),
            i < old(self).sessions@.len(),
            updated.session_id == old(self).sessions@[i as int].session_id,
        ensures
            final(self).wf(),
            final(self)@ == old(self)@.insert(updated.session_id, updated),
            final(self).next_id() == old(self).next_id(),
            final(self).next_stream() == old(self).next_stream(),
    {
        let ghost old_map = self.by_id@;
        let ghost old_seq = self.sessions@;
        let ghost id = updated.session_id;
        assert(old_map.contains_key(old_seq[i as int].session_id));
        self.sessions.set(i, copy_session(&updated));
        self.by_id = Ghost(old_map.insert(id, updated));
        proof {
            let s = self.sessions@;
            assert(self.by_id@.dom() =~= old_map.dom());
            assert forall|j: int| 0 <= j < s.len() implies #[trigger] self.by_id@.contains_key(
                s[j].session_id,
            ) && self.by_id@[s[j].session_id] == s[j] by {
                if j != i {
                    assert(s[j] == old_seq[j]);
                    assert(old_map.contains_key(old_seq[j].session_id));
                }
            }
            assert forall|a: int, b: int|
                0 <= a < b < s.len() implies #[trigger] s[a].session_id
                != #[trigger] s[b].session_id by {
                assert(old_seq[a].session_id != old_seq[b].session_id);
            }
        }
    }

    /// Marks a session as active now; a closed session is refused.
    pub fn touch(&mut self, session_id: u64) -> (r: Result<(), SessionError>)
        requires
            old(self).wf(),
        ensures
            final(self).wf(),
            final(self).next_id() == old(self).next_id(),
            final(self).next_stream() == old(self).next_stream(),
            !old(self)@.contains_key(session_id) ==> r == Err::<(), SessionError>(
                SessionError::NotFound(session_id),
            ) && final(self)@ == old(self)@,
            old(self)@.contains_key(session_id) && old(self)@[session_id].state
                == SessionState::Closed ==> r == Err::<(), SessionError>(
                SessionError::Closed(session_id),
            ) && final(self)@ == old(self)@,
            old(self)@.contains_key(session_id) && old(self)@[session_id].state
                != SessionState::Closed ==> r is Ok && final(self)@ == old(self)@.insert(
                session_id,
                CircuitSession { last_active: final(self)@[session_id].last_active, ..old(self)@[session_id] },
            ),
    {
        let i = match self.index_of(session_id) {
            Some(i) => i,
            None => return Err(SessionError::NotFound(session_id)),
        };
        if self.sessions[i].state == SessionState::Closed {
            return Err(SessionError::Closed(session_id));
        }
        let mut updated = copy_session(&self.sessions[i]);
        updated.last_active = instant_now();
        self.replace_at(i, updated);
        Ok(())
    }

    /// Marks a session as closing, whatever its state.
    pub fn mark_closing(&mut self, session_id: u64) -> (r: Result<(), SessionError>)
        requires
            old(self).wf(),
        ensures
            final(self).wf(),
            final(self).next_id() == old(self).next_id(),
            final(self).next_stream() == old(self).next_stream(),
            !old(self)@.contains_key(session_id) ==> r == Err::<(), SessionError>(
                SessionError::NotFound(session_id),
            ) && final(self)@ == old(self)@,
            old(self)@.contains_key(session_id) ==> r is Ok && final(self)@ == old(self)@.insert(
                session_id,
                CircuitSession { state: SessionState::Closing, ..old(self)@[session_id] },
            ),
    {
        self.set_state(session_id, SessionState::Closing)
    }

    /// Marks a session as closed, whatever its state.
    pub fn close(&mut self, session_id: u64) -> (r: Result<(), SessionError>)
        requires
            old(self).wf(),
        ensures
            final(self).wf(),
            final(self).next_id() == old(self).next_id(),
            final(self).next_stream() == old(self).next_stream(),
            !old(self)@.contains_key(session_id) ==> r == Err::<(), SessionError>(
                SessionError::NotFound(session_id),
            ) && final(self)@ == old(self)@,
            old(self)@.contains_key(session_id) ==> r is Ok && final(self)@ == old(self)@.insert(
                session_id,
                CircuitSession { state: SessionState::Closed, ..old(self)@[session_id] },
            ),
    {
        self.set_state(session_id, SessionState::Closed)
    }

    fn set_state(&mut self, session_id: u64, state: SessionState) -> (r: Result<(), SessionError>)
        requires
            old(self).wf(),
        ensures
            final(self).wf(),
            final(self).next_id() == old(self).next_id(),
            final(self).next_stream() == old(self).next_stream(),
            !old(self)@.contains_key(session_id) ==> r == Err::<(), SessionError>(
                SessionError::NotFound(session_id),
            ) && final(self)@ == old(self)@,
            old(self)@.contains_key(session_id) ==> r is Ok && final(self)@ == old(self)@.insert(
                session_id,
                CircuitSession { state, ..old(self)@[session_id] },
            ),
    {
        let i = match self.index_of(session_id) {
            Some(i) => i,
            None => return Err(SessionError::NotFound(session_id)),
        };
        let mut updated = copy_session(&self.sessions[i]);
        updated.state = state;
        self.replace_at(i, updated);
        Ok(())
    }

    /// Installs a new route secret and counts the rekey; a closed session is refused.
    pub fn rekey(&mut self, session_id: u64, new_secret: RouteHopSecret) -> (r: Result<
        (),
        SessionError,
    >)
        requires
            old(self).wf(),
        ensures
            final(self).wf(),
            final(self).next_id() == old(self).next_id(),
            final(self).next_stream() == old(self).next_stream(),
            !old(self)@.contains_key(session_id) ==> r == Err::<(), SessionError>(
                SessionError::NotFound(session_id),
            ) && final(self)@ == old(self)@,
            old(self)@.contains_key(session_id) && old(self)@[session_id].state
                == SessionState::Closed ==> r == Err::<(), SessionError>(
                SessionError::Closed(session_id),
            ) && final(self)@ == old(self)@,
            old(self)@.contains_key(session_id) && old(self)@[session_id].state
                != SessionState::Closed ==> r is Ok && final(self)@ == old(self)@.insert(
                session_id,
                CircuitSession {
                    route_secret: new_secret,
                    rekey_counter: old(self)@[session_id].rekey_counter.saturating_add(1),
                    last_active: final(self)@[session_id].last_active,
                    ..old(self)@[session_id]
                },
            ),
    {
        let i = match self.index_of(session_id) {
            Some(i) => i,
            None => return Err(SessionError::NotFound(session_id)),
        };
        if self.sessions[i].state == SessionState::Closed {
            return Err(SessionError::Closed(session_id));
        }
        let mut updated = copy_session(&self.sessions[i]);
        updated.route_secret = new_secret;
        updated.rekey_counter = updated.rekey_counter.saturating_add(1);
        updated.last_active = instant_now();
        self.replace_at(i, updated);
        Ok(())
    }

    /// Drops every closed session and every session idle for `max_idle` or
    /// longer, and returns how many were dropped. Idleness is read from the
    /// clock: for the readings taken, the survivors are exactly the open
    /// sessions idle for less than `max_idle` (see `expire_sessions`); with a
    /// zero limit every session goes.
    pub fn expire_idle(&mut self, max_idle: Duration) -> (removed: usize)
        requires
            old(self).wf(),
        ensures
            final(self).wf(),
            final(self).next_id() == old(self).next_id(),
            final(self).next_stream() == old(self).next_stream(),
            final(self)@.submap_of(old(self)@),
            forall|k: u64| #[trigger]
                final(self)@.contains_key(k) ==> final(self)@[k].state != SessionState::Closed,
            removed == old(self)@.len() - final(self)@.len(),
            duration_nanos(max_idle) == 0 ==> final(self)@.len() == 0,
            exists|idle: Seq<u128>| #[trigger] expired_by(*old(self), *final(self), idle, duration_nanos(max_idle)),
    {
        let now = instant_now();
        let mut idle: Vec<u128> = Vec::new();
        let mut i: usize = 0;
        while i < self.sessions.len()
            invariant
                i <= self.sessions@.len(),
                idle@.len() == i,
            decreases self.sessions@.len() - i,
        {
            let d = instant_duration_since(&now, &self.sessions[i].last_active);
            idle.push(duration_as_nanos(&d));
            i = i + 1;
        }
        let limit = duration_as_nanos(&max_idle);
        let ghost before = *self;
        let removed = self.expire_sessions(idle.as_slice(), limit);
        proof {
            assert(expired_by(before, *self, idle@, duration_nanos(max_idle)));
            assert forall|k: u64| #[trigger] self@.contains_key(k) implies self@[k].state != SessionState::Closed by {
                assert(self@.contains_key(k) == (exists|j: int|
                    0 <= j < before.order().len() && before.order()[j] == k && before@[k].state
                        != SessionState::Closed && idle@[j] < limit));
                let j = choose|j: int|
                    0 <= j < before.order().len() && before.order()[j] == k && before@[k].state
                        != SessionState::Closed && idle@[j] < limit;
                assert(before.sessions@[j].session_id == k);
                assert(before.by_id@.contains_key(before.sessions@[j].session_id));
                assert(self@.submap_of(before@));
                assert(self@.dom().contains(k) && before@.dom().contains(k));
                assert(self@[k] == before@[k]);
            }
            if limit == 0 {
                assert(self@ =~= Map::<u64, CircuitSession>::empty());
            }
        }
        removed
    }

    /// The sessions' ids in storage order.
    pub closed spec fn order(&self) -> Seq<u64> {
        self.sessions@.map_values(|s: CircuitSession| s.session_id)
    }

    /// Drops the sessions that are closed or whose idle time (`idle_nanos`,
    /// one entry per session in storage order) is at least `max_idle_nanos`,
    /// keeps the others unchanged, and returns how many were dropped.
    pub fn expire_sessions(&mut self, idle_nanos: &[u128], max_idle_nanos: u128) -> (removed: usize)
        requires
            old(self).wf(),
            idle_nanos@.len() == old(self).order().len(),
        ensures
            final(self).wf(),
            final(self).next_id() == old(self).next_id(),
            final(self).next_stream() == old(self).next_stream(),
            expired_by(*old(self), *final(self), idle_nanos@, max_idle_nanos as nat),
            removed == old(self)@.len() - final(self)@.len(),
    {
        let ghost old_map = self.by_id@;
        let ghost old_seq = self.sessions@;
        let mut kept: Vec<CircuitSession> = Vec::new();
        let ghost mut kept_map: Map<u64, CircuitSession> = Map::empty();
        let mut i: usize = 0;
        while i < self.sessions.len()
            invariant
                self.wf(),
                self.sessions@ == old_seq,
                self.by_id@ == old_map,
                idle_nanos@.len() == old_seq.len(),
                i <= old_seq.len(),
                kept_map.dom().finite(),
                kept_map.len() == kept@.len(),
                kept@.len() <= i,
                forall|j: int|
                    0 <= j < kept@.len() ==> #[trigger] kept_map.contains_key(kept@[j].session_id)
                        && kept_map[kept@[j].session_id] == kept@[j],
                forall|a: int, b: int|
                    0 <= a < b < kept@.len() ==> #[trigger] kept@[a].session_id
                        != #[trigger] kept@[b].session_id,
                forall|k: u64| #[trigger]
                    kept_map.contains_key(k) ==> old_map.contains_key(k) && kept_map[k]
                        == old_map[k] && old_map[k].state != SessionState::Closed,
                forall|k: u64| #[trigger]
                    kept_map.contains_key(k) ==> exists|j: int|
                        0 <= j < i && #[trigger] old_seq[j].session_id == k && idle_nanos@[j] < max_idle_nanos,
                forall|j: int|
                    0 <= j < i && (#[trigger] old_seq[j]).state != SessionState::Closed && idle_nanos@[j]
                        < max_idle_nanos ==> kept_map.contains_key(old_seq[j].session_id),
            decreases old_seq.len() - i,
        {
            let s = &self.sessions[i];
            let keep = idle_nanos[i] < max_idle_nanos && s.state != SessionState::Closed;
            if keep {
                let ghost id = s.session_id;
                proof {
                    assert(old_map.contains_key(old_seq[i as int].session_id));
                    if kept_map.contains_key(id) {
                        let j = choose|j: int|
                            0 <= j < i && #[trigger] old_seq[j].session_id == id && idle_nanos@[j] < max_idle_nanos;
                        assert(old_seq[j].session_id != old_seq[i as int].session_id);
                    }
                }
                let ghost before = kept@;
                kept.push(copy_session(s));
                proof {
                    kept_map = kept_map.insert(id, old_seq[i as int]);
                    let kv = kept@;
                    assert forall|j: int| 0 <= j < kv.len() implies #[trigger] kept_map.contains_key(
                        kv[j].session_id,
                    ) && kept_map[kv[j].session_id] == kv[j] by {
                        if j < before.len() {
                            assert(kv[j] == before[j]);
                        }
                    }
                    assert forall|a: int, b: int|
                        0 <= a < b < kv.len() implies #[trigger] kv[a].session_id
                        != #[trigger] kv[b].session_id by {
                        if b < before.len() {
                            assert(kv[a] == before[a] && kv[b] == before[b]);
                        } else {
                            assert(kv[a] == before[a]);
                        }
                    }
                }
            }
            i = i + 1;
        }
        let before_len = self.sessions.len();
        let after_len = kept.len();
        proof {
            assert forall|k: u64| kept_map.contains_key(k) implies k < self.next_session_id by {
                assert(old_map.contains_key(k));
            }
            assert forall|k: u64| kept_map.contains_key(k) implies kept_map[k].session_id == k by {
                assert(old_map.contains_key(k));
            }
            vstd::set_lib::lemma_len_subset(kept_map.dom(), old_map.dom());
        }
        let ghost old_self = *self;
        assert(old_self.wf());
        self.sessions = kept;
        self.by_id = Ghost(kept_map);
        proof {
            let ord = old_self.order();
            assert forall|k: u64| #[trigger] kept_map.contains_key(k) == (exists|j: int|
                0 <= j < ord.len() && ord[j] == k && old_map[k].state != SessionState::Closed
                    && idle_nanos@[j] < max_idle_nanos) by {
                if kept_map.contains_key(k) {
                    let j = choose|j: int|
                        0 <= j < old_seq.len() && #[trigger] old_seq[j].session_id == k && idle_nanos@[j] < max_idle_nanos;
                    assert(ord[j] == k);
                }
                if exists|j: int|
                    0 <= j < ord.len() && ord[j] == k && old_map[k].state != SessionState::Closed
                        && idle_nanos@[j] < max_idle_nanos {
                    let j = choose|j: int|
                        0 <= j < ord.len() && ord[j] == k && old_map[k].state != SessionState::Closed
                            && idle_nanos@[j] < max_idle_nanos;
                    assert(old_seq[j].session_id == k);
                    assert(old_map.contains_key(old_seq[j].session_id));
                    assert(old_map[old_seq[j].session_id] == old_seq[j]);
                }
            }
        }
        before_len - after_len
    }

    pub fn get(&self, session_id: u64) -> (r: Option<&CircuitSession>)
        requires
            self.wf(),
        ensures
            match r {
                Some(s) => self@.contains_key(session_id) && *s == self@[session_id],
                None => !self@.contains_key(session_id),
            },
    {
        match self.index_of(session_id) {
            Some(i) => Some(&self.sessions[i]),
            None => None,
        }
    }

    pub fn len(&self) -> (n: usize)
        requires
            self.wf(),
        ensures
            n == self@.len(),
    {
        self.sessions.len()
    }

    pub fn is_empty(&self) -> (b: bool)
        requires
            self.wf(),
        ensures
            b == (self@.len() == 0),
    {
        self.sessions.len() == 0
    }
}

impl Default for SessionManager {
    fn default() -> (m: Self)
        ensures
            m.wf(),
            m@ == Map::<u64, CircuitSession>::empty(),
            m.next_id() == 0,
            m.next_stream() == 0,
    {
        Self { sessions: Vec::new(), next_session_id: 0, next_stream_id: 0, by_id: Ghost(Map::empty()) }
    }
}

/// The set of ids among the first `n` sessions.
pub open spec fn distinct_ids_prefix(s: Seq<CircuitSession>, n: int) -> Set<u64> {
    Set::new(|x: u64| exists|i: int| 0 <= i < n && s[i].session_id == x)
}

/// With pairwise distinct ids, the first `n` sessions have `n` distinct ids.
proof fn lemma_distinct_ids_count(s: Seq<CircuitSession>, n: int)
    requires
        0 <= n <= s.len(),
        forall|i: int, j: int|
            0 <= i < j < s.len() ==> #[trigger] s[i].session_id != #[trigger] s[j].session_id,
    ensures
        distinct_ids_prefix(s, n).finite(),
        distinct_ids_prefix(s, n).len() == n,
    decreases n,
{
    if n == 0 {
        assert(distinct_ids_prefix(s, 0) =~= Set::<u64>::empty());
    } else {
        lemma_distinct_ids_count(s, n - 1);
        let prev = distinct_ids_prefix(s, n - 1);
        assert(distinct_ids_prefix(s, n) =~= prev.insert(s[n - 1].session_id));
        if prev.contains(s[n - 1].session_id) {
            let i = choose|i: int| 0 <= i < n - 1 && #[trigger] s[i].session_id == s[n - 1].session_id;
            assert(s[i].session_id != s[n - 1].session_id);
        }
    }
}

/// `next` is `prev` with exactly the sessions kept that are open and whose
/// idle time (`idle`, one entry per session in storage order) is below
/// `limit`; the kept sessions are unchanged.
pub open spec fn expired_by(prev: SessionManager, next: SessionManager, idle: Seq<u128>, limit: nat) -> bool {
    &&& idle.len() == prev.order().len()
    &&& next@.submap_of(prev@)
    &&& forall|k: u64|
        #[trigger] next@.contains_key(k) == (exists|j: int|
            0 <= j < prev.order().len() && prev.order()[j] == k && prev@[k].state
                != SessionState::Closed && idle[j] < limit)
}

} // verus!

