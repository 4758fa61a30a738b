//! Host-side controller sessions and the heartbeat guard.
//!
//! The daemon keeps one session per registered controller, in controller-id
//! order, records heartbeats and queue reports, and faults when a session's
//! heartbeat lapses. A faulted daemon stays faulted.

use vstd::prelude::*;
use crate::client::decode_queue_status_frame;
use crate::flash::{compare_text, lemma_text_order, lemma_text_order_strict, text_order};
use crate::protocol::{DecodeError, QueueStatus, QueueStatusFrame, spec_decode_queue_status};
use crate::text::string_views;

verus! {

/// The daemon's connection lifecycle.
#[derive(Debug, Clone, Copy, PartialEq, Eq, Structural)]
pub enum DaemonState {
    Uninitialized,
    Connecting,
    Connected,
    Running,
    Faulted,
    Disconnected,
}

/// A snapshot of one session.
#[derive(Debug, Clone, PartialEq, Eq)]
pub struct ControllerSessionStatus {
    pub controller_id: String,
    pub heartbeat_timeout_us: u64,
    pub last_seen_host_us: u64,
    pub queue_capacity: u16,
    pub queue_fill: u16,
    pub earliest_accepted_tick: u64,
    pub latest_accepted_tick: u64,
    pub underrun: bool,
    pub heartbeat_ok: bool,
}

/// One registered controller.
#[derive(Debug)]
pub struct ControllerSession {
    pub controller_id: String,
    pub heartbeat_timeout_us: u64,
    /// Host time of the last heartbeat; zero before the first one.
    pub last_seen_host_us: u64,
    pub last_status: Option<QueueStatus>,
}

/// A session is alive before its first heartbeat, and afterwards while no
/// more than its timeout has passed since the last one.
pub open spec fn heartbeat_alive(session: ControllerSession, now: u64) -> bool {
    session.last_seen_host_us == 0 || (if now >= session.last_seen_host_us {
        now - session.last_seen_host_us
    } else {
        0
    }) <= session.heartbeat_timeout_us
}

/// The snapshot of a session at host time `now`.
pub open spec fn status_of(session: ControllerSession, now: u64) -> ControllerSessionStatus {
    let (capacity, fill, earliest, latest, underrun) = match session.last_status {
        Some(s) => (s.capacity, s.fill, s.earliest_accepted, s.latest_accepted, s.underrun),
        None => (0u16, 0u16, 0u64, 0u64, false),
    };
    ControllerSessionStatus {
        controller_id: session.controller_id,
        heartbeat_timeout_us: session.heartbeat_timeout_us,
        last_seen_host_us: session.last_seen_host_us,
        queue_capacity: capacity,
        queue_fill: fill,
        earliest_accepted_tick: earliest,
        latest_accepted_tick: latest,
        underrun,
        heartbeat_ok: heartbeat_alive(session, now),
    }
}

impl ControllerSession {
    /// A session that has seen neither a heartbeat nor a queue report.
    pub fn new(controller_id: &str, heartbeat_timeout_us: u64) -> (session: Self)
        ensures
            session.controller_id@ == controller_id@,
            session.heartbeat_timeout_us == heartbeat_timeout_us,
            session.last_seen_host_us == 0,
            session.last_status is None,
    {
        ControllerSession {
            controller_id: controller_id.to_owned(),
            heartbeat_timeout_us,
            last_seen_host_us: 0,
            last_status: None,
        }
    }

    pub fn record_heartbeat(&mut self, current_host_us: u64)
        ensures
            final(self).last_seen_host_us == current_host_us,
            final(self).controller_id == old(self).controller_id,
            final(self).heartbeat_timeout_us == old(self).heartbeat_timeout_us,
            final(self).last_status == old(self).last_status,
    {
        self.last_seen_host_us = current_host_us;
    }

    pub fn is_heartbeat_alive(&self, current_host_us: u64) -> (alive: bool)
        ensures
            alive == heartbeat_alive(*self, current_host_us),
    {
        if self.last_seen_host_us == 0 {
            return true;
        }
        current_host_us.saturating_sub(self.last_seen_host_us) <= self.heartbeat_timeout_us
    }

    pub fn status(&self, current_host_us: u64) -> (status: ControllerSessionStatus)
        ensures
            status == status_of(*self, current_host_us),
    {
        let (capacity, fill, earliest, latest, underrun) = match self.last_status {
            Some(s) => (s.capacity, s.fill, s.earliest_accepted, s.latest_accepted, s.underrun),
            None => (0u16, 0u16, 0u64, 0u64, false),
        };
        ControllerSessionStatus {
            controller_id: self.controller_id.clone(),
            heartbeat_timeout_us: self.heartbeat_timeout_us,
            last_seen_host_us: self.last_seen_host_us,
            queue_capacity: capacity,
            queue_fill: fill,
            earliest_accepted_tick: earliest,
            latest_accepted_tick: latest,
            underrun,
            heartbeat_ok: self.is_heartbeat_alive(current_host_us),
        }
    }
}

/// Session ids strictly increase, so each controller has one session.
pub open spec fn ids_increase(sessions: Seq<ControllerSession>) -> bool {
    forall|i: int, j: int|
        0 <= i < j < sessions.len() ==> text_order(
            sessions[i].controller_id@,
            sessions[j].controller_id@,
        ) < 0
}

/// The session registered under `id`.
pub open spec fn session_for(sessions: Seq<ControllerSession>, id: Seq<char>) -> Option<
    ControllerSession,
>
    decreases sessions.len(),
{
    if sessions.len() == 0 {
        None
    } else if sessions[0].controller_id@ == id {
        Some(sessions[0])
    } else {
        session_for(sessions.drop_first(), id)
    }
}

/// The ids of the sessions whose heartbeat has lapsed, in id order.
pub open spec fn lapsed_ids(sessions: Seq<ControllerSession>, now: u64) -> Seq<Seq<char>>
    decreases sessions.len(),
{
    if sessions.len() == 0 {
        seq![]
    } else {
        let rest = lapsed_ids(sessions.drop_last(), now);
        if heartbeat_alive(sessions.last(), now) {
            rest
        } else {
            rest.push(sessions.last().controller_id@)
        }
    }
}

/// A fresh session for `id`.
pub open spec fn fresh_session(session: ControllerSession, id: Seq<char>, timeout: u64) -> bool {
    &&& session.controller_id@ == id
    &&& session.heartbeat_timeout_us == timeout
    &&& session.last_seen_host_us == 0
    &&& session.last_status is None
}

/// The lifecycle state after the first registration.
pub open spec fn state_after_registration(state: DaemonState) -> DaemonState {
    if state == DaemonState::Uninitialized {
        DaemonState::Connected
    } else {
        state
    }
}

/// The daemon: its lifecycle state and one session per registered
/// controller, in controller-id order.
#[derive(Debug)]
pub struct ControllerDaemon {
    state: DaemonState,
    sessions: Vec<ControllerSession>,
}

proof fn lemma_session_for_index(sessions: Seq<ControllerSession>, id: Seq<char>, k: int)
    requires
        ids_increase(sessions),
        0 <= k < sessions.len(),
        sessions[k].controller_id@ == id,
    ensures
        session_for(sessions, id) == Some(sessions[k]),
    decreases k,
{
    if k > 0 {
        if sessions[0].controller_id@ == id {
            lemma_text_order(sessions[0].controller_id@, sessions[k].controller_id@, id);
        }
        lemma_session_for_index(sessions.drop_first(), id, k - 1);
    }
}

proof fn lemma_session_for_absent(sessions: Seq<ControllerSession>, id: Seq<char>)
    requires
        forall|i: int| 0 <= i < sessions.len() ==> #[trigger] sessions[i].controller_id@ != id,
    ensures
        session_for(sessions, id) is None,
    decreases sessions.len(),
{
    if sessions.len() > 0 {
        lemma_session_for_absent(sessions.drop_first(), id);
    }
}

impl ControllerDaemon {
    #[verifier::type_invariant]
    spec fn sessions_ordered(self) -> bool {
        ids_increase(self.sessions@)
    }

    /// The lifecycle state.
    pub closed spec fn lifecycle(&self) -> DaemonState {
        self.state
    }

    /// The sessions, in controller-id order.
    pub closed spec fn session_list(&self) -> Seq<ControllerSession> {
        self.sessions@
    }

    pub fn new() -> (daemon: Self)
        ensures
            daemon.lifecycle() == DaemonState::Uninitialized,
            daemon.session_list().len() == 0,
            ids_increase(daemon.session_list()),
    {
        ControllerDaemon { state: DaemonState::Uninitialized, sessions: Vec::new() }
    }

    pub fn state(&self) -> (state: DaemonState)
        ensures
            state == self.lifecycle(),
    {
        self.state
    }

    /// Where `id` is, or where it belongs.
    fn position(&self, id: &str) -> (found: Result<usize, usize>)
        ensures
            match found {
                Ok(k) => k < self.sessions@.len() && self.sessions@[k as int].controller_id@
                    == id@,
                Err(k) => k <= self.sessions@.len() && (forall|i: int|
                    0 <= i < k ==> text_order(
                        #[trigger] self.sessions@[i].controller_id@,
                        id@,
                    ) < 0) && (forall|i: int|
                    k <= i < self.sessions@.len() ==> text_order(
                        id@,
                        #[trigger] self.sessions@[i].controller_id@,
                    ) < 0),
            },
    {
        proof {
            use_type_invariant(self);
        }
        let mut i: usize = 0;
        while i < self.sessions.len()
            invariant
                i <= self.sessions@.len(),
                ids_increase(self.sessions@),
                forall|j: int| 0 <= j < i ==> text_order(
                    #[trigger] self.sessions@[j].controller_id@,
                    id@,
                ) < 0,
            decreases self.sessions@.len() - i,
        {
            let order = compare_text(self.sessions[i].controller_id.as_str(), id);
            if order == 0 {
                proof {
                    lemma_text_order(self.sessions@[i as int].controller_id@, id@, id@);
                }
                return Ok(i);
            }
            if order > 0 {
                proof {
                    let ghost here = self.sessions@[i as int].controller_id@;
                    lemma_text_order(here, id@, id@);
                    assert forall|j: int| i <= j < self.sessions@.len() implies text_order(
                        id@,
                        #[trigger] self.sessions@[j].controller_id@,
                    ) < 0 by {
                        if j > i {
                            lemma_text_order_strict(id@, here, self.sessions@[j].controller_id@);
                        }
                    }
                }
                return Err(i);
            }
            i = i + 1;
        }
        Err(i)
    }

    /// Registers `controller_id` with a fresh session, replacing any earlier
    /// session of that id; the first registration connects the daemon.
    pub fn register_controller(&mut self, controller_id: &str, heartbeat_timeout_us: u64)
        ensures
            ids_increase(final(self).session_list()),
            final(self).lifecycle() == state_after_registration(old(self).lifecycle()),
            session_for(final(self).session_list(), controller_id@) matches Some(s)
                && fresh_session(s, controller_id@, heartbeat_timeout_us),
            forall|other: Seq<char>|
                other != controller_id@ ==> #[trigger] session_for(final(self).session_list(), other)
                    == session_for(old(self).session_list(), other),
    {
        proof {
            use_type_invariant(&*self);
        }
        let ghost before = self.sessions@;
        let ghost id = controller_id@;
        let session = ControllerSession::new(controller_id, heartbeat_timeout_us);
        let found = self.position(session.controller_id.as_str());
        let mut sessions: Vec<ControllerSession> = Vec::new();
        std::mem::swap(&mut sessions, &mut self.sessions);
        match found {
            Ok(k) => {
                sessions.set(k, session);
                proof {
                    let after = sessions@;
                    assert forall|i: int, j: int| 0 <= i < j < after.len() implies text_order(
                        after[i].controller_id@,
                        after[j].controller_id@,
                    ) < 0 by {
                        assert(before[i].controller_id@ == after[i].controller_id@ || i == k);
                        assert(before[j].controller_id@ == after[j].controller_id@ || j == k);
                    }
                    lemma_session_for_index(after, id, k as int);
                    assert forall|other: Seq<char>| other != id implies #[trigger] session_for(
                        after,
                        other,
                    ) == session_for(before, other) by {
                        lemma_session_for_same(before, after, other, k as int);
                    }
                }
            },
            Err(k) => {
                sessions.insert(k, session);
                proof {
                    let after = sessions@;
                    assert(after == before.insert(k as int, after[k as int]));
                    assert forall|i: int, j: int| 0 <= i < j < after.len() implies text_order(
                        after[i].controller_id@,
                        after[j].controller_id@,
                    ) < 0 by {
                        if i < k && j > k {
                            lemma_text_order_strict(
                                after[i].controller_id@,
                                id,
                                after[j].controller_id@,
                            );
                        }
                    }
                    lemma_session_for_index(after, id, k as int);
                    assert forall|other: Seq<char>| other != id implies #[trigger] session_for(
                        after,
                        other,
                    ) == session_for(before, other) by {
                        lemma_session_for_inserted(before, after, other, k as int);
                    }
                }
            },
        }
        self.sessions = sessions;
        if self.state == DaemonState::Uninitialized {
            self.state = DaemonState::Connected;
        }
        proof {
            use_type_invariant(&*self);
        }
    }

    /// Records a heartbeat for a registered controller; `false` when the id
    /// is not registered.
    pub fn record_heartbeat(&mut self, controller_id: &str, current_host_us: u64) -> (known: bool)
        ensures
            ids_increase(final(self).session_list()),
            known == (session_for(old(self).session_list(), controller_id@) is Some),
            final(self).lifecycle() == old(self).lifecycle(),
            match session_for(old(self).session_list(), controller_id@) {
                Some(s) => session_for(final(self).session_list(), controller_id@) matches Some(t)
                    && t.last_seen_host_us == current_host_us && t.controller_id
                    == s.controller_id && t.heartbeat_timeout_us == s.heartbeat_timeout_us
                    && t.last_status == s.last_status,
                None => final(self).session_list() == old(self).session_list(),
            },
            forall|other: Seq<char>|
                other != controller_id@ ==> #[trigger] session_for(final(self).session_list(), other)
                    == session_for(old(self).session_list(), other),
    {
        let known = self.touch(controller_id, current_host_us, None);
        proof {
            use_type_invariant(&*self);
        }
        known
    }

    /// Sets the heartbeat time, and the queue report when one is given, of
    /// the session registered under `controller_id`.
    fn touch(&mut self, controller_id: &str, current_host_us: u64, report: Option<QueueStatus>) -> (known: bool)
        ensures
            known == (session_for(old(self).session_list(), controller_id@) is Some),
            final(self).lifecycle() == old(self).lifecycle(),
            match session_for(old(self).session_list(), controller_id@) {
                Some(s) => session_for(final(self).session_list(), controller_id@) matches Some(t)
                    && t.last_seen_host_us == current_host_us && t.controller_id
                    == s.controller_id && t.heartbeat_timeout_us == s.heartbeat_timeout_us
                    && t.last_status == (match report {
                    Some(r) => Some(r),
                    None => s.last_status,
                }),
                None => final(self).session_list() == old(self).session_list(),
            },
            forall|other: Seq<char>|
                other != controller_id@ ==> #[trigger] session_for(final(self).session_list(), other)
                    == session_for(old(self).session_list(), other),
    {
        proof {
            use_type_invariant(&*self);
        }
        let ghost before = self.sessions@;
        match self.position(controller_id) {
            Ok(k) => {
                let mut sessions: Vec<ControllerSession> = Vec::new();
                std::mem::swap(&mut sessions, &mut self.sessions);
                let old_session = sessions.remove(k);
                let session = ControllerSession {
                    controller_id: old_session.controller_id,
                    heartbeat_timeout_us: old_session.heartbeat_timeout_us,
                    last_seen_host_us: current_host_us,
                    last_status: match report {
                        Some(r) => Some(r),
                        None => old_session.last_status,
                    },
                };
                sessions.insert(k, session);
                proof {
                    let after = sessions@;
                    assert(after =~= before.update(k as int, after[k as int]));
                    assert forall|i: int, j: int| 0 <= i < j < after.len() implies text_order(
                        after[i].controller_id@,
                        after[j].controller_id@,
                    ) < 0 by {
                        assert(before[i].controller_id@ == after[i].controller_id@);
                        assert(before[j].controller_id@ == after[j].controller_id@);
                    }
                    lemma_session_for_index(before, controller_id@, k as int);
                    lemma_session_for_index(after, controller_id@, k as int);
                    assert forall|other: Seq<char>| other != controller_id@ implies #[trigger] session_for(
                        after,
                        other,
                    ) == session_for(before, other) by {
                        lemma_session_for_same(before, after, other, k as int);
                    }
                }
                self.sessions = sessions;
                true
            },
            Err(k) => {
                proof {
                    assert forall|i: int| 0 <= i < before.len() implies #[trigger] before[i].controller_id@
                        != controller_id@ by {
                        lemma_text_order(before[i].controller_id@, controller_id@, controller_id@);
                        lemma_text_order(controller_id@, before[i].controller_id@, controller_id@);
                    }
                    lemma_session_for_absent(before, controller_id@);
                }
                false
            },
        }
    }

    /// Decodes a queue-status frame; when it decodes and the controller is
    /// registered, the report and a heartbeat are recorded.
    pub fn update_queue_status(
        &mut self,
        controller_id: &str,
        status_frame: &[u8],
        current_host_us: u64,
    ) -> (result: Result<QueueStatus, DecodeError>)
        ensures
            ids_increase(final(self).session_list()),
            final(self).lifecycle() == old(self).lifecycle(),
            match spec_decode_queue_status(status_frame@) {
                Err(e) => result == Err::<QueueStatus, DecodeError>(e) && final(self).session_list()
                    == old(self).session_list(),
                Ok(frame) => {
                    &&& result == Ok::<QueueStatus, DecodeError>(frame.status)
                    &&& match session_for(old(self).session_list(), controller_id@) {
                        Some(s) => session_for(final(self).session_list(), controller_id@) matches Some(
                            t,
                        ) && t.last_seen_host_us == current_host_us && t.controller_id
                            == s.controller_id && t.heartbeat_timeout_us == s.heartbeat_timeout_us
                            && t.last_status == Some(frame.status),
                        None => final(self).session_list() == old(self).session_list(),
                    }
                    &&& forall|other: Seq<char>|
                        other != controller_id@ ==> #[trigger] session_for(
                            final(self).session_list(),
                            other,
                        ) == session_for(old(self).session_list(), other)
                },
            },
    {
        proof {
            use_type_invariant(&*self);
        }
        let decoded = match decode_queue_status_frame(status_frame) {
            Ok(frame) => frame,
            Err(e) => return Err(e),
        };
        let status = decoded.status;
        self.touch(controller_id, current_host_us, Some(status));
        proof {
            use_type_invariant(&*self);
        }
        Ok(status)
    }

    /// The ids whose heartbeat has lapsed at `current_host_us`, in id order;
    /// any lapse faults the daemon.
    pub fn audit_heartbeats(&mut self, current_host_us: u64) -> (dead: Vec<String>)
        ensures
            ids_increase(final(self).session_list()),
            string_views(dead@) == lapsed_ids(old(self).session_list(), current_host_us),
            final(self).session_list() == old(self).session_list(),
            final(self).lifecycle() == (if dead@.len() > 0 {
                DaemonState::Faulted
            } else {
                old(self).lifecycle()
            }),
    {
        proof {
            use_type_invariant(&*self);
        }
        let mut dead: Vec<String> = Vec::new();
        let mut i: usize = 0;
        while i < self.sessions.len()
            invariant
                i <= self.sessions@.len(),
                self.sessions@ == old(self).sessions@,
                self.state == old(self).state,
                string_views(dead@) == lapsed_ids(self.sessions@.subrange(0, i as int), current_host_us),
            decreases self.sessions@.len() - i,
        {
            proof {
                let next = self.sessions@.subrange(0, i + 1);
                assert(next.drop_last() =~= self.sessions@.subrange(0, i as int));
            }
            if !self.sessions[i].is_heartbeat_alive(current_host_us) {
                dead.push(self.sessions[i].controller_id.clone());
            }
            proof {
                let next = self.sessions@.subrange(0, i + 1);
                assert(string_views(dead@) =~= lapsed_ids(next, current_host_us));
            }
            i = i + 1;
        }
        assert(self.sessions@.subrange(0, self.sessions@.len() as int) =~= self.sessions@);
        if dead.len() > 0 {
            self.state = DaemonState::Faulted;
        }
        proof {
            use_type_invariant(&*self);
        }
        dead
    }

    /// The registered ids, in id order.
    pub fn active_controller_ids(&self) -> (ids: Vec<String>)
        ensures
            string_views(ids@) == self.session_list().map_values(|s: ControllerSession| s.controller_id@),
    {
        let mut ids: Vec<String> = Vec::new();
        let mut i: usize = 0;
        while i < self.sessions.len()
            invariant
                i <= self.sessions@.len(),
                string_views(ids@) == self.sessions@.subrange(0, i as int).map_values(
                    |s: ControllerSession| s.controller_id@,
                ),
            decreases self.sessions@.len() - i,
        {
            let ghost before = ids@;
            let id = self.sessions[i].controller_id.clone();
            ids.push(id);
            proof {
                assert(string_views(ids@) =~= string_views(before).push(id@));
                assert(self.sessions@.subrange(0, i + 1).map_values(
                    |s: ControllerSession| s.controller_id@,
                ) =~= self.sessions@.subrange(0, i as int).map_values(
                    |s: ControllerSession| s.controller_id@,
                ).push(self.sessions@[i as int].controller_id@));
            }
            i = i + 1;
        }
        assert(self.sessions@.subrange(0, self.sessions@.len() as int) =~= self.sessions@);
        ids
    }

    /// The snapshot of one registered controller.
    pub fn session_status(&self, controller_id: &str, current_host_us: u64) -> (status: Option<
        ControllerSessionStatus,
    >)
        ensures
            match session_for(self.session_list(), controller_id@) {
                Some(s) => status == Some(status_of(s, current_host_us)),
                None => status is None,
            },
    {
        proof {
            use_type_invariant(self);
        }
        match self.position(controller_id) {
            Ok(k) => {
                proof {
                    lemma_session_for_index(self.sessions@, controller_id@, k as int);
                }
                Some(self.sessions[k].status(current_host_us))
            },
            Err(k) => {
                proof {
                    assert forall|i: int| 0 <= i < self.sessions@.len() implies #[trigger] self.sessions@[i].controller_id@
                        != controller_id@ by {
                        lemma_text_order(self.sessions@[i].controller_id@, controller_id@, controller_id@);
                        lemma_text_order(controller_id@, self.sessions@[i].controller_id@, controller_id@);
                    }
                    lemma_session_for_absent(self.sessions@, controller_id@);
                }
                None
            },
        }
    }

    /// The snapshot of every session, in id order.
    pub fn daemon_status_summary(&self, current_host_us: u64) -> (summary: Vec<
        ControllerSessionStatus,
    >)
        ensures
            summary@ == self.session_list().map_values(
                |s: ControllerSession| status_of(s, current_host_us),
            ),
    {
        let mut summary: Vec<ControllerSessionStatus> = Vec::new();
        let mut i: usize = 0;
        while i < self.sessions.len()
            invariant
                i <= self.sessions@.len(),
                summary@ == self.sessions@.subrange(0, i as int).map_values(
                    |s: ControllerSession| status_of(s, current_host_us),
                ),
            decreases self.sessions@.len() - i,
        {
            summary.push(self.sessions[i].status(current_host_us));
            assert(summary@ =~= self.sessions@.subrange(0, i + 1).map_values(
                |s: ControllerSession| status_of(s, current_host_us),
            ));
            i = i + 1;
        }
        assert(self.sessions@.subrange(0, self.sessions@.len() as int) =~= self.sessions@);
        summary
    }
}

impl Default for ControllerDaemon {
    fn default() -> (daemon: Self)
        ensures
            daemon.lifecycle() == DaemonState::Uninitialized,
            daemon.session_list().len() == 0,
            ids_increase(daemon.session_list()),
    {
        ControllerDaemon::new()
    }
}

proof fn lemma_session_for_same(
    before: Seq<ControllerSession>,
    after: Seq<ControllerSession>,
    other: Seq<char>,
    k: int,
)
    requires
        0 <= k < before.len(),
        after.len() == before.len(),
        before[k].controller_id@ != other,
        after[k].controller_id@ != other,
        forall|i: int| 0 <= i < before.len() && i != k ==> after[i] == before[i],
    ensures
        session_for(after, other) == session_for(before, other),
    decreases before.len(),
{
    if k == 0 {
        assert(after.drop_first() =~= before.drop_first());
    } else {
        lemma_session_for_same(before.drop_first(), after.drop_first(), other, k - 1);
    }
}

proof fn lemma_session_for_inserted(
    before: Seq<ControllerSession>,
    after: Seq<ControllerSession>,
    other: Seq<char>,
    k: int,
)
    requires
        0 <= k <= before.len(),
        after == before.insert(k, after[k]),
        after[k].controller_id@ != other,
    ensures
        session_for(after, other) == session_for(before, other),
    decreases k,
{
    if k == 0 {
        assert(after.drop_first() =~= before);
    } else {
        assert(after.drop_first() =~= before.drop_first().insert(k - 1, after[k]));
        lemma_session_for_inserted(before.drop_first(), after.drop_first(), other, k - 1);
    }
}

proof fn lemma_lapsed_ids(sessions: Seq<ControllerSession>, now: u64, id: Seq<char>)
    ensures
        lapsed_ids(sessions, now).contains(id) <==> exists|k: int|
            0 <= k < sessions.len() && #[trigger] sessions[k].controller_id@ == id
                && !heartbeat_alive(sessions[k], now),
    decreases sessions.len(),
{
    if sessions.len() > 0 {
        let rest = sessions.drop_last();
        lemma_lapsed_ids(rest, now, id);
        let r = lapsed_ids(rest, now);
        let last = sessions.last();
        if lapsed_ids(sessions, now).contains(id) {
            if !heartbeat_alive(last, now) && last.controller_id@ == id {
                assert(sessions[sessions.len() - 1].controller_id@ == id);
            } else {
                if heartbeat_alive(last, now) {
                    assert(r.contains(id));
                } else {
                    let j = choose|j: int| 0 <= j < r.push(last.controller_id@).len() && #[trigger] r.push(last.controller_id@)[j] == id;
                    assert(r[j] == id);
                }
                let k = choose|k: int|
                    0 <= k < rest.len() && #[trigger] rest[k].controller_id@ == id
                        && !heartbeat_alive(rest[k], now);
                assert(sessions[k] == rest[k]);
            }
        }
        if exists|k: int|
            0 <= k < sessions.len() && #[trigger] sessions[k].controller_id@ == id
                && !heartbeat_alive(sessions[k], now) {
            let k = choose|k: int|
                0 <= k < sessions.len() && #[trigger] sessions[k].controller_id@ == id
                    && !heartbeat_alive(sessions[k], now);
            if k == sessions.len() - 1 {
                assert(r.push(last.controller_id@)[r.len() as int] == id);
            } else {
                assert(rest[k] == sessions[k]);
                assert(r.contains(id));
                let j = choose|j: int| 0 <= j < r.len() && #[trigger] r[j] == id;
                if !heartbeat_alive(last, now) {
                    assert(r.push(last.controller_id@)[j] == id);
                }
            }
        }
    }
}

proof fn lemma_session_for_found(sessions: Seq<ControllerSession>, id: Seq<char>)
    ensures
        session_for(sessions, id) matches Some(s) ==> exists|k: int|
            0 <= k < sessions.len() && #[trigger] sessions[k] == s && s.controller_id@ == id,
    decreases sessions.len(),
{
    if sessions.len() > 0 && sessions[0].controller_id@ != id {
        lemma_session_for_found(sessions.drop_first(), id);
        if session_for(sessions, id) is Some {
            let s = session_for(sessions, id)->0;
            let k = choose|k: int|
                0 <= k < sessions.drop_first().len() && #[trigger] sessions.drop_first()[k] == s
                    && s.controller_id@ == id;
            assert(sessions[k + 1] == s);
        }
    }
    if sessions.len() > 0 && sessions[0].controller_id@ == id {
        assert(sessions[0] == session_for(sessions, id)->0);
    }
}

/// An audit reports a controller exactly when it is registered and its last
/// heartbeat is more than its timeout old.
pub proof fn audits_report_exactly_the_lapsed_sessions(
    sessions: Seq<ControllerSession>,
    now: u64,
    id: Seq<char>,
)
    requires
        ids_increase(sessions),
    ensures
        lapsed_ids(sessions, now).contains(id) <==> (session_for(sessions, id) matches Some(s)
            && !heartbeat_alive(s, now)),
{
    lemma_lapsed_ids(sessions, now, id);
    lemma_session_for_found(sessions, id);
    if exists|k: int|
        0 <= k < sessions.len() && #[trigger] sessions[k].controller_id@ == id
            && !heartbeat_alive(sessions[k], now) {
        let k = choose|k: int|
            0 <= k < sessions.len() && #[trigger] sessions[k].controller_id@ == id
                && !heartbeat_alive(sessions[k], now);
        lemma_session_for_index(sessions, id, k);
    }
}

} // verus!
