//! What the UDP relay does with each event: a datagram of a client, or the
//! outcome of a target selection.

use std::collections::VecDeque;
use std::time::Instant;

use vstd::prelude::*;
use vstd::slice::slice_to_vec;

use crate::client_map::ClientMap;
use crate::net::{AddrView, SocketAddr};
use crate::plugins::bedrock_offline::{
    datagrams, now_millis, BedrockOfflineConfig, FakeSession, SessionView,
};
use crate::udp_proxy::{
    active_sessions, disconnect_can_be_sent, drop_idle_sessions, existing_session,
    handle_offline_datagram_at, handled_offline, offline_replies, queue_contents,
    selection_within_total, session_views, sessions_after, sessions_valid, EnqueueResult,
    PendingState, PendingView, Session, UdpProxyConfig, MAX_FAKE_SESSIONS, MAX_PENDING_BYTES,
    MAX_PENDING_CLIENTS, MAX_PENDING_DATAGRAMS,
};

verus! {

/// Whether a relay keeps an eye on its target: it has only one, and can answer
/// in its place. With several targets they are probed for each new client.
pub fn watches_lone_target(config: &UdpProxyConfig) -> (watches: bool)
    ensures
        watches == (config.targets@.len() == 1 && config.bedrock_offline is Some),
{
    config.targets.len() == 1 && config.bedrock_offline.is_some()
}

/// The state of a relay, but for its sessions with the targets.
pub struct Relay {
    pub fake_sessions: ClientMap<FakeSession>,
    pub pending: PendingState,
    pub global_pending_limit_logged: bool,
    pub next_generation: u64,
}

/// What the state of a relay is.
pub struct RelayView {
    pub fake_sessions: Map<AddrView, SessionView>,
    pub pending: PendingView,
    pub global_pending_limit_logged: bool,
    pub next_generation: u64,
}

impl View for Relay {
    type V = RelayView;

    open spec fn view(&self) -> RelayView {
        RelayView {
            fake_sessions: session_views(self.fake_sessions@),
            pending: self.pending@,
            global_pending_limit_logged: self.global_pending_limit_logged,
            next_generation: self.next_generation,
        }
    }
}

/// A drop that is worth a line in the log.
#[derive(Debug, Clone, Copy, PartialEq, Eq, Structural)]
pub enum DropNotice {
    /// The client's own queue is full.
    ClientQueueFull,
    /// The queues of all clients together are full.
    QueuesFull,
    /// There is no room for another client.
    NoRoomForClient,
}

/// What to do with a client's datagram.
pub enum DatagramAction {
    /// Send these datagrams back.
    Reply(Vec<Vec<u8>>),
    /// Do nothing.
    Ignore,
    /// Send the datagram through this socket.
    Forward(u64),
    /// Open a session with this target and send the datagram there.
    Open(SocketAddr),
    /// The datagram waits for the client's target to be selected.
    Queued,
    /// The datagram is lost.
    Drop(Option<DropNotice>),
    /// The datagram waits; probe the targets in order and report the outcome
    /// with this number.
    Select(u64),
}

/// What an action is.
pub enum ActionView {
    Reply(Seq<Seq<u8>>),
    Ignore,
    Forward(u64),
    Open(AddrView),
    Queued,
    Drop(Option<DropNotice>),
    Select(u64),
}

impl View for DatagramAction {
    type V = ActionView;

    open spec fn view(&self) -> ActionView {
        match self {
            DatagramAction::Reply(replies) => ActionView::Reply(datagrams(replies@)),
            DatagramAction::Ignore => ActionView::Ignore,
            DatagramAction::Forward(socket) => ActionView::Forward(*socket),
            DatagramAction::Open(target) => ActionView::Open(target@),
            DatagramAction::Queued => ActionView::Queued,
            DatagramAction::Drop(notice) => ActionView::Drop(*notice),
            DatagramAction::Select(generation) => ActionView::Select(*generation),
        }
    }
}

/// A datagram as it comes in: from whom, what, and when; and what the prober
/// of a lone target says of it.
pub struct Arrival {
    pub client: AddrView,
    pub datagram: Seq<u8>,
    pub reachable: Option<bool>,
    pub now: Instant,
    pub millis: i64,
}

/// Whether a datagram is answered in place of the targets: its client is in
/// the middle of a fake handshake, or the lone target is known to be down and
/// the datagram is one that can be answered.
pub open spec fn answered_offline(
    offline: Option<BedrockOfflineConfig>,
    fake_sessions: Map<AddrView, SessionView>,
    a: Arrival,
) -> bool {
    fake_sessions.contains_key(a.client) || (a.reachable == Some(false) && offline is Some
        && handled_offline(fake_sessions, a.client, a.datagram))
}

/// The number of the next target selection.
pub open spec fn generation_after(generation: u64) -> u64 {
    if generation == u64::MAX {
        0
    } else {
        (generation + 1) as u64
    }
}

/// Whether the datagram is worth a notice, and which.
pub open spec fn notice_unless(logged: bool, notice: DropNotice) -> Option<DropNotice> {
    if logged {
        None
    } else {
        Some(notice)
    }
}

impl RelayView {
    /// What is done with a datagram.
    pub open spec fn action(
        self,
        config: &UdpProxyConfig,
        sessions: Map<AddrView, Session>,
        a: Arrival,
    ) -> ActionView {
        let fakes = active_sessions(self.fake_sessions, a.now);
        if answered_offline(config.bedrock_offline, fakes, a) {
            match config.bedrock_offline {
                Some(offline) => ActionView::Reply(
                    offline_replies(
                        &offline,
                        config.listen_addr@.port(),
                        fakes,
                        a.client,
                        a.datagram,
                        a.now,
                        a.millis,
                    ),
                ),
                None => ActionView::Ignore,
            }
        } else if sessions.contains_key(a.client) {
            ActionView::Forward(sessions[a.client].socket)
        } else if config.targets@.len() == 1 {
            ActionView::Open(config.targets@[0]@)
        } else if self.pending.selections.contains_key(a.client) {
            match self.pending.enqueue_result(a.client, a.datagram) {
                EnqueueResult::Queued => ActionView::Queued,
                EnqueueResult::PerClientFull { first_drop } => ActionView::Drop(
                    if first_drop {
                        Some(DropNotice::ClientQueueFull)
                    } else {
                        None
                    },
                ),
                EnqueueResult::GloballyFull => ActionView::Drop(
                    notice_unless(self.global_pending_limit_logged, DropNotice::QueuesFull),
                ),
            }
        } else if self.pending.has_room(a.datagram) {
            ActionView::Select(generation_after(self.next_generation))
        } else {
            ActionView::Drop(
                notice_unless(self.global_pending_limit_logged, DropNotice::NoRoomForClient),
            )
        }
    }

    /// The state after a datagram.
    pub open spec fn after(
        self,
        config: &UdpProxyConfig,
        sessions: Map<AddrView, Session>,
        a: Arrival,
    ) -> RelayView {
        let fakes = active_sessions(self.fake_sessions, a.now);
        let swept = RelayView { fake_sessions: fakes, ..self };
        if answered_offline(config.bedrock_offline, fakes, a) {
            match config.bedrock_offline {
                Some(offline) => RelayView {
                    fake_sessions: sessions_after(
                        &offline,
                        fakes,
                        a.client,
                        a.datagram,
                        a.now,
                        a.millis,
                    ),
                    ..self
                },
                None => swept,
            }
        } else if sessions.contains_key(a.client) || config.targets@.len() == 1 {
            swept
        } else if self.pending.selections.contains_key(a.client) {
            RelayView {
                pending: self.pending.enqueued(a.client, a.datagram),
                global_pending_limit_logged: self.global_pending_limit_logged
                    || self.pending.enqueue_result(a.client, a.datagram)
                    == EnqueueResult::GloballyFull,
                ..swept
            }
        } else {
            let generation = generation_after(self.next_generation);
            if self.pending.has_room(a.datagram) {
                RelayView {
                    pending: self.pending.started(a.client, generation, a.datagram),
                    next_generation: generation,
                    ..swept
                }
            } else {
                RelayView {
                    global_pending_limit_logged: true,
                    next_generation: generation,
                    ..swept
                }
            }
        }
    }

    /// The sessions with the targets after a datagram: one that is used counts
    /// as active.
    pub open spec fn sessions_after(
        self,
        config: &UdpProxyConfig,
        sessions: Map<AddrView, Session>,
        a: Arrival,
    ) -> Map<AddrView, Session> {
        match self.action(config, sessions, a) {
            ActionView::Forward(socket) => sessions.insert(
                a.client,
                Session { socket, last_seen: a.now },
            ),
            _ => sessions,
        }
    }

    /// The state stays within the limits.
    pub open spec fn within_limits(self) -> bool {
        &&& self.fake_sessions.dom().finite()
        &&& self.fake_sessions.dom().len() <= MAX_FAKE_SESSIONS
        &&& self.pending.selections.dom().finite()
        &&& self.pending.selections.dom().len() <= MAX_PENDING_CLIENTS
        &&& self.pending.total_bytes <= MAX_PENDING_BYTES
        &&& forall|c: AddrView|
            self.pending.selections.contains_key(c)
                ==> (#[trigger] self.pending.selections[c]).datagrams.len() <= MAX_PENDING_DATAGRAMS
    }
}

/// The outcome of a target selection.
pub struct SelectionResult {
    pub client_addr: SocketAddr,
    pub generation: u64,
    pub target_addr: Option<SocketAddr>,
}

/// What to do with the outcome of a target selection.
pub enum SelectionAction {
    /// The selection is not the one that runs: do nothing.
    Stale,
    /// Open a session with this target and send it the datagrams, in order.
    Open(SocketAddr, VecDeque<Vec<u8>>),
    /// No target responds: answer the datagrams in their place, in order.
    Offline(VecDeque<Vec<u8>>),
    /// No target responds: the datagrams are lost.
    Unreachable,
}

/// What such an action is.
pub enum SelectionActionView {
    Stale,
    Open(AddrView, Seq<Seq<u8>>),
    Offline(Seq<Seq<u8>>),
    Unreachable,
}

impl View for SelectionAction {
    type V = SelectionActionView;

    open spec fn view(&self) -> SelectionActionView {
        match self {
            SelectionAction::Stale => SelectionActionView::Stale,
            SelectionAction::Open(target, queued) => SelectionActionView::Open(
                target@,
                queue_contents(queued@),
            ),
            SelectionAction::Offline(queued) => SelectionActionView::Offline(
                queue_contents(queued@),
            ),
            SelectionAction::Unreachable => SelectionActionView::Unreachable,
        }
    }
}

impl RelayView {
    /// What is done with the outcome of a target selection.
    pub open spec fn selection_action(
        self,
        offline: bool,
        client: AddrView,
        generation: u64,
        target: Option<AddrView>,
    ) -> SelectionActionView {
        if !self.pending.current(client, generation) {
            SelectionActionView::Stale
        } else {
            let queued = self.pending.selections[client].datagrams;
            match target {
                Some(t) => SelectionActionView::Open(t, queued),
                None => if offline {
                    SelectionActionView::Offline(queued)
                } else {
                    SelectionActionView::Unreachable
                },
            }
        }
    }

    /// The state after the outcome of a target selection.
    pub open spec fn after_selection(self, client: AddrView, generation: u64) -> RelayView {
        if self.pending.current(client, generation) {
            RelayView {
                pending: self.pending.removed(client),
                global_pending_limit_logged: false,
                ..self
            }
        } else {
            self
        }
    }
}

impl Relay {
    pub open spec fn wf(&self) -> bool {
        &&& self.fake_sessions.wf()
        &&& sessions_valid(self.fake_sessions@)
        &&& self.pending.wf()
        &&& self.pending.accounted()
        &&& self.pending.max_clients == MAX_PENDING_CLIENTS
        &&& self.pending.max_bytes == MAX_PENDING_BYTES
    }

    /// A relay that has seen nothing yet.
    pub fn new() -> (relay: Self)
        ensures
            relay.wf(),
            relay@.fake_sessions == Map::<AddrView, SessionView>::empty(),
            relay@.pending == (PendingView {
                selections: Map::empty(),
                total_bytes: 0,
                max_clients: MAX_PENDING_CLIENTS as nat,
                max_bytes: MAX_PENDING_BYTES as nat,
            }),
            !relay@.global_pending_limit_logged,
            relay@.next_generation == 0,
            relay@.within_limits(),
    {
        let relay = Relay {
            fake_sessions: ClientMap::new(),
            pending: PendingState::new(MAX_PENDING_CLIENTS, MAX_PENDING_BYTES),
            global_pending_limit_logged: false,
            next_generation: 0,
        };
        assert(relay@.fake_sessions =~= Map::empty());
        relay
    }

    /// Decides what to do with a datagram that comes in at a given time.
    /// `reachable` is what the prober of a lone target says of it.
    pub fn on_datagram_at(
        &mut self,
        config: &UdpProxyConfig,
        sessions: &mut ClientMap<Session>,
        client_addr: &SocketAddr,
        datagram: &[u8],
        reachable: Option<bool>,
        now: Instant,
        millis: i64,
    ) -> (action: DatagramAction)
        requires
            old(self).wf(),
            old(sessions).wf(),
            config.bedrock_offline matches Some(offline) ==> disconnect_can_be_sent(
                &offline,
                old(self)@.fake_sessions,
                client_addr@,
                datagram@,
            ),
        ensures
            final(self).wf(),
            final(sessions).wf(),
            action@ == old(self)@.action(
                config,
                old(sessions)@,
                (Arrival { client: client_addr@, datagram: datagram@, reachable, now, millis }),
            ),
            final(self)@ == old(self)@.after(
                config,
                old(sessions)@,
                (Arrival { client: client_addr@, datagram: datagram@, reachable, now, millis }),
            ),
            final(sessions)@ == old(self)@.sessions_after(
                config,
                old(sessions)@,
                (Arrival { client: client_addr@, datagram: datagram@, reachable, now, millis }),
            ),
    {
        let ghost a = Arrival {
            client: client_addr@,
            datagram: datagram@,
            reachable,
            now,
            millis,
        };
        drop_idle_sessions(&mut self.fake_sessions, now);
        let ghost fakes = self@.fake_sessions;
        assert(fakes == active_sessions(old(self)@.fake_sessions, now));

        let known_down = match reachable {
            Some(up) => !up,
            None => false,
        };
        let in_handshake = self.fake_sessions.contains_key(client_addr);
        if in_handshake || known_down {
            let handled = handle_offline_datagram_at(
                &config.bedrock_offline,
                config.listen_addr.port(),
                &mut self.fake_sessions,
                client_addr,
                datagram,
                now,
                millis,
            );
            match handled {
                Some(replies) => {
                    return DatagramAction::Reply(replies);
                },
                None => {
                    if in_handshake {
                        return DatagramAction::Ignore;
                    }
                },
            }
        }
        assert(self@.fake_sessions == fakes);

        if let Some(socket) = existing_session(sessions, client_addr, now) {
            return DatagramAction::Forward(socket);
        }
        if config.targets.len() == 1 {
            return DatagramAction::Open(config.targets[0].clone());
        }
        if self.pending.contains(client_addr) {
            return match self.pending.enqueue(client_addr, slice_to_vec(datagram)) {
                EnqueueResult::Queued => DatagramAction::Queued,
                EnqueueResult::PerClientFull { first_drop } => DatagramAction::Drop(
                    if first_drop {
                        Some(DropNotice::ClientQueueFull)
                    } else {
                        None
                    },
                ),
                EnqueueResult::GloballyFull => self.note_drop(DropNotice::QueuesFull),
            };
        }
        let generation: u64 = if self.next_generation == u64::MAX {
            0
        } else {
            self.next_generation + 1
        };
        self.next_generation = generation;
        if !self.pending.start(client_addr, generation, slice_to_vec(datagram)) {
            return self.note_drop(DropNotice::NoRoomForClient);
        }
        DatagramAction::Select(generation)
    }

    /// Drops a datagram for want of room. The first such drop is worth a
    /// notice.
    fn note_drop(&mut self, notice: DropNotice) -> (action: DatagramAction)
        ensures
            action@ == ActionView::Drop(
                notice_unless(old(self)@.global_pending_limit_logged, notice),
            ),
            *final(self) == (Relay { global_pending_limit_logged: true, ..*old(self) }),
    {
        let first = !self.global_pending_limit_logged;
        self.global_pending_limit_logged = true;
        DatagramAction::Drop(
            if first {
                Some(notice)
            } else {
                None
            },
        )
    }

    /// Decides what to do with a datagram that comes in now.
    pub fn on_datagram(
        &mut self,
        config: &UdpProxyConfig,
        sessions: &mut ClientMap<Session>,
        client_addr: &SocketAddr,
        datagram: &[u8],
        reachable: Option<bool>,
    ) -> (action: DatagramAction)
        requires
            old(self).wf(),
            old(sessions).wf(),
            config.bedrock_offline matches Some(offline) ==> disconnect_can_be_sent(
                &offline,
                old(self)@.fake_sessions,
                client_addr@,
                datagram@,
            ),
        ensures
            final(self).wf(),
            final(sessions).wf(),
            exists|a: Arrival|
                {
                    &&& a.client == client_addr@
                    &&& a.datagram == datagram@
                    &&& a.reachable == reachable
                    &&& action@ == #[trigger] old(self)@.action(config, old(sessions)@, a)
                    &&& final(self)@ == old(self)@.after(config, old(sessions)@, a)
                    &&& final(sessions)@ == old(self)@.sessions_after(config, old(sessions)@, a)
                },
    {
        let now = Instant::now();
        let millis: i64 = now_millis();
        self.on_datagram_at(config, sessions, client_addr, datagram, reachable, now, millis)
    }

    /// Decides what to do with the outcome of a target selection.
    pub fn on_selection(&mut self, offline: bool, result: SelectionResult) -> (action:
        SelectionAction)
        requires
            old(self).wf(),
        ensures
            final(self).wf(),
            action@ == old(self)@.selection_action(
                offline,
                result.client_addr@,
                result.generation,
                match result.target_addr {
                    Some(t) => Some(t@),
                    None => None,
                },
            ),
            final(self)@ == old(self)@.after_selection(result.client_addr@, result.generation),
    {
        if !self.pending.is_current(&result.client_addr, result.generation) {
            return SelectionAction::Stale;
        }
        proof {
            selection_within_total(&self.pending, result.client_addr@);
        }
        match self.pending.remove(&result.client_addr) {
            None => SelectionAction::Stale,
            Some(selection) => {
                self.global_pending_limit_logged = false;
                match result.target_addr {
                    Some(target) => SelectionAction::Open(target, selection.datagrams),
                    None => if offline {
                        SelectionAction::Offline(selection.datagrams)
                    } else {
                        SelectionAction::Unreachable
                    },
                }
            },
        }
    }
}

} // verus!
