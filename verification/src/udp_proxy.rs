//! The UDP relay: which datagram goes where.

use std::collections::VecDeque;
use std::time::Instant;

use vstd::prelude::*;

use crate::client_map::{entries_are_the_map, entries_map, without, without_entry_map, ClientMap};
use crate::net::{AddrView, SocketAddr};
use crate::plugins::bedrock_offline::{
    after_datagram, build_unconnected_pong, datagrams, disconnect, disconnects, frame_fits,
    fresh_session, handle_datagram_at, now_millis, replies_to, unconnected_ping, unconnected_pong,
    BedrockOfflineConfig, Context, FakeSession, SessionView, Stage, FAKE_SESSION_IDLE_TIMEOUT,
    ID_OPEN_CONNECTION_REQUEST_1, ID_OPEN_CONNECTION_REQUEST_2,
};
use crate::time::{duration_between, nanos_between, Duration};

verus! {

/// Largest datagram that is relayed.
pub const MAX_DATAGRAM: usize = 65_527;

/// Datagrams kept for one client while its targets are being probed.
pub const MAX_PENDING_DATAGRAMS: usize = 64;

/// Clients whose targets may be probed at the same time.
pub const MAX_PENDING_CLIENTS: usize = 1_024;

/// Bytes kept for all those clients together.
pub const MAX_PENDING_BYTES: usize = 4_194_304;

/// Fake sessions held at the same time.
pub const MAX_FAKE_SESSIONS: usize = 1_024;

/// Seconds between two probes of a lone target.
pub const PROBE_INTERVAL: u64 = 5;

/// What a UDP redirect is made of.
#[derive(Debug, Clone)]
pub struct UdpProxyConfig {
    pub name: String,
    pub listen_addr: SocketAddr,
    pub targets: Vec<SocketAddr>,
    pub idle_timeout: Duration,
    pub probe_timeout: Duration,
    /// Where this is set, pings and joins are answered in place of the targets
    /// whenever every one of them is unreachable.
    pub bedrock_offline: Option<BedrockOfflineConfig>,
}

/// Why a UDP redirect cannot run.
#[derive(Debug, Clone, Copy, PartialEq, Eq, Structural)]
pub enum UdpConfigError {
    NoTargets,
}

impl UdpConfigError {
    pub fn message(&self) -> (text: &'static str)
        ensures
            text@ == "udp redirect requires at least one target"@,
    {
        "udp redirect requires at least one target"
    }
}

/// A redirect needs at least one target.
pub fn validate_config(config: &UdpProxyConfig) -> (result: Result<(), UdpConfigError>)
    ensures
        result == if config.targets@.len() == 0 {
            Err::<(), UdpConfigError>(UdpConfigError::NoTargets)
        } else {
            Ok::<(), UdpConfigError>(())
        },
{
    if config.targets.len() == 0 {
        return Err(UdpConfigError::NoTargets);
    }
    Ok(())
}

// ---------------------------------------------------------------------
// Clients whose target is being selected
// ---------------------------------------------------------------------

/// The datagrams of a client whose target is being selected.
pub struct PendingSelection {
    pub generation: u64,
    pub datagrams: VecDeque<Vec<u8>>,
    pub overflow_logged: bool,
}

/// What a pending selection is.
#[verifier::ext_equal]
pub struct SelectionView {
    pub generation: u64,
    pub datagrams: Seq<Seq<u8>>,
    pub overflow_logged: bool,
}

/// The contents of a queue of datagrams.
pub open spec fn queue_contents(queue: Seq<Vec<u8>>) -> Seq<Seq<u8>> {
    Seq::new(queue.len(), |i: int| queue[i]@)
}

impl View for PendingSelection {
    type V = SelectionView;

    open spec fn view(&self) -> SelectionView {
        SelectionView {
            generation: self.generation,
            datagrams: queue_contents(self.datagrams@),
            overflow_logged: self.overflow_logged,
        }
    }
}

/// The bytes in a number of datagrams.
pub open spec fn total_len(datagrams: Seq<Seq<u8>>) -> nat
    decreases datagrams.len(),
{
    if datagrams.len() == 0 {
        0
    } else {
        total_len(datagrams.drop_last()) + datagrams.last().len()
    }
}

/// The bytes held for a number of clients.
pub open spec fn held_bytes(entries: Seq<(SocketAddr, PendingSelection)>) -> nat
    decreases entries.len(),
{
    if entries.len() == 0 {
        0
    } else {
        held_bytes(entries.drop_last()) + total_len(entries.last().1@.datagrams)
    }
}

proof fn lemma_held_without(entries: Seq<(SocketAddr, PendingSelection)>, i: int)
    requires
        0 <= i < entries.len(),
    ensures
        held_bytes(entries) == held_bytes(without(entries, i)) + total_len(
            entries[i].1@.datagrams,
        ),
    decreases entries.len(),
{
    let rest = entries.remove(i);
    if i == entries.len() - 1 {
        assert(rest =~= entries.drop_last());
    } else {
        lemma_held_without(entries.drop_last(), i);
        assert(rest.drop_last() =~= entries.drop_last().remove(i));
        assert(rest.last() == entries.last());
    }
}

/// The clients whose target is being selected, within limits on their number
/// and on the bytes held for them.
pub struct PendingState {
    pub selections: ClientMap<PendingSelection>,
    pub total_bytes: usize,
    pub max_clients: usize,
    pub max_bytes: usize,
}

/// What the pending clients are.
pub struct PendingView {
    pub selections: Map<AddrView, SelectionView>,
    pub total_bytes: nat,
    pub max_clients: nat,
    pub max_bytes: nat,
}

/// The views of the values of a table.
pub open spec fn selection_views(selections: Map<AddrView, PendingSelection>) -> Map<
    AddrView,
    SelectionView,
> {
    selections.map_values(|s: PendingSelection| s@)
}

impl View for PendingState {
    type V = PendingView;

    open spec fn view(&self) -> PendingView {
        PendingView {
            selections: selection_views(self.selections@),
            total_bytes: self.total_bytes as nat,
            max_clients: self.max_clients as nat,
            max_bytes: self.max_bytes as nat,
        }
    }
}

/// What became of a datagram of a client whose target is being selected.
#[derive(Debug, Clone, Copy, PartialEq, Eq, Structural)]
pub enum EnqueueResult {
    Queued,
    PerClientFull { first_drop: bool },
    GloballyFull,
}

impl PendingView {
    /// What `enqueue` answers.
    pub open spec fn enqueue_result(self, client: AddrView, datagram: Seq<u8>) -> EnqueueResult {
        if !self.selections.contains_key(client) {
            EnqueueResult::GloballyFull
        } else if self.selections[client].datagrams.len() >= MAX_PENDING_DATAGRAMS {
            EnqueueResult::PerClientFull { first_drop: !self.selections[client].overflow_logged }
        } else if self.total_bytes + datagram.len() > self.max_bytes {
            EnqueueResult::GloballyFull
        } else {
            EnqueueResult::Queued
        }
    }

    /// The pending clients after `enqueue`.
    pub open spec fn enqueued(self, client: AddrView, datagram: Seq<u8>) -> PendingView {
        match self.enqueue_result(client, datagram) {
            EnqueueResult::GloballyFull => self,
            EnqueueResult::PerClientFull { first_drop } => PendingView {
                selections: self.selections.insert(
                    client,
                    SelectionView { overflow_logged: true, ..self.selections[client] },
                ),
                ..self
            },
            EnqueueResult::Queued => PendingView {
                selections: self.selections.insert(
                    client,
                    SelectionView {
                        datagrams: self.selections[client].datagrams.push(datagram),
                        ..self.selections[client]
                    },
                ),
                total_bytes: self.total_bytes + datagram.len(),
                ..self
            },
        }
    }

    /// Whether there is room for another client with this datagram.
    pub open spec fn has_room(self, datagram: Seq<u8>) -> bool {
        self.selections.dom().len() < self.max_clients && self.total_bytes + datagram.len()
            <= self.max_bytes
    }

    /// The pending clients after `start` has succeeded.
    pub open spec fn started(
        self,
        client: AddrView,
        generation: u64,
        datagram: Seq<u8>,
    ) -> PendingView {
        PendingView {
            selections: self.selections.insert(
                client,
                SelectionView { generation, datagrams: seq![datagram], overflow_logged: false },
            ),
            total_bytes: self.total_bytes + datagram.len(),
            ..self
        }
    }

    /// The pending clients after `remove`. Fewer bytes than none cannot be
    /// held.
    pub open spec fn removed(self, client: AddrView) -> PendingView {
        if self.selections.contains_key(client) {
            let bytes = total_len(self.selections[client].datagrams);
            PendingView {
                selections: self.selections.remove(client),
                total_bytes: if self.total_bytes >= bytes {
                    (self.total_bytes - bytes) as nat
                } else {
                    0
                },
                ..self
            }
        } else {
            self
        }
    }

    /// Whether the selection that runs for a client is this one.
    pub open spec fn current(self, client: AddrView, generation: u64) -> bool {
        self.selections.contains_key(client) && self.selections[client].generation == generation
    }
}

impl PendingState {
    pub open spec fn wf(&self) -> bool {
        self.selections.wf()
    }

    /// The bytes counted are the bytes held.
    pub open spec fn accounted(&self) -> bool {
        self.total_bytes == held_bytes(self.selections.entries@)
    }

    /// No pending clients.
    pub fn new(max_clients: usize, max_bytes: usize) -> (state: Self)
        ensures
            state.wf(),
            state.accounted(),
            state@ == (PendingView {
                selections: Map::empty(),
                total_bytes: 0,
                max_clients: max_clients as nat,
                max_bytes: max_bytes as nat,
            }),
    {
        let state = PendingState {
            selections: ClientMap::new(),
            total_bytes: 0,
            max_clients,
            max_bytes,
        };
        assert(state@.selections =~= Map::empty());
        state
    }

    /// Takes a client in with its first datagram, if there is room for both.
    #[verifier::rlimit(40)]
    pub fn start(
        &mut self,
        client_addr: &SocketAddr,
        generation: u64,
        datagram: Vec<u8>,
    ) -> (started: bool)
        requires
            old(self).wf(),
            old(self).max_bytes < usize::MAX || old(self).total_bytes + datagram@.len()
                <= usize::MAX,
        ensures
            final(self).wf(),
            started == old(self)@.has_room(datagram@),
            final(self)@ == if started {
                old(self)@.started(client_addr@, generation, datagram@)
            } else {
                old(self)@
            },
            old(self).accounted() && !old(self)@.selections.contains_key(client_addr@)
                ==> final(self).accounted(),
    {
        let len: usize = datagram.len();
        if self.selections.len() >= self.max_clients || len > self.max_bytes || self.total_bytes
            > self.max_bytes - len {
            assert(self@.selections.dom() =~= self.selections@.dom());
            return false;
        }
        assert(self@.selections.dom() =~= self.selections@.dom());
        self.total_bytes = self.total_bytes + len;
        let ghost bytes = datagram@;
        let mut datagrams: VecDeque<Vec<u8>> = VecDeque::new();
        datagrams.push_back(datagram);
        let selection = PendingSelection { generation, datagrams, overflow_logged: false };
        assert(selection@.datagrams =~= seq![bytes]);
        let ghost entries = self.selections.entries@;
        let _ = self.selections.insert(client_addr, selection);
        assert(self@.selections =~= old(self)@.started(client_addr@, generation, bytes).selections);
        proof {
            assert(seq![bytes].drop_last() =~= Seq::<Seq<u8>>::empty());
            assert(total_len(Seq::<Seq<u8>>::empty()) == 0);
            assert(total_len(seq![bytes]) == bytes.len());
            if old(self).accounted() && !old(self)@.selections.contains_key(client_addr@) {
                assert(self.selections.entries@.drop_last() =~= entries);
            }
        }
        true
    }

    /// Keeps one more datagram of a client whose target is being selected.
    #[verifier::rlimit(40)]
    #[verifier::spinoff_prover]
    pub fn enqueue(
        &mut self,
        client_addr: &SocketAddr,
        datagram: Vec<u8>,
    ) -> (result: EnqueueResult)
        requires
            old(self).wf(),
            old(self).max_bytes < usize::MAX || old(self).total_bytes + datagram@.len()
                <= usize::MAX,
        ensures
            final(self).wf(),
            result == old(self)@.enqueue_result(client_addr@, datagram@),
            final(self)@ == old(self)@.enqueued(client_addr@, datagram@),
            old(self).accounted() ==> final(self).accounted(),
    {
        let ghost before = self.selections.entries@;
        let len: usize = datagram.len();
        let ghost bytes = datagram@;
        match self.selections.remove(client_addr) {
            None => {
                assert(self@.selections =~= old(self)@.selections);
                EnqueueResult::GloballyFull
            },
            Some(mut selection) => {
                let ghost prior = selection;
                let ghost at = choose|i: int|
                    0 <= i < before.len() && self.selections.entries@ == #[trigger] without(
                        before,
                        i,
                    ) && before[i].1 == selection;
                let ghost rest = self.selections.entries@;
                proof {
                    lemma_held_without(before, at);
                }
                let result = if selection.datagrams.len() >= MAX_PENDING_DATAGRAMS {
                    let first_drop = !selection.overflow_logged;
                    selection.overflow_logged = true;
                    EnqueueResult::PerClientFull { first_drop }
                } else if len > self.max_bytes || self.total_bytes > self.max_bytes - len {
                    EnqueueResult::GloballyFull
                } else {
                    self.total_bytes = self.total_bytes + len;
                    selection.datagrams.push_back(datagram);
                    proof {
                        let grown = queue_contents(selection.datagrams@);
                        assert(grown =~= queue_contents(prior.datagrams@).push(bytes));
                        assert(grown.drop_last() =~= queue_contents(prior.datagrams@));
                    }
                    EnqueueResult::Queued
                };
                let ghost updated = selection@;
                let _ = self.selections.insert(client_addr, selection);
                proof {
                    assert(without(rest, rest.len() as int) == rest);
                    assert(self.selections.entries@.drop_last() =~= rest);
                    assert(old(self)@.selections[client_addr@] == prior@);
                    let inserted = old(self)@.selections.insert(client_addr@, updated);
                    assert(self@.selections =~= inserted);
                    if result == EnqueueResult::GloballyFull {
                        assert(inserted =~= old(self)@.selections);
                    }
                    assert(self@.selections == old(self)@.enqueued(
                        client_addr@,
                        bytes,
                    ).selections);
                }
                result
            },
        }
    }

    /// Whether a target is being selected for a client.
    pub fn contains(&self, client_addr: &SocketAddr) -> (found: bool)
        requires
            self.wf(),
        ensures
            found == self@.selections.contains_key(client_addr@),
    {
        self.selections.contains_key(client_addr)
    }

    /// Whether the selection that runs for a client is this one.
    pub fn is_current(&self, client_addr: &SocketAddr, generation: u64) -> (current: bool)
        requires
            self.wf(),
        ensures
            current == self@.current(client_addr@, generation),
    {
        match self.selections.get(client_addr) {
            Some(selection) => selection.generation == generation,
            None => false,
        }
    }

    /// Takes a client out and returns what was kept for it.
    #[verifier::rlimit(40)]
    pub fn remove(&mut self, client_addr: &SocketAddr) -> (selection: Option<PendingSelection>)
        requires
            old(self).wf(),
            old(self)@.selections.contains_key(client_addr@) ==> total_len(
                old(self)@.selections[client_addr@].datagrams,
            ) <= usize::MAX,
        ensures
            final(self).wf(),
            selection is Some <==> old(self)@.selections.contains_key(client_addr@),
            selection matches Some(s) ==> s@ == old(self)@.selections[client_addr@],
            final(self)@ == old(self)@.removed(client_addr@),
            old(self).accounted() ==> final(self).accounted(),
    {
        let ghost before = self.selections.entries@;
        match self.selections.remove(client_addr) {
            None => {
                assert(self@.selections =~= old(self)@.selections);
                None
            },
            Some(selection) => {
                let ghost at = choose|i: int|
                    0 <= i < before.len() && self.selections.entries@ == #[trigger] without(
                        before,
                        i,
                    ) && before[i].1 == selection;
                proof {
                    lemma_held_without(before, at);
                }
                let removed_bytes: usize = queued_bytes(&selection.datagrams);
                self.total_bytes = if self.total_bytes >= removed_bytes {
                    self.total_bytes - removed_bytes
                } else {
                    0
                };
                assert(self@.selections =~= old(self)@.selections.remove(client_addr@));
                Some(selection)
            },
        }
    }
}

/// The bytes in a queue.
fn queued_bytes(queue: &VecDeque<Vec<u8>>) -> (bytes: usize)
    requires
        total_len(queue_contents(queue@)) <= usize::MAX,
    ensures
        bytes == total_len(queue_contents(queue@)),
{
    let ghost all = queue_contents(queue@);
    let mut sum: usize = 0;
    let mut i: usize = 0;
    assert(all.take(0) =~= Seq::empty());
    while i < queue.len()
        invariant
            i <= queue@.len(),
            all == queue_contents(queue@),
            sum == total_len(all.take(i as int)),
            total_len(all) <= usize::MAX,
        decreases queue@.len() - i,
    {
        proof {
            assert(all.take(i + 1).drop_last() =~= all.take(i as int));
            lemma_total_len_take(all, i + 1);
        }
        sum = sum + queue[i].len();
        i = i + 1;
    }
    assert(all.take(i as int) =~= all);
    sum
}

proof fn lemma_total_len_take(datagrams: Seq<Seq<u8>>, k: int)
    requires
        0 <= k <= datagrams.len(),
    ensures
        total_len(datagrams.take(k)) <= total_len(datagrams),
    decreases datagrams.len(),
{
    if k < datagrams.len() {
        lemma_total_len_take(datagrams.drop_last(), k);
        assert(datagrams.drop_last().take(k) =~= datagrams.take(k));
    } else {
        assert(datagrams.take(k) =~= datagrams);
    }
}

/// What is held for one client is no more than what is held for all.
pub proof fn selection_within_total(state: &PendingState, client: AddrView)
    requires
        state.wf(),
        state.accounted(),
        state@.selections.contains_key(client),
    ensures
        total_len(state@.selections[client].datagrams) <= state.total_bytes,
{
    entries_are_the_map(state.selections.entries@);
    let entries = state.selections.entries@;
    let i = choose|i: int| 0 <= i < entries.len() && #[trigger] entries[i].0@ == client;
    assert(state.selections@.contains_pair(entries[i].0@, entries[i].1));
    lemma_held_without(entries, i);
}

// ---------------------------------------------------------------------
// Offline answers
// ---------------------------------------------------------------------

/// Every fake session in the table is in order.
pub open spec fn sessions_valid(sessions: Map<AddrView, FakeSession>) -> bool {
    forall|a: AddrView| sessions.contains_key(a) ==> (#[trigger] sessions[a]).wf()
}

/// The views of the fake sessions in a table.
pub open spec fn session_views(sessions: Map<AddrView, FakeSession>) -> Map<AddrView, SessionView> {
    sessions.map_values(|s: FakeSession| s@)
}

/// Whether a fake session has been active lately.
pub open spec fn session_active(s: SessionView, now: Instant) -> bool {
    nanos_between(now, s.last_activity) < FAKE_SESSION_IDLE_TIMEOUT * 1_000_000_000
}

/// The sessions that have been active lately.
pub open spec fn active_sessions(sessions: Map<AddrView, SessionView>, now: Instant) -> Map<
    AddrView,
    SessionView,
> {
    sessions.restrict(
        Set::new(|a: AddrView| sessions.contains_key(a) && session_active(sessions[a], now)),
    )
}

/// Drops the fake sessions that have been idle for too long.
#[verifier::rlimit(40)]
pub fn drop_idle_sessions(fake_sessions: &mut ClientMap<FakeSession>, now: Instant)
    requires
        old(fake_sessions).wf(),
        sessions_valid(old(fake_sessions)@),
    ensures
        final(fake_sessions).wf(),
        sessions_valid(final(fake_sessions)@),
        session_views(final(fake_sessions)@) == active_sessions(
            session_views(old(fake_sessions)@),
            now,
        ),
{
    let ghost all = fake_sessions@;
    let limit = Duration::from_secs(FAKE_SESSION_IDLE_TIMEOUT);
    let mut i: usize = 0;
    while i < fake_sessions.entries.len()
        invariant
            i <= fake_sessions.entries@.len(),
            fake_sessions.wf(),
            limit.nanos == FAKE_SESSION_IDLE_TIMEOUT * 1_000_000_000,
            forall|a: AddrView| #[trigger]
                fake_sessions@.contains_key(a) ==> all.contains_key(a) && fake_sessions@[a]
                    == all[a],
            forall|a: AddrView| #[trigger]
                all.contains_key(a) && session_active(all[a]@, now)
                    ==> fake_sessions@.contains_key(a),
            forall|j: int|
                0 <= j < i ==> session_active((#[trigger] fake_sessions.entries@[j]).1@, now),
        decreases fake_sessions.entries@.len() - i,
    {
        let ghost entries = fake_sessions.entries@;
        let ghost table = fake_sessions@;
        proof {
            entries_are_the_map(entries);
            assert(entries_map(entries).contains_pair(
                entries[i as int].0@,
                entries[i as int].1,
            ));
        }
        let idle = duration_between(now, fake_sessions.entries[i].1.last_activity);
        if idle.nanos < limit.nanos {
            i = i + 1;
        } else {
            proof {
                without_entry_map(entries, i as int);
            }
            let _ = fake_sessions.entries.remove(i);
            assert(fake_sessions.entries@ =~= entries.remove(i as int));
            assert(fake_sessions@ == table.remove(entries[i as int].0@));
        }
    }
    proof {
        entries_are_the_map(fake_sessions.entries@);
        let kept = session_views(fake_sessions@);
        let wanted = active_sessions(session_views(all), now);
        assert forall|a: AddrView| kept.contains_key(a) <==> wanted.contains_key(a) by {
            if kept.contains_key(a) {
                let j = choose|j: int|
                    0 <= j < fake_sessions.entries@.len()
                        && #[trigger] fake_sessions.entries@[j].0@ == a;
                assert(fake_sessions@.contains_pair(
                    fake_sessions.entries@[j].0@,
                    fake_sessions.entries@[j].1,
                ));
            }
        }
        assert(kept =~= wanted);
    }
}

/// Whether a client has a fake session or there is room for one more.
pub fn can_start_fake_session(
    fake_sessions: &ClientMap<FakeSession>,
    client_addr: &SocketAddr,
) -> (can: bool)
    requires
        fake_sessions.wf(),
    ensures
        can == (fake_sessions@.contains_key(client_addr@) || fake_sessions@.dom().len()
            < MAX_FAKE_SESSIONS),
{
    fake_sessions.contains_key(client_addr) || fake_sessions.len() < MAX_FAKE_SESSIONS
}

/// What an offline answer depends on besides the sessions.
pub open spec fn offline_context(
    config: &BedrockOfflineConfig,
    client: AddrView,
    now: Instant,
    millis: i64,
) -> Context {
    Context {
        client,
        server_guid: config.server_guid,
        line1: config.motd_line1@,
        line2: config.motd_line2@,
        now,
        millis,
    }
}

/// The session that a client has, or a fresh one.
pub open spec fn session_of(
    sessions: Map<AddrView, SessionView>,
    client: AddrView,
    now: Instant,
) -> SessionView {
    if sessions.contains_key(client) {
        sessions[client]
    } else {
        fresh_session(now)
    }
}

/// Whether a datagram opens a handshake.
pub open spec fn opens_handshake(datagram: Seq<u8>) -> bool {
    datagram.len() > 0 && (datagram[0] == ID_OPEN_CONNECTION_REQUEST_1 || datagram[0]
        == ID_OPEN_CONNECTION_REQUEST_2)
}

/// Whether a datagram goes to a fake session: it is no ping, its client has
/// one or opens one, and there is room for it.
pub open spec fn goes_to_session(
    sessions: Map<AddrView, SessionView>,
    client: AddrView,
    datagram: Seq<u8>,
) -> bool {
    &&& !unconnected_ping(datagram)
    &&& sessions.contains_key(client) || (opens_handshake(datagram) && sessions.dom().len()
        < MAX_FAKE_SESSIONS)
}

/// Whether a datagram is answered offline: a ping always is, and anything of a
/// client that has a session or opens one.
pub open spec fn handled_offline(
    sessions: Map<AddrView, SessionView>,
    client: AddrView,
    datagram: Seq<u8>,
) -> bool {
    unconnected_ping(datagram) || opens_handshake(datagram) || sessions.contains_key(client)
}

/// The datagrams of an offline answer.
pub open spec fn offline_replies(
    config: &BedrockOfflineConfig,
    listen_port: u16,
    sessions: Map<AddrView, SessionView>,
    client: AddrView,
    datagram: Seq<u8>,
    now: Instant,
    millis: i64,
) -> Seq<Seq<u8>> {
    if unconnected_ping(datagram) {
        seq![unconnected_pong(datagram, config, listen_port)]
    } else if goes_to_session(sessions, client, datagram) {
        replies_to(
            session_of(sessions, client, now),
            datagram,
            offline_context(config, client, now, millis),
        )
    } else {
        Seq::empty()
    }
}

/// The fake sessions after an offline answer. One that is done is forgotten.
pub open spec fn sessions_after(
    config: &BedrockOfflineConfig,
    sessions: Map<AddrView, SessionView>,
    client: AddrView,
    datagram: Seq<u8>,
    now: Instant,
    millis: i64,
) -> Map<AddrView, SessionView> {
    if goes_to_session(sessions, client, datagram) {
        let next = after_datagram(
            session_of(sessions, client, now),
            datagram,
            offline_context(config, client, now, millis),
        );
        if next.stage == Stage::Done {
            sessions.remove(client)
        } else {
            sessions.insert(client, next)
        }
    } else {
        sessions
    }
}

/// A disconnect that a datagram calls for fits in one frame. Only a session
/// that is under way can come to that.
pub open spec fn disconnect_can_be_sent(
    config: &BedrockOfflineConfig,
    sessions: Map<AddrView, SessionView>,
    client: AddrView,
    datagram: Seq<u8>,
) -> bool {
    sessions.contains_key(client) && !unconnected_ping(datagram) && disconnects(
        sessions[client],
        datagram,
    ) ==> frame_fits(disconnect(config.motd_line1@, config.motd_line2@).len())
}

/// Answers a datagram in place of the unreachable target, at a given time.
/// Returns the datagrams to send back, or `None` where the datagram is not one
/// to answer.
pub fn handle_offline_datagram_at(
    offline: &Option<BedrockOfflineConfig>,
    listen_port: u16,
    fake_sessions: &mut ClientMap<FakeSession>,
    client_addr: &SocketAddr,
    datagram: &[u8],
    now: Instant,
    millis: i64,
) -> (handled: Option<Vec<Vec<u8>>>)
    requires
        old(fake_sessions).wf(),
        sessions_valid(old(fake_sessions)@),
        offline matches Some(config) ==> disconnect_can_be_sent(
            &config,
            session_views(old(fake_sessions)@),
            client_addr@,
            datagram@,
        ),
    ensures
        final(fake_sessions).wf(),
        sessions_valid(final(fake_sessions)@),
        match *offline {
            None => handled is None && session_views(final(fake_sessions)@) == session_views(
                old(fake_sessions)@,
            ),
            Some(config) => {
                &&& handled is Some <==> handled_offline(
                    session_views(old(fake_sessions)@),
                    client_addr@,
                    datagram@,
                )
                &&& handled matches Some(replies) ==> datagrams(replies@) == offline_replies(
                    &config,
                    listen_port,
                    session_views(old(fake_sessions)@),
                    client_addr@,
                    datagram@,
                    now,
                    millis,
                )
                &&& session_views(final(fake_sessions)@) == sessions_after(
                    &config,
                    session_views(old(fake_sessions)@),
                    client_addr@,
                    datagram@,
                    now,
                    millis,
                )
            },
        },
{
    let ghost views = session_views(fake_sessions@);
    let config = match offline {
        None => {
            return None;
        },
        Some(config) => config,
    };
    if let Some(pong) = build_unconnected_pong(datagram, config, listen_port) {
        let mut replies: Vec<Vec<u8>> = Vec::new();
        let ghost bytes = pong@;
        replies.push(pong);
        assert(datagrams(replies@) =~= seq![bytes]);
        return Some(replies);
    }
    let is_handshake_start = datagram.len() > 0 && (datagram[0] == ID_OPEN_CONNECTION_REQUEST_1
        || datagram[0] == ID_OPEN_CONNECTION_REQUEST_2);
    if !is_handshake_start && !fake_sessions.contains_key(client_addr) {
        return None;
    }
    assert(views.dom() =~= fake_sessions@.dom());
    if !can_start_fake_session(fake_sessions, client_addr) {
        let replies: Vec<Vec<u8>> = Vec::new();
        assert(datagrams(replies@) =~= Seq::empty());
        return Some(replies);
    }
    let mut session = match fake_sessions.remove(client_addr) {
        Some(session) => session,
        None => FakeSession::new_at(now),
    };
    assert(session@ == session_of(views, client_addr@, now));
    let replies = handle_datagram_at(
        &mut session,
        datagram,
        client_addr,
        config.server_guid,
        config.motd_line1.as_str(),
        config.motd_line2.as_str(),
        now,
        millis,
    );
    let ghost next = session@;
    if !session.is_done() {
        let _ = fake_sessions.insert(client_addr, session);
        assert(session_views(fake_sessions@) =~= views.insert(client_addr@, next));
    } else {
        assert(session_views(fake_sessions@) =~= views.remove(client_addr@));
    }
    Some(replies)
}

/// Answers a datagram in place of the unreachable target. Returns the
/// datagrams to send back, or `None` where the datagram is not one to answer.
pub fn handle_offline_datagram(
    offline: &Option<BedrockOfflineConfig>,
    listen_port: u16,
    fake_sessions: &mut ClientMap<FakeSession>,
    client_addr: &SocketAddr,
    datagram: &[u8],
) -> (handled: Option<Vec<Vec<u8>>>)
    requires
        old(fake_sessions).wf(),
        sessions_valid(old(fake_sessions)@),
        offline matches Some(config) ==> disconnect_can_be_sent(
            &config,
            session_views(old(fake_sessions)@),
            client_addr@,
            datagram@,
        ),
    ensures
        final(fake_sessions).wf(),
        sessions_valid(final(fake_sessions)@),
        match *offline {
            None => handled is None && session_views(final(fake_sessions)@) == session_views(
                old(fake_sessions)@,
            ),
            Some(config) => {
                &&& handled is Some <==> handled_offline(
                    session_views(old(fake_sessions)@),
                    client_addr@,
                    datagram@,
                )
                &&& exists|now: Instant, millis: i64|
                    {
                        &&& handled matches Some(replies) ==> datagrams(replies@)
                            == offline_replies(
                            &config,
                            listen_port,
                            session_views(old(fake_sessions)@),
                            client_addr@,
                            datagram@,
                            now,
                            millis,
                        )
                        &&& session_views(final(fake_sessions)@) == #[trigger] sessions_after(
                            &config,
                            session_views(old(fake_sessions)@),
                            client_addr@,
                            datagram@,
                            now,
                            millis,
                        )
                    }
            },
        },
{
    let now = Instant::now();
    let millis: i64 = now_millis();
    handle_offline_datagram_at(
        offline,
        listen_port,
        fake_sessions,
        client_addr,
        datagram,
        now,
        millis,
    )
}

// ---------------------------------------------------------------------
// Sessions with a target
// ---------------------------------------------------------------------

/// A client's session with its target: the number of the socket that leads
/// there, and the time of the last datagram in either direction.
#[derive(Clone, Copy)]
pub struct Session {
    pub socket: u64,
    pub last_seen: Instant,
}

/// The socket of a client's session, if it has one. The session counts as
/// active at `now`.
pub fn existing_session(
    sessions: &mut ClientMap<Session>,
    client_addr: &SocketAddr,
    now: Instant,
) -> (socket: Option<u64>)
    requires
        old(sessions).wf(),
    ensures
        final(sessions).wf(),
        socket is Some <==> old(sessions)@.contains_key(client_addr@),
        socket matches Some(n) ==> {
            &&& n == old(sessions)@[client_addr@].socket
            &&& final(sessions)@ == old(sessions)@.insert(
                client_addr@,
                (Session { socket: n, last_seen: now }),
            )
        },
        socket is None ==> final(sessions)@ == old(sessions)@,
{
    let found: Option<u64> = match sessions.get(client_addr) {
        Some(session) => Some(session.socket),
        None => None,
    };
    match found {
        Some(socket) => {
            let _ = sessions.insert(client_addr, Session { socket, last_seen: now });
            Some(socket)
        },
        None => None,
    }
}

/// Whether a client has a session through `used`: the one that it had, or a new
/// one through `socket`.
pub open spec fn session_is_there(
    before: Map<AddrView, Session>,
    client: AddrView,
    socket: u64,
    now: Instant,
    used: u64,
    after: Map<AddrView, Session>,
) -> bool {
    if before.contains_key(client) {
        used == before[client].socket && after == before
    } else {
        used == socket && after == before.insert(client, Session { socket, last_seen: now })
    }
}

/// Gives a client a session through `socket`, unless it has one by now.
/// Returns the socket of the session that it has.
pub fn create_session(
    sessions: &mut ClientMap<Session>,
    client_addr: &SocketAddr,
    socket: u64,
    now: Instant,
) -> (used: u64)
    requires
        old(sessions).wf(),
    ensures
        final(sessions).wf(),
        session_is_there(old(sessions)@, client_addr@, socket, now, used, final(sessions)@),
        old(sessions)@.contains_key(client_addr@) ==> used == old(sessions)@[client_addr@].socket
            && final(sessions)@ == old(sessions)@,
        !old(sessions)@.contains_key(client_addr@) ==> used == socket && final(sessions)@ == old(
            sessions
        )@.insert(client_addr@, (Session { socket, last_seen: now })),
{
    if let Some(existing) = sessions.get(client_addr) {
        return existing.socket;
    }
    let _ = sessions.insert(client_addr, Session { socket, last_seen: now });
    socket
}

/// Notes that a datagram has come back through `socket`.
pub fn touch_session(
    sessions: &mut ClientMap<Session>,
    client_addr: &SocketAddr,
    socket: u64,
    now: Instant,
)
    requires
        old(sessions).wf(),
    ensures
        final(sessions).wf(),
        final(sessions)@ == if old(sessions)@.contains_key(client_addr@) && old(
            sessions
        )@[client_addr@].socket == socket {
            old(sessions)@.insert(client_addr@, (Session { socket, last_seen: now }))
        } else {
            old(sessions)@
        },
{
    let current = match sessions.get(client_addr) {
        Some(session) => session.socket == socket,
        None => false,
    };
    if current {
        let _ = sessions.insert(client_addr, Session { socket, last_seen: now });
    }
}

/// Whether a session goes through `socket` and, where a timeout is given, has
/// been idle for that long.
pub open spec fn session_removable(
    session: Session,
    socket: u64,
    idle_timeout: Option<Duration>,
    now: Instant,
) -> bool {
    &&& session.socket == socket
    &&& idle_timeout matches Some(limit) ==> nanos_between(now, session.last_seen) >= limit.nanos
}

/// Removes a client's session if it goes through `socket` and, where a timeout
/// is given, has been idle for that long. Returns whether it did.
pub fn remove_current_session(
    sessions: &mut ClientMap<Session>,
    client_addr: &SocketAddr,
    socket: u64,
    idle_timeout: Option<Duration>,
    now: Instant,
) -> (removed: bool)
    requires
        old(sessions).wf(),
    ensures
        final(sessions).wf(),
        removed == (old(sessions)@.contains_key(client_addr@) && session_removable(
            old(sessions)@[client_addr@],
            socket,
            idle_timeout,
            now,
        )),
        final(sessions)@ == if removed {
            old(sessions)@.remove(client_addr@)
        } else {
            old(sessions)@
        },
{
    let should_remove = match sessions.get(client_addr) {
        Some(session) => session.socket == socket && match idle_timeout {
            Some(limit) => duration_between(now, session.last_seen).nanos >= limit.nanos,
            None => true,
        },
        None => false,
    };
    if should_remove {
        let _ = sessions.remove(client_addr);
    }
    should_remove
}

// ---------------------------------------------------------------------
// Targets
// ---------------------------------------------------------------------

/// The local address to bind a socket to that leads to a target.
pub open spec fn local_addr_for(target: AddrView) -> Seq<char> {
    if target is V6 {
        "[::]:0"@
    } else {
        "0.0.0.0:0"@
    }
}

/// The local address to bind a socket to that leads to a target: any port, in
/// the target's own family.
pub fn bind_addr_for(target: &SocketAddr) -> (addr: &'static str)
    ensures
        addr@ == local_addr_for(target@),
{
    if target.is_ipv6() {
        "[::]:0"
    } else {
        "0.0.0.0:0"
    }
}

/// What to do next to select a client's target.
pub enum SelectionStep {
    /// Probe this target.
    Probe(SocketAddr),
    /// The selection is over.
    Selected(Option<SocketAddr>),
}

/// What such a step is.
pub enum StepView {
    Probe(AddrView),
    Selected(Option<AddrView>),
}

impl View for SelectionStep {
    type V = StepView;

    open spec fn view(&self) -> StepView {
        match self {
            SelectionStep::Probe(target) => StepView::Probe(target@),
            SelectionStep::Selected(Some(target)) => StepView::Selected(Some(target@)),
            SelectionStep::Selected(None) => StepView::Selected(None),
        }
    }
}

/// The next step once `probed` targets have been probed, of which the last
/// one responded or not.
pub open spec fn next_step(targets: Seq<SocketAddr>, probed: int, responded: bool) -> StepView {
    if responded {
        StepView::Selected(Some(targets[probed - 1]@))
    } else if probed < targets.len() {
        StepView::Probe(targets[probed]@)
    } else {
        StepView::Selected(None)
    }
}

/// Selects a client's target: probes them in order, up to the first one that
/// responds.
pub fn selection_step(targets: &Vec<SocketAddr>, probed: usize, responded: bool) -> (step:
    SelectionStep)
    requires
        probed <= targets@.len(),
        responded ==> probed > 0,
    ensures
        step@ == next_step(targets@, probed as int, responded),
{
    if responded {
        SelectionStep::Selected(Some(targets[probed - 1].clone()))
    } else if probed < targets.len() {
        SelectionStep::Probe(targets[probed].clone())
    } else {
        SelectionStep::Selected(None)
    }
}

/// Why the way back from a target ended.
#[derive(Debug, Clone, Copy, PartialEq, Eq, Structural)]
pub enum ReturnPathEnd {
    ForwardFailed,
    TargetClosed,
    IdleTimeout,
}

impl ReturnPathEnd {
    pub open spec fn text(self) -> Seq<char> {
        match self {
            ReturnPathEnd::ForwardFailed => "forward to client failed"@,
            ReturnPathEnd::TargetClosed => "target unreachable or closed"@,
            ReturnPathEnd::IdleTimeout => "idle timeout"@,
        }
    }

    pub fn reason(&self) -> (text: &'static str)
        ensures
            text@ == self.text(),
    {
        match self {
            ReturnPathEnd::ForwardFailed => "forward to client failed",
            ReturnPathEnd::TargetClosed => "target unreachable or closed",
            ReturnPathEnd::IdleTimeout => "idle timeout",
        }
    }
}

/// What happens on the way back from a target.
#[derive(Debug, Clone, Copy, PartialEq, Eq, Structural)]
pub enum ReturnPathEvent {
    /// A datagram came from the target, and went to the client or did not.
    Forwarded(bool),
    /// The socket to the target failed.
    TargetFailed,
    /// Nothing came for the idle timeout, and the session was removed as idle
    /// or was not.
    Quiet(bool),
}

/// How the way back from a target ends on an event, if it does.
pub open spec fn return_path_end(event: ReturnPathEvent) -> Option<ReturnPathEnd> {
    match event {
        ReturnPathEvent::Forwarded(sent) => if sent {
            None
        } else {
            Some(ReturnPathEnd::ForwardFailed)
        },
        ReturnPathEvent::TargetFailed => Some(ReturnPathEnd::TargetClosed),
        ReturnPathEvent::Quiet(removed) => if removed {
            Some(ReturnPathEnd::IdleTimeout)
        } else {
            None
        },
    }
}

/// Whether the way back from a target ends on an event, and why.
pub fn on_return_path(event: ReturnPathEvent) -> (end: Option<ReturnPathEnd>)
    ensures
        end == return_path_end(event),
{
    match event {
        ReturnPathEvent::Forwarded(sent) => if sent {
            None
        } else {
            Some(ReturnPathEnd::ForwardFailed)
        },
        ReturnPathEvent::TargetFailed => Some(ReturnPathEnd::TargetClosed),
        ReturnPathEvent::Quiet(removed) => if removed {
            Some(ReturnPathEnd::IdleTimeout)
        } else {
            None
        },
    }
}

} // verus!
