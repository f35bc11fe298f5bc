//! The connections that are open, for the status line and for a snapshot on
//! disk.

use std::collections::HashMap;
use std::time::Instant;

use serde_json::Value;
use vstd::prelude::*;
use vstd::utf8::encode_utf8;

use crate::json::{
    array_text, comes_before, json_object, json_string, json_text, json_unsigned, member_texts,
    object_text, quoted, render_array, value_texts,
};
use crate::net::{AddrView, SocketAddr};
use crate::text::{decimal, push_decimal};
use crate::time::{duration_between, nanos_between, unix_time, Duration};

verus! {

broadcast use vstd::std_specs::hash::group_hash_axioms;

/// Where the snapshot is kept.
pub const STATE_FILE: &'static str = "/run/redir-rust/connections.json";

/// The directory of the snapshot.
pub const STATE_DIR: &'static str = "/run/redir-rust";

/// Clients that the status line names at most. It is meant to stay short; the
/// rest is in the snapshot.
pub const STATUS_LINE_CLIENT_LIMIT: usize = 8;

/// An open connection.
pub struct Entry {
    pub redirect: String,
    pub protocol: String,
    pub client: SocketAddr,
    pub target: SocketAddr,
    pub connected_at: Instant,
    pub connected_at_unix: u64,
}

/// What an open connection is.
pub struct EntryView {
    pub redirect: Seq<char>,
    pub protocol: Seq<char>,
    pub client: AddrView,
    pub target: AddrView,
    pub connected_at: Instant,
    pub connected_at_unix: u64,
}

impl View for Entry {
    type V = EntryView;

    open spec fn view(&self) -> EntryView {
        EntryView {
            redirect: self.redirect@,
            protocol: self.protocol@,
            client: self.client@,
            target: self.target@,
            connected_at: self.connected_at,
            connected_at_unix: self.connected_at_unix,
        }
    }
}

/// The open connections, each under a number of its own.
pub struct Registry {
    pub next_id: u64,
    pub entries: HashMap<u64, Entry>,
}

/// The number of a connection that is open.
#[must_use]
#[derive(Debug, PartialEq, Eq, Structural)]
pub struct ConnectionGuard(pub u64);

/// Whole seconds since the Unix epoch; zero where the clock stands before it.
pub open spec fn unix_secs(since_epoch: Option<Duration>) -> u64 {
    match since_epoch {
        Some(d) => (d.nanos / 1_000_000_000 % 0x1_0000_0000_0000_0000) as u64,
        None => 0,
    }
}

/// A connection that is opened at a given time.
pub open spec fn new_entry(
    redirect: Seq<char>,
    protocol: Seq<char>,
    client: AddrView,
    target: AddrView,
    now: Instant,
    since_epoch: Option<Duration>,
) -> EntryView {
    EntryView {
        redirect,
        protocol,
        client,
        target,
        connected_at: now,
        connected_at_unix: unix_secs(since_epoch),
    }
}

impl Registry {
    /// The open connections by number.
    pub open spec fn open(&self) -> Map<u64, EntryView> {
        self.entries@.map_values(|e: Entry| e@)
    }

    /// No connection has a number that is still to be given out.
    pub open spec fn ids_are_fresh(&self) -> bool {
        forall|id: u64| #[trigger] self.entries@.contains_key(id) ==> id < self.next_id
    }

    /// No connection is open.
    pub fn new() -> (registry: Self)
        ensures
            registry.next_id == 1,
            registry.open() == Map::<u64, EntryView>::empty(),
            registry.ids_are_fresh(),
    {
        let registry = Registry { next_id: 1, entries: HashMap::new() };
        assert(registry.open() =~= Map::empty());
        registry
    }

    /// Takes in a connection that is opened at a given time.
    pub fn track_at(
        &mut self,
        redirect: &str,
        protocol: &str,
        client: &SocketAddr,
        target: &SocketAddr,
        now: Instant,
        since_epoch: Option<Duration>,
    ) -> (guard: ConnectionGuard)
        ensures
            guard.0 == old(self).next_id,
            final(self).next_id == if old(self).next_id == u64::MAX {
                0
            } else {
                old(self).next_id + 1
            },
            final(self).open() == old(self).open().insert(
                guard.0,
                new_entry(redirect@, protocol@, client@, target@, now, since_epoch),
            ),
            old(self).ids_are_fresh() && old(self).next_id < u64::MAX ==> final(
                self
            ).ids_are_fresh() && !old(self).open().contains_key(guard.0),
    {
        let id: u64 = self.next_id;
        self.next_id = if id == u64::MAX {
            0
        } else {
            id + 1
        };
        let connected_at_unix: u64 = match since_epoch {
            Some(d) => (d.as_secs() % 0x1_0000_0000_0000_0000) as u64,
            None => 0,
        };
        let entry = Entry {
            redirect: redirect.to_string(),
            protocol: protocol.to_string(),
            client: client.clone(),
            target: target.clone(),
            connected_at: now,
            connected_at_unix,
        };
        let ghost view = entry@;
        self.entries.insert(id, entry);
        assert(self.open() =~= old(self).open().insert(id, view));
        ConnectionGuard(id)
    }

    /// Takes in a connection that is opened now.
    pub fn track(
        &mut self,
        redirect: &str,
        protocol: &str,
        client: &SocketAddr,
        target: &SocketAddr,
    ) -> (guard: ConnectionGuard)
        ensures
            guard.0 == old(self).next_id,
            final(self).next_id == if old(self).next_id == u64::MAX {
                0
            } else {
                old(self).next_id + 1
            },
            exists|now: Instant, clock: Option<Duration>|
                final(self).open() == old(self).open().insert(
                    guard.0,
                    #[trigger] new_entry(redirect@, protocol@, client@, target@, now, clock),
                ),
            old(self).ids_are_fresh() && old(self).next_id < u64::MAX ==> final(
                self
            ).ids_are_fresh() && !old(self).open().contains_key(guard.0),
    {
        let clock = unix_time();
        let now = Instant::now();
        self.track_at(redirect, protocol, client, target, now, clock)
    }

    /// Whether a connection is open.
    pub fn is_registered(&self, guard: &ConnectionGuard) -> (registered: bool)
        ensures
            registered == self.open().contains_key(guard.0),
    {
        self.entries.contains_key(&guard.0)
    }

    /// Takes a connection out that has been closed.
    pub fn release(&mut self, guard: ConnectionGuard)
        ensures
            final(self).open() == old(self).open().remove(guard.0),
            final(self).next_id == old(self).next_id,
            old(self).ids_are_fresh() ==> final(self).ids_are_fresh(),
    {
        self.entries.remove(&guard.0);
        assert(self.open() =~= old(self).open().remove(guard.0));
    }

    /// The numbers of the open connections, in some order.
    pub fn ids(&self) -> (ids: Vec<u64>)
        ensures
            ids@.no_duplicates(),
            forall|id: u64| #[trigger] ids@.contains(id) <==> self.open().contains_key(id),
            ids@.len() == self.open().dom().len(),
    {
        let mut ids: Vec<u64> = Vec::new();
        for id in it: self.entries.keys()
            invariant
                it.seq().unref().no_duplicates(),
                it.seq().unref().to_set() == self.entries@.dom(),
                ids@ == it.seq().unref().take(it.index() as int),
                it.index() == it.seq().len() ==> ids@ == it.seq().unref(),
        {
            ids.push(*id);
            assert(ids@ =~= it.seq().unref().take(it.index() + 1));
        }
        proof {
            assert(self.open().dom() =~= self.entries@.dom());
            ids@.unique_seq_to_set();
            assert forall|id: u64| #[trigger] ids@.contains(id) <==> self.open().contains_key(
                id,
            ) by {
                assert(ids@.to_set().contains(id) <==> ids@.contains(id));
            }
        }
        ids
    }
}

// ---------------------------------------------------------------------
// The snapshot
// ---------------------------------------------------------------------

/// The text of a connection in the snapshot.
pub open spec fn entry_text(id: u64, e: EntryView, now: Instant) -> Seq<char> {
    object_text(
        seq![
            ("client"@, quoted(e.client.text())),
            ("connected_at_unix"@, decimal(e.connected_at_unix as nat)),
            (
                "duration_secs"@,
                decimal(
                    (nanos_between(now, e.connected_at) / 1_000_000_000
                        % 0x1_0000_0000_0000_0000) as nat,
                ),
            ),
            ("id"@, decimal(id as nat)),
            ("protocol"@, quoted(e.protocol)),
            ("redirect"@, quoted(e.redirect)),
            ("target"@, quoted(e.target.text())),
        ],
    )
}

/// The text of a snapshot that lists the connections in this order.
pub open spec fn snapshot_text(
    open: Map<u64, EntryView>,
    ids: Seq<u64>,
    now: Instant,
) -> Seq<char> {
    array_text(Seq::new(ids.len(), |i: int| entry_text(ids[i], open[ids[i]], now)))
}

proof fn lemma_entry_names_in_order()
    ensures
        comes_before("client"@, "connected_at_unix"@),
        comes_before("connected_at_unix"@, "duration_secs"@),
        comes_before("duration_secs"@, "id"@),
        comes_before("id"@, "protocol"@),
        comes_before("protocol"@, "redirect"@),
        comes_before("redirect"@, "target"@),
{
    reveal_with_fuel(comes_before, 2);
    reveal_strlit("client");
    reveal_strlit("connected_at_unix");
    reveal_strlit("duration_secs");
    reveal_strlit("id");
    reveal_strlit("protocol");
    reveal_strlit("redirect");
    reveal_strlit("target");
}

fn entry_value(id: u64, e: &Entry, now: Instant) -> (v: Value)
    ensures
        json_text(v) == entry_text(id, e@, now),
{
    let secs: u64 = (duration_between(now, e.connected_at).as_secs()
        % 0x1_0000_0000_0000_0000) as u64;
    let mut fields: Vec<(String, Value)> = Vec::new();
    fields.push(("client".to_string(), json_string(e.client.to_text().as_str())));
    fields.push(("connected_at_unix".to_string(), json_unsigned(e.connected_at_unix)));
    fields.push(("duration_secs".to_string(), json_unsigned(secs)));
    fields.push(("id".to_string(), json_unsigned(id)));
    fields.push(("protocol".to_string(), json_string(e.protocol.as_str())));
    fields.push(("redirect".to_string(), json_string(e.redirect.as_str())));
    fields.push(("target".to_string(), json_string(e.target.to_text().as_str())));
    proof {
        lemma_entry_names_in_order();
        assert(member_texts(fields@) =~= seq![
            ("client"@, quoted(e@.client.text())),
            ("connected_at_unix"@, decimal(e@.connected_at_unix as nat)),
            ("duration_secs"@, decimal(secs as nat)),
            ("id"@, decimal(id as nat)),
            ("protocol"@, quoted(e@.protocol)),
            ("redirect"@, quoted(e@.redirect)),
            ("target"@, quoted(e@.target.text())),
        ]);
    }
    json_object(fields)
}

/// The one line for the service manager: how many connections there are, and
/// the clients of some of them.
pub open spec fn status_line(total: nat, shown: Seq<AddrView>) -> Seq<char> {
    if total == 0 {
        "online"@
    } else {
        decimal(total) + " connection(s): "@ + bracketed(shown) + if total > shown.len() {
            " +"@ + decimal((total - shown.len()) as nat) + " more"@
        } else {
            Seq::empty()
        }
    }
}

/// Addresses in brackets with a space between them.
pub open spec fn bracketed(addrs: Seq<AddrView>) -> Seq<char>
    decreases addrs.len(),
{
    if addrs.len() == 0 {
        Seq::empty()
    } else {
        let last = seq!['['] + addrs.last().text() + seq![']'];
        if addrs.len() == 1 {
            last
        } else {
            bracketed(addrs.drop_last()) + seq![' '] + last
        }
    }
}

/// The views of a list of addresses.
pub open spec fn addr_views(addrs: Seq<SocketAddr>) -> Seq<AddrView> {
    Seq::new(addrs.len(), |i: int| addrs[i]@)
}

/// Builds the one line for the service manager. `shown` are the clients to
/// name, of `total`.
pub fn format_status_text(total: usize, shown: &[SocketAddr]) -> (text: String)
    ensures
        text@ == status_line(total as nat, addr_views(shown@)),
{
    if total == 0 {
        return "online".to_string();
    }
    let mut text = String::new();
    push_decimal(&mut text, total as u64);
    text.append(" connection(s): ");
    let ghost head = text@;
    let ghost all = addr_views(shown@);
    let mut i: usize = 0;
    assert(text@ =~= head + bracketed(all.take(0)));
    while i < shown.len()
        invariant
            i <= shown@.len(),
            all == addr_views(shown@),
            text@ == head + bracketed(all.take(i as int)),
        decreases shown@.len() - i,
    {
        assert(all.take(i + 1).drop_last() =~= all.take(i as int));
        if i > 0 {
            text.push(' ');
        }
        text.push('[');
        shown[i].push_text(&mut text);
        text.push(']');
        i = i + 1;
        assert(text@ =~= head + bracketed(all.take(i as int)));
    }
    assert(all.take(i as int) =~= all);
    if total > shown.len() {
        text.append(" +");
        push_decimal(&mut text, (total - shown.len()) as u64);
        text.append(" more");
    }
    assert(text@ =~= status_line(total as nat, all));
    text
}

/// The status line where the connections are named in this order: the clients
/// of the first few.
pub open spec fn status_text(open: Map<u64, EntryView>, ids: Seq<u64>) -> Seq<char> {
    let shown = if ids.len() < STATUS_LINE_CLIENT_LIMIT {
        ids.len()
    } else {
        STATUS_LINE_CLIENT_LIMIT as nat
    };
    status_line(ids.len(), Seq::new(shown, |i: int| open[ids[i]].client))
}

impl Registry {
    /// The bytes of the snapshot, with the connections in this order.
    pub fn snapshot_at(&self, ids: &Vec<u64>, now: Instant) -> (bytes: Vec<u8>)
        requires
            forall|i: int| 0 <= i < ids@.len() ==> self.open().contains_key(#[trigger] ids@[i]),
        ensures
            bytes@ == encode_utf8(snapshot_text(self.open(), ids@, now)),
    {
        let mut values: Vec<Value> = Vec::new();
        let mut i: usize = 0;
        while i < ids.len()
            invariant
                i <= ids@.len(),
                values@.len() == i,
                forall|j: int| 0 <= j < ids@.len() ==> self.open().contains_key(#[trigger] ids@[j]),
                forall|j: int|
                    0 <= j < i ==> json_text(#[trigger] values@[j]) == entry_text(
                        ids@[j],
                        self.open()[ids@[j]],
                        now,
                    ),
            decreases ids@.len() - i,
        {
            assert(self.open().contains_key(ids@[i as int]));
            if let Some(entry) = self.entries.get(&ids[i]) {
                values.push(entry_value(ids[i], entry, now));
            }
            i = i + 1;
        }
        assert(value_texts(values@) =~= Seq::new(
            ids@.len(),
            |j: int| entry_text(ids@[j], self.open()[ids@[j]], now),
        ));
        render_array(&values)
    }

    /// The status line, with the connections named in this order.
    pub fn status_at(&self, ids: &Vec<u64>) -> (line: String)
        requires
            forall|i: int| 0 <= i < ids@.len() ==> self.open().contains_key(#[trigger] ids@[i]),
        ensures
            line@ == status_text(self.open(), ids@),
    {
        let mut shown: Vec<SocketAddr> = Vec::new();
        let mut i: usize = 0;
        while i < ids.len() && i < STATUS_LINE_CLIENT_LIMIT
            invariant
                i <= ids@.len(),
                i <= STATUS_LINE_CLIENT_LIMIT,
                shown@.len() == i,
                forall|j: int| 0 <= j < ids@.len() ==> self.open().contains_key(#[trigger] ids@[j]),
                forall|j: int|
                    0 <= j < i ==> #[trigger] shown@[j]@ == self.open()[ids@[j]].client,
            decreases ids@.len() - i,
        {
            assert(self.open().contains_key(ids@[i as int]));
            if let Some(entry) = self.entries.get(&ids[i]) {
                shown.push(entry.client.clone());
            }
            i = i + 1;
        }
        assert(addr_views(shown@) =~= Seq::new(
            shown@.len(),
            |j: int| self.open()[ids@[j]].client,
        ));
        format_status_text(ids.len(), shown.as_slice())
    }

    /// The bytes of the snapshot and the status line for the connections as
    /// they are now. Both list the connections in one order, which is not
    /// fixed.
    pub fn persist(&self) -> (result: (Vec<u8>, String))
        ensures
            exists|ids: Seq<u64>, now: Instant|
                {
                    &&& ids.no_duplicates()
                    &&& forall|id: u64| #[trigger]
                        ids.contains(id) <==> self.open().contains_key(id)
                    &&& result.0@ == encode_utf8(#[trigger] snapshot_text(self.open(), ids, now))
                    &&& result.1@ == status_text(self.open(), ids)
                },
    {
        let ids = self.ids();
        let now = Instant::now();
        assert forall|i: int| 0 <= i < ids@.len() implies self.open().contains_key(
            #[trigger] ids@[i],
        ) by {
            assert(ids@.contains(ids@[i]));
        }
        (self.snapshot_at(&ids, now), self.status_at(&ids))
    }
}

/// A connection that is opened and closed again leaves the others as they
/// were.
pub proof fn open_and_close_restores(open: Map<u64, EntryView>, id: u64, e: EntryView)
    requires
        !open.contains_key(id),
    ensures
        open.insert(id, e).contains_key(id),
        open.insert(id, e).remove(id) == open,
{
    assert(open.insert(id, e).remove(id) =~= open);
}

/// A connection is kept with its own ends, its redirect and protocol, and the
/// time of both clocks.
pub proof fn connections_are_kept_as_they_are(
    redirect: Seq<char>,
    protocol: Seq<char>,
    client: AddrView,
    target: AddrView,
    now: Instant,
    since_epoch: Option<Duration>,
)
    ensures
        ({
            let e = new_entry(redirect, protocol, client, target, now, since_epoch);
            &&& e.redirect == redirect
            &&& e.protocol == protocol
            &&& e.client == client
            &&& e.target == target
            &&& e.connected_at == now
            &&& since_epoch is None ==> e.connected_at_unix == 0
            &&& since_epoch matches Some(d) ==> d.nanos / 1_000_000_000 <= u64::MAX
                ==> e.connected_at_unix == d.nanos / 1_000_000_000
        }),
{
}

proof fn lemma_small_parts(total: nat, shown: Seq<AddrView>)
    ensures
        total > 0 && total > shown.len() ==> status_line(total, shown) == decimal(total)
            + " connection(s): "@ + bracketed(shown) + (" +"@ + decimal(
            (total - shown.len()) as nat,
        ) + " more"@),
        total > 0 && total <= shown.len() ==> status_line(total, shown) == decimal(total)
            + " connection(s): "@ + bracketed(shown),
{
    if total > 0 && total <= shown.len() {
        assert(decimal(total) + " connection(s): "@ + bracketed(shown) + Seq::<char>::empty()
            =~= decimal(total) + " connection(s): "@ + bracketed(shown));
    }
}

/// The status line says that there are no connections, or how many there are;
/// it names the clients of the first eight, and says how many more there are.
pub proof fn status_line_counts_and_names(open: Map<u64, EntryView>, ids: Seq<u64>)
    ensures
        ids.len() == 0 ==> status_text(open, ids) == "online"@,
        0 < ids.len() <= 8 ==> status_text(open, ids) == decimal(ids.len()) + " connection(s): "@
            + bracketed(Seq::new(ids.len(), |i: int| open[ids[i]].client)),
        ids.len() > 8 ==> status_text(open, ids) == decimal(ids.len()) + " connection(s): "@
            + bracketed(Seq::new(8, |i: int| open[ids[i]].client)) + (" +"@ + decimal(
            (ids.len() - 8) as nat,
        ) + " more"@),
{
    if ids.len() <= 8 {
        let shown = Seq::new(ids.len(), |i: int| open[ids[i]].client);
        lemma_small_parts(ids.len(), shown);
        if ids.len() == 8 {
            assert(shown =~= Seq::new(8, |i: int| open[ids[i]].client));
        }
    } else {
        lemma_small_parts(ids.len(), Seq::new(8, |i: int| open[ids[i]].client));
    }
}

/// Each client stands in brackets, with a space before all but the first.
pub proof fn clients_stand_in_brackets(addrs: Seq<AddrView>, next: AddrView)
    ensures
        bracketed(Seq::<AddrView>::empty()) == Seq::<char>::empty(),
        bracketed(addrs.push(next)) == (if addrs.len() == 0 {
            Seq::<char>::empty()
        } else {
            bracketed(addrs) + " "@
        }) + "["@ + next.text() + "]"@,
{
    reveal_strlit(" ");
    reveal_strlit("[");
    reveal_strlit("]");
    assert(addrs.push(next).drop_last() =~= addrs);
    assert(" "@ =~= seq![' ']);
    assert("["@ =~= seq!['[']);
    assert("]"@ =~= seq![']']);
    assert(bracketed(addrs.push(next)) =~= (if addrs.len() == 0 {
        Seq::<char>::empty()
    } else {
        bracketed(addrs) + " "@
    }) + "["@ + next.text() + "]"@);
}

/// A snapshot is a list with one object for each connection, in order, that
/// holds its number, its ends, its redirect and protocol, since when it is
/// open, and for how many seconds.
pub proof fn snapshots_list_every_connection(
    open: Map<u64, EntryView>,
    ids: Seq<u64>,
    now: Instant,
    texts: Seq<Seq<char>>,
)
    requires
        texts.len() == ids.len(),
        forall|i: int|
            0 <= i < ids.len() ==> #[trigger] texts[i] == object_text(
                seq![
                    ("client"@, quoted(open[ids[i]].client.text())),
                    ("connected_at_unix"@, decimal(open[ids[i]].connected_at_unix as nat)),
                    (
                        "duration_secs"@,
                        decimal(
                            (nanos_between(now, open[ids[i]].connected_at) / 1_000_000_000
                                % 0x1_0000_0000_0000_0000) as nat,
                        ),
                    ),
                    ("id"@, decimal(ids[i] as nat)),
                    ("protocol"@, quoted(open[ids[i]].protocol)),
                    ("redirect"@, quoted(open[ids[i]].redirect)),
                    ("target"@, quoted(open[ids[i]].target.text())),
                ],
            ),
    ensures
        snapshot_text(open, ids, now) == array_text(texts),
{
    assert(texts =~= Seq::new(ids.len(), |i: int| entry_text(ids[i], open[ids[i]], now)));
}

} // verus!
