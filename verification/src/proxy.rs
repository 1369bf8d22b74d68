//! The session table — the single source of truth for "is this client
//! already connected" — and the dispatch decision taken for each inbound
//! datagram on the public socket.

use vstd::prelude::*;
use crate::packet::{spec_decode, SessionSecret, VoicePacketWrapper};

verus! {

/// A client network endpoint as plain values: the address family, the IP
/// as one number, and the port.
#[derive(Debug, Clone, Copy, PartialEq, Eq, Hash, Structural)]
pub struct NetAddr {
    pub is_v6: bool,
    pub ip: u128,
    pub port: u16,
}

/// One table entry: a secret bound to the client address last seen for it.
#[derive(Debug, Clone, Copy)]
struct SessionEntry {
    secret: SessionSecret,
    client: NetAddr,
}

/// The map a sequence of entries stands for; with unique secrets the order
/// of the entries does not matter.
spec fn entries_map(s: Seq<SessionEntry>) -> Map<u128, NetAddr>
    decreases s.len(),
{
    if s.len() == 0 {
        Map::empty()
    } else {
        entries_map(s.drop_last()).insert(s.last().secret.value, s.last().client)
    }
}

/// No two entries share a secret: at most one live session per secret.
spec fn entries_unique(s: Seq<SessionEntry>) -> bool {
    forall|i: int, j: int|
        0 <= i < j < s.len() ==> s[i].secret.value != s[j].secret.value
}

proof fn lemma_entries_map_domain(s: Seq<SessionEntry>, k: u128)
    ensures
        entries_map(s).contains_key(k) <==> exists|i: int|
            0 <= i < s.len() && #[trigger] s[i].secret.value == k,
    decreases s.len(),
{
    if s.len() > 0 {
        lemma_entries_map_domain(s.drop_last(), k);
        if s.last().secret.value == k {
            assert(s[s.len() - 1].secret.value == k);
        } else {
            if entries_map(s).contains_key(k) {
                let i = choose|i: int|
                    0 <= i < s.drop_last().len() && #[trigger] s.drop_last()[i].secret.value == k;
                assert(s[i].secret.value == k);
            }
            if exists|i: int| 0 <= i < s.len() && #[trigger] s[i].secret.value == k {
                let i = choose|i: int| 0 <= i < s.len() && #[trigger] s[i].secret.value == k;
                assert(s.drop_last()[i].secret.value == k);
            }
        }
    }
}

proof fn lemma_entries_map_value(s: Seq<SessionEntry>, i: int)
    requires
        entries_unique(s),
        0 <= i < s.len(),
    ensures
        entries_map(s).contains_key(s[i].secret.value),
        entries_map(s)[s[i].secret.value] == s[i].client,
    decreases s.len(),
{
    if i < s.len() - 1 {
        assert(entries_unique(s.drop_last())) by {
            assert forall|a: int, b: int|
                0 <= a < b < s.drop_last().len() implies s.drop_last()[a].secret.value
                != s.drop_last()[b].secret.value by {
                assert(s[a] == s.drop_last()[a]);
                assert(s[b] == s.drop_last()[b]);
            }
        }
        lemma_entries_map_value(s.drop_last(), i);
        assert(s[i] == s.drop_last()[i]);
        assert(s[i].secret.value != s.last().secret.value);
    }
}

proof fn lemma_entries_unique_remove(s: Seq<SessionEntry>, i: int)
    requires
        entries_unique(s),
        0 <= i < s.len(),
    ensures
        entries_unique(s.remove(i)),
        forall|j: int|
            0 <= j < s.remove(i).len() ==> #[trigger] s.remove(i)[j].secret.value
                != s[i].secret.value,
{
    s.remove_ensures(i);
}

proof fn lemma_entries_map_remove(s: Seq<SessionEntry>, i: int)
    requires
        entries_unique(s),
        0 <= i < s.len(),
    ensures
        entries_map(s.remove(i)) == entries_map(s).remove(s[i].secret.value),
    decreases s.len(),
{
    let k = s[i].secret.value;
    s.remove_ensures(i);
    assert(entries_unique(s.drop_last())) by {
        assert forall|a: int, b: int|
            0 <= a < b < s.drop_last().len() implies s.drop_last()[a].secret.value
            != s.drop_last()[b].secret.value by {
            assert(s[a] == s.drop_last()[a]);
            assert(s[b] == s.drop_last()[b]);
        }
    }
    if i == s.len() - 1 {
        assert(s.remove(i) =~= s.drop_last());
        lemma_entries_map_domain(s.drop_last(), k);
        assert forall|a: int|
            0 <= a < s.drop_last().len() implies #[trigger] s.drop_last()[a].secret.value
            != k by {
            assert(s[a] == s.drop_last()[a]);
        }
        assert(!entries_map(s.drop_last()).contains_key(k));
        assert(entries_map(s.drop_last()) =~= entries_map(s.drop_last()).insert(
            k,
            s.last().client,
        ).remove(k));
    } else {
        let sub = s.drop_last();
        sub.remove_ensures(i);
        lemma_entries_map_remove(sub, i);
        assert(s[i] == sub[i]);
        assert(s.remove(i).drop_last() =~= sub.remove(i));
        assert(s.remove(i).last() == s.last());
        assert(entries_map(s.remove(i)) == entries_map(sub.remove(i)).insert(
            s.last().secret.value,
            s.last().client,
        ));
        assert(s.last().secret.value != k);
        assert(entries_map(sub).remove(k).insert(s.last().secret.value, s.last().client)
            =~= entries_map(sub).insert(s.last().secret.value, s.last().client).remove(k));
    }
}

/// The concurrent mapping from session secret to the client endpoint of
/// its live forwarding session. Insertions come only from the dispatch
/// loop, removals only from a terminating session's own task; the table
/// itself guarantees at most one live session per secret.
pub struct SessionTable {
    entries: Vec<SessionEntry>,
}

impl View for SessionTable {
    type V = Map<u128, NetAddr>;

    closed spec fn view(&self) -> Map<u128, NetAddr> {
        entries_map(self.entries@)
    }
}

impl SessionTable {
    /// Well-formed: no secret has two entries.
    pub closed spec fn wf(&self) -> bool {
        entries_unique(self.entries@)
    }

    /// An empty table: no session is live.
    pub fn new() -> (t: SessionTable)
        ensures
            t.wf(),
            t@ == Map::<u128, NetAddr>::empty(),
    {
        SessionTable { entries: Vec::new() }
    }

    fn find_index(&self, secret: &SessionSecret) -> (r: Option<usize>)
        ensures
            match r {
                Option::Some(i) => i < self.entries@.len() && self.entries@[i as int].secret.value
                    == secret.value,
                Option::None => forall|j: int|
                    0 <= j < self.entries@.len() ==> #[trigger] self.entries@[j].secret.value
                        != secret.value,
            },
    {
        let n = self.entries.len();
        let mut i: usize = 0;
        while i < n
            invariant
                n == self.entries@.len(),
                i <= n,
                forall|j: int|
                    0 <= j < i ==> #[trigger] self.entries@[j].secret.value != secret.value,
            decreases n - i,
        {
            if self.entries[i].secret.value == secret.value {
                return Option::Some(i);
            }
            i = i + 1;
        }
        Option::None
    }

    /// Is a session live for this secret?
    pub fn contains(&self, secret: &SessionSecret) -> (b: bool)
        ensures
            b == self@.contains_key(secret.value),
    {
        proof {
            lemma_entries_map_domain(self.entries@, secret.value);
        }
        match self.find_index(secret) {
            Option::Some(_) => true,
            Option::None => false,
        }
    }

    /// The client address last recorded for this secret, if its session is
    /// live.
    pub fn get_client(&self, secret: &SessionSecret) -> (r: Option<NetAddr>)
        requires
            self.wf(),
        ensures
            r is Some <==> self@.contains_key(secret.value),
            r matches Some(a) ==> a == self@[secret.value],
    {
        proof {
            lemma_entries_map_domain(self.entries@, secret.value);
        }
        match self.find_index(secret) {
            Option::Some(i) => {
                proof {
                    lemma_entries_map_value(self.entries@, i as int);
                }
                Option::Some(self.entries[i].client)
            },
            Option::None => Option::None,
        }
    }

    /// Binds the secret to this client address: registers a new session on
    /// a miss, or moves an existing one to the most recent sender.
    pub fn insert(&mut self, secret: SessionSecret, client: NetAddr)
        requires
            old(self).wf(),
        ensures
            final(self).wf(),
            final(self)@ == old(self)@.insert(secret.value, client),
    {
        let entry = SessionEntry { secret, client };
        match self.find_index(&secret) {
            Option::Some(i) => {
                proof {
                    lemma_entries_unique_remove(self.entries@, i as int);
                    lemma_entries_map_remove(self.entries@, i as int);
                }
                let ghost removed = self.entries@.remove(i as int);
                self.entries.remove(i);
                self.entries.push(entry);
                proof {
                    assert(self.entries@.drop_last() =~= removed);
                    assert(entries_map(removed).insert(secret.value, client) =~= entries_map(
                        old(self).entries@,
                    ).insert(secret.value, client));
                    assert(entries_unique(self.entries@)) by {
                        assert forall|a: int, b: int|
                            0 <= a < b < self.entries@.len() implies self.entries@[a].secret.value
                            != self.entries@[b].secret.value by {
                            if b < self.entries@.len() - 1 {
                                assert(self.entries@[a] == removed[a]);
                                assert(self.entries@[b] == removed[b]);
                            } else {
                                assert(self.entries@[a] == removed[a]);
                            }
                        }
                    }
                }
            },
            Option::None => {
                self.entries.push(entry);
                proof {
                    assert(self.entries@.drop_last() =~= old(self).entries@);
                    assert(entries_unique(self.entries@)) by {
                        assert forall|a: int, b: int|
                            0 <= a < b < self.entries@.len() implies self.entries@[a].secret.value
                            != self.entries@[b].secret.value by {
                            if b < self.entries@.len() - 1 {
                                assert(self.entries@[a] == old(self).entries@[a]);
                                assert(self.entries@[b] == old(self).entries@[b]);
                            } else {
                                assert(self.entries@[a] == old(self).entries@[a]);
                            }
                        }
                    }
                }
            },
        }
    }

    /// Drops the session for this secret, if any: the one step a
    /// terminating session task performs on the table.
    pub fn remove(&mut self, secret: &SessionSecret)
        requires
            old(self).wf(),
        ensures
            final(self).wf(),
            final(self)@ == old(self)@.remove(secret.value),
    {
        proof {
            lemma_entries_map_domain(self.entries@, secret.value);
        }
        match self.find_index(secret) {
            Option::Some(i) => {
                proof {
                    lemma_entries_unique_remove(self.entries@, i as int);
                    lemma_entries_map_remove(self.entries@, i as int);
                }
                self.entries.remove(i);
            },
            Option::None => {
                proof {
                    assert(!old(self)@.contains_key(secret.value));
                    assert(old(self)@ =~= old(self)@.remove(secret.value));
                }
            },
        }
    }

    /// How many sessions are live.
    pub fn len(&self) -> (n: usize)
        requires
            self.wf(),
        ensures
            n == self@.dom().len(),
    {
        proof {
            lemma_entries_map_card(self.entries@);
        }
        self.entries.len()
    }
}

proof fn lemma_entries_map_card(s: Seq<SessionEntry>)
    requires
        entries_unique(s),
    ensures
        entries_map(s).dom().finite(),
        entries_map(s).dom().len() == s.len(),
    decreases s.len(),
{
    if s.len() == 0 {
        assert(entries_map(s).dom() =~= Set::<u128>::empty());
    } else {
        let sub = s.drop_last();
        assert(entries_unique(sub)) by {
            assert forall|a: int, b: int|
                0 <= a < b < sub.len() implies sub[a].secret.value != sub[b].secret.value by {
                assert(s[a] == sub[a]);
                assert(s[b] == sub[b]);
            }
        }
        lemma_entries_map_card(sub);
        let k = s.last().secret.value;
        lemma_entries_map_domain(sub, k);
        assert forall|a: int| 0 <= a < sub.len() implies #[trigger] sub[a].secret.value != k by {
            assert(s[a] == sub[a]);
        }
        assert(!entries_map(sub).contains_key(k));
        assert(entries_map(s).dom() =~= entries_map(sub).dom().insert(k));
    }
}

/// What the dispatch loop does with one inbound datagram: drop it, forward
/// it to the live session of its secret, or open a new session first.
pub enum DispatchAction {
    /// Hard framing failure: the datagram is silently discarded.
    Discard,
    /// A session is live for the secret: forward the raw bytes to it.
    Forward(SessionSecret),
    /// No session is live: construct one, register it, then forward.
    OpenSession(SessionSecret),
}

/// The decision for one datagram read from the public socket, and the one
/// table change the dispatch loop itself makes: a datagram whose secret has
/// a live session moves that session to the most recent sender address.
/// Registration on a miss happens only after the session's socket exists,
/// through `SessionTable::insert`; a failed construction leaves the table
/// unchanged and the datagram dropped.
pub fn handle_datagram(table: &mut SessionTable, datagram: &[u8], sender: NetAddr) -> (a:
    DispatchAction)
    requires
        old(table).wf(),
    ensures
        final(table).wf(),
        match spec_decode(datagram@) {
            Option::None => a == DispatchAction::Discard && final(table)@ == old(table)@,
            Option::Some(w) => {
                &&& old(table)@.contains_key(w.secret) ==> a == DispatchAction::Forward(
                    SessionSecret { value: w.secret },
                ) && final(table)@ == old(table)@.insert(w.secret, sender)
                &&& !old(table)@.contains_key(w.secret) ==> a == DispatchAction::OpenSession(
                    SessionSecret { value: w.secret },
                ) && final(table)@ == old(table)@
            },
        },
{
    let wrapper = match VoicePacketWrapper::try_from(datagram) {
        Result::Ok(w) => w,
        Result::Err(_) => {
            return DispatchAction::Discard;
        },
    };
    if table.contains(&wrapper.secret) {
        table.insert(wrapper.secret, sender);
        DispatchAction::Forward(wrapper.secret)
    } else {
        DispatchAction::OpenSession(wrapper.secret)
    }
}

/// Session creation is idempotent: once a secret is registered, a later
/// datagram with the same secret — from the same or another address — never
/// creates a second session. The table keeps exactly one binding for the
/// secret, at the most recent sender, and grows by exactly one over the
/// whole exchange, as `SessionTable::insert` and `handle_datagram` rebind
/// the secret rather than add to the table.
pub proof fn lemma_session_creation_idempotent(
    m: Map<u128, NetAddr>,
    secret: u128,
    first: NetAddr,
    second: NetAddr,
)
    requires
        !m.contains_key(secret),
        m.dom().finite(),
    ensures
        m.insert(secret, first).insert(secret, second).contains_key(secret),
        m.insert(secret, first).insert(secret, second)[secret] == second,
        m.insert(secret, first).insert(secret, second).dom() =~= m.dom().insert(secret),
        m.insert(secret, first).insert(secret, second).dom().len() == m.dom().len() + 1,
{
    assert(m.insert(secret, first).insert(secret, second).dom() =~= m.dom().insert(secret));
}

/// Once a session is removed — as its task does on timeout or socket error
/// — its secret is no longer in the table, whatever was bound to it; a
/// later datagram with that secret therefore takes the `OpenSession` path
/// of `handle_datagram` and gets a brand-new session, never stale state.
pub proof fn lemma_removed_secret_is_fresh(m: Map<u128, NetAddr>, secret: u128)
    ensures
        !m.remove(secret).contains_key(secret),
{
}

} // verus!
