//! Sessions: one per connected client, and the table of all of them.
use crate::ids::next_counter;
use crate::message::SessionId;
use crate::router::lookup;
use crate::runtime::{clone_arc, clone_sender, utc_now_millis};
use crate::tables::{
    session_table, sessions_entries, sessions_get, sessions_insert, sessions_len, sessions_new,
    sessions_remove, userdata_get, userdata_clone, userdata_insert, userdata_new, userdata_table, SessionMap, UserdataMap,
};
use bytes::Bytes;
use std::sync::Arc;
use tokio::sync::mpsc;
use vstd::prelude::*;

verus! {

/// The next free session id: hands out `*counter` and moves the counter on
/// by one, wrapping at the end of the range as an atomic `fetch_add` does.
pub fn next_session_id(counter: &mut u64) -> (id: SessionId)
    ensures
        id == *old(counter),
        *final(counter) == next_counter(*old(counter)),
{
    let id = *counter;
    *counter = counter.wrapping_add(1);
    id
}

#[derive(Debug, Clone, Copy, PartialEq, Eq, Structural)]
pub enum SessionState {
    Connected,
    Active,
    Closing,
    Closed,
}

/// The values stored on a session, by key. The table is private: it changes
/// only through `set`, which needs the data exclusively.
pub struct UserData {
    table: UserdataMap,
}

impl UserData {
    /// The stored values, by key.
    pub closed spec fn entries(&self) -> Map<Seq<char>, Seq<char>> {
        userdata_table(self.table)
    }

    /// No values.
    pub fn new() -> (d: UserData)
        ensures
            d.entries() == Map::<Seq<char>, Seq<char>>::empty(),
    {
        let d = UserData { table: userdata_new() };
        assert(d.entries() == Map::<Seq<char>, Seq<char>>::empty());
        d
    }

    /// Stores `value` under `key`, replacing what was there.
    pub fn set(&mut self, key: &str, value: &str)
        ensures
            final(self).entries() == old(self).entries().insert(key@, value@),
    {
        userdata_insert(&mut self.table, key.to_owned(), value.to_owned());
    }

    /// The value stored under `key`, if any.
    pub fn get(&self, key: &str) -> (r: Option<String>)
        ensures
            match r {
                Some(v) => lookup(self.entries(), key@) == Some(v@),
                None => lookup(self.entries(), key@) is None,
            },
    {
        userdata_get(&self.table, key)
    }

    /// A separate copy of the values.
    pub fn duplicate(&self) -> (d: UserData)
        ensures
            d.entries() == self.entries(),
    {
        UserData { table: userdata_clone(&self.table) }
    }
}

/// A connected client.
pub struct Session {
    pub id: SessionId,
    /// The peer's address, as text.
    pub addr: String,
    pub state: SessionState,
    /// Where the bytes to send to the client go.
    pub send_tx: mpsc::Sender<Bytes>,
    pub userdata: UserData,
    /// When the session was created, in milliseconds since the Unix epoch.
    pub created_at: i64,
}

impl Session {
    /// The values stored on the session, by key.
    pub open spec fn data(&self) -> Map<Seq<char>, Seq<char>> {
        self.userdata.entries()
    }

    /// A new session `id` for the client at `addr`, in state `Connected`,
    /// with no user data, stamped with the current time.
    pub fn new(id: SessionId, addr: String, send_tx: mpsc::Sender<Bytes>) -> (s: Session)
        ensures
            s.id == id,
            s.addr == addr,
            s.state == SessionState::Connected,
            s.send_tx == send_tx,
            s.data() == Map::<Seq<char>, Seq<char>>::empty(),
    {
        Session {
            id,
            addr,
            state: SessionState::Connected,
            send_tx,
            userdata: UserData::new(),
            created_at: utc_now_millis(),
        }
    }

    /// Stores `value` under `key`, replacing what was there.
    pub fn set_userdata(&mut self, key: &str, value: &str)
        ensures
            final(self).data() == old(self).data().insert(key@, value@),
            final(self).id == old(self).id,
            final(self).addr == old(self).addr,
            final(self).state == old(self).state,
            final(self).send_tx == old(self).send_tx,
            final(self).created_at == old(self).created_at,
    {
        self.userdata.set(key, value);
    }

    /// The value stored under `key`, if any.
    pub fn get_userdata(&self, key: &str) -> (r: Option<String>)
        ensures
            match r {
                Some(v) => lookup(self.data(), key@) == Some(v@),
                None => lookup(self.data(), key@) is None,
            },
    {
        self.userdata.get(key)
    }
}

/// The table of live sessions, with a limit on how many there may be.
pub struct SessionManager {
    sessions: SessionMap,
    max_connections: usize,
    next_id: u64,
    /// Whether the id counter has handed out `u64::MAX` and started over.
    ids_wrapped: Ghost<bool>,
}

impl SessionManager {
    /// The live sessions, by id.
    pub closed spec fn table(&self) -> Map<SessionId, Arc<Session>> {
        session_table(self.sessions)
    }

    /// How many sessions may be live at once.
    pub closed spec fn limit(&self) -> nat {
        self.max_connections as nat
    }

    /// The id the next session will get.
    pub closed spec fn next_id(&self) -> u64 {
        self.next_id
    }

    /// Whether the id counter has gone past `u64::MAX` and started over.
    pub closed spec fn ids_wrapped(&self) -> bool {
        self.ids_wrapped@
    }

    /// Each session is filed under its own id, and there are no more
    /// sessions than the limit. Until the counter wraps, every live id is
    /// below the next id, so the next id is fresh. Every operation keeps it
    /// so.
    #[verifier::type_invariant]
    spec fn wf(&self) -> bool {
        &&& self.table().dom().finite()
        &&& self.table().len() <= self.limit()
        &&& forall|k: SessionId| #[trigger] self.table().contains_key(k) ==> self.table()[k].id == k
        &&& !self.ids_wrapped() ==> forall|k: SessionId|
            #[trigger] self.table().contains_key(k) ==> k < self.next_id()
    }

    /// An empty table allowing `max_connections` sessions; ids start at 1.
    pub fn new(max_connections: usize) -> (m: SessionManager)
        ensures
            m.table() == Map::<SessionId, Arc<Session>>::empty(),
            m.limit() == max_connections,
            m.next_id() == 1,
            !m.ids_wrapped(),
    {
        let m = SessionManager {
            sessions: sessions_new(),
            max_connections,
            next_id: 1,
            ids_wrapped: Ghost(false),
        };
        assert(m.table() == Map::<SessionId, Arc<Session>>::empty());
        m
    }

    /// Opens a session for the client at `addr` if the limit allows:
    /// `None` when the table is full; otherwise the new session, which gets
    /// the next id and is filed under it.
    pub fn create_session(&mut self, addr: String, send_tx: mpsc::Sender<Bytes>) -> (r: Option<
        Arc<Session>,
    >)
        ensures
            final(self).limit() == old(self).limit(),
            r is None <==> old(self).table().len() >= old(self).limit(),
            match r {
                None => {
                    &&& final(self).table() == old(self).table()
                    &&& final(self).next_id() == old(self).next_id()
                    &&& final(self).ids_wrapped() == old(self).ids_wrapped()
                },
                Some(s) => {
                    &&& s.id == old(self).next_id()
                    &&& final(self).ids_wrapped() == (old(self).ids_wrapped() || s.id == u64::MAX)
                    &&& !old(self).ids_wrapped() ==> {
                        &&& forall|k: SessionId|
                            #[trigger] old(self).table().contains_key(k) ==> k < s.id
                        &&& !old(self).table().contains_key(s.id)
                        &&& final(self).table().len() == old(self).table().len() + 1
                    }
                    &&& s.addr == addr
                    &&& s.state == SessionState::Connected
                    &&& s.send_tx == send_tx
                    &&& s.data() == Map::<Seq<char>, Seq<char>>::empty()
                    &&& final(self).table() == old(self).table().insert(s.id, s)
                    &&& final(self).next_id() == next_counter(old(self).next_id())
                },
            },
    {
        proof {
            use_type_invariant(&*self);
        }
        if sessions_len(&self.sessions) >= self.max_connections {
            return None;
        }
        proof {
            self.ids_wrapped = Ghost(self.ids_wrapped@ || self.next_id == u64::MAX);
        }
        let mut counter = self.next_id;
        let id = next_session_id(&mut counter);
        self.next_id = counter;
        let session = Arc::new(Session::new(id, addr, send_tx));
        proof {
            let old_t = old(self).table();
            let new_t = old_t.insert(id, session);
            if old_t.contains_key(id) {
                assert(new_t.dom() == old_t.dom());
            } else {
                assert(new_t.len() == old_t.len() + 1);
            }
        }
        // The table leaves the manager while it changes, and comes back
        // with the new session filed under its id.
        let mut sessions = sessions_new();
        std::mem::swap(&mut sessions, &mut self.sessions);
        sessions_insert(&mut sessions, id, clone_arc(&session));
        self.sessions = sessions;
        Some(session)
    }

    /// Takes the session `session_id` out of the table, if it is there.
    pub fn remove_session(&mut self, session_id: SessionId) -> (r: Option<Arc<Session>>)
        ensures
            final(self).limit() == old(self).limit(),
            final(self).next_id() == old(self).next_id(),
            final(self).ids_wrapped() == old(self).ids_wrapped(),
            final(self).table() == old(self).table().remove(session_id),
            match r {
                Some(s) => old(self).table().contains_key(session_id) && old(self).table()[session_id]
                    == s,
                None => !old(self).table().contains_key(session_id),
            },
    {
        proof {
            use_type_invariant(&*self);
        }
        let mut sessions = sessions_new();
        std::mem::swap(&mut sessions, &mut self.sessions);
        let r = sessions_remove(&mut sessions, session_id);
        proof {
            let old_t = old(self).table();
            if old_t.contains_key(session_id) {
                assert(old_t.remove(session_id).len() == old_t.len() - 1);
            } else {
                assert(old_t.remove(session_id) == old_t);
            }
        }
        self.sessions = sessions;
        r
    }

    /// The session `session_id`, if it is live.
    pub fn get_session(&self, session_id: SessionId) -> (r: Option<Arc<Session>>)
        ensures
            match r {
                Some(s) => lookup(self.table(), session_id) == Some(s),
                None => lookup(self.table(), session_id) is None,
            },
    {
        sessions_get(&self.sessions, session_id)
    }

    /// Stores `value` under `key` on the live session `session_id`; `false`
    /// when there is no such session. The session is replaced in the table
    /// by one that differs only in its data, so later lookups see the value.
    pub fn set_userdata(&mut self, session_id: SessionId, key: &str, value: &str) -> (found: bool)
        ensures
            final(self).limit() == old(self).limit(),
            final(self).next_id() == old(self).next_id(),
            final(self).ids_wrapped() == old(self).ids_wrapped(),
            found == old(self).table().contains_key(session_id),
            !found ==> final(self).table() == old(self).table(),
            found ==> {
                let before = old(self).table()[session_id];
                let after = final(self).table()[session_id];
                &&& final(self).table().contains_key(session_id)
                &&& final(self).table().remove(session_id) == old(self).table().remove(session_id)
                &&& after.data() == before.data().insert(key@, value@)
                &&& after.id == before.id
                &&& after.addr == before.addr
                &&& after.state == before.state
                &&& after.send_tx == before.send_tx
                &&& after.created_at == before.created_at
            },
    {
        proof {
            use_type_invariant(&*self);
        }
        match sessions_get(&self.sessions, session_id) {
            None => false,
            Some(s) => {
                let mut userdata = s.userdata.duplicate();
                userdata.set(key, value);
                let updated = Session {
                    id: s.id,
                    addr: s.addr.clone(),
                    state: s.state,
                    send_tx: clone_sender(&s.send_tx),
                    userdata,
                    created_at: s.created_at,
                };
                let updated = Arc::new(updated);
                proof {
                    let old_t = old(self).table();
                    let new_t = old_t.insert(session_id, updated);
                    assert(new_t.dom() == old_t.dom());
                    assert(new_t.remove(session_id) == old_t.remove(session_id));
                }
                let mut sessions = sessions_new();
                std::mem::swap(&mut sessions, &mut self.sessions);
                sessions_insert(&mut sessions, session_id, updated);
                self.sessions = sessions;
                true
            },
        }
    }

    /// The number of live sessions.
    pub fn session_count(&self) -> (n: usize)
        ensures
            n == self.table().len(),
    {
        sessions_len(&self.sessions)
    }

    /// The sessions a broadcast reaches: every live session, except the one
    /// filed under `except_id` when one is given. Each comes once; the order
    /// is not stated.
    pub fn sessions_except(&self, except_id: Option<SessionId>) -> (v: Vec<Arc<Session>>)
        ensures
            forall|i: int|
                0 <= i < v@.len() ==> self.table().contains_key(#[trigger] v@[i].id) && self.table()[v@[i].id]
                    == v@[i] && Some(v@[i].id) != except_id,
            forall|k: SessionId|
                #[trigger] self.table().contains_key(k) && Some(k) != except_id ==> v@.contains(
                    self.table()[k],
                ),
            forall|i: int, j: int| 0 <= i < j < v@.len() ==> v@[i].id != v@[j].id,
    {
        proof {
            use_type_invariant(self);
        }
        let entries = sessions_entries(&self.sessions);
        let mut v: Vec<Arc<Session>> = Vec::new();
        let ghost mut src: Seq<int> = Seq::empty();
        let mut i: usize = 0;
        while i < entries.len()
            invariant
                0 <= i <= entries@.len(),
                self.wf(),
                forall|a: int|
                    0 <= a < entries@.len() ==> self.table().contains_key(#[trigger] entries@[a].0)
                        && self.table()[entries@[a].0] == entries@[a].1,
                forall|a: int, b: int| 0 <= a < b < entries@.len() ==> entries@[a].0 != entries@[b].0,
                src.len() == v@.len(),
                forall|j: int|
                    0 <= j < v@.len() ==> 0 <= #[trigger] src[j] < i && v@[j] == entries@[src[j]].1
                        && Some(entries@[src[j]].0) != except_id,
                forall|j: int, l: int| 0 <= j < l < v@.len() ==> src[j] < src[l],
                forall|a: int|
                    0 <= a < i && Some(#[trigger] entries@[a].0) != except_id ==> v@.contains(
                        entries@[a].1,
                    ),
            decreases entries@.len() - i,
        {
            let id = entries[i].0;
            let keep = match except_id {
                Some(e) => id != e,
                None => true,
            };
            if keep {
                let ghost before = v@;
                v.push(clone_arc(&entries[i].1));
                proof {
                    src = src.push(i as int);
                    assert forall|a: int|
                        0 <= a < i + 1 && Some(#[trigger] entries@[a].0) != except_id implies v@.contains(
                        entries@[a].1,
                    ) by {
                        if a == i {
                            assert(v@[v@.len() - 1] == entries@[a].1);
                        } else {
                            let j = choose|j: int| 0 <= j < before.len() && before[j] == entries@[a].1;
                            assert(v@[j] == before[j]);
                        }
                    }
                }
            }
            i = i + 1;
        }
        proof {
            assert forall|j: int|
                0 <= j < v@.len() implies self.table().contains_key(#[trigger] v@[j].id)
                && self.table()[v@[j].id] == v@[j] && Some(v@[j].id) != except_id by {
                let a = src[j];
                assert(self.table()[entries@[a].0].id == entries@[a].0);
            }
            assert forall|j: int, l: int| 0 <= j < l < v@.len() implies v@[j].id != v@[l].id by {
                let a = src[j];
                let b = src[l];
                assert(self.table()[entries@[a].0].id == entries@[a].0);
                assert(self.table()[entries@[b].0].id == entries@[b].0);
            }
            assert forall|k: SessionId|
                #[trigger] self.table().contains_key(k) && Some(k) != except_id implies v@.contains(
                self.table()[k],
            ) by {
                let a = choose|a: int| 0 <= a < entries@.len() && #[trigger] entries@[a].0 == k;
                assert(v@.contains(entries@[a].1));
            }
        }
        v
    }
}

/// What a read gives back of a write: after `set_userdata(key, value)` the
/// session holds `value` under `key`, and every other key as before.
pub proof fn law_userdata_reads_back(
    data: Map<Seq<char>, Seq<char>>,
    key: Seq<char>,
    value: Seq<char>,
    other: Seq<char>,
)
    ensures
        lookup(data.insert(key, value), key) == Some(value),
        other != key ==> lookup(data.insert(key, value), other) == lookup(data, other),
{
}

/// A created session can be looked up by its id until it is removed; after
/// removal it is gone and the others are untouched.
pub proof fn law_session_lifecycle(
    table: Map<SessionId, Arc<Session>>,
    s: Arc<Session>,
    other: SessionId,
)
    ensures
        lookup(table.insert(s.id, s), s.id) == Some(s),
        lookup(table.insert(s.id, s).remove(s.id), s.id) is None,
        other != s.id ==> lookup(table.insert(s.id, s).remove(s.id), other) == lookup(table, other),
{
}

} // verus!
