//! The concurrent hash maps of `dashmap` that hold the router's and the
//! session manager's tables.
//!
//! A `DashMap` is opaque to the verifier. What each table holds is named by
//! a spec function of its own (`route_table`, `actor_table`,
//! `session_table`, `userdata_table`): a name cannot be generic, so each
//! instantiation of the map has its own name and its own trusted
//! operations. `DashMap` mutates through a shared reference; the operations
//! below that change a table take it by `&mut`, so that the verifier sees
//! the change, and the framework shares its tables through locks around the
//! structures that own them.
use crate::actor::ActorRef;
use crate::session::Session;
use dashmap::DashMap;
use std::sync::Arc;
use vstd::prelude::*;

verus! {

/// The concurrent hash map of `dashmap`.
#[verifier::external_type_specification]
#[verifier::external_body]
#[verifier::reject_recursive_types(K)]
#[verifier::reject_recursive_types(V)]
#[verifier::reject_recursive_types(S)]
pub struct ExDashMap<K, V, S>(DashMap<K, V, S>);

/// The router's table of routes: message id to actor.
pub type RouteMap = DashMap<u16, ActorRef>;

/// The router's table of actors: actor name to actor.
pub type ActorMap = DashMap<String, ActorRef>;

/// The session manager's table: session id to session.
pub type SessionMap = DashMap<u64, Arc<Session>>;

/// A session's user data: key to value.
pub type UserdataMap = DashMap<String, String>;

/// What the router's message-route table holds: message id to actor.
pub uninterp spec fn route_table(m: RouteMap) -> Map<u16, ActorRef>;

/// What the router's actor table holds: actor name to actor.
pub uninterp spec fn actor_table(m: ActorMap) -> Map<Seq<char>, ActorRef>;

/// What the session manager's table holds: session id to session.
pub uninterp spec fn session_table(m: SessionMap) -> Map<u64, Arc<Session>>;

/// What a session's user data holds: key to value.
pub uninterp spec fn userdata_table(m: UserdataMap) -> Map<Seq<char>, Seq<char>>;

// ---------------------------------------------------------------------------
// Message routes

/// `DashMap::new`: an empty route table.
#[verifier::external_body]
pub fn routes_new() -> (fresh: RouteMap)
    ensures
        route_table(fresh).dom() == Set::<u16>::empty(),
{
    DashMap::new()
}

/// `DashMap::insert`: maps `k` to `v`, replacing any earlier entry.
#[verifier::external_body]
pub fn routes_insert(m: &mut RouteMap, k: u16, v: ActorRef)
    ensures
        route_table(*final(m)) == route_table(*old(m)).insert(k, v),
{
    m.insert(k, v);
}

/// `DashMap::get`, with the entry cloned out (`ActorRef::clone` gives an
/// equal handle).
#[verifier::external_body]
pub fn routes_get(m: &RouteMap, k: u16) -> (r: Option<ActorRef>)
    ensures
        match r {
            Some(v) => route_table(*m).contains_key(k) && route_table(*m)[k] == v,
            None => !route_table(*m).contains_key(k),
        },
{
    m.get(&k).map(|e| e.value().clone())
}

// ---------------------------------------------------------------------------
// Actors by name

/// `DashMap::new`: an empty actor table.
#[verifier::external_body]
pub fn actors_new() -> (fresh: ActorMap)
    ensures
        actor_table(fresh).dom() == Set::<Seq<char>>::empty(),
{
    DashMap::new()
}

/// `DashMap::insert`: maps the name `k` to `v`, replacing any earlier entry.
#[verifier::external_body]
pub fn actors_insert(m: &mut ActorMap, k: String, v: ActorRef)
    ensures
        actor_table(*final(m)) == actor_table(*old(m)).insert(k@, v),
{
    m.insert(k, v);
}

/// `DashMap::get` by a borrowed name, with the entry cloned out.
#[verifier::external_body]
pub fn actors_get(m: &ActorMap, k: &str) -> (r: Option<ActorRef>)
    ensures
        match r {
            Some(v) => actor_table(*m).contains_key(k@) && actor_table(*m)[k@] == v,
            None => !actor_table(*m).contains_key(k@),
        },
{
    m.get(k).map(|e| e.value().clone())
}

/// `DashMap::len`: the number of entries.
#[verifier::external_body]
pub fn actors_len(m: &ActorMap) -> (n: usize)
    ensures
        n == actor_table(*m).len(),
{
    m.len()
}

/// `DashMap::iter`, each entry's value cloned out. The order of the walk
/// is the map's own and is not stated: each entry's value comes out once.
#[verifier::external_body]
pub fn actors_values(m: &ActorMap) -> (v: Vec<ActorRef>)
    ensures
        v@.len() == actor_table(*m).len(),
        forall|i: int|
            0 <= i < v@.len() ==> exists|k: Seq<char>|
                actor_table(*m).contains_key(k) && actor_table(*m)[k] == #[trigger] v@[i],
        forall|k: Seq<char>|
            #[trigger] actor_table(*m).contains_key(k) ==> v@.contains(actor_table(*m)[k]),
{
    m.iter().map(|e| e.value().clone()).collect()
}

// ---------------------------------------------------------------------------
// Sessions

/// `DashMap::new`: an empty session table.
#[verifier::external_body]
pub fn sessions_new() -> (fresh: SessionMap)
    ensures
        session_table(fresh).dom() == Set::<u64>::empty(),
{
    DashMap::new()
}

/// `DashMap::insert`: maps `k` to `v`, replacing any earlier entry.
#[verifier::external_body]
pub fn sessions_insert(m: &mut SessionMap, k: u64, v: Arc<Session>)
    ensures
        session_table(*final(m)) == session_table(*old(m)).insert(k, v),
{
    m.insert(k, v);
}

/// `DashMap::remove`: takes the entry of `k` out, if there is one.
#[verifier::external_body]
pub fn sessions_remove(m: &mut SessionMap, k: u64) -> (r: Option<Arc<Session>>)
    ensures
        session_table(*final(m)) == session_table(*old(m)).remove(k),
        match r {
            Some(v) => session_table(*old(m)).contains_key(k) && session_table(*old(m))[k] == v,
            None => !session_table(*old(m)).contains_key(k),
        },
{
    m.remove(&k).map(|(_, v)| v)
}

/// `DashMap::get`, with the entry's pointer cloned out.
#[verifier::external_body]
pub fn sessions_get(m: &SessionMap, k: u64) -> (r: Option<Arc<Session>>)
    ensures
        match r {
            Some(v) => session_table(*m).contains_key(k) && session_table(*m)[k] == v,
            None => !session_table(*m).contains_key(k),
        },
{
    m.get(&k).map(|e| e.value().clone())
}

/// `DashMap::len`: the number of entries.
#[verifier::external_body]
pub fn sessions_len(m: &SessionMap) -> (n: usize)
    ensures
        n == session_table(*m).len(),
{
    m.len()
}

/// `DashMap::iter`, each entry's key and pointer cloned out. The order of
/// the walk is the map's own and is not stated: each entry comes out once.
#[verifier::external_body]
pub fn sessions_entries(m: &SessionMap) -> (v: Vec<(u64, Arc<Session>)>)
    ensures
        v@.len() == session_table(*m).len(),
        forall|i: int|
            0 <= i < v@.len() ==> session_table(*m).contains_key(#[trigger] v@[i].0)
                && session_table(*m)[v@[i].0] == v@[i].1,
        forall|i: int, j: int| 0 <= i < j < v@.len() ==> v@[i].0 != v@[j].0,
        forall|k: u64|
            #[trigger] session_table(*m).contains_key(k) ==> exists|i: int|
                0 <= i < v@.len() && #[trigger] v@[i].0 == k,
{
    m.iter().map(|e| (*e.key(), e.value().clone())).collect()
}

// ---------------------------------------------------------------------------
// User data

/// `DashMap::new`: an empty user-data table.
#[verifier::external_body]
pub fn userdata_new() -> (fresh: UserdataMap)
    ensures
        userdata_table(fresh).dom() == Set::<Seq<char>>::empty(),
{
    DashMap::new()
}

/// `DashMap::insert`: maps `k` to `v`, replacing any earlier entry.
#[verifier::external_body]
pub fn userdata_insert(m: &mut UserdataMap, k: String, v: String)
    ensures
        userdata_table(*final(m)) == userdata_table(*old(m)).insert(k@, v@),
{
    m.insert(k, v);
}

/// `<DashMap as Clone>::clone`: a separate table with the same entries.
#[verifier::external_body]
pub fn userdata_clone(m: &UserdataMap) -> (copy: UserdataMap)
    ensures
        userdata_table(copy) == userdata_table(*m),
{
    m.clone()
}

/// `DashMap::get` by a borrowed key, with the value cloned out.
#[verifier::external_body]
pub fn userdata_get(m: &UserdataMap, k: &str) -> (r: Option<String>)
    ensures
        match r {
            Some(v) => userdata_table(*m).contains_key(k@) && userdata_table(*m)[k@] == v@,
            None => !userdata_table(*m).contains_key(k@),
        },
{
    m.get(k).map(|e| e.value().clone())
}

} // verus!
