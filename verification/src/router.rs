//! The router: which actor a message id goes to, and the actors by name.
use crate::actor::ActorRef;
use crate::error::ShellError;
use crate::message::MsgId;
use crate::tables::{
    actor_table, actors_get, actors_insert, actors_len, actors_new, actors_values, route_table,
    routes_get, routes_insert, routes_new, ActorMap, RouteMap,
};
use crate::text::{decimal, push_decimal};
use vstd::prelude::*;

verus! {

/// The text of the error for an unrouted message id.
pub open spec fn unrouted_text(msg_id: MsgId) -> Seq<char> {
    "msg_id="@ + decimal(msg_id as nat)
}

/// Where the table `table` sends `key`, if anywhere.
pub open spec fn lookup<K, V>(table: Map<K, V>, key: K) -> Option<V> {
    if table.contains_key(key) {
        Some(table[key])
    } else {
        None
    }
}

pub struct Router {
    msg_routes: RouteMap,
    actors: ActorMap,
}

impl Router {
    /// The actor each routed message id goes to.
    pub closed spec fn routes(&self) -> Map<MsgId, ActorRef> {
        route_table(self.msg_routes)
    }

    /// The registered actors, by name.
    pub closed spec fn actors(&self) -> Map<Seq<char>, ActorRef> {
        actor_table(self.actors)
    }

    /// Each actor is filed under its own name; every operation keeps it so.
    #[verifier::type_invariant]
    spec fn wf(&self) -> bool {
        &&& self.routes().dom().finite()
        &&& self.actors().dom().finite()
        &&& forall|n: Seq<char>| #[trigger] self.actors().contains_key(n) ==> self.actors()[n].name@ == n
    }

    /// A router with no routes and no actors.
    pub fn new() -> (r: Router)
        ensures
            r.routes() == Map::<MsgId, ActorRef>::empty(),
            r.actors() == Map::<Seq<char>, ActorRef>::empty(),
    {
        let r = Router { msg_routes: routes_new(), actors: actors_new() };
        assert(r.routes() == Map::<MsgId, ActorRef>::empty());
        assert(r.actors() == Map::<Seq<char>, ActorRef>::empty());
        r
    }

    /// Registers `actor_ref` under its name, replacing an actor of the same
    /// name.
    pub fn register_actor(&mut self, actor_ref: ActorRef)
        ensures
            final(self).actors() == old(self).actors().insert(actor_ref.name@, actor_ref),
            final(self).routes() == old(self).routes(),
    {
        proof {
            use_type_invariant(&*self);
        }
        let name = actor_ref.name.clone();
        // The table leaves the router while it changes, and comes back
        // with the actor filed under its name.
        let mut actors = actors_new();
        std::mem::swap(&mut actors, &mut self.actors);
        actors_insert(&mut actors, name, actor_ref);
        self.actors = actors;
    }

    /// Routes the message id `msg_id` to `actor_ref`, replacing an earlier
    /// route of that id.
    pub fn register_msg_route(&mut self, msg_id: MsgId, actor_ref: ActorRef)
        ensures
            final(self).routes() == old(self).routes().insert(msg_id, actor_ref),
            final(self).actors() == old(self).actors(),
    {
        proof {
            use_type_invariant(&*self);
        }
        let mut routes = routes_new();
        std::mem::swap(&mut routes, &mut self.msg_routes);
        routes_insert(&mut routes, msg_id, actor_ref);
        self.msg_routes = routes;
    }

    /// Routes each of `msg_ids` to `actor_ref`.
    pub fn register_msg_routes(&mut self, msg_ids: &[MsgId], actor_ref: &ActorRef)
        ensures
            final(self).actors() == old(self).actors(),
            forall|id: MsgId|
                #![trigger final(self).routes().contains_key(id)]
                if msg_ids@.contains(id) {
                    final(self).routes().contains_key(id) && final(self).routes()[id] == *actor_ref
                } else {
                    final(self).routes().contains_key(id) == old(self).routes().contains_key(id) && (
                    old(self).routes().contains_key(id) ==> final(self).routes()[id] == old(
                        self,
                    ).routes()[id])
                },
    {
        let mut i: usize = 0;
        while i < msg_ids.len()
            invariant
                0 <= i <= msg_ids@.len(),
                self.actors() == old(self).actors(),
                forall|id: MsgId|
                    #![trigger self.routes().contains_key(id)]
                    if msg_ids@.take(i as int).contains(id) {
                        self.routes().contains_key(id) && self.routes()[id] == *actor_ref
                    } else {
                        self.routes().contains_key(id) == old(self).routes().contains_key(id) && (
                        old(self).routes().contains_key(id) ==> self.routes()[id] == old(
                            self,
                        ).routes()[id])
                    },
            decreases msg_ids@.len() - i,
        {
            let id = msg_ids[i];
            let ghost before = self.routes();
            self.register_msg_route(id, actor_ref.clone());
            proof {
                let t0 = msg_ids@.take(i as int);
                let t1 = msg_ids@.take(i + 1);
                assert(t1 == t0.push(id));
                assert forall|x: MsgId| t1.contains(x) <==> (t0.contains(x) || x == id) by {
                    if t1.contains(x) {
                        let j = choose|j: int| 0 <= j < t1.len() && #[trigger] t1[j] == x;
                        if j < i {
                            assert(t0[j] == x);
                        }
                    }
                    if t0.contains(x) {
                        let j = choose|j: int| 0 <= j < t0.len() && #[trigger] t0[j] == x;
                        assert(t1[j] == x);
                    }
                    if x == id {
                        assert(t1[i as int] == x);
                    }
                }
                assert forall|x: MsgId|
                    #![trigger self.routes().contains_key(x)]
                    if t1.contains(x) {
                        self.routes().contains_key(x) && self.routes()[x] == *actor_ref
                    } else {
                        self.routes().contains_key(x) == old(self).routes().contains_key(x) && (
                        old(self).routes().contains_key(x) ==> self.routes()[x] == old(
                            self,
                        ).routes()[x])
                    } by {
                    if x != id {
                        assert(self.routes().contains_key(x) == before.contains_key(x));
                    }
                }
            }
            i = i + 1;
        }
        assert(msg_ids@.take(msg_ids@.len() as int) == msg_ids@);
        assert forall|x: MsgId|
            #![trigger self.routes().contains_key(x)]
            if msg_ids@.contains(x) {
                self.routes().contains_key(x) && self.routes()[x] == *actor_ref
            } else {
                self.routes().contains_key(x) == old(self).routes().contains_key(x) && (old(
                    self,
                ).routes().contains_key(x) ==> self.routes()[x] == old(self).routes()[x])
            } by {
            assert(i == msg_ids@.len());
            assert(msg_ids@.take(i as int) == msg_ids@);
        }
    }

    /// The actor that messages with id `msg_id` go to; an `ActorNotFound`
    /// error naming the id when none is routed.
    pub fn route_by_msg_id(&self, msg_id: MsgId) -> (r: Result<ActorRef, ShellError>)
        ensures
            match r {
                Ok(a) => lookup(self.routes(), msg_id) == Some(a),
                Err(ShellError::ActorNotFound(text)) => lookup(self.routes(), msg_id) is None
                    && text@ == unrouted_text(msg_id),
                Err(_) => false,
            },
    {
        match routes_get(&self.msg_routes, msg_id) {
            Some(a) => Ok(a),
            None => {
                let mut text = "msg_id=".to_owned();
                push_decimal(&mut text, msg_id as u64);
                Err(ShellError::ActorNotFound(text))
            },
        }
    }

    /// The actor named `name`; an `ActorNotFound` error carrying the name
    /// when there is none.
    pub fn get_actor(&self, name: &str) -> (r: Result<ActorRef, ShellError>)
        ensures
            match r {
                Ok(a) => lookup(self.actors(), name@) == Some(a),
                Err(ShellError::ActorNotFound(text)) => lookup(self.actors(), name@) is None && text@
                    == name@,
                Err(_) => false,
            },
    {
        match actors_get(&self.actors, name) {
            Some(a) => Ok(a),
            None => Err(ShellError::ActorNotFound(name.to_owned())),
        }
    }

    /// The number of registered actors.
    pub fn actor_count(&self) -> (n: usize)
        ensures
            n == self.actors().len(),
    {
        actors_len(&self.actors)
    }

    /// Every registered actor, once each; the order is not stated.
    pub fn actor_refs(&self) -> (v: Vec<ActorRef>)
        ensures
            v@.len() == self.actors().len(),
            forall|i: int|
                0 <= i < v@.len() ==> #[trigger] self.actors().contains_key(v@[i].name@)
                    && self.actors()[v@[i].name@] == v@[i],
            forall|n: Seq<char>| #[trigger] self.actors().contains_key(n) ==> v@.contains(self.actors()[n]),
    {
        proof {
            use_type_invariant(self);
        }
        let v = actors_values(&self.actors);
        assert forall|i: int|
            0 <= i < v@.len() implies #[trigger] self.actors().contains_key(v@[i].name@)
            && self.actors()[v@[i].name@] == v@[i] by {
            let k = choose|k: Seq<char>| self.actors().contains_key(k) && self.actors()[k] == v@[i];
        }
        v
    }
}

/// What a lookup gives back of a registration: once `msg_id` is routed to
/// `a`, messages with that id go to `a`, and every other id goes where it
/// went before.
pub proof fn law_route_reads_back(
    routes: Map<MsgId, ActorRef>,
    msg_id: MsgId,
    a: ActorRef,
    other: MsgId,
)
    ensures
        lookup(routes.insert(msg_id, a), msg_id) == Some(a),
        other != msg_id ==> lookup(routes.insert(msg_id, a), other) == lookup(routes, other),
{
}

/// Once an actor is registered, looking its name up gives it back; other
/// names are unaffected.
pub proof fn law_actor_reads_back(
    actors: Map<Seq<char>, ActorRef>,
    a: ActorRef,
    other: Seq<char>,
)
    ensures
        lookup(actors.insert(a.name@, a), a.name@) == Some(a),
        other != a.name@ ==> lookup(actors.insert(a.name@, a), other) == lookup(actors, other),
{
}

impl Default for Router {
    fn default() -> (r: Router)
        ensures
            r.routes() == Map::<MsgId, ActorRef>::empty(),
            r.actors() == Map::<Seq<char>, ActorRef>::empty(),
    {
        Router::new()
    }
}

} // verus!
