//! One connection to Home Assistant, as the decisions it takes: how the
//! handshake goes, how commands and state seeds are numbered, and where the
//! answer to each goes. The socket itself is driven elsewhere; it hands each
//! frame in and carries out what comes back.

use vstd::prelude::*;
use crate::hass_protocol::{
    auth, get_states, state_objects, states_of, subscribe_state_changed, ServerMessage, ServiceCall, is_id, is_service_frame,
};
use crate::json::same_json;
use crate::panels::JsonValue;

verus! {

/// What the handshake does with a frame from the server.
#[derive(Debug)]
pub enum AuthStep {
    /// Send this frame and wait for the next.
    Send(JsonValue),
    /// The token was accepted.
    Authenticated,
    /// The token was refused, for this reason; trying again will not help.
    Rejected(String),
    /// Nothing to do; wait for the next frame.
    Wait,
}

/// The handshake: the server asks for authentication and is sent the token,
/// then accepts or refuses it; other frames are waited past.
pub fn authentication_step(message: &ServerMessage, token: &str) -> (step: AuthStep)
    ensures
        match *message {
            ServerMessage::AuthRequired => step matches AuthStep::Send(frame) && frame matches JsonValue::Object(
                members,
            ) && members@.len() == 2 && members@[0].0@ == "type"@ && (members@[0].1 matches JsonValue::Text(t)
                && t@ == "auth"@) && members@[1].0@ == "access_token"@ && (members@[1].1 matches JsonValue::Text(
                t,
            ) && t@ == token@),
            ServerMessage::AuthOk => step is Authenticated,
            ServerMessage::AuthInvalid { message } => step matches AuthStep::Rejected(reason) && reason@
                == message@,
            _ => step is Wait,
        },
{
    match message {
        ServerMessage::AuthRequired => AuthStep::Send(auth(token)),
        ServerMessage::AuthOk => AuthStep::Authenticated,
        ServerMessage::AuthInvalid { message } => AuthStep::Rejected(message.clone()),
        _ => AuthStep::Wait,
    }
}

/// What the connection does with something that arrived.
#[derive(Debug)]
pub enum SessionAction {
    /// Publish the values this entity state carries.
    Publish(JsonValue),
    /// Hand the answer to the command sent under `id`.
    Respond { id: u64, outcome: Result<JsonValue, String> },
    /// Log a failure the server reported.
    Log(String),
}

/// The numbering of one authenticated connection: the next command id, the
/// ids of commands waiting for their answer, and the ids of state requests
/// whose answers seed the published values.
#[derive(Debug)]
pub struct HassSession {
    next_id: u64,
    pending: Vec<u64>,
    seeds: Vec<u64>,
}

impl HassSession {
    /// The next id a frame is sent under.
    pub closed spec fn next_number(&self) -> u64 {
        self.next_id
    }

    /// The commands waiting for an answer, by id.
    pub closed spec fn pending_ids(&self) -> Set<u64> {
        self.pending@.to_set()
    }

    /// The state requests waiting for an answer, by id.
    pub closed spec fn seed_ids(&self) -> Set<u64> {
        self.seeds@.to_set()
    }

    /// Each waiting id is listed once, and every id handed out is below the
    /// next.
    pub closed spec fn wf(&self) -> bool {
        &&& self.pending@.no_duplicates()
        &&& self.seeds@.no_duplicates()
        &&& forall|i: int| 0 <= i < self.pending@.len() ==> #[trigger] self.pending@[i] < self.next_id
        &&& forall|i: int| 0 <= i < self.seeds@.len() ==> #[trigger] self.seeds@[i] < self.next_id
        &&& forall|i: int, j: int|
            0 <= i < self.pending@.len() && 0 <= j < self.seeds@.len() ==> #[trigger] self.pending@[i]
                != #[trigger] self.seeds@[j]
    }

    /// A connection just authenticated: it subscribes to every change of
    /// state under id 1, then asks for every state under id 2 to seed the
    /// published values. Answers the session and the two frames, in the
    /// order they are sent.
    pub fn start() -> (started: (HassSession, Vec<JsonValue>))
        ensures
            started.0.wf(),
            started.0.next_number() == 3,
            started.0.pending_ids() == Set::<u64>::empty(),
            started.0.seed_ids() == set![2u64],
            started.1@.len() == 2,
            started.1@[0] matches JsonValue::Object(members) && members@.len() == 3 && is_id(members@[0].1, 1)
                && (members@[1].1 matches JsonValue::Text(t) && t@ == "subscribe_events"@),
            started.1@[1] matches JsonValue::Object(members) && members@.len() == 2 && is_id(members@[0].1, 2)
                && (members@[1].1 matches JsonValue::Text(t) && t@ == "get_states"@),
    {
        let mut frames: Vec<JsonValue> = Vec::new();
        frames.push(subscribe_state_changed(1));
        frames.push(get_states(2));
        let session = HassSession { next_id: 3, pending: Vec::new(), seeds: vec![2] };
        proof {
            assert(session.pending@.to_set() =~= Set::<u64>::empty());
            assert(session.seeds@.to_set() =~= set![2u64]) by {
                assert(session.seeds@ =~= seq![2u64]);
                assert(session.seeds@.contains(2));
            }
        }
        (session, frames)
    }

    /// Asks again for every state, because what the panels watch changed:
    /// the request goes out under the next id, whose answer seeds the values.
    pub fn reseed(&mut self) -> (frame: JsonValue)
        requires
            old(self).wf(),
            old(self).next_number() < u64::MAX,
        ensures
            final(self).wf(),
            final(self).next_number() == old(self).next_number() + 1,
            final(self).seed_ids() == old(self).seed_ids().insert(old(self).next_number()),
            final(self).pending_ids() == old(self).pending_ids(),
            frame matches JsonValue::Object(members) && members@.len() == 2 && is_id(
                members@[0].1,
                old(self).next_number(),
            ) && (members@[1].1 matches JsonValue::Text(t) && t@ == "get_states"@),
    {
        let id = self.next_id;
        self.next_id = id + 1;
        let ghost before = self.seeds@;
        self.seeds.push(id);
        proof {
            let after = self.seeds@;
            assert(after =~= before.push(id));
            assert forall|x: u64| #[trigger] after.to_set().contains(x) == before.to_set().insert(id).contains(x) by {
                if before.contains(x) {
                    let k = choose|k: int| 0 <= k < before.len() && before[k] == x;
                    assert(after[k] == x);
                }
                if x == id {
                    assert(after[before.len() as int] == id);
                }
                if after.contains(x) && x != id {
                    let k = choose|k: int| 0 <= k < after.len() && after[k] == x;
                    assert(k < before.len());
                    assert(before[k] == x);
                }
            }
            assert(after.to_set() =~= before.to_set().insert(id));
        }
        get_states(id)
    }

    /// Sends a service call under the next id, which then waits for its
    /// answer. Answers the id and the frame.
    pub fn command(&mut self, call: &ServiceCall) -> (sent: (u64, JsonValue))
        requires
            old(self).wf(),
            old(self).next_number() < u64::MAX,
        ensures
            final(self).wf(),
            sent.0 == old(self).next_number(),
            final(self).next_number() == old(self).next_number() + 1,
            final(self).pending_ids() == old(self).pending_ids().insert(sent.0),
            final(self).seed_ids() == old(self).seed_ids(),
            is_service_frame(*call, sent.0, sent.1),
    {
        let id = self.next_id;
        self.next_id = id + 1;
        let ghost before = self.pending@;
        self.pending.push(id);
        proof {
            let after = self.pending@;
            assert(after =~= before.push(id));
            assert forall|x: u64| #[trigger] after.to_set().contains(x) == before.to_set().insert(id).contains(x) by {
                if before.contains(x) {
                    let k = choose|k: int| 0 <= k < before.len() && before[k] == x;
                    assert(after[k] == x);
                }
                if x == id {
                    assert(after[before.len() as int] == id);
                }
                if after.contains(x) && x != id {
                    let k = choose|k: int| 0 <= k < after.len() && after[k] == x;
                    assert(k < before.len());
                    assert(before[k] == x);
                }
            }
            assert(after.to_set() =~= before.to_set().insert(id));
        }
        (id, call.message(id))
    }

    /// Whether a reseed or a command can still be numbered.
    pub fn has_fresh_id(&self) -> (fresh: bool)
        ensures
            fresh == (self.next_number() < u64::MAX),
    {
        self.next_id < u64::MAX
    }

    /// What to do with a frame from the server. A new state is published. An
    /// answer goes to the command waiting under its id; failing that, the
    /// answer to a state request publishes every state it carries; a failure
    /// nothing waits for is logged. Anything else is ignored.
    pub fn receive(&mut self, message: ServerMessage) -> (actions: Vec<SessionAction>)
        requires
            old(self).wf(),
        ensures
            final(self).wf(),
            final(self).next_number() == old(self).next_number(),
            match message {
                ServerMessage::State(state) => actions@ == seq![SessionAction::Publish(state)]
                    && final(self).pending_ids() == old(self).pending_ids() && final(self).seed_ids() == old(
                    self,
                ).seed_ids(),
                ServerMessage::Result { id, outcome } => if old(self).pending_ids().contains(id) {
                    &&& actions@ == seq![SessionAction::Respond { id, outcome }]
                    &&& final(self).pending_ids() == old(self).pending_ids().remove(id)
                    &&& final(self).seed_ids() == old(self).seed_ids()
                } else {
                    &&& final(self).pending_ids() == old(self).pending_ids()
                    &&& final(self).seed_ids() == old(self).seed_ids().remove(id)
                    &&& match outcome {
                        Ok(result) => if old(self).seed_ids().contains(id) {
                            published_states(result, actions@)
                        } else {
                            actions@.len() == 0
                        },
                        Err(reason) => actions@ == seq![SessionAction::Log(reason)],
                    }
                },
                _ => actions@.len() == 0 && final(self).pending_ids() == old(self).pending_ids()
                    && final(self).seed_ids() == old(self).seed_ids(),
            },
    {
        let mut actions: Vec<SessionAction> = Vec::new();
        match message {
            ServerMessage::State(state) => {
                actions.push(SessionAction::Publish(state));
            },
            ServerMessage::Result { id, outcome } => {
                let ghost pending_before = self.pending@;
                let ghost seeds_before = self.seeds@;
                if take_id(&mut self.pending, id, self.next_id) {
                    actions.push(SessionAction::Respond { id, outcome });
                    proof {
                        assert forall|i: int, j: int|
                            0 <= i < self.pending@.len() && 0 <= j < self.seeds@.len() implies #[trigger] self.pending@[i]
                            != #[trigger] self.seeds@[j] by {
                            assert(self.pending@.contains(self.pending@[i]));
                            let k = choose|k: int| 0 <= k < pending_before.len() && pending_before[k] == self.pending@[i];
                        }
                    }
                    return actions;
                }
                let was_seed = take_id(&mut self.seeds, id, self.next_id);
                proof {
                    assert forall|i: int, j: int|
                        0 <= i < self.pending@.len() && 0 <= j < self.seeds@.len() implies #[trigger] self.pending@[i]
                        != #[trigger] self.seeds@[j] by {
                        assert(self.seeds@.contains(self.seeds@[j]));
                        let k = choose|k: int| 0 <= k < seeds_before.len() && seeds_before[k] == self.seeds@[j];
                    }
                }
                match outcome {
                    Ok(result) => if was_seed {
                        let states = states_of(&result);
                        actions = publish_all(states);
                    },
                    Err(reason) => {
                        actions.push(SessionAction::Log(reason));
                    },
                }
            },
            _ => {},
        }
        actions
    }
}

/// Whether `actions` publish, in order, every state a `get_states` result
/// carries.
pub open spec fn published_states(result: JsonValue, actions: Seq<SessionAction>) -> bool {
    let states = match result {
        JsonValue::Array(items) => state_objects(items@),
        _ => Seq::empty(),
    };
    &&& actions.len() == states.len()
    &&& forall|i: int|
        0 <= i < actions.len() ==> ((#[trigger] actions[i]) matches SessionAction::Publish(state) && same_json(
            states[i],
            state,
        ))
}

fn publish_all(states: Vec<JsonValue>) -> (actions: Vec<SessionAction>)
    ensures
        actions@.len() == states@.len(),
        forall|i: int| 0 <= i < actions@.len() ==> #[trigger] actions@[i] == SessionAction::Publish(states@[i]),
{
    let ghost all = states@;
    let mut actions: Vec<SessionAction> = Vec::new();
    let mut rest = states;
    let mut reversed: Vec<SessionAction> = Vec::new();
    let ghost n = all.len();
    while rest.len() > 0
        invariant
            rest@ == all.take(rest@.len() as int),
            rest@.len() <= n,
            n == all.len(),
            reversed@.len() == n - rest@.len(),
            forall|k: int| 0 <= k < reversed@.len() ==> #[trigger] reversed@[k] == SessionAction::Publish(all[n - 1 - k]),
        decreases rest@.len(),
    {
        let last = rest.pop().unwrap();
        proof {
            assert(last == all[rest@.len() as int]);
        }
        reversed.push(SessionAction::Publish(last));
        assert(rest@ =~= all.take(rest@.len() as int));
    }
    while reversed.len() > 0
        invariant
            reversed@.len() + actions@.len() == n,
            forall|k: int| 0 <= k < reversed@.len() ==> #[trigger] reversed@[k] == SessionAction::Publish(all[n - 1 - k]),
            forall|k: int| 0 <= k < actions@.len() ==> #[trigger] actions@[k] == SessionAction::Publish(all[k]),
        decreases reversed@.len(),
    {
        let next = reversed.pop().unwrap();
        actions.push(next);
    }
    actions
}

/// Takes `id` out of a list of waiting ids; answers whether it was there.
fn take_id(ids: &mut Vec<u64>, id: u64, bound: u64) -> (found: bool)
    requires
        old(ids)@.no_duplicates(),
        forall|i: int| 0 <= i < old(ids)@.len() ==> #[trigger] old(ids)@[i] < bound,
    ensures
        final(ids)@.no_duplicates(),
        forall|i: int| 0 <= i < final(ids)@.len() ==> #[trigger] final(ids)@[i] < bound,
        found == old(ids)@.to_set().contains(id),
        !found ==> final(ids)@ == old(ids)@,
        final(ids)@.to_set() == old(ids)@.to_set().remove(id),
        forall|x: u64| #[trigger] final(ids)@.contains(x) ==> old(ids)@.contains(x),
{
    let ghost before = ids@;
    let mut i: usize = 0;
    while i < ids.len()
        invariant
            ids@ == before,
            before == old(ids)@,
            before.no_duplicates(),
            forall|k: int| 0 <= k < before.len() ==> #[trigger] before[k] < bound,
            i <= before.len(),
            forall|k: int| 0 <= k < i ==> before[k] != id,
        decreases ids.len() - i,
    {
        if ids[i] == id {
            ids.remove(i);
            proof {
                let after = ids@;
                assert(after =~= before.remove(i as int));
                assert forall|a: int, b: int|
                    0 <= a < after.len() && 0 <= b < after.len() && a != b implies #[trigger] after[a] != #[trigger] after[b] by {
                    let a0 = if a < i { a } else { a + 1 };
                    let b0 = if b < i { b } else { b + 1 };
                    assert(after[a] == before[a0] && after[b] == before[b0]);
                }
                assert forall|k: int| 0 <= k < after.len() implies #[trigger] after[k] < bound by {
                    let k0 = if k < i { k } else { k + 1 };
                    assert(after[k] == before[k0]);
                }
                assert forall|x: u64| #[trigger] after.contains(x) implies before.contains(x) by {
                    let k = choose|k: int| 0 <= k < after.len() && after[k] == x;
                    let k0 = if k < i { k } else { k + 1 };
                    assert(after[k] == before[k0]);
                }
                assert forall|x: u64| #[trigger] after.to_set().contains(x) == before.to_set().remove(id).contains(x) by {
                    if after.contains(x) {
                        let k = choose|k: int| 0 <= k < after.len() && after[k] == x;
                        let k0 = if k < i { k } else { k + 1 };
                        assert(after[k] == before[k0]);
                        assert(k0 != i as int);
                    }
                    if before.contains(x) && x != id {
                        let k = choose|k: int| 0 <= k < before.len() && before[k] == x;
                        assert(k != i as int);
                        let k1 = if k < i { k } else { k - 1 };
                        assert(after[k1] == before[k]);
                    }
                }
                assert(after.to_set() =~= before.to_set().remove(id));
                assert(before.contains(id)) by {
                    assert(before[i as int] == id);
                }
            }
            return true;
        }
        i += 1;
    }
    proof {
        assert(!before.contains(id));
        assert(before.to_set().remove(id) =~= before.to_set());
    }
    false
}

} // verus!
