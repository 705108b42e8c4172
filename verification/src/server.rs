//! The connection table and event routing. Client sessions live in a
//! capacity-bounded slab whose indices give out the client-range tokens; a
//! second slab maps backend-range tokens back to the owning client token.
//! The token space is `0` for the listener, `[1, 1+C)` for client slots and
//! `[1+C, 1+2C)` for backend slots, `C` being `max_connections`. Routing an
//! OS readiness event means deciding, from token and event kinds alone,
//! which handlers run for which client; the handlers themselves take the
//! bytes the caller moved on the sockets.

use crate::buffer::BufferMode;
use crate::connection::{
    back_readable_transition, back_writable_transition, readable_transition, writable_transition,
    Client, EventResponse, InterestSet,
};
use crate::parser::advance_spec;
use crate::token::Token;
use vstd::pervasive::VecAdditionalExecFns;
use vstd::prelude::*;

verus! {

/// A front by which an application is reachable.
#[derive(Debug)]
pub struct HttpFront {
    pub app_id: String,
    pub hostname: String,
    pub port: u16,
}

/// One backend instance of an application.
#[derive(Debug)]
pub struct Instance {
    pub app_id: String,
    pub ip_address: String,
    pub port: u16,
}

/// Administrative commands arriving over the control channel. Handling the
/// route table they describe is outside this core; the driver only
/// acknowledges them.
#[derive(Debug)]
pub enum Command {
    AddHttpFront(HttpFront),
    RemoveHttpFront(HttpFront),
    AddInstance(Instance),
    RemoveInstance(Instance),
}

/// A control-channel message: an administrative command, or stop.
#[derive(Debug)]
pub enum HttpProxyOrder {
    Command(Command),
    Stop,
}

/// Acknowledgements the driver owes on the results channel.
#[derive(PartialEq, Eq, Structural, Clone, Copy, Debug)]
pub enum ServerMessage {
    AddedHttpFront,
    RemovedHttpFront,
    AddedInstance,
    RemovedInstance,
    Stopped,
}

/// What the event loop must do with a control-channel message.
#[derive(PartialEq, Eq, Structural, Clone, Copy, Debug)]
pub enum NotifyAction {
    /// Send this acknowledgement on the results channel.
    SendAck(ServerMessage),
    /// Exit the loop cleanly (and report `Stopped`).
    Shutdown,
}

/// The accepting socket's identity: its fixed token and bind address.
#[derive(Debug)]
pub struct ApplicationListener {
    pub token: Token,
    pub front_address: String,
}

/// The event kinds a readiness notification carries.
#[derive(PartialEq, Eq, Structural, Clone, Copy, Debug)]
pub struct Events {
    pub readable: bool,
    pub writable: bool,
    pub hup: bool,
}

/// One step the caller must perform for a routed event: accept on the
/// listener, run a handler for a client (the token is already translated
/// to the client range), or close a session.
#[derive(PartialEq, Eq, Structural, Clone, Copy, Debug)]
pub enum Dispatch {
    Accept,
    FrontReadable(Token),
    FrontWritable(Token),
    BackReadable(Token),
    BackWritable(Token),
    Close(Token),
}

/// Index of the first free slot, or the length if none is free.
pub open spec fn first_free<T>(s: Seq<Option<T>>, i: int) -> int
    decreases s.len() - i,
{
    if i < 0 || i >= s.len() {
        s.len() as int
    } else if s[i] is None {
        i
    } else {
        first_free(s, i + 1)
    }
}

/// Find the first free slot of a slab.
fn find_free<T>(v: &Vec<Option<T>>) -> (r: usize)
    ensures
        r == first_free(v@, 0),
        r <= v@.len(),
        r < v@.len() ==> v@[r as int] is None,
{
    let mut i: usize = 0;
    while i < v.len()
        invariant
            i <= v@.len(),
            first_free(v@, 0) == first_free(v@, i as int),
        decreases v@.len() - i,
    {
        match &v[i] {
            None => {
                return i;
            },
            Some(_) => {
                i = i + 1;
            },
        }
    }
    i
}

/// What closing a session yields for the caller's own teardown steps.
#[derive(PartialEq, Eq, Clone, Copy, Debug)]
pub enum CloseOutcome {
    /// The session was live and is gone: its client slot is free again,
    /// and so is the named backend slot, if one was tied to it.
    Closed(Option<Token>),
    /// Out of range, or already closed: a no-op, never an error.
    NotPresent,
}

pub struct Server {
    /// Backend instances known to the driver; mutated only through the
    /// control channel, whose handlers are outside this core.
    pub instances: Vec<Instance>,
    pub listener: ApplicationListener,
    /// The client slab: slot `i` owns token `1 + i`.
    pub clients: Vec<Option<Client>>,
    /// The backend slab: slot `j` owns token `1 + C + j` and names the
    /// client token it belongs to.
    pub backend: Vec<Option<Token>>,
    pub max_listeners: usize,
    pub max_connections: usize,
}

impl Server {
    /// A live client slot holds the token its index gives out, and its
    /// backend token, if any, names a backend slot that points back at it.
    pub open spec fn client_slot_ok(&self, i: int) -> bool {
        match self.clients@[i] {
            Some(c) => {
                &&& c.wf()
                &&& c.token == Some(Token((1 + i) as usize))
                &&& match c.backend_token {
                    Some(bt) => {
                        &&& 1 + self.max_connections <= bt.0 < 1 + 2 * self.max_connections
                        &&& self.backend@[bt.0 - 1 - self.max_connections] == Some(
                            Token((1 + i) as usize),
                        )
                    },
                    None => true,
                }
            },
            None => true,
        }
    }

    /// A used backend slot names a live client that holds this very slot's
    /// token as its backend token.
    pub open spec fn backend_slot_ok(&self, j: int) -> bool {
        match self.backend@[j] {
            Some(t) => {
                &&& 1 <= t.0 < 1 + self.max_connections
                &&& self.clients@[t.0 - 1] matches Some(c) && c.backend_token == Some(
                    Token((1 + self.max_connections + j) as usize),
                )
            },
            None => true,
        }
    }

    pub open spec fn wf(&self) -> bool {
        &&& self.max_listeners == 1
        &&& 2 * self.max_connections < usize::MAX
        &&& self.clients@.len() == self.max_connections
        &&& self.backend@.len() == self.max_connections
        &&& self.listener.token == (Token(0usize))
        &&& forall|i: int| 0 <= i < self.clients@.len() ==> #[trigger] self.client_slot_ok(i)
        &&& forall|j: int| 0 <= j < self.backend@.len() ==> #[trigger] self.backend_slot_ok(j)
    }

    /// Is `t` a client-range token with a live session?
    pub open spec fn live(&self, t: Token) -> bool {
        1 <= t.0 < 1 + self.max_connections && self.clients@[t.0 - 1] is Some
    }

    /// The session a client-range token addresses, if any.
    pub open spec fn client_at(&self, t: Token) -> Option<Client> {
        if 1 <= t.0 < 1 + self.max_connections {
            self.clients@[t.0 - 1]
        } else {
            None
        }
    }

    pub fn new(listener: ApplicationListener, max_connections: usize) -> (r: Server)
        requires
            listener.token == (Token(0usize)),
            2 * max_connections < usize::MAX,
        ensures
            r.wf(),
            r.max_connections == max_connections,
            r.listener == listener,
            r.instances@ == Seq::<Instance>::empty(),
            forall|i: int| 0 <= i < max_connections ==> r.clients@[i] is None,
            forall|j: int| 0 <= j < max_connections ==> r.backend@[j] is None,
    {
        let mut clients: Vec<Option<Client>> = Vec::new();
        let mut backend: Vec<Option<Token>> = Vec::new();
        let mut i: usize = 0;
        while i < max_connections
            invariant
                i <= max_connections,
                clients@.len() == i,
                backend@.len() == i,
                forall|k: int| 0 <= k < i ==> clients@[k] is None,
                forall|k: int| 0 <= k < i ==> backend@[k] is None,
            decreases max_connections - i,
        {
            clients.push(None);
            backend.push(None);
            i = i + 1;
        }
        Server {
            instances: Vec::new(),
            listener,
            clients,
            backend,
            max_listeners: 1,
            max_connections,
        }
    }

    /// A connection was accepted on the listener: give it the first free
    /// client slot and its token. A full table refuses — the caller drops
    /// the new socket rather than leaking it, and the listener keeps going.
    pub fn accept(&mut self) -> (r: Option<Token>)
        requires
            old(self).wf(),
        ensures
            final(self).wf(),
            final(self).backend == old(self).backend,
            final(self).instances == old(self).instances,
            final(self).listener == old(self).listener,
            final(self).max_connections == old(self).max_connections,
            ({
                let idx = first_free(old(self).clients@, 0);
                if idx == old(self).clients@.len() {
                    r is None && final(self).clients == old(self).clients
                } else {
                    &&& r == Some(Token((1 + idx) as usize))
                    &&& final(self).clients@.len() == old(self).clients@.len()
                    &&& forall|k: int|
                        0 <= k < old(self).clients@.len() && k != idx ==> final(self).clients@[k]
                            == old(self).clients@[k]
                    &&& final(self).clients@[idx] matches Some(c) && c.wf() && c.http_state@
                        is Initial && c.token == Some(Token((1 + idx) as usize))
                        && c.backend_token is None && c.front_buf.mode()
                        == BufferMode::Accumulating && c.front_buf.contents()
                        == Seq::<u8>::empty() && c.back_buf.mode() == BufferMode::Accumulating
                        && c.back_buf.contents() == Seq::<u8>::empty() && c.rx_count == 0
                        && c.tx_count == 0 && c.front_interest == (InterestSet {
                        readable: true,
                        writable: true,
                    })
                }
            }),
    {
        let idx = find_free(&self.clients);
        if idx == self.clients.len() {
            return None;
        }
        match Client::new() {
            None => None,
            Some(mut client) => {
                let token = Token(1 + idx);
                client.set_front_token(token);
                self.clients.set(idx, Some(client));
                proof {
                    assert forall|i: int| 0 <= i < self.clients@.len() implies #[trigger] self
                        .client_slot_ok(i) by {
                        if i != idx {
                            assert(old(self).client_slot_ok(i));
                        }
                    }
                    assert forall|j: int| 0 <= j < self.backend@.len() implies #[trigger] self
                        .backend_slot_ok(j) by {
                        assert(old(self).backend_slot_ok(j));
                    }
                }
                Some(token)
            },
        }
    }

    /// Tie a client to a freshly connected backend: give out the first free
    /// backend slot's token, point the slot at the client and record the
    /// pair on the session. Refused for a stale token, a session that
    /// already has a backend, or a full backend slab.
    pub fn attach_backend(&mut self, token: Token) -> (r: Option<Token>)
        requires
            old(self).wf(),
        ensures
            final(self).wf(),
            final(self).instances == old(self).instances,
            final(self).listener == old(self).listener,
            final(self).max_connections == old(self).max_connections,
            ({
                let idx = token.0 - 1;
                let j = first_free(old(self).backend@, 0);
                match old(self).client_at(token) {
                    None => r is None && *final(self) == *old(self),
                    Some(c) => {
                        if c.backend_token is Some {
                            r is None && *final(self) == *old(self)
                        } else if j == old(self).backend@.len() {
                            r is None && *final(self) == *old(self)
                        } else {
                            &&& r == Some(Token((1 + old(self).max_connections + j) as usize))
                            &&& final(self).backend@ == old(self).backend@.update(j, Some(token))
                            &&& final(self).clients@ == old(self).clients@.update(
                                idx,
                                Some(
                                    Client {
                                        token: Some(token),
                                        backend_token: Some(
                                            Token((1 + old(self).max_connections + j) as usize),
                                        ),
                                        ..c
                                    },
                                ),
                            )
                        }
                    },
                }
            }),
    {
        if token.as_usize() == 0 || token.as_usize() >= 1 + self.max_connections {
            return None;
        }
        let idx = token.as_usize() - 1;
        let state = match &self.clients[idx] {
            Some(c) => Some(c.backend_token),
            None => None,
        };
        match state {
            None => {
                return None;
            },
            Some(Some(_)) => {
                return None;
            },
            Some(None) => {
            },
        }
        proof {
            assert(old(self).client_slot_ok(idx as int));
        }
        let j = find_free(&self.backend);
        if j == self.backend.len() {
            return None;
        }
        let mut slot: Option<Client> = None;
        self.clients.set_and_swap(idx, &mut slot);
        match slot {
            None => None,
            Some(mut client) => {
                let btok = Token(1 + self.max_connections + j);
                self.backend.set(j, Some(token));
                client.set_tokens(token, btok);
                self.clients.set(idx, Some(client));
                proof {
                    assert forall|i: int| 0 <= i < self.clients@.len() implies #[trigger] self
                        .client_slot_ok(i) by {
                        if i != idx {
                            assert(old(self).client_slot_ok(i));
                        }
                    }
                    assert forall|k: int| 0 <= k < self.backend@.len() implies #[trigger] self
                        .backend_slot_ok(k) by {
                        if k != j {
                            assert(old(self).backend_slot_ok(k));
                        }
                    }
                }
                Some(btok)
            },
        }
    }

    /// The close sequence's slab part: exactly once per session, remove the
    /// client from its slot (freeing the token for reuse) and clear the
    /// backend slot tied to it. The caller deregisters and shuts down the
    /// sockets. Closing an already-closed token does nothing.
    pub fn close_client(&mut self, token: Token) -> (r: CloseOutcome)
        requires
            old(self).wf(),
        ensures
            final(self).wf(),
            final(self).instances == old(self).instances,
            final(self).listener == old(self).listener,
            final(self).max_connections == old(self).max_connections,
            ({
                let idx = token.0 - 1;
                match old(self).client_at(token) {
                    None => r == CloseOutcome::NotPresent && *final(self) == *old(self),
                    Some(c) => {
                        &&& r == CloseOutcome::Closed(c.backend_token)
                        &&& final(self).clients@ == old(self).clients@.update(idx, None)
                        &&& final(self).backend@ == match c.backend_token {
                            Some(bt) => old(self).backend@.update(
                                bt.0 - 1 - old(self).max_connections,
                                None,
                            ),
                            None => old(self).backend@,
                        }
                    },
                }
            }),
    {
        if token.as_usize() == 0 || token.as_usize() >= 1 + self.max_connections {
            return CloseOutcome::NotPresent;
        }
        let idx = token.as_usize() - 1;
        let present = match &self.clients[idx] {
            Some(_) => true,
            None => false,
        };
        if !present {
            return CloseOutcome::NotPresent;
        }
        proof {
            assert(old(self).client_slot_ok(idx as int));
        }
        let mut slot: Option<Client> = None;
        self.clients.set_and_swap(idx, &mut slot);
        match slot {
            None => CloseOutcome::NotPresent,
            Some(client) => {
                match client.backend_token {
                    Some(bt) => {
                        let j = bt.as_usize() - 1 - self.max_connections;
                        self.backend.set(j, None);
                    },
                    None => {
                    },
                }
                proof {
                    assert forall|i: int| 0 <= i < self.clients@.len() implies #[trigger] self
                        .client_slot_ok(i) by {
                        if i != idx {
                            assert(old(self).client_slot_ok(i));
                            match client.backend_token {
                                Some(bt) => {
                                    let j = bt.0 - 1 - old(self).max_connections;
                                    assert(old(self).backend_slot_ok(j));
                                },
                                None => {
                                },
                            }
                        }
                    }
                    assert forall|k: int| 0 <= k < self.backend@.len() implies #[trigger] self
                        .backend_slot_ok(k) by {
                        assert(old(self).backend_slot_ok(k));
                        match client.backend_token {
                            Some(bt) => {
                                let j = bt.0 - 1 - old(self).max_connections;
                                if k != j && self.backend@[k] is Some {
                                    assert(old(self).client_slot_ok(
                                        (self.backend@[k]->Some_0).0 - 1,
                                    ));
                                }
                            },
                            None => {
                            },
                        }
                    }
                }
                CloseOutcome::Closed(client.backend_token)
            },
        }
    }
}

/// What one routed handler call did to the table.
#[derive(PartialEq, Eq, Clone, Copy, Debug)]
pub enum IoOutcome {
    /// The handler ran; re-arm the session's current interests.
    Handled,
    /// The session ended and its slots are free; the caller deregisters
    /// and shuts down its sockets (the backend one named here, if any).
    SessionClosed(Option<Token>),
    /// The token addressed no live session — a harmless race, ignored.
    NotPresent,
}

impl Server {
    pub fn is_live(&self, t: Token) -> (r: bool)
        requires
            self.wf(),
        ensures
            r == self.live(t),
    {
        if t.as_usize() == 0 || t.as_usize() >= 1 + self.max_connections {
            return false;
        }
        match &self.clients[t.as_usize() - 1] {
            Some(_) => true,
            None => false,
        }
    }

    /// Where a readable event goes: token 0 accepts, a client token goes to
    /// its live session, a backend token is first translated through the
    /// backend slab; a stale token of either range goes nowhere.
    pub open spec fn route_readable(&self, token: Token) -> Seq<Dispatch> {
        if token.0 == 0 {
            seq![Dispatch::Accept]
        } else if token.0 < 1 + self.max_connections {
            if self.live(token) {
                seq![Dispatch::FrontReadable(token)]
            } else {
                Seq::empty()
            }
        } else if token.0 < 1 + 2 * self.max_connections {
            match self.backend@[token.0 - 1 - self.max_connections] {
                Some(ct) => if self.live(ct) {
                    seq![Dispatch::BackReadable(ct)]
                } else {
                    Seq::empty()
                },
                None => Seq::empty(),
            }
        } else {
            Seq::empty()
        }
    }

    /// Where a writable event goes; one for the listener goes nowhere.
    pub open spec fn route_writable(&self, token: Token) -> Seq<Dispatch> {
        if token.0 == 0 {
            Seq::empty()
        } else if token.0 < 1 + self.max_connections {
            if self.live(token) {
                seq![Dispatch::FrontWritable(token)]
            } else {
                Seq::empty()
            }
        } else if token.0 < 1 + 2 * self.max_connections {
            match self.backend@[token.0 - 1 - self.max_connections] {
                Some(ct) => if self.live(ct) {
                    seq![Dispatch::BackWritable(ct)]
                } else {
                    Seq::empty()
                },
                None => Seq::empty(),
            }
        } else {
            Seq::empty()
        }
    }

    /// A hang-up closes the addressed live session.
    pub open spec fn route_hup(&self, token: Token) -> Seq<Dispatch> {
        if token.0 == 0 {
            Seq::empty()
        } else if token.0 < 1 + self.max_connections {
            if self.live(token) {
                seq![Dispatch::Close(token)]
            } else {
                Seq::empty()
            }
        } else if token.0 < 1 + 2 * self.max_connections {
            match self.backend@[token.0 - 1 - self.max_connections] {
                Some(ct) => if self.live(ct) {
                    seq![Dispatch::Close(ct)]
                } else {
                    Seq::empty()
                },
                None => Seq::empty(),
            }
        } else {
            Seq::empty()
        }
    }

    /// Everything one readiness notification asks for, in handler order.
    pub open spec fn route_spec(&self, token: Token, events: Events) -> Seq<Dispatch> {
        (if events.readable {
            self.route_readable(token)
        } else {
            Seq::empty()
        }) + (if events.writable {
            self.route_writable(token)
        } else {
            Seq::empty()
        }) + (if events.hup {
            self.route_hup(token)
        } else {
            Seq::empty()
        })
    }

    fn route_token(&self, token: Token) -> (r: Option<Token>)
        requires
            self.wf(),
        ensures
            r matches Some(ct) ==> (token.0 < 1 + self.max_connections && ct == token && self.live(
                token,
            )) || (1 + self.max_connections <= token.0 < 1 + 2 * self.max_connections
                && self.backend@[token.0 - 1 - self.max_connections] == Some(ct) && self.live(ct)),
            r is None ==> (token.0 == 0 || token.0 >= 1 + 2 * self.max_connections || (token.0 < 1
                + self.max_connections && !self.live(token)) || (1 + self.max_connections
                <= token.0 && (self.backend@[token.0 - 1 - self.max_connections] is None || !self.live(
                self.backend@[token.0 - 1 - self.max_connections]->Some_0,
            )))),
    {
        if token.as_usize() == 0 {
            None
        } else if token.as_usize() < 1 + self.max_connections {
            if self.is_live(token) {
                Some(token)
            } else {
                None
            }
        } else if token.as_usize() < 1 + 2 * self.max_connections {
            match self.backend[token.as_usize() - 1 - self.max_connections] {
                Some(ct) => {
                    if self.is_live(ct) {
                        Some(ct)
                    } else {
                        None
                    }
                },
                None => None,
            }
        } else {
            None
        }
    }

    /// Route one readiness notification: decide, from the token and event
    /// kinds alone, which handlers its receiver must run, in order. Stale
    /// tokens of either range route nowhere — a harmless race, never a
    /// panic.
    pub fn ready(&self, token: Token, events: Events) -> (r: Vec<Dispatch>)
        requires
            self.wf(),
        ensures
            r@ == self.route_spec(token, events),
    {
        let mut out: Vec<Dispatch> = Vec::new();
        let ghost rd: Seq<Dispatch> = if events.readable {
            self.route_readable(token)
        } else {
            Seq::empty()
        };
        let ghost wr: Seq<Dispatch> = if events.writable {
            self.route_writable(token)
        } else {
            Seq::empty()
        };
        if events.readable {
            if token.as_usize() == 0 {
                out.push(Dispatch::Accept);
            } else {
                match self.route_token(token) {
                    Some(ct) => {
                        if token.as_usize() < 1 + self.max_connections {
                            out.push(Dispatch::FrontReadable(ct));
                        } else {
                            out.push(Dispatch::BackReadable(ct));
                        }
                    },
                    None => {
                    },
                }
            }
        }
        proof {
            assert(out@ =~= rd);
        }
        if events.writable {
            match self.route_token(token) {
                Some(ct) => {
                    if token.as_usize() < 1 + self.max_connections {
                        out.push(Dispatch::FrontWritable(ct));
                    } else {
                        out.push(Dispatch::BackWritable(ct));
                    }
                },
                None => {
                },
            }
        }
        proof {
            assert(out@ =~= rd + wr);
        }
        if events.hup {
            match self.route_token(token) {
                Some(ct) => {
                    out.push(Dispatch::Close(ct));
                },
                None => {
                },
            }
        }
        proof {
            assert(out@ =~= self.route_spec(token, events));
        }
        out
    }

    /// Run the client-readable handler for a routed token, feeding it the
    /// bytes read off the client socket; a parse error runs the close
    /// sequence here, freeing the slots, before the caller is told.
    pub fn front_readable(&mut self, token: Token, data: &[u8]) -> (r: IoOutcome)
        requires
            old(self).wf(),
            match old(self).client_at(token) {
                Some(c) => c.front_buf.mode() == BufferMode::Accumulating
                    ==> c.front_buf.contents().len() + data@.len() <= c.front_buf.capacity(),
                None => true,
            },
        ensures
            final(self).wf(),
            final(self).instances == old(self).instances,
            final(self).listener == old(self).listener,
            final(self).max_connections == old(self).max_connections,
            ({
                let idx = token.0 - 1;
                match old(self).client_at(token) {
                    None => r == IoOutcome::NotPresent && *final(self) == *old(self),
                    Some(c) => ({
                        let errs = c.front_buf.mode() == BufferMode::Accumulating && advance_spec(
                            c.http_state@,
                            c.front_buf.contents() + data@,
                        ) is Error;
                        if errs {
                            &&& r == IoOutcome::SessionClosed(c.backend_token)
                            &&& final(self).clients@ == old(self).clients@.update(idx, None)
                            &&& final(self).backend@ == match c.backend_token {
                                Some(bt) => old(self).backend@.update(
                                    bt.0 - 1 - old(self).max_connections,
                                    None,
                                ),
                                None => old(self).backend@,
                            }
                        } else {
                            &&& r == IoOutcome::Handled
                            &&& final(self).backend == old(self).backend
                            &&& final(self).clients@.len() == old(self).clients@.len()
                            &&& forall|k: int|
                                0 <= k < old(self).clients@.len() && k != idx
                                    ==> final(self).clients@[k] == old(self).clients@[k]
                            &&& final(self).clients@[idx] matches Some(c2) && readable_transition(
                                c,
                                c2,
                                data@,
                                EventResponse::Continue,
                            )
                        }
                    }),
                }
            }),
    {
        if token.as_usize() == 0 || token.as_usize() >= 1 + self.max_connections {
            return IoOutcome::NotPresent;
        }
        let idx = token.as_usize() - 1;
        let present = match &self.clients[idx] {
            Some(_) => true,
            None => false,
        };
        if !present {
            return IoOutcome::NotPresent;
        }
        proof {
            assert(old(self).client_slot_ok(idx as int));
        }
        let mut slot: Option<Client> = None;
        self.clients.set_and_swap(idx, &mut slot);
        match slot {
            None => IoOutcome::NotPresent,
            Some(mut client) => {
                let resp = client.readable(data);
                let backend_token = client.backend_token;
                self.clients.set(idx, Some(client));
                proof {
                    assert forall|i: int| 0 <= i < self.clients@.len() implies #[trigger] self
                        .client_slot_ok(i) by {
                        assert(old(self).client_slot_ok(i));
                    }
                    assert forall|k: int| 0 <= k < self.backend@.len() implies #[trigger] self
                        .backend_slot_ok(k) by {
                        assert(old(self).backend_slot_ok(k));
                    }
                }
                match resp {
                    EventResponse::Continue => IoOutcome::Handled,
                    EventResponse::CloseNeeded => {
                        self.close_client(token);
                        proof {
                            assert(self.clients@ =~= old(self).clients@.update(idx as int, None));
                        }
                        IoOutcome::SessionClosed(backend_token)
                    },
                }
            },
        }
    }

    /// Run the client-writable handler: the client socket accepted `n`
    /// bytes of the session's drained back buffer.
    pub fn front_writable(&mut self, token: Token, n: usize) -> (r: IoOutcome)
        requires
            old(self).wf(),
            match old(self).client_at(token) {
                Some(c) => c.back_buf.mode() == BufferMode::Draining ==> n
                    <= c.back_buf.contents().len() - c.back_buf.consumed(),
                None => true,
            },
        ensures
            final(self).wf(),
            final(self).backend == old(self).backend,
            final(self).instances == old(self).instances,
            final(self).listener == old(self).listener,
            final(self).max_connections == old(self).max_connections,
            ({
                let idx = token.0 - 1;
                match old(self).client_at(token) {
                    None => r == IoOutcome::NotPresent && *final(self) == *old(self),
                    Some(c) => {
                        &&& r == IoOutcome::Handled
                        &&& final(self).clients@.len() == old(self).clients@.len()
                        &&& forall|k: int|
                            0 <= k < old(self).clients@.len() && k != idx
                                ==> final(self).clients@[k] == old(self).clients@[k]
                        &&& final(self).clients@[idx] matches Some(c2) && writable_transition(
                            c,
                            c2,
                            n as int,
                        )
                    },
                }
            }),
    {
        if token.as_usize() == 0 || token.as_usize() >= 1 + self.max_connections {
            return IoOutcome::NotPresent;
        }
        let idx = token.as_usize() - 1;
        let present = match &self.clients[idx] {
            Some(_) => true,
            None => false,
        };
        if !present {
            return IoOutcome::NotPresent;
        }
        proof {
            assert(old(self).client_slot_ok(idx as int));
        }
        let mut slot: Option<Client> = None;
        self.clients.set_and_swap(idx, &mut slot);
        match slot {
            None => IoOutcome::NotPresent,
            Some(mut client) => {
                client.writable(n);
                self.clients.set(idx, Some(client));
                proof {
                    assert forall|i: int| 0 <= i < self.clients@.len() implies #[trigger] self
                        .client_slot_ok(i) by {
                        assert(old(self).client_slot_ok(i));
                    }
                    assert forall|k: int| 0 <= k < self.backend@.len() implies #[trigger] self
                        .backend_slot_ok(k) by {
                        assert(old(self).backend_slot_ok(k));
                    }
                }
                IoOutcome::Handled
            },
        }
    }

    /// Run the backend-readable handler for an already translated token,
    /// feeding it the bytes read off the backend socket.
    pub fn back_readable(&mut self, token: Token, data: &[u8]) -> (r: IoOutcome)
        requires
            old(self).wf(),
            match old(self).client_at(token) {
                Some(c) => c.back_buf.mode() == BufferMode::Accumulating
                    ==> c.back_buf.contents().len() + data@.len() <= c.back_buf.capacity(),
                None => true,
            },
        ensures
            final(self).wf(),
            final(self).backend == old(self).backend,
            final(self).instances == old(self).instances,
            final(self).listener == old(self).listener,
            final(self).max_connections == old(self).max_connections,
            ({
                let idx = token.0 - 1;
                match old(self).client_at(token) {
                    None => r == IoOutcome::NotPresent && *final(self) == *old(self),
                    Some(c) => {
                        &&& r == IoOutcome::Handled
                        &&& final(self).clients@.len() == old(self).clients@.len()
                        &&& forall|k: int|
                            0 <= k < old(self).clients@.len() && k != idx
                                ==> final(self).clients@[k] == old(self).clients@[k]
                        &&& final(self).clients@[idx] matches Some(c2) && back_readable_transition(
                            c,
                            c2,
                            data@,
                        )
                    },
                }
            }),
    {
        if token.as_usize() == 0 || token.as_usize() >= 1 + self.max_connections {
            return IoOutcome::NotPresent;
        }
        let idx = token.as_usize() - 1;
        let present = match &self.clients[idx] {
            Some(_) => true,
            None => false,
        };
        if !present {
            return IoOutcome::NotPresent;
        }
        proof {
            assert(old(self).client_slot_ok(idx as int));
        }
        let mut slot: Option<Client> = None;
        self.clients.set_and_swap(idx, &mut slot);
        match slot {
            None => IoOutcome::NotPresent,
            Some(mut client) => {
                client.back_readable(data);
                self.clients.set(idx, Some(client));
                proof {
                    assert forall|i: int| 0 <= i < self.clients@.len() implies #[trigger] self
                        .client_slot_ok(i) by {
                        assert(old(self).client_slot_ok(i));
                    }
                    assert forall|k: int| 0 <= k < self.backend@.len() implies #[trigger] self
                        .backend_slot_ok(k) by {
                        assert(old(self).backend_slot_ok(k));
                    }
                }
                IoOutcome::Handled
            },
        }
    }

    /// Run the backend-writable handler: the backend socket accepted `n`
    /// bytes of the session's drained front buffer.
    pub fn back_writable(&mut self, token: Token, n: usize) -> (r: IoOutcome)
        requires
            old(self).wf(),
            match old(self).client_at(token) {
                Some(c) => c.front_buf.mode() == BufferMode::Draining ==> n
                    <= c.front_buf.contents().len() - c.front_buf.consumed(),
                None => true,
            },
        ensures
            final(self).wf(),
            final(self).backend == old(self).backend,
            final(self).instances == old(self).instances,
            final(self).listener == old(self).listener,
            final(self).max_connections == old(self).max_connections,
            ({
                let idx = token.0 - 1;
                match old(self).client_at(token) {
                    None => r == IoOutcome::NotPresent && *final(self) == *old(self),
                    Some(c) => {
                        &&& r == IoOutcome::Handled
                        &&& final(self).clients@.len() == old(self).clients@.len()
                        &&& forall|k: int|
                            0 <= k < old(self).clients@.len() && k != idx
                                ==> final(self).clients@[k] == old(self).clients@[k]
                        &&& final(self).clients@[idx] matches Some(c2) && back_writable_transition(
                            c,
                            c2,
                            n as int,
                        )
                    },
                }
            }),
    {
        if token.as_usize() == 0 || token.as_usize() >= 1 + self.max_connections {
            return IoOutcome::NotPresent;
        }
        let idx = token.as_usize() - 1;
        let present = match &self.clients[idx] {
            Some(_) => true,
            None => false,
        };
        if !present {
            return IoOutcome::NotPresent;
        }
        proof {
            assert(old(self).client_slot_ok(idx as int));
        }
        let mut slot: Option<Client> = None;
        self.clients.set_and_swap(idx, &mut slot);
        match slot {
            None => IoOutcome::NotPresent,
            Some(mut client) => {
                client.back_writable(n);
                self.clients.set(idx, Some(client));
                proof {
                    assert forall|i: int| 0 <= i < self.clients@.len() implies #[trigger] self
                        .client_slot_ok(i) by {
                        assert(old(self).client_slot_ok(i));
                    }
                    assert forall|k: int| 0 <= k < self.backend@.len() implies #[trigger] self
                        .backend_slot_ok(k) by {
                        assert(old(self).backend_slot_ok(k));
                    }
                }
                IoOutcome::Handled
            },
        }
    }

    /// Honor the control-channel contract: a stop message exits the loop
    /// cleanly; each administrative command is acknowledged with its
    /// outcome tag. Wiring the commands to the route table is outside this
    /// core.
    pub fn notify(&mut self, message: HttpProxyOrder) -> (r: NotifyAction)
        ensures
            *final(self) == *old(self),
            r == match message {
                HttpProxyOrder::Stop => NotifyAction::Shutdown,
                HttpProxyOrder::Command(c) => NotifyAction::SendAck(
                    match c {
                        Command::AddHttpFront(_) => ServerMessage::AddedHttpFront,
                        Command::RemoveHttpFront(_) => ServerMessage::RemovedHttpFront,
                        Command::AddInstance(_) => ServerMessage::AddedInstance,
                        Command::RemoveInstance(_) => ServerMessage::RemovedInstance,
                    },
                ),
            },
    {
        match message {
            HttpProxyOrder::Stop => NotifyAction::Shutdown,
            HttpProxyOrder::Command(c) => NotifyAction::SendAck(
                match c {
                    Command::AddHttpFront(_) => ServerMessage::AddedHttpFront,
                    Command::RemoveHttpFront(_) => ServerMessage::RemovedHttpFront,
                    Command::AddInstance(_) => ServerMessage::AddedInstance,
                    Command::RemoveInstance(_) => ServerMessage::RemovedInstance,
                },
            ),
        }
    }
}

/// Token exclusivity: two distinct live client slots never hold the same
/// token — each live session's token is the one its slot index gives out.
pub proof fn lemma_token_exclusive(s: Server, i: int, j: int)
    requires
        s.wf(),
        0 <= i < s.clients@.len(),
        0 <= j < s.clients@.len(),
        i != j,
        s.clients@[i] is Some,
        s.clients@[j] is Some,
    ensures
        (s.clients@[i]->Some_0).token != (s.clients@[j]->Some_0).token,
{
    assert(s.client_slot_ok(i));
    assert(s.client_slot_ok(j));
}

} // verus!
