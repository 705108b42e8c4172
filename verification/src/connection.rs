//! One client session: the per-direction flip buffers, the parse state,
//! the interest sets that the event loop re-arms after every handler, and
//! the byte counters. Socket reads and writes happen outside; each handler
//! here takes the bytes moved (or the count the socket accepted) and
//! decides the next buffer mode, interest sets and parse state. Each
//! handler's effect is pinned by a transition predicate that the connection
//! table's wrappers reuse.

use crate::buffer::{Buffer, BufferMode};
use crate::http::HttpState;
use crate::parser::advance_spec;
use crate::parser;
use crate::token::Token;
use vstd::prelude::*;

verus! {

/// Capacity of each per-direction buffer, which also caps the request head.
pub const DEFAULT_BUFFER_CAPACITY: usize = 2048;

/// Which readiness kinds a socket's registration should currently express.
#[derive(PartialEq, Eq, Structural, Clone, Copy, Debug)]
pub struct InterestSet {
    pub readable: bool,
    pub writable: bool,
}

impl InterestSet {
    pub fn all() -> (r: InterestSet)
        ensures
            r == (InterestSet { readable: true, writable: true }),
    {
        InterestSet { readable: true, writable: true }
    }

    pub fn none() -> (r: InterestSet)
        ensures
            r == (InterestSet { readable: false, writable: false }),
    {
        InterestSet { readable: false, writable: false }
    }
}

/// What the caller must do after an event handler returns.
#[derive(PartialEq, Eq, Structural, Clone, Copy, Debug)]
pub enum EventResponse {
    /// Re-arm the connection's current interests and carry on.
    Continue,
    /// The session is over (parse error): run the close sequence.
    CloseNeeded,
}

/// Saturating add, for the observability counters.
pub fn sat_add(a: usize, b: usize) -> (r: usize)
    ensures
        r == if a + b <= usize::MAX {
            a + b
        } else {
            usize::MAX as int
        },
{
    if a <= usize::MAX - b {
        a + b
    } else {
        usize::MAX
    }
}

/// A client session. `front_buf` carries client-to-backend bytes,
/// `back_buf` backend-to-client bytes; each is in accumulating mode while
/// its reader side may deliver and in draining mode while its writer side
/// still owes bytes.
pub struct Client {
    pub http_state: HttpState,
    pub front_buf: Buffer,
    pub back_buf: Buffer,
    pub token: Option<Token>,
    pub backend_token: Option<Token>,
    pub front_interest: InterestSet,
    pub back_interest: InterestSet,
    pub rx_count: usize,
    pub tx_count: usize,
}

/// What `readable` does: accumulate the bytes, then either relay (flip the
/// front buffer towards the backend and drop front read interest), fail the
/// session (parse error: interests cleared, close owed), or keep reading.
pub open spec fn readable_transition(o: Client, f: Client, data: Seq<u8>, r: EventResponse) -> bool {
    &&& f.back_buf == o.back_buf
    &&& f.token == o.token
    &&& f.backend_token == o.backend_token
    &&& f.tx_count == o.tx_count
    &&& (o.front_buf.mode() == BufferMode::Draining ==> f == o && r == EventResponse::Continue)
    &&& (o.front_buf.mode() == BufferMode::Accumulating ==> ({
        let newc = o.front_buf.contents() + data;
        let st1 = advance_spec(o.http_state@, newc);
        &&& f.rx_count == if o.rx_count + data.len() <= usize::MAX {
            o.rx_count + data.len()
        } else {
            usize::MAX as int
        }
        &&& f.http_state@ == st1
        &&& f.front_buf.capacity() == o.front_buf.capacity()
        &&& (r == EventResponse::CloseNeeded <==> st1 is Error)
        &&& if st1 is Error {
            &&& f.front_buf.mode() == BufferMode::Accumulating
            &&& f.front_buf.contents() == newc
            &&& f.front_interest == (InterestSet { readable: false, writable: false })
            &&& f.back_interest == (InterestSet { readable: false, writable: false })
        } else if st1 is HasHost {
            &&& f.front_buf.mode() == BufferMode::Draining
            &&& f.front_buf.contents() == newc
            &&& f.front_buf.consumed() == 0
            &&& f.front_interest == (InterestSet { readable: false, ..o.front_interest })
            &&& f.back_interest == (InterestSet { writable: true, ..o.back_interest })
        } else {
            &&& f.front_buf.mode() == BufferMode::Accumulating
            &&& f.front_buf.contents() == newc
            &&& f.front_interest == (InterestSet { readable: true, ..o.front_interest })
            &&& f.back_interest == o.back_interest
        }
    }))
}

/// What `writable` does: consume what the client socket accepted from the
/// drained back buffer; a full drain reopens it and turns interest back to
/// backend reads, a partial one keeps the write interest.
pub open spec fn writable_transition(o: Client, f: Client, n: int) -> bool {
    &&& f.front_buf == o.front_buf
    &&& f.http_state@ == o.http_state@
    &&& f.token == o.token
    &&& f.backend_token == o.backend_token
    &&& f.rx_count == o.rx_count
    &&& (o.back_buf.mode() == BufferMode::Accumulating ==> f == o)
    &&& (o.back_buf.mode() == BufferMode::Draining ==> ({
        &&& f.tx_count == if o.tx_count + n <= usize::MAX {
            o.tx_count + n
        } else {
            usize::MAX as int
        }
        &&& f.back_buf.capacity() == o.back_buf.capacity()
        &&& if o.back_buf.consumed() + n == o.back_buf.contents().len() {
            &&& f.back_buf.mode() == BufferMode::Accumulating
            &&& f.back_buf.contents() == Seq::<u8>::empty()
            &&& f.front_interest == (InterestSet { writable: false, ..o.front_interest })
            &&& f.back_interest == (InterestSet { readable: true, ..o.back_interest })
        } else {
            &&& f.back_buf.mode() == BufferMode::Draining
            &&& f.back_buf.contents() == o.back_buf.contents()
            &&& f.back_buf.consumed() == o.back_buf.consumed() + n
            &&& f.front_interest == (InterestSet { writable: true, ..o.front_interest })
            &&& f.back_interest == o.back_interest
        }
    }))
}

/// What `back_readable` does: accumulate the backend's bytes and flip them
/// at once towards the client.
pub open spec fn back_readable_transition(o: Client, f: Client, data: Seq<u8>) -> bool {
    &&& f.front_buf == o.front_buf
    &&& f.http_state@ == o.http_state@
    &&& f.token == o.token
    &&& f.backend_token == o.backend_token
    &&& f.rx_count == o.rx_count
    &&& f.tx_count == o.tx_count
    &&& (o.back_buf.mode() == BufferMode::Draining ==> f == o)
    &&& (o.back_buf.mode() == BufferMode::Accumulating ==> ({
        &&& f.back_buf.mode() == BufferMode::Draining
        &&& f.back_buf.contents() == o.back_buf.contents() + data
        &&& f.back_buf.consumed() == 0
        &&& f.back_buf.capacity() == o.back_buf.capacity()
        &&& f.back_interest == (InterestSet { readable: false, ..o.back_interest })
        &&& f.front_interest == (InterestSet { writable: true, ..o.front_interest })
    }))
}

/// What `back_writable` does: consume what the backend socket accepted from
/// the drained front buffer; a full drain reopens it and resumes reading
/// from the client.
pub open spec fn back_writable_transition(o: Client, f: Client, n: int) -> bool {
    &&& f.back_buf == o.back_buf
    &&& f.http_state@ == o.http_state@
    &&& f.token == o.token
    &&& f.backend_token == o.backend_token
    &&& f.rx_count == o.rx_count
    &&& f.tx_count == o.tx_count
    &&& (o.front_buf.mode() == BufferMode::Accumulating ==> f == o)
    &&& (o.front_buf.mode() == BufferMode::Draining ==> ({
        &&& f.front_buf.capacity() == o.front_buf.capacity()
        &&& if o.front_buf.consumed() + n == o.front_buf.contents().len() {
            &&& f.front_buf.mode() == BufferMode::Accumulating
            &&& f.front_buf.contents() == Seq::<u8>::empty()
            &&& f.front_interest == (InterestSet { readable: true, ..o.front_interest })
            &&& f.back_interest == (InterestSet { readable: true, writable: false })
        } else {
            &&& f.front_buf.mode() == BufferMode::Draining
            &&& f.front_buf.contents() == o.front_buf.contents()
            &&& f.front_buf.consumed() == o.front_buf.consumed() + n
            &&& f.front_interest == o.front_interest
            &&& f.back_interest == (InterestSet { writable: true, ..o.back_interest })
        }
    }))
}

impl Client {
    pub open spec fn wf(&self) -> bool {
        &&& self.front_buf.wf()
        &&& self.back_buf.wf()
        &&& self.front_buf.capacity() == DEFAULT_BUFFER_CAPACITY
        &&& self.back_buf.capacity() == DEFAULT_BUFFER_CAPACITY
    }

    pub fn new() -> (r: Option<Client>)
        ensures
            r matches Some(c) && c.wf() && c.http_state@ is Initial && c.front_buf.mode()
                == BufferMode::Accumulating && c.front_buf.contents() == Seq::<u8>::empty()
                && c.back_buf.mode() == BufferMode::Accumulating && c.back_buf.contents()
                == Seq::<u8>::empty() && c.token is None && c.backend_token is None
                && c.front_interest == (InterestSet { readable: true, writable: true })
                && c.back_interest == (InterestSet { readable: true, writable: true })
                && c.rx_count == 0 && c.tx_count == 0,
    {
        Some(
            Client {
                http_state: HttpState::Initial,
                front_buf: Buffer::new(DEFAULT_BUFFER_CAPACITY),
                back_buf: Buffer::new(DEFAULT_BUFFER_CAPACITY),
                token: None,
                backend_token: None,
                front_interest: InterestSet::all(),
                back_interest: InterestSet::all(),
                rx_count: 0,
                tx_count: 0,
            },
        )
    }

    pub fn set_front_token(&mut self, token: Token)
        ensures
            *final(self) == (Client { token: Some(token), ..*old(self) }),
    {
        self.token = Some(token);
    }

    pub fn set_tokens(&mut self, token: Token, backend: Token)
        ensures
            *final(self) == (Client {
                token: Some(token),
                backend_token: Some(backend),
                ..*old(self)
            }),
    {
        self.token = Some(token);
        self.backend_token = Some(backend);
    }

    /// The session's own part of the close sequence: stop expressing any
    /// interest, so no further readiness is asked for. Slab removal and
    /// socket teardown are the table's and the caller's part.
    pub fn close(&mut self)
        ensures
            *final(self) == (Client {
                front_interest: InterestSet { readable: false, writable: false },
                back_interest: InterestSet { readable: false, writable: false },
                ..*old(self)
            }),
    {
        self.front_interest = InterestSet::none();
        self.back_interest = InterestSet::none();
    }

    /// One parser invocation against the whole accumulated buffer.
    pub fn parse_headers(state: &HttpState, buf: &Buffer) -> (r: HttpState)
        ensures
            r@ == advance_spec(state@, buf.contents()),
    {
        parser::advance(state, buf.bytes())
    }

    /// In raw relay mode: everything past the parsed head is opaque payload.
    pub fn is_proxying(&self) -> (r: bool)
        ensures
            r == (self.http_state@ is HasHost),
    {
        match self.http_state {
            HttpState::HasHost(_, _, _) => true,
            _ => false,
        }
    }

    /// Free space in the front buffer; zero while it drains (backpressure).
    pub fn front_space(&self) -> (n: usize)
        requires
            self.wf(),
        ensures
            n == if self.front_buf.mode() == BufferMode::Accumulating {
                self.front_buf.capacity() - self.front_buf.contents().len()
            } else {
                0
            },
    {
        match self.front_buf.mode_of() {
            BufferMode::Accumulating => self.front_buf.remaining_space(),
            BufferMode::Draining => 0,
        }
    }

    /// Free space in the back buffer; zero while it drains.
    pub fn back_space(&self) -> (n: usize)
        requires
            self.wf(),
        ensures
            n == if self.back_buf.mode() == BufferMode::Accumulating {
                self.back_buf.capacity() - self.back_buf.contents().len()
            } else {
                0
            },
    {
        match self.back_buf.mode_of() {
            BufferMode::Accumulating => self.back_buf.remaining_space(),
            BufferMode::Draining => 0,
        }
    }

    /// Switch the front buffer to relay: stop reading from the client until
    /// the backend has drained it, and ask for backend writability.
    fn flip_front_buf(&mut self)
        requires
            old(self).wf(),
            old(self).front_buf.mode() == BufferMode::Accumulating,
        ensures
            final(self).wf(),
            *final(self) == (Client {
                front_buf: final(self).front_buf,
                front_interest: InterestSet { readable: false, ..old(self).front_interest },
                back_interest: InterestSet { writable: true, ..old(self).back_interest },
                ..*old(self)
            }),
            final(self).front_buf.mode() == BufferMode::Draining,
            final(self).front_buf.contents() == old(self).front_buf.contents(),
            final(self).front_buf.consumed() == 0,
            final(self).front_buf.capacity() == old(self).front_buf.capacity(),
    {
        self.front_interest.readable = false;
        self.back_interest.writable = true;
        self.front_buf.flip();
    }

    /// Bytes arrived from the client (possibly none). Accumulate them; in
    /// relay mode flip the buffer towards the backend, otherwise run the
    /// parser and act on the state it reaches: an error ends the session,
    /// a located host switches to relay, anything else keeps reading.
    pub fn readable(&mut self, data: &[u8]) -> (r: EventResponse)
        requires
            old(self).wf(),
            old(self).front_buf.mode() == BufferMode::Accumulating ==> old(
                self,
            ).front_buf.contents().len() + data@.len() <= old(self).front_buf.capacity(),
        ensures
            final(self).wf(),
            readable_transition(*old(self), *final(self), data@, r),
    {
        match self.front_buf.mode_of() {
            BufferMode::Draining => EventResponse::Continue,
            BufferMode::Accumulating => {
                let n = self.front_buf.write(data);
                self.rx_count = sat_add(self.rx_count, n);
                proof {
                    assert(self.front_buf.contents() =~= old(self).front_buf.contents() + data@);
                }
                if self.is_proxying() {
                    self.flip_front_buf();
                    EventResponse::Continue
                } else {
                    let state = Client::parse_headers(&self.http_state, &self.front_buf);
                    match state {
                        HttpState::Error(_) => {
                            self.http_state = state;
                            self.close();
                            EventResponse::CloseNeeded
                        },
                        _ => {
                            self.http_state = state;
                            if self.is_proxying() {
                                self.flip_front_buf();
                            } else {
                                self.front_interest.readable = true;
                            }
                            EventResponse::Continue
                        },
                    }
                }
            },
        }
    }

    /// The client socket accepted `n` bytes of the drained back buffer.
    pub fn writable(&mut self, n: usize)
        requires
            old(self).wf(),
            old(self).back_buf.mode() == BufferMode::Draining ==> n <= old(
                self,
            ).back_buf.contents().len() - old(self).back_buf.consumed(),
        ensures
            final(self).wf(),
            writable_transition(*old(self), *final(self), n as int),
    {
        match self.back_buf.mode_of() {
            BufferMode::Accumulating => {
            },
            BufferMode::Draining => {
                self.back_buf.consume(n);
                self.tx_count = sat_add(self.tx_count, n);
                if self.back_buf.remaining() == 0 {
                    self.back_buf.reset();
                    self.front_interest.writable = false;
                    self.back_interest.readable = true;
                } else {
                    self.front_interest.writable = true;
                }
            },
        }
    }

    /// Bytes arrived from the backend: accumulate and flip at once towards
    /// the client, asking for client writability instead of backend reads.
    pub fn back_readable(&mut self, data: &[u8])
        requires
            old(self).wf(),
            old(self).back_buf.mode() == BufferMode::Accumulating ==> old(
                self,
            ).back_buf.contents().len() + data@.len() <= old(self).back_buf.capacity(),
        ensures
            final(self).wf(),
            back_readable_transition(*old(self), *final(self), data@),
    {
        match self.back_buf.mode_of() {
            BufferMode::Draining => {
            },
            BufferMode::Accumulating => {
                let _n = self.back_buf.write(data);
                proof {
                    assert(self.back_buf.contents() =~= old(self).back_buf.contents() + data@);
                }
                self.back_interest.readable = false;
                self.front_interest.writable = true;
                self.back_buf.flip();
            },
        }
    }

    /// The backend socket accepted `n` bytes of the drained front buffer.
    pub fn back_writable(&mut self, n: usize)
        requires
            old(self).wf(),
            old(self).front_buf.mode() == BufferMode::Draining ==> n <= old(
                self,
            ).front_buf.contents().len() - old(self).front_buf.consumed(),
        ensures
            final(self).wf(),
            back_writable_transition(*old(self), *final(self), n as int),
    {
        match self.front_buf.mode_of() {
            BufferMode::Accumulating => {
            },
            BufferMode::Draining => {
                self.front_buf.consume(n);
                if self.front_buf.remaining() == 0 {
                    self.front_buf.reset();
                    self.front_interest.readable = true;
                    self.back_interest.writable = false;
                    self.back_interest.readable = true;
                } else {
                    self.back_interest.writable = true;
                }
            },
        }
    }
}

} // verus!
