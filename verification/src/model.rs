//! The registry as a mathematical object: sessions by code, connections by
//! handle, and every registry operation as a function from one such state to
//! the next. The executable registry is specified against these functions.

use vstd::prelude::*;
use crate::code::{code_text, parse_text};
use crate::message::{Destination, MessageKind, MessageView, Role, route_of};

verus! {

/// Names one connection for as long as the registry lives. A handle is never
/// given out twice.
#[derive(Clone, Copy, Debug, PartialEq, Eq, Structural)]
pub struct Handle {
    pub id: u64,
}

/// One connection, as the registry sees it.
pub ghost struct ConnectionState {
    /// What was delivered to the connection and not yet taken by its
    /// outbound side, oldest first.
    pub outbox: Seq<MessageView>,
    /// The session and role the connection joined, once it has.
    pub affiliation: Option<(int, Role)>,
}

/// One session.
pub ghost struct SessionState {
    /// The sharer's handle: at most one, the last that attached.
    pub sharer: Option<Handle>,
    /// The viewers' handles in the order they joined.
    pub viewers: Seq<Handle>,
    /// When the session was made.
    pub created_at: u64,
    /// The most recent offer, kept for viewers that join later.
    pub pending_offer: Option<MessageView>,
}

/// The whole registry.
pub ghost struct RegistryView {
    /// The sessions, by the index of their code.
    pub sessions: Map<int, SessionState>,
    /// The open connections.
    pub connections: Map<Handle, ConnectionState>,
    /// How many handles were given out so far.
    pub issued: nat,
}

/// The text of the error sent to a connection that joins a session that does
/// not exist.
pub open spec fn session_not_found() -> Seq<char> {
    "Session not found"@
}

/// A session as it is made: no peers, no offer.
pub open spec fn fresh_session(now: u64) -> SessionState {
    SessionState { sharer: None, viewers: Seq::empty(), created_at: now, pending_offer: None }
}

/// A connection as it is opened: nothing delivered, no session joined.
pub open spec fn fresh_connection() -> ConnectionState {
    ConnectionState { outbox: Seq::empty(), affiliation: None }
}

/// The connections after `m` is delivered to `to`: appended to its outbox if
/// the connection is open, nothing otherwise.
pub open spec fn deliver_to(
    conns: Map<Handle, ConnectionState>,
    to: Handle,
    m: MessageView,
) -> Map<Handle, ConnectionState> {
    if conns.contains_key(to) {
        conns.insert(
            to,
            ConnectionState { outbox: conns[to].outbox.push(m), affiliation: conns[to].affiliation },
        )
    } else {
        conns
    }
}

/// The connections after `m` is delivered to each handle of `tos` in turn.
pub open spec fn deliver_to_all(
    conns: Map<Handle, ConnectionState>,
    tos: Seq<Handle>,
    m: MessageView,
) -> Map<Handle, ConnectionState>
    decreases tos.len(),
{
    if tos.len() == 0 {
        conns
    } else {
        deliver_to(deliver_to_all(conns, tos.drop_last(), m), tos.last(), m)
    }
}

/// How many handles of `tos` are open connections, counted with repetition.
pub open spec fn count_open(conns: Map<Handle, ConnectionState>, tos: Seq<Handle>) -> nat
    decreases tos.len(),
{
    if tos.len() == 0 {
        0
    } else {
        count_open(conns, tos.drop_last()) + if conns.contains_key(tos.last()) {
            1nat
        } else {
            0nat
        }
    }
}

/// The first of the drawn codes that names no session.
pub open spec fn first_free_draw(sessions: Map<int, SessionState>, draws: Seq<int>) -> Option<int>
    decreases draws.len(),
{
    if draws.len() == 0 {
        None
    } else if !sessions.contains_key(draws[0]) {
        Some(draws[0])
    } else {
        first_free_draw(sessions, draws.skip(1))
    }
}

impl RegistryView {
    /// Whether `code` is the first code of the enumeration that names no
    /// session.
    pub open spec fn is_least_free(self, code: int) -> bool {
        &&& 0 <= code
        &&& !self.sessions.contains_key(code)
        &&& forall|c: int| 0 <= c < code ==> self.sessions.contains_key(c)
    }

    /// The registry with no session and no connection.
    pub open spec fn empty() -> RegistryView {
        RegistryView { sessions: Map::empty(), connections: Map::empty(), issued: 0 }
    }

    /// Opens a connection under the next handle.
    pub open spec fn open(self) -> RegistryView {
        RegistryView {
            connections: self.connections.insert(
                Handle { id: self.issued as u64 },
                fresh_connection(),
            ),
            issued: self.issued + 1,
            ..self
        }
    }

    /// Closes a connection. Sessions keep its handle; deliveries to it fail
    /// from now on.
    pub open spec fn close(self, h: Handle) -> RegistryView {
        RegistryView { connections: self.connections.remove(h), ..self }
    }

    /// Empties a connection's outbox.
    pub open spec fn drain(self, h: Handle) -> RegistryView {
        if self.connections.contains_key(h) {
            RegistryView {
                connections: self.connections.insert(
                    h,
                    ConnectionState {
                        outbox: Seq::empty(),
                        affiliation: self.connections[h].affiliation,
                    },
                ),
                ..self
            }
        } else {
            self
        }
    }

    /// Delivers `m` to `to`.
    pub open spec fn deliver(self, to: Handle, m: MessageView) -> RegistryView {
        RegistryView { connections: deliver_to(self.connections, to, m), ..self }
    }

    /// Adds a fresh session under `code`.
    pub open spec fn with_session(self, code: int, now: u64) -> RegistryView {
        RegistryView { sessions: self.sessions.insert(code, fresh_session(now)), ..self }
    }

    /// Makes `h` the sharer of session `code`, in place of any other.
    pub open spec fn attach_sharer(self, code: int, h: Handle) -> RegistryView {
        if self.sessions.contains_key(code) {
            RegistryView {
                sessions: self.sessions.insert(
                    code,
                    SessionState { sharer: Some(h), ..self.sessions[code] },
                ),
                ..self
            }
        } else {
            self
        }
    }

    /// Adds `h` to the viewers of session `code`, tells the sharer that a
    /// viewer joined, then hands the new viewer the pending offer.
    pub open spec fn attach_viewer(self, code: int, h: Handle) -> RegistryView {
        if self.sessions.contains_key(code) {
            let s = self.sessions[code];
            let notified = match s.sharer {
                Some(sharer) => deliver_to(
                    self.connections,
                    sharer,
                    MessageView::ViewerJoined { code: code_text(code) },
                ),
                None => self.connections,
            };
            let replayed = match s.pending_offer {
                Some(offer) => deliver_to(notified, h, offer),
                None => notified,
            };
            RegistryView {
                sessions: self.sessions.insert(
                    code,
                    SessionState { viewers: s.viewers.push(h), ..s },
                ),
                connections: replayed,
                ..self
            }
        } else {
            self
        }
    }

    /// Whether `store_pending_offer` keeps `m`: the session exists and `m`
    /// is an offer.
    pub open spec fn keeps_offer(self, code: int, m: MessageView) -> bool {
        self.sessions.contains_key(code) && m.kind() == MessageKind::Offer
    }

    /// Keeps `m` as the pending offer of session `code`, in place of any
    /// earlier one.
    pub open spec fn store_pending_offer(self, code: int, m: MessageView) -> RegistryView {
        if self.keeps_offer(code, m) {
            RegistryView {
                sessions: self.sessions.insert(
                    code,
                    SessionState { pending_offer: Some(m), ..self.sessions[code] },
                ),
                ..self
            }
        } else {
            self
        }
    }

    /// Delivers `m` to every viewer of session `code`.
    pub open spec fn relay_to_viewers(self, code: int, m: MessageView) -> RegistryView {
        if self.sessions.contains_key(code) {
            RegistryView {
                connections: deliver_to_all(self.connections, self.sessions[code].viewers, m),
                ..self
            }
        } else {
            self
        }
    }

    /// How many deliveries `relay_to_viewers` makes.
    pub open spec fn viewers_reached(self, code: int) -> nat {
        if self.sessions.contains_key(code) {
            count_open(self.connections, self.sessions[code].viewers)
        } else {
            0
        }
    }

    /// Whether session `code` exists and its sharer is an open connection.
    pub open spec fn sharer_reachable(self, code: int) -> bool {
        &&& self.sessions.contains_key(code)
        &&& self.sessions[code].sharer matches Some(sharer)
        &&& self.connections.contains_key(sharer)
    }

    /// Delivers `m` to the sharer of session `code`.
    pub open spec fn relay_to_sharer(self, code: int, m: MessageView) -> RegistryView {
        if self.sharer_reachable(code) {
            self.deliver(self.sessions[code].sharer.unwrap(), m)
        } else {
            self
        }
    }

    /// Records that connection `h` joined session `code` in `role`.
    pub open spec fn affiliate(self, h: Handle, code: int, role: Role) -> RegistryView {
        if self.connections.contains_key(h) {
            RegistryView {
                connections: self.connections.insert(
                    h,
                    ConnectionState {
                        outbox: self.connections[h].outbox,
                        affiliation: Some((code, role)),
                    },
                ),
                ..self
            }
        } else {
            self
        }
    }

    /// What a join of session `code` in `role` by connection `from` does,
    /// where the session exists: attach, record, acknowledge.
    pub open spec fn join(self, from: Handle, code: int, role: Role) -> RegistryView {
        let attached = match role {
            Role::Sharer => self.attach_sharer(code, from),
            Role::Viewer => self.attach_viewer(code, from),
        };
        attached.affiliate(from, code, role).deliver(
            from,
            MessageView::Joined { code: code_text(code), role },
        )
    }

    /// What relaying `m`, sent by a peer in `role`, does to session `code`.
    pub open spec fn relay(self, code: int, role: Role, m: MessageView) -> RegistryView {
        match route_of(m.kind(), role) {
            Destination::Viewers => self.store_pending_offer(code, m).relay_to_viewers(code, m),
            Destination::Sharer => self.relay_to_sharer(code, m),
            Destination::Nobody => self,
        }
    }

    /// What the registry does with message `m` that arrived on connection
    /// `from`.
    ///
    /// A join attaches the connection if the code names a session and
    /// answers with an error if not. Any other message is relayed by the
    /// routing table, under the role the connection joined with; from a
    /// connection that has not joined, or with a code that names no session,
    /// it is dropped.
    pub open spec fn dispatch(self, from: Handle, m: MessageView) -> RegistryView {
        if !self.connections.contains_key(from) {
            self
        } else if m is Join {
            let code = parse_text(m->Join_code);
            if code.is_some() && self.sessions.contains_key(code.unwrap()) {
                self.join(from, code.unwrap(), m->Join_role)
            } else {
                self.deliver(from, MessageView::Error { message: session_not_found() })
            }
        } else {
            match (self.connections[from].affiliation, m.code()) {
                (Some((_, role)), Some(text)) => match parse_text(text) {
                    Some(code) => self.relay(code, role, m),
                    None => self,
                },
                _ => self,
            }
        }
    }
}

} // verus!
