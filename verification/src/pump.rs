//! The decisions of a connection's message pump: what each event on the
//! inbound side does to the registry, and whether the pump goes on.
//!
//! The pump itself, the two loops that read from and write to the
//! transport, belongs to the program that owns the transport. It reports
//! here what it read and performs what is decided.

use vstd::prelude::*;
use crate::message::{Message, MessageView};
use crate::model::{Handle, RegistryView};
use crate::registry::Registry;

verus! {

/// What the inbound side of a connection read.
#[derive(Debug)]
pub enum Inbound {
    /// A message that could be decoded.
    Message(Message),
    /// Input that is no message.
    Unparseable,
    /// A close frame, or a failure to read.
    Closed,
}

/// Whether the pump goes on.
#[derive(Clone, Copy, Debug, PartialEq, Eq, Structural)]
pub enum Pump {
    Continue,
    /// Both sides of the connection stop.
    Stop,
}

/// What an inbound event holds.
pub ghost enum InboundView {
    Message(MessageView),
    Unparseable,
    Closed,
}

impl View for Inbound {
    type V = InboundView;

    open spec fn view(&self) -> InboundView {
        match *self {
            Inbound::Message(m) => InboundView::Message(m@),
            Inbound::Unparseable => InboundView::Unparseable,
            Inbound::Closed => InboundView::Closed,
        }
    }
}

/// The registry after an inbound event on connection `conn`: a message is
/// dispatched, input that is no message changes nothing, and the end of the
/// stream closes the connection.
pub open spec fn after_inbound(v: RegistryView, conn: Handle, event: InboundView) -> RegistryView {
    match event {
        InboundView::Message(m) => v.dispatch(conn, m),
        InboundView::Unparseable => v,
        InboundView::Closed => v.close(conn),
    }
}

/// Handles one event of the inbound side of connection `conn`. The pump
/// stops when the stream has ended and goes on otherwise, also after input
/// that is no message.
pub fn on_inbound(registry: &mut Registry, conn: Handle, event: Inbound) -> (r: Pump)
    requires
        old(registry).wf(),
    ensures
        final(registry).wf(),
        final(registry).session_count() == old(registry).session_count(),
        final(registry)@ == after_inbound(old(registry)@, conn, event@),
        r == (if event is Closed {
            Pump::Stop
        } else {
            Pump::Continue
        }),
{
    match event {
        Inbound::Message(m) => {
            registry.dispatch(conn, m);
            Pump::Continue
        },
        Inbound::Unparseable => Pump::Continue,
        Inbound::Closed => {
            registry.close_connection(conn);
            Pump::Stop
        },
    }
}

/// Handles the outcome of writing to the transport of connection `conn`: a
/// failed write closes the connection and stops the pump.
pub fn on_written(registry: &mut Registry, conn: Handle, ok: bool) -> (r: Pump)
    requires
        old(registry).wf(),
    ensures
        final(registry).wf(),
        final(registry).session_count() == old(registry).session_count(),
        ok ==> final(registry)@ == old(registry)@ && r == Pump::Continue,
        !ok ==> final(registry)@ == old(registry)@.close(conn) && r == Pump::Stop,
{
    if ok {
        Pump::Continue
    } else {
        registry.close_connection(conn);
        Pump::Stop
    }
}

} // verus!
