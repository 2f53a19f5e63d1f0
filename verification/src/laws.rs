//! What holds of the registry whatever its state: who a relayed message
//! reaches, what a late viewer receives, and what a code that names no
//! session does. Each statement is over the registry's model, the terms in
//! which every registry operation is specified.

use vstd::prelude::*;
use crate::code::{code_text, parse_text};
use crate::message::{MessageKind, MessageView, Role};
use crate::model::{count_open, deliver_to, deliver_to_all, ConnectionState, Handle, RegistryView};

verus! {

/// How often `h` stands in `tos`.
pub open spec fn copies(tos: Seq<Handle>, h: Handle) -> nat
    decreases tos.len(),
{
    if tos.len() == 0 {
        0
    } else {
        copies(tos.drop_last(), h) + if tos.last() == h {
            1nat
        } else {
            0nat
        }
    }
}

/// The queue that holds `m` `n` times.
pub open spec fn repeated(m: MessageView, n: nat) -> Seq<MessageView> {
    Seq::new(n, |i: int| m)
}

/// A handle that does not stand in a list stands in it zero times.
pub proof fn lemma_copies_of_absent(tos: Seq<Handle>, h: Handle)
    requires
        !tos.contains(h),
    ensures
        copies(tos, h) == 0,
    decreases tos.len(),
{
    if tos.len() > 0 {
        assert(tos.last() == tos[tos.len() - 1]);
        assert forall|i: int| 0 <= i < tos.drop_last().len() implies tos.drop_last()[i] != h by {
            assert(tos.drop_last()[i] == tos[i]);
        }
        lemma_copies_of_absent(tos.drop_last(), h);
    }
}

/// A handle that stands in a list without repetitions stands in it once.
pub proof fn lemma_copies_of_present(tos: Seq<Handle>, h: Handle)
    requires
        tos.no_duplicates(),
        tos.contains(h),
    ensures
        copies(tos, h) == 1,
    decreases tos.len(),
{
    let front = tos.drop_last();
    assert forall|i: int, j: int| 0 <= i < front.len() && 0 <= j < front.len() && i != j implies front[i]
        != front[j] by {
        assert(front[i] == tos[i] && front[j] == tos[j]);
    }
    if tos.last() == h {
        assert forall|i: int| 0 <= i < front.len() implies front[i] != h by {
            assert(front[i] == tos[i]);
        }
        lemma_copies_of_absent(front, h);
    } else {
        let i = choose|i: int| 0 <= i < tos.len() && tos[i] == h;
        assert(front[i] == h);
        lemma_copies_of_present(front, h);
    }
}

/// Delivering a message to a list of handles appends it to the queue of
/// each open connection once for every time its handle stands in the list,
/// and changes nothing else: no connection is opened or closed, and no
/// affiliation changes.
pub proof fn lemma_deliver_to_all_effect(
    conns: Map<Handle, ConnectionState>,
    tos: Seq<Handle>,
    m: MessageView,
)
    ensures
        deliver_to_all(conns, tos, m).dom() == conns.dom(),
        forall|h: Handle| #[trigger]
            conns.contains_key(h) ==> deliver_to_all(conns, tos, m)[h] == (ConnectionState {
                outbox: conns[h].outbox + repeated(m, copies(tos, h)),
                affiliation: conns[h].affiliation,
            }),
    decreases tos.len(),
{
    if tos.len() == 0 {
        assert forall|h: Handle| #[trigger] conns.contains_key(h) implies conns[h].outbox
            + repeated(m, 0) == conns[h].outbox by {
            assert(conns[h].outbox + repeated(m, 0) =~= conns[h].outbox);
        }
    } else {
        let front = tos.drop_last();
        let mid = deliver_to_all(conns, front, m);
        lemma_deliver_to_all_effect(conns, front, m);
        assert(deliver_to_all(conns, tos, m).dom() =~= conns.dom());
        assert forall|h: Handle| #[trigger] conns.contains_key(h) implies deliver_to_all(
            conns,
            tos,
            m,
        )[h] == (ConnectionState {
            outbox: conns[h].outbox + repeated(m, copies(tos, h)),
            affiliation: conns[h].affiliation,
        }) by {
            assert(mid.contains_key(h));
            if tos.last() == h {
                assert((conns[h].outbox + repeated(m, copies(front, h))).push(m) =~= conns[h].outbox
                    + repeated(m, copies(tos, h)));
            }
        }
    }
}

/// When every handle of a list is an open connection, a delivery is made
/// for each.
pub proof fn lemma_count_open_all(conns: Map<Handle, ConnectionState>, tos: Seq<Handle>)
    requires
        forall|i: int| 0 <= i < tos.len() ==> conns.contains_key(#[trigger] tos[i]),
    ensures
        count_open(conns, tos) == tos.len(),
    decreases tos.len(),
{
    if tos.len() > 0 {
        assert(conns.contains_key(tos[tos.len() - 1]));
        assert forall|i: int| 0 <= i < tos.drop_last().len() implies conns.contains_key(
            #[trigger] tos.drop_last()[i],
        ) by {
            assert(tos.drop_last()[i] == tos[i]);
        }
        lemma_count_open_all(conns, tos.drop_last());
    }
}

/// A session that was just made accepts a viewer: the code names a session,
/// which is when `attach_viewer` succeeds, and the viewer is then the
/// session's only one. No sharer is needed.
pub proof fn lemma_new_session_accepts_viewer(v: RegistryView, code: int, now: u64, h: Handle)
    ensures
        v.with_session(code, now).sessions.contains_key(code),
        v.with_session(code, now).sessions[code].sharer.is_none(),
        v.with_session(code, now).attach_viewer(code, h).sessions[code].viewers == seq![h],
{
    assert(Seq::<Handle>::empty().push(h) =~= seq![h]);
}

/// A code that differs from every code in use differs from the code of the
/// session made last: two sessions made one after the other have different
/// codes.
pub proof fn lemma_successive_codes_differ(v: RegistryView, first: int, now: u64, second: int)
    requires
        !v.with_session(first, now).sessions.contains_key(second),
    ensures
        first != second,
{
}

/// Making a session keeps every session that was there, as it was.
pub proof fn lemma_new_session_keeps_others(v: RegistryView, code: int, now: u64, other: int)
    requires
        !v.sessions.contains_key(code),
        v.sessions.contains_key(other),
    ensures
        v.with_session(code, now).sessions.contains_key(other),
        v.with_session(code, now).sessions[other] == v.sessions[other],
{
}

/// A code that names no session: attaching and relaying under it change
/// nothing and report failure.
pub proof fn lemma_unknown_code_is_inert(
    v: RegistryView,
    code: int,
    h: Handle,
    role: Role,
    m: MessageView,
)
    requires
        !v.sessions.contains_key(code),
    ensures
        v.attach_sharer(code, h) == v,
        v.attach_viewer(code, h) == v,
        v.store_pending_offer(code, m) == v,
        !v.keeps_offer(code, m),
        v.relay_to_viewers(code, m) == v,
        v.viewers_reached(code) == 0,
        v.relay_to_sharer(code, m) == v,
        !v.sharer_reachable(code),
        v.relay(code, role, m) == v,
{
}

/// A join under text that names no session answers with an error on the
/// joining connection and changes nothing else; the connection joins
/// nothing.
pub proof fn lemma_join_unknown_code(v: RegistryView, from: Handle, text: Seq<char>, role: Role)
    requires
        v.connections.contains_key(from),
        parse_text(text) matches Some(code) ==> !v.sessions.contains_key(code),
    ensures
        ({
            let after = v.dispatch(from, MessageView::Join { code: text, role });
            &&& after.sessions == v.sessions
            &&& after.connections.dom() == v.connections.dom()
            &&& after.connections[from].affiliation == v.connections[from].affiliation
            &&& after.connections[from].outbox == v.connections[from].outbox.push(
                MessageView::Error { message: crate::model::session_not_found() },
            )
            &&& forall|h: Handle|
                h != from && v.connections.contains_key(h) ==> #[trigger] after.connections[h]
                    == v.connections[h]
        }),
{
    let after = v.dispatch(from, MessageView::Join { code: text, role });
    assert(after.connections.dom() =~= v.connections.dom());
}

/// What relaying to the viewers of a session does: every open connection
/// gets the message once for each time it stands among the session's
/// viewers, so a connection that is no viewer of this session gets nothing;
/// the sessions stay as they are.
pub proof fn lemma_relay_to_viewers_effect(v: RegistryView, code: int, m: MessageView)
    requires
        v.sessions.contains_key(code),
    ensures
        v.relay_to_viewers(code, m).sessions == v.sessions,
        v.relay_to_viewers(code, m).connections.dom() == v.connections.dom(),
        forall|h: Handle| #[trigger]
            v.connections.contains_key(h) ==> v.relay_to_viewers(code, m).connections[h] == (
            ConnectionState {
                outbox: v.connections[h].outbox + repeated(
                    m,
                    copies(v.sessions[code].viewers, h),
                ),
                affiliation: v.connections[h].affiliation,
            }),
        forall|h: Handle|
            v.connections.contains_key(h) && !v.sessions[code].viewers.contains(h)
                ==> #[trigger] v.relay_to_viewers(code, m).connections[h] == v.connections[h],
{
    lemma_deliver_to_all_effect(v.connections, v.sessions[code].viewers, m);
    assert forall|h: Handle|
        v.connections.contains_key(h) && !v.sessions[code].viewers.contains(
            h,
        ) implies #[trigger] v.relay_to_viewers(code, m).connections[h] == v.connections[h] by {
        lemma_copies_of_absent(v.sessions[code].viewers, h);
        assert(v.connections[h].outbox + repeated(m, 0) =~= v.connections[h].outbox);
    }
}

/// An offer sent on a joined connection becomes the session's pending offer
/// and reaches the viewers of the session its code names, and nobody else:
/// each open connection gets it once for each time it stands among those
/// viewers, payload unchanged. Other sessions are left as they are.
pub proof fn lemma_offer_reaches_viewers(v: RegistryView, from: Handle, code: int, m: MessageView)
    requires
        v.connections.contains_key(from),
        v.connections[from].affiliation.is_some(),
        m.kind() == MessageKind::Offer,
        parse_text(m.code().unwrap()) == Some(code),
        v.sessions.contains_key(code),
    ensures
        ({
            let after = v.dispatch(from, m);
            &&& after.sessions == v.sessions.insert(
                code,
                crate::model::SessionState { pending_offer: Some(m), ..v.sessions[code] },
            )
            &&& after.connections.dom() == v.connections.dom()
            &&& forall|h: Handle| #[trigger]
                v.connections.contains_key(h) ==> after.connections[h] == (ConnectionState {
                    outbox: v.connections[h].outbox + repeated(
                        m,
                        copies(v.sessions[code].viewers, h),
                    ),
                    affiliation: v.connections[h].affiliation,
                })
        }),
{
    let stored = v.store_pending_offer(code, m);
    lemma_relay_to_viewers_effect(stored, code, m);
}

/// A viewer that joins a session with a pending offer is handed that offer,
/// payload unchanged, without the sharer sending it again: it is the last
/// message to arrive in the viewer's queue, and the only one unless the
/// viewer is the session's sharer too.
pub proof fn lemma_late_viewer_gets_offer(v: RegistryView, code: int, h: Handle, offer: MessageView)
    requires
        v.sessions.contains_key(code),
        v.sessions[code].pending_offer == Some(offer),
        v.connections.contains_key(h),
    ensures
        ({
            let after = v.attach_viewer(code, h);
            let notice = MessageView::ViewerJoined { code: code_text(code) };
            &&& after.connections.contains_key(h)
            &&& after.connections[h].outbox.last() == offer
            &&& v.sessions[code].sharer != Some(h) ==> after.connections[h].outbox
                == v.connections[h].outbox.push(offer)
            &&& v.sessions[code].sharer == Some(h) ==> after.connections[h].outbox
                == v.connections[h].outbox.push(notice).push(offer)
            &&& after.sessions[code].pending_offer == Some(offer)
        }),
{
}

/// An offer that was sent before a viewer joined reaches the viewer when it
/// joins: after the offer is dispatched, a join as viewer puts the offer
/// and then the acknowledgement in the viewer's queue.
pub proof fn lemma_offer_then_join(
    v: RegistryView,
    sharer: Handle,
    viewer: Handle,
    code: int,
    offer: MessageView,
)
    requires
        v.connections.contains_key(sharer),
        v.connections.contains_key(viewer),
        sharer != viewer,
        v.connections[sharer].affiliation.is_some(),
        v.sessions.contains_key(code),
        v.sessions[code].sharer == Some(sharer),
        !v.sessions[code].viewers.contains(viewer),
        offer.kind() == MessageKind::Offer,
        parse_text(offer.code().unwrap()) == Some(code),
    ensures
        ({
            let after = v.dispatch(sharer, offer).dispatch(
                viewer,
                MessageView::Join { code: code_text(code), role: Role::Viewer },
            );
            after.connections[viewer].outbox == v.connections[viewer].outbox.push(offer).push(
                MessageView::Joined { code: code_text(code), role: Role::Viewer },
            )
        }),
{
    lemma_offer_reaches_viewers(v, sharer, code, offer);
    let sent = v.dispatch(sharer, offer);
    lemma_copies_of_absent(v.sessions[code].viewers, viewer);
    assert(v.connections[viewer].outbox + repeated(offer, 0) =~= v.connections[viewer].outbox);
    assert(sent.connections[viewer].outbox == v.connections[viewer].outbox);
    assert(sent.sessions[code].pending_offer == Some(offer));
    assert(sent.sessions[code].sharer == Some(sharer));
    crate::code::lemma_text_roundtrip_of_parsed(offer.code().unwrap());
    lemma_late_viewer_gets_offer(sent, code, viewer, offer);
}

/// A candidate from the sharer reaches the session's viewers and nobody
/// else, once for each time a connection stands among them; as many
/// deliveries are made as viewers are open. Sessions stay as they are.
pub proof fn lemma_sharer_candidate_reaches_viewers(
    v: RegistryView,
    from: Handle,
    code: int,
    m: MessageView,
)
    requires
        v.connections.contains_key(from),
        v.connections[from].affiliation matches Some((_, role)) && role == Role::Sharer,
        m.kind() == MessageKind::IceCandidate,
        parse_text(m.code().unwrap()) == Some(code),
        v.sessions.contains_key(code),
    ensures
        v.dispatch(from, m) == v.relay_to_viewers(code, m),
        v.dispatch(from, m).sessions == v.sessions,
        forall|h: Handle| #[trigger]
            v.connections.contains_key(h) ==> v.dispatch(from, m).connections[h] == (
            ConnectionState {
                outbox: v.connections[h].outbox + repeated(
                    m,
                    copies(v.sessions[code].viewers, h),
                ),
                affiliation: v.connections[h].affiliation,
            }),
        (forall|i: int|
            0 <= i < v.sessions[code].viewers.len() ==> v.connections.contains_key(
                #[trigger] v.sessions[code].viewers[i],
            )) ==> v.viewers_reached(code) == v.sessions[code].viewers.len(),
{
    lemma_relay_to_viewers_effect(v, code, m);
    if forall|i: int|
        0 <= i < v.sessions[code].viewers.len() ==> v.connections.contains_key(
            #[trigger] v.sessions[code].viewers[i],
        ) {
        lemma_count_open_all(v.connections, v.sessions[code].viewers);
    }
}

/// A candidate or an answer from a viewer reaches the sharer alone: every
/// other connection, the other viewers among them, is left as it is.
pub proof fn lemma_viewer_message_reaches_sharer_only(
    v: RegistryView,
    from: Handle,
    code: int,
    m: MessageView,
)
    requires
        v.connections.contains_key(from),
        v.connections[from].affiliation matches Some((_, role)) && role == Role::Viewer,
        m.kind() == MessageKind::IceCandidate || m.kind() == MessageKind::Answer,
        parse_text(m.code().unwrap()) == Some(code),
        v.sessions.contains_key(code),
    ensures
        v.dispatch(from, m) == v.relay_to_sharer(code, m),
        v.dispatch(from, m).sessions == v.sessions,
        v.dispatch(from, m).connections.dom() == v.connections.dom(),
        forall|h: Handle|
            v.connections.contains_key(h) && v.sessions[code].sharer != Some(h)
                ==> #[trigger] v.dispatch(from, m).connections[h] == v.connections[h],
        v.sharer_reachable(code) ==> v.dispatch(from, m).connections[v.sessions[code].sharer.unwrap()].outbox
            == v.connections[v.sessions[code].sharer.unwrap()].outbox.push(m),
{
    assert(v.relay_to_sharer(code, m).connections.dom() =~= v.connections.dom());
}

/// Once the sharer's connection is closed, a relay to the sharer reports
/// failure and changes nothing.
pub proof fn lemma_closed_sharer_is_unreachable(
    v: RegistryView,
    code: int,
    sharer: Handle,
    m: MessageView,
)
    requires
        v.sessions.contains_key(code),
        v.sessions[code].sharer == Some(sharer),
    ensures
        !v.close(sharer).sharer_reachable(code),
        v.close(sharer).relay_to_sharer(code, m) == v.close(sharer),
        v.close(sharer).sessions == v.sessions,
{
}

/// A delivery to a closed connection fails and changes nothing, and it
/// does not keep a relay from reaching the viewers that are open.
pub proof fn lemma_closed_viewer_is_passed_over(
    conns: Map<Handle, ConnectionState>,
    gone: Handle,
    m: MessageView,
)
    requires
        !conns.contains_key(gone),
    ensures
        deliver_to(conns, gone, m) == conns,
{
}

} // verus!
