//! The session registry: the table of sessions, the open connections with
//! their delivery queues, and the operations that attach peers and relay
//! messages between them.

use vstd::prelude::*;
use vstd::set_lib::{lemma_int_range, lemma_len_subset, set_int_range};
use crate::code::{generate_access_code, SessionCode, CODE_SPACE};
use crate::message::{route, views, Destination, Message, Role};
use crate::model::{
    count_open, deliver_to_all, first_free_draw, fresh_connection, fresh_session,
    ConnectionState, Handle, RegistryView, SessionState,
};

verus! {

/// How many random codes `create_session` draws before it takes the first
/// free code instead.
pub const RANDOM_DRAWS: u32 = 16;

/// The indices of a list of codes.
pub open spec fn code_views(codes: Seq<SessionCode>) -> Seq<int> {
    codes.map_values(|c: SessionCode| c@)
}

/// The view of an optional message.
pub open spec fn opt_view(m: Option<Message>) -> Option<crate::message::MessageView> {
    match m {
        Some(x) => Some(x@),
        None => None,
    }
}

/// The view of a connection's affiliation.
pub open spec fn affiliation_view(a: Option<(SessionCode, Role)>) -> Option<(int, Role)> {
    match a {
        Some((code, role)) => Some((code@, role)),
        None => None,
    }
}

/// One open connection: its handle, its delivery queue, and the session it
/// joined.
pub struct Connection {
    handle: Handle,
    outbox: Vec<Message>,
    affiliation: Option<(SessionCode, Role)>,
}

impl View for Connection {
    type V = ConnectionState;

    closed spec fn view(&self) -> ConnectionState {
        ConnectionState {
            outbox: views(self.outbox@),
            affiliation: affiliation_view(self.affiliation),
        }
    }
}

/// One session record.
pub struct Session {
    code: SessionCode,
    sharer: Option<Handle>,
    viewers: Vec<Handle>,
    created_at: u64,
    pending_offer: Option<Message>,
}

impl View for Session {
    type V = SessionState;

    closed spec fn view(&self) -> SessionState {
        SessionState {
            sharer: self.sharer,
            viewers: self.viewers@,
            created_at: self.created_at,
            pending_offer: opt_view(self.pending_offer),
        }
    }
}

/// The registry. It owns every session record and every delivery queue; a
/// connection is known to the rest of the program by its handle alone.
pub struct Registry {
    sessions: Vec<Session>,
    connections: Vec<Connection>,
    next_id: u64,
}

spec fn has_code(s: Seq<Session>, code: int) -> bool {
    exists|i: int| 0 <= i < s.len() && (#[trigger] s[i]).code@ == code
}

spec fn code_index(s: Seq<Session>, code: int) -> int {
    choose|i: int| 0 <= i < s.len() && (#[trigger] s[i]).code@ == code
}

spec fn has_handle(c: Seq<Connection>, h: Handle) -> bool {
    exists|i: int| 0 <= i < c.len() && (#[trigger] c[i]).handle == h
}

spec fn handle_index(c: Seq<Connection>, h: Handle) -> int {
    choose|i: int| 0 <= i < c.len() && (#[trigger] c[i]).handle == h
}

spec fn sessions_view(s: Seq<Session>) -> Map<int, SessionState> {
    Map::new(|code: int| has_code(s, code), |code: int| s[code_index(s, code)]@)
}

spec fn connections_view(c: Seq<Connection>) -> Map<Handle, ConnectionState> {
    Map::new(|h: Handle| has_handle(c, h), |h: Handle| c[handle_index(c, h)]@)
}

spec fn distinct_codes(s: Seq<Session>) -> bool {
    forall|i: int, j: int|
        0 <= i < s.len() && 0 <= j < s.len() && i != j ==> (#[trigger] s[i]).code@ != (
        #[trigger] s[j]).code@
}

spec fn distinct_handles(c: Seq<Connection>) -> bool {
    forall|i: int, j: int|
        0 <= i < c.len() && 0 <= j < c.len() && i != j ==> (#[trigger] c[i]).handle != (
        #[trigger] c[j]).handle
}

proof fn lemma_code_index(s: Seq<Session>, i: int)
    requires
        distinct_codes(s),
        0 <= i < s.len(),
    ensures
        has_code(s, s[i].code@),
        code_index(s, s[i].code@) == i,
        sessions_view(s).contains_key(s[i].code@),
        sessions_view(s)[s[i].code@] == s[i]@,
{
}

proof fn lemma_handle_index(c: Seq<Connection>, i: int)
    requires
        distinct_handles(c),
        0 <= i < c.len(),
    ensures
        has_handle(c, c[i].handle),
        handle_index(c, c[i].handle) == i,
        connections_view(c).contains_key(c[i].handle),
        connections_view(c)[c[i].handle] == c[i]@,
{
}

proof fn lemma_push_connection(before: Seq<Connection>, c: Connection)
    requires
        distinct_handles(before),
        !has_handle(before, c.handle),
    ensures
        distinct_handles(before.push(c)),
        connections_view(before.push(c)) == connections_view(before).insert(c.handle, c@),
{
    let after = before.push(c);
    assert forall|i: int, j: int| 0 <= i < after.len() && 0 <= j < after.len() && i != j implies (
    #[trigger] after[i]).handle != (#[trigger] after[j]).handle by {
        if i < before.len() {
            assert(before[i].handle == after[i].handle);
        }
        if j < before.len() {
            assert(before[j].handle == after[j].handle);
        }
    }
    lemma_handle_index(after, before.len() as int);
    assert forall|k: Handle| #[trigger]
        has_handle(after, k) <==> (k == c.handle || has_handle(before, k)) by {
        if has_handle(before, k) {
            let i = handle_index(before, k);
            assert(after[i].handle == k);
        }
        if has_handle(after, k) && k != c.handle {
            let i = handle_index(after, k);
            assert(before[i].handle == k);
        }
    }
    assert forall|k: Handle| has_handle(before, k) implies #[trigger] connections_view(after)[k]
        == connections_view(before)[k] by {
        let i = handle_index(before, k);
        lemma_handle_index(after, i);
    }
    assert(connections_view(after) =~= connections_view(before).insert(c.handle, c@));
}

proof fn lemma_update_connection(before: Seq<Connection>, i: int, c: Connection)
    requires
        distinct_handles(before),
        0 <= i < before.len(),
        c.handle == before[i].handle,
    ensures
        distinct_handles(before.update(i, c)),
        connections_view(before.update(i, c)) == connections_view(before).insert(c.handle, c@),
{
    let after = before.update(i, c);
    assert forall|a: int, b: int| 0 <= a < after.len() && 0 <= b < after.len() && a != b implies (
    #[trigger] after[a]).handle != (#[trigger] after[b]).handle by {
        assert(before[a].handle == after[a].handle);
        assert(before[b].handle == after[b].handle);
    }
    assert forall|k: Handle| #[trigger] has_handle(after, k) <==> has_handle(before, k) by {
        if has_handle(before, k) {
            let j = handle_index(before, k);
            assert(after[j].handle == k);
        }
        if has_handle(after, k) {
            let j = handle_index(after, k);
            assert(before[j].handle == k);
        }
    }
    lemma_handle_index(before, i);
    lemma_handle_index(after, i);
    assert forall|k: Handle| has_handle(before, k) && k != c.handle implies #[trigger]
        connections_view(after)[k] == connections_view(before)[k] by {
        let j = handle_index(before, k);
        lemma_handle_index(before, j);
        lemma_handle_index(after, j);
    }
    assert(connections_view(after) =~= connections_view(before).insert(c.handle, c@));
}

proof fn lemma_remove_connection(before: Seq<Connection>, i: int)
    requires
        distinct_handles(before),
        0 <= i < before.len(),
    ensures
        distinct_handles(before.remove(i)),
        connections_view(before.remove(i)) == connections_view(before).remove(before[i].handle),
{
    let after = before.remove(i);
    let h = before[i].handle;
    assert forall|a: int| 0 <= a < after.len() implies #[trigger] after[a] == before[if a < i {
        a
    } else {
        a + 1
    }] by {}
    assert forall|a: int, b: int| 0 <= a < after.len() && 0 <= b < after.len() && a != b implies (
    #[trigger] after[a]).handle != (#[trigger] after[b]).handle by {
        let a2 = if a < i { a } else { a + 1 };
        let b2 = if b < i { b } else { b + 1 };
        assert(after[a] == before[a2]);
        assert(after[b] == before[b2]);
    }
    assert forall|k: Handle| #[trigger]
        has_handle(after, k) <==> (k != h && has_handle(before, k)) by {
        if has_handle(before, k) && k != h {
            let j = handle_index(before, k);
            let j2 = if j < i { j } else { j - 1 };
            assert(after[j2] == before[j]);
        }
        if has_handle(after, k) {
            let j = handle_index(after, k);
            let j2 = if j < i { j } else { j + 1 };
            assert(after[j] == before[j2]);
            assert(before[j2].handle == k);
        }
    }
    assert forall|k: Handle| has_handle(after, k) implies #[trigger] connections_view(after)[k]
        == connections_view(before)[k] by {
        let j = handle_index(after, k);
        let j2 = if j < i { j } else { j + 1 };
        assert(after[j] == before[j2]);
        lemma_handle_index(after, j);
        lemma_handle_index(before, j2);
    }
    assert(connections_view(after) =~= connections_view(before).remove(h));
}

proof fn lemma_push_session(before: Seq<Session>, x: Session)
    requires
        distinct_codes(before),
        !has_code(before, x.code@),
    ensures
        distinct_codes(before.push(x)),
        sessions_view(before.push(x)) == sessions_view(before).insert(x.code@, x@),
{
    let after = before.push(x);
    assert forall|i: int, j: int| 0 <= i < after.len() && 0 <= j < after.len() && i != j implies (
    #[trigger] after[i]).code@ != (#[trigger] after[j]).code@ by {
        if i < before.len() {
            assert(before[i].code@ == after[i].code@);
        }
        if j < before.len() {
            assert(before[j].code@ == after[j].code@);
        }
    }
    lemma_code_index(after, before.len() as int);
    assert forall|k: int| #[trigger] has_code(after, k) <==> (k == x.code@ || has_code(before, k)) by {
        if has_code(before, k) {
            let i = code_index(before, k);
            assert(after[i].code@ == k);
        }
        if has_code(after, k) && k != x.code@ {
            let i = code_index(after, k);
            assert(before[i].code@ == k);
        }
    }
    assert forall|k: int| has_code(before, k) implies #[trigger] sessions_view(after)[k]
        == sessions_view(before)[k] by {
        let i = code_index(before, k);
        lemma_code_index(after, i);
    }
    assert(sessions_view(after) =~= sessions_view(before).insert(x.code@, x@));
}

proof fn lemma_update_session(before: Seq<Session>, i: int, x: Session)
    requires
        distinct_codes(before),
        0 <= i < before.len(),
        x.code@ == before[i].code@,
    ensures
        distinct_codes(before.update(i, x)),
        sessions_view(before.update(i, x)) == sessions_view(before).insert(x.code@, x@),
{
    let after = before.update(i, x);
    assert forall|a: int, b: int| 0 <= a < after.len() && 0 <= b < after.len() && a != b implies (
    #[trigger] after[a]).code@ != (#[trigger] after[b]).code@ by {
        assert(before[a].code@ == after[a].code@);
        assert(before[b].code@ == after[b].code@);
    }
    assert forall|k: int| #[trigger] has_code(after, k) <==> has_code(before, k) by {
        if has_code(before, k) {
            let j = code_index(before, k);
            assert(after[j].code@ == k);
        }
        if has_code(after, k) {
            let j = code_index(after, k);
            assert(before[j].code@ == k);
        }
    }
    lemma_code_index(before, i);
    lemma_code_index(after, i);
    assert forall|k: int| has_code(before, k) && k != x.code@ implies #[trigger] sessions_view(
        after,
    )[k] == sessions_view(before)[k] by {
        let j = code_index(before, k);
        lemma_code_index(before, j);
        lemma_code_index(after, j);
    }
    assert(sessions_view(after) =~= sessions_view(before).insert(x.code@, x@));
}

/// A copy of a list of handles.
fn copy_handles(hs: &Vec<Handle>) -> (r: Vec<Handle>)
    ensures
        r@ == hs@,
{
    let mut r: Vec<Handle> = Vec::new();
    let mut i: usize = 0;
    while i < hs.len()
        invariant
            i <= hs@.len(),
            r@ == hs@.take(i as int),
        decreases hs@.len() - i,
    {
        r.push(hs[i]);
        assert(hs@.take(i + 1) =~= hs@.take(i as int).push(hs@[i as int]));
        i += 1;
    }
    assert(hs@.take(hs@.len() as int) =~= hs@);
    r
}

/// Delivering to a list of handles opens and closes no connection.
proof fn lemma_deliver_to_all_keeps_domain(
    conns: Map<Handle, ConnectionState>,
    tos: Seq<Handle>,
    m: crate::message::MessageView,
)
    ensures
        deliver_to_all(conns, tos, m).dom() =~= conns.dom(),
    decreases tos.len(),
{
    if tos.len() > 0 {
        lemma_deliver_to_all_keeps_domain(conns, tos.drop_last(), m);
    }
}

/// A table in which every code below `n` names a session holds at least `n`
/// sessions.
proof fn lemma_codes_below_fill_table(s: Seq<Session>, n: int)
    requires
        0 <= n,
        forall|c: int| 0 <= c < n ==> has_code(s, c),
    ensures
        n <= s.len(),
{
    let codes = s.map_values(|x: Session| x.code@);
    let below = set_int_range(0, n);
    assert forall|c: int| below.contains(c) implies codes.to_set().contains(c) by {
        assert(has_code(s, c));
        let i = code_index(s, c);
        assert(codes[i] == c);
    }
    codes.lemma_cardinality_of_set();
    lemma_int_range(0, n);
    lemma_len_subset(below, codes.to_set());
}

impl View for Registry {
    type V = RegistryView;

    closed spec fn view(&self) -> RegistryView {
        RegistryView {
            sessions: sessions_view(self.sessions@),
            connections: connections_view(self.connections@),
            issued: self.next_id as nat,
        }
    }
}

impl Registry {
    /// The registry's invariant: no code names two sessions, every code lies
    /// in the code space, no handle names two connections, and every handle
    /// in use was given out.
    pub closed spec fn wf(&self) -> bool {
        &&& distinct_codes(self.sessions@)
        &&& distinct_handles(self.connections@)
        &&& forall|i: int|
            0 <= i < self.sessions@.len() ==> (#[trigger] self.sessions@[i]).code.wf()
        &&& forall|i: int|
            0 <= i < self.connections@.len() ==> (#[trigger] self.connections@[i]).handle.id
                < self.next_id
    }

    /// How many sessions the registry holds.
    pub closed spec fn session_count(&self) -> nat {
        self.sessions@.len()
    }

    /// A registry with no session and no connection.
    pub fn new() -> (r: Registry)
        ensures
            r.wf(),
            r@ == RegistryView::empty(),
            r.session_count() == 0,
    {
        let r = Registry { sessions: Vec::new(), connections: Vec::new(), next_id: 0 };
        assert(r@.sessions =~= Map::empty());
        assert(r@.connections =~= Map::empty());
        r
    }

    /// Where the session with the given code stands, if there is one.
    fn find_session(&self, code: SessionCode) -> (r: Option<usize>)
        requires
            self.wf(),
        ensures
            r.is_some() == self@.sessions.contains_key(code@),
            r matches Some(i) ==> i < self.sessions@.len() && self.sessions@[i as int].code@
                == code@ && self@.sessions[code@] == self.sessions@[i as int]@,
    {
        let mut i: usize = 0;
        while i < self.sessions.len()
            invariant
                self.wf(),
                i <= self.sessions@.len(),
                forall|j: int| 0 <= j < i ==> (#[trigger] self.sessions@[j]).code@ != code@,
            decreases self.sessions@.len() - i,
        {
            if self.sessions[i].code.to_index() == code.to_index() {
                proof {
                    lemma_code_index(self.sessions@, i as int);
                }
                return Some(i);
            }
            i += 1;
        }
        None
    }

    /// Where the connection with the given handle stands, if it is open.
    fn find_connection(&self, h: Handle) -> (r: Option<usize>)
        requires
            self.wf(),
        ensures
            r.is_some() == self@.connections.contains_key(h),
            r matches Some(i) ==> i < self.connections@.len() && self.connections@[i as int].handle
                == h && self@.connections[h] == self.connections@[i as int]@,
    {
        let mut i: usize = 0;
        while i < self.connections.len()
            invariant
                self.wf(),
                i <= self.connections@.len(),
                forall|j: int| 0 <= j < i ==> (#[trigger] self.connections@[j]).handle != h,
            decreases self.connections@.len() - i,
        {
            if self.connections[i].handle.id == h.id {
                proof {
                    lemma_handle_index(self.connections@, i as int);
                }
                return Some(i);
            }
            i += 1;
        }
        None
    }

    /// How many sessions the registry holds.
    pub fn sessions_len(&self) -> (r: usize)
        ensures
            r == self.session_count(),
    {
        self.sessions.len()
    }

    /// Whether a session with the given code exists.
    pub fn has_session(&self, code: SessionCode) -> (r: bool)
        requires
            self.wf(),
        ensures
            r == self@.sessions.contains_key(code@),
    {
        self.find_session(code).is_some()
    }

    /// Whether the connection with the given handle is open.
    pub fn is_open(&self, h: Handle) -> (r: bool)
        requires
            self.wf(),
        ensures
            r == self@.connections.contains_key(h),
    {
        self.find_connection(h).is_some()
    }

    /// Opens a connection and gives out its handle; `None` once every handle
    /// has been given out.
    pub fn open_connection(&mut self) -> (r: Option<Handle>)
        requires
            old(self).wf(),
        ensures
            final(self).wf(),
            final(self).session_count() == old(self).session_count(),
            old(self)@.issued < u64::MAX ==> r == Some(Handle { id: old(self)@.issued as u64 })
                && final(self)@ == old(self)@.open(),
            old(self)@.issued >= u64::MAX ==> r.is_none() && final(self)@ == old(self)@,
            r matches Some(h) ==> !old(self)@.connections.contains_key(h),
    {
        if self.next_id == u64::MAX {
            return None;
        }
        let h = Handle { id: self.next_id };
        let ghost before = self.connections@;
        self.connections.push(Connection { handle: h, outbox: Vec::new(), affiliation: None });
        self.next_id = self.next_id + 1;
        proof {
            assert(!has_handle(before, h));
            assert(self.connections@[before.len() as int]@ == fresh_connection()) by {
                assert(views(Seq::<Message>::empty()) =~= Seq::empty());
            }
            lemma_push_connection(before, self.connections@[before.len() as int]);
            assert(self.connections@ =~= before.push(self.connections@[before.len() as int]));
        }
        Some(h)
    }

    /// Closes a connection: its queue is dropped and every later delivery to
    /// its handle fails. Closing a handle that is not open does nothing.
    pub fn close_connection(&mut self, h: Handle)
        requires
            old(self).wf(),
        ensures
            final(self).wf(),
            final(self).session_count() == old(self).session_count(),
            final(self)@ == old(self)@.close(h),
    {
        match self.find_connection(h) {
            Some(i) => {
                proof {
                    lemma_remove_connection(self.connections@, i as int);
                }
                let _ = self.connections.remove(i);
            },
            None => {
                assert(self@.connections.remove(h) =~= self@.connections);
            },
        }
    }

    /// Appends `msg` to the queue of connection `to`. Returns whether the
    /// connection is open; if it is not, nothing changes.
    pub fn deliver(&mut self, to: Handle, msg: Message) -> (r: bool)
        requires
            old(self).wf(),
        ensures
            final(self).wf(),
            final(self).session_count() == old(self).session_count(),
            r == old(self)@.connections.contains_key(to),
            final(self)@ == old(self)@.deliver(to, msg@),
    {
        match self.find_connection(to) {
            Some(i) => {
                let ghost before = self.connections@;
                self.connections[i].outbox.push(msg);
                proof {
                    let c = self.connections@[i as int];
                    assert(self.connections@ =~= before.update(i as int, c));
                    assert(views(c.outbox@) =~= views(before[i as int].outbox@).push(msg@));
                    lemma_update_connection(before, i as int, c);
                }
                true
            },
            None => false,
        }
    }

    /// Takes everything that waits in the queue of connection `h`, oldest
    /// first, and leaves the queue empty. A handle that is not open has
    /// nothing waiting.
    pub fn take_outbound(&mut self, h: Handle) -> (r: Vec<Message>)
        requires
            old(self).wf(),
        ensures
            final(self).wf(),
            final(self).session_count() == old(self).session_count(),
            final(self)@ == old(self)@.drain(h),
            old(self)@.connections.contains_key(h) ==> views(r@) == old(self)@.connections[h].outbox,
            !old(self)@.connections.contains_key(h) ==> r@.len() == 0,
    {
        let mut out: Vec<Message> = Vec::new();
        match self.find_connection(h) {
            Some(i) => {
                let ghost before = self.connections@;
                core::mem::swap(&mut self.connections[i].outbox, &mut out);
                proof {
                    let c = self.connections@[i as int];
                    assert(self.connections@ =~= before.update(i as int, c));
                    assert(views(c.outbox@) =~= Seq::empty());
                    lemma_update_connection(before, i as int, c);
                }
            },
            None => {},
        }
        out
    }

    /// Adds an empty session under `code`, made at time `now`, unless the
    /// code is taken. Returns whether the session was added.
    pub fn insert_session(&mut self, code: SessionCode, now: u64) -> (r: bool)
        requires
            old(self).wf(),
            code.wf(),
        ensures
            final(self).wf(),
            r == !old(self)@.sessions.contains_key(code@),
            r ==> final(self)@ == old(self)@.with_session(code@, now),
            r ==> final(self).session_count() == old(self).session_count() + 1,
            !r ==> final(self)@ == old(self)@,
            !r ==> final(self).session_count() == old(self).session_count(),
    {
        if self.find_session(code).is_some() {
            return false;
        }
        let ghost before = self.sessions@;
        self.sessions.push(
            Session { code, sharer: None, viewers: Vec::new(), created_at: now, pending_offer: None },
        );
        proof {
            let x = self.sessions@[before.len() as int];
            assert(x@ == fresh_session(now));
            assert(self.sessions@ =~= before.push(x));
            lemma_push_session(before, x);
        }
        true
    }

    /// Makes `h` the sharer of session `code`, in place of any sharer before
    /// it. Returns whether the session exists; if not, nothing changes.
    pub fn attach_sharer(&mut self, code: SessionCode, h: Handle) -> (r: bool)
        requires
            old(self).wf(),
        ensures
            final(self).wf(),
            final(self).session_count() == old(self).session_count(),
            r == old(self)@.sessions.contains_key(code@),
            final(self)@ == old(self)@.attach_sharer(code@, h),
    {
        match self.find_session(code) {
            Some(i) => {
                let ghost before = self.sessions@;
                self.sessions[i].sharer = Some(h);
                proof {
                    let x = self.sessions@[i as int];
                    assert(self.sessions@ =~= before.update(i as int, x));
                    lemma_update_session(before, i as int, x);
                }
                true
            },
            None => false,
        }
    }

    /// Keeps `msg` as the pending offer of session `code`, in place of any
    /// earlier one, whether or not a viewer has joined. Returns whether it
    /// was kept: the session exists and `msg` is an offer.
    pub fn store_pending_offer(&mut self, code: SessionCode, msg: Message) -> (r: bool)
        requires
            old(self).wf(),
        ensures
            final(self).wf(),
            final(self).session_count() == old(self).session_count(),
            r == old(self)@.keeps_offer(code@, msg@),
            final(self)@ == old(self)@.store_pending_offer(code@, msg@),
    {
        if !(msg.kind() == crate::message::MessageKind::Offer) {
            return false;
        }
        match self.find_session(code) {
            Some(i) => {
                let ghost before = self.sessions@;
                self.sessions[i].pending_offer = Some(msg);
                proof {
                    let x = self.sessions@[i as int];
                    assert(self.sessions@ =~= before.update(i as int, x));
                    lemma_update_session(before, i as int, x);
                }
                true
            },
            None => false,
        }
    }

    /// Delivers `msg` to the sharer of session `code`. Returns whether it
    /// was delivered: the session exists, has a sharer, and the sharer's
    /// connection is open. Otherwise nothing changes.
    pub fn relay_to_sharer(&mut self, code: SessionCode, msg: Message) -> (r: bool)
        requires
            old(self).wf(),
        ensures
            final(self).wf(),
            final(self).session_count() == old(self).session_count(),
            r == old(self)@.sharer_reachable(code@),
            final(self)@ == old(self)@.relay_to_sharer(code@, msg@),
    {
        match self.find_session(code) {
            Some(i) => match self.sessions[i].sharer {
                Some(sharer) => self.deliver(sharer, msg),
                None => false,
            },
            None => false,
        }
    }

    /// Delivers a copy of `msg` to every viewer of session `code`, in the
    /// order they joined. A viewer whose connection is closed is passed
    /// over. Returns the number of deliveries made.
    pub fn relay_to_viewers(&mut self, code: SessionCode, msg: &Message) -> (r: usize)
        requires
            old(self).wf(),
        ensures
            final(self).wf(),
            final(self).session_count() == old(self).session_count(),
            r == old(self)@.viewers_reached(code@),
            final(self)@ == old(self)@.relay_to_viewers(code@, msg@),
    {
        let targets = match self.find_session(code) {
            Some(i) => copy_handles(&self.sessions[i].viewers),
            None => {
                return 0;
            },
        };
        let ghost start = self@;
        let mut k: usize = 0;
        let mut count: usize = 0;
        while k < targets.len()
            invariant
                self.wf(),
                self.session_count() == old(self).session_count(),
                k <= targets@.len(),
                count <= k,
                start == old(self)@,
                self@.sessions == start.sessions,
                self@.issued == start.issued,
                self@.connections == deliver_to_all(start.connections, targets@.take(k as int), msg@),
                count == count_open(start.connections, targets@.take(k as int)),
            decreases targets@.len() - k,
        {
            let to = targets[k];
            proof {
                lemma_deliver_to_all_keeps_domain(start.connections, targets@.take(k as int), msg@);
                assert(targets@.take(k + 1).drop_last() =~= targets@.take(k as int));
            }
            let ok = self.deliver(to, msg.clone());
            if ok {
                count += 1;
            }
            k += 1;
        }
        assert(targets@.take(targets@.len() as int) =~= targets@);
        count
    }

    /// Adds `h` to the viewers of session `code`. The sharer, if there is
    /// one, is told that a viewer joined, and the new viewer is handed the
    /// pending offer, if one is kept. Returns whether the session exists; if
    /// not, nothing changes.
    pub fn attach_viewer(&mut self, code: SessionCode, h: Handle) -> (r: bool)
        requires
            old(self).wf(),
        ensures
            final(self).wf(),
            final(self).session_count() == old(self).session_count(),
            r == old(self)@.sessions.contains_key(code@),
            final(self)@ == old(self)@.attach_viewer(code@, h),
    {
        let i = match self.find_session(code) {
            Some(i) => i,
            None => {
                return false;
            },
        };
        let sharer = self.sessions[i].sharer;
        let offer = match &self.sessions[i].pending_offer {
            Some(m) => Some(m.clone()),
            None => None,
        };
        let ghost before = self.sessions@;
        self.sessions[i].viewers.push(h);
        proof {
            let x = self.sessions@[i as int];
            assert(self.sessions@ =~= before.update(i as int, x));
            lemma_update_session(before, i as int, x);
        }
        match sharer {
            Some(to) => {
                let text = self.sessions_code_text(code);
                let _ = self.deliver(to, Message::ViewerJoined { code: text });
            },
            None => {},
        }
        match offer {
            Some(m) => {
                let _ = self.deliver(h, m);
            },
            None => {},
        }
        true
    }

    /// The text of a code that names a session.
    fn sessions_code_text(&self, code: SessionCode) -> (r: String)
        requires
            self.wf(),
            self@.sessions.contains_key(code@),
        ensures
            r@ == crate::code::code_text(code@),
    {
        proof {
            let i = code_index(self.sessions@, code@);
            assert(self.sessions@[i].code.wf());
        }
        code.to_text()
    }

    /// Records on connection `h` the session and role it joined.
    fn affiliate(&mut self, h: Handle, code: SessionCode, role: Role)
        requires
            old(self).wf(),
        ensures
            final(self).wf(),
            final(self).session_count() == old(self).session_count(),
            final(self)@ == old(self)@.affiliate(h, code@, role),
    {
        match self.find_connection(h) {
            Some(i) => {
                let ghost before = self.connections@;
                self.connections[i].affiliation = Some((code, role));
                proof {
                    let c = self.connections@[i as int];
                    assert(self.connections@ =~= before.update(i as int, c));
                    lemma_update_connection(before, i as int, c);
                }
            },
            None => {},
        }
    }

    /// The session and role that connection `h` joined, if it is open and
    /// has joined one.
    pub fn affiliation(&self, h: Handle) -> (r: Option<(SessionCode, Role)>)
        requires
            self.wf(),
        ensures
            self@.connections.contains_key(h) ==> affiliation_view(r)
                == self@.connections[h].affiliation,
            !self@.connections.contains_key(h) ==> r.is_none(),
    {
        match self.find_connection(h) {
            Some(i) => self.connections[i].affiliation,
            None => None,
        }
    }

    /// Joins connection `from` to the existing session `code` in `role`:
    /// attaches it, records the affiliation, and acknowledges on its own
    /// queue.
    fn join(&mut self, from: Handle, code: SessionCode, role: Role)
        requires
            old(self).wf(),
            old(self)@.sessions.contains_key(code@),
        ensures
            final(self).wf(),
            final(self).session_count() == old(self).session_count(),
            final(self)@ == old(self)@.join(from, code@, role),
    {
        let text = self.sessions_code_text(code);
        match role {
            Role::Sharer => {
                let _ = self.attach_sharer(code, from);
            },
            Role::Viewer => {
                let _ = self.attach_viewer(code, from);
            },
        }
        self.affiliate(from, code, role);
        let _ = self.deliver(from, Message::Joined { code: text, role });
    }

    /// Relays `msg`, sent by a peer in `role`, within session `code`, by
    /// the routing table. An offer is first kept as the session's pending
    /// offer.
    pub fn relay(&mut self, code: SessionCode, role: Role, msg: Message)
        requires
            old(self).wf(),
        ensures
            final(self).wf(),
            final(self).session_count() == old(self).session_count(),
            final(self)@ == old(self)@.relay(code@, role, msg@),
    {
        match route(msg.kind(), role) {
            Destination::Viewers => {
                let _ = self.store_pending_offer(code, msg.clone());
                let _ = self.relay_to_viewers(code, &msg);
            },
            Destination::Sharer => {
                let _ = self.relay_to_sharer(code, msg);
            },
            Destination::Nobody => {},
        }
    }

    /// Handles one message that arrived on connection `from`.
    ///
    /// A join attaches the connection to the session its code names and
    /// acknowledges; where no such session exists the connection gets an
    /// error and stays as it was. Any other message is relayed by the
    /// routing table under the role the connection joined with; it is
    /// dropped if the connection has not joined or the code names no
    /// session. A message on a connection that is not open is dropped.
    pub fn dispatch(&mut self, from: Handle, msg: Message)
        requires
            old(self).wf(),
        ensures
            final(self).wf(),
            final(self).session_count() == old(self).session_count(),
            final(self)@ == old(self)@.dispatch(from, msg@),
    {
        if !self.is_open(from) {
            return ;
        }
        match &msg {
            Message::Join { code, role } => {
                let role: Role = *role;
                match SessionCode::from_text(code.as_str()) {
                    Some(c) => {
                        if self.has_session(c) {
                            self.join(from, c, role);
                            return ;
                        }
                    },
                    None => {},
                }
                let text = "Session not found".to_owned();
                let _ = self.deliver(from, Message::Error { message: text });
            },
            _ => {
                let sender = self.affiliation(from);
                let code = match msg.code() {
                    Some(text) => SessionCode::from_text(text.as_str()),
                    None => None,
                };
                match (sender, code) {
                    (Some((_, role)), Some(c)) => {
                        self.relay(c, role, msg);
                    },
                    _ => {},
                }
            },
        }
    }

    /// The first code, in the order of the enumeration, that names no
    /// session.
    pub fn first_free_code(&self) -> (r: SessionCode)
        requires
            self.wf(),
            self.session_count() < CODE_SPACE,
        ensures
            r.wf(),
            self@.is_least_free(r@),
    {
        let mut i: u32 = 0;
        loop
            invariant
                self.wf(),
                self.session_count() < CODE_SPACE,
                i < CODE_SPACE,
                forall|c: int| 0 <= c < i ==> has_code(self.sessions@, c),
                forall|c: int| 0 <= c < i ==> self@.sessions.contains_key(c),
            decreases CODE_SPACE - i,
        {
            let code = SessionCode::from_index(i).unwrap();
            if !self.has_session(code) {
                return code;
            }
            proof {
                assert forall|c: int| 0 <= c < i + 1 implies has_code(self.sessions@, c) by {
                    if c == i {
                        assert(self@.sessions.contains_key(c));
                    }
                }
                lemma_codes_below_fill_table(self.sessions@, i + 1);
            }
            i += 1;
        }
    }

    /// Makes a session under the first of the given codes that no session
    /// has, and returns that code; where all of them are taken, under the
    /// first free code of the enumeration.
    pub fn create_session_with(&mut self, draws: &Vec<SessionCode>, now: u64) -> (code:
        SessionCode)
        requires
            old(self).wf(),
            old(self).session_count() < CODE_SPACE,
            forall|i: int| 0 <= i < draws@.len() ==> (#[trigger] draws@[i]).wf(),
        ensures
            final(self).wf(),
            code.wf(),
            match first_free_draw(old(self)@.sessions, code_views(draws@)) {
                Some(c) => code@ == c,
                None => old(self)@.is_least_free(code@),
            },
            !old(self)@.sessions.contains_key(code@),
            final(self)@ == old(self)@.with_session(code@, now),
            final(self).session_count() == old(self).session_count() + 1,
    {
        let ghost all = code_views(draws@);
        let mut i: usize = 0;
        assert(all.skip(0) =~= all);
        while i < draws.len()
            invariant
                self.wf(),
                self@ == old(self)@,
                self.session_count() == old(self).session_count(),
                all == code_views(draws@),
                i <= draws@.len(),
                forall|k: int| 0 <= k < draws@.len() ==> (#[trigger] draws@[k]).wf(),
                first_free_draw(self@.sessions, all) == first_free_draw(
                    self@.sessions,
                    all.skip(i as int),
                ),
            decreases draws@.len() - i,
        {
            let candidate = draws[i];
            assert(all.skip(i as int)[0] == candidate@);
            assert(all.skip(i as int).skip(1) =~= all.skip(i + 1));
            if self.insert_session(candidate, now) {
                return candidate;
            }
            i += 1;
        }
        let code = self.first_free_code();
        let _ = self.insert_session(code, now);
        code
    }

    /// When session `code` was made, if it exists.
    pub fn created_at(&self, code: SessionCode) -> (r: Option<u64>)
        requires
            self.wf(),
        ensures
            r.is_some() == self@.sessions.contains_key(code@),
            r matches Some(at) ==> at == self@.sessions[code@].created_at,
    {
        match self.find_session(code) {
            Some(i) => Some(self.sessions[i].created_at),
            None => None,
        }
    }

    /// The sharer of session `code`, if the session exists and has one.
    pub fn sharer_of(&self, code: SessionCode) -> (r: Option<Handle>)
        requires
            self.wf(),
        ensures
            self@.sessions.contains_key(code@) ==> r == self@.sessions[code@].sharer,
            !self@.sessions.contains_key(code@) ==> r.is_none(),
    {
        match self.find_session(code) {
            Some(i) => self.sessions[i].sharer,
            None => None,
        }
    }

    /// The viewers of session `code` in the order they joined; none where
    /// the session does not exist.
    pub fn viewers_of(&self, code: SessionCode) -> (r: Vec<Handle>)
        requires
            self.wf(),
        ensures
            self@.sessions.contains_key(code@) ==> r@ == self@.sessions[code@].viewers,
            !self@.sessions.contains_key(code@) ==> r@.len() == 0,
    {
        match self.find_session(code) {
            Some(i) => copy_handles(&self.sessions[i].viewers),
            None => Vec::new(),
        }
    }

    /// Whether session `code` exists and keeps a pending offer.
    pub fn has_pending_offer(&self, code: SessionCode) -> (r: bool)
        requires
            self.wf(),
        ensures
            r == (self@.sessions.contains_key(code@)
                && self@.sessions[code@].pending_offer.is_some()),
    {
        match self.find_session(code) {
            Some(i) => self.sessions[i].pending_offer.is_some(),
            None => false,
        }
    }

    /// Makes a session under a code that no session has, and returns the
    /// code. The code is drawn at random and drawn again if it is taken;
    /// after a few taken draws the first free code of the enumeration is
    /// used, so that a session is always made.
    pub fn create_session(&mut self, now: u64) -> (code: SessionCode)
        requires
            old(self).wf(),
            old(self).session_count() < CODE_SPACE,
        ensures
            final(self).wf(),
            code.wf(),
            !old(self)@.sessions.contains_key(code@),
            final(self)@ == old(self)@.with_session(code@, now),
            final(self).session_count() == old(self).session_count() + 1,
    {
        let mut draws: u32 = 0;
        while draws < RANDOM_DRAWS
            invariant
                self.wf(),
                self@ == old(self)@,
                self.session_count() == old(self).session_count(),
                draws <= RANDOM_DRAWS,
            decreases RANDOM_DRAWS - draws,
        {
            let text = generate_access_code();
            match SessionCode::from_text(text.as_str()) {
                Some(code) => {
                    if self.insert_session(code, now) {
                        return code;
                    }
                },
                None => {},
            }
            draws += 1;
        }
        let code = self.first_free_code();
        let _ = self.insert_session(code, now);
        code
    }
}

} // verus!
