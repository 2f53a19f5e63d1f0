//! Serving the stream over HTTP: who may fetch it, which files may be
//! fetched, and who is watching.

use vstd::prelude::*;
use vstd::string::*;
use crate::text::{
    chars_of, decimal, decimal_text, ends_with, find_char, find_one, matches_at, opt_text,
    same_text, slice, starts_with, string_of, strip_leading, strip_start, trim, trimmed,
};

verus! {

/// The port the stream is served on.
pub const STREAM_PORT: u16 = 3000;

/// How long after its last request a viewer still counts as watching, in
/// nanoseconds: thirty seconds.
pub const VIEWER_TIMEOUT: u128 = 30_000_000_000;

/// How many seconds pass between two removals of viewers that left.
pub const PRUNE_INTERVAL_SECS: u64 = 10;

/// The access code that a request presents: the one in its header, or,
/// where the header has none, the one in its query.
pub open spec fn presented_code(
    header: Option<Seq<char>>,
    query: Option<Seq<char>>,
) -> Option<Seq<char>> {
    match header {
        Some(h) => Some(h),
        None => query,
    }
}

/// Whether a request may fetch the stream: it presents the stream's access
/// code, letter for letter.
pub open spec fn may_fetch(
    access_code: Seq<char>,
    header: Option<Seq<char>>,
    query: Option<Seq<char>>,
) -> bool {
    presented_code(header, query) == Some(access_code)
}

/// Whether a request that presents `header` and `query` may fetch the
/// stream that is protected by `access_code`.
pub fn access_granted(access_code: &str, header: Option<&str>, query: Option<&str>) -> (r: bool)
    ensures
        r == may_fetch(access_code@, opt_text(header), opt_text(query)),
{
    let presented = match header {
        Some(h) => Some(h),
        None => query,
    };
    match presented {
        Some(code) => same_text(code, access_code),
        None => false,
    }
}

/// The part of a forwarding header that names the client: what stands
/// before the first comma.
pub open spec fn first_hop(forwarded: Seq<char>) -> Seq<char> {
    match find_char(forwarded, ',') {
        Some(i) => forwarded.take(i),
        None => forwarded,
    }
}

/// The address a viewer is known by: the first address of the forwarding
/// header, without the white space around it; without that header, the
/// address a proxy gave; without either, `unknown`.
pub open spec fn client_address(
    forwarded: Option<Seq<char>>,
    real_ip: Option<Seq<char>>,
) -> Seq<char> {
    match forwarded {
        Some(f) => trimmed(first_hop(f)),
        None => match real_ip {
            Some(ip) => ip,
            None => "unknown"@,
        },
    }
}

/// The address a viewer is known by, from the request's `x-forwarded-for`
/// and `x-real-ip` headers.
pub fn get_client_ip(forwarded: Option<&str>, real_ip: Option<&str>) -> (r: String)
    ensures
        r@ == client_address(opt_text(forwarded), opt_text(real_ip)),
{
    match forwarded {
        Some(f) => {
            let f = chars_of(f);
            let hop = match find_one(&f, ',') {
                Some(i) => {
                    let hop = slice(&f, 0, i);
                    assert(hop@ =~= f@.take(i as int));
                    hop
                },
                None => f,
            };
            string_of(&trim(&hop))
        },
        None => match real_ip {
            Some(ip) => ip.to_owned(),
            None => "unknown".to_owned(),
        },
    }
}

/// What to do with a request.
#[derive(Clone, Copy, Debug, PartialEq, Eq, Structural)]
pub enum Verdict {
    /// The request names nothing that is served.
    NotFound,
    /// The request does not present the access code.
    Forbidden,
    /// The file may be sent.
    Serve,
}

/// What became of reading the file to serve.
#[derive(Clone, Copy, Debug, PartialEq, Eq, Structural)]
pub enum FileOutcome {
    Missing,
    Unreadable,
    Read,
}

/// The name of the file that a request path asks for: the path without the
/// slashes at its start.
pub open spec fn requested_name(path: Seq<char>) -> Seq<char> {
    strip_leading(path, '/')
}

/// Whether a file name is that of a stream segment.
pub open spec fn is_segment_name(name: Seq<char>) -> bool {
    starts_with(name, "segment_"@) && ends_with(name, ".ts"@)
}

/// The verdict on a request for the file `name`: only segments are served,
/// and only to requests that present the access code.
pub open spec fn segment_verdict_of(
    name: Seq<char>,
    access_code: Seq<char>,
    header: Option<Seq<char>>,
    query: Option<Seq<char>>,
) -> Verdict {
    if !is_segment_name(name) {
        Verdict::NotFound
    } else if !may_fetch(access_code, header, query) {
        Verdict::Forbidden
    } else {
        Verdict::Serve
    }
}

/// The HTTP status that answers a request.
pub open spec fn status_of(verdict: Verdict, file: FileOutcome) -> u16 {
    match verdict {
        Verdict::NotFound => 404,
        Verdict::Forbidden => 403,
        Verdict::Serve => match file {
            FileOutcome::Missing => 404,
            FileOutcome::Unreadable => 500,
            FileOutcome::Read => 200,
        },
    }
}

/// The name of the file that a request path asks for.
pub fn request_name(path: &str) -> (r: String)
    ensures
        r@ == requested_name(path@),
{
    string_of(&strip_start(&chars_of(path), '/'))
}

/// Whether a file name is that of a stream segment: `segment_`, anything,
/// `.ts`.
pub fn is_segment(name: &str) -> (r: bool)
    ensures
        r == is_segment_name(name@),
{
    let name = chars_of(name);
    let head = chars_of("segment_");
    let tail = chars_of(".ts");
    if !matches_at(&name, &head, 0) {
        return false;
    }
    if name.len() < tail.len() {
        return false;
    }
    matches_at(&name, &tail, name.len() - tail.len())
}

/// The verdict on a request for the playlist.
pub fn playlist_verdict(access_code: &str, header: Option<&str>, query: Option<&str>) -> (r:
    Verdict)
    ensures
        r == (if may_fetch(access_code@, opt_text(header), opt_text(query)) {
            Verdict::Serve
        } else {
            Verdict::Forbidden
        }),
{
    if access_granted(access_code, header, query) {
        Verdict::Serve
    } else {
        Verdict::Forbidden
    }
}

/// The verdict on a request for the file `name`.
pub fn segment_verdict(
    name: &str,
    access_code: &str,
    header: Option<&str>,
    query: Option<&str>,
) -> (r: Verdict)
    ensures
        r == segment_verdict_of(name@, access_code@, opt_text(header), opt_text(query)),
{
    if !is_segment(name) {
        Verdict::NotFound
    } else if !access_granted(access_code, header, query) {
        Verdict::Forbidden
    } else {
        Verdict::Serve
    }
}

/// The name of the segment file with the given number and ending, such as
/// `012.ts`.
pub fn segment_file_name(suffix: &str) -> (r: String)
    ensures
        r@ == "segment_"@ + suffix@,
{
    let mut r = "segment_".to_owned();
    r.append(suffix);
    r
}

/// The HTTP status that answers a request.
pub fn status_code(verdict: Verdict, file: FileOutcome) -> (r: u16)
    ensures
        r == status_of(verdict, file),
{
    match verdict {
        Verdict::NotFound => 404,
        Verdict::Forbidden => 403,
        Verdict::Serve => match file {
            FileOutcome::Missing => 404,
            FileOutcome::Unreadable => 500,
            FileOutcome::Read => 200,
        },
    }
}

/// The content type of the playlist.
pub fn playlist_content_type() -> (r: String)
    ensures
        r@ == "application/vnd.apple.mpegurl"@,
{
    "application/vnd.apple.mpegurl".to_owned()
}

/// The content type of a segment.
pub fn segment_content_type() -> (r: String)
    ensures
        r@ == "video/mp2t"@,
{
    "video/mp2t".to_owned()
}

/// The address the stream is served at on this machine.
pub fn local_url(port: u16) -> (r: String)
    ensures
        r@ == "http://localhost:"@ + decimal_text(port as nat),
{
    let mut r = "http://localhost:".to_owned();
    let number = decimal(port as u64);
    r.append(number.as_str());
    r
}

/// The socket address the server listens on.
pub fn bind_address(port: u16) -> (r: String)
    ensures
        r@ == "127.0.0.1:"@ + decimal_text(port as nat),
{
    let mut r = "127.0.0.1:".to_owned();
    let number = decimal(port as u64);
    r.append(number.as_str());
    r
}

/// One viewer: the address it is known by and when it last fetched part of
/// the stream, in nanoseconds since the epoch.
pub struct Viewer {
    address: String,
    last_seen: u128,
}

/// What is known of a viewer.
pub ghost struct ViewerView {
    pub address: Seq<char>,
    pub last_seen: u128,
}

impl View for Viewer {
    type V = ViewerView;

    closed spec fn view(&self) -> ViewerView {
        ViewerView { address: self.address@, last_seen: self.last_seen }
    }
}

/// The viewers of the stream. No address stands in it twice.
pub struct ViewerTable {
    viewers: Vec<Viewer>,
}

/// Whether a viewer last seen at `last_seen` still counts as watching at
/// `now`: it was seen less than thirty seconds ago, and not in the future.
pub open spec fn is_watching(last_seen: u128, now: u128) -> bool {
    last_seen <= now && now - last_seen < VIEWER_TIMEOUT
}

/// Whether some viewer has the given address.
pub open spec fn knows(viewers: Seq<ViewerView>, address: Seq<char>) -> bool {
    exists|i: int| 0 <= i < viewers.len() && (#[trigger] viewers[i]).address == address
}

/// The place of the viewer with the given address.
pub open spec fn place_of(viewers: Seq<ViewerView>, address: Seq<char>) -> int {
    choose|i: int| 0 <= i < viewers.len() && (#[trigger] viewers[i]).address == address
}

/// Whether no address stands in the list twice.
pub open spec fn distinct_addresses(viewers: Seq<ViewerView>) -> bool {
    forall|i: int, j: int|
        0 <= i < viewers.len() && 0 <= j < viewers.len() && i != j ==> (
        #[trigger] viewers[i]).address != (#[trigger] viewers[j]).address
}

/// The viewers after a request from `address` at `now`: a known viewer is
/// seen again, a new one joins the list.
pub open spec fn after_request(viewers: Seq<ViewerView>, address: Seq<char>, now: u128) -> Seq<
    ViewerView,
> {
    if knows(viewers, address) {
        viewers.update(place_of(viewers, address), ViewerView { address, last_seen: now })
    } else {
        viewers.push(ViewerView { address, last_seen: now })
    }
}

/// The viewers that still count as watching at `now`, in their order.
pub open spec fn watching(viewers: Seq<ViewerView>, now: u128) -> Seq<ViewerView>
    decreases viewers.len(),
{
    if viewers.len() == 0 {
        Seq::empty()
    } else if is_watching(viewers.last().last_seen, now) {
        watching(viewers.drop_last(), now).push(viewers.last())
    } else {
        watching(viewers.drop_last(), now)
    }
}

/// Those who still count as watching are among those who were known.
pub proof fn lemma_watching_is_part(viewers: Seq<ViewerView>, now: u128)
    ensures
        watching(viewers, now).len() <= viewers.len(),
        forall|i: int|
            0 <= i < watching(viewers, now).len() ==> knows(
                viewers,
                (#[trigger] watching(viewers, now)[i]).address,
            ) && is_watching(watching(viewers, now)[i].last_seen, now),
        distinct_addresses(viewers) ==> distinct_addresses(watching(viewers, now)),
    decreases viewers.len(),
{
    if viewers.len() > 0 {
        let front = viewers.drop_last();
        lemma_watching_is_part(front, now);
        assert forall|i: int| 0 <= i < watching(viewers, now).len() implies knows(
            viewers,
            (#[trigger] watching(viewers, now)[i]).address,
        ) && is_watching(watching(viewers, now)[i].last_seen, now) by {
            if i < watching(front, now).len() {
                let a = watching(front, now)[i].address;
                assert(knows(front, a));
                let k = place_of(front, a);
                assert(viewers[k].address == a);
            } else {
                assert(viewers[viewers.len() - 1].address == viewers.last().address);
            }
        }
        if distinct_addresses(viewers) {
            assert(distinct_addresses(front)) by {
                assert forall|i: int, j: int|
                    0 <= i < front.len() && 0 <= j < front.len() && i != j implies (
                #[trigger] front[i]).address != (#[trigger] front[j]).address by {
                    assert(front[i] == viewers[i] && front[j] == viewers[j]);
                }
            }
            let w = watching(viewers, now);
            assert forall|i: int, j: int| 0 <= i < w.len() && 0 <= j < w.len() && i != j implies (
            #[trigger] w[i]).address != (#[trigger] w[j]).address by {
                let wf = watching(front, now);
                if i >= wf.len() || j >= wf.len() {
                    let inner = if i < wf.len() { i } else { j };
                    let a = wf[inner].address;
                    assert(knows(front, a));
                    let k = place_of(front, a);
                    assert(viewers[k].address == a);
                    assert(viewers[viewers.len() - 1].address == viewers.last().address);
                }
            }
        }
    }
}

impl View for ViewerTable {
    type V = Seq<ViewerView>;

    closed spec fn view(&self) -> Seq<ViewerView> {
        self.viewers@.map_values(|v: Viewer| v@)
    }
}

impl ViewerTable {
    /// The table's invariant: no address stands in it twice.
    pub open spec fn wf(&self) -> bool {
        distinct_addresses(self@)
    }

    /// A table without viewers.
    pub fn new() -> (r: Self)
        ensures
            r.wf(),
            r@.len() == 0,
    {
        ViewerTable { viewers: Vec::new() }
    }

    /// How many viewers are known.
    pub fn count(&self) -> (r: usize)
        ensures
            r == self@.len(),
    {
        self.viewers.len()
    }

    /// Records a request from `address` at time `now`, and returns how many
    /// viewers are known then.
    pub fn track(&mut self, address: String, now: u128) -> (r: usize)
        requires
            old(self).wf(),
        ensures
            final(self).wf(),
            final(self)@ == after_request(old(self)@, address@, now),
            r == final(self)@.len(),
    {
        let mut i: usize = 0;
        while i < self.viewers.len()
            invariant
                *self == *old(self),
                self.wf(),
                i <= self.viewers@.len(),
                forall|j: int| 0 <= j < i ==> (#[trigger] self@[j]).address != address@,
            decreases self.viewers@.len() - i,
        {
            if self.viewers[i].address == address {
                assert(self@[i as int].address == address@);
                assert(place_of(self@, address@) == i);
                self.viewers[i].last_seen = now;
                assert(self@ =~= old(self)@.update(
                    i as int,
                    ViewerView { address: address@, last_seen: now },
                ));
                assert forall|a: int, b: int|
                    0 <= a < self@.len() && 0 <= b < self@.len() && a != b implies (
                #[trigger] self@[a]).address != (#[trigger] self@[b]).address by {
                    assert(self@[a].address == old(self)@[a].address);
                    assert(self@[b].address == old(self)@[b].address);
                }
                return self.viewers.len();
            }
            i += 1;
        }
        let ghost added = ViewerView { address: address@, last_seen: now };
        self.viewers.push(Viewer { address, last_seen: now });
        assert(self@ =~= old(self)@.push(added));
        assert(!knows(old(self)@, address@));
        assert forall|a: int, b: int|
            0 <= a < self@.len() && 0 <= b < self@.len() && a != b implies (
        #[trigger] self@[a]).address != (#[trigger] self@[b]).address by {
            if a < old(self)@.len() {
                assert(self@[a] == old(self)@[a]);
            }
            if b < old(self)@.len() {
                assert(self@[b] == old(self)@[b]);
            }
        }
        self.viewers.len()
    }

    /// Removes the viewers that no longer count as watching at `now`, and
    /// returns how many were removed.
    pub fn prune(&mut self, now: u128) -> (r: usize)
        requires
            old(self).wf(),
        ensures
            final(self).wf(),
            final(self)@ == watching(old(self)@, now),
            r == old(self)@.len() - final(self)@.len(),
    {
        let ghost all = self@;
        let ghost mut seen: int = 0;
        let mut removed: usize = 0;
        let mut i: usize = 0;
        let total = self.viewers.len();
        assert(all.len() == total);
        assert(all.skip(0) =~= all);
        while i < self.viewers.len()
            invariant
                all == old(self)@,
                all.len() <= usize::MAX,
                0 <= seen <= all.len(),
                i <= self.viewers@.len(),
                i == watching(all.take(seen), now).len(),
                self@ == watching(all.take(seen), now) + all.skip(seen),
                removed == seen - i,
            decreases all.len() - seen,
        {
            assert(self@[i as int] == all[seen]);
            assert(all.take(seen + 1).drop_last() =~= all.take(seen));
            assert(all.take(seen + 1).last() == all[seen]);
            let ghost kept = watching(all.take(seen), now);
            let ghost before = self@;
            let last_seen = self.viewers[i].last_seen;
            if last_seen <= now && now - last_seen < VIEWER_TIMEOUT {
                assert(self@ =~= watching(all.take(seen + 1), now) + all.skip(seen + 1));
                i += 1;
            } else {
                let _ = self.viewers.remove(i);
                assert(self@ =~= before.remove(i as int));
                assert(before.remove(i as int) =~= kept + all.skip(seen + 1));
                removed += 1;
            }
            proof {
                seen = seen + 1;
                lemma_watching_is_part(all.take(seen), now);
            }
        }
        proof {
            assert(all.take(all.len() as int) =~= all);
            assert(self@ =~= watching(all, now));
            lemma_watching_is_part(all, now);
        }
        removed
    }
}

} // verus!
