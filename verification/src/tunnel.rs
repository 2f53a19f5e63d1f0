//! Finding the public address of the tunnel in what the tunnel tool prints,
//! and the order in which its two output streams are read.

use vstd::prelude::*;
use crate::text::{
    chars_of, contains, find as find_in, find_char, find_one, find_text, is_substring, slice,
    string_of, trim, trimmed,
};

verus! {

/// The scheme that the tunnel's address starts with.
pub open spec fn scheme() -> Seq<char> {
    "https://"@
}

/// The domain that the tunnel's host name ends with.
pub open spec fn tunnel_domain() -> Seq<char> {
    ".loca.lt"@
}

/// Where an address that starts `part` ends: at the first blank, or else
/// the first line feed, or else the first carriage return, or else at the
/// end of the text.
pub open spec fn address_end(part: Seq<char>) -> int {
    match find_char(part, ' ') {
        Some(i) => i,
        None => match find_char(part, '\n') {
            Some(i) => i,
            None => match find_char(part, '\r') {
                Some(i) => i,
                None => part.len() as int,
            },
        },
    }
}

/// The tunnel's address and the name of its host below the tunnel domain,
/// as a line of the tool's output gives them: the address runs from the
/// first `https://` to the next blank, the name from behind the scheme to
/// the first `.loca.lt`. A line without both gives nothing.
pub open spec fn address_on_line(line: Seq<char>) -> Option<(Seq<char>, Seq<char>)> {
    if !(is_substring(scheme(), line) && is_substring(tunnel_domain(), line)) {
        None
    } else {
        match find_text(line, scheme()) {
            None => None,
            Some(start) => {
                let part = line.skip(start);
                let url = trimmed(part.take(address_end(part)));
                match find_text(url, scheme()) {
                    None => None,
                    Some(at) => {
                        let host = url.skip(at + scheme().len());
                        match find_text(host, tunnel_domain()) {
                            None => None,
                            Some(end) => Some((url, host.take(end))),
                        }
                    },
                }
            },
        }
    }
}

/// Where an address that starts `part` ends.
fn find_address_end(part: &Vec<char>) -> (r: usize)
    ensures
        r == address_end(part@),
        r <= part@.len(),
{
    match find_one(part, ' ') {
        Some(i) => i,
        None => match find_one(part, '\n') {
            Some(i) => i,
            None => match find_one(part, '\r') {
                Some(i) => i,
                None => part.len(),
            },
        },
    }
}

/// The tunnel's address and host name on a line of the tool's output, if
/// the line holds them.
pub fn extract_url_and_domain(line: &str) -> (r: Option<(String, String)>)
    ensures
        r.is_some() == address_on_line(line@).is_some(),
        r matches Some((url, domain)) ==> address_on_line(line@) == Some((url@, domain@)),
{
    let line = chars_of(line);
    let scheme = chars_of("https://");
    let domain = chars_of(".loca.lt");
    if !(contains(&line, &scheme) && contains(&line, &domain)) {
        return None;
    }
    let start = match find_in(&line, &scheme) {
        Some(start) => start,
        None => {
            return None;
        },
    };
    let line_len = line.len();
    let part = slice(&line, start, line_len);
    assert(part@ =~= line@.skip(start as int));
    let end = find_address_end(&part);
    let cut = slice(&part, 0, end);
    assert(cut@ =~= part@.take(end as int));
    let url = trim(&cut);
    let at = match find_in(&url, &scheme) {
        Some(at) => at,
        None => {
            return None;
        },
    };
    let url_len = url.len();
    let host = slice(&url, at + scheme.len(), url_len);
    assert(host@ =~= url@.skip(at + crate::tunnel::scheme().len()));
    let stop = match find_in(&host, &domain) {
        Some(stop) => stop,
        None => {
            return None;
        },
    };
    let name = slice(&host, 0, stop);
    assert(name@ =~= host@.take(stop as int));
    Some((string_of(&url), string_of(&name)))
}

/// The output stream of the tunnel tool that is being read.
#[derive(Clone, Copy, Debug, PartialEq, Eq, Structural)]
pub enum ProbeStage {
    /// The error stream, read first: the tool mostly prints there.
    Stderr,
    /// The standard output, read if the error stream gave no address.
    Stdout,
}

/// What reading the current stream gave.
#[derive(Debug)]
pub enum ProbeEvent {
    /// One more line.
    Line(String),
    /// The stream ended, failed, or the time for it ran out.
    End,
}

/// What to do next.
#[derive(Debug)]
pub enum ProbeStep {
    /// Read on, from the given stream.
    Read(ProbeStage),
    /// The address is found.
    Found { url: String, domain: String },
    /// Neither stream gave an address.
    Failed,
}

/// How many seconds a stream is read for at most.
pub fn probe_seconds(stage: ProbeStage) -> (r: u64)
    ensures
        r == match stage {
            ProbeStage::Stderr => 8u64,
            ProbeStage::Stdout => 5u64,
        },
{
    match stage {
        ProbeStage::Stderr => 8,
        ProbeStage::Stdout => 5,
    }
}

/// One step of the search for the tunnel's address: a line that holds the
/// address ends the search, any other line is passed over; when the error
/// stream ends the standard output is read, and when that ends too the
/// search has failed.
pub fn probe_step(stage: ProbeStage, event: &ProbeEvent) -> (r: ProbeStep)
    ensures
        match *event {
            ProbeEvent::Line(line) => match address_on_line(line@) {
                Some((url, domain)) => r matches ProbeStep::Found { url: u, domain: d } && u@
                    == url && d@ == domain,
                None => r matches ProbeStep::Read(s) && s == stage,
            },
            ProbeEvent::End => match stage {
                ProbeStage::Stderr => r matches ProbeStep::Read(s) && s == ProbeStage::Stdout,
                ProbeStage::Stdout => r is Failed,
            },
        },
{
    match event {
        ProbeEvent::Line(line) => match extract_url_and_domain(line.as_str()) {
            Some((url, domain)) => ProbeStep::Found { url, domain },
            None => ProbeStep::Read(stage),
        },
        ProbeEvent::End => match stage {
            ProbeStage::Stderr => ProbeStep::Read(ProbeStage::Stdout),
            ProbeStage::Stdout => ProbeStep::Failed,
        },
    }
}

} // verus!
