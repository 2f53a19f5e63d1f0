use peerlink::code::SessionCode;
use peerlink::message::{route, Destination, Message, MessageKind, Role};
use peerlink::model::Handle;
use peerlink::registry::Registry;

fn offer(code: &str, sdp: &str) -> Message {
    Message::Offer { code: code.to_string(), sdp: sdp.to_string(), sdp_type: "offer".to_string() }
}

fn answer(code: &str, sdp: &str) -> Message {
    Message::Answer { code: code.to_string(), sdp: sdp.to_string(), sdp_type: "answer".to_string() }
}

fn candidate(code: &str, text: &str) -> Message {
    Message::IceCandidate {
        code: code.to_string(),
        candidate: text.to_string(),
        sdp_mid: Some("0".to_string()),
        sdp_m_line_index: Some(0),
    }
}

fn join(code: &str, role: Role) -> Message {
    Message::Join { code: code.to_string(), role }
}

fn is_offer(m: &Message, want_code: &str, want_sdp: &str) -> bool {
    match m {
        Message::Offer { code, sdp, sdp_type } => {
            code == want_code && sdp == want_sdp && sdp_type == "offer"
        }
        _ => false,
    }
}

fn is_joined(m: &Message, want_code: &str, want_role: Role) -> bool {
    match m {
        Message::Joined { code, role } => code == want_code && *role == want_role,
        _ => false,
    }
}

fn is_candidate(m: &Message, want_code: &str, want: &str) -> bool {
    match m {
        Message::IceCandidate { code, candidate, sdp_mid, sdp_m_line_index } => {
            code == want_code
                && candidate == want
                && sdp_mid.as_deref() == Some("0")
                && *sdp_m_line_index == Some(0)
        }
        _ => false,
    }
}

fn connect(reg: &mut Registry) -> Handle {
    reg.open_connection().expect("a handle is left")
}

#[test]
fn new_registry_is_empty() {
    let reg = Registry::new();
    assert_eq!(reg.sessions_len(), 0);
    assert!(!reg.is_open(Handle { id: 0 }));
    assert!(!reg.has_session(SessionCode::from_index(0).unwrap()));
}

#[test]
fn handles_are_never_given_twice() {
    let mut reg = Registry::new();
    let a = connect(&mut reg);
    let b = connect(&mut reg);
    reg.close_connection(a);
    let c = connect(&mut reg);
    assert_eq!(a, Handle { id: 0 });
    assert_eq!(b, Handle { id: 1 });
    assert_eq!(c, Handle { id: 2 });
    assert!(!reg.is_open(a));
    assert!(reg.is_open(b));
    assert!(reg.is_open(c));
}

#[test]
fn created_session_accepts_a_viewer_without_a_sharer() {
    let mut reg = Registry::new();
    let viewer = connect(&mut reg);
    let code = reg.create_session(1_700_000_000);
    assert!(reg.has_session(code));
    assert!(reg.attach_viewer(code, viewer));
    assert!(reg.take_outbound(viewer).is_empty());
    assert_eq!(reg.sessions_len(), 1);
}

#[test]
fn created_code_has_six_canonical_characters() {
    let mut reg = Registry::new();
    let code = reg.create_session(0);
    let text = code.to_text();
    assert_eq!(text.chars().count(), 6);
    assert!(text.chars().all(|c| c.is_ascii_uppercase() || c.is_ascii_digit()));
    assert_eq!(SessionCode::from_text(&text), Some(code));
}

#[test]
fn sequential_sessions_get_different_codes() {
    let mut reg = Registry::new();
    let mut seen = Vec::new();
    for now in 0..200u64 {
        let code = reg.create_session(now);
        assert!(!seen.contains(&code));
        seen.push(code);
    }
    assert_eq!(reg.sessions_len(), 200);
}

#[test]
fn a_taken_code_is_not_inserted_again() {
    let mut reg = Registry::new();
    let code = SessionCode::from_text("ABC123").unwrap();
    assert!(reg.insert_session(code, 1));
    assert!(!reg.insert_session(code, 2));
    assert_eq!(reg.sessions_len(), 1);
    let other = SessionCode::from_text("ABC124").unwrap();
    assert!(reg.insert_session(other, 3));
    assert_eq!(reg.sessions_len(), 2);
}

#[test]
fn offer_reaches_the_viewer_of_its_session_only() {
    let mut reg = Registry::new();
    let sharer = connect(&mut reg);
    let viewer = connect(&mut reg);
    let stranger = connect(&mut reg);
    let code = SessionCode::from_text("AAAAAA").unwrap();
    let other = SessionCode::from_text("BBBBBB").unwrap();
    assert!(reg.insert_session(code, 0));
    assert!(reg.insert_session(other, 0));
    reg.dispatch(sharer, join("AAAAAA", Role::Sharer));
    reg.dispatch(viewer, join("AAAAAA", Role::Viewer));
    reg.dispatch(stranger, join("BBBBBB", Role::Viewer));
    let _ = reg.take_outbound(sharer);
    let _ = reg.take_outbound(viewer);
    let _ = reg.take_outbound(stranger);

    reg.dispatch(sharer, offer("AAAAAA", "v=0 payload \u{1F600}"));

    let got = reg.take_outbound(viewer);
    assert_eq!(got.len(), 1);
    assert!(is_offer(&got[0], "AAAAAA", "v=0 payload \u{1F600}"));
    assert!(reg.take_outbound(stranger).is_empty());
    assert!(reg.take_outbound(sharer).is_empty());
}

#[test]
fn late_viewer_receives_the_pending_offer() {
    let mut reg = Registry::new();
    let sharer = connect(&mut reg);
    let viewer = connect(&mut reg);
    let code = SessionCode::from_text("ZZ9900").unwrap();
    assert!(reg.insert_session(code, 0));
    reg.dispatch(sharer, join("ZZ9900", Role::Sharer));
    reg.dispatch(sharer, offer("ZZ9900", "first"));
    reg.dispatch(sharer, offer("ZZ9900", "second"));
    let _ = reg.take_outbound(sharer);

    reg.dispatch(viewer, join("zz9900", Role::Viewer));

    let got = reg.take_outbound(viewer);
    assert_eq!(got.len(), 2);
    assert!(is_offer(&got[0], "ZZ9900", "second"));
    assert!(is_joined(&got[1], "ZZ9900", Role::Viewer));
    let told = reg.take_outbound(sharer);
    assert_eq!(told.len(), 1);
    assert!(matches!(&told[0], Message::ViewerJoined { code } if code == "ZZ9900"));
}

#[test]
fn attach_viewer_replays_the_stored_offer() {
    let mut reg = Registry::new();
    let viewer = connect(&mut reg);
    let code = reg.create_session(5);
    let text = code.to_text();
    assert!(reg.store_pending_offer(code, offer(&text, "cached")));
    assert!(reg.attach_viewer(code, viewer));
    let got = reg.take_outbound(viewer);
    assert_eq!(got.len(), 1);
    assert!(is_offer(&got[0], &text, "cached"));
}

#[test]
fn only_offers_are_kept_as_pending() {
    let mut reg = Registry::new();
    let viewer = connect(&mut reg);
    let code = reg.create_session(5);
    let text = code.to_text();
    assert!(!reg.store_pending_offer(code, answer(&text, "not an offer")));
    assert!(reg.attach_viewer(code, viewer));
    assert!(reg.take_outbound(viewer).is_empty());
}

#[test]
fn unknown_code_is_inert() {
    let mut reg = Registry::new();
    let h = connect(&mut reg);
    let missing = SessionCode::from_text("NOSUCH").unwrap();
    assert!(!reg.attach_sharer(missing, h));
    assert!(!reg.attach_viewer(missing, h));
    assert!(!reg.store_pending_offer(missing, offer("NOSUCH", "x")));
    assert_eq!(reg.relay_to_viewers(missing, &offer("NOSUCH", "x")), 0);
    assert!(!reg.relay_to_sharer(missing, answer("NOSUCH", "x")));
    assert!(reg.take_outbound(h).is_empty());
    assert_eq!(reg.sessions_len(), 0);
    assert_eq!(reg.affiliation(h), None);
}

#[test]
fn join_of_unknown_code_answers_with_an_error() {
    let mut reg = Registry::new();
    let h = connect(&mut reg);
    reg.dispatch(h, join("NOSUCH", Role::Viewer));
    let got = reg.take_outbound(h);
    assert_eq!(got.len(), 1);
    assert!(matches!(&got[0], Message::Error { message } if message == "Session not found"));
    assert_eq!(reg.affiliation(h), None);

    reg.dispatch(h, join("not a code", Role::Sharer));
    let got = reg.take_outbound(h);
    assert_eq!(got.len(), 1);
    assert!(matches!(&got[0], Message::Error { .. }));

    let code = reg.create_session(0);
    reg.dispatch(h, join(&code.to_text(), Role::Sharer));
    let got = reg.take_outbound(h);
    assert_eq!(got.len(), 1);
    assert!(is_joined(&got[0], &code.to_text(), Role::Sharer));
    assert_eq!(reg.affiliation(h), Some((code, Role::Sharer)));
}

#[test]
fn candidate_from_sharer_reaches_all_three_viewers() {
    let mut reg = Registry::new();
    let sharer = connect(&mut reg);
    let viewers = [connect(&mut reg), connect(&mut reg), connect(&mut reg)];
    let code = reg.create_session(0);
    let text = code.to_text();
    reg.dispatch(sharer, join(&text, Role::Sharer));
    for v in viewers {
        reg.dispatch(v, join(&text, Role::Viewer));
        let _ = reg.take_outbound(v);
    }
    let _ = reg.take_outbound(sharer);

    assert_eq!(reg.relay_to_viewers(code, &candidate(&text, "direct")), 3);
    for v in viewers {
        let got = reg.take_outbound(v);
        assert_eq!(got.len(), 1);
        assert!(is_candidate(&got[0], &text, "direct"));
    }

    reg.dispatch(sharer, candidate(&text, "candidate:1 udp"));
    for v in viewers {
        let got = reg.take_outbound(v);
        assert_eq!(got.len(), 1);
        assert!(is_candidate(&got[0], &text, "candidate:1 udp"));
    }
    assert!(reg.take_outbound(sharer).is_empty());
}

#[test]
fn candidate_from_viewer_reaches_only_the_sharer() {
    let mut reg = Registry::new();
    let sharer = connect(&mut reg);
    let first = connect(&mut reg);
    let second = connect(&mut reg);
    let code = reg.create_session(0);
    let text = code.to_text();
    reg.dispatch(sharer, join(&text, Role::Sharer));
    reg.dispatch(first, join(&text, Role::Viewer));
    reg.dispatch(second, join(&text, Role::Viewer));
    let _ = reg.take_outbound(sharer);
    let _ = reg.take_outbound(first);
    let _ = reg.take_outbound(second);

    reg.dispatch(first, candidate(&text, "from viewer"));

    let got = reg.take_outbound(sharer);
    assert_eq!(got.len(), 1);
    assert!(is_candidate(&got[0], &text, "from viewer"));
    assert!(reg.take_outbound(first).is_empty());
    assert!(reg.take_outbound(second).is_empty());
}

#[test]
fn answer_goes_to_the_sharer() {
    let mut reg = Registry::new();
    let sharer = connect(&mut reg);
    let viewer = connect(&mut reg);
    let code = reg.create_session(0);
    let text = code.to_text();
    reg.dispatch(sharer, join(&text, Role::Sharer));
    reg.dispatch(viewer, join(&text, Role::Viewer));
    let _ = reg.take_outbound(sharer);
    let _ = reg.take_outbound(viewer);
    reg.dispatch(viewer, answer(&text, "the answer"));
    let got = reg.take_outbound(sharer);
    assert_eq!(got.len(), 1);
    assert!(matches!(&got[0], Message::Answer { sdp, .. } if sdp == "the answer"));
    assert!(reg.take_outbound(viewer).is_empty());
}

#[test]
fn closed_sharer_makes_relay_to_sharer_fail() {
    let mut reg = Registry::new();
    let sharer = connect(&mut reg);
    let viewer = connect(&mut reg);
    let code = reg.create_session(0);
    let text = code.to_text();
    assert!(reg.attach_sharer(code, sharer));
    assert!(reg.attach_viewer(code, viewer));
    assert!(reg.relay_to_sharer(code, answer(&text, "one")));
    reg.close_connection(sharer);
    assert!(!reg.relay_to_sharer(code, answer(&text, "two")));
    assert!(reg.take_outbound(sharer).is_empty());
    assert!(reg.has_session(code));
    assert_eq!(reg.relay_to_viewers(code, &offer(&text, "still works")), 1);
}

#[test]
fn closed_viewer_is_passed_over() {
    let mut reg = Registry::new();
    let a = connect(&mut reg);
    let b = connect(&mut reg);
    let c = connect(&mut reg);
    let code = reg.create_session(0);
    let text = code.to_text();
    assert!(reg.attach_viewer(code, a));
    assert!(reg.attach_viewer(code, b));
    assert!(reg.attach_viewer(code, c));
    reg.close_connection(b);
    assert_eq!(reg.relay_to_viewers(code, &offer(&text, "x")), 2);
    assert_eq!(reg.take_outbound(a).len(), 1);
    assert_eq!(reg.take_outbound(b).len(), 0);
    assert_eq!(reg.take_outbound(c).len(), 1);
}

#[test]
fn second_sharer_replaces_the_first() {
    let mut reg = Registry::new();
    let old = connect(&mut reg);
    let new = connect(&mut reg);
    let code = reg.create_session(0);
    let text = code.to_text();
    assert!(reg.attach_sharer(code, old));
    assert!(reg.attach_sharer(code, new));
    assert!(reg.relay_to_sharer(code, answer(&text, "a")));
    assert!(reg.take_outbound(old).is_empty());
    assert_eq!(reg.take_outbound(new).len(), 1);
}

#[test]
fn messages_before_join_are_dropped() {
    let mut reg = Registry::new();
    let sharer = connect(&mut reg);
    let viewer = connect(&mut reg);
    let outsider = connect(&mut reg);
    let code = reg.create_session(0);
    let text = code.to_text();
    reg.dispatch(sharer, join(&text, Role::Sharer));
    reg.dispatch(viewer, join(&text, Role::Viewer));
    let _ = reg.take_outbound(sharer);
    let _ = reg.take_outbound(viewer);
    reg.dispatch(outsider, offer(&text, "intruder"));
    reg.dispatch(outsider, candidate(&text, "intruder"));
    reg.dispatch(outsider, answer(&text, "intruder"));
    assert!(reg.take_outbound(sharer).is_empty());
    assert!(reg.take_outbound(viewer).is_empty());
    assert!(reg.take_outbound(outsider).is_empty());
}

#[test]
fn messages_on_a_closed_connection_are_dropped() {
    let mut reg = Registry::new();
    let h = connect(&mut reg);
    let code = reg.create_session(0);
    reg.close_connection(h);
    reg.dispatch(h, join(&code.to_text(), Role::Sharer));
    assert!(reg.take_outbound(h).is_empty());
    assert!(!reg.relay_to_sharer(code, answer(&code.to_text(), "x")));
}

#[test]
fn queue_keeps_the_order_of_delivery() {
    let mut reg = Registry::new();
    let h = connect(&mut reg);
    for i in 0..5 {
        assert!(reg.deliver(h, Message::Error { message: format!("{}", i) }));
    }
    let got = reg.take_outbound(h);
    assert_eq!(got.len(), 5);
    for (i, m) in got.iter().enumerate() {
        assert!(matches!(m, Message::Error { message } if *message == format!("{}", i)));
    }
    assert!(reg.take_outbound(h).is_empty());
    assert!(!reg.deliver(Handle { id: 99 }, Message::Error { message: String::new() }));
}

#[test]
fn routing_table() {
    assert_eq!(route(MessageKind::Offer, Role::Sharer), Destination::Viewers);
    assert_eq!(route(MessageKind::Offer, Role::Viewer), Destination::Viewers);
    assert_eq!(route(MessageKind::Answer, Role::Sharer), Destination::Sharer);
    assert_eq!(route(MessageKind::Answer, Role::Viewer), Destination::Sharer);
    assert_eq!(route(MessageKind::IceCandidate, Role::Sharer), Destination::Viewers);
    assert_eq!(route(MessageKind::IceCandidate, Role::Viewer), Destination::Sharer);
    for kind in [
        MessageKind::Join,
        MessageKind::Error,
        MessageKind::ViewerJoined,
        MessageKind::Joined,
    ] {
        assert_eq!(route(kind, Role::Sharer), Destination::Nobody);
        assert_eq!(route(kind, Role::Viewer), Destination::Nobody);
    }
}

#[test]
fn message_kind_and_code() {
    let m = candidate("ABC123", "c");
    assert_eq!(m.kind(), MessageKind::IceCandidate);
    assert_eq!(m.code().map(|s| s.as_str()), Some("ABC123"));
    let e = Message::Error { message: "x".to_string() };
    assert_eq!(e.kind(), MessageKind::Error);
    assert!(e.code().is_none());
    let copy = m.clone();
    assert!(is_candidate(&copy, "ABC123", "c"));
}

#[test]
fn forced_collision_takes_the_next_draw() {
    let mut reg = Registry::new();
    let taken = SessionCode::from_text("TAKEN1").unwrap();
    let free = SessionCode::from_text("FREE22").unwrap();
    let later = SessionCode::from_text("LATER3").unwrap();
    assert!(reg.insert_session(taken, 0));
    let code = reg.create_session_with(&vec![taken, taken, free, later], 9);
    assert_eq!(code, free);
    assert!(reg.has_session(free));
    assert!(!reg.has_session(later));
    assert_eq!(reg.created_at(free), Some(9));
    assert_eq!(reg.sessions_len(), 2);
}

#[test]
fn all_draws_taken_falls_back_to_the_first_free_code() {
    let mut reg = Registry::new();
    let zero = SessionCode::from_index(0).unwrap();
    let one = SessionCode::from_index(1).unwrap();
    let three = SessionCode::from_index(3).unwrap();
    assert!(reg.insert_session(zero, 0));
    assert!(reg.insert_session(one, 0));
    assert!(reg.insert_session(three, 0));
    assert_eq!(reg.first_free_code().to_index(), 2);
    let code = reg.create_session_with(&vec![one, three, zero], 5);
    assert_eq!(code.to_index(), 2);
    assert_eq!(code.to_text(), "AAAAAC");
    let next = reg.create_session_with(&Vec::new(), 6);
    assert_eq!(next.to_index(), 4);
    assert_eq!(reg.sessions_len(), 5);
}

#[test]
fn session_getters() {
    let mut reg = Registry::new();
    let sharer = connect(&mut reg);
    let a = connect(&mut reg);
    let b = connect(&mut reg);
    let code = reg.create_session(123);
    let missing = if code.to_index() == 0 {
        SessionCode::from_index(1).unwrap()
    } else {
        SessionCode::from_index(0).unwrap()
    };
    assert_eq!(reg.created_at(code), Some(123));
    assert_eq!(reg.created_at(missing), None);
    assert_eq!(reg.sharer_of(code), None);
    assert!(reg.viewers_of(code).is_empty());
    assert!(!reg.has_pending_offer(code));
    assert!(reg.attach_sharer(code, sharer));
    assert!(reg.attach_viewer(code, a));
    assert!(reg.attach_viewer(code, b));
    assert!(reg.attach_viewer(code, a));
    assert!(reg.store_pending_offer(code, offer(&code.to_text(), "o")));
    assert_eq!(reg.sharer_of(code), Some(sharer));
    assert_eq!(reg.viewers_of(code), vec![a, b, a]);
    assert!(reg.has_pending_offer(code));
    assert_eq!(reg.sharer_of(missing), None);
    assert!(reg.viewers_of(missing).is_empty());
    assert!(!reg.has_pending_offer(missing));
    // the sharer was told of each of the three joins
    assert_eq!(reg.take_outbound(sharer).len(), 3);
}

#[test]
fn a_viewer_that_joined_twice_gets_two_copies() {
    let mut reg = Registry::new();
    let v = connect(&mut reg);
    let code = reg.create_session(0);
    assert!(reg.attach_viewer(code, v));
    assert!(reg.attach_viewer(code, v));
    assert_eq!(reg.relay_to_viewers(code, &offer(&code.to_text(), "x")), 2);
    assert_eq!(reg.take_outbound(v).len(), 2);
}

#[test]
fn relay_follows_the_routing_table() {
    let mut reg = Registry::new();
    let sharer = connect(&mut reg);
    let viewer = connect(&mut reg);
    let code = reg.create_session(0);
    let text = code.to_text();
    assert!(reg.attach_sharer(code, sharer));
    assert!(reg.attach_viewer(code, viewer));
    let _ = reg.take_outbound(sharer);

    reg.relay(code, Role::Sharer, offer(&text, "o"));
    assert!(reg.has_pending_offer(code));
    assert_eq!(reg.take_outbound(viewer).len(), 1);
    assert!(reg.take_outbound(sharer).is_empty());

    reg.relay(code, Role::Viewer, answer(&text, "a"));
    assert_eq!(reg.take_outbound(sharer).len(), 1);
    assert!(reg.take_outbound(viewer).is_empty());

    reg.relay(code, Role::Viewer, join(&text, Role::Viewer));
    reg.relay(code, Role::Sharer, Message::Error { message: "e".to_string() });
    assert!(reg.take_outbound(sharer).is_empty());
    assert!(reg.take_outbound(viewer).is_empty());
}
