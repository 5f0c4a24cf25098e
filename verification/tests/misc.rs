use lait::call::{answer_call, incoming_call, CallAnswer, CallHandler, CallMsg};
use lait::cli::{
    event_line, hook_command, hook_env, kind_str, next_cursor, notify_title, render_response, should_fire, sort_peers, Contact, Event,
    EventKind, Peer, Response, SharedResource, StatusInfo,
};
use lait::error::{AdminAction, Ceremony, Conflict, Denied, GraphViolation, Invalid, NotFound, ReplicaError};
use lait::ids::{UserId, WorkspaceId};
use lait::net::{Network, NetworkError, Preset, RelayMode};
use lait::space::{commits_to_founder, derive_workspace_id};
use lait::sync::{accept_pull, accept_request, answer_request, dialer_doc_step, expect_catalog, frame_body_len, frame_header, DocStep, Msg, RequestStep, SyncError};

#[test]
fn network_policy_from_its_raw_value() {
    assert!(matches!(Network::parse("", None), Ok(Network::Public)));
    assert!(matches!(Network::parse("  PUBLIC \n", None), Ok(Network::Public)));
    assert!(matches!(Network::parse("Isolated", None), Ok(Network::Isolated)));
    match Network::parse("local", Some("https://relay.example".into())) {
        Ok(Network::Local(l)) => assert_eq!(l.relay, "https://relay.example"),
        _ => panic!("expected a local policy"),
    }
    let missing = Network::parse(" Local ", None).unwrap_err();
    assert_eq!(missing.message(), "LAIT_NETWORK=local requires LAIT_RELAY");
    match Network::parse(" Mesh ", None) {
        Err(e @ NetworkError::Unknown { .. }) => {
            assert_eq!(e.message(), "unknown LAIT_NETWORK 'mesh' (expected public|local|isolated)")
        }
        _ => panic!("expected an unknown policy"),
    }
    assert!(Network::Public.uses_relay());
    assert!(!Network::Isolated.uses_relay());
}

#[test]
fn replica_errors_render_their_sentences() {
    assert_eq!(ReplicaError::NotFound(NotFound::Project { named: "ENG".into() }).message(), "no project matches 'ENG'");
    assert_eq!(ReplicaError::NotFound(NotFound::Label { named: "bug".into() }).message(), "no label matches 'bug'");
    assert_eq!(ReplicaError::Denied(Denied::NotAdmin(AdminAction::RotateKey)).message(), "only an admin can rotate the key");
    assert_eq!(ReplicaError::Denied(Denied::NoActorIdentity { in_this_space: true }).message(), "this device has no actor identity in this space yet");
    assert_eq!(ReplicaError::Denied(Denied::ViewOnly).message(), "view-only: your membership grants no write access");
    assert_eq!(ReplicaError::Invalid(Invalid::Empty { field: "title" }).message(), "title must not be empty");
    assert_eq!(ReplicaError::Invalid(Invalid::Empty { field: "due" }).message(), "due must not be empty");
    assert_eq!(ReplicaError::Invalid(Invalid::Malformed { what: "bad key" }).message(), "bad key");
    assert_eq!(ReplicaError::Invalid(Invalid::NothingToEdit).message(), "nothing to edit");
    assert_eq!(ReplicaError::Conflict(Conflict::IssueGraph(GraphViolation::Ancestor)).message(), "that would make an issue its own ancestor");
    assert_eq!(ReplicaError::Conflict(Conflict::InviteRevoked).message(), "this invite has been revoked");
    assert_eq!(ReplicaError::ceremony("try again later").message(), "try again later");
    assert_eq!(ReplicaError::Ceremony(Box::new(Ceremony::Refused { message: "x".into() })).message(), "x");
    assert_eq!(ReplicaError::Internal("disk: full".into()).message(), "disk: full");
}

fn event(kind: EventKind, direct: bool) -> Event {
    Event { seq: 7, kind, nick: "ann".into(), id: "k1".into(), text: "hi".into(), direct, ts: 1234 }
}

#[test]
fn events_render_and_feed_hooks() {
    assert_eq!(kind_str(&EventKind::Presence), "presence");
    assert_eq!(event_line(&event(EventKind::Chat, false)), "ann: hi");
    assert_eq!(event_line(&event(EventKind::Call, true)), "\u{1F514} [call] ann: hi");
    let env = hook_env(&event(EventKind::Join, true));
    assert_eq!(env[0], ("LAIT_EVENT_SEQ".to_string(), "7".to_string()));
    assert_eq!(env[1].1, "join");
    assert_eq!(env[5].1, "true");
    assert_eq!(env[6].1, "1234");
    assert!(should_fire(&event(EventKind::Chat, false), false));
    assert!(!should_fire(&event(EventKind::Chat, false), true));
    assert_eq!(next_cursor(10, 4), 10);
    assert_eq!(next_cursor(10, 12), 12);
}

fn texts(r: &Response) -> Vec<(bool, String)> {
    render_response(r).into_iter().map(|l| (l.to_stderr, l.text)).collect()
}

#[test]
fn responses_render_as_terminal_lines() {
    assert_eq!(texts(&Response::Done { message: None }), vec![(false, "ok".to_string())]);
    assert_eq!(texts(&Response::Error { message: "nope".into() }), vec![(true, "error: nope".to_string())]);
    let st = StatusInfo { id: "i".into(), nick: "n".into(), room: "r".into(), online_peers: 3, contacts: 2, resources: 0 };
    let lines = texts(&Response::Status(st));
    assert_eq!(lines[3].1, "online:    3 peer(s)");
    assert_eq!(lines[5].1, "resources: 0");
    assert_eq!(texts(&Response::Events { events: vec![], last: 9 }), vec![(false, "(no new messages)".to_string())]);
    let ev = texts(&Response::Events { events: vec![event(EventKind::Chat, false)], last: 9 });
    assert_eq!(ev[1].1, "--- last seq 9 ---");
    assert_eq!(texts(&Response::Contacts { contacts: vec![] })[0].1, "(no contacts)");
    assert_eq!(texts(&Response::Contacts { contacts: vec![Contact { nick: "a".into(), id: "b".into() }] })[0].1, "a  b");
    let res = SharedResource { label: "doc".into(), from: "ann".into(), ticket: "t".into() };
    assert_eq!(texts(&Response::Resources { resources: vec![res] })[0].1, "doc  from ann\n    t");
}

#[test]
fn who_lists_online_peers_first_then_by_nick() {
    let peer = |nick: &str, online: bool| Peer { nick: nick.into(), id: format!("id-{nick}"), online, is_contact: nick == "bo" };
    let sorted = sort_peers(&vec![peer("zed", true), peer("al", false), peer("bo", true)]);
    let nicks: Vec<&str> = sorted.iter().map(|p| p.nick.as_str()).collect();
    assert_eq!(nicks, vec!["bo", "zed", "al"]);
    let lines = texts(&Response::Who { peers: vec![peer("al", false), peer("bo", true)] });
    assert_eq!(lines[0].1, "\u{25CF} bo  (id-bo) \u{2713}contact");
    assert_eq!(lines[1].1, "\u{25CB} al  (id-al)");
    assert_eq!(texts(&Response::Who { peers: vec![] })[0].1, "(no peers seen yet)");
}

#[test]
fn calls_are_answered_by_contact_standing() {
    match answer_call("me", false) {
        CallAnswer::Reject { ack } => assert_eq!(ack.text, "call rejected: you are not in their contacts"),
        _ => panic!("a stranger is rejected"),
    }
    match answer_call("me", true) {
        CallAnswer::Accept { ack } => {
            assert_eq!(ack.nick, "me");
            assert_eq!(ack.text, "call accepted");
        }
        _ => panic!("a contact is accepted"),
    }
    let msg = CallMsg { nick: "them".into(), text: "ping".into() };
    assert_eq!(incoming_call(None, &msg), ("them".to_string(), "\u{1F4DE} incoming call: ping".to_string()));
    assert_eq!(incoming_call(Some("Bob".into()), &msg).0, "Bob");
}

#[test]
fn sync_frames_and_phases() {
    assert_eq!(frame_header(0x0102_0304).ok(), Some([1, 2, 3, 4]));
    assert_eq!(frame_body_len([0, 0, 1, 0]).ok(), Some(256));
    assert!(matches!(frame_body_len([4, 0, 0, 1]), Err(SyncError::LengthExceedsCap { len: 0x0400_0001 })));
    assert_eq!(frame_body_len([4, 0, 0, 0]).ok(), Some(64 * 1024 * 1024));
    let mine = "ws_a".to_string();
    let pull = Msg::Pull { workspace: "ws_a".into(), catalog_vv: vec![1, 2] };
    assert_eq!(accept_pull(Some(pull), &mine).ok(), Some(vec![1, 2]));
    let other = Msg::Pull { workspace: "ws_b".into(), catalog_vv: vec![] };
    assert!(matches!(accept_pull(Some(other), &mine), Err(SyncError::WorkspaceMismatch { .. })));
    assert!(matches!(accept_pull(None, &mine), Err(SyncError::ExpectedPull { got: None })));
    assert!(matches!(accept_request(None), Ok(RequestStep::Finish)));
    assert!(matches!(accept_request(Some(Msg::EndDocs)), Err(SyncError::UnexpectedRequestFrame { .. })));
    assert!(matches!(answer_request("d".into(), None), Msg::DocMissing { .. }));
    assert!(matches!(expect_catalog(Some(Msg::Catalog { update: vec![] })), Ok(_)));
    assert!(matches!(dialer_doc_step(Some(Msg::DocMissing { doc_id: "d".into() })), Ok(DocStep::Skip)));
    assert!(matches!(dialer_doc_step(Some(Msg::EndRequests)), Err(SyncError::UnexpectedDocFrame { .. })));
}

#[test]
fn workspace_ids_commit_to_their_founder() {
    let dev = UserId([3u8; 32]);
    let ws = derive_workspace_id(&dev, &[9u8; 16]);
    assert!(WorkspaceId::parse(ws.as_str()).is_some());
    assert_eq!(ws.as_str().len(), 29);
    assert!(ws.as_str().starts_with("ws_"));
    assert_eq!(ws, derive_workspace_id(&dev, &[9u8; 16]));
    assert_ne!(ws, derive_workspace_id(&dev, &[0u8; 16]));
    assert_ne!(ws, derive_workspace_id(&UserId([4u8; 32]), &[9u8; 16]));
    // The digest's 128 bits in 26 Crockford digits.
    let zero = WorkspaceId::from_digest([0u8; 16]);
    assert_eq!(zero.as_str(), "ws_00000000000000000000000000");
    let max = WorkspaceId::from_digest([0xff; 16]);
    assert_eq!(max.as_str(), "ws_7ZZZZZZZZZZZZZZZZZZZZZZZZZ");
    let mut one = [0u8; 16];
    one[15] = 33;
    assert_eq!(WorkspaceId::from_digest(one).as_str(), "ws_00000000000000000000000011");
    assert!(WorkspaceId::parse("ws_0000000000000000000000000I").is_none());
    assert!(WorkspaceId::parse("ws_000").is_none());
}

#[test]
fn desktop_notifications_are_titled_by_sender() {
    assert_eq!(notify_title(&event(EventKind::Chat, false)), "groupchat: ann");
}

#[test]
fn the_call_handler_answers_only_its_contacts() {
    let h = CallHandler::new(
        "me".to_string(),
        vec![Contact { nick: "Ann".into(), id: "id-ann".into() }, Contact { nick: "Bob".into(), id: "id-bob".into() }],
    );
    match h.answer("id-bob") {
        CallAnswer::Accept { ack } => assert_eq!((ack.nick.as_str(), ack.text.as_str()), ("me", "call accepted")),
        other => panic!("expected accept, got {other:?}"),
    }
    match h.answer("id-eve") {
        CallAnswer::Reject { ack } => {
            assert_eq!(ack.text, "call rejected: you are not in their contacts")
        }
        other => panic!("expected reject, got {other:?}"),
    }
    let msg = CallMsg { nick: "bobby".into(), text: "ring".into() };
    assert_eq!(h.incoming("id-bob", &msg), ("Bob".to_string(), "\u{1F4DE} incoming call: ring".to_string()));
    assert_eq!(h.incoming("id-eve", &msg).0, "bobby");
    assert_eq!(h.nick_of("id-ann"), Some("Ann".to_string()));
}

#[test]
fn each_policy_plans_its_endpoint() {
    let p = Network::Public.endpoint_plan();
    assert_eq!(p.preset, Preset::Public);
    assert!(matches!(p.relay_mode, RelayMode::Preset));
    assert!(p.book_relay.is_none());
    let i = Network::Isolated.endpoint_plan();
    assert_eq!(i.preset, Preset::Minimal);
    assert!(matches!(i.relay_mode, RelayMode::Disabled));
    assert!(i.book_relay.is_none());
    let l = Network::parse("local", Some("https://relay.example".into())).unwrap().endpoint_plan();
    assert_eq!(l.preset, Preset::Minimal);
    assert!(matches!(&l.relay_mode, RelayMode::Custom(u) if u == "https://relay.example"));
    assert_eq!(l.book_relay.as_deref(), Some("https://relay.example"));
}

#[test]
fn peers_with_equal_keys_keep_their_arrival_order() {
    let peer = |nick: &str, id: &str, online: bool| Peer { nick: nick.into(), id: id.into(), online, is_contact: false };
    let sorted = sort_peers(&vec![
        peer("bob", "b1", false),
        peer("ann", "a1", true),
        peer("bob", "b2", false),
        peer("ann", "a2", true),
        peer("bob", "b3", false),
    ]);
    let ids: Vec<&str> = sorted.iter().map(|p| p.id.as_str()).collect();
    assert_eq!(ids, vec!["a1", "a2", "b1", "b2", "b3"]);
}

#[test]
fn a_workspace_id_commits_to_its_founder_and_salt() {
    let device = UserId::from_key([7u8; 32]);
    let other = UserId::from_key([8u8; 32]);
    let salt = [9u8; 16];
    let ws = derive_workspace_id(&device, &salt);
    assert!(commits_to_founder(&ws, &salt, &device), "a genuine founding commits");
    assert!(!commits_to_founder(&ws, &salt, &other), "a swapped founder is rejected");
    assert!(!commits_to_founder(&ws, &[0u8; 16], &device), "a tampered salt is rejected");
}

#[test]
fn hooks_run_in_the_platform_shell() {
    assert_eq!(hook_command("echo hi", false), vec!["sh", "-c", "echo hi"]);
    assert_eq!(hook_command("echo hi", true), vec!["cmd", "/C", "echo hi"]);
}

#[test]
fn whitespace_agrees_with_std_on_every_char() {
    for u in 0u32..=0x10FFFF {
        if let Some(c) = char::from_u32(u) {
            assert_eq!(lait::text::is_whitespace(c), c.is_whitespace(), "U+{u:04X}");
        }
    }
}
