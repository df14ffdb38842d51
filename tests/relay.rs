use media_relay::queue::{IngestQueue, MAX_WRITE_SIZE};
use media_relay::registry::NameRegistry;
use media_relay::session::{
    inbound_frame, joined_message, left_message, name_taken_message, negotiate, Frame,
    Negotiation,
};
use media_relay::slice::{file_name_for, Slice};
use media_relay::writer::{route_slice, storage_path, WriterAction};

fn drain(queue: &mut IngestQueue) -> Vec<Slice> {
    let mut out = Vec::new();
    while let Some(s) = queue.dispatch_next() {
        out.push(s);
    }
    out
}

fn pattern(len: usize, seed: u8) -> Vec<u8> {
    (0..len).map(|i| (i as u8).wrapping_mul(7).wrapping_add(seed)).collect()
}

#[test]
fn file_name_appends_extension() {
    assert_eq!(file_name_for("alice"), "alice.webm");
    assert_eq!(file_name_for(""), ".webm");
}

#[test]
fn storage_path_is_under_uploads() {
    assert_eq!(storage_path("alice.webm"), "./uploads/alice.webm");
}

#[test]
fn messages_have_fixed_wording() {
    assert_eq!(joined_message("bob"), "bob joined.");
    assert_eq!(left_message("bob"), "bob left.");
    assert_eq!(name_taken_message(), "Username already taken.");
}

#[test]
fn second_claim_of_held_name_is_rejected() {
    let mut reg = NameRegistry::new();
    assert!(reg.claim("alice"));
    assert!(!reg.claim("alice"));
    assert!(reg.claim("bob"));
    assert!(reg.contains("alice"));
    assert_eq!(reg.names.len(), 2);
    reg.release("alice");
    assert!(!reg.contains("alice"));
    assert!(reg.contains("bob"));
    assert!(reg.claim("alice"));
}

#[test]
fn release_of_unknown_name_changes_nothing() {
    let mut reg = NameRegistry::new();
    assert!(reg.claim("alice"));
    reg.release("carol");
    assert_eq!(reg.names, vec!["alice".to_string()]);
}

#[test]
fn check_username_fills_name_only_when_free() {
    let mut reg = NameRegistry::new();
    let mut first = String::new();
    reg.check_username(&mut first, "alice");
    assert_eq!(first, "alice");
    let mut second = String::new();
    reg.check_username(&mut second, "alice");
    assert_eq!(second, "");
}

#[test]
fn negotiation_waits_for_text_and_rejects_taken_name() {
    let mut reg = NameRegistry::new();
    assert!(matches!(negotiate(&mut reg, Frame::Binary(vec![1, 2])), Negotiation::Pending));
    assert!(matches!(negotiate(&mut reg, Frame::Other), Negotiation::Pending));
    match negotiate(&mut reg, Frame::Text("alice".to_string())) {
        Negotiation::Accepted(n) => assert_eq!(n, "alice"),
        _ => panic!("free name refused"),
    }
    assert!(matches!(
        negotiate(&mut reg, Frame::Text("alice".to_string())),
        Negotiation::Rejected
    ));
}

#[test]
fn small_slice_is_dispatched_whole() {
    let mut q = IngestQueue::new();
    q.push_to_queue(pattern(MAX_WRITE_SIZE, 1), &"a".to_string());
    let out = drain(&mut q);
    assert_eq!(out.len(), 1);
    assert_eq!(out[0].payload, pattern(MAX_WRITE_SIZE, 1));
    assert_eq!(q.len(), 0);
}

#[test]
fn oversized_slice_is_split_into_bounded_pieces() {
    let data = pattern(3 * MAX_WRITE_SIZE + 7, 3);
    let mut q = IngestQueue::new();
    q.push_to_queue(data.clone(), &"a".to_string());
    let out = drain(&mut q);
    assert_eq!(out.len(), 4);
    for s in &out[..3] {
        assert_eq!(s.payload.len(), MAX_WRITE_SIZE);
    }
    assert_eq!(out[3].payload.len(), 7);
    let joined: Vec<u8> = out.iter().flat_map(|s| s.payload.clone()).collect();
    assert_eq!(joined, data);
    assert!(out.iter().all(|s| s.filename == "a.webm" && s.command.is_none()));
}

#[test]
fn split_remainder_goes_ahead_of_other_work() {
    let mut q = IngestQueue::new();
    q.push_to_queue(pattern(20000, 0), &"a".to_string());
    q.push_to_queue(pattern(10, 9), &"b".to_string());
    let first = q.dispatch_next().unwrap();
    assert_eq!(first.payload.len(), 15360);
    assert_eq!(q.len(), 2);
    let second = q.dispatch_next().unwrap();
    assert_eq!(second.filename, "a.webm");
    assert_eq!(second.payload.len(), 4640);
    let third = q.dispatch_next().unwrap();
    assert_eq!(third.filename, "b.webm");
    assert!(q.dispatch_next().is_none());
}

#[test]
fn per_session_order_survives_interleaving() {
    let a = "a".to_string();
    let b = "b".to_string();
    let mut q = IngestQueue::new();
    q.push_to_queue(pattern(16000, 1), &a);
    q.push_to_queue(pattern(300, 2), &b);
    q.push_to_queue(pattern(40000, 3), &a);
    q.push_to_queue(pattern(20000, 4), &b);
    q.push_to_queue(pattern(5, 5), &a);
    let out = drain(&mut q);
    assert!(out.iter().all(|s| s.payload.len() <= MAX_WRITE_SIZE));
    let bytes_for = |f: &str| -> Vec<u8> {
        out.iter().filter(|s| s.filename == f).flat_map(|s| s.payload.clone()).collect()
    };
    let mut want_a = pattern(16000, 1);
    want_a.extend(pattern(40000, 3));
    want_a.extend(pattern(5, 5));
    let mut want_b = pattern(300, 2);
    want_b.extend(pattern(20000, 4));
    assert_eq!(bytes_for("a.webm"), want_a);
    assert_eq!(bytes_for("b.webm"), want_b);
}

#[test]
fn empty_queue_dispatches_nothing() {
    let mut q = IngestQueue::new();
    assert!(q.dispatch_next().is_none());
    assert_eq!(q.len(), 0);
}

#[test]
fn writer_routes_each_kind_of_slice() {
    match route_slice(Slice::data(vec![1, 2, 3], "alice")) {
        WriterAction::Append { path, payload } => {
            assert_eq!(path, "./uploads/alice.webm");
            assert_eq!(payload, vec![1, 2, 3]);
        }
        _ => panic!("data slice not appended"),
    }
    match route_slice(Slice::control("stop".to_string(), "alice")) {
        WriterAction::Publish(m) => assert_eq!(m, "alice.webm"),
        _ => panic!("stop not published"),
    }
    assert!(matches!(
        route_slice(Slice::control("pause".to_string(), "alice")),
        WriterAction::Ignore
    ));
}

#[test]
fn control_slice_is_not_split() {
    let mut q = IngestQueue::new();
    q.push_msg_to_queue("stop".to_string(), &"a".to_string());
    let s = q.dispatch_next().unwrap();
    assert_eq!(s.command.as_deref(), Some("stop"));
    assert!(s.payload.is_empty());
    assert!(q.dispatch_next().is_none());
}

#[test]
fn alice_records_three_frames_then_stops() {
    let mut reg = NameRegistry::new();
    let name = match negotiate(&mut reg, Frame::Text("alice".to_string())) {
        Negotiation::Accepted(n) => n,
        _ => panic!("alice refused"),
    };
    let frames = [pattern(20000, 11), pattern(500, 22), pattern(1000, 33)];
    let mut q = IngestQueue::new();
    for f in &frames {
        inbound_frame(&mut q, Frame::Binary(f.clone()), &name);
    }
    inbound_frame(&mut q, Frame::Text("stop".to_string()), &name);
    let out = drain(&mut q);
    let sizes: Vec<usize> = out.iter().map(|s| s.payload.len()).collect();
    assert_eq!(sizes, vec![15360, 4640, 500, 1000, 0]);
    let mut stored: Vec<u8> = Vec::new();
    let mut published: Vec<String> = Vec::new();
    for s in out {
        match route_slice(s) {
            WriterAction::Append { path, payload } => {
                assert_eq!(path, "./uploads/alice.webm");
                stored.extend(payload);
            }
            WriterAction::Publish(m) => published.push(m),
            WriterAction::Ignore => panic!("unexpected ignore"),
        }
    }
    assert_eq!(stored.len(), 21500);
    assert_eq!(stored, frames.concat());
    assert_eq!(published, vec!["alice.webm".to_string()]);
}
