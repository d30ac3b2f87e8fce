use vibe_guardian::checkpoint::CheckpointManager;
use vibe_guardian::persist::parse_checkpoints;
use vibe_guardian::persist::parse_sessions;
use vibe_guardian::persist::render_checkpoints;
use vibe_guardian::persist::render_sessions;
use vibe_guardian::types::Checkpoint;
use vibe_guardian::types::Session;

fn checkpoint(id: &str, name: &str, ts: i64, hash: Option<&str>, sid: &str, fc: usize) -> Checkpoint {
    Checkpoint {
        id: id.to_string(),
        name: name.to_string(),
        timestamp: ts,
        commit_hash: hash.map(|h| h.to_string()),
        session_id: sid.to_string(),
        file_count: fc,
    }
}

fn assert_checkpoints_eq(a: &[Checkpoint], b: &[Checkpoint]) {
    assert_eq!(a.len(), b.len());
    for (x, y) in a.iter().zip(b.iter()) {
        assert_eq!(x.id, y.id);
        assert_eq!(x.name, y.name);
        assert_eq!(x.timestamp, y.timestamp);
        assert_eq!(x.commit_hash, y.commit_hash);
        assert_eq!(x.session_id, y.session_id);
        assert_eq!(x.file_count, y.file_count);
    }
}

#[test]
fn renders_empty_collections() {
    assert_eq!(render_checkpoints(&Vec::new()), "[]");
    assert_eq!(render_sessions(&Vec::new()), "[]");
}

#[test]
fn renders_one_checkpoint_exactly() {
    let cps = vec![checkpoint("cp_0", "base", 42, None, "cp_1", 3)];
    let doc = render_checkpoints(&cps);
    assert_eq!(
        doc,
        "[\n  {\"id\": \"cp_0\", \"name\": \"base\", \"timestamp\": 42, \
         \"commit_hash\": null, \"session_id\": \"cp_1\", \"file_count\": 3}\n]"
    );
}

#[test]
fn round_trips_checkpoints() {
    let cps = vec![
        checkpoint("cp_0", "plain", 0, None, "cp_9", 0),
        checkpoint("cp_1", "negative time", -1234567, Some("deadbeef"), "cp_9", 17),
        checkpoint("cp_2", "quo\"te and back\\slash", i64::MAX, Some(""), "s", 1),
        checkpoint("cp_3", "", i64::MIN, None, "", usize::MAX),
    ];
    let doc = render_checkpoints(&cps);
    let back = parse_checkpoints(&doc).expect("rendered document must parse");
    assert_checkpoints_eq(&cps, &back);
}

#[test]
fn round_trips_sessions() {
    let vs = vec![
        Session { id: "cp_4".to_string(), name: "Session 1".to_string(), start_time: 5, end_time: None },
        Session { id: "cp_5".to_string(), name: "wrap\\up \"x\"".to_string(), start_time: -9, end_time: Some(12) },
    ];
    let doc = render_sessions(&vs);
    let back = parse_sessions(&doc).expect("rendered document must parse");
    assert_eq!(back.len(), 2);
    assert_eq!(back[0].id, vs[0].id);
    assert_eq!(back[0].name, vs[0].name);
    assert_eq!(back[0].start_time, 5);
    assert_eq!(back[0].end_time, None);
    assert_eq!(back[1].id, vs[1].id);
    assert_eq!(back[1].name, vs[1].name);
    assert_eq!(back[1].start_time, -9);
    assert_eq!(back[1].end_time, Some(12));
}

#[test]
fn rejects_malformed_documents() {
    assert!(parse_checkpoints("").is_none());
    assert!(parse_checkpoints("[").is_none());
    assert!(parse_checkpoints("[\n]").is_none());
    assert!(parse_checkpoints("{}").is_none());
    assert!(parse_checkpoints("[\n  {\"id\": \"a\"}\n]").is_none());
    assert!(parse_sessions("not json at all").is_none());
    // an unterminated string
    assert!(parse_checkpoints("[\n  {\"id\": \"a").is_none());
    // trailing text after the closing bracket
    let good = render_checkpoints(&vec![checkpoint("cp_0", "x", 1, None, "s", 0)]);
    let mut bad = good.clone();
    bad.push_str("x");
    assert!(parse_checkpoints(&good).is_some());
    assert!(parse_checkpoints(&bad).is_none());
}

#[test]
fn rejects_out_of_range_numbers() {
    let doc = "[\n  {\"id\": \"a\", \"name\": \"n\", \"timestamp\": 99999999999999999999, \
               \"commit_hash\": null, \"session_id\": \"s\", \"file_count\": 0}\n]";
    assert!(parse_checkpoints(doc).is_none());
    let doc2 = "[\n  {\"id\": \"a\", \"name\": \"n\", \"timestamp\": 1, \
                \"commit_hash\": null, \"session_id\": \"s\", \"file_count\": -2}\n]";
    assert!(parse_checkpoints(doc2).is_none());
}

#[test]
fn full_cycle_reproduces_the_manager() {
    let mut m = CheckpointManager::new(Vec::new(), Vec::new());
    m.start_session(Some("work \"quoted\"".to_string()));
    m.create_checkpoint("a\\b".to_string(), 2, Some("0123abcd".to_string()));
    m.end_session();
    m.start_session(None);
    m.quick_save(5, None);

    let cp_doc = render_checkpoints(&m.checkpoints);
    let ss_doc = render_sessions(&m.sessions);
    let rebuilt = CheckpointManager::new(
        parse_checkpoints(&cp_doc).expect("checkpoints parse"),
        parse_sessions(&ss_doc).expect("sessions parse"),
    );
    assert_checkpoints_eq(&m.checkpoints, &rebuilt.checkpoints);
    assert_eq!(m.sessions.len(), rebuilt.sessions.len());
    for (a, b) in m.sessions.iter().zip(rebuilt.sessions.iter()) {
        assert_eq!(a.id, b.id);
        assert_eq!(a.name, b.name);
        assert_eq!(a.start_time, b.start_time);
        assert_eq!(a.end_time, b.end_time);
    }
}
