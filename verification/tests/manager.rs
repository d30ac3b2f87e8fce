use vibe_guardian::checkpoint::CheckpointManager;
use vibe_guardian::types::ChangeType;
use vibe_guardian::types::Checkpoint;
use vibe_guardian::types::FileChange;
use vibe_guardian::types::GuardianConfig;
use vibe_guardian::types::GuardianError;
use vibe_guardian::types::Session;

fn fresh() -> CheckpointManager {
    CheckpointManager::new(Vec::new(), Vec::new())
}

#[test]
fn created_checkpoint_ids_are_distinct() {
    let mut m = fresh();
    let a = m.create_checkpoint("a".to_string(), 0, None);
    let b = m.create_checkpoint("b".to_string(), 0, None);
    let c = m.create_checkpoint("c".to_string(), 0, None);
    assert_ne!(a.id, b.id);
    assert_ne!(a.id, c.id);
    assert_ne!(b.id, c.id);
}

#[test]
fn ids_stay_distinct_across_deletion() {
    let mut m = fresh();
    let a = m.create_checkpoint("a".to_string(), 0, None);
    m.delete_checkpoint(&a.id).unwrap();
    let b = m.create_checkpoint("b".to_string(), 0, None);
    assert_ne!(a.id, b.id);
}

#[test]
fn list_returns_created_minus_deleted_in_order() {
    let mut m = fresh();
    let a = m.create_checkpoint("a".to_string(), 1, None);
    let b = m.create_checkpoint("b".to_string(), 2, None);
    let c = m.create_checkpoint("c".to_string(), 3, None);
    m.delete_checkpoint(&b.id).unwrap();
    let listed = m.list_checkpoints(None);
    assert_eq!(listed.len(), 2);
    assert_eq!(listed[0].id, a.id);
    assert_eq!(listed[1].id, c.id);
    assert_eq!(listed[0].name, "a");
    assert_eq!(listed[1].name, "c");
}

#[test]
fn list_filters_by_session() {
    let mut m = fresh();
    let s1 = m.start_session(None);
    let a = m.create_checkpoint("a".to_string(), 0, None);
    m.end_session();
    let s2 = m.start_session(None);
    let b = m.create_checkpoint("b".to_string(), 0, None);
    let c = m.create_checkpoint("c".to_string(), 0, None);
    let first = m.list_checkpoints(Some(&s1.id));
    assert_eq!(first.len(), 1);
    assert_eq!(first[0].id, a.id);
    let second = m.list_checkpoints(Some(&s2.id));
    assert_eq!(second.len(), 2);
    assert_eq!(second[0].id, b.id);
    assert_eq!(second[1].id, c.id);
    let nobody = m.list_checkpoints(Some("no-such-session"));
    assert!(nobody.is_empty());
}

#[test]
fn delete_removes_id_for_good() {
    let mut m = fresh();
    let a = m.create_checkpoint("a".to_string(), 0, None);
    let b = m.create_checkpoint("b".to_string(), 0, None);
    m.delete_checkpoint(&a.id).unwrap();
    assert!(m.list_checkpoints(None).iter().all(|c| c.id != a.id));
    assert_eq!(m.list_checkpoints(None).len(), 1);
    assert_eq!(m.list_checkpoints(None)[0].id, b.id);
}

#[test]
fn delete_unknown_id_fails_and_changes_nothing() {
    let mut m = fresh();
    let a = m.create_checkpoint("a".to_string(), 0, None);
    let r = m.delete_checkpoint("cp_999");
    match r {
        Err(GuardianError::NotFound { checkpoint_id }) => {
            assert_eq!(checkpoint_id, "cp_999");
        }
        Ok(()) => panic!("deleting an unknown checkpoint must fail"),
    }
    let listed = m.list_checkpoints(None);
    assert_eq!(listed.len(), 1);
    assert_eq!(listed[0].id, a.id);
}

#[test]
fn not_found_message_names_the_id() {
    let mut m = fresh();
    let e = m.delete_checkpoint("cp_404").unwrap_err();
    assert_eq!(e.message(), "Checkpoint not found: cp_404");
}

#[test]
fn sessions_are_numbered_in_creation_order() {
    let mut m = fresh();
    let s1 = m.start_session(None);
    assert_eq!(s1.name, "Session 1");
    // the second unnamed session is "Session 2" whether or not the first ended
    let s2 = m.start_session(None);
    assert_eq!(s2.name, "Session 2");
    m.end_session();
    let s3 = m.start_session(None);
    assert_eq!(s3.name, "Session 3");
    assert_ne!(s1.id, s2.id);
    assert_ne!(s2.id, s3.id);
    assert_ne!(s1.id, s3.id);
}

#[test]
fn named_session_keeps_its_name() {
    let mut m = fresh();
    let s = m.start_session(Some("refactor".to_string()));
    assert_eq!(s.name, "refactor");
    assert!(s.end_time.is_none());
}

#[test]
fn end_session_without_active_session_is_a_no_op() {
    let mut m = fresh();
    let s = m.start_session(None);
    m.end_session();
    let before: Vec<Session> = m.list_sessions().iter().map(|x| x.clone()).collect();
    m.end_session();
    let after = m.list_sessions();
    assert_eq!(after.len(), before.len());
    assert_eq!(after[0].id, before[0].id);
    assert_eq!(after[0].name, before[0].name);
    assert_eq!(after[0].start_time, before[0].start_time);
    assert_eq!(after[0].end_time, before[0].end_time);
    assert_eq!(s.id, after[0].id);
}

#[test]
fn end_session_records_an_end_time() {
    let mut m = fresh();
    let s = m.start_session(None);
    assert!(m.list_sessions()[0].end_time.is_none());
    m.end_session();
    let ended = &m.list_sessions()[0];
    assert_eq!(ended.id, s.id);
    assert!(ended.end_time.is_some());
}

#[test]
fn checkpoint_joins_the_active_session() {
    let mut m = fresh();
    let s = m.start_session(None);
    let cp = m.create_checkpoint("work".to_string(), 4, Some("abc123".to_string()));
    assert_eq!(cp.session_id, s.id);
    assert_eq!(cp.file_count, 4);
    assert_eq!(cp.commit_hash.as_deref(), Some("abc123"));
}

#[test]
fn checkpoint_without_session_gets_synthetic_session_id() {
    let mut m = fresh();
    let cp = m.create_checkpoint("loose".to_string(), 0, None);
    assert!(!cp.session_id.is_empty());
    assert_ne!(cp.session_id, cp.id);
    // no session record backs the synthesized identifier
    assert!(m.list_sessions().is_empty());
}

#[test]
fn checkpoint_without_version_control_has_no_hash() {
    let mut m = fresh();
    let cp = m.create_checkpoint("plain".to_string(), 3, None);
    assert_eq!(cp.commit_hash, None);
    assert_eq!(cp.file_count, 3);
}

#[test]
fn quick_save_counts_checkpoints() {
    let mut m = fresh();
    let q1 = m.quick_save(0, None);
    assert_eq!(q1.name, "Quick Save 1");
    let q2 = m.quick_save(0, None);
    assert_eq!(q2.name, "Quick Save 2");
    m.delete_checkpoint(&q1.id).unwrap();
    // the count follows the collection, not history
    let q3 = m.quick_save(0, None);
    assert_eq!(q3.name, "Quick Save 2");
    assert_ne!(q2.id, q3.id);
}

#[test]
fn rollback_validates_existence() {
    let mut m = fresh();
    let cp = m.create_checkpoint("base".to_string(), 1, None);
    assert!(m.rollback(&cp.id).is_ok());
    let e = m.rollback("cp_404").unwrap_err();
    match e {
        GuardianError::NotFound { checkpoint_id } => assert_eq!(checkpoint_id, "cp_404"),
    }
    // the stub restores nothing and deletes nothing
    assert_eq!(m.list_checkpoints(None).len(), 1);
}

#[test]
fn counter_seeds_past_loaded_identifiers() {
    let loaded = vec![Checkpoint {
        id: "cp_5".to_string(),
        name: "old".to_string(),
        timestamp: 0,
        commit_hash: None,
        session_id: "cp_4".to_string(),
        file_count: 0,
    }];
    let mut m = CheckpointManager::new(loaded, Vec::new());
    let cp = m.create_checkpoint("new".to_string(), 0, None);
    // the synthetic session id takes cp_6, the checkpoint itself cp_7
    assert_eq!(cp.session_id, "cp_6");
    assert_eq!(cp.id, "cp_7");
}

#[test]
fn foreign_identifiers_do_not_disturb_the_counter() {
    let loaded = vec![Checkpoint {
        id: "legacy-0017".to_string(),
        name: "old".to_string(),
        timestamp: 0,
        commit_hash: None,
        session_id: "s".to_string(),
        file_count: 0,
    }];
    let mut m = CheckpointManager::new(loaded, Vec::new());
    let cp = m.create_checkpoint("new".to_string(), 0, None);
    assert_ne!(cp.id, "legacy-0017");
    assert_eq!(cp.id, "cp_1");
}

#[test]
fn reconstruction_round_trips_the_collections() {
    let mut m = fresh();
    let s = m.start_session(Some("work".to_string()));
    m.create_checkpoint("a".to_string(), 1, Some("deadbeef".to_string()));
    m.create_checkpoint("b".to_string(), 2, None);
    m.end_session();
    m.start_session(None);
    m.quick_save(3, None);

    let checkpoints = m.list_checkpoints(None);
    let sessions: Vec<Session> = m.list_sessions().iter().map(|x| x.clone()).collect();

    let rebuilt = CheckpointManager::new(checkpoints, sessions);
    let old_cps = m.list_checkpoints(None);
    let new_cps = rebuilt.list_checkpoints(None);
    assert_eq!(old_cps.len(), new_cps.len());
    for (a, b) in old_cps.iter().zip(new_cps.iter()) {
        assert_eq!(a.id, b.id);
        assert_eq!(a.name, b.name);
        assert_eq!(a.timestamp, b.timestamp);
        assert_eq!(a.commit_hash, b.commit_hash);
        assert_eq!(a.session_id, b.session_id);
        assert_eq!(a.file_count, b.file_count);
    }
    let old_ss = m.list_sessions();
    let new_ss = rebuilt.list_sessions();
    assert_eq!(old_ss.len(), new_ss.len());
    for (a, b) in old_ss.iter().zip(new_ss.iter()) {
        assert_eq!(a.id, b.id);
        assert_eq!(a.name, b.name);
        assert_eq!(a.start_time, b.start_time);
        assert_eq!(a.end_time, b.end_time);
    }
    assert_eq!(s.name, "work");
    // identifiers minted after reconstruction stay fresh
    let mut rebuilt = rebuilt;
    let cp = rebuilt.create_checkpoint("later".to_string(), 0, None);
    assert!(m.list_checkpoints(None).iter().all(|c| c.id != cp.id));
}

#[test]
fn example_scenario() {
    let mut m = fresh();
    let s1 = m.start_session(None);
    assert_eq!(s1.name, "Session 1");
    let a = m.create_checkpoint("A".to_string(), 2, None);
    assert_eq!(a.file_count, 2);
    assert_eq!(a.session_id, s1.id);
    let q = m.quick_save(2, None);
    assert_eq!(q.name, "Quick Save 2");
    m.delete_checkpoint(&a.id).unwrap();
    let listed = m.list_checkpoints(None);
    assert_eq!(listed.len(), 1);
    assert_eq!(listed[0].id, q.id);
}

#[test]
fn file_change_records_carry_their_fields() {
    let change = FileChange {
        path: "src/main.rs".to_string(),
        old_content: None,
        new_content: Some("fn main() {}".to_string()),
        change_type: ChangeType::Added,
    };
    let copy = change.clone();
    assert_eq!(copy.path, "src/main.rs");
    assert_eq!(copy.change_type, ChangeType::Added);
    assert_ne!(copy.change_type, ChangeType::Deleted);
    assert_eq!(copy.new_content.as_deref(), Some("fn main() {}"));
}

#[test]
fn default_config_values() {
    let c = GuardianConfig::default();
    assert!(c.auto_save_enabled);
    assert_eq!(c.auto_save_interval_minutes, 5);
    assert_eq!(c.max_checkpoints_per_session, 50);
    assert!(c.auto_checkpoint_on_ai_changes);
}
