use noil::config::parse::ConfigError;
use noil::config::reconcile::ReconcileResult;
use noil::config::reconciler::{ReconcileAction, ReconcileEvent, Reconciler};
use noil::config::version::compute_config_hash;
use noil::storage::traits::{ConfigSource, ConfigState, ConfigVersion};

const PATH: &str = "/etc/noil/config.yml";

fn version(content: &str, parent: Option<&str>) -> ConfigVersion {
    ConfigVersion {
        version_hash: compute_config_hash(content),
        parent_hash: parent.map(|p| p.to_string()),
        yaml_content: content.to_string(),
        created_at: 0,
        source: ConfigSource::File,
        is_active: true,
    }
}

fn state(file: &str, db: &str) -> ConfigState {
    ConfigState {
        has_conflict: false,
        conflict_file_path: None,
        file_version_hash: Some(file.to_string()),
        db_version_hash: Some(db.to_string()),
    }
}

fn expect_synced(a: ReconcileAction, hash: &str) {
    match a {
        ReconcileAction::UpdateState(s) => {
            assert!(!s.has_conflict);
            assert_eq!(s.conflict_file_path, None);
            assert_eq!(s.file_version_hash.as_deref(), Some(hash));
            assert_eq!(s.db_version_hash.as_deref(), Some(hash));
        }
        _ => panic!("expected the state to be stored"),
    }
}

fn expect_confirm(a: ReconcileAction, prompt: &str, default: bool) -> Option<String> {
    match a {
        ReconcileAction::Confirm { prompt: p, default: d, detail } => {
            assert_eq!(p, prompt);
            assert_eq!(d, default);
            detail
        }
        _ => panic!("expected a question"),
    }
}

fn expect_validation(a: ReconcileAction) -> String {
    match a {
        ReconcileAction::Finish(Err(ConfigError::Validation(m))) => m,
        _ => panic!("expected a failed check"),
    }
}

/// Starts and reads the file `content`, with `st` as stored state.
fn read_file(st: Option<ConfigState>, content: &str) -> (Reconciler, ReconcileAction) {
    let (mut r, a) = Reconciler::start(PATH.to_string());
    assert!(matches!(a, ReconcileAction::LoadState));
    let a = r.step(ReconcileEvent::State(st), 7);
    assert!(matches!(a, ReconcileAction::ReadFile));
    let a = r.step(ReconcileEvent::File(content.to_string()), 7);
    (r, a)
}

#[test]
fn first_run_stores_the_file() {
    let content = "web:\n  listen: 127.0.0.1:7104\n";
    let hash = compute_config_hash(content);
    let (mut r, a) = read_file(None, content);
    assert!(matches!(a, ReconcileAction::LoadActiveVersion));
    match r.step(ReconcileEvent::ActiveVersion(None), 7) {
        ReconcileAction::LoadVersion(h) => assert_eq!(h, hash),
        _ => panic!("expected a lookup"),
    }
    match r.step(ReconcileEvent::Version(None), 42) {
        ReconcileAction::InsertVersion(v) => {
            assert_eq!(v.version_hash, hash);
            assert_eq!(v.parent_hash, None);
            assert_eq!(v.yaml_content, content);
            assert_eq!(v.created_at, 42);
            assert_eq!(v.source, ConfigSource::File);
            assert!(v.is_active);
        }
        _ => panic!("expected the version to be stored"),
    }
    expect_synced(r.step(ReconcileEvent::Done, 7), &hash);
    match r.step(ReconcileEvent::Done, 7) {
        ReconcileAction::Finish(Ok(ReconcileResult::Initialized { hash: h })) => assert_eq!(h, hash),
        _ => panic!("expected the configuration to be initialized"),
    }
}

#[test]
fn first_run_marks_a_known_version_active() {
    let content = "a: 1\n";
    let hash = compute_config_hash(content);
    let (mut r, _) = read_file(None, content);
    r.step(ReconcileEvent::ActiveVersion(None), 7);
    match r.step(ReconcileEvent::Version(Some(version(content, None))), 7) {
        ReconcileAction::MarkActive(h) => assert_eq!(h, hash),
        _ => panic!("expected the version to be marked active"),
    }
}

#[test]
fn unchanged_file_needs_nothing() {
    let content = "a: 1\n";
    let (mut r, _) = read_file(None, content);
    match r.step(ReconcileEvent::ActiveVersion(Some(version(content, None))), 7) {
        ReconcileAction::Finish(Ok(ReconcileResult::NoChange)) => {}
        _ => panic!("expected no change"),
    }
}

#[test]
fn store_ahead_updates_the_file() {
    let file = "a: 1\n";
    let db = version("a: 2\n", None);
    let file_hash = compute_config_hash(file);
    let (mut r, _) = read_file(None, file);
    assert!(matches!(r.step(ReconcileEvent::ActiveVersion(Some(version("a: 2\n", None))), 7), ReconcileAction::LoadState));
    let a = r.step(ReconcileEvent::State(Some(state(&file_hash, "older"))), 7);
    assert_eq!(expect_confirm(a, "Update config file to match database?", false), None);
    match r.step(ReconcileEvent::Answer(true), 7) {
        ReconcileAction::WriteFile { path: None, content } => assert_eq!(content, db.yaml_content),
        _ => panic!("expected the file to be written"),
    }
    expect_synced(r.step(ReconcileEvent::Done, 7), &db.version_hash);
    match r.step(ReconcileEvent::Done, 7) {
        ReconcileAction::Finish(Ok(ReconcileResult::FastForwardedFile { from_hash, to_hash })) => {
            assert_eq!(from_hash, file_hash);
            assert_eq!(to_hash, db.version_hash);
        }
        _ => panic!("expected the file to be fast-forwarded"),
    }
}

#[test]
fn file_ahead_updates_the_store() {
    let file = "a: 1\nb: 2\n";
    let db = version("a: 1\n", None);
    let file_hash = compute_config_hash(file);
    let (mut r, _) = read_file(None, file);
    r.step(ReconcileEvent::ActiveVersion(Some(version("a: 1\n", None))), 7);
    let a = r.step(ReconcileEvent::State(Some(state("older", &db.version_hash))), 7);
    let detail = expect_confirm(a, "Update database to match config file?", true).unwrap();
    assert!(detail.contains("+ b: 2"));
    match r.step(ReconcileEvent::Answer(true), 7) {
        ReconcileAction::LoadVersion(h) => assert_eq!(h, file_hash),
        _ => panic!("expected a lookup"),
    }
    match r.step(ReconcileEvent::Version(None), 9) {
        ReconcileAction::InsertVersion(v) => {
            assert_eq!(v.version_hash, file_hash);
            assert_eq!(v.parent_hash, Some(db.version_hash.clone()));
            assert_eq!(v.source, ConfigSource::File);
        }
        _ => panic!("expected the version to be stored"),
    }
    expect_synced(r.step(ReconcileEvent::Done, 7), &file_hash);
    match r.step(ReconcileEvent::Done, 7) {
        ReconcileAction::Finish(Ok(ReconcileResult::FastForwardedDB { from_hash, to_hash })) => {
            assert_eq!(from_hash, db.version_hash);
            assert_eq!(to_hash, file_hash);
        }
        _ => panic!("expected the store to be fast-forwarded"),
    }
}

#[test]
fn diverged_configs_merge_cleanly() {
    let base = version("a: 1\nb: 1\n", None);
    let file = "a: 2\nb: 1\n";
    let db = version("a: 1\nb: 3\n", Some(&base.version_hash));
    let file_hash = compute_config_hash(file);
    let (mut r, _) = read_file(None, file);
    r.step(ReconcileEvent::ActiveVersion(Some(version("a: 1\nb: 3\n", Some(&base.version_hash)))), 7);
    match r.step(ReconcileEvent::State(None), 7) {
        ReconcileAction::LoadVersion(h) => assert_eq!(h, base.version_hash),
        _ => panic!("expected the base to be read"),
    }
    let a = r.step(ReconcileEvent::Version(Some(version("a: 1\nb: 1\n", None))), 7);
    expect_confirm(a, "Accept merged configuration?", true).unwrap();
    let a = r.step(ReconcileEvent::Answer(true), 7);
    expect_confirm(a, "Write merged config back to file?", true);
    let merged = "a: 2\nb: 3";
    let merged_hash = compute_config_hash(merged);
    match r.step(ReconcileEvent::Answer(true), 7) {
        ReconcileAction::WriteFile { path: None, content } => assert_eq!(content, merged),
        _ => panic!("expected the merged file to be written"),
    }
    match r.step(ReconcileEvent::Done, 7) {
        ReconcileAction::LoadVersion(h) => assert_eq!(h, merged_hash),
        _ => panic!("expected a lookup"),
    }
    match r.step(ReconcileEvent::Version(None), 7) {
        ReconcileAction::InsertVersion(v) => {
            assert_eq!(v.yaml_content, merged);
            assert_eq!(v.source, ConfigSource::Merge);
            assert_eq!(v.parent_hash, Some(db.version_hash.clone()));
        }
        _ => panic!("expected the merged version to be stored"),
    }
    expect_synced(r.step(ReconcileEvent::Done, 7), &merged_hash);
    match r.step(ReconcileEvent::Done, 7) {
        ReconcileAction::Finish(Ok(ReconcileResult::Merged { base_hash, file_hash: f, db_hash, merged_hash: m })) => {
            assert_eq!(base_hash, base.version_hash);
            assert_eq!(f, file_hash);
            assert_eq!(db_hash, db.version_hash);
            assert_eq!(m, merged_hash);
        }
        _ => panic!("expected a merge"),
    }
}

#[test]
fn conflicting_merge_writes_markers() {
    let (mut r, _) = read_file(None, "a: 2\n");
    r.step(ReconcileEvent::ActiveVersion(Some(version("b: 3\n", None))), 7);
    // No parent: the base is empty and the lines conflict.
    match r.step(ReconcileEvent::State(None), 7) {
        ReconcileAction::AskPath { prompt, default } => {
            assert_eq!(prompt, "Write conflicts to");
            assert_eq!(default, PATH);
        }
        _ => panic!("expected a question for the conflict file"),
    }
    match r.step(ReconcileEvent::Path("/tmp/conflict.yml".to_string()), 7) {
        ReconcileAction::WriteFile { path: Some(p), content } => {
            assert_eq!(p, "/tmp/conflict.yml");
            assert_eq!(content, "<<<<<<< FILE\na: 2\n=======\nb: 3\n>>>>>>> DB");
        }
        _ => panic!("expected the conflict markers to be written"),
    }
    match r.step(ReconcileEvent::Done, 7) {
        ReconcileAction::UpdateState(s) => {
            assert!(s.has_conflict);
            assert_eq!(s.conflict_file_path.as_deref(), Some("/tmp/conflict.yml"));
        }
        _ => panic!("expected the conflict to be recorded"),
    }
    assert_eq!(expect_validation(r.step(ReconcileEvent::Done, 7)), "Unresolved merge conflicts in /tmp/conflict.yml");
}

#[test]
fn user_may_reject_a_clean_merge() {
    let (mut r, _) = read_file(None, "a: 2\n");
    r.step(ReconcileEvent::ActiveVersion(Some(version("a: 2\nb: 3\n", None))), 7);
    let a = r.step(ReconcileEvent::State(None), 7);
    expect_confirm(a, "Accept merged configuration?", true);
    assert_eq!(expect_validation(r.step(ReconcileEvent::Answer(false), 7)), "User rejected merge");
}

#[test]
fn unresolved_conflict_markers_stop_startup() {
    let mut st = state("f", "d");
    st.has_conflict = true;
    let (_, a) = read_file(Some(st), "<<<<<<< FILE\na: 1\n=======\na: 2\n>>>>>>> DB");
    assert_eq!(expect_validation(a), "Unresolved conflict markers in config file");
}

#[test]
fn resolved_conflict_is_stored_as_merge() {
    let mut st = state("f", "d");
    st.has_conflict = true;
    let content = "a: 3\n";
    let hash = compute_config_hash(content);
    let (mut r, a) = read_file(Some(st), content);
    expect_confirm(a, "Have you resolved all conflicts?", false);
    match r.step(ReconcileEvent::Answer(true), 7) {
        ReconcileAction::LoadVersion(h) => assert_eq!(h, hash),
        _ => panic!("expected a lookup"),
    }
    match r.step(ReconcileEvent::Version(None), 7) {
        ReconcileAction::InsertVersion(v) => {
            assert_eq!(v.parent_hash.as_deref(), Some("d"));
            assert_eq!(v.source, ConfigSource::Merge);
        }
        _ => panic!("expected the version to be stored"),
    }
    expect_synced(r.step(ReconcileEvent::Done, 7), &hash);
    match r.step(ReconcileEvent::Done, 7) {
        ReconcileAction::Finish(Ok(ReconcileResult::Merged { base_hash, file_hash, db_hash, merged_hash })) => {
            assert_eq!(base_hash, "f");
            assert_eq!(file_hash, hash);
            assert_eq!(db_hash, "d");
            assert_eq!(merged_hash, hash);
        }
        _ => panic!("expected a merge"),
    }
}

#[test]
fn invalid_resolved_yaml_is_refused() {
    let mut st = state("f", "d");
    st.has_conflict = true;
    let (mut r, _) = read_file(Some(st), "a: [1, 2\n");
    let m = expect_validation(r.step(ReconcileEvent::Answer(true), 7));
    assert!(m.starts_with("Resolved config is not valid YAML: "));
}

#[test]
fn declined_conflict_resolution_fails() {
    let mut st = state("f", "d");
    st.has_conflict = true;
    let (mut r, _) = read_file(Some(st), "a: 3\n");
    assert_eq!(expect_validation(r.step(ReconcileEvent::Answer(false), 7)), "User indicated conflicts not resolved");
}

#[test]
fn failures_end_the_reconciliation() {
    let (mut r, _) = Reconciler::start(PATH.to_string());
    match r.step(ReconcileEvent::Failed(ConfigError::Storage("disk gone".to_string())), 7) {
        ReconcileAction::Finish(Err(ConfigError::Storage(m))) => assert_eq!(m, "disk gone"),
        _ => panic!("expected the failure to end the reconciliation"),
    }
}
