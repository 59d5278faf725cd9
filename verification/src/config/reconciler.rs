use vstd::prelude::*;
use crate::config::diff::{create_diff, line_diff, plain_diff_text};
use crate::config::parse::ConfigError;
use crate::config::reconcile::{
    classify_divergence, has_conflict_markers, merge_three_way, opt_view, spec_divergence, spec_has_conflict_markers,
    spec_merge_three_way, Divergence, MergeResult, ReconcileResult,
};
use crate::config::version::{compute_config_hash, config_hash_text, read_yaml_tree, yaml_read_error, yaml_reads};
use crate::storage::traits::{ConfigSource, ConfigState, ConfigVersion};
use crate::text::{append_str, string_from_chars};
use crate::time::Timestamp;

verus! {

/// Checks that a text reads as YAML; on failure, the reader's message.
fn check_yaml(content: &str) -> (r: Result<(), String>)
    ensures
        match r {
            Ok(()) => yaml_reads(content@),
            Err(m) => !yaml_reads(content@) && m@ == yaml_read_error(content@),
        },
{
    match read_yaml_tree(content) {
        Ok(_) => Ok(()),
        Err(m) => Err(m),
    }
}

/// What the reconciliation of the configuration file with the stored
/// configuration asks of its surroundings next.
pub enum ReconcileAction {
    /// Read the stored configuration state (answer: `State`).
    LoadState,
    /// Read the configuration file (answer: `File`).
    ReadFile,
    /// Read the active stored version (answer: `ActiveVersion`).
    LoadActiveVersion,
    /// Read the stored version with this hash (answer: `Version`).
    LoadVersion(String),
    /// Show `detail`, if any, and ask a yes/no question (answer: `Answer`).
    Confirm { prompt: String, default: bool, detail: Option<String> },
    /// Ask for a path (answer: `Path`).
    AskPath { prompt: String, default: String },
    /// Write a file, the configuration file when `path` is `None` (answer: `Done`).
    WriteFile { path: Option<String>, content: String },
    /// Mark the stored version with this hash active (answer: `Done`).
    MarkActive(String),
    /// Store a new version (answer: `Done`).
    InsertVersion(ConfigVersion),
    /// Store the configuration state (answer: `Done`).
    UpdateState(ConfigState),
    /// The reconciliation is over.
    Finish(Result<ReconcileResult, ConfigError>),
}

/// What the surroundings answer to an action.
pub enum ReconcileEvent {
    State(Option<ConfigState>),
    File(String),
    ActiveVersion(Option<ConfigVersion>),
    Version(Option<ConfigVersion>),
    Answer(bool),
    Path(String),
    Done,
    /// The action failed.
    Failed(ConfigError),
}

/// Where the reconciliation stands: what it waits for, and what it knows.
pub enum Phase {
    AwaitStartState,
    AwaitConflictFile { state: ConfigState },
    AwaitConflictAnswer { state: ConfigState, content: String },
    AwaitFile,
    AwaitActive { content: String, hash: String },
    AwaitDivergeState { content: String, hash: String, db: ConfigVersion },
    AwaitFileUpdateAnswer { content: String, hash: String, db: ConfigVersion },
    AwaitDbUpdateAnswer { content: String, hash: String, db: ConfigVersion },
    AwaitBase { content: String, hash: String, db: ConfigVersion },
    AwaitAccept { merged: String, hash: String, db: ConfigVersion, base_hash: String },
    AwaitWriteBack { merged: String, hash: String, db: ConfigVersion, base_hash: String },
    AwaitMergedWritten { merged: String, hash: String, db: ConfigVersion, base_hash: String },
    AwaitConflictPath { markers: String, hash: String, db_hash: String },
    AwaitMarkersWritten { path: String, hash: String, db_hash: String },
    AwaitFileWritten { hash: String, db_hash: String },
    AwaitLookup { hash: String, parent: Option<String>, content: String, source: ConfigSource, outcome: ReconcileResult },
    AwaitSaved { hash: String, outcome: ReconcileResult },
    AwaitStateSaved { outcome: Result<ReconcileResult, ConfigError> },
    Finished,
}

/// The reconciliation of the configuration file with the stored
/// configuration at startup, as a machine that issues actions and takes
/// their answers.
pub struct Reconciler {
    pub config_path: String,
    pub phase: Phase,
}

/// The answer that the phase waits for (a failure is taken in every phase
/// but the last).
pub open spec fn accepts(p: Phase, e: ReconcileEvent) -> bool {
    match e {
        ReconcileEvent::Failed(_) => !(p is Finished),
        ReconcileEvent::State(_) => p is AwaitStartState || p is AwaitDivergeState,
        ReconcileEvent::File(_) => p is AwaitConflictFile || p is AwaitFile,
        ReconcileEvent::ActiveVersion(_) => p is AwaitActive,
        ReconcileEvent::Version(_) => p is AwaitBase || p is AwaitLookup,
        ReconcileEvent::Answer(_) => p is AwaitConflictAnswer || p is AwaitFileUpdateAnswer || p is AwaitDbUpdateAnswer
            || p is AwaitAccept || p is AwaitWriteBack,
        ReconcileEvent::Path(_) => p is AwaitConflictPath,
        ReconcileEvent::Done => p is AwaitMergedWritten || p is AwaitMarkersWritten || p is AwaitFileWritten
            || p is AwaitSaved || p is AwaitStateSaved,
    }
}

pub open spec fn or_empty(o: Option<String>) -> Seq<char> {
    match o {
        Some(s) => s@,
        None => Seq::empty(),
    }
}

/// The state of file and store in step, both at version `h`.
pub open spec fn synced(s: ConfigState, h: Seq<char>) -> bool {
    &&& !s.has_conflict
    &&& s.conflict_file_path is None
    &&& opt_view(s.file_version_hash) == Some(h)
    &&& opt_view(s.db_version_hash) == Some(h)
}

pub open spec fn confirm_is(a: ReconcileAction, prompt: Seq<char>, default: bool, detail: Option<Seq<char>>) -> bool {
    a matches ReconcileAction::Confirm { prompt: p, default: d, detail: t } && p@ == prompt && d == default && opt_view(t) == detail
}

/// The reconciliation ends with a failed check of this message.
pub open spec fn fails_with(q: Phase, a: ReconcileAction, msg: Seq<char>) -> bool {
    &&& q is Finished
    &&& a matches ReconcileAction::Finish(Err(ConfigError::Validation(m))) && m@ == msg
}

/// A version `h` of content `c` is about to be saved, and `out` reported
/// when it and the state are stored.
pub open spec fn saves(q: Phase, a: ReconcileAction, h: Seq<char>, parent: Option<Seq<char>>, c: Seq<char>, source: ConfigSource) -> bool {
    &&& q matches Phase::AwaitLookup { hash, parent: par, content, source: src, .. }
        && hash@ == h && opt_view(par) == parent && content@ == c && src == source
    &&& a matches ReconcileAction::LoadVersion(x) && x@ == h
}

pub open spec fn merged_outcome(r: ReconcileResult, b: Seq<char>, f: Seq<char>, d: Seq<char>, m: Seq<char>) -> bool {
    r matches ReconcileResult::Merged { base_hash, file_hash, db_hash, merged_hash }
        && base_hash@ == b && file_hash@ == f && db_hash@ == d && merged_hash@ == m
}

/// Saving the merged text: its hash is computed and the version looked up.
pub open spec fn saves_merged(q: Phase, a: ReconcileAction, merged: Seq<char>, h: Seq<char>, db: ConfigVersion, base_hash: Seq<char>) -> bool {
    let mh = config_hash_text(merged);
    &&& saves(q, a, mh, Some(db.version_hash@), merged, ConfigSource::Merge)
    &&& q matches Phase::AwaitLookup { outcome, .. } && merged_outcome(outcome, base_hash, h, db.version_hash@, mh)
}

/// The three-way merge of the file (`c`, hash `h`) and the stored version
/// `db` against `base`.
pub open spec fn merges(path: Seq<char>, base: Option<ConfigVersion>, c: Seq<char>, h: Seq<char>, db: ConfigVersion, q: Phase, a: ReconcileAction) -> bool {
    let base_text = match base { Some(b) => b.yaml_content@, None => Seq::empty() };
    let base_hash = match base { Some(b) => b.version_hash@, None => Seq::empty() };
    let (merged, conflict) = spec_merge_three_way(base_text, db.yaml_content@, c);
    if conflict {
        &&& q matches Phase::AwaitConflictPath { markers, hash, db_hash }
            && markers@ == merged && hash@ == h && db_hash@ == db.version_hash@
        &&& a matches ReconcileAction::AskPath { prompt, default } && prompt@ == "Write conflicts to"@ && default@ == path
    } else if !yaml_reads(merged) {
        fails_with(q, a, "Merge produced invalid YAML: "@ + yaml_read_error(merged))
    } else {
        &&& q matches Phase::AwaitAccept { merged: m, hash, db: d, base_hash: bh }
            && m@ == merged && hash@ == h && d == db && bh@ == base_hash
        &&& confirm_is(a, "Accept merged configuration?"@, true, Some(plain_diff_text(line_diff(db.yaml_content@, merged))))
    }
}

/// The merge starts: with the parent of the stored version as base, once
/// it is read, or with no base.
pub open spec fn starts_merge(path: Seq<char>, c: Seq<char>, h: Seq<char>, db: ConfigVersion, q: Phase, a: ReconcileAction) -> bool {
    match db.parent_hash {
        Some(p) => {
            &&& q matches Phase::AwaitBase { content, hash, db: d } && content@ == c && hash@ == h && d == db
            &&& a matches ReconcileAction::LoadVersion(x) && x@ == p@
        },
        None => merges(path, None, c, h, db, q, a),
    }
}

/// One step of the reconciliation: in phase `p`, at time `now`, the answer
/// `e` leads to phase `q` and action `a`.
pub open spec fn step_spec(path: Seq<char>, p: Phase, e: ReconcileEvent, now: Timestamp, q: Phase, a: ReconcileAction) -> bool {
    match e {
        ReconcileEvent::Failed(err) => q is Finished && a == ReconcileAction::Finish(Err(err)),
        _ => match p {
            Phase::AwaitStartState => match e {
                ReconcileEvent::State(st) => {
                    &&& a is ReadFile
                    &&& match st {
                        Some(s) => if s.has_conflict { q == (Phase::AwaitConflictFile { state: s }) } else { q is AwaitFile },
                        None => q is AwaitFile,
                    }
                },
                _ => false,
            },
            Phase::AwaitConflictFile { state } => match e {
                ReconcileEvent::File(c) => if spec_has_conflict_markers(c@) {
                    fails_with(q, a, "Unresolved conflict markers in config file"@)
                } else {
                    &&& q matches Phase::AwaitConflictAnswer { state: s, content } && s == state && content@ == c@
                    &&& confirm_is(a, "Have you resolved all conflicts?"@, false, None)
                },
                _ => false,
            },
            Phase::AwaitConflictAnswer { state, content } => match e {
                ReconcileEvent::Answer(yes) => if !yes {
                    fails_with(q, a, "User indicated conflicts not resolved"@)
                } else if !yaml_reads(content@) {
                    fails_with(q, a, "Resolved config is not valid YAML: "@ + yaml_read_error(content@))
                } else {
                    let h = config_hash_text(content@);
                    &&& saves(q, a, h, opt_view(state.db_version_hash), content@, ConfigSource::Merge)
                    &&& q matches Phase::AwaitLookup { outcome, .. }
                        && merged_outcome(outcome, or_empty(state.file_version_hash), h, or_empty(state.db_version_hash), h)
                },
                _ => false,
            },
            Phase::AwaitFile => match e {
                ReconcileEvent::File(c) => {
                    &&& q matches Phase::AwaitActive { content, hash } && content@ == c@ && hash@ == config_hash_text(c@)
                    &&& a is LoadActiveVersion
                },
                _ => false,
            },
            Phase::AwaitActive { content, hash } => match e {
                ReconcileEvent::ActiveVersion(None) => {
                    &&& saves(q, a, hash@, None, content@, ConfigSource::File)
                    &&& q matches Phase::AwaitLookup { outcome, .. } && outcome matches ReconcileResult::Initialized { hash: h } && h@ == hash@
                },
                ReconcileEvent::ActiveVersion(Some(db)) => if hash@ == db.version_hash@ {
                    q is Finished && a matches ReconcileAction::Finish(Ok(ReconcileResult::NoChange))
                } else {
                    &&& q matches Phase::AwaitDivergeState { content: c, hash: h, db: d } && c == content && h == hash && d == db
                    &&& a is LoadState
                },
                _ => false,
            },
            Phase::AwaitDivergeState { content, hash, db } => match e {
                ReconcileEvent::State(st) => match spec_divergence(hash@, db.version_hash@, st) {
                    Divergence::StoreAhead => {
                        &&& q == (Phase::AwaitFileUpdateAnswer { content, hash, db })
                        &&& confirm_is(a, "Update config file to match database?"@, false, None)
                    },
                    Divergence::FileAhead => {
                        &&& q == (Phase::AwaitDbUpdateAnswer { content, hash, db })
                        &&& confirm_is(a, "Update database to match config file?"@, true,
                            Some(plain_diff_text(line_diff(db.yaml_content@, content@))))
                    },
                    Divergence::Diverged => starts_merge(path, content@, hash@, db, q, a),
                },
                _ => false,
            },
            Phase::AwaitFileUpdateAnswer { content, hash, db } => match e {
                ReconcileEvent::Answer(yes) => if yes {
                    &&& q matches Phase::AwaitFileWritten { hash: h, db_hash } && h == hash && db_hash@ == db.version_hash@
                    &&& a matches ReconcileAction::WriteFile { path: None, content: c } && c@ == db.yaml_content@
                } else {
                    starts_merge(path, content@, hash@, db, q, a)
                },
                _ => false,
            },
            Phase::AwaitDbUpdateAnswer { content, hash, db } => match e {
                ReconcileEvent::Answer(yes) => if yes {
                    &&& saves(q, a, hash@, Some(db.version_hash@), content@, ConfigSource::File)
                    &&& q matches Phase::AwaitLookup { outcome, .. } && outcome matches ReconcileResult::FastForwardedDB { from_hash, to_hash }
                        && from_hash@ == db.version_hash@ && to_hash@ == hash@
                } else {
                    starts_merge(path, content@, hash@, db, q, a)
                },
                _ => false,
            },
            Phase::AwaitBase { content, hash, db } => match e {
                ReconcileEvent::Version(base) => merges(path, base, content@, hash@, db, q, a),
                _ => false,
            },
            Phase::AwaitAccept { merged, hash, db, base_hash } => match e {
                ReconcileEvent::Answer(yes) => if !yes {
                    fails_with(q, a, "User rejected merge"@)
                } else {
                    &&& q == (Phase::AwaitWriteBack { merged, hash, db, base_hash })
                    &&& confirm_is(a, "Write merged config back to file?"@, true, None)
                },
                _ => false,
            },
            Phase::AwaitWriteBack { merged, hash, db, base_hash } => match e {
                ReconcileEvent::Answer(yes) => if yes {
                    &&& q matches Phase::AwaitMergedWritten { merged: m, hash: h, db: d, base_hash: b }
                        && m@ == merged@ && h@ == hash@ && d == db && b@ == base_hash@
                    &&& a matches ReconcileAction::WriteFile { path: None, content: c } && c@ == merged@
                } else {
                    saves_merged(q, a, merged@, hash@, db, base_hash@)
                },
                _ => false,
            },
            Phase::AwaitMergedWritten { merged, hash, db, base_hash } => match e {
                ReconcileEvent::Done => saves_merged(q, a, merged@, hash@, db, base_hash@),
                _ => false,
            },
            Phase::AwaitConflictPath { markers, hash, db_hash } => match e {
                ReconcileEvent::Path(p) => {
                    &&& q matches Phase::AwaitMarkersWritten { path: pp, hash: h, db_hash: d } && pp@ == p@ && h == hash && d == db_hash
                    &&& a matches ReconcileAction::WriteFile { path: Some(wp), content: c } && wp@ == p@ && c@ == markers@
                },
                _ => false,
            },
            Phase::AwaitMarkersWritten { path: p, hash, db_hash } => match e {
                ReconcileEvent::Done => {
                    &&& q matches Phase::AwaitStateSaved { outcome: Err(ConfigError::Validation(m)) }
                        && m@ == "Unresolved merge conflicts in "@ + p@
                    &&& a matches ReconcileAction::UpdateState(s) && s.has_conflict && opt_view(s.conflict_file_path) == Some(p@)
                        && opt_view(s.file_version_hash) == Some(hash@) && opt_view(s.db_version_hash) == Some(db_hash@)
                },
                _ => false,
            },
            Phase::AwaitFileWritten { hash, db_hash } => match e {
                ReconcileEvent::Done => {
                    &&& q matches Phase::AwaitStateSaved { outcome: Ok(ReconcileResult::FastForwardedFile { from_hash, to_hash }) }
                        && from_hash@ == hash@ && to_hash@ == db_hash@
                    &&& a matches ReconcileAction::UpdateState(s) && synced(s, db_hash@)
                },
                _ => false,
            },
            Phase::AwaitLookup { hash, parent, content, source, outcome } => match e {
                ReconcileEvent::Version(v) => {
                    &&& q matches Phase::AwaitSaved { hash: h, outcome: o } && h@ == hash@ && o == outcome
                    &&& match v {
                        Some(_) => a matches ReconcileAction::MarkActive(x) && x@ == hash@,
                        None => a matches ReconcileAction::InsertVersion(ver) && ver.version_hash@ == hash@
                            && opt_view(ver.parent_hash) == opt_view(parent) && ver.yaml_content@ == content@
                            && ver.created_at == now && ver.source == source && ver.is_active,
                    }
                },
                _ => false,
            },
            Phase::AwaitSaved { hash, outcome } => match e {
                ReconcileEvent::Done => {
                    &&& q == (Phase::AwaitStateSaved { outcome: Ok(outcome) })
                    &&& a matches ReconcileAction::UpdateState(s) && synced(s, hash@)
                },
                _ => false,
            },
            Phase::AwaitStateSaved { outcome } => match e {
                ReconcileEvent::Done => q is Finished && a == ReconcileAction::Finish(outcome),
                _ => false,
            },
            Phase::Finished => false,
        },
    }
}


fn failed(msg: &str) -> (r: (Phase, ReconcileAction))
    ensures
        fails_with(r.0, r.1, msg@),
{
    (Phase::Finished, ReconcileAction::Finish(Err(ConfigError::Validation(String::from_str(msg)))))
}

fn failed_with(prefix: &str, detail: &str) -> (r: (Phase, ReconcileAction))
    ensures
        fails_with(r.0, r.1, prefix@ + detail@),
{
    let mut m: Vec<char> = Vec::new();
    append_str(&mut m, prefix);
    append_str(&mut m, detail);
    (Phase::Finished, ReconcileAction::Finish(Err(ConfigError::Validation(string_from_chars(m.as_slice())))))
}

fn confirm(prompt: &str, default: bool, detail: Option<String>) -> (a: ReconcileAction)
    ensures
        confirm_is(a, prompt@, default, opt_view(detail)),
{
    ReconcileAction::Confirm { prompt: String::from_str(prompt), default, detail }
}

fn clone_opt(o: &Option<String>) -> (r: Option<String>)
    ensures
        r == *o,
{
    match o {
        Some(s) => Some(s.clone()),
        None => None,
    }
}

fn unwrap_or_empty(o: &Option<String>) -> (r: String)
    ensures
        r@ == or_empty(*o),
{
    match o {
        Some(s) => s.clone(),
        None => String::new(),
    }
}

fn synced_state(h: &String) -> (s: ConfigState)
    ensures
        synced(s, h@),
{
    ConfigState {
        has_conflict: false,
        conflict_file_path: None,
        file_version_hash: Some(h.clone()),
        db_version_hash: Some(h.clone()),
    }
}

fn lookup(hash: String, parent: Option<String>, content: String, source: ConfigSource, outcome: ReconcileResult) -> (r: (Phase, ReconcileAction))
    ensures
        saves(r.0, r.1, hash@, opt_view(parent), content@, source),
        r.0 matches Phase::AwaitLookup { outcome: o, .. } && o == outcome,
{
    let key = hash.clone();
    (Phase::AwaitLookup { hash, parent, content, source, outcome }, ReconcileAction::LoadVersion(key))
}

fn save_merged(merged: String, hash: String, db: ConfigVersion, base_hash: String) -> (r: (Phase, ReconcileAction))
    ensures
        saves_merged(r.0, r.1, merged@, hash@, db, base_hash@),
{
    let mh = compute_config_hash(merged.as_str());
    let outcome = ReconcileResult::Merged {
        base_hash,
        file_hash: hash,
        db_hash: db.version_hash.clone(),
        merged_hash: mh.clone(),
    };
    lookup(mh, Some(db.version_hash.clone()), merged, ConfigSource::Merge, outcome)
}

fn merge_phase(path: &String, base: Option<ConfigVersion>, content: String, hash: String, db: ConfigVersion) -> (r: (Phase, ReconcileAction))
    ensures
        merges(path@, base, content@, hash@, db, r.0, r.1),
{
    let ghost b0 = base;
    let (base_text, base_hash) = match base {
        Some(b) => (b.yaml_content, b.version_hash),
        None => (String::new(), String::new()),
    };
    assert(base_text@ == match b0 { Some(b) => b.yaml_content@, None => Seq::<char>::empty() });
    match merge_three_way(base_text.as_str(), db.yaml_content.as_str(), content.as_str()) {
        MergeResult::Conflict(markers) => {
            let db_hash = db.version_hash.clone();
            (Phase::AwaitConflictPath { markers, hash, db_hash },
                ReconcileAction::AskPath { prompt: String::from_str("Write conflicts to"), default: path.clone() })
        },
        MergeResult::Clean(merged) => {
            match check_yaml(merged.as_str()) {
                Err(e) => failed_with("Merge produced invalid YAML: ", e.as_str()),
                Ok(()) => {
                    let diff = create_diff(db.yaml_content.as_str(), merged.as_str());
                    let a = confirm("Accept merged configuration?", true, Some(diff));
                    (Phase::AwaitAccept { merged, hash, db, base_hash }, a)
                },
            }
        },
    }
}

fn start_merge(path: &String, content: String, hash: String, db: ConfigVersion) -> (r: (Phase, ReconcileAction))
    ensures
        starts_merge(path@, content@, hash@, db, r.0, r.1),
{
    match &db.parent_hash {
        Some(p) => {
            let key = p.clone();
            (Phase::AwaitBase { content, hash, db }, ReconcileAction::LoadVersion(key))
        },
        None => merge_phase(path, None, content, hash, db),
    }
}

impl Reconciler {
    /// Starts a reconciliation for the configuration file at `config_path`:
    /// it first reads the stored state.
    pub fn start(config_path: String) -> (r: (Reconciler, ReconcileAction))
        ensures
            r.0.config_path == config_path,
            r.0.phase is AwaitStartState,
            r.1 is LoadState,
    {
        (Reconciler { config_path, phase: Phase::AwaitStartState }, ReconcileAction::LoadState)
    }

    /// Takes the answer to the last action, at time `now` (the creation
    /// time of a version stored in this step), and gives the next action.
    pub fn step(&mut self, event: ReconcileEvent, now: Timestamp) -> (a: ReconcileAction)
        requires
            accepts(old(self).phase, event),
        ensures
            final(self).config_path == old(self).config_path,
            step_spec(old(self).config_path@, old(self).phase, event, now, final(self).phase, a),
    {
        let mut phase = Phase::Finished;
        std::mem::swap(&mut phase, &mut self.phase);
        let (next, action) = self.next(phase, event, now);
        self.phase = next;
        action
    }

    fn next(&self, phase: Phase, event: ReconcileEvent, now: Timestamp) -> (r: (Phase, ReconcileAction))
        requires
            accepts(phase, event),
        ensures
            step_spec(self.config_path@, phase, event, now, r.0, r.1),
    {
        if let ReconcileEvent::Failed(err) = event {
            return (Phase::Finished, ReconcileAction::Finish(Err(err)));
        }
        match phase {
            Phase::AwaitStartState => match event {
                ReconcileEvent::State(st) => match st {
                    Some(s) => if s.has_conflict {
                        (Phase::AwaitConflictFile { state: s }, ReconcileAction::ReadFile)
                    } else {
                        (Phase::AwaitFile, ReconcileAction::ReadFile)
                    },
                    None => (Phase::AwaitFile, ReconcileAction::ReadFile),
                },
                _ => vstd::pervasive::unreached(),
            },
            Phase::AwaitConflictFile { state } => match event {
                ReconcileEvent::File(c) => if has_conflict_markers(c.as_str()) {
                    failed("Unresolved conflict markers in config file")
                } else {
                    (Phase::AwaitConflictAnswer { state, content: c }, confirm("Have you resolved all conflicts?", false, None))
                },
                _ => vstd::pervasive::unreached(),
            },
            Phase::AwaitConflictAnswer { state, content } => match event {
                ReconcileEvent::Answer(yes) => if !yes {
                    failed("User indicated conflicts not resolved")
                } else {
                    match check_yaml(content.as_str()) {
                        Err(e) => failed_with("Resolved config is not valid YAML: ", e.as_str()),
                        Ok(()) => {
                            let h = compute_config_hash(content.as_str());
                            let outcome = ReconcileResult::Merged {
                                base_hash: unwrap_or_empty(&state.file_version_hash),
                                file_hash: h.clone(),
                                db_hash: unwrap_or_empty(&state.db_version_hash),
                                merged_hash: h.clone(),
                            };
                            let parent = clone_opt(&state.db_version_hash);
                            lookup(h, parent, content, ConfigSource::Merge, outcome)
                        },
                    }
                },
                _ => vstd::pervasive::unreached(),
            },
            Phase::AwaitFile => match event {
                ReconcileEvent::File(c) => {
                    let h = compute_config_hash(c.as_str());
                    (Phase::AwaitActive { content: c, hash: h }, ReconcileAction::LoadActiveVersion)
                },
                _ => vstd::pervasive::unreached(),
            },
            Phase::AwaitActive { content, hash } => match event {
                ReconcileEvent::ActiveVersion(v) => match v {
                    None => {
                        let outcome = ReconcileResult::Initialized { hash: hash.clone() };
                        lookup(hash, None, content, ConfigSource::File, outcome)
                    },
                    Some(db) => {
                        let same = crate::text::str_eq(hash.as_str(), db.version_hash.as_str());
                        if same {
                            (Phase::Finished, ReconcileAction::Finish(Ok(ReconcileResult::NoChange)))
                        } else {
                            (Phase::AwaitDivergeState { content, hash, db }, ReconcileAction::LoadState)
                        }
                    },
                },
                _ => vstd::pervasive::unreached(),
            },
            Phase::AwaitDivergeState { content, hash, db } => match event {
                ReconcileEvent::State(st) => match classify_divergence(hash.as_str(), db.version_hash.as_str(), &st) {
                    Divergence::StoreAhead => {
                        let a = confirm("Update config file to match database?", false, None);
                        (Phase::AwaitFileUpdateAnswer { content, hash, db }, a)
                    },
                    Divergence::FileAhead => {
                        let diff = create_diff(db.yaml_content.as_str(), content.as_str());
                        let a = confirm("Update database to match config file?", true, Some(diff));
                        (Phase::AwaitDbUpdateAnswer { content, hash, db }, a)
                    },
                    Divergence::Diverged => start_merge(&self.config_path, content, hash, db),
                },
                _ => vstd::pervasive::unreached(),
            },
            Phase::AwaitFileUpdateAnswer { content, hash, db } => match event {
                ReconcileEvent::Answer(yes) => if yes {
                    let text = db.yaml_content.clone();
                    let db_hash = db.version_hash.clone();
                    (Phase::AwaitFileWritten { hash, db_hash }, ReconcileAction::WriteFile { path: None, content: text })
                } else {
                    start_merge(&self.config_path, content, hash, db)
                },
                _ => vstd::pervasive::unreached(),
            },
            Phase::AwaitDbUpdateAnswer { content, hash, db } => match event {
                ReconcileEvent::Answer(yes) => if yes {
                    let outcome = ReconcileResult::FastForwardedDB { from_hash: db.version_hash.clone(), to_hash: hash.clone() };
                    lookup(hash, Some(db.version_hash.clone()), content, ConfigSource::File, outcome)
                } else {
                    start_merge(&self.config_path, content, hash, db)
                },
                _ => vstd::pervasive::unreached(),
            },
            Phase::AwaitBase { content, hash, db } => match event {
                ReconcileEvent::Version(base) => merge_phase(&self.config_path, base, content, hash, db),
                _ => vstd::pervasive::unreached(),
            },
            Phase::AwaitAccept { merged, hash, db, base_hash } => match event {
                ReconcileEvent::Answer(yes) => if !yes {
                    failed("User rejected merge")
                } else {
                    let a = confirm("Write merged config back to file?", true, None);
                    (Phase::AwaitWriteBack { merged, hash, db, base_hash }, a)
                },
                _ => vstd::pervasive::unreached(),
            },
            Phase::AwaitWriteBack { merged, hash, db, base_hash } => match event {
                ReconcileEvent::Answer(yes) => if yes {
                    let text = merged.clone();
                    (Phase::AwaitMergedWritten { merged, hash, db, base_hash }, ReconcileAction::WriteFile { path: None, content: text })
                } else {
                    save_merged(merged, hash, db, base_hash)
                },
                _ => vstd::pervasive::unreached(),
            },
            Phase::AwaitMergedWritten { merged, hash, db, base_hash } => match event {
                ReconcileEvent::Done => save_merged(merged, hash, db, base_hash),
                _ => vstd::pervasive::unreached(),
            },
            Phase::AwaitConflictPath { markers, hash, db_hash } => match event {
                ReconcileEvent::Path(p) => {
                    let wp = p.clone();
                    (Phase::AwaitMarkersWritten { path: p, hash, db_hash }, ReconcileAction::WriteFile { path: Some(wp), content: markers })
                },
                _ => vstd::pervasive::unreached(),
            },
            Phase::AwaitMarkersWritten { path, hash, db_hash } => match event {
                ReconcileEvent::Done => {
                    let mut m: Vec<char> = Vec::new();
                    append_str(&mut m, "Unresolved merge conflicts in ");
                    append_str(&mut m, path.as_str());
                    let state = ConfigState {
                        has_conflict: true,
                        conflict_file_path: Some(path),
                        file_version_hash: Some(hash),
                        db_version_hash: Some(db_hash),
                    };
                    let err = ConfigError::Validation(string_from_chars(m.as_slice()));
                    (Phase::AwaitStateSaved { outcome: Err(err) }, ReconcileAction::UpdateState(state))
                },
                _ => vstd::pervasive::unreached(),
            },
            Phase::AwaitFileWritten { hash, db_hash } => match event {
                ReconcileEvent::Done => {
                    let state = synced_state(&db_hash);
                    let outcome = ReconcileResult::FastForwardedFile { from_hash: hash, to_hash: db_hash };
                    (Phase::AwaitStateSaved { outcome: Ok(outcome) }, ReconcileAction::UpdateState(state))
                },
                _ => vstd::pervasive::unreached(),
            },
            Phase::AwaitLookup { hash, parent, content, source, outcome } => match event {
                ReconcileEvent::Version(v) => match v {
                    Some(_) => {
                        let key = hash.clone();
                        (Phase::AwaitSaved { hash, outcome }, ReconcileAction::MarkActive(key))
                    },
                    None => {
                        let version = ConfigVersion {
                            version_hash: hash.clone(),
                            parent_hash: parent,
                            yaml_content: content,
                            created_at: now,
                            source,
                            is_active: true,
                        };
                        (Phase::AwaitSaved { hash, outcome }, ReconcileAction::InsertVersion(version))
                    },
                },
                _ => vstd::pervasive::unreached(),
            },
            Phase::AwaitSaved { hash, outcome } => match event {
                ReconcileEvent::Done => {
                    let state = synced_state(&hash);
                    (Phase::AwaitStateSaved { outcome: Ok(outcome) }, ReconcileAction::UpdateState(state))
                },
                _ => vstd::pervasive::unreached(),
            },
            Phase::AwaitStateSaved { outcome } => match event {
                ReconcileEvent::Done => (Phase::Finished, ReconcileAction::Finish(outcome)),
                _ => vstd::pervasive::unreached(),
            },
            Phase::Finished => vstd::pervasive::unreached(),
        }
    }
}


/// In every phase that holds a file's content beside a hash, the hash is
/// the content's version hash.
pub open spec fn hashes_match(p: Phase) -> bool {
    match p {
        Phase::AwaitActive { content, hash } => hash@ == config_hash_text(content@),
        Phase::AwaitDivergeState { content, hash, .. } => hash@ == config_hash_text(content@),
        Phase::AwaitFileUpdateAnswer { content, hash, .. } => hash@ == config_hash_text(content@),
        Phase::AwaitDbUpdateAnswer { content, hash, .. } => hash@ == config_hash_text(content@),
        Phase::AwaitBase { content, hash, .. } => hash@ == config_hash_text(content@),
        Phase::AwaitLookup { hash, content, .. } => hash@ == config_hash_text(content@),
        _ => true,
    }
}

/// Every version that the reconciliation stores is stored under the hash
/// of its own content: each step keeps `hashes_match`, which holds at the
/// start, and every version it inserts carries the hash of its text.
pub proof fn law_versions_stored_under_their_hash(path: Seq<char>, p: Phase, e: ReconcileEvent, now: Timestamp, q: Phase, a: ReconcileAction)
    requires
        hashes_match(p),
        step_spec(path, p, e, now, q, a),
    ensures
        hashes_match(q),
        a matches ReconcileAction::InsertVersion(v) ==> v.version_hash@ == config_hash_text(v.yaml_content@),
{
}

} // verus!
