use vstd::prelude::*;
use crate::config::types::{
    AttributeConfig, AttributeType, Config, FiberSourceConfig, FiberTypeConfig, GapMode, PatternConfig, SourceConfig,
    TemporalConfig,
};
use crate::config::{expand_tilde_with_home, home_dir, spec_expand_tilde};
use crate::config::validate::{config_errors, validate_config};
use crate::text::{append_str, concat_str, join_chars, join_with, string_from_chars, string_views, views, chars_of};

verus! {

/// Errors of loading a configuration.
#[derive(Debug)]
pub enum ConfigError {
    /// The file could not be read; the reader's message.
    Io(String),
    /// The file is not YAML of a configuration; the parser's message.
    YamlParse(String),
    /// The configuration breaks rules; one message per broken rule.
    ValidationList(Vec<String>),
    /// A single failed check.
    Validation(String),
    /// The store failed; its message.
    Storage(String),
}

/// How a configuration error reads.
pub open spec fn config_error_text(e: ConfigError) -> Seq<char> {
    match e {
        ConfigError::Io(m) => "failed to read config file: "@ + m@,
        ConfigError::YamlParse(m) => "failed to parse YAML: "@ + m@,
        ConfigError::ValidationList(v) => "validation failed:\n"@ + join_with(string_views(v@), "\n"@),
        ConfigError::Validation(m) => "validation failed: "@ + m@,
        ConfigError::Storage(m) => "storage error: "@ + m@,
    }
}

impl ConfigError {
    /// The error's message.
    pub fn message(&self) -> (s: String)
        ensures
            s@ == config_error_text(*self),
    {
        match self {
            ConfigError::Io(m) => concat_str("failed to read config file: ", m.as_str()),
            ConfigError::YamlParse(m) => concat_str("failed to parse YAML: ", m.as_str()),
            ConfigError::ValidationList(v) => {
                let mut parts: Vec<Vec<char>> = Vec::new();
                let mut i: usize = 0;
                while i < v.len()
                    invariant
                        i <= v@.len(),
                        views(parts@) == string_views(v@).take(i as int),
                    decreases v@.len() - i,
                {
                    let c = chars_of(v[i].as_str());
                    let ghost prev = parts@;
                    parts.push(c);
                    assert(parts@ =~= prev.push(c));
                    assert(views(parts@) =~= views(prev).push(c@));
                    assert(views(parts@) =~= string_views(v@).take(i as int + 1));
                    i += 1;
                }
                assert(string_views(v@).take(v@.len() as int) =~= string_views(v@));
                let mut out: Vec<char> = Vec::new();
                append_str(&mut out, "validation failed:\n");
                let body = join_chars(&parts, chars_of("\n").as_slice());
                let mut i: usize = 0;
                let ghost start = out@;
                while i < body.len()
                    invariant
                        i <= body@.len(),
                        out@ == start + body@.take(i as int),
                    decreases body@.len() - i,
                {
                    out.push(body[i]);
                    assert(out@ =~= start + body@.take(i as int + 1));
                    i += 1;
                }
                assert(body@.take(body@.len() as int) =~= body@);
                string_from_chars(out.as_slice())
            },
            ConfigError::Validation(m) => concat_str("validation failed: ", m.as_str()),
            ConfigError::Storage(m) => concat_str("storage error: ", m.as_str()),
        }
    }
}

/// The description of the fiber type generated for a source.
pub open spec fn auto_description(name: Seq<char>) -> Seq<char> {
    "Auto-generated fiber containing all logs from "@ + name
}

/// `c` is the fiber type generated for the source: one never-closing fiber
/// holding every log of the source.
pub open spec fn is_auto_source_config(c: FiberTypeConfig, name: Seq<char>) -> bool {
    &&& c.description matches Some(d) && d@ == auto_description(name)
    &&& c.temporal.max_gap is None
    &&& c.temporal.gap_mode == GapMode::Session
    &&& c.attributes@.len() == 1
    &&& c.attributes@[0].name@ == "source_marker"@
    &&& c.attributes@[0].attr_type == AttributeType::String
    &&& c.attributes@[0].key
    &&& c.attributes@[0].derived matches Some(t) && t@ == name
    &&& c.sources@.len() == 1
    &&& c.sources@[0].0@ == name
    &&& c.sources@[0].1.patterns@.len() == 1
    &&& c.sources@[0].1.patterns@[0].regex@ == ".+"@
    &&& c.sources@[0].1.patterns@[0].release_matching_peer_keys@.len() == 0
    &&& c.sources@[0].1.patterns@[0].release_self_keys@.len() == 0
    &&& !c.sources@[0].1.patterns@[0].close
    &&& c.is_source_fiber
}

/// The fiber type generated for a source.
pub fn create_auto_source_fiber_config(source_id: &str) -> (c: FiberTypeConfig)
    ensures
        is_auto_source_config(c, source_id@),
{
    let pattern = PatternConfig {
        regex: ".+".to_string(),
        release_matching_peer_keys: Vec::new(),
        release_self_keys: Vec::new(),
        close: false,
    };
    let mut patterns: Vec<PatternConfig> = Vec::new();
    patterns.push(pattern);
    let mut sources: Vec<(String, FiberSourceConfig)> = Vec::new();
    sources.push((source_id.to_string(), FiberSourceConfig { patterns }));
    let mut attributes: Vec<AttributeConfig> = Vec::new();
    attributes.push(AttributeConfig {
        name: "source_marker".to_string(),
        attr_type: AttributeType::String,
        key: true,
        derived: Some(source_id.to_string()),
    });
    FiberTypeConfig {
        description: Some(concat_str("Auto-generated fiber containing all logs from ", source_id)),
        temporal: TemporalConfig { max_gap: None, gap_mode: GapMode::Session },
        attributes,
        sources,
        is_source_fiber: true,
    }
}

/// The source names that get a generated fiber type: each name, once, that
/// no fiber type already has.
pub open spec fn auto_added(srcs: Seq<Seq<char>>, existing: Seq<Seq<char>>) -> Seq<Seq<char>>
    decreases srcs.len(),
{
    if srcs.len() == 0 {
        Seq::empty()
    } else {
        let r = auto_added(srcs.drop_last(), existing);
        if existing.contains(srcs.last()) || r.contains(srcs.last()) {
            r
        } else {
            r.push(srcs.last())
        }
    }
}

pub open spec fn entry_names<T>(v: Seq<(String, T)>) -> Seq<Seq<char>> {
    v.map_values(|e: (String, T)| e.0@)
}

fn has_entry<T>(v: &Vec<(String, T)>, name: &String) -> (b: bool)
    ensures
        b == entry_names(v@).contains(name@),
{
    let mut i: usize = 0;
    while i < v.len()
        invariant
            i <= v@.len(),
            forall|q: int| 0 <= q < i ==> v@[q].0@ != name@,
        decreases v@.len() - i,
    {
        if v[i].0 == *name {
            assert(entry_names(v@)[i as int] == name@);
            return true;
        }
        i += 1;
    }
    false
}

/// The entry is the generated fiber type of the source.
pub open spec fn auto_entry(e: (String, FiberTypeConfig), name: Seq<char>) -> bool {
    e.0@ == name && is_auto_source_config(e.1, name)
}

/// Adds, after the configured fiber types, a generated fiber type for
/// each source that has no fiber type of its name.
pub fn add_auto_source_fibers(config: &mut Config)
    ensures
        final(config).sources == old(config).sources,
        final(config).auto_source_fibers == old(config).auto_source_fibers,
        final(config).pipeline == old(config).pipeline,
        final(config).sequencer == old(config).sequencer,
        final(config).storage == old(config).storage,
        final(config).web == old(config).web,
        final(config).fiber_types@.len() == old(config).fiber_types@.len()
            + auto_added(entry_names(old(config).sources@), entry_names(old(config).fiber_types@)).len(),
        final(config).fiber_types@.take(old(config).fiber_types@.len() as int) == old(config).fiber_types@,
        forall|i: int| 0 <= i < auto_added(entry_names(old(config).sources@), entry_names(old(config).fiber_types@)).len()
            ==> auto_entry(#[trigger] final(config).fiber_types@[old(config).fiber_types@.len() + i],
                auto_added(entry_names(old(config).sources@), entry_names(old(config).fiber_types@))[i]),
{
    let ghost srcs = entry_names(config.sources@);
    let ghost existing = entry_names(config.fiber_types@);
    let ghost n = config.fiber_types@.len();
    let ghost ft0 = config.fiber_types@;
    let mut i: usize = 0;
    while i < config.sources.len()
        invariant
            i <= srcs.len(),
            srcs == entry_names(config.sources@),
            config.sources == old(config).sources,
            config.auto_source_fibers == old(config).auto_source_fibers,
            config.pipeline == old(config).pipeline,
            config.sequencer == old(config).sequencer,
            config.storage == old(config).storage,
            config.web == old(config).web,
            config.fiber_types@.len() == n + auto_added(srcs.take(i as int), existing).len(),
            config.fiber_types@.take(n as int) == ft0,
            forall|q: int| 0 <= q < auto_added(srcs.take(i as int), existing).len() ==> auto_entry(#[trigger] config.fiber_types@[n + q], auto_added(srcs.take(i as int), existing)[q]),
            entry_names(config.fiber_types@) == existing + auto_added(srcs.take(i as int), existing),
            ft0 == old(config).fiber_types@,
            existing == entry_names(ft0),
            n == ft0.len(),
        decreases srcs.len() - i,
    {
        let ghost t = srcs.take(i as int);
        let ghost t1 = srcs.take(i as int + 1);
        assert(t1.drop_last() =~= t);
        let name = config.sources[i].0.clone();
        assert(t1.last() == name@);
        let ghost added = auto_added(t, existing);
        if !has_entry(&config.fiber_types, &name) {
            proof {
                assert(!existing.contains(name@) && !added.contains(name@)) by {
                    if existing.contains(name@) {
                        let q = choose|q: int| 0 <= q < existing.len() && existing[q] == name@;
                        assert(entry_names(config.fiber_types@)[q] == name@);
                    }
                    if added.contains(name@) {
                        let q = choose|q: int| 0 <= q < added.len() && added[q] == name@;
                        assert(entry_names(config.fiber_types@)[existing.len() + q] == name@);
                    }
                }
            }
            let c = create_auto_source_fiber_config(name.as_str());
            let ghost before = config.fiber_types@;
            config.fiber_types.push((name, c));
            proof {
                let a1 = auto_added(t1, existing);
                assert(a1 == added.push(name@));
                assert(config.fiber_types@.take(n as int) =~= ft0) by {
                    assert(before.take(n as int) == ft0);
                }
                assert forall|q: int| 0 <= q < a1.len() implies auto_entry(#[trigger] config.fiber_types@[n + q], a1[q]) by {
                    if q < added.len() {
                        assert(config.fiber_types@[n + q] == before[n + q]);
                    }
                }
                assert(entry_names(config.fiber_types@) =~= entry_names(before).push(a1.last()));
                assert(entry_names(config.fiber_types@) =~= existing + a1);
            }
        } else {
            proof {
                assert(existing.contains(name@) || added.contains(name@)) by {
                    let q = choose|q: int| 0 <= q < entry_names(config.fiber_types@).len() && entry_names(config.fiber_types@)[q] == name@;
                    if q < existing.len() {
                        assert(existing[q] == name@);
                    } else {
                        assert(added[q - existing.len()] == name@);
                    }
                }
                assert(auto_added(t1, existing) == added);
            }
        }
        i += 1;
    }
    assert(srcs.take(srcs.len() as int) =~= srcs);
}


/// Whether the source entries are the old ones with each path expanded
/// with the home directory.
pub open spec fn paths_expanded(old_s: Seq<(String, SourceConfig)>, new_s: Seq<(String, SourceConfig)>, home: Option<Seq<char>>) -> bool {
    &&& new_s.len() == old_s.len()
    &&& forall|i: int| 0 <= i < old_s.len() ==> {
        &&& (#[trigger] new_s[i]).0 == old_s[i].0
        &&& new_s[i].1.path@ == spec_expand_tilde(old_s[i].1.path@, home)
        &&& new_s[i].1.source_type == old_s[i].1.source_type
        &&& new_s[i].1.timestamp == old_s[i].1.timestamp
        &&& new_s[i].1.read == old_s[i].1.read
    }
}

pub open spec fn home_view(home: Option<&str>) -> Option<Seq<char>> {
    match home {
        Some(h) => Some(h@),
        None => None,
    }
}

/// Expands a leading `~` in the path of every source and in the storage
/// path, with the given home directory.
pub fn expand_paths_with_home(config: &mut Config, home: Option<&str>)
    ensures
        paths_expanded(old(config).sources@, final(config).sources@, home_view(home)),
        final(config).storage.path@ == spec_expand_tilde(old(config).storage.path@, home_view(home)),
        final(config).storage.batch_size == old(config).storage.batch_size,
        final(config).storage.flush_interval_seconds == old(config).storage.flush_interval_seconds,
        final(config).fiber_types == old(config).fiber_types,
        final(config).auto_source_fibers == old(config).auto_source_fibers,
        final(config).pipeline == old(config).pipeline,
        final(config).sequencer == old(config).sequencer,
        final(config).web == old(config).web,
{
    let mut srcs: Vec<(String, SourceConfig)> = Vec::new();
    std::mem::swap(&mut srcs, &mut config.sources);
    let ghost old_s = srcs@;
    let mut out: Vec<(String, SourceConfig)> = Vec::new();
    let mut k: usize = 0;
    let n = srcs.len();
    while srcs.len() > 0
        invariant
            k + srcs@.len() == n == old_s.len(),
            srcs@ == old_s.skip(k as int),
            out@.len() == k,
            forall|i: int| 0 <= i < k ==> {
                &&& (#[trigger] out@[i]).0 == old_s[i].0
                &&& out@[i].1.path@ == spec_expand_tilde(old_s[i].1.path@, home_view(home))
                &&& out@[i].1.source_type == old_s[i].1.source_type
                &&& out@[i].1.timestamp == old_s[i].1.timestamp
                &&& out@[i].1.read == old_s[i].1.read
            },
        decreases srcs@.len(),
    {
        let ghost before = srcs@;
        let (name, sc) = srcs.remove(0);
        assert(srcs@ =~= old_s.skip(k as int + 1));
        assert(before[0] == old_s[k as int]);
        let path = expand_tilde_with_home(sc.path.as_str(), home);
        let ghost hv = home_view(home);
        assert(hv == match home { Some(h) => Some(h@), None => None::<Seq<char>> });
        out.push((name, SourceConfig { source_type: sc.source_type, path, timestamp: sc.timestamp, read: sc.read }));
        k += 1;
    }
    config.sources = out;
    let p = expand_tilde_with_home(config.storage.path.as_str(), home);
    config.storage.path = p;
}

/// Expands `~` in the configured paths with the user's home directory.
pub fn expand_paths(config: &mut Config)
    ensures
        exists|h: Option<Seq<char>>| paths_expanded(old(config).sources@, final(config).sources@, h)
            && final(config).storage.path@ == spec_expand_tilde(old(config).storage.path@, h),
        final(config).fiber_types == old(config).fiber_types,
        final(config).auto_source_fibers == old(config).auto_source_fibers,
{
    let home = home_dir();
    match home {
        Some(h) => expand_paths_with_home(config, Some(h.as_str())),
        None => expand_paths_with_home(config, None),
    }
}

/// Completes a configuration just read: paths expanded with the home
/// directory, a fiber type generated per source when that is on, then
/// every rule checked.
pub fn prepare_config(config: &mut Config, home: Option<&str>) -> (r: Result<(), ConfigError>)
    ensures
        paths_expanded(old(config).sources@, final(config).sources@, home_view(home)),
        final(config).storage.path@ == spec_expand_tilde(old(config).storage.path@, home_view(home)),
        final(config).auto_source_fibers == old(config).auto_source_fibers,
        !old(config).auto_source_fibers ==> final(config).fiber_types == old(config).fiber_types,
        old(config).auto_source_fibers ==> {
            &&& final(config).fiber_types@.len() == old(config).fiber_types@.len()
                + auto_added(entry_names(old(config).sources@), entry_names(old(config).fiber_types@)).len()
            &&& final(config).fiber_types@.take(old(config).fiber_types@.len() as int) == old(config).fiber_types@
            &&& forall|i: int| 0 <= i < auto_added(entry_names(old(config).sources@), entry_names(old(config).fiber_types@)).len()
                ==> auto_entry(#[trigger] final(config).fiber_types@[old(config).fiber_types@.len() + i],
                    auto_added(entry_names(old(config).sources@), entry_names(old(config).fiber_types@))[i])
        },
        r is Ok <==> config_errors(final(config).fiber_types@, final(config).sources@).len() == 0,
        r matches Err(e) ==> e matches ConfigError::ValidationList(v) && string_views(v@) == config_errors(final(config).fiber_types@, final(config).sources@),
{
    let ghost names0 = entry_names(config.sources@);
    expand_paths_with_home(config, home);
    assert(entry_names(config.sources@) =~= names0);
    if config.auto_source_fibers {
        add_auto_source_fibers(config);
    }
    validate_config(config)
}

} // verus!
