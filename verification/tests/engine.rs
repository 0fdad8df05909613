use buildcore::actions::{BuildActions, FileEntry, FileReadResult};
use buildcore::context::{BuildConfigKey, Context, to_dir};
use buildcore::errors::BuildError;
use buildcore::strutil::u64_to_hex;
use buildcore::tasks::{
    BuildOutput, BuildPlugin, BuildResult, Config, FakeBuilder, FakeResolver, FilesystemBuilder,
    ResolverPlugin, Task, TaskStatus, hash_of_reads, target_shortname, CONFIG_EXTRA_FEATURES,
};
use sha2::{Digest, Sha256};

#[derive(Clone)]
struct NoopActions {}

impl BuildActions for NoopActions {
    fn download(&self, _url: &str, _dest: &str) -> Result<(), BuildError> {
        Ok(())
    }
    fn run_process(&self, _program: &str, _args: &Vec<String>) -> Result<(), BuildError> {
        Ok(())
    }
    fn path_exists(&self, _path: &str) -> bool {
        false
    }
    fn create_dir_all(&self, _path: &str) -> Result<(), BuildError> {
        Ok(())
    }
    fn read_dir(&self, _path: &str) -> Result<Vec<FileEntry>, BuildError> {
        Ok(Vec::new())
    }
    fn read_to_string(&self, path: &str) -> Result<String, BuildError> {
        Err(BuildError::NotFound(path.to_string()))
    }
    fn read_file(&self, _path: &str) -> FileReadResult {
        FileReadResult::OpenFailed
    }
}

fn ctx(config: Vec<(BuildConfigKey, String)>) -> Context<NoopActions> {
    Context::new("/cache".to_string(), config, NoopActions {})
}

fn first8_be(digest: &[u8]) -> u64 {
    let mut r: u64 = 0;
    for i in 0..8 {
        r = (r << 8) | digest[i] as u64;
    }
    r
}

#[test]
fn context_hash_of_empty_config_is_sha256_of_nothing() {
    let mut c = ctx(vec![]);
    let h = c.calculate_hash();
    let expected = first8_be(&Sha256::digest(b""));
    assert_eq!(h, expected);
    assert_eq!(h, 0xe3b0c44298fc1c14u64);
    assert_eq!(c.hash, h);
}

#[test]
fn context_hash_matches_reference_digest() {
    let mut c = ctx(vec![
        (BuildConfigKey::TargetFamily, "unix".to_string()),
        (BuildConfigKey::TargetOS, "linux".to_string()),
    ]);
    let h = c.calculate_hash();
    let mut hasher = Sha256::new();
    hasher.update(1u32.to_be_bytes());
    hasher.update(b"unix");
    hasher.update(3u32.to_be_bytes());
    hasher.update(b"linux");
    let expected = first8_be(&hasher.finalize());
    assert_eq!(h, expected);
}

#[test]
fn context_hash_is_order_independent() {
    let mut c1 = ctx(vec![
        (BuildConfigKey::TargetFamily, "unix".to_string()),
        (BuildConfigKey::TargetEnv, "gnu".to_string()),
        (BuildConfigKey::TargetOS, "linux".to_string()),
    ]);
    let mut c2 = ctx(vec![
        (BuildConfigKey::TargetOS, "linux".to_string()),
        (BuildConfigKey::TargetEnv, "gnu".to_string()),
        (BuildConfigKey::TargetFamily, "unix".to_string()),
    ]);
    assert_eq!(c1.calculate_hash(), c2.calculate_hash());
}

#[test]
fn context_hash_later_entry_wins() {
    let mut c1 = ctx(vec![
        (BuildConfigKey::TargetFamily, "windows".to_string()),
        (BuildConfigKey::TargetFamily, "unix".to_string()),
    ]);
    let mut c2 = ctx(vec![(BuildConfigKey::TargetFamily, "unix".to_string())]);
    assert_eq!(c1.calculate_hash(), c2.calculate_hash());
    assert_eq!(c1.get_config(BuildConfigKey::TargetFamily), Some("unix"));
}

#[test]
fn get_config_absent_key_is_none() {
    let c = ctx(vec![(BuildConfigKey::TargetFamily, "unix".to_string())]);
    assert_eq!(c.get_config(BuildConfigKey::TargetFamily), Some("unix"));
    assert_eq!(c.get_config(BuildConfigKey::TargetOS), None);
}

#[test]
fn config_hash_matches_reference_digest() {
    let reads = vec![FileReadResult::Content(b"hello".to_vec())];
    let h = hash_of_reads(1, 2, &reads);
    let mut hasher = Sha256::new();
    hasher.update(1u64.to_be_bytes());
    hasher.update(2u64.to_be_bytes());
    hasher.update(b"hello");
    assert_eq!(h, first8_be(&hasher.finalize()));
}

#[test]
fn config_hash_same_contents_same_hash() {
    let r1 = vec![FileReadResult::Content(b"fn main() {}".to_vec())];
    let r2 = vec![FileReadResult::Content(b"fn main() {}".to_vec())];
    assert_eq!(hash_of_reads(7, 9, &r1), hash_of_reads(7, 9, &r2));
}

#[test]
fn config_hash_one_byte_changes_hash() {
    let r1 = vec![FileReadResult::Content(b"fn main() {}".to_vec())];
    let r2 = vec![FileReadResult::Content(b"fn main() {]".to_vec())];
    assert_ne!(hash_of_reads(7, 9, &r1), hash_of_reads(7, 9, &r2));
}

#[test]
fn config_hash_sentinels_differ_from_each_other() {
    let open_failed = vec![FileReadResult::OpenFailed];
    let read_failed = vec![FileReadResult::ReadFailed];
    assert_ne!(hash_of_reads(0, 0, &open_failed), hash_of_reads(0, 0, &read_failed));
    // The markers hash as their two fixed bytes.
    let as_bytes = vec![FileReadResult::Content(vec![0x12, 0x34])];
    assert_eq!(hash_of_reads(0, 0, &open_failed), hash_of_reads(0, 0, &as_bytes));
}

#[test]
fn config_calculate_hash_stores_and_returns() {
    let mut c = empty_config();
    c.sources = vec!["/missing/a.rs".to_string()];
    let actions = NoopActions {};
    let h = c.calculate_hash(3, 4, &actions);
    assert_eq!(c.hash, h);
    let expected = hash_of_reads(3, 4, &vec![FileReadResult::OpenFailed]);
    assert_eq!(h, expected);
}

fn empty_config() -> Config {
    Config {
        dependencies: Vec::new(),
        build_plugin: String::new(),
        location: None,
        sources: Vec::new(),
        build_dependencies: Vec::new(),
        kind: String::new(),
        extras: Vec::new(),
        hash: 0,
    }
}

#[test]
fn dependencies_returns_runtime_then_plugin_then_build_deps() {
    let mut c = empty_config();
    c.dependencies = vec!["a".to_string(), "b".to_string()];
    c.build_plugin = "plugin".to_string();
    c.build_dependencies = vec!["c".to_string(), "a".to_string()];
    let deps = c.dependencies();
    assert_eq!(deps, vec!["a", "b", "plugin", "c", "a"]);
}

#[test]
fn config_get_present_and_absent_keys() {
    let mut c = empty_config();
    c.extras = vec![(CONFIG_EXTRA_FEATURES, vec!["std".to_string()])];
    assert_eq!(c.get(CONFIG_EXTRA_FEATURES), vec!["std".to_string()]);
    assert_eq!(c.get(7), Vec::<String>::new());
}

#[test]
fn build_output_get_present_and_absent_keys() {
    let o = BuildOutput {
        outputs: Vec::new(),
        extras: vec![(0, vec!["x".to_string()])],
    };
    assert_eq!(o.get(0), vec!["x".to_string()]);
    assert_eq!(o.get(1), Vec::<String>::new());
}

#[test]
fn merged_of_empty_is_empty_success() {
    let r = BuildResult::merged(&Vec::new());
    match r {
        BuildResult::Success(o) => {
            assert!(o.outputs.is_empty());
            assert!(o.extras.is_empty());
        }
        BuildResult::Failure(_) => panic!("expected success"),
    }
}

#[test]
fn merged_concatenates_outputs_in_order() {
    let results = vec![
        BuildResult::Success(BuildOutput {
            outputs: vec!["a".to_string(), "b".to_string()],
            extras: vec![(0, vec!["dropped".to_string()])],
        }),
        BuildResult::Success(BuildOutput {
            outputs: vec!["c".to_string()],
            extras: Vec::new(),
        }),
    ];
    match BuildResult::merged(&results) {
        BuildResult::Success(o) => {
            assert_eq!(o.outputs, vec!["a", "b", "c"]);
            assert!(o.extras.is_empty());
        }
        BuildResult::Failure(_) => panic!("expected success"),
    }
}

#[test]
fn merged_returns_first_failure() {
    let results = vec![
        BuildResult::Success(BuildOutput { outputs: vec!["a".to_string()], extras: Vec::new() }),
        BuildResult::Failure("first".to_string()),
        BuildResult::Failure("second".to_string()),
    ];
    match BuildResult::merged(&results) {
        BuildResult::Failure(m) => assert_eq!(m, "first"),
        BuildResult::Success(_) => panic!("expected failure"),
    }
}

#[test]
fn noop_is_empty_success() {
    match BuildResult::noop() {
        BuildResult::Success(o) => {
            assert!(o.outputs.is_empty());
            assert!(o.extras.is_empty());
        }
        BuildResult::Failure(_) => panic!("expected success"),
    }
}

#[test]
fn task_status_walks_the_state_machine() {
    let mut t = Task::new(1, "cargo://serde".to_string());
    assert_eq!(t.status(), TaskStatus::Resolving);
    assert_eq!(t.failure_stage(), TaskStatus::Resolving);

    t.dependencies = vec![0, 2];
    t.config = Some(empty_config());
    assert_eq!(t.status(), TaskStatus::Blocked);
    assert_eq!(t.failure_stage(), TaskStatus::Building);

    t.dependencies_ready = 2;
    assert_eq!(t.status(), TaskStatus::Building);

    t.result = Some(BuildResult::noop());
    assert_eq!(t.status(), TaskStatus::Done);
}

#[test]
fn task_result_dominates_status() {
    let mut t = Task::new(5, "x".to_string());
    t.result = Some(BuildResult::Failure("boom".to_string()));
    assert_eq!(t.status(), TaskStatus::Done);
}

#[test]
fn task_new_defaults() {
    let t = Task::new(3, "t".to_string());
    assert_eq!(t.id, 3);
    assert!(t.dependencies.is_empty());
    assert_eq!(t.target, "t");
    assert!(t.config.is_none());
    assert!(t.result.is_none());
    assert!(t.available);
    assert_eq!(t.dependencies_ready, 0);
}

#[test]
fn with_target_binds_target_and_keeps_hash() {
    let c = ctx(vec![]);
    let narrowed = c.with_target("cargo://serde");
    assert_eq!(narrowed.target.as_deref(), Some("cargo://serde"));
    assert_eq!(narrowed.target_hash, None);
    assert_eq!(narrowed.cache_dir, "/cache");
}

#[test]
fn with_task_copies_resolved_hash() {
    let c = ctx(vec![]);
    let mut t = Task::new(1, "cargo://serde".to_string());
    let narrowed = c.with_task(&t);
    assert_eq!(narrowed.target.as_deref(), Some("cargo://serde"));
    assert_eq!(narrowed.target_hash, None);

    let mut cfg = empty_config();
    cfg.hash = 0xbeef;
    t.config = Some(cfg);
    let narrowed = c.with_task(&t);
    assert_eq!(narrowed.target_hash, Some(0xbeef));
}

#[test]
fn get_locked_version_found_and_missing() {
    let mut c = ctx(vec![]);
    c.lockfile = vec![("cargo://serde".to_string(), "1.0.0,std".to_string())];
    assert_eq!(c.get_locked_version("cargo://serde").unwrap(), "1.0.0,std");
    match c.get_locked_version("cargo://other") {
        Err(BuildError::NotFound(m)) => {
            assert_eq!(m, "cargo://other does not have a lockfile entry!");
        }
        _ => panic!("expected a not-found error"),
    }
}

#[test]
fn working_directory_layout() {
    let mut c = ctx(vec![]);
    c.lockfile = vec![("cargo://serde".to_string(), "1.0.0".to_string())];
    assert_eq!(c.working_directory(), "/cache");
    assert_eq!(c.scratch_dir(), "/cache");

    let resolving = c.with_target("cargo://serde");
    assert_eq!(resolving.working_directory(), "/cache/resolve/cargo___serde-1.0.0");
    assert_eq!(resolving.scratch_dir(), "/cache/resolve/scratch/cargo___serde-1.0.0");

    let mut building = c.with_target("cargo://serde");
    building.target_hash = Some(0xdead);
    assert_eq!(building.working_directory(), "/cache/build/cargo___serde-dead");
    assert_eq!(building.scratch_dir(), "/cache/build/scratch/cargo___serde-dead");
}

#[test]
fn working_directory_without_lock_entry_uses_empty_version() {
    let c = ctx(vec![]);
    let resolving = c.with_target("a");
    assert_eq!(resolving.working_directory(), "/cache/resolve/a-");
}

#[test]
fn to_dir_sanitizes_separators() {
    assert_eq!(to_dir("cargo://serde"), "cargo___serde");
    assert_eq!(to_dir("a:b/c@d"), "a_b_c_d");
    assert_eq!(to_dir("plain"), "plain");
}

#[test]
fn hex_rendering_matches_format() {
    assert_eq!(u64_to_hex(0xdead), format!("{:x}", 0xdeadu64));
    assert_eq!(u64_to_hex(0), "0");
    assert_eq!(u64_to_hex(u64::MAX), format!("{:x}", u64::MAX));
}

#[test]
fn target_shortname_takes_last_segments() {
    assert_eq!(target_shortname("cargo://tools/pkg:name"), "name");
    assert_eq!(target_shortname("cargo://serde"), "serde");
    assert_eq!(target_shortname("plain"), "plain");
    assert_eq!(target_shortname(""), "");
}

#[test]
fn fake_builder_returns_noop() {
    let c = ctx(vec![]);
    let t = Task::new(0, "x".to_string());
    let b = FakeBuilder {};
    match b.build(&c, &t, &Vec::new()) {
        BuildResult::Success(o) => assert!(o.outputs.is_empty()),
        BuildResult::Failure(_) => panic!("expected success"),
    }
}

#[test]
fn filesystem_builder_wraps_location() {
    let c = ctx(vec![]);
    let mut t = Task::new(0, "x".to_string());
    let mut cfg = empty_config();
    cfg.location = Some("/some/path".to_string());
    t.config = Some(cfg);
    let b = FilesystemBuilder {};
    match b.build(&c, &t, &Vec::new()) {
        BuildResult::Success(o) => assert_eq!(o.outputs, vec!["/some/path"]),
        BuildResult::Failure(_) => panic!("expected success"),
    }
}

#[test]
fn filesystem_builder_fails_without_location() {
    let c = ctx(vec![]);
    let mut t = Task::new(0, "x".to_string());
    t.config = Some(empty_config());
    let b = FilesystemBuilder {};
    match b.build(&c, &t, &Vec::new()) {
        BuildResult::Failure(m) => {
            assert_eq!(m, "filesystem builder plugin requires a location set in the build config");
        }
        BuildResult::Success(_) => panic!("expected failure"),
    }
}

#[test]
fn fake_resolver_answers_from_table() {
    let c = ctx(vec![]);
    let mut stored = empty_config();
    stored.kind = "stored".to_string();
    let resolver = FakeResolver::with_configs(vec![
        ("cargo://good".to_string(), Ok(stored)),
        ("cargo://bad".to_string(), Err(BuildError::InvalidData("orig".to_string()))),
    ]);
    assert!(<FakeResolver as ResolverPlugin<NoopActions>>::can_resolve(&resolver, "anything"));
    let got = resolver.resolve(&c, "cargo://good").unwrap();
    assert_eq!(got.kind, "stored");
    match resolver.resolve(&c, "cargo://bad") {
        Err(BuildError::InvalidData(m)) => assert_eq!(m, "failed to read config"),
        _ => panic!("expected invalid-data error"),
    }
    match resolver.resolve(&c, "cargo://missing") {
        Err(BuildError::NotFound(m)) => {
            assert_eq!(m, "failed to resolve target cargo://missing");
        }
        _ => panic!("expected a not-found error"),
    }
}

#[test]
fn fake_resolver_last_duplicate_wins() {
    let c = ctx(vec![]);
    let mut first = empty_config();
    first.kind = "first".to_string();
    let mut second = empty_config();
    second.kind = "second".to_string();
    let resolver = FakeResolver::with_configs(vec![
        ("cargo://dup".to_string(), Ok(first)),
        ("cargo://dup".to_string(), Ok(second)),
    ]);
    let got = resolver.resolve(&c, "cargo://dup").unwrap();
    assert_eq!(got.kind, "second");
}

#[test]
fn fake_resolver_new_is_empty() {
    let c = ctx(vec![]);
    let resolver = FakeResolver::new();
    assert!(resolver.resolve(&c, "x").is_err());
}

#[test]
fn build_error_message_accessors() {
    assert_eq!(BuildError::NotFound("a".to_string()).message().as_str(), "a");
    assert_eq!(BuildError::InvalidData("b".to_string()).message().as_str(), "b");
    assert_eq!(BuildError::Other("c".to_string()).message().as_str(), "c");
}

#[test]
fn context_log_without_target_prints() {
    let c = ctx(vec![]);
    c.log("no target bound");
    let narrowed = c.with_target("cargo://serde");
    narrowed.log("first message");
    narrowed.log("second message");
}
