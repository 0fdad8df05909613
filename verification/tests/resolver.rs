use std::cell::Cell;
use std::collections::HashMap;
use std::rc::Rc;

use buildcore::actions::{BuildActions, FileEntry, FileReadResult};
use buildcore::cargo::{parse_lockstring, resolve_cfg_directive, CargoResolver};
use buildcore::context::{BuildConfigKey, Context};
use buildcore::errors::BuildError;
use buildcore::tasks::{Config, ResolverPlugin, CONFIG_EXTRA_FEATURES};

/// A scripted filesystem/network: paths that exist, file texts, directory
/// listings, and counters for downloads and subprocess invocations.
#[derive(Clone)]
struct StubActions {
    existing: Rc<Vec<String>>,
    files: Rc<HashMap<String, String>>,
    dirs: Rc<HashMap<String, Vec<(String, bool, bool)>>>,
    downloads: Rc<Cell<usize>>,
    processes: Rc<Cell<usize>>,
}

impl StubActions {
    fn new(
        existing: Vec<&str>,
        files: Vec<(&str, &str)>,
        dirs: Vec<(&str, Vec<(&str, bool, bool)>)>,
    ) -> StubActions {
        StubActions {
            existing: Rc::new(existing.into_iter().map(|s| s.to_string()).collect()),
            files: Rc::new(
                files.into_iter().map(|(k, v)| (k.to_string(), v.to_string())).collect(),
            ),
            dirs: Rc::new(
                dirs.into_iter()
                    .map(|(k, es)| {
                        (
                            k.to_string(),
                            es.into_iter().map(|(p, d, s)| (p.to_string(), d, s)).collect(),
                        )
                    })
                    .collect(),
            ),
            downloads: Rc::new(Cell::new(0)),
            processes: Rc::new(Cell::new(0)),
        }
    }
}

impl BuildActions for StubActions {
    fn download(&self, _url: &str, _dest: &str) -> Result<(), BuildError> {
        self.downloads.set(self.downloads.get() + 1);
        Ok(())
    }
    fn run_process(&self, _program: &str, _args: &Vec<String>) -> Result<(), BuildError> {
        self.processes.set(self.processes.get() + 1);
        Ok(())
    }
    fn path_exists(&self, path: &str) -> bool {
        self.existing.iter().any(|p| p == path)
    }
    fn create_dir_all(&self, _path: &str) -> Result<(), BuildError> {
        Ok(())
    }
    fn read_dir(&self, path: &str) -> Result<Vec<FileEntry>, BuildError> {
        Ok(match self.dirs.get(path) {
            Some(es) => es
                .iter()
                .map(|(p, d, s)| FileEntry { path: p.clone(), is_dir: *d, is_symlink: *s })
                .collect(),
            None => Vec::new(),
        })
    }
    fn read_to_string(&self, path: &str) -> Result<String, BuildError> {
        match self.files.get(path) {
            Some(t) => Ok(t.clone()),
            None => Err(BuildError::NotFound(path.to_string())),
        }
    }
    fn read_file(&self, _path: &str) -> FileReadResult {
        FileReadResult::OpenFailed
    }
}

const WORKDIR: &str = "/cache/resolve/cargo___mycrate-0.1.0,bar";

fn resolver_context(manifest: &str, actions: StubActions) -> Context<StubActions> {
    let mut actions = actions;
    {
        let files = Rc::get_mut(&mut actions.files).unwrap();
        files.insert(format!("{WORKDIR}/crate/Cargo.toml"), manifest.to_string());
    }
    let mut c = Context::new("/cache".to_string(), vec![], actions);
    c.lockfile = vec![("cargo://mycrate".to_string(), "0.1.0,bar".to_string())];
    c.with_target("cargo://mycrate")
}

fn unpacked_stub() -> StubActions {
    StubActions::new(
        vec![
            "/cache/resolve/cargo___mycrate-0.1.0,bar/crate.tar",
            "/cache/resolve/cargo___mycrate-0.1.0,bar/crate",
        ],
        vec![],
        vec![(
            "/cache/resolve/cargo___mycrate-0.1.0,bar/crate/src",
            vec![("/cache/resolve/cargo___mycrate-0.1.0,bar/crate/src/lib.rs", false, false)],
        )],
    )
}

fn resolve(manifest: &str) -> Result<Config, BuildError> {
    let c = resolver_context(manifest, unpacked_stub());
    CargoResolver::new().resolve(&c, "cargo://mycrate")
}

#[test]
fn resolves_manifest_with_feature_gated_dependency() {
    let config = resolve(
        "[dependencies]\nfoo = \"1\"\n\n[features]\nbar = [\"dep:baz\"]\n",
    )
    .unwrap();
    assert_eq!(config.dependencies, vec!["cargo://foo", "cargo://baz"]);
    assert_eq!(config.get(CONFIG_EXTRA_FEATURES), vec!["bar".to_string()]);
    assert_eq!(config.build_plugin, "@rust_plugin");
    assert_eq!(config.build_dependencies, vec!["@rust_compiler"]);
    assert_eq!(config.kind, "rust_library");
    assert_eq!(config.location, None);
    assert_eq!(
        config.sources,
        vec!["/cache/resolve/cargo___mycrate-0.1.0,bar/crate/src/lib.rs"]
    );
}

#[test]
fn feature_reference_contributes_no_dependency() {
    let config = resolve(
        "[dependencies]\nfoo = \"1\"\n\n[features]\nbar = [\"qux\"]\nqux = []\n",
    )
    .unwrap();
    assert_eq!(config.dependencies, vec!["cargo://foo"]);
}

#[test]
fn cross_dependency_feature_reference_contributes_no_dependency() {
    let config = resolve("[features]\nbar = [\"foo/std\"]\n").unwrap();
    assert_eq!(config.dependencies, Vec::<String>::new());
}

#[test]
fn bare_feature_entry_names_an_optional_dependency() {
    let config = resolve("[features]\nbar = [\"extra\"]\n").unwrap();
    assert_eq!(config.dependencies, vec!["cargo://extra"]);
}

#[test]
fn disabled_feature_contributes_nothing() {
    let config = resolve("[features]\nother = [\"dep:baz\"]\n").unwrap();
    assert_eq!(config.dependencies, Vec::<String>::new());
}

#[test]
fn optional_dependencies_are_excluded() {
    let config = resolve(
        "[dependencies]\nfoo = { version = \"1\", optional = true }\nbar = \"1\"\n",
    )
    .unwrap();
    assert_eq!(config.dependencies, vec!["cargo://bar"]);
}

#[test]
fn optional_dependency_deduplicated_across_features() {
    let config = resolve(
        "[features]\nbar = [\"dep:baz\", \"dep:baz\"]\n",
    )
    .unwrap();
    assert_eq!(config.dependencies, vec!["cargo://baz"]);
}

#[test]
fn unix_condition_applies_when_configured() {
    let manifest = "[target.'cfg(unix)'.dependencies]\nlibc = \"1\"\n";
    let mut actions = unpacked_stub();
    {
        let files = Rc::get_mut(&mut actions.files).unwrap();
        files.insert(format!("{WORKDIR}/crate/Cargo.toml"), manifest.to_string());
    }
    let mut c = Context::new(
        "/cache".to_string(),
        vec![(BuildConfigKey::TargetFamily, "unix".to_string())],
        actions,
    );
    c.lockfile = vec![("cargo://mycrate".to_string(), "0.1.0,bar".to_string())];
    let c = c.with_target("cargo://mycrate");
    let config = CargoResolver::new().resolve(&c, "cargo://mycrate").unwrap();
    assert_eq!(config.dependencies, vec!["cargo://libc"]);
}

#[test]
fn unix_condition_fails_closed_without_configuration() {
    let config = resolve("[target.'cfg(unix)'.dependencies]\nlibc = \"1\"\n").unwrap();
    assert_eq!(config.dependencies, Vec::<String>::new());
}

#[test]
fn unrecognized_conditions_fail_closed() {
    let config = resolve(
        "[target.'cfg(windows)'.dependencies]\nwinapi = \"1\"\n\n[target.x86_64-unknown-linux-gnu.dependencies]\nnix = \"1\"\n",
    )
    .unwrap();
    assert_eq!(config.dependencies, Vec::<String>::new());
}

#[test]
fn invalid_manifest_is_invalid_data() {
    match resolve("not [ valid toml") {
        Err(BuildError::InvalidData(_)) => {}
        _ => panic!("expected an invalid-data error"),
    }
}

#[test]
fn missing_lock_entry_is_not_found() {
    let c = resolver_context("[dependencies]\n", unpacked_stub());
    match CargoResolver::new().resolve(&c, "cargo://unlocked") {
        Err(BuildError::NotFound(_)) => {}
        _ => panic!("expected a not-found error"),
    }
}

#[test]
fn foreign_scheme_is_rejected() {
    let c = resolver_context("[dependencies]\n", unpacked_stub());
    match CargoResolver::new().resolve(&c, "git://elsewhere") {
        Err(BuildError::Other(m)) => assert_eq!(m, "invalid target name"),
        _ => panic!("expected a rejection"),
    }
}

#[test]
fn can_resolve_matches_the_scheme_prefix() {
    let r = CargoResolver::new();
    assert!(ResolverPlugin::<StubActions>::can_resolve(&r, "cargo://serde"));
    assert!(!ResolverPlugin::<StubActions>::can_resolve(&r, "git://serde"));
    assert!(!ResolverPlugin::<StubActions>::can_resolve(&r, "cargo:/serde"));
}

#[test]
fn existing_unpack_directory_skips_unpack() {
    let actions = unpacked_stub();
    let processes = Rc::clone(&actions.processes);
    let downloads = Rc::clone(&actions.downloads);
    let c = resolver_context("[dependencies]\nfoo = \"1\"\n", actions);
    let r = CargoResolver::new();
    r.resolve(&c, "cargo://mycrate").unwrap();
    assert_eq!(processes.get(), 0);
    assert_eq!(downloads.get(), 0);
    // Re-invoking resolution must not re-invoke the unpack action either.
    r.resolve(&c, "cargo://mycrate").unwrap();
    assert_eq!(processes.get(), 0);
    assert_eq!(downloads.get(), 0);
}

#[test]
fn missing_archive_downloads_and_unpacks_once_each() {
    let actions = StubActions::new(
        vec![],
        vec![(
            "/cache/resolve/cargo___mycrate-0.1.0/crate/Cargo.toml",
            "[dependencies]\nfoo = \"1\"\n",
        )],
        vec![],
    );
    let processes = Rc::clone(&actions.processes);
    let downloads = Rc::clone(&actions.downloads);
    let mut c = Context::new("/cache".to_string(), vec![], actions);
    c.lockfile = vec![("cargo://mycrate".to_string(), "0.1.0".to_string())];
    let c = c.with_target("cargo://mycrate");
    CargoResolver::new().resolve(&c, "cargo://mycrate").unwrap();
    assert_eq!(downloads.get(), 1);
    assert_eq!(processes.get(), 1);
}

#[test]
fn source_enumeration_recurses_and_skips_symlinks() {
    let src = format!("{WORKDIR}/crate/src");
    let sub = format!("{WORKDIR}/crate/src/sub.rs");
    let link = format!("{WORKDIR}/crate/src/link");
    let actions = StubActions::new(
        vec![
            "/cache/resolve/cargo___mycrate-0.1.0,bar/crate.tar",
            "/cache/resolve/cargo___mycrate-0.1.0,bar/crate",
        ],
        vec![],
        vec![
            (
                src.as_str(),
                vec![
                    (format!("{src}/lib.rs").as_str(), false, false),
                    // a directory whose name carries the extension: walked, not collected
                    (sub.as_str(), true, false),
                    (link.as_str(), true, true),
                    (format!("{src}/README.md").as_str(), false, false),
                ],
            ),
            (sub.as_str(), vec![(format!("{sub}/a.rs").as_str(), false, false)]),
            (link.as_str(), vec![(format!("{link}/evil.rs").as_str(), false, false)]),
        ],
    );
    let c = resolver_context("[dependencies]\n", actions);
    let config = CargoResolver::new().resolve(&c, "cargo://mycrate").unwrap();
    assert!(config.sources.iter().any(|s| s.ends_with("/lib.rs")));
    assert!(config.sources.iter().any(|s| s.ends_with("/a.rs")));
    assert!(!config.sources.iter().any(|s| s.contains("evil")));
    assert!(!config.sources.iter().any(|s| s.contains("README")));
    assert!(!config.sources.iter().any(|s| s.ends_with("/sub.rs")));
    assert_eq!(config.sources.len(), 2);
}

#[test]
fn parse_lockstring_splits_version_and_features() {
    let (version, features) = parse_lockstring("1.0.0,std,derive");
    assert_eq!(version, "1.0.0");
    assert_eq!(features, vec!["std", "derive"]);
}

#[test]
fn parse_lockstring_without_features() {
    let (version, features) = parse_lockstring("0.1.0");
    assert_eq!(version, "0.1.0");
    assert!(features.is_empty());
}

#[test]
fn cfg_directive_recognizes_unix_only() {
    let unix_ctx = Context::new(
        "/c".to_string(),
        vec![(BuildConfigKey::TargetFamily, "unix".to_string())],
        unpacked_stub(),
    );
    assert_eq!(resolve_cfg_directive(&unix_ctx, "unix").unwrap(), true);
    assert_eq!(resolve_cfg_directive(&unix_ctx, "windows").unwrap(), false);
    let other_ctx = Context::new(
        "/c".to_string(),
        vec![(BuildConfigKey::TargetFamily, "windows".to_string())],
        unpacked_stub(),
    );
    assert_eq!(resolve_cfg_directive(&other_ctx, "unix").unwrap(), false);
    let bare_ctx = Context::new("/c".to_string(), vec![], unpacked_stub());
    assert_eq!(resolve_cfg_directive(&bare_ctx, "unix").unwrap(), false);
}

#[test]
fn resolved_hash_is_the_placeholder() {
    let config = resolve("[dependencies]\n").unwrap();
    assert_eq!(config.hash, 1010);
}
