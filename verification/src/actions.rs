//! The side-effecting boundary. Every download, subprocess invocation and
//! filesystem touch the engine makes goes through the [`BuildActions`]
//! capability, so the logic around those calls is verified for every possible
//! outcome of them. The shared per-target log store is the one deliberately
//! interior-mutable structure; nothing is claimed about its contents.

use vstd::prelude::*;
use std::sync::{Arc, Mutex, RwLock};
use std::collections::HashMap;
use std::io::Write;
use crate::errors::BuildError;

verus! {

/// One directory entry, as the actions boundary reports it.
#[derive(Debug)]
pub struct FileEntry {
    pub path: String,
    pub is_dir: bool,
    pub is_symlink: bool,
}

/// The outcome of reading one file for hashing: its full contents, a failure
/// to open it, or a failure while reading it.
#[derive(Debug)]
pub enum FileReadResult {
    Content(Vec<u8>),
    OpenFailed,
    ReadFailed,
}

/// The side-effecting operations the engine consumes but does not implement:
/// network download, subprocess execution, and the filesystem. Implementations
/// live outside the verified library (a real one over the operating system,
/// stubs in tests); nothing is assumed about what they return, so every caller
/// here is verified for all possible outcomes.
pub trait BuildActions {
    /// Download `url` into the file at `dest`, all or nothing.
    fn download(&self, url: &str, dest: &str) -> Result<(), BuildError>;

    /// Run `program` with `args`, blocking until it exits.
    fn run_process(&self, program: &str, args: &Vec<String>) -> Result<(), BuildError>;

    /// Whether a file or directory exists at `path`.
    fn path_exists(&self, path: &str) -> bool;

    /// Create `path` and any missing parents.
    fn create_dir_all(&self, path: &str) -> Result<(), BuildError>;

    /// The entries of the directory at `path`.
    fn read_dir(&self, path: &str) -> Result<Vec<FileEntry>, BuildError>;

    /// The file at `path` as text.
    fn read_to_string(&self, path: &str) -> Result<String, BuildError>;

    /// The file at `path` as bytes, or which stage of reading it failed.
    fn read_file(&self, path: &str) -> FileReadResult;
}

/// The shared per-target log store: a concurrent map from target name to an
/// append-only list of messages. Clones share the same underlying store, and
/// appends to different targets do not contend. Deliberately mutable through
/// shared references, so no contract names its contents.
#[verifier::external_body]
pub struct LogStore {
    inner: Arc<RwLock<HashMap<String, Mutex<Vec<String>>>>>,
}

impl LogStore {
    /// Relies on std::sync::Arc::new: a fresh, empty store.
    #[verifier::external_body]
    pub fn new() -> (r: LogStore)
    {
        LogStore { inner: Arc::new(RwLock::new(HashMap::new())) }
    }

    /// Relies on std::sync::Arc::clone: a handle to the same store.
    #[verifier::external_body]
    pub fn duplicate(&self) -> (r: LogStore)
    {
        LogStore { inner: Arc::clone(&self.inner) }
    }

    /// Relies on std::sync::RwLock and Mutex: appends `message` to the list
    /// for `target`, creating the list on first use. Lock poisoning drops the
    /// message rather than aborting.
    #[verifier::external_body]
    pub fn append(&self, target: &str, message: String)
    {
        if let Ok(map) = self.inner.read() {
            if let Some(list) = map.get(target) {
                if let Ok(mut l) = list.lock() {
                    l.push(message);
                }
                return;
            }
        }
        if let Ok(mut map) = self.inner.write() {
            map.insert(target.to_string(), Mutex::new(vec![message]));
        }
    }
}

/// Relies on std::io::stdout: prints one line immediately, unbuffered by the
/// log store; used when no target is bound.
#[verifier::external_body]
pub fn print_line(message: &str)
{
    let _ = writeln!(std::io::stdout(), "{}", message);
}

} // verus!
