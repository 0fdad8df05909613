//! The execution context: the ambient handle every operation receives. It
//! carries the configuration key/value store, the cache root, the optional
//! current target with its optional resolved hash, the shared log store, the
//! locked-version table, and the side-effecting actions.

use vstd::prelude::*;
use crate::actions::{BuildActions, LogStore, print_line};
use crate::errors::BuildError;
use crate::hashing::{
    Sha256Hasher, be32, digest64, hasher_finish64, hasher_input, hasher_new, hasher_update,
    hasher_update_u32_be,
};
use crate::strutil::{hex_of, lemma_hex_of_injective};
use vstd::utf8::encode_utf8;

verus! {

/// The closed set of configuration keys a context can carry.
#[derive(Debug, Clone, Copy, PartialEq, Eq, Structural)]
pub enum BuildConfigKey {
    TargetFamily,
    TargetEnv,
    TargetOS,
}

impl BuildConfigKey {
    /// The integer encoding of the key, used for sorting and hashing.
    pub open spec fn code_spec(self) -> u32 {
        match self {
            BuildConfigKey::TargetFamily => 1,
            BuildConfigKey::TargetEnv => 2,
            BuildConfigKey::TargetOS => 3,
        }
    }

    /// The integer encoding of the key.
    pub fn code(self) -> (r: u32)
        ensures
            r == self.code_spec(),
    {
        match self {
            BuildConfigKey::TargetFamily => 1,
            BuildConfigKey::TargetEnv => 2,
            BuildConfigKey::TargetOS => 3,
        }
    }
}

/// The execution context. Cheap to narrow: `with_target` and `with_task`
/// return a copy sharing the log store. The configuration store is kept
/// sorted by key code and read-only after construction.
pub struct Context<A> {
    pub actions: A,
    pub lockfile: Vec<(String, String)>,
    pub cache_dir: String,
    pub target: Option<String>,
    pub target_hash: Option<u64>,
    pub logs: LogStore,
    pub config: Vec<(u32, String)>,
    pub hash: u64,
}

/// Entries strictly sorted by key code (hence unique).
pub open spec fn cfg_sorted(s: Seq<(u32, String)>) -> bool {
    forall|i: int, j: int| 0 <= i < j < s.len() ==> s[i].0 < s[j].0
}

/// The value bound to `k`, looking from the most recent entry backwards.
pub open spec fn cfg_find(s: Seq<(u32, String)>, k: u32) -> Option<Seq<char>>
    decreases s.len(),
{
    if s.len() == 0 {
        None
    } else if s.last().0 == k {
        Some(s.last().1@)
    } else {
        cfg_find(s.drop_last(), k)
    }
}

/// The value bound to `k` in the construction input; later entries win.
pub open spec fn input_find(s: Seq<(BuildConfigKey, String)>, k: u32) -> Option<Seq<char>>
    decreases s.len(),
{
    if s.len() == 0 {
        None
    } else if s.last().0.code_spec() == k {
        Some(s.last().1@)
    } else {
        input_find(s.drop_last(), k)
    }
}

/// The first lockfile value bound to `k`.
pub open spec fn lock_find(s: Seq<(String, String)>, k: Seq<char>) -> Option<Seq<char>>
    decreases s.len(),
{
    if s.len() == 0 {
        None
    } else if s.first().0@ == k {
        Some(s.first().1@)
    } else {
        lock_find(s.drop_first(), k)
    }
}

/// The locked version for `t`, or the empty string when none is recorded.
pub open spec fn locked_version_or_empty(lock: Seq<(String, String)>, t: Seq<char>) -> Seq<char> {
    match lock_find(lock, t) {
        Some(v) => v,
        None => Seq::empty(),
    }
}

/// Directory-name sanitization: `:`, `/` and `@` become `_`.
pub open spec fn sanitized(s: Seq<char>) -> Seq<char> {
    s.map_values(|c: char| if c == ':' || c == '/' || c == '@' { '_' } else { c })
}

/// The view of an optional string.
pub open spec fn opt_view(o: Option<String>) -> Option<Seq<char>> {
    match o {
        Some(s) => Some(s@),
        None => None,
    }
}

/// The configuration bytes fed to the context hash: for each entry in sorted
/// order, the key code big-endian followed by the UTF-8 bytes of the value.
pub open spec fn context_stream(s: Seq<(u32, String)>) -> Seq<u8>
    decreases s.len(),
{
    if s.len() == 0 {
        Seq::empty()
    } else {
        context_stream(s.drop_last()) + be32(s.last().0) + encode_utf8(s.last().1@)
    }
}

/// The working directory for a target/hash pair: the cache root itself with
/// no target; `<root>/resolve/<sanitized>-<locked version>` for an unresolved
/// target; `<root>/build/<sanitized>-<hash hex>` once a hash is bound.
pub open spec fn working_directory_spec(
    cache: Seq<char>,
    lock: Seq<(String, String)>,
    target: Option<Seq<char>>,
    hash: Option<u64>,
) -> Seq<char> {
    match target {
        None => cache,
        Some(t) => match hash {
            None => cache + "/resolve/"@ + sanitized(t) + seq!['-']
                + locked_version_or_empty(lock, t),
            Some(h) => cache + "/build/"@ + sanitized(t) + seq!['-'] + hex_of(h as nat),
        },
    }
}

/// The scratch directory: as the working directory, with a `scratch` level
/// between the group and the stem.
pub open spec fn scratch_dir_spec(
    cache: Seq<char>,
    lock: Seq<(String, String)>,
    target: Option<Seq<char>>,
    hash: Option<u64>,
) -> Seq<char> {
    match target {
        None => cache,
        Some(t) => match hash {
            None => cache + "/resolve/scratch/"@ + sanitized(t) + seq!['-']
                + locked_version_or_empty(lock, t),
            Some(h) => cache + "/build/scratch/"@ + sanitized(t) + seq!['-']
                + hex_of(h as nat),
        },
    }
}

proof fn lemma_cfg_find_present(s: Seq<(u32, String)>, k: u32, i: int)
    requires
        cfg_sorted(s),
        0 <= i < s.len(),
        s[i].0 == k,
    ensures
        cfg_find(s, k) == Some(s[i].1@),
    decreases s.len(),
{
    if i == s.len() - 1 {
    } else {
        assert(s.last().0 != k);
        assert(s.drop_last()[i] == s[i]);
        lemma_cfg_find_present(s.drop_last(), k, i);
    }
}

proof fn lemma_cfg_find_absent(s: Seq<(u32, String)>, k: u32)
    requires
        forall|i: int| 0 <= i < s.len() ==> s[i].0 != k,
    ensures
        cfg_find(s, k) is None,
    decreases s.len(),
{
    if s.len() > 0 {
        lemma_cfg_find_absent(s.drop_last(), k);
    }
}

/// Inserts `(k, v)` into a sorted store, replacing any entry with the same key.
fn insert_sorted(entries: &mut Vec<(u32, String)>, k: u32, v: String)
    requires
        cfg_sorted(old(entries)@),
    ensures
        cfg_sorted(final(entries)@),
        forall|q: u32| cfg_find(final(entries)@, q)
            == (if q == k { Some(v@) } else { cfg_find(old(entries)@, q) }),
{
    let ghost s0 = entries@;
    let mut i: usize = 0;
    while i < entries.len() && entries[i].0 < k
        invariant
            i <= entries.len(),
            entries@ == s0,
            forall|j: int| 0 <= j < i ==> s0[j].0 < k,
        decreases entries.len() - i,
    {
        i += 1;
    }
    let ghost vv = v@;
    if i < entries.len() && entries[i].0 == k {
        let ghost idx = i as int;
        entries.set(i, (k, v));
        proof {
            let s1 = entries@;
            assert(cfg_sorted(s1)) by {
                assert(forall|a: int, b: int| 0 <= a < b < s1.len()
                    ==> s1[a].0 == (if a == idx { k } else { s0[a].0 })
                        && s1[b].0 == (if b == idx { k } else { s0[b].0 }));
            }
            assert forall|q: u32| cfg_find(s1, q)
                == (if q == k { Some(vv) } else { cfg_find(s0, q) }) by {
                if q == k {
                    lemma_cfg_find_present(s1, q, idx);
                } else {
                    if exists|j: int| 0 <= j < s0.len() && s0[j].0 == q {
                        let j = choose|j: int| 0 <= j < s0.len() && s0[j].0 == q;
                        assert(s1[j].0 == q && s1[j].1@ == s0[j].1@);
                        lemma_cfg_find_present(s0, q, j);
                        lemma_cfg_find_present(s1, q, j);
                    } else {
                        lemma_cfg_find_absent(s0, q);
                        assert(forall|j: int| 0 <= j < s1.len() ==> s1[j].0 != q);
                        lemma_cfg_find_absent(s1, q);
                    }
                }
            }
        }
    } else {
        let ghost idx = i as int;
        proof {
            assert(forall|j: int| idx <= j < s0.len() ==> s0[j].0 > k) by {
                assert(idx < s0.len() ==> s0[idx as int].0 > k);
                assert(forall|j: int| idx < j < s0.len() ==> s0[idx as int].0 < s0[j].0);
            }
        }
        entries.insert(i, (k, v));
        proof {
            let s1 = entries@;
            assert(s1 =~= s0.subrange(0, idx).push((k, v)) + s0.subrange(idx, s0.len() as int));
            assert(forall|j: int| 0 <= j < idx ==> s1[j] == s0[j]);
            assert(s1[idx] == (k, v));
            assert(forall|j: int| idx < j < s1.len() ==> s1[j] == s0[j - 1]);
            assert(cfg_sorted(s1)) by {
                assert forall|a: int, b: int| 0 <= a < b < s1.len() implies s1[a].0 < s1[b].0 by {
                    if a < idx && b == idx {
                        assert(s0[a].0 < k);
                    } else if a == idx && b > idx {
                        assert(s0[b - 1].0 > k);
                    }
                }
            }
            assert forall|q: u32| cfg_find(s1, q)
                == (if q == k { Some(vv) } else { cfg_find(s0, q) }) by {
                if q == k {
                    lemma_cfg_find_present(s1, q, idx);
                    assert(forall|j: int| 0 <= j < s0.len() ==> s0[j].0 != q);
                    lemma_cfg_find_absent(s0, q);
                } else {
                    if exists|j: int| 0 <= j < s0.len() && s0[j].0 == q {
                        let j = choose|j: int| 0 <= j < s0.len() && s0[j].0 == q;
                        let j1 = if j < idx { j } else { j + 1 };
                        assert(s1[j1].0 == q && s1[j1].1@ == s0[j].1@);
                        lemma_cfg_find_present(s0, q, j);
                        lemma_cfg_find_present(s1, q, j1);
                    } else {
                        lemma_cfg_find_absent(s0, q);
                        assert(forall|j: int| 0 <= j < s1.len() ==> s1[j].0 != q);
                        lemma_cfg_find_absent(s1, q);
                    }
                }
            }
        }
    }
}

/// A copy of a configuration store, entry for entry.
fn copy_cfg(v: &Vec<(u32, String)>) -> (r: Vec<(u32, String)>)
    ensures
        r@ == v@,
{
    let mut r: Vec<(u32, String)> = Vec::new();
    let mut i: usize = 0;
    while i < v.len()
        invariant
            i <= v.len(),
            r@ =~= v@.subrange(0, i as int),
        decreases v.len() - i,
    {
        let k = v[i].0;
        let s = v[i].1.clone();
        r.push((k, s));
        i += 1;
    }
    proof {
        assert(r@ =~= v@);
    }
    r
}

/// A copy of a lockfile table, entry for entry.
fn copy_lock(v: &Vec<(String, String)>) -> (r: Vec<(String, String)>)
    ensures
        r@ == v@,
{
    let mut r: Vec<(String, String)> = Vec::new();
    let mut i: usize = 0;
    while i < v.len()
        invariant
            i <= v.len(),
            r@ =~= v@.subrange(0, i as int),
        decreases v.len() - i,
    {
        let a = v[i].0.clone();
        let b = v[i].1.clone();
        r.push((a, b));
        i += 1;
    }
    proof {
        assert(r@ =~= v@);
    }
    r
}

impl<A: BuildActions> Context<A> {
    /// The context invariant: the configuration store is sorted by key code,
    /// and a bound hash implies a bound target.
    pub open spec fn wf(&self) -> bool {
        &&& cfg_sorted(self.config@)
        &&& self.target_hash is Some ==> self.target is Some
    }

    /// A fresh context over `cache_dir` holding the given configuration;
    /// later entries for the same key win. No target is bound, the lockfile
    /// is empty and the hash is not yet computed.
    pub fn new(cache_dir: String, config: Vec<(BuildConfigKey, String)>, actions: A) -> (r:
        Context<A>)
        ensures
            r.wf(),
            forall|q: u32| cfg_find(r.config@, q) == input_find(config@, q),
            r.cache_dir@ == cache_dir@,
            r.target is None,
            r.target_hash is None,
            r.lockfile@.len() == 0,
            r.hash == 0,
    {
        let ghost orig = config@;
        let mut config = config;
        let mut entries: Vec<(u32, String)> = Vec::new();
        let ghost done: int = 0;
        while config.len() > 0
            invariant
                cfg_sorted(entries@),
                0 <= done <= orig.len(),
                config@ =~= orig.subrange(done, orig.len() as int),
                forall|q: u32| cfg_find(entries@, q) == input_find(orig.subrange(0, done), q),
            decreases config.len(),
        {
            let (k, v) = config.remove(0);
            let ghost prev = orig.subrange(0, done);
            proof {
                done = done + 1;
            }
            let code = k.code();
            insert_sorted(&mut entries, code, v);
            proof {
                let cur = orig.subrange(0, done);
                assert(cur.drop_last() =~= prev);
                assert(cur.last() == orig[done - 1]);
                assert(orig[done - 1].0 == k && orig[done - 1].1@ == v@);
                assert forall|q: u32| cfg_find(entries@, q) == input_find(cur, q) by {
                    if q == k.code_spec() {
                        assert(input_find(cur, q) == Some(cur.last().1@));
                    } else {
                        assert(input_find(cur, q) == input_find(prev, q));
                    }
                }
            }
        }
        proof {
            assert(orig.subrange(0, done) =~= orig);
        }
        Context {
            actions,
            lockfile: Vec::new(),
            cache_dir,
            target: None,
            target_hash: None,
            logs: LogStore::new(),
            config: entries,
            hash: 0,
        }
    }

    /// The configured value for `key`, if any.
    pub fn get_config(&self, key: BuildConfigKey) -> (r: Option<&str>)
        requires
            self.wf(),
        ensures
            match r {
                Some(s) => cfg_find(self.config@, key.code_spec()) == Some(s@),
                None => cfg_find(self.config@, key.code_spec()) is None,
            },
    {
        let code = key.code();
        let mut i: usize = 0;
        while i < self.config.len()
            invariant
                self.wf(),
                code == key.code_spec(),
                i <= self.config.len(),
                forall|j: int| 0 <= j < i ==> self.config@[j].0 != code,
            decreases self.config.len() - i,
        {
            if self.config[i].0 == code {
                proof {
                    lemma_cfg_find_present(self.config@, code, i as int);
                }
                return Some(self.config[i].1.as_str());
            }
            i += 1;
        }
        proof {
            lemma_cfg_find_absent(self.config@, code);
        }
        None
    }

    /// Computes and stores the configuration-derived identity of the context:
    /// the leading eight bytes, big-endian, of the SHA-256 digest of the
    /// sorted entries, each fed as its key code followed by its value bytes.
    pub fn calculate_hash(&mut self) -> (r: u64)
        ensures
            r == digest64(context_stream(old(self).config@)),
            final(self).hash == r,
            final(self).config == old(self).config,
            final(self).lockfile == old(self).lockfile,
            final(self).cache_dir == old(self).cache_dir,
            final(self).target == old(self).target,
            final(self).target_hash == old(self).target_hash,
            final(self).actions == old(self).actions,
            final(self).logs == old(self).logs,
    {
        let mut h = hasher_new();
        let mut i: usize = 0;
        while i < self.config.len()
            invariant
                i <= self.config.len(),
                *self == *old(self),
                hasher_input(h) == context_stream(self.config@.subrange(0, i as int)),
            decreases self.config.len() - i,
        {
            let ghost prev = self.config@.subrange(0, i as int);
            hasher_update_u32_be(&mut h, self.config[i].0);
            hasher_update(&mut h, self.config[i].1.as_str().as_bytes());
            i += 1;
            proof {
                let cur = self.config@.subrange(0, i as int);
                assert(cur.drop_last() =~= prev);
                assert(cur.last() == self.config@[i - 1]);
            }
        }
        proof {
            assert(self.config@.subrange(0, self.config.len() as int) =~= self.config@);
        }
        let r = hasher_finish64(h);
        self.hash = r;
        r
    }

    /// A copy of the context narrowed to `target`. The shared log store is
    /// the same store; the configuration, lockfile and hash carry over.
    pub fn with_target(&self, target: &str) -> (r: Context<A>)
        where A: Clone
        ensures
            r.config@ == self.config@,
            r.lockfile@ == self.lockfile@,
            r.cache_dir@ == self.cache_dir@,
            r.target is Some && opt_view(r.target) == Some(target@),
            r.target_hash == self.target_hash,
            r.hash == self.hash,
            self.wf() && self.target is Some ==> r.wf(),
            self.wf() && self.target_hash is None ==> r.wf(),
    {
        Context {
            actions: self.actions.clone(),
            lockfile: copy_lock(&self.lockfile),
            cache_dir: self.cache_dir.clone(),
            target: Some(target.to_owned()),
            target_hash: self.target_hash,
            logs: self.logs.duplicate(),
            config: copy_cfg(&self.config),
            hash: self.hash,
        }
    }

    /// A copy of the context narrowed to `task`: the task's target is bound,
    /// and the hash of its resolved configuration, when present, comes along.
    pub fn with_task(&self, task: &crate::tasks::Task) -> (r: Context<A>)
        where A: Clone
        ensures
            r.config@ == self.config@,
            r.lockfile@ == self.lockfile@,
            r.cache_dir@ == self.cache_dir@,
            opt_view(r.target) == Some(task.target@),
            r.target_hash == (match task.config {
                Some(c) => Some(c.hash),
                None => None::<u64>,
            }),
            r.hash == self.hash,
            self.wf() ==> r.wf(),
    {
        let target_hash = match &task.config {
            Some(c) => Some(c.hash),
            None => None,
        };
        Context {
            actions: self.actions.clone(),
            lockfile: copy_lock(&self.lockfile),
            cache_dir: self.cache_dir.clone(),
            target: Some(task.target.clone()),
            target_hash,
            logs: self.logs.duplicate(),
            config: copy_cfg(&self.config),
            hash: self.hash,
        }
    }

    /// The locked version/feature string for `target`, or `NotFound` when the
    /// lockfile has no entry for it.
    pub fn get_locked_version(&self, target: &str) -> (r: Result<String, BuildError>)
        ensures
            match lock_find(self.lockfile@, target@) {
                Some(v) => r is Ok && r->Ok_0@ == v,
                None => r is Err && r->Err_0 is NotFound
                    && r->Err_0.message_view()
                        == target@ + " does not have a lockfile entry!"@,
            },
    {
        proof {
            assert(self.lockfile@.subrange(0, self.lockfile@.len() as int) =~= self.lockfile@);
        }
        let mut i: usize = 0;
        while i < self.lockfile.len()
            invariant
                i <= self.lockfile.len(),
                lock_find(self.lockfile@, target@)
                    == lock_find(self.lockfile@.subrange(i as int, self.lockfile@.len() as int),
                        target@),
            decreases self.lockfile.len() - i,
        {
            let ghost rest = self.lockfile@.subrange(i as int, self.lockfile@.len() as int);
            if crate::strutil::str_eq(self.lockfile[i].0.as_str(), target) {
                assert(rest.first() == self.lockfile@[i as int]);
                return Ok(self.lockfile[i].1.clone());
            }
            proof {
                assert(rest.first() == self.lockfile@[i as int]);
                assert(rest.drop_first()
                    =~= self.lockfile@.subrange(i + 1, self.lockfile@.len() as int));
            }
            i += 1;
        }
        proof {
            assert(self.lockfile@.subrange(self.lockfile@.len() as int,
                self.lockfile@.len() as int).len() == 0);
        }
        Err(BuildError::NotFound(
            target.to_owned().concat(" does not have a lockfile entry!"),
        ))
    }

    /// Appends `message` to the bound target's log, or prints it immediately
    /// when no target is bound.
    pub fn log(&self, message: &str)
    {
        match &self.target {
            Some(t) => self.logs.append(t.as_str(), message.to_owned()),
            None => print_line(message),
        }
    }

    /// The scratch directory for the bound target and hash. Pure: a function
    /// of the cache root, lockfile, target and hash alone.
    pub fn scratch_dir(&self) -> (r: String)
        requires
            self.wf(),
        ensures
            r@ == scratch_dir_spec(self.cache_dir@, self.lockfile@, opt_view(self.target),
                self.target_hash),
    {
        match (&self.target, &self.target_hash) {
            (Some(t), None) => {
                let v = match self.get_locked_version(t.as_str()) {
                    Ok(v) => v,
                    Err(_) => String::new(),
                };
                let mut r = self.cache_dir.clone();
                r.append("/resolve/scratch/");
                r.append(to_dir(t.as_str()).as_str());
                r.append("-");
                r.append(v.as_str());
                proof {
                    reveal_strlit("-");
                    assert(r@ =~= scratch_dir_spec(self.cache_dir@, self.lockfile@,
                        opt_view(self.target), self.target_hash));
                }
                r
            }
            (Some(t), Some(h)) => {
                let mut r = self.cache_dir.clone();
                r.append("/build/scratch/");
                r.append(to_dir(t.as_str()).as_str());
                r.append("-");
                r.append(crate::strutil::u64_to_hex(*h).as_str());
                proof {
                    reveal_strlit("-");
                    assert(r@ =~= scratch_dir_spec(self.cache_dir@, self.lockfile@,
                        opt_view(self.target), self.target_hash));
                }
                r
            }
            (None, _) => self.cache_dir.clone(),
        }
    }

    /// The working directory for the bound target and hash. Pure: a function
    /// of the cache root, lockfile, target and hash alone. This layout is the
    /// persisted cache contract: `<root>` bare, `<root>/resolve/<name>-<ver>`
    /// while resolving, `<root>/build/<name>-<hex>` once hashed.
    pub fn working_directory(&self) -> (r: String)
        requires
            self.wf(),
        ensures
            r@ == working_directory_spec(self.cache_dir@, self.lockfile@, opt_view(self.target),
                self.target_hash),
    {
        match (&self.target, &self.target_hash) {
            (Some(t), None) => {
                let v = match self.get_locked_version(t.as_str()) {
                    Ok(v) => v,
                    Err(_) => String::new(),
                };
                let mut r = self.cache_dir.clone();
                r.append("/resolve/");
                r.append(to_dir(t.as_str()).as_str());
                r.append("-");
                r.append(v.as_str());
                proof {
                    reveal_strlit("-");
                    assert(r@ =~= working_directory_spec(self.cache_dir@, self.lockfile@,
                        opt_view(self.target), self.target_hash));
                }
                r
            }
            (Some(t), Some(h)) => {
                let mut r = self.cache_dir.clone();
                r.append("/build/");
                r.append(to_dir(t.as_str()).as_str());
                r.append("-");
                r.append(crate::strutil::u64_to_hex(*h).as_str());
                proof {
                    reveal_strlit("-");
                    assert(r@ =~= working_directory_spec(self.cache_dir@, self.lockfile@,
                        opt_view(self.target), self.target_hash));
                }
                r
            }
            (None, _) => self.cache_dir.clone(),
        }
    }
}

proof fn lemma_sorted_entries_determined(s1: Seq<(u32, String)>, s2: Seq<(u32, String)>)
    requires
        cfg_sorted(s1),
        cfg_sorted(s2),
        forall|q: u32| cfg_find(s1, q) == cfg_find(s2, q),
    ensures
        s1.len() == s2.len(),
        forall|i: int| 0 <= i < s1.len() ==> s1[i].0 == s2[i].0 && s1[i].1@ == s2[i].1@,
    decreases s1.len() + s2.len(),
{
    if s1.len() == 0 && s2.len() == 0 {
    } else if s1.len() == 0 {
        let k2 = s2.last().0;
        assert(cfg_find(s2, k2) == Some(s2.last().1@));
        assert(cfg_find(s1, k2) is None);
    } else if s2.len() == 0 {
        let k1 = s1.last().0;
        assert(cfg_find(s1, k1) == Some(s1.last().1@));
        assert(cfg_find(s2, k1) is None);
    } else {
        let k1 = s1.last().0;
        let k2 = s2.last().0;
        assert(cfg_find(s1, k1) == Some(s1.last().1@));
        assert(cfg_find(s2, k2) == Some(s2.last().1@));
        assert(exists|i: int| 0 <= i < s2.len() && s2[i].0 == k1) by {
            if forall|i: int| 0 <= i < s2.len() ==> s2[i].0 != k1 {
                lemma_cfg_find_absent(s2, k1);
            }
        }
        assert(exists|i: int| 0 <= i < s1.len() && s1[i].0 == k2) by {
            if forall|i: int| 0 <= i < s1.len() ==> s1[i].0 != k2 {
                lemma_cfg_find_absent(s1, k2);
            }
        }
        let i2 = choose|i: int| 0 <= i < s2.len() && s2[i].0 == k1;
        let i1 = choose|i: int| 0 <= i < s1.len() && s1[i].0 == k2;
        assert(k1 <= k2) by {
            if i2 < s2.len() - 1 {
                assert(s2[i2].0 < s2[s2.len() - 1].0);
            }
        }
        assert(k2 <= k1) by {
            if i1 < s1.len() - 1 {
                assert(s1[i1].0 < s1[s1.len() - 1].0);
            }
        }
        assert(k1 == k2);
        assert(s1.last().1@ == s2.last().1@);
        let d1 = s1.drop_last();
        let d2 = s2.drop_last();
        assert(cfg_sorted(d1)) by {
            assert(forall|i: int, j: int| 0 <= i < j < d1.len() ==> d1[i] == s1[i]
                && d1[j] == s1[j]);
        }
        assert(cfg_sorted(d2)) by {
            assert(forall|i: int, j: int| 0 <= i < j < d2.len() ==> d2[i] == s2[i]
                && d2[j] == s2[j]);
        }
        assert forall|q: u32| cfg_find(d1, q) == cfg_find(d2, q) by {
            if q == k1 {
                assert(forall|i: int| 0 <= i < d1.len() ==> d1[i] == s1[i] && s1[i].0 < k1);
                assert(forall|i: int| 0 <= i < d2.len() ==> d2[i] == s2[i] && s2[i].0 < k1);
                lemma_cfg_find_absent(d1, q);
                lemma_cfg_find_absent(d2, q);
            } else {
                assert(cfg_find(s1, q) == cfg_find(d1, q));
                assert(cfg_find(s2, q) == cfg_find(d2, q));
            }
        }
        lemma_sorted_entries_determined(d1, d2);
        assert(forall|i: int| 0 <= i < s1.len() - 1 ==> s1[i] == d1[i] && s2[i] == d2[i]);
    }
}

proof fn lemma_context_stream_congruent(s1: Seq<(u32, String)>, s2: Seq<(u32, String)>)
    requires
        s1.len() == s2.len(),
        forall|i: int| 0 <= i < s1.len() ==> s1[i].0 == s2[i].0 && s1[i].1@ == s2[i].1@,
    ensures
        context_stream(s1) == context_stream(s2),
    decreases s1.len(),
{
    if s1.len() > 0 {
        lemma_context_stream_congruent(s1.drop_last(), s2.drop_last());
    }
}

/// The context hash depends only on the key/value mapping the configuration
/// store holds, never on the order entries were supplied in: two sorted
/// stores that bind every key alike feed the digest the same bytes and so
/// hash alike.
pub proof fn lemma_context_hash_order_independent(s1: Seq<(u32, String)>, s2: Seq<(u32, String)>)
    requires
        cfg_sorted(s1),
        cfg_sorted(s2),
        forall|q: u32| cfg_find(s1, q) == cfg_find(s2, q),
    ensures
        digest64(context_stream(s1)) == digest64(context_stream(s2)),
{
    lemma_sorted_entries_determined(s1, s2);
    lemma_context_stream_congruent(s1, s2);
}

/// Two contexts built from configuration inputs with the same key/value
/// mapping — whatever order the entries were supplied in, duplicates and all —
/// compute the same hash: [`Context::new`] guarantees a sorted store whose
/// lookups agree with the input's, and the hash is determined by those
/// lookups.
pub proof fn lemma_same_input_map_same_hash(
    e1: Seq<(BuildConfigKey, String)>,
    e2: Seq<(BuildConfigKey, String)>,
    s1: Seq<(u32, String)>,
    s2: Seq<(u32, String)>,
)
    requires
        forall|q: u32| input_find(e1, q) == input_find(e2, q),
        cfg_sorted(s1),
        cfg_sorted(s2),
        forall|q: u32| cfg_find(s1, q) == input_find(e1, q),
        forall|q: u32| cfg_find(s2, q) == input_find(e2, q),
    ensures
        digest64(context_stream(s1)) == digest64(context_stream(s2)),
{
    assert(forall|q: u32| cfg_find(s1, q) == cfg_find(s2, q));
    lemma_context_hash_order_independent(s1, s2);
}

proof fn lemma_concat_suffix_determined(p: Seq<char>, a: Seq<char>, b: Seq<char>)
    requires
        p + a == p + b,
    ensures
        a == b,
{
    assert((p + a).len() == p.len() + a.len());
    assert((p + b).len() == p.len() + b.len());
    assert(a.len() == b.len());
    assert forall|i: int| 0 <= i < a.len() implies a[i] == b[i] by {
        assert((p + a)[p.len() + i] == a[i]);
        assert((p + b)[p.len() + i] == b[i]);
    }
    assert(a =~= b);
}

/// The cache layout keeps distinct (target, hash) bindings apart: for one
/// target, two different bound hashes, or a bound hash against none, always
/// name different working directories, and likewise different scratch
/// directories.
pub proof fn lemma_directories_injective_in_hash(
    cache: Seq<char>,
    lock: Seq<(String, String)>,
    t: Seq<char>,
    h1: Option<u64>,
    h2: Option<u64>,
)
    requires
        h1 != h2,
    ensures
        working_directory_spec(cache, lock, Some(t), h1)
            != working_directory_spec(cache, lock, Some(t), h2),
        scratch_dir_spec(cache, lock, Some(t), h1) != scratch_dir_spec(cache, lock, Some(t), h2),
{
    reveal_strlit("/resolve/");
    reveal_strlit("/build/");
    reveal_strlit("/resolve/scratch/");
    reveal_strlit("/build/scratch/");
    match (h1, h2) {
        (Some(a), Some(b)) => {
            lemma_hex_of_injective(a as nat, b as nat);
            let p = cache + "/build/"@ + sanitized(t) + seq!['-'];
            assert(working_directory_spec(cache, lock, Some(t), h1)
                =~= p + hex_of(a as nat));
            assert(working_directory_spec(cache, lock, Some(t), h2)
                =~= p + hex_of(b as nat));
            if working_directory_spec(cache, lock, Some(t), h1)
                == working_directory_spec(cache, lock, Some(t), h2) {
                lemma_concat_suffix_determined(p, hex_of(a as nat), hex_of(b as nat));
            }
            let q = cache + "/build/scratch/"@ + sanitized(t) + seq!['-'];
            assert(scratch_dir_spec(cache, lock, Some(t), h1) =~= q + hex_of(a as nat));
            assert(scratch_dir_spec(cache, lock, Some(t), h2) =~= q + hex_of(b as nat));
            if scratch_dir_spec(cache, lock, Some(t), h1)
                == scratch_dir_spec(cache, lock, Some(t), h2) {
                lemma_concat_suffix_determined(q, hex_of(a as nat), hex_of(b as nat));
            }
        }
        (None, Some(b)) => {
            lemma_resolve_build_differ(cache, lock, t, b);
        }
        (Some(a), None) => {
            lemma_resolve_build_differ(cache, lock, t, a);
        }
        (None, None) => {
            assert(false);
        }
    }
}

proof fn lemma_resolve_build_differ(
    cache: Seq<char>,
    lock: Seq<(String, String)>,
    t: Seq<char>,
    h: u64,
)
    ensures
        working_directory_spec(cache, lock, Some(t), None)
            != working_directory_spec(cache, lock, Some(t), Some(h)),
        scratch_dir_spec(cache, lock, Some(t), None)
            != scratch_dir_spec(cache, lock, Some(t), Some(h)),
{
    reveal_strlit("/resolve/");
    reveal_strlit("/build/");
    reveal_strlit("/resolve/scratch/");
    reveal_strlit("/build/scratch/");
    let n = cache.len() as int;
    let w1 = working_directory_spec(cache, lock, Some(t), None);
    let w2 = working_directory_spec(cache, lock, Some(t), Some(h));
    assert(w1[n + 1] == "/resolve/"@[1]);
    assert(w2[n + 1] == "/build/"@[1]);
    assert(w1[n + 1] != w2[n + 1]);
    let s1 = scratch_dir_spec(cache, lock, Some(t), None);
    let s2 = scratch_dir_spec(cache, lock, Some(t), Some(h));
    assert(s1[n + 1] == "/resolve/scratch/"@[1]);
    assert(s2[n + 1] == "/build/scratch/"@[1]);
    assert(s1[n + 1] != s2[n + 1]);
}

/// `name` with every `:`, `/` and `@` replaced by `_`.
pub fn to_dir(name: &str) -> (r: String)
    ensures
        r@ == sanitized(name@),
{
    let len = name.unicode_len();
    let mut r = String::new();
    let mut i: usize = 0;
    while i < len
        invariant
            i <= len,
            len == name@.len(),
            r@ =~= sanitized(name@.subrange(0, i as int)),
        decreases len - i,
    {
        let c = name.get_char(i);
        if c == ':' || c == '/' || c == '@' {
            proof {
                reveal_strlit("_");
            }
            r.append("_");
        } else {
            r.append(name.substring_char(i, i + 1));
        }
        i += 1;
        proof {
            assert(r@ =~= sanitized(name@.subrange(0, i as int)));
        }
    }
    proof {
        assert(name@.subrange(0, len as int) =~= name@);
    }
    r
}

} // verus!
