//! The build-graph data model: configurations, tasks, build results, and the
//! two plugin capability contracts, with reference plugin variants.

use vstd::prelude::*;
use crate::actions::{BuildActions, FileReadResult};
use crate::context::Context;
use crate::errors::BuildError;
use crate::hashing::{be64, digest64, hasher_finish64, hasher_input, hasher_new, hasher_update,
    hasher_update_u64_be};
use crate::strutil::{after_last, copy_strings, str_after_last, str_eq};

verus! {

/// Reserved extras key of a configuration: the enabled feature list.
pub const CONFIG_EXTRA_FEATURES: u32 = 0;

/// Reserved extras key of a build output: transitive products.
pub const OUTPUT_TRANSITIVE_PRODUCTS: u32 = 0;

/// The payload of a successful build: ordered output paths and an open
/// extras map from small integer keys to ordered string lists.
#[derive(Debug)]
pub struct BuildOutput {
    pub outputs: Vec<String>,
    pub extras: Vec<(u32, Vec<String>)>,
}

/// The outcome of building one task: a success payload or a failure message.
#[derive(Debug)]
pub enum BuildResult {
    Success(BuildOutput),
    Failure(String),
}

/// The resolved description of one target.
#[derive(Debug)]
pub struct Config {
    pub dependencies: Vec<String>,
    pub build_plugin: String,
    pub location: Option<String>,
    pub sources: Vec<String>,
    pub build_dependencies: Vec<String>,
    pub kind: String,
    pub extras: Vec<(u32, Vec<String>)>,
    pub hash: u64,
}

/// The derived lifecycle state of a task.
#[derive(Debug, Clone, Copy, PartialEq, Eq, Structural)]
pub enum TaskStatus {
    Resolving,
    Blocked,
    Building,
    Done,
}

/// One node of the build graph.
#[derive(Debug)]
pub struct Task {
    pub id: usize,
    pub dependencies: Vec<usize>,
    pub target: String,
    pub config: Option<Config>,
    pub result: Option<BuildResult>,
    pub available: bool,
    pub dependencies_ready: usize,
}

/// The mathematical content of a [`BuildOutput`].
#[verifier::ext_equal]
pub struct BuildOutputView {
    pub outputs: Seq<Seq<char>>,
    pub extras: Seq<(u32, Seq<Seq<char>>)>,
}

/// The mathematical content of a [`BuildResult`].
#[verifier::ext_equal]
pub enum BuildResultView {
    Success(BuildOutputView),
    Failure(Seq<char>),
}

/// The mathematical content of a [`Config`].
#[verifier::ext_equal]
pub struct ConfigView {
    pub dependencies: Seq<Seq<char>>,
    pub build_plugin: Seq<char>,
    pub location: Option<Seq<char>>,
    pub sources: Seq<Seq<char>>,
    pub build_dependencies: Seq<Seq<char>>,
    pub kind: Seq<char>,
    pub extras: Seq<(u32, Seq<Seq<char>>)>,
    pub hash: u64,
}

/// The contents of an extras list, entry for entry.
pub open spec fn extras_view(s: Seq<(u32, Vec<String>)>) -> Seq<(u32, Seq<Seq<char>>)> {
    s.map_values(|p: (u32, Vec<String>)| (p.0, p.1.deep_view()))
}

/// The first extras entry for `k`, if any.
pub open spec fn extras_find(s: Seq<(u32, Seq<Seq<char>>)>, k: u32) -> Option<Seq<Seq<char>>>
    decreases s.len(),
{
    if s.len() == 0 {
        None
    } else if s.first().0 == k {
        Some(s.first().1)
    } else {
        extras_find(s.drop_first(), k)
    }
}

impl View for BuildOutput {
    type V = BuildOutputView;

    open spec fn view(&self) -> BuildOutputView {
        BuildOutputView { outputs: self.outputs.deep_view(), extras: extras_view(self.extras@) }
    }
}

impl View for BuildResult {
    type V = BuildResultView;

    open spec fn view(&self) -> BuildResultView {
        match self {
            BuildResult::Success(o) => BuildResultView::Success(o@),
            BuildResult::Failure(m) => BuildResultView::Failure(m@),
        }
    }
}

impl View for Config {
    type V = ConfigView;

    open spec fn view(&self) -> ConfigView {
        ConfigView {
            dependencies: self.dependencies.deep_view(),
            build_plugin: self.build_plugin@,
            location: crate::context::opt_view(self.location),
            sources: self.sources.deep_view(),
            build_dependencies: self.build_dependencies.deep_view(),
            kind: self.kind@,
            extras: extras_view(self.extras@),
            hash: self.hash,
        }
    }
}

/// Looks up `key` in an extras list; the empty list when absent.
fn extras_get(extras: &Vec<(u32, Vec<String>)>, key: u32) -> (r: Vec<String>)
    ensures
        r.deep_view() == (match extras_find(extras_view(extras@), key) {
            Some(v) => v,
            None => Seq::<Seq<char>>::empty(),
        }),
{
    let ghost full = extras_view(extras@);
    proof {
        assert(full.subrange(0, full.len() as int) =~= full);
    }
    let mut i: usize = 0;
    while i < extras.len()
        invariant
            i <= extras.len(),
            full == extras_view(extras@),
            full.len() == extras@.len(),
            extras_find(full, key)
                == extras_find(full.subrange(i as int, full.len() as int), key),
        decreases extras.len() - i,
    {
        let ghost rest = full.subrange(i as int, full.len() as int);
        proof {
            assert(rest.first() == full[i as int]);
            assert(rest.drop_first() =~= full.subrange(i + 1, full.len() as int));
        }
        if extras[i].0 == key {
            let r = copy_strings(&extras[i].1);
            proof {
                assert(full[i as int].1 == extras@[i as int].1.deep_view());
            }
            return r;
        }
        i += 1;
    }
    proof {
        assert(full.subrange(full.len() as int, full.len() as int).len() == 0);
    }
    Vec::new()
}

/// A copy of an extras list whose contents are equal, entry for entry.
fn copy_extras(v: &Vec<(u32, Vec<String>)>) -> (r: Vec<(u32, Vec<String>)>)
    ensures
        extras_view(r@) == extras_view(v@),
{
    let mut r: Vec<(u32, Vec<String>)> = Vec::new();
    let mut i: usize = 0;
    while i < v.len()
        invariant
            i <= v.len(),
            r@.len() == i,
            forall|j: int| 0 <= j < i ==> r@[j].0 == v@[j].0
                && r@[j].1.deep_view() == v@[j].1.deep_view(),
        decreases v.len() - i,
    {
        let k = v[i].0;
        let vals = copy_strings(&v[i].1);
        r.push((k, vals));
        i += 1;
    }
    proof {
        assert forall|j: int| 0 <= j < v@.len()
            implies extras_view(r@)[j] == extras_view(v@)[j] by {
            assert(extras_view(r@)[j] == (r@[j].0, r@[j].1.deep_view()));
            assert(extras_view(v@)[j] == (v@[j].0, v@[j].1.deep_view()));
        }
        assert(extras_view(r@) =~= extras_view(v@));
    }
    r
}

impl BuildOutput {
    /// The extras list under `key`; empty when the key is absent.
    pub fn get(&self, key: u32) -> (r: Vec<String>)
        ensures
            r.deep_view() == (match extras_find(self@.extras, key) {
                Some(v) => v,
                None => Seq::<Seq<char>>::empty(),
            }),
    {
        extras_get(&self.extras, key)
    }

    /// A copy with equal content.
    pub fn duplicate(&self) -> (r: BuildOutput)
        ensures
            r@ == self@,
    {
        let r = BuildOutput {
            outputs: copy_strings(&self.outputs),
            extras: copy_extras(&self.extras),
        };
        proof {
            assert(r@ =~= self@);
        }
        r
    }
}

/// Whether some element of `s` is a failure.
pub open spec fn has_failure(s: Seq<BuildResult>) -> bool {
    exists|i: int| 0 <= i < s.len() && s[i] is Failure
}

/// The index of the first failure; meaningful only when one exists.
pub open spec fn first_failure_index(s: Seq<BuildResult>) -> int
    decreases s.len(),
{
    if s.len() == 0 {
        0
    } else if s.first() is Failure {
        0
    } else {
        1 + first_failure_index(s.drop_first())
    }
}

/// The concatenation, in order, of the outputs of the successful results.
pub open spec fn concat_outputs(s: Seq<BuildResult>) -> Seq<Seq<char>>
    decreases s.len(),
{
    if s.len() == 0 {
        Seq::empty()
    } else {
        concat_outputs(s.drop_last()) + (match s.last() {
            BuildResult::Success(o) => o.outputs.deep_view(),
            BuildResult::Failure(_) => Seq::empty(),
        })
    }
}

proof fn lemma_first_failure(s: Seq<BuildResult>, i: int)
    requires
        0 <= i < s.len(),
        s[i] is Failure,
        forall|j: int| 0 <= j < i ==> !(s[j] is Failure),
    ensures
        first_failure_index(s) == i,
    decreases i,
{
    if i == 0 {
    } else {
        assert(!(s.first() is Failure));
        assert(s.drop_first()[i - 1] == s[i]);
        assert(forall|j: int| 0 <= j < i - 1 ==> s.drop_first()[j] == s[j + 1]);
        lemma_first_failure(s.drop_first(), i - 1);
    }
}

impl BuildResult {
    /// An empty success: no outputs, no extras.
    pub fn noop() -> (r: BuildResult)
        ensures
            r@ == BuildResultView::Success(BuildOutputView {
                outputs: Seq::empty(),
                extras: Seq::empty(),
            }),
    {
        let r = BuildResult::Success(BuildOutput { outputs: Vec::new(), extras: Vec::new() });
        proof {
            assert(r@ =~= BuildResultView::Success(BuildOutputView {
                outputs: Seq::<Seq<char>>::empty(),
                extras: Seq::<(u32, Seq<Seq<char>>)>::empty(),
            }));
        }
        r
    }

    /// A copy with equal content.
    pub fn duplicate(&self) -> (r: BuildResult)
        ensures
            r@ == self@,
    {
        match self {
            BuildResult::Success(o) => BuildResult::Success(o.duplicate()),
            BuildResult::Failure(m) => BuildResult::Failure(m.clone()),
        }
    }

    /// Merges a sequence of results with failure dominance: the first failure,
    /// if any, is returned as it stands; otherwise a success whose outputs are
    /// the concatenation of every input's outputs, carrying no extras.
    pub fn merged(results: &Vec<BuildResult>) -> (r: BuildResult)
        ensures
            has_failure(results@) ==> r@ == results@[first_failure_index(results@)]@,
            !has_failure(results@) ==> r@ == BuildResultView::Success(BuildOutputView {
                outputs: concat_outputs(results@),
                extras: Seq::empty(),
            }),
    {
        let mut outs: Vec<String> = Vec::new();
        let mut i: usize = 0;
        while i < results.len()
            invariant
                i <= results.len(),
                forall|j: int| 0 <= j < i ==> !(results@[j] is Failure),
                outs.deep_view() == concat_outputs(results@.subrange(0, i as int)),
            decreases results.len() - i,
        {
            let ghost prev = results@.subrange(0, i as int);
            match &results[i] {
                BuildResult::Success(o) => {
                    let mut extra = copy_strings(&o.outputs);
                    outs.append(&mut extra);
                }
                BuildResult::Failure(_) => {
                    proof {
                        lemma_first_failure(results@, i as int);
                    }
                    return results[i].duplicate();
                }
            }
            i += 1;
            proof {
                let cur = results@.subrange(0, i as int);
                assert(cur.drop_last() =~= prev);
                assert(cur.last() == results@[i - 1]);
                assert(outs.deep_view() =~= concat_outputs(cur));
            }
        }
        proof {
            assert(results@.subrange(0, results@.len() as int) =~= results@);
        }
        let r = BuildResult::Success(BuildOutput { outputs: outs, extras: Vec::new() });
        proof {
            assert(r@ =~= BuildResultView::Success(BuildOutputView {
                outputs: concat_outputs(results@),
                extras: Seq::<(u32, Seq<Seq<char>>)>::empty(),
            }));
        }
        r
    }
}

/// The bytes one file read contributes to a configuration hash: the file's
/// contents, or a fixed two-byte marker for a file that could not be opened,
/// or a distinct two-byte marker for a read that failed partway. A failed
/// read contributes its marker once and the file is treated as consumed, a
/// bounded policy in place of retrying the read.
pub open spec fn read_contribution(r: FileReadResult) -> Seq<u8> {
    match r {
        FileReadResult::Content(b) => b@,
        FileReadResult::OpenFailed => seq![0x12u8, 0x34u8],
        FileReadResult::ReadFailed => seq![0x56u8, 0x78u8],
    }
}

/// The bytes a sequence of file reads contributes, in order.
pub open spec fn reads_stream(rs: Seq<FileReadResult>) -> Seq<u8>
    decreases rs.len(),
{
    if rs.len() == 0 {
        Seq::empty()
    } else {
        reads_stream(rs.drop_last()) + read_contribution(rs.last())
    }
}

/// The full byte stream a configuration hash digests: the context hash and
/// the dependency hash, each as eight big-endian bytes, then every source
/// file's contribution in declared order.
pub open spec fn config_hash_input(context_hash: u64, deps_hash: u64, rs: Seq<FileReadResult>)
    -> Seq<u8> {
    be64(context_hash) + be64(deps_hash) + reads_stream(rs)
}

/// The configuration hash over already-performed file reads: the leading
/// eight bytes, big-endian, of the SHA-256 digest of
/// [`config_hash_input`]. Pure in its arguments.
pub fn hash_of_reads(context_hash: u64, deps_hash: u64, reads: &Vec<FileReadResult>) -> (r: u64)
    ensures
        r == digest64(config_hash_input(context_hash, deps_hash, reads@)),
{
    let mut h = hasher_new();
    hasher_update_u64_be(&mut h, context_hash);
    hasher_update_u64_be(&mut h, deps_hash);
    let mut i: usize = 0;
    while i < reads.len()
        invariant
            i <= reads.len(),
            hasher_input(h) == be64(context_hash) + be64(deps_hash)
                + reads_stream(reads@.subrange(0, i as int)),
        decreases reads.len() - i,
    {
        let ghost prev = reads@.subrange(0, i as int);
        match &reads[i] {
            FileReadResult::Content(b) => {
                hasher_update(&mut h, b.as_slice());
            }
            FileReadResult::OpenFailed => {
                let mut m: Vec<u8> = Vec::new();
                m.push(0x12);
                m.push(0x34);
                proof {
                    assert(m@ =~= seq![0x12u8, 0x34u8]);
                }
                hasher_update(&mut h, m.as_slice());
            }
            FileReadResult::ReadFailed => {
                let mut m: Vec<u8> = Vec::new();
                m.push(0x56);
                m.push(0x78);
                proof {
                    assert(m@ =~= seq![0x56u8, 0x78u8]);
                }
                hasher_update(&mut h, m.as_slice());
            }
        }
        i += 1;
        proof {
            let cur = reads@.subrange(0, i as int);
            assert(cur.drop_last() =~= prev);
            assert(cur.last() == reads@[i - 1]);
            assert(hasher_input(h) =~= be64(context_hash) + be64(deps_hash)
                + reads_stream(cur));
        }
    }
    proof {
        assert(reads@.subrange(0, reads@.len() as int) =~= reads@);
    }
    hasher_finish64(h)
}

/// Two read sequences with equal contributions produce the same hash input.
pub proof fn lemma_reads_stream_congruent(rs1: Seq<FileReadResult>, rs2: Seq<FileReadResult>)
    requires
        rs1.len() == rs2.len(),
        forall|i: int| 0 <= i < rs1.len()
            ==> read_contribution(rs1[i]) == read_contribution(rs2[i]),
    ensures
        reads_stream(rs1) == reads_stream(rs2),
    decreases rs1.len(),
{
    if rs1.len() > 0 {
        lemma_reads_stream_congruent(rs1.drop_last(), rs2.drop_last());
    }
}

/// Hashing is a pure function of the two input hashes and the bytes each
/// source read contributed: equal inputs yield an equal configuration hash.
pub proof fn lemma_config_hash_deterministic(
    context_hash: u64,
    deps_hash: u64,
    rs1: Seq<FileReadResult>,
    rs2: Seq<FileReadResult>,
)
    requires
        rs1.len() == rs2.len(),
        forall|i: int| 0 <= i < rs1.len()
            ==> read_contribution(rs1[i]) == read_contribution(rs2[i]),
    ensures
        digest64(config_hash_input(context_hash, deps_hash, rs1))
            == digest64(config_hash_input(context_hash, deps_hash, rs2)),
{
    lemma_reads_stream_congruent(rs1, rs2);
}

impl Config {
    /// The full dependency edge set for graph purposes: the runtime
    /// dependencies, then the build plugin, then the build-time dependencies,
    /// each sub-list in its own order, duplicates permitted.
    pub fn dependencies(&self) -> (r: Vec<String>)
        ensures
            r.deep_view() == self@.dependencies + seq![self@.build_plugin]
                + self@.build_dependencies,
    {
        let mut r = copy_strings(&self.dependencies);
        r.push(self.build_plugin.clone());
        let mut tail = copy_strings(&self.build_dependencies);
        r.append(&mut tail);
        proof {
            assert(r.deep_view() =~= self@.dependencies + seq![self@.build_plugin]
                + self@.build_dependencies);
        }
        r
    }

    /// Computes and stores the content identity of this configuration. Only
    /// meaningful once the owning context's hash and every dependency's hash
    /// are known; `deps_hash` must combine the latter. Every source file is
    /// read through `actions` and contributes its bytes, or a fixed marker
    /// when it cannot be opened or read (see [`read_contribution`]).
    pub fn calculate_hash<A: BuildActions>(
        &mut self,
        context_hash: u64,
        deps_hash: u64,
        actions: &A,
    ) -> (r: u64)
        ensures
            exists|rs: Seq<FileReadResult>|
                rs.len() == old(self).sources@.len()
                    && r == digest64(config_hash_input(context_hash, deps_hash, rs)),
            final(self).hash == r,
            final(self).dependencies == old(self).dependencies,
            final(self).build_plugin == old(self).build_plugin,
            final(self).location == old(self).location,
            final(self).sources == old(self).sources,
            final(self).build_dependencies == old(self).build_dependencies,
            final(self).kind == old(self).kind,
            final(self).extras == old(self).extras,
    {
        let mut reads: Vec<FileReadResult> = Vec::new();
        let mut i: usize = 0;
        while i < self.sources.len()
            invariant
                i <= self.sources.len(),
                *self == *old(self),
                reads@.len() == i,
            decreases self.sources.len() - i,
        {
            reads.push(self.actions_read(actions, i));
            i += 1;
        }
        let r = hash_of_reads(context_hash, deps_hash, &reads);
        self.hash = r;
        r
    }

    /// One source read through the actions boundary.
    fn actions_read<A: BuildActions>(&self, actions: &A, i: usize) -> FileReadResult
        requires
            i < self.sources@.len(),
    {
        actions.read_file(self.sources[i].as_str())
    }

    /// The extras list under `key`; empty when the key is absent.
    pub fn get(&self, key: u32) -> (r: Vec<String>)
        ensures
            r.deep_view() == (match extras_find(self@.extras, key) {
                Some(v) => v,
                None => Seq::<Seq<char>>::empty(),
            }),
    {
        extras_get(&self.extras, key)
    }

    /// A copy with equal content.
    pub fn duplicate(&self) -> (r: Config)
        ensures
            r@ == self@,
    {
        let location = match &self.location {
            Some(l) => Some(l.clone()),
            None => None,
        };
        let r = Config {
            dependencies: copy_strings(&self.dependencies),
            build_plugin: self.build_plugin.clone(),
            location,
            sources: copy_strings(&self.sources),
            build_dependencies: copy_strings(&self.build_dependencies),
            kind: self.kind.clone(),
            extras: copy_extras(&self.extras),
            hash: self.hash,
        };
        proof {
            assert(r@ =~= self@);
        }
        r
    }
}

impl Task {
    /// A fresh task for `target`: no dependencies, no configuration, no
    /// result, available, with no dependency ready yet.
    pub fn new(id: usize, target: String) -> (r: Task)
        ensures
            r.id == id,
            r.dependencies@.len() == 0,
            r.target@ == target@,
            r.config is None,
            r.result is None,
            r.available == true,
            r.dependencies_ready == 0,
    {
        Task {
            id,
            dependencies: Vec::new(),
            target,
            config: None,
            result: None,
            available: true,
            dependencies_ready: 0,
        }
    }

    /// Where a failed task died: still resolving when it has no
    /// configuration, otherwise building. Coarser than [`Task::status`]:
    /// Blocked and Done are deliberately not distinguished here.
    pub open spec fn failure_stage_spec(&self) -> TaskStatus {
        if self.config is None {
            TaskStatus::Resolving
        } else {
            TaskStatus::Building
        }
    }

    /// Where a failed task died.
    pub fn failure_stage(&self) -> (r: TaskStatus)
        ensures
            r == self.failure_stage_spec(),
    {
        if self.config.is_none() {
            return TaskStatus::Resolving;
        }
        TaskStatus::Building
    }

    /// The derived status: Done as soon as a result is present; Resolving
    /// with no configuration; Blocked while dependencies are outstanding;
    /// Building otherwise.
    pub open spec fn status_spec(&self) -> TaskStatus {
        if self.result is Some {
            TaskStatus::Done
        } else if self.config is None {
            TaskStatus::Resolving
        } else if self.dependencies_ready < self.dependencies@.len() {
            TaskStatus::Blocked
        } else {
            TaskStatus::Building
        }
    }

    /// The derived status of the task.
    pub fn status(&self) -> (r: TaskStatus)
        ensures
            r == self.status_spec(),
    {
        if self.result.is_some() {
            return TaskStatus::Done;
        }
        if self.config.is_none() {
            return TaskStatus::Resolving;
        }
        if self.dependencies_ready < self.dependencies.len() {
            return TaskStatus::Blocked;
        }
        TaskStatus::Building
    }
}

/// The status state machine, case by case: a task is Done exactly when a
/// result is present (checked before everything else); among tasks without a
/// result, Resolving exactly when no configuration is present; among tasks
/// with a configuration and no result, Blocked exactly while fewer
/// dependencies are ready than exist, and Building exactly when all are.
pub proof fn lemma_status_cases(t: &Task)
    ensures
        t.status_spec() == TaskStatus::Done <==> t.result is Some,
        t.result is None ==> (t.status_spec() == TaskStatus::Resolving <==> t.config is None),
        t.result is None && t.config is Some ==> (t.status_spec() == TaskStatus::Blocked
            <==> t.dependencies_ready < t.dependencies@.len()),
        t.result is None && t.config is Some ==> (t.status_spec() == TaskStatus::Building
            <==> t.dependencies_ready >= t.dependencies@.len()),
{
}

/// The capability contract of a resolver: a cheap predicate saying which
/// targets it recognizes, and resolution of a target into a configuration.
/// Each implementation states its own behavior through the two spec
/// functions.
pub trait ResolverPlugin<A: BuildActions> {
    /// Which targets this resolver recognizes.
    spec fn can_resolve_spec(&self, target: Seq<char>) -> bool;

    /// What this resolver's `resolve` guarantees.
    spec fn resolve_post(&self, context: &Context<A>, target: Seq<char>, r: &Result<
        Config,
        BuildError,
    >) -> bool;

    /// Whether this resolver recognizes `target`.
    fn can_resolve(&self, target: &str) -> (r: bool)
        ensures
            r == self.can_resolve_spec(target@),
    ;

    /// Resolve `target` into a configuration. May perform side effects
    /// through the context's actions; safe to retry after any failure.
    fn resolve(&self, context: &Context<A>, target: &str) -> (r: Result<Config, BuildError>)
        requires
            context.wf(),
        ensures
            self.resolve_post(context, target@, &r),
    ;
}

/// The capability contract of a builder: infallible at the signature level,
/// all failure is a `BuildResult::Failure` value.
pub trait BuildPlugin<A: BuildActions> {
    /// What this builder requires of its task.
    spec fn build_req(&self, context: &Context<A>, task: &Task, deps: Seq<(String, BuildOutput)>)
        -> bool;

    /// What this builder's `build` guarantees.
    spec fn build_post(
        &self,
        context: &Context<A>,
        task: &Task,
        deps: Seq<(String, BuildOutput)>,
        r: &BuildResult,
    ) -> bool;

    /// Build `task`, given each resolved dependency's output by target name.
    fn build(&self, context: &Context<A>, task: &Task, dependencies: &Vec<(String, BuildOutput)>)
        -> (r: BuildResult)
        requires
            self.build_req(context, task, dependencies@),
        ensures
            self.build_post(context, task, dependencies@, &r),
    ;
}

/// A builder that succeeds with no outputs, whatever it is given.
#[derive(Debug)]
pub struct FakeBuilder {}

impl<A: BuildActions> BuildPlugin<A> for FakeBuilder {
    open spec fn build_req(&self, context: &Context<A>, task: &Task, deps: Seq<(String,
        BuildOutput)>) -> bool {
        true
    }

    open spec fn build_post(
        &self,
        context: &Context<A>,
        task: &Task,
        deps: Seq<(String, BuildOutput)>,
        r: &BuildResult,
    ) -> bool {
        r@ == BuildResultView::Success(BuildOutputView {
            outputs: Seq::<Seq<char>>::empty(),
            extras: Seq::<(u32, Seq<Seq<char>>)>::empty(),
        })
    }

    fn build(&self, context: &Context<A>, task: &Task, dependencies: &Vec<(String, BuildOutput)>)
        -> (r: BuildResult) {
        BuildResult::noop()
    }
}

/// The most recently stored answer for `k`, if any: a later entry for the
/// same target overrides an earlier one, as collecting the table into a map
/// would.
pub open spec fn fake_find(s: Seq<(String, Result<Config, BuildError>)>, k: Seq<char>) -> Option<
    Result<Config, BuildError>,
>
    decreases s.len(),
{
    if s.len() == 0 {
        None
    } else if s.last().0@ == k {
        Some(s.last().1)
    } else {
        fake_find(s.drop_last(), k)
    }
}

/// A resolver over a fixed table of answers, for exercising schedulers.
#[derive(Debug)]
pub struct FakeResolver {
    configs: Vec<(String, Result<Config, BuildError>)>,
}

impl FakeResolver {
    /// A fake resolver with no stored answers.
    pub fn new() -> (r: FakeResolver)
        ensures
            r.table().len() == 0,
    {
        FakeResolver { configs: Vec::new() }
    }

    /// A fake resolver answering from the given table.
    pub fn with_configs(configs: Vec<(String, Result<Config, BuildError>)>) -> (r: FakeResolver)
        ensures
            r.table() == configs@,
    {
        FakeResolver { configs }
    }

    /// The stored answer table.
    pub closed spec fn table(&self) -> Seq<(String, Result<Config, BuildError>)> {
        self.configs@
    }
}

impl<A: BuildActions> ResolverPlugin<A> for FakeResolver {
    /// A fake resolver claims every target.
    open spec fn can_resolve_spec(&self, target: Seq<char>) -> bool {
        true
    }

    open spec fn resolve_post(&self, context: &Context<A>, target: Seq<char>, r: &Result<
        Config,
        BuildError,
    >) -> bool {
        match fake_find(self.table(), target) {
            Some(stored) => match stored {
                Ok(c) => r is Ok && r->Ok_0@ == c@,
                Err(e) => {
                    &&& r is Err
                    &&& (r->Err_0 is NotFound <==> e is NotFound)
                    &&& (r->Err_0 is InvalidData <==> e is InvalidData)
                    &&& (r->Err_0 is Other <==> e is Other)
                    &&& r->Err_0.message_view() == "failed to read config"@
                },
            },
            None => r is Err && r->Err_0 is NotFound
                && r->Err_0.message_view() == "failed to resolve target "@ + target,
        }
    }

    fn can_resolve(&self, target: &str) -> (r: bool) {
        true
    }

    fn resolve(&self, context: &Context<A>, target: &str) -> (r: Result<Config, BuildError>) {
        let ghost full = self.configs@;
        proof {
            assert(full.subrange(0, full.len() as int) =~= full);
        }
        let mut i: usize = self.configs.len();
        while i > 0
            invariant
                i <= self.configs.len(),
                full == self.configs@,
                fake_find(full, target@) == fake_find(full.subrange(0, i as int), target@),
            decreases i,
        {
            i -= 1;
            let ghost pre = full.subrange(0, i + 1);
            proof {
                assert(pre.last() == full[i as int]);
                assert(pre.drop_last() =~= full.subrange(0, i as int));
            }
            if str_eq(self.configs[i].0.as_str(), target) {
                match &self.configs[i].1 {
                    Ok(c) => {
                        return Ok(c.duplicate());
                    }
                    Err(e) => {
                        let msg = "failed to read config".to_owned();
                        return Err(match e {
                            BuildError::NotFound(_) => BuildError::NotFound(msg),
                            BuildError::InvalidData(_) => BuildError::InvalidData(msg),
                            BuildError::Other(_) => BuildError::Other(msg),
                        });
                    }
                }
            }
        }
        proof {
            assert(full.subrange(0, 0).len() == 0);
        }
        Err(BuildError::NotFound("failed to resolve target ".to_owned().concat(target)))
    }
}

/// A pass-through builder: wraps the configuration's literal location as the
/// sole output, and fails when the configuration has none.
#[derive(Debug)]
pub struct FilesystemBuilder {}

impl<A: BuildActions> BuildPlugin<A> for FilesystemBuilder {
    /// The task must be resolved by the time it is built; handing this
    /// builder an unresolved task is a scheduler bug.
    open spec fn build_req(&self, context: &Context<A>, task: &Task, deps: Seq<(String,
        BuildOutput)>) -> bool {
        task.config is Some
    }

    open spec fn build_post(
        &self,
        context: &Context<A>,
        task: &Task,
        deps: Seq<(String, BuildOutput)>,
        r: &BuildResult,
    ) -> bool {
        match task.config {
            Some(c) => match c.location {
                Some(l) => r@ == BuildResultView::Success(BuildOutputView {
                    outputs: seq![l@],
                    extras: Seq::empty(),
                }),
                None => r is Failure && r->Failure_0@
                    == "filesystem builder plugin requires a location set in the build config"@,
            },
            None => true,
        }
    }

    fn build(&self, context: &Context<A>, task: &Task, dependencies: &Vec<(String, BuildOutput)>)
        -> (r: BuildResult) {
        match &task.config {
            Some(c) => match &c.location {
                Some(l) => {
                    let mut outputs: Vec<String> = Vec::new();
                    outputs.push(l.clone());
                    let r = BuildResult::Success(BuildOutput { outputs, extras: Vec::new() });
                    proof {
                        assert(r@ =~= BuildResultView::Success(BuildOutputView {
                            outputs: seq![c.location->Some_0@],
                            extras: Seq::<(u32, Seq<Seq<char>>)>::empty(),
                        }));
                    }
                    r
                }
                None => BuildResult::Failure(
                    "filesystem builder plugin requires a location set in the build config"
                        .to_owned(),
                ),
            },
            None => BuildResult::Failure(String::new()),
        }
    }
}

/// The short name of a target: the piece after the last `/` (which is also
/// the piece after the last `//`), then after the last `:` of that.
pub fn target_shortname(target: &str) -> (r: String)
    ensures
        r@ == after_last(after_last(target@, '/'), ':'),
{
    let tail = str_after_last(target, '/');
    str_after_last(tail.as_str(), ':')
}

} // verus!
