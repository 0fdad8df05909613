//! The package-manifest resolver: recognizes `cargo://` targets, fetches and
//! unpacks a package archive through the actions boundary, enumerates its
//! source files, and interprets its manifest — mandatory dependencies,
//! per-platform conditional dependency blocks (fail-closed), and
//! feature-gated optional dependencies — into a configuration.

use vstd::prelude::*;
use crate::actions::{BuildActions, FileEntry};
use crate::context::{BuildConfigKey, Context, cfg_find, lock_find};
use crate::document::{DocValue, parse_document, parses_as_document};
use crate::errors::BuildError;
use crate::strutil::{
    after_last, contains_char, split_on, starts_with, str_after, str_after_last,
    str_contains_char, str_eq, str_split, str_starts_with, vec_contains_str, copy_strings,
};
use crate::tasks::{CONFIG_EXTRA_FEATURES, Config, ResolverPlugin, extras_view};

verus! {

/// The resolver for `cargo://` package targets.
#[derive(Debug)]
pub struct CargoResolver {}

impl CargoResolver {
    /// A fresh resolver.
    pub fn new() -> (r: CargoResolver) {
        CargoResolver {}
    }
}

/// The first value bound to `k` in a document table.
pub open spec fn tbl_get(t: Seq<(String, DocValue)>, k: Seq<char>) -> Option<DocValue>
    decreases t.len(),
{
    if t.len() == 0 {
        None
    } else if t.first().0@ == k {
        Some(t.first().1)
    } else {
        tbl_get(t.drop_first(), k)
    }
}

/// Whether a dependency-table entry is marked optional.
pub open spec fn entry_optional(v: DocValue) -> bool {
    match v {
        DocValue::Table(es) => tbl_get(es@, "optional"@) == Some(DocValue::Bool(true)),
        _ => false,
    }
}

/// The names of the non-optional entries of a dependency table, in order.
pub open spec fn dep_names(es: Seq<(String, DocValue)>) -> Seq<Seq<char>>
    decreases es.len(),
{
    if es.len() == 0 {
        Seq::empty()
    } else {
        dep_names(es.drop_last()) + (if entry_optional(es.last().1) {
            Seq::empty()
        } else {
            seq![es.last().0@]
        })
    }
}

/// Whether a conditional directive holds of the platform configuration.
/// Only `unix` is recognized today; every other directive resolves to not
/// applicable — the fail-closed default.
pub open spec fn directive_holds(cfg: Seq<(u32, String)>, d: Seq<char>) -> bool {
    d == "unix"@ && cfg_find(cfg, BuildConfigKey::TargetFamily.code_spec()) == Some("unix"@)
}

/// Whether a per-platform key of the target table applies: it must be a
/// `cfg(...)` key whose directive holds. Any other key — an unrecognized
/// condition — contributes nothing.
pub open spec fn cfg_key_applies(cfg: Seq<(u32, String)>, key: Seq<char>) -> bool {
    &&& starts_with(key, "cfg("@)
    &&& key.len() >= 5
    &&& directive_holds(cfg, key.subrange(4, key.len() - 1))
}

/// The non-optional dependency names of one target-table entry.
pub open spec fn entry_target_deps(v: DocValue) -> Seq<Seq<char>> {
    match v {
        DocValue::Table(es) => match tbl_get(es@, "dependencies"@) {
            Some(DocValue::Table(ds)) => dep_names(ds@),
            _ => Seq::empty(),
        },
        _ => Seq::empty(),
    }
}

/// The dependency names contributed by the applicable entries of the target
/// table, in order.
pub open spec fn target_deps(cfg: Seq<(u32, String)>, ts: Seq<(String, DocValue)>) -> Seq<
    Seq<char>,
>
    decreases ts.len(),
{
    if ts.len() == 0 {
        Seq::empty()
    } else {
        target_deps(cfg, ts.drop_last()) + (if cfg_key_applies(cfg, ts.last().0@) {
            entry_target_deps(ts.last().1)
        } else {
            Seq::empty()
        })
    }
}

/// Whether `n` is a declared feature name of the feature table.
pub open spec fn feature_declared(fs: Seq<(String, DocValue)>, n: Seq<char>) -> bool {
    exists|i: int| 0 <= i < fs.len() && fs[i].0@ == n
}

/// How one feature requirement is classified: a `dep:`-prefixed entry names
/// an optional dependency directly; an entry matching a declared feature is a
/// feature reference and names none; an entry with a path separator is a
/// cross-dependency feature reference and names none; anything else names an
/// optional dependency.
pub open spec fn classify_item(fs: Seq<(String, DocValue)>, d: Seq<char>) -> Seq<Seq<char>> {
    if starts_with(d, "dep:"@) {
        seq![d.subrange(4, d.len() as int)]
    } else if feature_declared(fs, d) {
        Seq::empty()
    } else if contains_char(d, '/') {
        Seq::empty()
    } else {
        seq![d]
    }
}

/// The optional dependencies named by one feature's requirement list.
pub open spec fn items_deps(fs: Seq<(String, DocValue)>, items: Seq<DocValue>) -> Seq<Seq<char>>
    decreases items.len(),
{
    if items.len() == 0 {
        Seq::empty()
    } else {
        items_deps(fs, items.drop_last()) + (match items.last() {
            DocValue::Str(d) => classify_item(fs, d@),
            _ => Seq::empty(),
        })
    }
}

/// The optional dependencies one feature-table entry contributes: its
/// requirements when the feature is enabled, nothing otherwise.
pub open spec fn entry_feature_deps(
    all: Seq<(String, DocValue)>,
    enabled: Seq<Seq<char>>,
    name: Seq<char>,
    v: DocValue,
) -> Seq<Seq<char>> {
    if enabled.contains(name) {
        match v {
            DocValue::Arr(items) => items_deps(all, items@),
            _ => Seq::empty(),
        }
    } else {
        Seq::empty()
    }
}

/// The optional dependencies the enabled features of `fs` name, in order,
/// classified against the full feature table `all`.
pub open spec fn features_opt_deps(
    all: Seq<(String, DocValue)>,
    fs: Seq<(String, DocValue)>,
    enabled: Seq<Seq<char>>,
) -> Seq<Seq<char>>
    decreases fs.len(),
{
    if fs.len() == 0 {
        Seq::empty()
    } else {
        features_opt_deps(all, fs.drop_last(), enabled)
            + entry_feature_deps(all, enabled, fs.last().0@, fs.last().1)
    }
}

/// `s` with every repeated element dropped, keeping first occurrences.
pub open spec fn dedup(s: Seq<Seq<char>>) -> Seq<Seq<char>>
    decreases s.len(),
{
    if s.len() == 0 {
        Seq::empty()
    } else {
        let d = dedup(s.drop_last());
        if d.contains(s.last()) {
            d
        } else {
            d.push(s.last())
        }
    }
}

/// The feature table of a document, empty when it declares none.
pub open spec fn features_of(doc: Seq<(String, DocValue)>) -> Seq<(String, DocValue)> {
    match tbl_get(doc, "features"@) {
        Some(DocValue::Table(fs)) => fs@,
        _ => Seq::empty(),
    }
}

/// The dependency names a manifest yields under a platform configuration and
/// an enabled feature list: the non-optional entries of the dependency table,
/// then the non-optional entries of every applicable per-platform block, then
/// the optional dependencies the enabled features name, deduplicated.
pub open spec fn manifest_dependencies(
    cfg: Seq<(u32, String)>,
    doc: Seq<(String, DocValue)>,
    enabled: Seq<Seq<char>>,
) -> Seq<Seq<char>> {
    let base = match tbl_get(doc, "dependencies"@) {
        Some(DocValue::Table(es)) => dep_names(es@),
        _ => Seq::empty(),
    };
    let tgt = match tbl_get(doc, "target"@) {
        Some(DocValue::Table(ts)) => target_deps(cfg, ts@),
        _ => Seq::empty(),
    };
    base + tgt + dedup(features_opt_deps(features_of(doc), features_of(doc), enabled))
}

/// Looks up `k` in a document table.
fn tbl_get_exec<'a>(t: &'a Vec<(String, DocValue)>, k: &str) -> (r: Option<&'a DocValue>)
    ensures
        match r {
            Some(v) => tbl_get(t@, k@) == Some(*v),
            None => tbl_get(t@, k@) is None,
        },
{
    proof {
        assert(t@.subrange(0, t@.len() as int) =~= t@);
    }
    let mut i: usize = 0;
    while i < t.len()
        invariant
            i <= t.len(),
            tbl_get(t@, k@) == tbl_get(t@.subrange(i as int, t@.len() as int), k@),
        decreases t.len() - i,
    {
        let ghost rest = t@.subrange(i as int, t@.len() as int);
        proof {
            assert(rest.first() == t@[i as int]);
            assert(rest.drop_first() =~= t@.subrange(i + 1, t@.len() as int));
        }
        if str_eq(t[i].0.as_str(), k) {
            return Some(&t[i].1);
        }
        i += 1;
    }
    proof {
        assert(t@.subrange(t@.len() as int, t@.len() as int).len() == 0);
    }
    None
}

/// Whether a dependency-table entry carries `optional = true`.
fn is_optional_entry(v: &DocValue) -> (r: bool)
    ensures
        r == entry_optional(*v),
{
    match v {
        DocValue::Table(es) => match tbl_get_exec(es, "optional") {
            Some(found) => match found {
                DocValue::Bool(b) => *b,
                _ => false,
            },
            None => false,
        },
        _ => false,
    }
}

/// Appends the non-optional names of a dependency table to `out`.
fn collect_dep_names(es: &Vec<(String, DocValue)>, out: &mut Vec<String>)
    ensures
        final(out).deep_view() == old(out).deep_view() + dep_names(es@),
{
    let ghost base = old(out).deep_view();
    let mut i: usize = 0;
    proof {
        assert(base + dep_names(es@.subrange(0, 0)) =~= base);
    }
    while i < es.len()
        invariant
            i <= es.len(),
            out.deep_view() == base + dep_names(es@.subrange(0, i as int)),
        decreases es.len() - i,
    {
        let ghost prev = es@.subrange(0, i as int);
        let ghost dbefore = out.deep_view();
        if !is_optional_entry(&es[i].1) {
            out.push(es[i].0.clone());
            proof {
                assert(out.deep_view() =~= dbefore.push(es@[i as int].0@));
            }
        }
        i += 1;
        proof {
            let cur = es@.subrange(0, i as int);
            assert(cur.drop_last() =~= prev);
            assert(cur.last() == es@[i - 1]);
            assert(dep_names(cur) == dep_names(prev) + (if entry_optional(es@[i - 1].1) {
                Seq::<Seq<char>>::empty()
            } else {
                seq![es@[i - 1].0@]
            }));
            assert(out.deep_view() =~= base + dep_names(cur));
        }
    }
    proof {
        assert(es@.subrange(0, es@.len() as int) =~= es@);
    }
}

/// Whether the conditional directive `directive` holds of the context's
/// platform configuration. Only `unix` is recognized; everything else
/// resolves to not applicable, never to applicable.
pub fn resolve_cfg_directive<A: BuildActions>(context: &Context<A>, directive: &str) -> (r:
    Result<bool, BuildError>)
    requires
        context.wf(),
    ensures
        r is Ok,
        r->Ok_0 == directive_holds(context.config@, directive@),
{
    if str_eq(directive, "unix") {
        match context.get_config(BuildConfigKey::TargetFamily) {
            Some(v) => Ok(str_eq(v, "unix")),
            None => Ok(false),
        }
    } else {
        Ok(false)
    }
}

/// Whether a target-table key is an applicable `cfg(...)` condition.
fn key_applies<A: BuildActions>(context: &Context<A>, key: &str) -> (r: bool)
    requires
        context.wf(),
    ensures
        r == cfg_key_applies(context.config@, key@),
{
    if !str_starts_with(key, "cfg(") {
        return false;
    }
    let len = key.unicode_len();
    if len < 5 {
        return false;
    }
    let directive = key.substring_char(4, len - 1);
    match resolve_cfg_directive(context, directive) {
        Ok(b) => b,
        Err(_) => false,
    }
}

/// Appends the dependency names of every applicable per-platform block.
fn collect_target_deps<A: BuildActions>(
    context: &Context<A>,
    ts: &Vec<(String, DocValue)>,
    out: &mut Vec<String>,
)
    requires
        context.wf(),
    ensures
        final(out).deep_view() == old(out).deep_view() + target_deps(context.config@, ts@),
{
    let ghost base = old(out).deep_view();
    let ghost cfg = context.config@;
    let mut i: usize = 0;
    proof {
        assert(base + target_deps(cfg, ts@.subrange(0, 0)) =~= base);
    }
    while i < ts.len()
        invariant
            context.wf(),
            cfg == context.config@,
            i <= ts.len(),
            out.deep_view() == base + target_deps(cfg, ts@.subrange(0, i as int)),
        decreases ts.len() - i,
    {
        let ghost prev = ts@.subrange(0, i as int);
        if key_applies(context, ts[i].0.as_str()) {
            match &ts[i].1 {
                DocValue::Table(es) => {
                    match tbl_get_exec(es, "dependencies") {
                        Some(found) => match found {
                            DocValue::Table(ds) => {
                                collect_dep_names(ds, out);
                            }
                            _ => {}
                        },
                        None => {}
                    }
                }
                _ => {}
            }
        }
        i += 1;
        proof {
            let cur = ts@.subrange(0, i as int);
            assert(cur.drop_last() =~= prev);
            assert(cur.last() == ts@[i - 1]);
            assert(out.deep_view() =~= base + target_deps(cfg, cur));
        }
    }
    proof {
        assert(ts@.subrange(0, ts@.len() as int) =~= ts@);
    }
}

/// Whether `name` is a declared feature of the feature table.
fn is_declared(all: &Vec<(String, DocValue)>, name: &str) -> (r: bool)
    ensures
        r == feature_declared(all@, name@),
{
    let mut i: usize = 0;
    while i < all.len()
        invariant
            i <= all.len(),
            forall|j: int| 0 <= j < i ==> all@[j].0@ != name@,
        decreases all.len() - i,
    {
        if str_eq(all[i].0.as_str(), name) {
            return true;
        }
        i += 1;
    }
    false
}

/// Pushes `x` unless an equal element is already present.
fn push_if_absent(acc: &mut Vec<String>, x: String)
    ensures
        final(acc).deep_view() == (if old(acc).deep_view().contains(x@) {
            old(acc).deep_view()
        } else {
            old(acc).deep_view().push(x@)
        }),
{
    if !vec_contains_str(acc, x.as_str()) {
        acc.push(x);
        proof {
            assert(acc.deep_view() =~= old(acc).deep_view().push(x@));
        }
    }
}

/// The deduplicated optional dependencies the enabled features name, in
/// first-occurrence order.
fn feature_opt_list(all: &Vec<(String, DocValue)>, enabled: &Vec<String>) -> (r: Vec<String>)
    ensures
        r.deep_view() == dedup(features_opt_deps(all@, all@, enabled.deep_view())),
{
    let ghost en = enabled.deep_view();
    let mut acc: Vec<String> = Vec::new();
    let mut i: usize = 0;
    proof {
        assert(acc.deep_view() =~= dedup(features_opt_deps(all@, all@.subrange(0, 0), en)));
    }
    while i < all.len()
        invariant
            i <= all.len(),
            en == enabled.deep_view(),
            acc.deep_view() == dedup(features_opt_deps(all@, all@.subrange(0, i as int), en)),
        decreases all.len() - i,
    {
        let ghost prev = all@.subrange(0, i as int);
        let ghost entry_base = features_opt_deps(all@, prev, en);
        let enabled_here = vec_contains_str(enabled, all[i].0.as_str());
        if enabled_here {
            match &all[i].1 {
                DocValue::Arr(items) => {
                    let mut j: usize = 0;
                    proof {
                        assert(entry_base + items_deps(all@, items@.subrange(0, 0))
                            =~= entry_base);
                    }
                    while j < items.len()
                        invariant
                            j <= items.len(),
                            en == enabled.deep_view(),
                            acc.deep_view() == dedup(entry_base
                                + items_deps(all@, items@.subrange(0, j as int))),
                        decreases items.len() - j,
                    {
                        let ghost jprev = items@.subrange(0, j as int);
                        let ghost stream = entry_base + items_deps(all@, jprev);
                        match &items[j] {
                            DocValue::Str(d) => {
                                if str_starts_with(d.as_str(), "dep:") {
                                    proof {
                                        reveal_strlit("dep:");
                                    }
                                    let stripped = str_after(d.as_str(), 4);
                                    proof {
                                        assert(stripped@ == d@.subrange(4, d@.len() as int));
                                    }
                                    push_if_absent(&mut acc, stripped);
                                    proof {
                                        let z = d@.subrange(4, d@.len() as int);
                                        assert(classify_item(all@, d@) =~= seq![z]);
                                        assert((stream.push(z)).drop_last() =~= stream);
                                        assert(acc.deep_view() == dedup(stream.push(z)));
                                        assert(stream.push(z)
                                            =~= stream + classify_item(all@, d@));
                                    }
                                } else if is_declared(all, d.as_str()) {
                                    proof {
                                        assert(classify_item(all@, d@)
                                            =~= Seq::<Seq<char>>::empty());
                                        assert(stream + classify_item(all@, d@) =~= stream);
                                    }
                                } else if str_contains_char(d.as_str(), '/') {
                                    proof {
                                        assert(classify_item(all@, d@)
                                            =~= Seq::<Seq<char>>::empty());
                                        assert(stream + classify_item(all@, d@) =~= stream);
                                    }
                                } else {
                                    push_if_absent(&mut acc, d.clone());
                                    proof {
                                        assert(classify_item(all@, d@) =~= seq![d@]);
                                        assert((stream.push(d@)).drop_last() =~= stream);
                                        assert(acc.deep_view() == dedup(stream.push(d@)));
                                        assert(stream.push(d@)
                                            =~= stream + classify_item(all@, d@));
                                    }
                                }
                            }
                            _ => {
                                proof {
                                    assert(stream + Seq::<Seq<char>>::empty() =~= stream);
                                }
                            }
                        }
                        j += 1;
                        proof {
                            let jcur = items@.subrange(0, j as int);
                            assert(jcur.drop_last() =~= jprev);
                            assert(jcur.last() == items@[j - 1]);
                            assert(items_deps(all@, jcur) == items_deps(all@, jprev)
                                + (match items@[j - 1] {
                                    DocValue::Str(d) => classify_item(all@, d@),
                                    _ => Seq::<Seq<char>>::empty(),
                                }));
                            assert(entry_base + items_deps(all@, jcur)
                                =~= stream + (match items@[j - 1] {
                                    DocValue::Str(d) => classify_item(all@, d@),
                                    _ => Seq::<Seq<char>>::empty(),
                                }));
                        }
                    }
                    proof {
                        assert(items@.subrange(0, items@.len() as int) =~= items@);
                    }
                }
                _ => {}
            }
        }
        i += 1;
        proof {
            let cur = all@.subrange(0, i as int);
            assert(cur.drop_last() =~= prev);
            assert(cur.last() == all@[i - 1]);
            assert(features_opt_deps(all@, cur, en)
                =~= entry_base + entry_feature_deps(all@, en, all@[i - 1].0@, all@[i - 1].1));
        }
    }
    proof {
        assert(all@.subrange(0, all@.len() as int) =~= all@);
    }
    acc
}

/// A parsed manifest: the dependency names it yields.
#[derive(Debug)]
pub struct CargoToml {
    pub dependencies: Vec<String>,
}

/// Interprets a parsed manifest document under the context's platform
/// configuration and the enabled feature list.
pub fn interpret_manifest<A: BuildActions>(
    context: &Context<A>,
    doc: &Vec<(String, DocValue)>,
    features: &Vec<String>,
) -> (r: Vec<String>)
    requires
        context.wf(),
    ensures
        r.deep_view() == manifest_dependencies(context.config@, doc@, features.deep_view()),
{
    let mut out: Vec<String> = Vec::new();
    match tbl_get_exec(doc, "dependencies") {
        Some(found) => match found {
            DocValue::Table(es) => {
                collect_dep_names(es, &mut out);
            }
            _ => {}
        },
        None => {}
    }
    let ghost base = match tbl_get(doc@, "dependencies"@) {
        Some(DocValue::Table(es)) => dep_names(es@),
        _ => Seq::<Seq<char>>::empty(),
    };
    proof {
        assert(out.deep_view() =~= base);
    }
    match tbl_get_exec(doc, "target") {
        Some(found) => match found {
            DocValue::Table(ts) => {
                collect_target_deps(context, ts, &mut out);
            }
            _ => {}
        },
        None => {}
    }
    let ghost tgt = match tbl_get(doc@, "target"@) {
        Some(DocValue::Table(ts)) => target_deps(context.config@, ts@),
        _ => Seq::<Seq<char>>::empty(),
    };
    proof {
        assert(out.deep_view() =~= base + tgt);
    }
    let mut opt: Vec<String> = match tbl_get_exec(doc, "features") {
        Some(found) => match found {
            DocValue::Arr(_) | DocValue::Str(_) | DocValue::Int(_) | DocValue::Bool(_)
            | DocValue::Other => Vec::new(),
            DocValue::Table(fs) => feature_opt_list(fs, features),
        },
        None => Vec::new(),
    };
    proof {
        if !(tbl_get(doc@, "features"@) matches Some(DocValue::Table(_))) {
            assert(features_of(doc@) =~= Seq::<(String, DocValue)>::empty());
            assert(opt.deep_view()
                =~= dedup(features_opt_deps(features_of(doc@), features_of(doc@),
                    features.deep_view())));
        }
    }
    out.append(&mut opt);
    proof {
        assert(out.deep_view() =~= manifest_dependencies(context.config@, doc@,
            features.deep_view()));
    }
    out
}

/// Splits a locked version/feature string: the first comma-separated field is
/// the exact version, the remaining fields are the enabled feature names.
pub fn parse_lockstring(l: &str) -> (r: (String, Vec<String>))
    ensures
        r.0@ == split_on(l@, ',')[0],
        r.1.deep_view() == split_on(l@, ',').drop_first(),
{
    let mut parts = str_split(l, ',');
    let version = parts.remove(0);
    proof {
        assert(version@ == split_on(l@, ',')[0]);
        assert(parts.deep_view() =~= split_on(l@, ',').drop_first());
    }
    (version, parts)
}

/// Interprets manifest text: it succeeds exactly when the text is a
/// well-formed document, a parse failure is invalid data, and on success the
/// dependencies are exactly what [`manifest_dependencies`] yields for the
/// parsed document under the context's configuration and the given features.
pub fn parse_manifest_text<A: BuildActions>(
    context: &Context<A>,
    text: &str,
    features: &Vec<String>,
) -> (r: Result<CargoToml, BuildError>)
    requires
        context.wf(),
    ensures
        r is Ok <==> parses_as_document(text@),
        match r {
            Ok(ct) => exists|doc: Seq<(String, DocValue)>|
                ct.dependencies.deep_view() == manifest_dependencies(context.config@, doc,
                    features.deep_view()),
            Err(e) => e is InvalidData,
        },
{
    let doc = match parse_document(text) {
        Ok(d) => d,
        Err(e) => {
            return Err(e);
        }
    };
    let deps = interpret_manifest(context, &doc, features);
    let r = CargoToml { dependencies: deps };
    proof {
        let witness = doc@;
        assert(r.dependencies.deep_view() == manifest_dependencies(context.config@, witness,
            features.deep_view()));
    }
    Ok(r)
}

/// Reads the manifest at `filename` through the actions boundary and
/// interprets its text with [`parse_manifest_text`]: on success the
/// dependencies are exactly some document's yield; text that fails to parse
/// is invalid data, and a failed read carries the boundary's own error.
pub fn parse_cargo_toml<A: BuildActions>(
    context: &Context<A>,
    filename: &str,
    features: &Vec<String>,
) -> (r: Result<CargoToml, BuildError>)
    requires
        context.wf(),
    ensures
        match r {
            Ok(ct) => exists|doc: Seq<(String, DocValue)>|
                ct.dependencies.deep_view() == manifest_dependencies(context.config@, doc,
                    features.deep_view()),
            Err(e) => true,
        },
{
    let text = match context.actions.read_to_string(filename) {
        Ok(t) => t,
        Err(e) => {
            return Err(e);
        }
    };
    parse_manifest_text(context, text.as_str(), features)
}

/// Whether the last `/`-segment of `path` has the source-file extension:
/// a dot past its first character whose suffix is exactly `rs`.
pub open spec fn rs_extension(path: Seq<char>) -> bool {
    let name = after_last(path, '/');
    &&& name.len() >= 1
    &&& contains_char(name.subrange(1, name.len() as int), '.')
    &&& after_last(name, '.') == "rs"@
}

/// Whether the file named by `path` carries the source-file extension.
fn has_rs_extension(path: &str) -> (r: bool)
    ensures
        r == rs_extension(path@),
{
    let name = str_after_last(path, '/');
    let len = name.as_str().unicode_len();
    if len == 0 {
        return false;
    }
    let tail = str_after(name.as_str(), 1);
    if !str_contains_char(tail.as_str(), '/') && !str_contains_char(tail.as_str(), '.') {
        return false;
    }
    if !str_contains_char(tail.as_str(), '.') {
        return false;
    }
    let ext = str_after_last(name.as_str(), '.');
    str_eq(ext.as_str(), "rs")
}

/// The source files one directory listing contributes: every entry that is
/// not a symbolic link, is not a directory, and carries the source extension,
/// in listing order.
pub open spec fn entries_sources(es: Seq<FileEntry>) -> Seq<Seq<char>>
    decreases es.len(),
{
    if es.len() == 0 {
        Seq::empty()
    } else {
        entries_sources(es.drop_last()) + (if !es.last().is_symlink && !es.last().is_dir
            && rs_extension(es.last().path@) {
            seq![es.last().path@]
        } else {
            Seq::empty()
        })
    }
}

/// The subdirectories one directory listing contributes to the walk: every
/// entry that is a directory and not a symbolic link, in listing order.
pub open spec fn entries_dirs(es: Seq<FileEntry>) -> Seq<Seq<char>>
    decreases es.len(),
{
    if es.len() == 0 {
        Seq::empty()
    } else {
        entries_dirs(es.drop_last()) + (if !es.last().is_symlink && es.last().is_dir {
            seq![es.last().path@]
        } else {
            Seq::empty()
        })
    }
}

/// The source files a sequence of directory listings yields, in the order
/// the listings were received.
pub open spec fn listings_sources(ls: Seq<Seq<FileEntry>>) -> Seq<Seq<char>>
    decreases ls.len(),
{
    if ls.len() == 0 {
        Seq::empty()
    } else {
        listings_sources(ls.drop_last()) + entries_sources(ls.last())
    }
}

proof fn lemma_entries_sources_rs(es: Seq<FileEntry>)
    ensures
        forall|k: int| 0 <= k < entries_sources(es).len()
            ==> rs_extension(#[trigger] entries_sources(es)[k]),
    decreases es.len(),
{
    if es.len() > 0 {
        lemma_entries_sources_rs(es.drop_last());
        let rec = entries_sources(es.drop_last());
        assert forall|k: int| 0 <= k < entries_sources(es).len()
            implies rs_extension(entries_sources(es)[k]) by {
            if k < rec.len() {
                assert(entries_sources(es)[k] == rec[k]);
            }
        }
    }
}

/// Routes one directory listing of the walk: a non-symlink directory goes
/// onto the walk stack, a non-symlink file carrying the source extension goes
/// into `out`, and everything else — symbolic links above all — is left
/// alone. Exactly [`entries_sources`] is appended to `out` and exactly
/// [`entries_dirs`] to the stack, entry by entry.
fn route_entries(entries: &Vec<FileEntry>, out: &mut Vec<String>, stack: &mut Vec<String>)
    ensures
        final(out)@.len() >= old(out)@.len(),
        final(out)@.subrange(0, old(out)@.len() as int) == old(out)@,
        final(out).deep_view() == old(out).deep_view() + entries_sources(entries@),
        final(stack).deep_view() == old(stack).deep_view() + entries_dirs(entries@),
{
    let ghost obase = old(out)@;
    let ghost odeep = old(out).deep_view();
    let ghost sdeep = old(stack).deep_view();
    proof {
        assert(odeep + entries_sources(entries@.subrange(0, 0)) =~= odeep);
        assert(sdeep + entries_dirs(entries@.subrange(0, 0)) =~= sdeep);
        assert(out@.subrange(0, obase.len() as int) =~= obase);
    }
    let mut j: usize = 0;
    while j < entries.len()
        invariant
            j <= entries.len(),
            obase == old(out)@,
            odeep == old(out).deep_view(),
            sdeep == old(stack).deep_view(),
            out@.len() >= obase.len(),
            out@.subrange(0, obase.len() as int) == obase,
            out.deep_view() == odeep + entries_sources(entries@.subrange(0, j as int)),
            stack.deep_view() == sdeep + entries_dirs(entries@.subrange(0, j as int)),
        decreases entries.len() - j,
    {
        let ghost prev = entries@.subrange(0, j as int);
        let ghost dprev = out.deep_view();
        let ghost sprev = stack.deep_view();
        if !entries[j].is_symlink {
            if entries[j].is_dir {
                stack.push(entries[j].path.clone());
                proof {
                    assert(stack.deep_view() =~= sprev.push(entries@[j as int].path@));
                }
            } else if has_rs_extension(entries[j].path.as_str()) {
                out.push(entries[j].path.clone());
                proof {
                    assert(out.deep_view() =~= dprev.push(entries@[j as int].path@));
                    assert(out@.subrange(0, obase.len() as int) =~= obase);
                }
            }
        }
        j += 1;
        proof {
            let cur = entries@.subrange(0, j as int);
            assert(cur.drop_last() =~= prev);
            assert(cur.last() == entries@[j - 1]);
            assert(out.deep_view() =~= odeep + entries_sources(cur));
            assert(stack.deep_view() =~= sdeep + entries_dirs(cur));
        }
    }
    proof {
        assert(entries@.subrange(0, entries@.len() as int) =~= entries@);
    }
}

/// Enumerates, through the actions boundary, the source files under `path`:
/// each directory listing the boundary hands back is routed by
/// [`route_entries`], so directories are walked, symbolic links are never
/// followed, and exactly the non-symlink files carrying the source extension
/// are collected. What lands in `out` beyond its old entries is precisely
/// the yield of the sequence of listings received, in order.
pub fn get_rust_files<A: BuildActions>(actions: &A, path: String, out: &mut Vec<String>) -> (r:
    Result<(), BuildError>)
    ensures
        old(out)@.len() <= final(out)@.len(),
        final(out)@.subrange(0, old(out)@.len() as int) == old(out)@,
        forall|i: int| old(out)@.len() <= i < final(out)@.len()
            ==> rs_extension(final(out)@[i]@),
        exists|ls: Seq<Seq<FileEntry>>|
            final(out).deep_view() == old(out).deep_view() + listings_sources(ls),
{
    let ghost base = old(out)@;
    let ghost bdeep = old(out).deep_view();
    let ghost mut trace: Seq<Seq<FileEntry>> = Seq::empty();
    let mut stack: Vec<String> = Vec::new();
    // A directory tree is finite; the budget only bounds the walk formally.
    let mut budget: usize = usize::MAX;
    stack.push(path);
    proof {
        assert(bdeep + listings_sources(trace) =~= bdeep);
        assert(out@.subrange(0, base.len() as int) =~= base);
    }
    while stack.len() > 0 && budget > 0
        invariant
            base == old(out)@,
            bdeep == old(out).deep_view(),
            base.len() <= out@.len(),
            out@.subrange(0, base.len() as int) == base,
            forall|i: int| base.len() <= i < out@.len() ==> rs_extension(out@[i]@),
            out.deep_view() == bdeep + listings_sources(trace),
        decreases budget,
    {
        budget -= 1;
        let dir = match stack.pop() {
            Some(d) => d,
            None => {
                return Ok(());
            }
        };
        let entries = match actions.read_dir(dir.as_str()) {
            Ok(es) => es,
            Err(e) => {
                return Err(e);
            }
        };
        let ghost opre = out@;
        let ghost dpre = out.deep_view();
        route_entries(&entries, out, &mut stack);
        proof {
            lemma_entries_sources_rs(entries@);
            let t2 = trace.push(entries@);
            assert(t2.drop_last() =~= trace);
            assert(t2.last() == entries@);
            assert(out.deep_view() =~= bdeep + listings_sources(t2));
            trace = t2;
            assert(dpre.len() == opre.len());
            assert forall|i: int| base.len() <= i < out@.len()
                implies rs_extension(out@[i]@) by {
                if i < opre.len() {
                    assert(out@.subrange(0, opre.len() as int)[i] == out@[i]);
                    assert(out@[i] == opre[i]);
                } else {
                    assert(out.deep_view()[i] == out@[i]@);
                    assert(out.deep_view()[i] == entries_sources(entries@)[i - opre.len()]);
                }
            }
            assert(out@.subrange(0, base.len() as int) =~= base) by {
                assert(forall|i: int| 0 <= i < base.len()
                    ==> out@.subrange(0, opre.len() as int)[i] == #[trigger] out@[i]);
            }
        }
    }
    Ok(())
}

proof fn lemma_concat_contains(a: Seq<Seq<char>>, b: Seq<Seq<char>>, x: Seq<char>)
    ensures
        (a + b).contains(x) <==> a.contains(x) || b.contains(x),
{
    if a.contains(x) {
        let i = choose|i: int| 0 <= i < a.len() && a[i] == x;
        assert((a + b)[i] == x);
    }
    if b.contains(x) {
        let i = choose|i: int| 0 <= i < b.len() && b[i] == x;
        assert((a + b)[a.len() + i] == x);
    }
    if (a + b).contains(x) {
        let i = choose|i: int| 0 <= i < (a + b).len() && (a + b)[i] == x;
        if i < a.len() {
            assert(a[i] == x);
        } else {
            assert(b[i - a.len()] == x);
        }
    }
}

/// Deduplication keeps exactly the elements: membership is unchanged.
pub proof fn lemma_dedup_contains(s: Seq<Seq<char>>, x: Seq<char>)
    ensures
        dedup(s).contains(x) <==> s.contains(x),
    decreases s.len(),
{
    if s.len() > 0 {
        lemma_dedup_contains(s.drop_last(), x);
        let d = dedup(s.drop_last());
        assert(s.contains(x) <==> (s.drop_last().contains(x) || s.last() == x)) by {
            if s.contains(x) {
                let i = choose|i: int| 0 <= i < s.len() && s[i] == x;
                if i < s.len() - 1 {
                    assert(s.drop_last()[i] == x);
                }
            }
            if s.drop_last().contains(x) {
                let i = choose|i: int| 0 <= i < s.drop_last().len() && s.drop_last()[i] == x;
                assert(s[i] == x);
            }
            if s.last() == x {
                assert(s[s.len() - 1] == x);
            }
        }
        if !d.contains(s.last()) {
            assert(d.push(s.last()).contains(x) <==> (d.contains(x) || s.last() == x)) by {
                if d.contains(x) {
                    let i = choose|i: int| 0 <= i < d.len() && d[i] == x;
                    assert(d.push(s.last())[i] == x);
                }
                assert(d.push(s.last())[d.len() as int] == s.last());
                if d.push(s.last()).contains(x) {
                    let i = choose|i: int| 0 <= i < d.push(s.last()).len()
                        && d.push(s.last())[i] == x;
                    if i < d.len() {
                        assert(d[i] == x);
                    }
                }
            }
        }
    }
}

/// Whether one requirement entry is the explicit `dep:` form for `name`.
pub open spec fn item_is_dep_entry(v: DocValue, name: Seq<char>) -> bool {
    v is Str && v->Str_0@ == "dep:"@ + name
}

/// Whether some enabled feature's requirement list carries the explicit
/// `dep:` form for `name`.
pub open spec fn has_dep_requirement(
    fs: Seq<(String, DocValue)>,
    enabled: Seq<Seq<char>>,
    name: Seq<char>,
) -> bool {
    exists|i: int, j: int|
        0 <= i < fs.len() && enabled.contains(fs[i].0@) && fs[i].1 is Arr
            && 0 <= j < fs[i].1->Arr_0@.len() && item_is_dep_entry(fs[i].1->Arr_0@[j], name)
}

proof fn lemma_items_deps_excludes(all: Seq<(String, DocValue)>, items: Seq<DocValue>, name: Seq<
    char,
>)
    requires
        feature_declared(all, name),
        forall|j: int| 0 <= j < items.len() ==> !item_is_dep_entry(#[trigger] items[j], name),
    ensures
        !items_deps(all, items).contains(name),
    decreases items.len(),
{
    reveal_strlit("dep:");
    if items.len() > 0 {
        assert(forall|j: int| 0 <= j < items.drop_last().len()
            ==> #[trigger] items.drop_last()[j] == items[j]);
        lemma_items_deps_excludes(all, items.drop_last(), name);
        let part = match items.last() {
            DocValue::Str(d) => classify_item(all, d@),
            _ => Seq::<Seq<char>>::empty(),
        };
        assert(!part.contains(name)) by {
            match items.last() {
                DocValue::Str(d) => {
                    if starts_with(d@, "dep:"@) {
                        if d@.subrange(4, d@.len() as int) == name {
                            assert(d@ =~= "dep:"@ + name);
                            assert(item_is_dep_entry(items[items.len() - 1], name));
                        }
                        assert(part =~= seq![d@.subrange(4, d@.len() as int)]);
                        if part.contains(name) {
                            let i = choose|i: int| 0 <= i < part.len() && part[i] == name;
                            assert(part[0] == d@.subrange(4, d@.len() as int));
                        }
                    } else if feature_declared(all, d@) {
                    } else if contains_char(d@, '/') {
                    } else {
                        assert(part =~= seq![d@]);
                        if part.contains(name) {
                            assert(part[0] == d@);
                            assert(d@ == name);
                            assert(feature_declared(all, d@));
                        }
                    }
                }
                _ => {}
            }
        }
        lemma_concat_contains(items_deps(all, items.drop_last()), part, name);
    }
}

proof fn lemma_features_opt_excludes(
    all: Seq<(String, DocValue)>,
    fs: Seq<(String, DocValue)>,
    enabled: Seq<Seq<char>>,
    name: Seq<char>,
)
    requires
        feature_declared(all, name),
        !has_dep_requirement(fs, enabled, name),
    ensures
        !features_opt_deps(all, fs, enabled).contains(name),
    decreases fs.len(),
{
    if fs.len() > 0 {
        assert(!has_dep_requirement(fs.drop_last(), enabled, name)) by {
            if has_dep_requirement(fs.drop_last(), enabled, name) {
                let (i, j) = choose|i: int, j: int|
                    0 <= i < fs.drop_last().len() && enabled.contains(fs.drop_last()[i].0@)
                        && fs.drop_last()[i].1 is Arr
                        && 0 <= j < fs.drop_last()[i].1->Arr_0@.len()
                        && item_is_dep_entry(fs.drop_last()[i].1->Arr_0@[j], name);
                assert(fs[i] == fs.drop_last()[i]);
            }
        }
        lemma_features_opt_excludes(all, fs.drop_last(), enabled, name);
        let part = entry_feature_deps(all, enabled, fs.last().0@, fs.last().1);
        assert(!part.contains(name)) by {
            if enabled.contains(fs.last().0@) {
                match fs.last().1 {
                    DocValue::Arr(items) => {
                        assert(forall|j: int| 0 <= j < items@.len()
                            ==> !item_is_dep_entry(#[trigger] items@[j], name)) by {
                            assert forall|j: int|
                                0 <= j < items@.len()
                                    && item_is_dep_entry(#[trigger] items@[j], name)
                                implies false by {
                                assert(fs[fs.len() - 1].1 is Arr);
                                assert(fs[fs.len() - 1].1->Arr_0@[j] == items@[j]);
                                assert(has_dep_requirement(fs, enabled, name));
                            }
                        }
                        lemma_items_deps_excludes(all, items@, name);
                    }
                    _ => {}
                }
            }
        }
        lemma_concat_contains(features_opt_deps(all, fs.drop_last(), enabled), part, name);
    }
}

proof fn lemma_dep_names_member(es: Seq<(String, DocValue)>, i: int)
    requires
        0 <= i < es.len(),
        !entry_optional(es[i].1),
    ensures
        dep_names(es).contains(es[i].0@),
    decreases es.len(),
{
    let blk = if entry_optional(es.last().1) {
        Seq::<Seq<char>>::empty()
    } else {
        seq![es.last().0@]
    };
    if i == es.len() - 1 {
        assert(blk[0] == es[i].0@);
        assert(blk.contains(es[i].0@));
        lemma_concat_contains(dep_names(es.drop_last()), blk, es[i].0@);
    } else {
        assert(es.drop_last()[i] == es[i]);
        lemma_dep_names_member(es.drop_last(), i);
        lemma_concat_contains(dep_names(es.drop_last()), blk, es[i].0@);
    }
}

proof fn lemma_items_deps_member(
    all: Seq<(String, DocValue)>,
    items: Seq<DocValue>,
    j: int,
    x: Seq<char>,
)
    requires
        0 <= j < items.len(),
        items[j] is Str,
        classify_item(all, items[j]->Str_0@).contains(x),
    ensures
        items_deps(all, items).contains(x),
    decreases items.len(),
{
    let blk = match items.last() {
        DocValue::Str(d) => classify_item(all, d@),
        _ => Seq::<Seq<char>>::empty(),
    };
    if j == items.len() - 1 {
        lemma_concat_contains(items_deps(all, items.drop_last()), blk, x);
    } else {
        assert(items.drop_last()[j] == items[j]);
        lemma_items_deps_member(all, items.drop_last(), j, x);
        lemma_concat_contains(items_deps(all, items.drop_last()), blk, x);
    }
}

proof fn lemma_features_opt_member(
    all: Seq<(String, DocValue)>,
    fs: Seq<(String, DocValue)>,
    enabled: Seq<Seq<char>>,
    i: int,
    x: Seq<char>,
)
    requires
        0 <= i < fs.len(),
        enabled.contains(fs[i].0@),
        fs[i].1 is Arr,
        items_deps(all, fs[i].1->Arr_0@).contains(x),
    ensures
        features_opt_deps(all, fs, enabled).contains(x),
    decreases fs.len(),
{
    let blk = entry_feature_deps(all, enabled, fs.last().0@, fs.last().1);
    if i == fs.len() - 1 {
        assert(blk == items_deps(all, fs[i].1->Arr_0@));
        lemma_concat_contains(features_opt_deps(all, fs.drop_last(), enabled), blk, x);
    } else {
        assert(fs.drop_last()[i] == fs[i]);
        lemma_features_opt_member(all, fs.drop_last(), enabled, i, x);
        lemma_concat_contains(features_opt_deps(all, fs.drop_last(), enabled), blk, x);
    }
}

/// A non-optional entry of the dependency table always appears in the
/// manifest's yield, whatever the platform configuration and the enabled
/// feature list; and the yield lists it in the mandatory part, ahead of every
/// feature-named optional dependency.
pub proof fn lemma_mandatory_dependency_appears(
    cfg: Seq<(u32, String)>,
    doc: Seq<(String, DocValue)>,
    enabled: Seq<Seq<char>>,
    i: int,
)
    requires
        tbl_get(doc, "dependencies"@) is Some,
        tbl_get(doc, "dependencies"@)->Some_0 is Table,
        0 <= i < tbl_get(doc, "dependencies"@)->Some_0->Table_0@.len(),
        !entry_optional(tbl_get(doc, "dependencies"@)->Some_0->Table_0@[i].1),
    ensures
        manifest_dependencies(cfg, doc, enabled).contains(
            tbl_get(doc, "dependencies"@)->Some_0->Table_0@[i].0@),
{
    let es = tbl_get(doc, "dependencies"@)->Some_0->Table_0@;
    let name = es[i].0@;
    lemma_dep_names_member(es, i);
    let base = dep_names(es);
    let tgt = match tbl_get(doc, "target"@) {
        Some(DocValue::Table(ts)) => target_deps(cfg, ts@),
        _ => Seq::<Seq<char>>::empty(),
    };
    let opt = dedup(features_opt_deps(features_of(doc), features_of(doc), enabled));
    lemma_concat_contains(base, tgt, name);
    lemma_concat_contains(base + tgt, opt, name);
}

/// An enabled feature's explicit `dep:`-prefixed requirement always appears
/// in the manifest's yield: the positive counterpart of the
/// feature-reference law below.
pub proof fn lemma_dep_requirement_appears(
    cfg: Seq<(u32, String)>,
    doc: Seq<(String, DocValue)>,
    enabled: Seq<Seq<char>>,
    name: Seq<char>,
)
    requires
        has_dep_requirement(features_of(doc), enabled, name),
    ensures
        manifest_dependencies(cfg, doc, enabled).contains(name),
{
    reveal_strlit("dep:");
    let fs = features_of(doc);
    let (i, j) = choose|i: int, j: int|
        0 <= i < fs.len() && enabled.contains(fs[i].0@) && fs[i].1 is Arr
            && 0 <= j < fs[i].1->Arr_0@.len() && item_is_dep_entry(fs[i].1->Arr_0@[j], name);
    let items = fs[i].1->Arr_0@;
    let d = items[j]->Str_0@;
    assert(d == "dep:"@ + name);
    assert(starts_with(d, "dep:"@)) by {
        assert(forall|k: int| 0 <= k < 4 ==> d[k] == #[trigger] "dep:"@[k]);
    }
    assert(classify_item(fs, d).contains(name)) by {
        assert(d.subrange(4, d.len() as int) =~= name);
        assert(classify_item(fs, d)[0] == d.subrange(4, d.len() as int));
    }
    lemma_items_deps_member(fs, items, j, name);
    lemma_features_opt_member(fs, fs, enabled, i, name);
    lemma_dedup_contains(features_opt_deps(fs, fs, enabled), name);
    let base = match tbl_get(doc, "dependencies"@) {
        Some(DocValue::Table(es)) => dep_names(es@),
        _ => Seq::<Seq<char>>::empty(),
    };
    let tgt = match tbl_get(doc, "target"@) {
        Some(DocValue::Table(ts)) => target_deps(cfg, ts@),
        _ => Seq::<Seq<char>>::empty(),
    };
    let opt = dedup(features_opt_deps(fs, fs, enabled));
    lemma_concat_contains(base, tgt, name);
    lemma_concat_contains(base + tgt, opt, name);
}

/// A feature requirement that names another declared feature — and is not
/// `dep:`-prefixed — is a feature reference, never a dependency: unless some
/// enabled feature names it through an explicit `dep:` entry, a declared
/// feature's name never appears among the optional dependencies a manifest
/// yields, and appears in the full dependency list only where a dependency
/// table itself names it.
pub proof fn lemma_feature_reference_never_a_dependency(
    cfg: Seq<(u32, String)>,
    doc: Seq<(String, DocValue)>,
    enabled: Seq<Seq<char>>,
    name: Seq<char>,
)
    requires
        feature_declared(features_of(doc), name),
        !has_dep_requirement(features_of(doc), enabled, name),
    ensures
        !dedup(features_opt_deps(features_of(doc), features_of(doc), enabled)).contains(name),
        ({
            let base = match tbl_get(doc, "dependencies"@) {
                Some(DocValue::Table(es)) => dep_names(es@),
                _ => Seq::<Seq<char>>::empty(),
            };
            let tgt = match tbl_get(doc, "target"@) {
                Some(DocValue::Table(ts)) => target_deps(cfg, ts@),
                _ => Seq::<Seq<char>>::empty(),
            };
            !base.contains(name) && !tgt.contains(name)
                ==> !manifest_dependencies(cfg, doc, enabled).contains(name)
        }),
{
    let fs = features_of(doc);
    lemma_features_opt_excludes(fs, fs, enabled, name);
    lemma_dedup_contains(features_opt_deps(fs, fs, enabled), name);
    let base = match tbl_get(doc, "dependencies"@) {
        Some(DocValue::Table(es)) => dep_names(es@),
        _ => Seq::<Seq<char>>::empty(),
    };
    let tgt = match tbl_get(doc, "target"@) {
        Some(DocValue::Table(ts)) => target_deps(cfg, ts@),
        _ => Seq::<Seq<char>>::empty(),
    };
    let opt = dedup(features_opt_deps(fs, fs, enabled));
    lemma_concat_contains(base, tgt, name);
    lemma_concat_contains(base + tgt, opt, name);
}

/// The enabled feature list recorded for `target` in the lockfile: every
/// comma-separated field after the version.
pub open spec fn locked_features(lock: Seq<(String, String)>, target: Seq<char>) -> Seq<
    Seq<char>,
> {
    match lock_find(lock, target) {
        Some(l) => split_on(l, ',').drop_first(),
        None => Seq::empty(),
    }
}

/// Each dependency name written back into the scheme's URI form.
pub open spec fn prefixed_all(s: Seq<Seq<char>>) -> Seq<Seq<char>> {
    s.map_values(|d: Seq<char>| "cargo://"@ + d)
}

impl<A: BuildActions> ResolverPlugin<A> for CargoResolver {
    /// This resolver recognizes exactly the `cargo://` scheme.
    open spec fn can_resolve_spec(&self, target: Seq<char>) -> bool {
        starts_with(target, "cargo://"@)
    }

    /// What resolution guarantees. Success requires a recognized target with
    /// a lockfile entry; the configuration then carries the fixed toolchain
    /// plugin and build dependency, the kind tag, the locked feature list
    /// under the features key, sources that are exactly the walk's yield for
    /// some sequence of directory listings (all carrying the source
    /// extension), and dependency names that are exactly some manifest's
    /// yield, each written back into URI form. An unrecognized target fails;
    /// a recognized target without a lockfile entry fails as not found.
    open spec fn resolve_post(&self, context: &Context<A>, target: Seq<char>, r: &Result<
        Config,
        BuildError,
    >) -> bool {
        match r {
            Ok(c) => {
                &&& starts_with(target, "cargo://"@)
                &&& lock_find(context.lockfile@, target) is Some
                &&& c.build_plugin@ == "@rust_plugin"@
                &&& c.location is None
                &&& c.build_dependencies.deep_view() == seq!["@rust_compiler"@]
                &&& c.kind@ == "rust_library"@
                &&& c.hash == 1010
                &&& extras_view(c.extras@) == seq![
                    (CONFIG_EXTRA_FEATURES, locked_features(context.lockfile@, target)),
                ]
                &&& forall|i: int| 0 <= i < c.sources@.len() ==> rs_extension(c.sources@[i]@)
                &&& exists|ls: Seq<Seq<FileEntry>>|
                    c.sources.deep_view() == listings_sources(ls)
                &&& exists|doc: Seq<(String, DocValue)>|
                    c.dependencies.deep_view() == prefixed_all(manifest_dependencies(
                        context.config@, doc, locked_features(context.lockfile@, target)))
            },
            Err(e) => {
                &&& !starts_with(target, "cargo://"@) ==> e is Other
                &&& (starts_with(target, "cargo://"@)
                    && lock_find(context.lockfile@, target) is None) ==> e is NotFound
            },
        }
    }

    fn can_resolve(&self, target: &str) -> (r: bool) {
        str_starts_with(target, "cargo://")
    }

    fn resolve(&self, context: &Context<A>, target: &str) -> (r: Result<Config, BuildError>) {
        proof {
            reveal_strlit("cargo://");
        }
        if !str_starts_with(target, "cargo://") {
            return Err(BuildError::Other("invalid target name".to_owned()));
        }
        let crate_name = str_after(target, 8);
        let lockstring = match context.get_locked_version(target) {
            Ok(l) => l,
            Err(e) => {
                return Err(e);
            }
        };
        let (crate_version, features) = parse_lockstring(lockstring.as_str());
        let workdir = context.working_directory();
        let _ = context.actions.create_dir_all(workdir.as_str());

        let mut tar_dest = workdir.clone();
        tar_dest.append("/crate.tar");
        if !context.actions.path_exists(tar_dest.as_str()) {
            let mut url = "https://crates.io/api/v1/crates/".to_owned();
            url.append(crate_name.as_str());
            url.append("/");
            url.append(crate_version.as_str());
            url.append("/download");
            match context.actions.download(url.as_str(), tar_dest.as_str()) {
                Ok(_) => {}
                Err(e) => {
                    return Err(e);
                }
            }
        }

        let mut dest = workdir.clone();
        dest.append("/crate");
        if !context.actions.path_exists(dest.as_str()) {
            let _ = context.actions.create_dir_all(dest.as_str());
            let mut args: Vec<String> = Vec::new();
            args.push("xzvf".to_owned());
            args.push(tar_dest.clone());
            args.push("-C".to_owned());
            args.push(dest.clone());
            args.push("--strip-components=1".to_owned());
            match context.actions.run_process("tar", &args) {
                Ok(_) => {}
                Err(e) => {
                    return Err(e);
                }
            }
        }

        let mut src_dir = dest.clone();
        src_dir.append("/src");
        let mut rust_files: Vec<String> = Vec::new();
        let ghost empty_deep = rust_files.deep_view();
        match get_rust_files(&context.actions, src_dir, &mut rust_files) {
            Ok(_) => {}
            Err(e) => {
                return Err(e);
            }
        }
        proof {
            assert(empty_deep =~= Seq::<Seq<char>>::empty());
            let ls = choose|ls: Seq<Seq<FileEntry>>|
                rust_files.deep_view() == empty_deep + listings_sources(ls);
            assert(empty_deep + listings_sources(ls) =~= listings_sources(ls));
            assert(rust_files.deep_view() == listings_sources(ls));
        }

        let mut extras: Vec<(u32, Vec<String>)> = Vec::new();
        extras.push((CONFIG_EXTRA_FEATURES, copy_strings(&features)));

        let mut manifest_path = dest.clone();
        manifest_path.append("/Cargo.toml");
        let toml = match parse_cargo_toml(context, manifest_path.as_str(), &features) {
            Ok(t) => t,
            Err(e) => {
                return Err(e);
            }
        };

        let mut deps: Vec<String> = Vec::new();
        let mut i: usize = 0;
        while i < toml.dependencies.len()
            invariant
                i <= toml.dependencies.len(),
                deps.deep_view() =~= prefixed_all(toml.dependencies.deep_view().subrange(0,
                    i as int)),
            decreases toml.dependencies.len() - i,
        {
            let ghost k = i as int;
            let ghost dbefore = deps.deep_view();
            let d = "cargo://".to_owned().concat(toml.dependencies[i].as_str());
            proof {
                assert(d@ == "cargo://"@ + toml.dependencies.deep_view()[k]);
            }
            deps.push(d);
            i += 1;
            proof {
                assert(deps.deep_view() =~= dbefore.push("cargo://"@
                    + toml.dependencies.deep_view()[k]));
                assert(deps.deep_view() =~= prefixed_all(
                    toml.dependencies.deep_view().subrange(0, i as int)));
            }
        }
        proof {
            assert(toml.dependencies.deep_view().subrange(0, toml.dependencies@.len() as int)
                =~= toml.dependencies.deep_view());
        }

        let c = Config {
            dependencies: deps,
            build_plugin: "@rust_plugin".to_owned(),
            location: None,
            sources: rust_files,
            build_dependencies: vec!["@rust_compiler".to_owned()],
            kind: "rust_library".to_owned(),
            extras,
            hash: 1010,
        };
        proof {
            assert(extras_view(c.extras@) =~= seq![
                (CONFIG_EXTRA_FEATURES, locked_features(context.lockfile@, target@)),
            ]);
            assert(c.build_dependencies.deep_view() =~= seq!["@rust_compiler"@]);
            let witness = choose|doc: Seq<(String, DocValue)>|
                toml.dependencies.deep_view() == manifest_dependencies(context.config@, doc,
                    features.deep_view());
            assert(c.dependencies.deep_view() == prefixed_all(manifest_dependencies(
                context.config@, witness, locked_features(context.lockfile@, target@))));
        }
        Ok(c)
    }
}

} // verus!
