//! Checking the dependencies and conflicts of a set of plugins, and building
//! their reverse dependency graph.

use vstd::prelude::*;
use vstd::string::*;

use crate::dependency_graph::{
    add_edge, batch_is_layer, done_before, edge_count, ensure_node, error_ids, graph_nodes, has_key, key_index,
    is_circular, settles_at, Graph, ReverseDeps,
};
use crate::lazy_plugin::LazyLoadPlugin;
use crate::plugin_loader::{PluginDependencyError, PluginDependencyErrorInner, PluginLoader};
use crate::requirement::{Dependency, VersionRequirement};
use crate::types::{PluginId, PluginName};
use crate::version::{
    caret_matches, join_dots, lemma_version_compare_numbers, lemma_version_compare_sign, num_order_from,
    pvals, tilde_matches, version_compare, well_formed, Version,
};

verus! {

/// The plugins to check, each with its id.
pub type PluginList = Seq<(PluginId, LazyLoadPlugin)>;

/// The name a plugin can be depended on by; invalid plugins have none.
pub open spec fn resolvable_name(lz: LazyLoadPlugin) -> Option<Seq<char>> {
    match lz {
        LazyLoadPlugin::ExternalPlugin { name, .. } => Some(name@),
        LazyLoadPlugin::BuiltinPlugin { name, .. } => Some(name@),
        LazyLoadPlugin::InvalidPlugin { .. } => None,
    }
}

/// The version of a plugin (none for an invalid one).
pub open spec fn plugin_version(lz: LazyLoadPlugin) -> Seq<Seq<char>> {
    match lz {
        LazyLoadPlugin::ExternalPlugin { version, .. } => version@,
        LazyLoadPlugin::BuiltinPlugin { version, .. } => version@,
        LazyLoadPlugin::InvalidPlugin { .. } => Seq::empty(),
    }
}

/// The declared dependencies of an external plugin.
pub open spec fn dependencies_of(lz: LazyLoadPlugin) -> Seq<Dependency> {
    match lz {
        LazyLoadPlugin::ExternalPlugin { dependencies: Some(d), .. } => d@,
        _ => Seq::empty(),
    }
}

/// The declared conflicts of an external plugin.
pub open spec fn conflicts_of(lz: LazyLoadPlugin) -> Seq<Dependency> {
    match lz {
        LazyLoadPlugin::ExternalPlugin { conflicts: Some(c), .. } => c@,
        _ => Seq::empty(),
    }
}

/// The name of an external plugin.
pub open spec fn external_name(lz: LazyLoadPlugin) -> Seq<char> {
    match lz {
        LazyLoadPlugin::ExternalPlugin { name, .. } => name@,
        _ => Seq::empty(),
    }
}

/// The position of the plugin that `name` refers to: the last valid plugin
/// with that name.
pub open spec fn resolve(ps: PluginList, name: Seq<char>) -> Option<int>
    decreases ps.len(),
{
    if ps.len() == 0 {
        None
    } else if resolvable_name(ps.last().1) == Some(name) {
        Some(ps.len() - 1)
    } else {
        resolve(ps.drop_last(), name)
    }
}

/// A dependency on `found` with requirement `req` is not met.
pub open spec fn misses(found: Seq<Seq<char>>, req: VersionRequirement) -> bool {
    match req {
        VersionRequirement::Exact(v) => version_compare(found, v@) != Some(0int),
        VersionRequirement::LessEqual(v) => version_compare(found, v@) matches Some(c) && c > 0,
        VersionRequirement::GreaterEqual(v) => version_compare(found, v@) matches Some(c) && c < 0,
        VersionRequirement::Caret(v) => !caret_matches(found, v@),
        VersionRequirement::Tilde(v) => !tilde_matches(found, v@),
        VersionRequirement::Any => false,
    }
}

/// A conflict with `found` under requirement `req` applies.
pub open spec fn hits(found: Seq<Seq<char>>, req: VersionRequirement) -> bool {
    match req {
        VersionRequirement::Exact(v) => version_compare(found, v@) == Some(0int),
        VersionRequirement::LessEqual(v) => version_compare(found, v@) matches Some(c) && c <= 0,
        VersionRequirement::GreaterEqual(v) => version_compare(found, v@) matches Some(c) && c >= 0,
        VersionRequirement::Caret(v) => caret_matches(found, v@),
        VersionRequirement::Tilde(v) => tilde_matches(found, v@),
        VersionRequirement::Any => true,
    }
}

/// The check of `req` against `found` can be made: the versions compared
/// are comparable, and a `~` requirement has a component.
pub open spec fn checkable(found: Seq<Seq<char>>, req: VersionRequirement) -> bool {
    match req {
        VersionRequirement::Exact(v) => version_compare(found, v@) is Some,
        VersionRequirement::LessEqual(v) => version_compare(found, v@) is Some,
        VersionRequirement::GreaterEqual(v) => version_compare(found, v@) is Some,
        VersionRequirement::Tilde(v) => v@.len() > 0,
        _ => true,
    }
}

/// Every dependency and conflict that refers to a plugin of `ps` can be
/// checked against that plugin's version.
pub open spec fn all_checkable(ps: PluginList) -> bool {
    &&& forall|i: int, j: int|
        0 <= i < ps.len() && 0 <= j < dependencies_of(ps[i].1).len() ==> requirement_checkable(
            ps,
            #[trigger] dependencies_of(ps[i].1)[j],
        )
    &&& forall|i: int, j: int|
        0 <= i < ps.len() && 0 <= j < conflicts_of(ps[i].1).len() ==> requirement_checkable(
            ps,
            #[trigger] conflicts_of(ps[i].1)[j],
        )
}

/// Where `name` resolves, it resolves to a valid plugin of that name.
pub proof fn lemma_resolve(ps: PluginList, name: Seq<char>)
    ensures
        resolve(ps, name) matches Some(q) ==> 0 <= q < ps.len() && resolvable_name(ps[q].1)
            == Some(name),
    decreases ps.len(),
{
    if ps.len() > 0 && resolvable_name(ps.last().1) != Some(name) {
        lemma_resolve(ps.drop_last(), name);
        if let Some(q) = resolve(ps.drop_last(), name) {
            assert(ps.drop_last()[q] == ps[q]);
        }
    }
}

pub open spec fn requirement_checkable(ps: PluginList, d: Dependency) -> bool {
    resolve(ps, d.name@) matches Some(q) ==> checkable(plugin_version(ps[q].1), d.requirement)
}

/// A dependency problem, as text.
pub ghost enum Issue {
    Circular { id: u64, text: Seq<char> },
    Missing { id: u64, name: Seq<char>, requirement: Seq<char> },
    Conflict { id: u64, name: Seq<char>, conflicting_with: Seq<char>, reason: Seq<char> },
}

/// The problem an error reports.
pub open spec fn issue_of(e: PluginDependencyError) -> Issue {
    match e.error {
        PluginDependencyErrorInner::Circular(s) => Issue::Circular { id: e.id.0, text: s@ },
        PluginDependencyErrorInner::Missing { name, requirement } => Issue::Missing {
            id: e.id.0,
            name: name@,
            requirement: requirement@,
        },
        PluginDependencyErrorInner::Conflict { name, conflicting_with, reason } => Issue::Conflict {
            id: e.id.0,
            name: name@,
            conflicting_with: conflicting_with@,
            reason: reason@,
        },
    }
}

/// Why plugin `name` conflicts with `target` under `req`, `found` being the
/// installed version of `target`.
pub open spec fn conflict_reason(
    name: Seq<char>,
    target: Seq<char>,
    req: VersionRequirement,
    found: Seq<Seq<char>>,
) -> Seq<char> {
    let f = join_dots(found);
    match req {
        VersionRequirement::Exact(v) => "Conflict: '"@ + name + "' cannot coexist with '"@ + target
            + "' at version "@ + join_dots(v@) + ", but "@ + f + " is installed"@,
        VersionRequirement::LessEqual(v) => "Conflict: '"@ + name + "' is incompatible with '"@
            + target + "' <= "@ + join_dots(v@) + " (found "@ + f + " in forbidden range)"@,
        VersionRequirement::GreaterEqual(v) => "Conflict: '"@ + name + "' is incompatible with '"@
            + target + "' >= "@ + join_dots(v@) + " (found "@ + f + " in forbidden range)"@,
        VersionRequirement::Caret(v) => "Conflict: '"@ + name + "' has a Caret conflict with '"@
            + target + "' ^"@ + join_dots(v@) + " (found incompatible "@ + f + ")"@,
        VersionRequirement::Tilde(v) => "Conflict: '"@ + name + "' has a Tilde conflict with '"@
            + target + "' ~"@ + join_dots(v@) + " (found incompatible "@ + f + ")"@,
        VersionRequirement::Any => "Plugin "@ + name + " conflicts with plugin "@ + target + "."@,
    }
}

/// The problem with dependency `d` of plugin `ps[i]`, if any.
pub open spec fn dependency_issue(ps: PluginList, i: int, d: Dependency) -> Seq<Issue> {
    let name = external_name(ps[i].1);
    let id = ps[i].0.0;
    match resolve(ps, d.name@) {
        None => seq![Issue::Missing { id, name, requirement: d.name@ }],
        Some(q) => if misses(plugin_version(ps[q].1), d.requirement) {
            seq![Issue::Missing { id, name, requirement: d.raw() }]
        } else {
            Seq::empty()
        },
    }
}

/// The problem with conflict `c` of plugin `ps[i]`, if it applies.
pub open spec fn conflict_issue(ps: PluginList, i: int, c: Dependency) -> Seq<Issue> {
    let name = external_name(ps[i].1);
    let id = ps[i].0.0;
    match resolve(ps, c.name@) {
        None => Seq::empty(),
        Some(q) => {
            let found = plugin_version(ps[q].1);
            if hits(found, c.requirement) {
                seq![
                    Issue::Conflict {
                        id,
                        name,
                        conflicting_with: c.raw(),
                        reason: conflict_reason(name, c.name@, c.requirement, found),
                    },
                ]
            } else {
                Seq::empty()
            }
        },
    }
}

/// What a version requirement demands of the installed version `found`, in
/// terms of how `found` compares with the version the requirement names:
/// `<=v` is missed exactly when `found` is above `v` (never when it is
/// below or equal), `>=v` exactly when it is below `v`, `=v` whenever it is
/// not equal; a conflict `<=v` applies exactly when `found` is below or
/// equal to `v`, `>=v` when above or equal, `=v` when equal; a requirement
/// on any version is never missed and a conflict with any version always
/// applies.
pub proof fn lemma_requirement_semantics(found: Seq<Seq<char>>, v: Version)
    ensures
        misses(found, VersionRequirement::LessEqual(v)) <==> version_compare(found, v@) == Some(1int),
        misses(found, VersionRequirement::GreaterEqual(v)) <==> version_compare(found, v@) == Some(-1int),
        misses(found, VersionRequirement::Exact(v)) <==> version_compare(found, v@) != Some(0int),
        version_compare(found, v@) == Some(-1int) ==> !misses(found, VersionRequirement::LessEqual(v)),
        version_compare(found, v@) == Some(0int) ==> !misses(found, VersionRequirement::LessEqual(v))
            && !misses(found, VersionRequirement::GreaterEqual(v)) && !misses(found, VersionRequirement::Exact(v)),
        hits(found, VersionRequirement::LessEqual(v)) <==> (version_compare(found, v@) == Some(-1int)
            || version_compare(found, v@) == Some(0int)),
        hits(found, VersionRequirement::GreaterEqual(v)) <==> (version_compare(found, v@) == Some(1int)
            || version_compare(found, v@) == Some(0int)),
        hits(found, VersionRequirement::Exact(v)) <==> version_compare(found, v@) == Some(0int),
        !misses(found, VersionRequirement::Any),
        hits(found, VersionRequirement::Any),
{
    lemma_version_compare_sign(found, v@);
}

/// On numeric versions, a `<=v` dependency on `found` is missed exactly
/// when `found`, read as numbers padded with zeros, is above `v`.
pub proof fn lemma_less_equal_numeric(found: Seq<Seq<char>>, v: Version)
    requires
        well_formed(found),
        well_formed(v@),
    ensures
        misses(found, VersionRequirement::LessEqual(v)) <==> num_order_from(pvals(found), pvals(v@), 0) == 1,
        misses(found, VersionRequirement::GreaterEqual(v)) <==> num_order_from(pvals(found), pvals(v@), 0) == -1,
{
    lemma_version_compare_numbers(found, v@);
    lemma_requirement_semantics(found, v);
}

/// The problems with the first `m` dependencies of plugin `ps[i]`.
pub open spec fn dependency_issues(ps: PluginList, i: int, m: nat) -> Seq<Issue>
    decreases m,
{
    if m == 0 {
        Seq::empty()
    } else {
        dependency_issues(ps, i, (m - 1) as nat) + dependency_issue(
            ps,
            i,
            dependencies_of(ps[i].1)[m - 1],
        )
    }
}

/// The problems with the first `m` conflicts of plugin `ps[i]`.
pub open spec fn conflict_issues(ps: PluginList, i: int, m: nat) -> Seq<Issue>
    decreases m,
{
    if m == 0 {
        Seq::empty()
    } else {
        conflict_issues(ps, i, (m - 1) as nat) + conflict_issue(ps, i, conflicts_of(ps[i].1)[m - 1])
    }
}

/// The problems of the first `n` plugins, plugin by plugin: dependencies,
/// then conflicts.
pub open spec fn issues_upto(ps: PluginList, n: nat) -> Seq<Issue>
    decreases n,
{
    if n == 0 {
        Seq::empty()
    } else {
        let i = n - 1;
        issues_upto(ps, (n - 1) as nat) + dependency_issues(
            ps,
            i,
            dependencies_of(ps[i].1).len(),
        ) + conflict_issues(ps, i, conflicts_of(ps[i].1).len())
    }
}

/// The provider that dependency `d` adds an edge from: the plugin it refers
/// to, whatever version it asks for.
pub open spec fn dependency_edge(ps: PluginList, d: Dependency) -> Option<u64> {
    match resolve(ps, d.name@) {
        Some(q) => Some(ps[q].0.0),
        None => None,
    }
}

/// `g` with the edges of the first `m` dependencies of plugin `ps[i]`.
pub open spec fn with_edges(g: Graph, ps: PluginList, i: int, m: nat) -> Graph
    decreases m,
{
    if m == 0 {
        g
    } else {
        let g1 = with_edges(g, ps, i, (m - 1) as nat);
        match dependency_edge(ps, dependencies_of(ps[i].1)[m - 1]) {
            Some(p) => add_edge(g1, p, ps[i].0.0),
            None => g1,
        }
    }
}

/// The reverse dependency graph of the first `n` plugins: each plugin is
/// listed, and each of its dependencies adds it under the provider.
pub open spec fn graph_upto(ps: PluginList, n: nat) -> Graph
    decreases n,
{
    if n == 0 {
        Seq::empty()
    } else {
        let i = n - 1;
        with_edges(
            ensure_node(graph_upto(ps, (n - 1) as nat), ps[i].0.0),
            ps,
            i,
            dependencies_of(ps[i].1).len(),
        )
    }
}


/// The position of the plugin that `name` refers to.
fn resolve_name(plugins: &Vec<(PluginId, LazyLoadPlugin)>, name: &PluginName) -> (r: Option<usize>)
    ensures
        r matches Some(q) ==> resolve(plugins@, name@) == Some(q as int),
        r is None ==> resolve(plugins@, name@) is None,
{
    let ghost ps = plugins@;
    let mut i: usize = plugins.len();
    assert(ps.take(i as int) =~= ps);
    while i > 0
        invariant
            ps == plugins@,
            0 <= i <= ps.len(),
            resolve(ps, name@) == resolve(ps.take(i as int), name@),
        decreases i,
    {
        let j = i - 1;
        assert(ps.take(i as int).drop_last() =~= ps.take(j as int));
        assert(ps.take(i as int).last() == ps[j as int]);
        let found = match &plugins[j].1 {
            LazyLoadPlugin::ExternalPlugin { name: n, .. } => *n == *name,
            LazyLoadPlugin::BuiltinPlugin { name: n, .. } => *n == *name,
            LazyLoadPlugin::InvalidPlugin { .. } => false,
        };
        if found {
            return Some(j);
        }
        i = j;
    }
    None
}

/// The version of a valid plugin.
fn version_of(lz: &LazyLoadPlugin) -> (r: Option<&Version>)
    ensures
        r is Some <==> resolvable_name(*lz) is Some,
        r matches Some(v) ==> v@ == plugin_version(*lz),
{
    match lz {
        LazyLoadPlugin::ExternalPlugin { version, .. } => Some(version),
        LazyLoadPlugin::BuiltinPlugin { version, .. } => Some(version),
        LazyLoadPlugin::InvalidPlugin { .. } => None,
    }
}

/// Whether a dependency on `found` under `req` is not met.
fn requirement_missed(found: &Version, req: &VersionRequirement) -> (r: bool)
    requires
        checkable(found@, *req),
    ensures
        r == misses(found@, *req),
{
    match req {
        VersionRequirement::Exact(v) => match found.compare(v) {
            Some(c) => c != 0,
            None => true,
        },
        VersionRequirement::LessEqual(v) => match found.compare(v) {
            Some(c) => c > 0,
            None => false,
        },
        VersionRequirement::GreaterEqual(v) => match found.compare(v) {
            Some(c) => c < 0,
            None => false,
        },
        VersionRequirement::Caret(v) => !found.matches_caret(v),
        VersionRequirement::Tilde(v) => !found.matches_tilde(v),
        VersionRequirement::Any => false,
    }
}

/// Whether a conflict with `found` under `req` applies.
fn conflict_applies(found: &Version, req: &VersionRequirement) -> (r: bool)
    requires
        checkable(found@, *req),
    ensures
        r == hits(found@, *req),
{
    match req {
        VersionRequirement::Exact(v) => match found.compare(v) {
            Some(c) => c == 0,
            None => false,
        },
        VersionRequirement::LessEqual(v) => match found.compare(v) {
            Some(c) => c <= 0,
            None => false,
        },
        VersionRequirement::GreaterEqual(v) => match found.compare(v) {
            Some(c) => c >= 0,
            None => false,
        },
        VersionRequirement::Caret(v) => found.matches_caret(v),
        VersionRequirement::Tilde(v) => found.matches_tilde(v),
        VersionRequirement::Any => true,
    }
}

/// The text of `conflict_reason`.
fn conflict_reason_text(
    name: &PluginName,
    target: &PluginName,
    req: &VersionRequirement,
    found: &Version,
) -> (r: String)
    ensures
        r@ == conflict_reason(name@, target@, *req, found@),
{
    let f = found.to_string();
    match req {
        VersionRequirement::Exact(v) => {
            let mut s = "Conflict: '".to_owned();
            s.append(name.as_str());
            s.append("' cannot coexist with '");
            s.append(target.as_str());
            s.append("' at version ");
            s.append(v.to_string().as_str());
            s.append(", but ");
            s.append(f.as_str());
            s.append(" is installed");
            s
        },
        VersionRequirement::LessEqual(v) => {
            let mut s = "Conflict: '".to_owned();
            s.append(name.as_str());
            s.append("' is incompatible with '");
            s.append(target.as_str());
            s.append("' <= ");
            s.append(v.to_string().as_str());
            s.append(" (found ");
            s.append(f.as_str());
            s.append(" in forbidden range)");
            s
        },
        VersionRequirement::GreaterEqual(v) => {
            let mut s = "Conflict: '".to_owned();
            s.append(name.as_str());
            s.append("' is incompatible with '");
            s.append(target.as_str());
            s.append("' >= ");
            s.append(v.to_string().as_str());
            s.append(" (found ");
            s.append(f.as_str());
            s.append(" in forbidden range)");
            s
        },
        VersionRequirement::Caret(v) => {
            let mut s = "Conflict: '".to_owned();
            s.append(name.as_str());
            s.append("' has a Caret conflict with '");
            s.append(target.as_str());
            s.append("' ^");
            s.append(v.to_string().as_str());
            s.append(" (found incompatible ");
            s.append(f.as_str());
            s.append(")");
            s
        },
        VersionRequirement::Tilde(v) => {
            let mut s = "Conflict: '".to_owned();
            s.append(name.as_str());
            s.append("' has a Tilde conflict with '");
            s.append(target.as_str());
            s.append("' ~");
            s.append(v.to_string().as_str());
            s.append(" (found incompatible ");
            s.append(f.as_str());
            s.append(")");
            s
        },
        VersionRequirement::Any => {
            let mut s = "Plugin ".to_owned();
            s.append(name.as_str());
            s.append(" conflicts with plugin ");
            s.append(target.as_str());
            s.append(".");
            s
        },
    }
}


/// The problems that a list of errors reports.
pub open spec fn issues_of(errors: Seq<PluginDependencyError>) -> Seq<Issue> {
    errors.map_values(|e: PluginDependencyError| issue_of(e))
}

proof fn lemma_issues_push(errors: Seq<PluginDependencyError>, e: PluginDependencyError)
    ensures
        issues_of(errors.push(e)) == issues_of(errors) + seq![issue_of(e)],
{
    assert(issues_of(errors.push(e)) =~= issues_of(errors) + seq![issue_of(e)]);
}

/// Checks the dependencies `deps` of plugin `plugins[i]` (`id`, named
/// `name`): records the problems, and the edges into the graph.
fn check_dependencies(
    plugins: &Vec<(PluginId, LazyLoadPlugin)>,
    i: usize,
    id: PluginId,
    name: &PluginName,
    deps: &Vec<Dependency>,
    rd: &mut ReverseDeps,
    errors: &mut Vec<PluginDependencyError>,
)
    requires
        i < plugins@.len(),
        plugins@[i as int].0 == id,
        external_name(plugins@[i as int].1) == name@,
        dependencies_of(plugins@[i as int].1) == deps@,
        all_checkable(plugins@),
        old(rd).well_formed(),
    ensures
        final(rd).well_formed(),
        final(rd)@ == with_edges(old(rd)@, plugins@, i as int, deps@.len()),
        issues_of(final(errors)@) == issues_of(old(errors)@) + dependency_issues(
            plugins@,
            i as int,
            deps@.len(),
        ),
{
    let ghost ps = plugins@;
    let ghost g0 = rd@;
    let ghost e0 = issues_of(errors@);
    let mut j: usize = 0;
    while j < deps.len()
        invariant
            ps == plugins@,
            i < ps.len(),
            ps[i as int].0 == id,
            external_name(ps[i as int].1) == name@,
            dependencies_of(ps[i as int].1) == deps@,
            all_checkable(ps),
            0 <= j <= deps@.len(),
            rd.well_formed(),
            rd@ == with_edges(g0, ps, i as int, j as nat),
            issues_of(errors@) == e0 + dependency_issues(ps, i as int, j as nat),
        decreases deps.len() - j,
    {
        let dep = &deps[j];
        assert(dependencies_of(ps[i as int].1)[j as int] == *dep);
        assert(requirement_checkable(ps, *dep));
        proof {
            lemma_resolve(ps, dep.name@);
        }
        let ghost before = errors@;
        match resolve_name(plugins, &dep.name) {
            None => {
                let e = PluginDependencyError {
                    id,
                    error: PluginDependencyErrorInner::Missing {
                        name: name.clone(),
                        requirement: dep.name.to_string(),
                    },
                };
                errors.push(e);
                proof {
                    lemma_issues_push(before, e);
                }
            },
            Some(q) => {
                assert(resolve(ps, dep.name@) == Some(q as int));
                if let Some(found) = version_of(&plugins[q].1) {
                    assert(found@ == plugin_version(ps[q as int].1));
                    match &dep.requirement {
                        VersionRequirement::Any => {},
                        req => {
                            if requirement_missed(found, req) {
                                let e = PluginDependencyError {
                                    id,
                                    error: PluginDependencyErrorInner::Missing {
                                        name: name.clone(),
                                        requirement: dep.to_string(),
                                    },
                                };
                                errors.push(e);
                                proof {
                                    lemma_issues_push(before, e);
                                }
                            }
                        },
                    }
                    rd.add_dependent(plugins[q].0, id);
                }
            },
        }
        proof {
            assert(issues_of(errors@) =~= e0 + dependency_issues(ps, i as int, (j + 1) as nat));
        }
        j = j + 1;
    }
}

/// Checks the conflicts `conflicts` of plugin `plugins[i]` (`id`, named
/// `name`) and records the ones that apply.
fn check_conflicts(
    plugins: &Vec<(PluginId, LazyLoadPlugin)>,
    i: usize,
    id: PluginId,
    name: &PluginName,
    conflicts: &Vec<Dependency>,
    errors: &mut Vec<PluginDependencyError>,
)
    requires
        i < plugins@.len(),
        plugins@[i as int].0 == id,
        external_name(plugins@[i as int].1) == name@,
        conflicts_of(plugins@[i as int].1) == conflicts@,
        all_checkable(plugins@),
    ensures
        issues_of(final(errors)@) == issues_of(old(errors)@) + conflict_issues(
            plugins@,
            i as int,
            conflicts@.len(),
        ),
{
    let ghost ps = plugins@;
    let ghost e0 = issues_of(errors@);
    let mut j: usize = 0;
    while j < conflicts.len()
        invariant
            ps == plugins@,
            i < ps.len(),
            ps[i as int].0 == id,
            external_name(ps[i as int].1) == name@,
            conflicts_of(ps[i as int].1) == conflicts@,
            all_checkable(ps),
            0 <= j <= conflicts@.len(),
            issues_of(errors@) == e0 + conflict_issues(ps, i as int, j as nat),
        decreases conflicts.len() - j,
    {
        let c = &conflicts[j];
        assert(conflicts_of(ps[i as int].1)[j as int] == *c);
        assert(requirement_checkable(ps, *c));
        proof {
            lemma_resolve(ps, c.name@);
        }
        let ghost before = errors@;
        match resolve_name(plugins, &c.name) {
            None => {},
            Some(q) => {
                assert(resolve(ps, c.name@) == Some(q as int));
                if let Some(found) = version_of(&plugins[q].1) {
                    assert(found@ == plugin_version(ps[q as int].1));
                    if conflict_applies(found, &c.requirement) {
                        let reason = conflict_reason_text(name, &c.name, &c.requirement, found);
                        let e = PluginDependencyError {
                            id,
                            error: PluginDependencyErrorInner::Conflict {
                                name: name.clone(),
                                conflicting_with: c.to_string(),
                                reason,
                            },
                        };
                        errors.push(e);
                        proof {
                            lemma_issues_push(before, e);
                        }
                    }
                }
            },
        }
        proof {
            assert(issues_of(errors@) =~= e0 + conflict_issues(ps, i as int, (j + 1) as nat));
        }
        j = j + 1;
    }
}

/// Dependency `d` is not met: it names no plugin, or one in a version that
/// it does not accept.
pub open spec fn dependency_fails(ps: PluginList, d: Dependency) -> bool {
    match resolve(ps, d.name@) {
        None => true,
        Some(q) => misses(plugin_version(ps[q].1), d.requirement),
    }
}

/// Conflict `c` applies: it names a plugin in a version it rules out.
pub open spec fn conflict_holds(ps: PluginList, c: Dependency) -> bool {
    resolve(ps, c.name@) matches Some(q) && hits(plugin_version(ps[q].1), c.requirement)
}

/// Plugin `ps[i]` has a dependency that is not met or a conflict that
/// applies.
pub open spec fn has_problem(ps: PluginList, i: int) -> bool {
    ||| exists|j: int| 0 <= j < dependencies_of(ps[i].1).len() && dependency_fails(ps, #[trigger] dependencies_of(ps[i].1)[j])
    ||| exists|j: int| 0 <= j < conflicts_of(ps[i].1).len() && conflict_holds(ps, #[trigger] conflicts_of(ps[i].1)[j])
}

/// The plugin a problem is reported for.
pub open spec fn issue_id(x: Issue) -> u64 {
    match x {
        Issue::Circular { id, .. } => id,
        Issue::Missing { id, .. } => id,
        Issue::Conflict { id, .. } => id,
    }
}

proof fn lemma_dependency_issues(ps: PluginList, i: int, m: nat)
    requires
        m <= dependencies_of(ps[i].1).len(),
    ensures
        dependency_issues(ps, i, m).len() == 0 <==> forall|j: int| 0 <= j < m ==> !dependency_fails(ps, #[trigger] dependencies_of(ps[i].1)[j]),
        forall|k: int| 0 <= k < dependency_issues(ps, i, m).len() ==> issue_id(#[trigger] dependency_issues(ps, i, m)[k]) == ps[i].0.0,
    decreases m,
{
    if m > 0 {
        lemma_dependency_issues(ps, i, (m - 1) as nat);
        let before = dependency_issues(ps, i, (m - 1) as nat);
        let here = dependency_issue(ps, i, dependencies_of(ps[i].1)[m - 1]);
        assert forall|k: int| 0 <= k < (before + here).len() implies issue_id(#[trigger] (before + here)[k]) == ps[i].0.0 by {
            if k >= before.len() {
                assert((before + here)[k] == here[k - before.len()]);
            }
        }
    }
}

proof fn lemma_conflict_issues(ps: PluginList, i: int, m: nat)
    requires
        m <= conflicts_of(ps[i].1).len(),
    ensures
        conflict_issues(ps, i, m).len() == 0 <==> forall|j: int| 0 <= j < m ==> !conflict_holds(ps, #[trigger] conflicts_of(ps[i].1)[j]),
        forall|k: int| 0 <= k < conflict_issues(ps, i, m).len() ==> issue_id(#[trigger] conflict_issues(ps, i, m)[k]) == ps[i].0.0,
    decreases m,
{
    if m > 0 {
        lemma_conflict_issues(ps, i, (m - 1) as nat);
        let before = conflict_issues(ps, i, (m - 1) as nat);
        let here = conflict_issue(ps, i, conflicts_of(ps[i].1)[m - 1]);
        assert forall|k: int| 0 <= k < (before + here).len() implies issue_id(#[trigger] (before + here)[k]) == ps[i].0.0 by {
            if k >= before.len() {
                assert((before + here)[k] == here[k - before.len()]);
            }
        }
    }
}

proof fn lemma_issues_upto(ps: PluginList, n: nat)
    requires
        n <= ps.len(),
    ensures
        issues_upto(ps, n).len() == 0 <==> forall|i: int| 0 <= i < n ==> !#[trigger] has_problem(ps, i),
        forall|k: int| 0 <= k < issues_upto(ps, n).len() ==> exists|i: int| 0 <= i < n && ps[i].0.0 == issue_id(#[trigger] issues_upto(ps, n)[k]) && has_problem(ps, i),
    decreases n,
{
    if n > 0 {
        let i = n - 1;
        lemma_issues_upto(ps, (n - 1) as nat);
        lemma_dependency_issues(ps, i, dependencies_of(ps[i].1).len());
        lemma_conflict_issues(ps, i, conflicts_of(ps[i].1).len());
        let a = issues_upto(ps, (n - 1) as nat);
        let b = dependency_issues(ps, i, dependencies_of(ps[i].1).len());
        let c = conflict_issues(ps, i, conflicts_of(ps[i].1).len());
        assert(issues_upto(ps, n) == a + b + c);
        assert(has_problem(ps, i) <==> (b.len() > 0 || c.len() > 0));
        assert forall|k: int| 0 <= k < (a + b + c).len() implies exists|x: int| 0 <= x < n && ps[x].0.0 == issue_id(#[trigger] (a + b + c)[k]) && has_problem(ps, x) by {
            if k < a.len() {
                assert((a + b + c)[k] == a[k]);
            } else if k < a.len() + b.len() {
                assert((a + b + c)[k] == b[k - a.len()]);
                assert(b.len() > 0);
            } else {
                assert((a + b + c)[k] == c[k - a.len() - b.len()]);
                assert(c.len() > 0);
            }
        }
    }
}

/// The dependency check fails exactly when some plugin has a dependency
/// that names no plugin or one in a version it does not accept, or a
/// conflict that names a plugin in a version it rules out; each error is
/// reported for such a plugin.
pub proof fn lemma_check_fails_exactly_on_problems(ps: PluginList)
    ensures
        issues_upto(ps, ps.len()).len() > 0 <==> exists|i: int| 0 <= i < ps.len() && #[trigger] has_problem(ps, i),
        forall|k: int| 0 <= k < issues_upto(ps, ps.len()).len() ==> exists|i: int| 0 <= i < ps.len() && ps[i].0.0 == issue_id(#[trigger] issues_upto(ps, ps.len())[k]) && has_problem(ps, i),
{
    lemma_issues_upto(ps, ps.len());
}

/// `g` lists `c` among the dependents of `p`.
pub open spec fn has_edge(g: Graph, p: u64, c: u64) -> bool {
    exists|e: int| 0 <= e < g.len() && g[e].0 == p && #[trigger] g[e].1.contains(c)
}

proof fn lemma_edge_kept_by_ensure(g: Graph, x: u64, p: u64, c: u64)
    requires
        has_edge(g, p, c),
    ensures
        has_edge(ensure_node(g, x), p, c),
{
    let e = choose|e: int| 0 <= e < g.len() && g[e].0 == p && #[trigger] g[e].1.contains(c);
    assert(ensure_node(g, x)[e] == g[e]);
}

proof fn lemma_edge_kept_by_add(g: Graph, a: u64, b: u64, p: u64, c: u64)
    requires
        has_edge(g, p, c),
    ensures
        has_edge(add_edge(g, a, b), p, c),
{
    let e = choose|e: int| 0 <= e < g.len() && g[e].0 == p && #[trigger] g[e].1.contains(c);
    let h = add_edge(g, a, b);
    if has_key(g, a) {
        let i = key_index(g, a);
        if e == i {
            let k = choose|k: int| 0 <= k < g[e].1.len() && g[e].1[k] == c;
            assert(h[e].1[k] == c);
            assert(h[e].0 == p && h[e].1.contains(c));
        } else {
            assert(h[e] == g[e]);
            assert(h[e].1.contains(c));
        }
    } else {
        assert(h[e] == g[e]);
        assert(h[e].1.contains(c));
    }
}

proof fn lemma_add_edge_has(g: Graph, a: u64, b: u64)
    ensures
        has_edge(add_edge(g, a, b), a, b),
{
    let h = add_edge(g, a, b);
    if has_key(g, a) {
        let i = key_index(g, a);
        assert(h[i].1[g[i].1.len() as int] == b);
        assert(h[i].0 == a && h[i].1.contains(b));
    } else {
        assert(h[g.len() as int].1[0] == b);
        assert(h[g.len() as int].0 == a && h[g.len() as int].1.contains(b));
    }
}

proof fn lemma_with_edges_has(g: Graph, ps: PluginList, i: int, m: nat)
    requires
        0 <= i < ps.len(),
        m <= dependencies_of(ps[i].1).len(),
    ensures
        forall|p: u64, c: u64| has_edge(g, p, c) ==> #[trigger] has_edge(with_edges(g, ps, i, m), p, c),
        forall|j: int|
            0 <= j < m && (#[trigger] dependency_edge(ps, dependencies_of(ps[i].1)[j])) is Some
                ==> has_edge(
                with_edges(g, ps, i, m),
                dependency_edge(ps, dependencies_of(ps[i].1)[j])->0,
                ps[i].0.0,
            ),
    decreases m,
{
    if m > 0 {
        lemma_with_edges_has(g, ps, i, (m - 1) as nat);
        let g1 = with_edges(g, ps, i, (m - 1) as nat);
        match dependency_edge(ps, dependencies_of(ps[i].1)[m - 1]) {
            Some(q) => {
                assert forall|p: u64, c: u64| has_edge(g1, p, c) implies #[trigger] has_edge(
                    add_edge(g1, q, ps[i].0.0),
                    p,
                    c,
                ) by {
                    lemma_edge_kept_by_add(g1, q, ps[i].0.0, p, c);
                }
                lemma_add_edge_has(g1, q, ps[i].0.0);
            },
            None => {},
        }
    }
}

proof fn lemma_graph_upto_edges(ps: PluginList, n: nat)
    requires
        n <= ps.len(),
    ensures
        forall|i: int, j: int|
            0 <= i < n && 0 <= j < dependencies_of(ps[i].1).len() && (#[trigger] dependency_edge(
                ps,
                dependencies_of(ps[i].1)[j],
            )) is Some ==> has_edge(
                graph_upto(ps, n),
                dependency_edge(ps, dependencies_of(ps[i].1)[j])->0,
                ps[i].0.0,
            ),
    decreases n,
{
    if n > 0 {
        let k = n - 1;
        lemma_graph_upto_edges(ps, (n - 1) as nat);
        let g0 = graph_upto(ps, (n - 1) as nat);
        let g1 = ensure_node(g0, ps[k].0.0);
        lemma_with_edges_has(g1, ps, k, dependencies_of(ps[k].1).len());
        assert forall|i: int, j: int|
            0 <= i < n && 0 <= j < dependencies_of(ps[i].1).len() && (#[trigger] dependency_edge(
                ps,
                dependencies_of(ps[i].1)[j],
            )) is Some implies has_edge(graph_upto(ps, n), dependency_edge(ps, dependencies_of(ps[i].1)[j])->0, ps[i].0.0) by {
            let p = dependency_edge(ps, dependencies_of(ps[i].1)[j])->0;
            if i < k {
                lemma_edge_kept_by_ensure(g0, ps[k].0.0, p, ps[i].0.0);
            }
        }
    }
}

/// Every plugin that depends on another is listed among that plugin's
/// dependents: when dependency `j` of plugin `ps[i]` names plugin
/// `ps[q]`, the reverse dependency graph lists `ps[i]` under `ps[q]`
/// (whatever version the dependency asks for).
pub proof fn lemma_dependents_listed(ps: PluginList, i: int, j: int)
    requires
        0 <= i < ps.len(),
        0 <= j < dependencies_of(ps[i].1).len(),
        resolve(ps, dependencies_of(ps[i].1)[j].name@) is Some,
    ensures
        has_edge(
            graph_upto(ps, ps.len()),
            ps[resolve(ps, dependencies_of(ps[i].1)[j].name@)->0].0.0,
            ps[i].0.0,
        ),
{
    lemma_graph_upto_edges(ps, ps.len());
    assert(dependency_edge(ps, dependencies_of(ps[i].1)[j]) is Some);
}

impl PluginLoader {
    /// Checks the dependencies and conflicts of all `plugins` and builds their
    /// reverse dependency graph (provider to dependents). A dependency on a
    /// plugin that is not there, or not in an accepted version, is a
    /// `Missing` error; a conflict that applies is a `Conflict` error. Every
    /// dependency that names a plugin adds an edge from it.
    pub fn finalize_dependency_all(&self, plugins: &Vec<(PluginId, LazyLoadPlugin)>) -> (r: (
        ReverseDeps,
        Result<(), Vec<PluginDependencyError>>,
    ))
        requires
            all_checkable(plugins@),
        ensures
            r.0.well_formed(),
            r.0@ == graph_upto(plugins@, plugins@.len()),
            match r.1 {
                Ok(()) => issues_upto(plugins@, plugins@.len()).len() == 0,
                Err(errors) => errors@.len() > 0 && issues_of(errors@) == issues_upto(
                    plugins@,
                    plugins@.len(),
                ),
            },
    {
        let ghost ps = plugins@;
        let mut rd = ReverseDeps::new();
        let mut errors: Vec<PluginDependencyError> = Vec::new();
        assert(issues_of(errors@) =~= Seq::<Issue>::empty());
        let mut i: usize = 0;
        while i < plugins.len()
            invariant
                ps == plugins@,
                all_checkable(ps),
                0 <= i <= ps.len(),
                rd.well_formed(),
                rd@ == graph_upto(ps, i as nat),
                issues_of(errors@) == issues_upto(ps, i as nat),
            decreases ps.len() - i,
        {
            let id = plugins[i].0;
            rd.insert_node(id);
            match &plugins[i].1 {
                LazyLoadPlugin::ExternalPlugin { name, dependencies, conflicts, .. } => {
                    match dependencies {
                        Some(d) => check_dependencies(plugins, i, id, name, d, &mut rd, &mut errors),
                        None => {},
                    }
                    match conflicts {
                        Some(c) => check_conflicts(plugins, i, id, name, c, &mut errors),
                        None => {},
                    }
                },
                _ => {},
            }
            proof {
                assert(issues_of(errors@) =~= issues_upto(ps, (i + 1) as nat));
            }
            i = i + 1;
        }
        if errors.len() > 0 {
            (rd, Err(errors))
        } else {
            (rd, Ok(()))
        }
    }
}


proof fn lemma_with_edges_keeps_keys(g: Graph, ps: PluginList, i: int, m: nat, y: u64)
    requires
        has_key(g, y),
    ensures
        has_key(with_edges(g, ps, i, m), y),
    decreases m,
{
    if m > 0 {
        lemma_with_edges_keeps_keys(g, ps, i, (m - 1) as nat, y);
        let g1 = with_edges(g, ps, i, (m - 1) as nat);
        if let Some(p) = dependency_edge(ps, dependencies_of(ps[i].1)[m - 1]) {
            let k = choose|k: int| 0 <= k < g1.len() && g1[k].0 == y;
            let h = add_edge(g1, p, ps[i].0.0);
            assert(h[k].0 == y);
        }
    }
}

/// Every checked plugin is listed in the reverse dependency graph, so the
/// load order takes all of them into account.
pub proof fn lemma_graph_lists_every_plugin(ps: PluginList, n: nat, i: int)
    requires
        n <= ps.len(),
        0 <= i < n,
    ensures
        has_key(graph_upto(ps, n), ps[i].0.0),
    decreases n,
{
    let j = n - 1;
    let g0 = graph_upto(ps, (n - 1) as nat);
    let x = ps[i].0.0;
    let g1 = ensure_node(g0, ps[j].0.0);
    if i < j {
        lemma_graph_lists_every_plugin(ps, (n - 1) as nat, i);
        let k = choose|k: int| 0 <= k < g0.len() && g0[k].0 == x;
        assert(g1[k].0 == x);
    } else {
        if !has_key(g0, x) {
            assert(g1[g0.len() as int].0 == x);
        }
    }
    lemma_with_edges_keeps_keys(g1, ps, j, dependencies_of(ps[j].1).len(), x);
}


impl PluginLoader {
    /// The load order of the plugins to enable: their dependencies are
    /// checked, and the graph is ordered into batches expecting one plugin
    /// for each plugin without a problem (so any problem found by the check
    /// makes the ordering fail).
    pub fn enabled_plugins_load_order(&self, plugins: &Vec<(PluginId, LazyLoadPlugin)>) -> (r:
        Result<Vec<Vec<PluginId>>, Vec<PluginDependencyError>>)
        requires
            all_checkable(plugins@),
            issues_upto(plugins@, plugins@.len()).len() <= plugins@.len(),
            edge_count(graph_upto(plugins@, plugins@.len())) <= usize::MAX,
        ensures
            ({
                let g = graph_upto(plugins@, plugins@.len());
                let total = plugins@.len() - issues_upto(plugins@, plugins@.len()).len();
                match r {
                    Ok(batches) => {
                        &&& settles_at(g, batches.len() as nat)
                        &&& forall|j: int| 0 <= j < batches.len() ==> batch_is_layer(g, #[trigger] batches@[j]@, j as nat)
                        &&& total == done_before(g, batches.len() as nat).len()
                    },
                    Err(errors) => exists|m: nat| {
                        &&& settles_at(g, m)
                        &&& total != done_before(g, m).len()
                        &&& error_ids(errors@).no_duplicates()
                        &&& error_ids(errors@).to_set() == graph_nodes(g).difference(done_before(g, m))
                        &&& forall|i: int| 0 <= i < errors.len() ==> is_circular(#[trigger] errors@[i])
                    },
                }
            }),
    {
        let (reverse_deps, checked) = self.finalize_dependency_all(plugins);
        let mut total_nodes = plugins.len();
        match checked {
            Err(errors) => {
                total_nodes = total_nodes - errors.len();
            },
            Ok(()) => {},
        }
        PluginLoader::dependencies_analyzer(reverse_deps, total_nodes)
    }
}

} // verus!
