//! Module boundaries over project facts: forbidden dependency directions
//! between the modules of a complete, explicitly configured inventory.

use vstd::prelude::*;
use crate::json::{as_str, member, Json};
use crate::provenance::File;
use crate::rules::{diagnostic_spec, diagnostics_view, file_at, Diagnostic, DiagnosticView, Evidence, EvidenceView, RuleError};
use crate::file_patterns::{last_index, spec_globs_match, spec_globs_valid, string_list};
use crate::maven_usage::{fact_view, facts_view, DependencyFact, FactView, ProjectFacts};
use crate::reports::lcov::text_less;
use crate::reports::sarif_locations::string_views;

verus! {

/// A forbidden direction as plain values: the glob of the depending module,
/// the glob of the dependency (`group:artifact`) and the scopes it covers
/// (every scope when empty).
pub type DirectionView = (Seq<char>, Seq<char>, Seq<Seq<char>>);

/// A forbidden direction of the `forbidden` parameter.
pub open spec fn direction_of(j: Json) -> Option<DirectionView> {
    match (as_str(crate::json::index(j, "from"@)), as_str(crate::json::index(j, "to"@))) {
        (Some(from), Some(to)) => if !(j is Object) {
            None
        } else {
            match member(j, "scopes"@) {
                None => Some((from, to, seq![])),
                Some(v) => match string_list(v) {
                    Some(l) => Some((from, to, l)),
                    None => None,
                },
            }
        },
        _ => None,
    }
}

/// The module-boundary policy: module roots, forbidden directions, and whether
/// the resolved (rather than the declared) dependencies are checked.
pub open spec fn policy_of(parameters: Json) -> Result<(Seq<Seq<char>>, Seq<DirectionView>, bool), RuleError> {
    match member(parameters, "modules"@) {
        None => Err(RuleError::MissingParameter),
        Some(m) => match string_list(m) {
            None => Err(RuleError::InvalidParameter),
            Some(modules) => match member(parameters, "forbidden"@) {
                None => Err(RuleError::MissingParameter),
                Some(Json::Array(items)) => if exists|i: int| 0 <= i < items@.len() && (#[trigger] direction_of(items@[i])) is None {
                    Err(RuleError::InvalidParameter)
                } else {
                    let dirs = items@.map_values(|j: Json| direction_of(j)->0);
                    match member(parameters, "dependency_kind"@) {
                        None => Ok((modules, dirs, false)),
                        Some(k) => if as_str(k) == Some("declared"@) {
                            Ok((modules, dirs, false))
                        } else if as_str(k) == Some("resolved"@) {
                            Ok((modules, dirs, true))
                        } else {
                            Err(RuleError::InvalidParameter)
                        },
                    }
                },
                Some(_) => Err(RuleError::InvalidParameter),
            },
        },
    }
}

/// Every glob of the directions builds.
pub open spec fn directions_valid(dirs: Seq<DirectionView>) -> bool {
    forall|j: int| 0 <= j < dirs.len() ==> spec_globs_valid(seq![(#[trigger] dirs[j]).0]) && spec_globs_valid(seq![dirs[j].1])
}

/// How many of `projects` have the module root `root`.
pub open spec fn root_count(projects: Seq<ProjectFacts>, root: Seq<char>) -> nat
    decreases projects.len(),
{
    if projects.len() == 0 {
        0
    } else {
        root_count(projects.drop_first(), root) + if projects[0].root@ == root { 1nat } else { 0nat }
    }
}

/// The first of `projects` with the module root `root`.
pub open spec fn project_at(projects: Seq<ProjectFacts>, root: Seq<char>) -> ProjectFacts
    decreases projects.len(),
{
    if projects.len() <= 1 || projects[0].root@ == root {
        projects[0]
    } else {
        project_at(projects.drop_first(), root)
    }
}

/// The module identity of a coordinate: the text before its last `:`.
pub open spec fn module_identity(coordinate: Seq<char>) -> Option<Seq<char>> {
    match last_index(coordinate, ':') {
        Some(k) => Some(coordinate.take(k)),
        None => None,
    }
}

/// The configured modules `roots` with their identities and facts, after `acc`.
pub open spec fn module_inventory(
    roots: Seq<Seq<char>>,
    projects: Seq<ProjectFacts>,
    files: Seq<(String, File)>,
    digest: Seq<char>,
    acc: Seq<(Seq<char>, ProjectFacts)>,
) -> Result<Seq<(Seq<char>, ProjectFacts)>, RuleError>
    decreases roots.len(),
{
    if roots.len() == 0 {
        Ok(acc)
    } else if root_count(projects, roots[0]) != 1 {
        Err(RuleError::ModuleFactsUnavailable)
    } else {
        let p = project_at(projects, roots[0]);
        if p.schema_version != 1 || p.ecosystem@ != "maven"@ || p.snapshot_digest@ != digest {
            Err(RuleError::ForeignProjectFacts)
        } else if file_at(files, p.manifest@) is None {
            Err(RuleError::ManifestAbsent)
        } else {
            match module_identity(p.coordinate@) {
                None => Err(RuleError::MalformedCoordinate),
                Some(id) => if exists|i: int| 0 <= i < acc.len() && (#[trigger] acc[i]).0 == id {
                    Err(RuleError::DuplicateModule)
                } else {
                    module_inventory(roots.drop_first(), projects, files, digest, acc.push((id, p)))
                },
            }
        }
    }
}

/// How many distinct dependencies `s` holds.
pub open spec fn distinct_count(s: Seq<FactView>) -> nat
    decreases s.len(),
{
    if s.len() == 0 {
        0
    } else {
        distinct_count(s.drop_last()) + if s.drop_last().contains(s.last()) { 0nat } else { 1nat }
    }
}

/// A module relationship: dependency `group:artifact`, type, classifier, scope.
pub type EdgeKey = (Seq<char>, Seq<char>, Seq<char>, Seq<char>);

/// The relationship of a dependency.
pub open spec fn edge_key(f: FactView) -> EdgeKey {
    (f.0 + ":"@ + f.1, f.2, f.3, f.5)
}

/// Relationships ordered field by field.
pub open spec fn key_less(a: EdgeKey, b: EdgeKey) -> bool {
    if a.0 != b.0 {
        text_less(a.0, b.0)
    } else if a.1 != b.1 {
        text_less(a.1, b.1)
    } else if a.2 != b.2 {
        text_less(a.2, b.2)
    } else {
        text_less(a.3, b.3)
    }
}

/// `k` added to the ascending list `s`, before the first item not below it.
pub open spec fn insert_sorted(s: Seq<EdgeKey>, k: EdgeKey) -> Seq<EdgeKey>
    decreases s.len(),
{
    if s.len() == 0 {
        seq![k]
    } else if key_less(s[0], k) {
        seq![s[0]] + insert_sorted(s.drop_first(), k)
    } else {
        seq![k] + s
    }
}

/// Direction `d` forbids relationship `k` of module `from`.
pub open spec fn direction_matches(d: DirectionView, from: Seq<char>, k: EdgeKey) -> bool {
    &&& spec_globs_match(seq![d.0], from)
    &&& spec_globs_match(seq![d.1], k.0)
    &&& (d.2.len() == 0 || d.2.contains(k.3))
}

/// The indices, from `j` on and ascending, of the directions that forbid `k`.
pub open spec fn matching(dirs: Seq<DirectionView>, from: Seq<char>, k: EdgeKey, j: nat) -> Seq<u64>
    decreases dirs.len() - j,
{
    if j >= dirs.len() {
        seq![]
    } else {
        (if direction_matches(dirs[j as int], from, k) { seq![j as u64] } else { seq![] }) + matching(dirs, from, k, j + 1)
    }
}

/// The forbidden relationships of module `from` among the dependencies `deps`,
/// added to the ascending list `acc` each once.
pub open spec fn forbidden_edges(deps: Seq<FactView>, dirs: Seq<DirectionView>, from: Seq<char>, acc: Seq<EdgeKey>) -> Seq<EdgeKey>
    decreases deps.len(),
{
    if deps.len() == 0 {
        acc
    } else {
        let k = edge_key(deps[0]);
        let next = if matching(dirs, from, k, 0).len() > 0 && !acc.contains(k) {
            insert_sorted(acc, k)
        } else {
            acc
        };
        forbidden_edges(deps.drop_first(), dirs, from, next)
    }
}

/// The diagnostic of relationship `k` of module `from` with facts `p`.
pub open spec fn boundary_diagnostic(
    rule: Seq<char>,
    p: ProjectFacts,
    from: Seq<char>,
    k: EdgeKey,
    resolved: bool,
    directions: Seq<u64>,
) -> DiagnosticView {
    diagnostic_spec(
        rule,
        Some(p.manifest@),
        None,
        "Forbidden module dependency: "@ + from + " -> "@ + k.0 + " ("@ + k.3 + ")"@,
        seq![
            ("classifier"@, EvidenceView::Text(k.2)),
            ("dependency_kind"@, EvidenceView::Text(if resolved { "resolved"@ } else { "declared"@ })),
            ("from"@, EvidenceView::Text(from)),
            ("matching_directions"@, EvidenceView::Indices(directions)),
            ("producer"@, EvidenceView::Text(p.producer_check@)),
            ("scope"@, EvidenceView::Text(k.3)),
            ("snapshot_digest"@, EvidenceView::Text(p.snapshot_digest@)),
            ("to"@, EvidenceView::Text(k.0)),
            ("type"@, EvidenceView::Text(k.1)),
        ],
        "Move the dependency or shared interface to the permitted module, repair affected callers, then rebuild and recheck"@,
        from + ":"@ + k.0 + ":"@ + k.1 + ":"@ + k.2 + ":"@ + k.3,
    )
}

/// The diagnostics of the relationships `ks` of module `from`.
pub open spec fn edge_diagnostics(
    rule: Seq<char>,
    p: ProjectFacts,
    from: Seq<char>,
    dirs: Seq<DirectionView>,
    resolved: bool,
    ks: Seq<EdgeKey>,
) -> Seq<DiagnosticView> {
    ks.map_values(|k: EdgeKey| boundary_diagnostic(rule, p, from, k, resolved, matching(dirs, from, k, 0)))
}

/// The dependencies a module is checked by.
pub open spec fn checked_dependencies(p: ProjectFacts, resolved: bool) -> Seq<FactView> {
    if resolved {
        facts_view(p.resolved@)
    } else {
        facts_view(p.declared@)
    }
}

/// The modules `ms` checked after `matched` dependencies and the diagnostics `ds`.
pub open spec fn modules_scan(
    rule: Seq<char>,
    dirs: Seq<DirectionView>,
    resolved: bool,
    ms: Seq<(Seq<char>, ProjectFacts)>,
    matched: nat,
    ds: Seq<DiagnosticView>,
) -> Result<(nat, Seq<DiagnosticView>), RuleError>
    decreases ms.len(),
{
    if ms.len() == 0 {
        Ok((matched, ds))
    } else {
        let (from, p) = ms[0];
        let deps = checked_dependencies(p, resolved);
        if matched + distinct_count(deps) > usize::MAX {
            Err(RuleError::CountOverflow)
        } else {
            modules_scan(
                rule,
                dirs,
                resolved,
                ms.drop_first(),
                matched + distinct_count(deps),
                ds + edge_diagnostics(rule, p, from, dirs, resolved, forbidden_edges(deps, dirs, from, seq![])),
            )
        }
    }
}

/// What the module-boundary rule `rule` gives over the project facts: how many
/// distinct dependencies it examined and a diagnostic for each forbidden
/// relationship of a module.
pub open spec fn module_boundary_outcome(
    rule: Seq<char>,
    parameters: Json,
    files: Seq<(String, File)>,
    digest: Seq<char>,
    projects: Seq<ProjectFacts>,
) -> Result<(nat, Seq<DiagnosticView>), RuleError> {
    match policy_of(parameters) {
        Err(e) => Err(e),
        Ok((roots, dirs, resolved)) => if !directions_valid(dirs) {
            Err(RuleError::InvalidGlob)
        } else {
            match module_inventory(roots, projects, files, digest, seq![]) {
                Err(e) => Err(e),
                Ok(ms) => modules_scan(rule, dirs, resolved, ms, 0, seq![]),
            }
        },
    }
}

} // verus!

verus! {

/// A forbidden direction: module glob, dependency glob, scopes.
pub type Direction = (String, String, Vec<String>);

/// The plain values of a direction.
pub open spec fn direction_view(d: Direction) -> DirectionView {
    (d.0@, d.1@, string_views(d.2@))
}

/// The plain values of directions.
pub open spec fn directions_view(v: Seq<Direction>) -> Seq<DirectionView> {
    v.map_values(|d: Direction| direction_view(d))
}

/// A forbidden direction of the `forbidden` parameter.
fn direction_exec(j: &Json) -> (res: Option<Direction>)
    ensures
        match direction_of(*j) {
            Some(d) => res matches Some(x) && direction_view(x) == d,
            None => res is None,
        },
{
    let from = match crate::json::str_at(j, "from") {
        Some(f) => f.clone(),
        None => return None,
    };
    let to = match crate::json::str_at(j, "to") {
        Some(t) => t.clone(),
        None => return None,
    };
    if !matches!(j, Json::Object(_)) {
        return None;
    }
    match crate::json::get(j, "scopes") {
        None => {
            let v: Vec<String> = Vec::new();
            assert(string_views(v@) =~= seq![]);
            Some((from, to, v))
        },
        Some(v) => match crate::file_patterns::string_list_exec(v) {
            Some(l) => Some((from, to, l)),
            None => None,
        },
    }
}

/// The module-boundary policy of the parameters.
fn policy_exec(parameters: &Json) -> (res: Result<(Vec<String>, Vec<Direction>, bool), RuleError>)
    ensures
        match policy_of(*parameters) {
            Ok((m, d, r)) => res matches Ok((mv, dv, rv)) && string_views(mv@) == m && directions_view(dv@) == d && rv == r,
            Err(e) => res is Err && res->Err_0 == e,
        },
{
    let modules = match crate::json::get(parameters, "modules") {
        None => return Err(RuleError::MissingParameter),
        Some(m) => match crate::file_patterns::string_list_exec(m) {
            None => return Err(RuleError::InvalidParameter),
            Some(l) => l,
        },
    };
    let items = match crate::json::get(parameters, "forbidden") {
        None => return Err(RuleError::MissingParameter),
        Some(Json::Array(items)) => items,
        Some(_) => return Err(RuleError::InvalidParameter),
    };
    let ghost spec_dirs = items@.map_values(|j: Json| direction_of(j)->0);
    let ghost mv = string_views(modules@);
    assert(member(*parameters, "modules"@) matches Some(m) && string_list(m) == Some(mv));
    let mut dirs: Vec<Direction> = Vec::new();
    let mut i: usize = 0;
    while i < items.len()
        invariant
            0 <= i <= items@.len(),
            member(*parameters, "forbidden"@) == Some(Json::Array(*items)),
            spec_dirs == items@.map_values(|j: Json| direction_of(j)->0),
            forall|q: int| 0 <= q < i ==> (#[trigger] direction_of(items@[q])) is Some,
            directions_view(dirs@) == spec_dirs.take(i as int),
            mv == string_views(modules@),
            member(*parameters, "modules"@) matches Some(m) && string_list(m) == Some(mv),
        decreases items@.len() - i,
    {
        match direction_exec(&items[i]) {
            None => {
                assert(direction_of(items@[i as int]) is None);
                return Err(RuleError::InvalidParameter);
            },
            Some(d) => {
                let ghost before = directions_view(dirs@);
                dirs.push(d);
                assert(directions_view(dirs@) =~= before.push(direction_view(d)));
                assert(spec_dirs.take(i + 1) =~= spec_dirs.take(i as int).push(spec_dirs[i as int]));
            },
        }
        i = i + 1;
    }
    assert(spec_dirs.take(i as int) =~= spec_dirs);
    match crate::json::get(parameters, "dependency_kind") {
        None => Ok((modules, dirs, false)),
        Some(Json::Str(k)) => {
            let kc = crate::text::chars_of(k.as_str());
            if crate::text::text_is(&kc, "declared") {
                Ok((modules, dirs, false))
            } else if crate::text::text_is(&kc, "resolved") {
                Ok((modules, dirs, true))
            } else {
                Err(RuleError::InvalidParameter)
            }
        },
        Some(_) => Err(RuleError::InvalidParameter),
    }
}

/// A single glob as a set.
fn single(g: &String) -> (res: Vec<String>)
    ensures
        string_views(res@) == seq![g@],
{
    let v = vec![g.clone()];
    assert(string_views(v@) =~= seq![g@]);
    v
}

/// Whether every glob of the directions builds.
fn directions_valid_exec(dirs: &Vec<Direction>) -> (res: bool)
    ensures
        res == directions_valid(directions_view(dirs@)),
{
    let ghost dv = directions_view(dirs@);
    let mut i: usize = 0;
    while i < dirs.len()
        invariant
            0 <= i <= dirs@.len(),
            dv == directions_view(dirs@),
            forall|q: int| 0 <= q < i ==> spec_globs_valid(seq![(#[trigger] dv[q]).0]) && spec_globs_valid(seq![dv[q].1]),
        decreases dirs@.len() - i,
    {
        assert(dv[i as int] == direction_view(dirs@[i as int]));
        if !crate::file_patterns::globs_valid(&single(&dirs[i].0)) || !crate::file_patterns::globs_valid(
            &single(&dirs[i].1),
        ) {
            return false;
        }
        i = i + 1;
    }
    true
}

/// The only project with module root `root`, if there is exactly one.
fn unique_project<'a>(projects: &'a Vec<ProjectFacts>, root: &String) -> (res: Option<&'a ProjectFacts>)
    ensures
        root_count(projects@, root@) == 1 ==> (res matches Some(p) && *p == project_at(projects@, root@)),
        root_count(projects@, root@) != 1 ==> res is None,
{
    let mut found: Option<usize> = None;
    let mut count: usize = 0;
    let mut i: usize = projects.len();
    assert(projects@.skip(i as int) =~= seq![]);
    while i > 0
        invariant
            0 <= i <= projects@.len(),
            count <= 2,
            count == 0 ==> root_count(projects@.skip(i as int), root@) == 0,
            count == 1 ==> root_count(projects@.skip(i as int), root@) == 1,
            count == 2 ==> root_count(projects@.skip(i as int), root@) >= 2,
            count > 0 ==> (found matches Some(f) && i <= f < projects@.len() && projects@[f as int] == project_at(projects@.skip(i as int), root@)),
        decreases i,
    {
        let k = i - 1;
        assert(projects@.skip(k as int).drop_first() =~= projects@.skip(i as int));
        assert(projects@.skip(k as int)[0] == projects@[k as int]);
        if same_text_ref(&projects[k].root, root) {
            if count < 2 {
                count = count + 1;
            }
            found = Some(k);
        }
        i = k;
    }
    assert(projects@.skip(0) =~= projects@);
    if count == 1 {
        match found {
            Some(f) => Some(&projects[f]),
            None => None,
        }
    } else {
        None
    }
}

/// Whether two texts are equal.
fn same_text_ref(a: &String, b: &String) -> (res: bool)
    ensures
        res == (a@ == b@),
{
    crate::maven_usage::same_text(a, b)
}

/// The module identity of a coordinate.
fn module_identity_exec(coordinate: &String) -> (res: Option<String>)
    ensures
        match module_identity(coordinate@) {
            Some(id) => res matches Some(x) && x@ == id,
            None => res is None,
        },
{
    let path = crate::text::chars_of(coordinate.as_str());
    let mut k = path.len();
    assert(path@.take(k as int) =~= path@);
    while k > 0 && path[k - 1] != ':'
        invariant
            k <= path@.len(),
            path@ == coordinate@,
            last_index(path@, ':') == last_index(path@.take(k as int), ':'),
        decreases k,
    {
        assert(path@.take(k as int).drop_last() =~= path@.take(k - 1));
        k = k - 1;
    }
    if k == 0 {
        assert(path@.take(0) =~= seq![]);
        return None;
    }
    assert(last_index(path@.take(k as int), ':') == Some(k - 1));
    let id = crate::text::copy_range(&path, 0, k - 1);
    assert(id@ =~= coordinate@.take(k - 1));
    Some(crate::text::string_of(&id))
}

/// The plain values of an inventory.
pub open spec fn inventory_view(v: Seq<(String, &ProjectFacts)>) -> Seq<(Seq<char>, ProjectFacts)> {
    v.map_values(|e: (String, &ProjectFacts)| (e.0@, *e.1))
}

/// The configured modules with their identities and facts.
#[verifier::loop_isolation(false)]
fn module_inventory_exec<'a>(
    roots: &Vec<String>,
    projects: &'a Vec<ProjectFacts>,
    files: &Vec<(String, File)>,
    digest: &String,
) -> (res: Result<Vec<(String, &'a ProjectFacts)>, RuleError>)
    ensures
        match module_inventory(string_views(roots@), projects@, files@, digest@, seq![]) {
            Ok(ms) => res matches Ok(v) && inventory_view(v@) == ms,
            Err(e) => res is Err && res->Err_0 == e,
        },
{
    let ghost rs = string_views(roots@);
    let mut out: Vec<(String, &'a ProjectFacts)> = Vec::new();
    let mut i: usize = 0;
    assert(rs.skip(0) =~= rs);
    assert(inventory_view(out@) =~= seq![]);
    while i < roots.len()
        invariant
            0 <= i <= roots@.len(),
            rs == string_views(roots@),
            module_inventory(rs, projects@, files@, digest@, seq![]) == module_inventory(
                rs.skip(i as int),
                projects@,
                files@,
                digest@,
                inventory_view(out@),
            ),
        decreases roots@.len() - i,
    {
        assert(rs.skip(i as int)[0] == roots@[i as int]@);
        assert(rs.skip(i as int).drop_first() =~= rs.skip(i + 1));
        let p = match unique_project(projects, &roots[i]) {
            None => return Err(RuleError::ModuleFactsUnavailable),
            Some(p) => p,
        };
        let maven = crate::text::text_is(&crate::text::chars_of(p.ecosystem.as_str()), "maven");
        if p.schema_version != 1 || !maven || !same_text_ref(&p.snapshot_digest, digest) {
            return Err(RuleError::ForeignProjectFacts);
        }
        if crate::rules::file_at_exec(files, p.manifest.as_str()).is_none() {
            return Err(RuleError::ManifestAbsent);
        }
        let id = match module_identity_exec(&p.coordinate) {
            None => return Err(RuleError::MalformedCoordinate),
            Some(id) => id,
        };
        let ghost iv = inventory_view(out@);
        let mut j: usize = 0;
        while j < out.len()
            invariant
                0 <= j <= out@.len(),
                iv == inventory_view(out@),
                forall|q: int| 0 <= q < j ==> (#[trigger] iv[q]).0 != id@,
            decreases out@.len() - j,
        {
            if same_text_ref(&out[j].0, &id) {
                assert(iv[j as int].0 == id@);
                return Err(RuleError::DuplicateModule);
            }
            j = j + 1;
        }
        out.push((id, p));
        assert(inventory_view(out@) =~= iv.push((id@, *p)));
        i = i + 1;
    }
    assert(rs.skip(i as int) =~= seq![]);
    Ok(out)
}

/// How many distinct dependencies `deps` holds.
fn distinct_count_exec(deps: &Vec<DependencyFact>) -> (res: usize)
    ensures
        res as nat == distinct_count(facts_view(deps@)),
{
    let ghost all = facts_view(deps@);
    let mut c: usize = 0;
    let mut i: usize = 0;
    assert(all.take(0) =~= seq![]);
    while i < deps.len()
        invariant
            0 <= i <= deps@.len(),
            all == facts_view(deps@),
            c <= i,
            c as nat == distinct_count(all.take(i as int)),
        decreases deps@.len() - i,
    {
        let mut seen = false;
        let mut j: usize = 0;
        while j < i
            invariant
                0 <= j <= i < deps@.len(),
                all == facts_view(deps@),
                seen == (exists|q: int| 0 <= q < j && all[q] == all[i as int]),
            decreases i - j,
        {
            assert(all[j as int] == fact_view(deps@[j as int]));
            assert(all[i as int] == fact_view(deps@[i as int]));
            if crate::maven_usage::same_fact(&deps[j], &deps[i]) {
                seen = true;
            }
            j = j + 1;
        }
        let ghost t = all.take(i + 1);
        assert(t.drop_last() =~= all.take(i as int));
        assert(t.last() == all[i as int]);
        assert(seen == all.take(i as int).contains(all[i as int])) by {
            if seen {
                let q = choose|q: int| 0 <= q < i && all[q] == all[i as int];
                assert(all.take(i as int)[q] == all[i as int]);
            }
            if all.take(i as int).contains(all[i as int]) {
                let q = choose|q: int| 0 <= q < i && all.take(i as int)[q] == all[i as int];
                assert(all[q] == all[i as int]);
            }
        }
        if !seen {
            c = c + 1;
        }
        i = i + 1;
    }
    assert(all.take(i as int) =~= all);
    c
}

/// An executable relationship: `group:artifact`, type, classifier, scope.
pub type Edge = (String, String, String, String);

/// The plain values of a relationship.
pub open spec fn edge_view(e: Edge) -> EdgeKey {
    (e.0@, e.1@, e.2@, e.3@)
}

/// The plain values of relationships.
pub open spec fn edges_view(v: Seq<Edge>) -> Seq<EdgeKey> {
    v.map_values(|e: Edge| edge_view(e))
}

/// The relationship of a dependency.
fn edge_of(f: &DependencyFact) -> (res: Edge)
    ensures
        edge_view(res) == edge_key(fact_view(*f)),
{
    let mut to = crate::text::chars_of(f.group.as_str());
    to.push(':');
    crate::text::extend_chars(&mut to, &crate::text::chars_of(f.artifact.as_str()));
    proof {
        reveal_strlit(":");
        assert(to@ =~= f.group@ + ":"@ + f.artifact@);
    }
    (crate::text::string_of(&to), f.artifact_type.clone(), f.classifier.clone(), f.scope.clone())
}

/// The indices of the directions that forbid relationship `k` of module `from`.
fn matching_exec(dirs: &Vec<Direction>, from: &String, k: &Edge) -> (res: Vec<u64>)
    requires
        directions_valid(directions_view(dirs@)),
    ensures
        res@ == matching(directions_view(dirs@), from@, edge_view(*k), 0),
{
    let ghost dv = directions_view(dirs@);
    let ghost kv = edge_view(*k);
    let scope = crate::text::chars_of(k.3.as_str());
    let mut out: Vec<u64> = Vec::new();
    let mut j: usize = 0;
    assert(out@ + matching(dv, from@, kv, 0) =~= matching(dv, from@, kv, 0));
    while j < dirs.len()
        invariant
            0 <= j <= dirs@.len(),
            dv == directions_view(dirs@),
            kv == edge_view(*k),
            scope@ == k.3@,
            directions_valid(dv),
            matching(dv, from@, kv, 0) == out@ + matching(dv, from@, kv, j as nat),
        decreases dirs@.len() - j,
    {
        let d = &dirs[j];
        assert(dv[j as int] == direction_view(*d));
        let from_glob = single(&d.0);
        let to_glob = single(&d.1);
        let hit = crate::file_patterns::globs_match(&from_glob, from.as_str()) && crate::file_patterns::globs_match(
            &to_glob,
            k.0.as_str(),
        ) && (d.2.len() == 0 || crate::compatibility::contains_text(&d.2, &scope));
        let ghost before = out@;
        if hit {
            out.push(j as u64);
            assert(matching(dv, from@, kv, j as nat) =~= seq![j as u64] + matching(dv, from@, kv, (j + 1) as nat));
            assert(out@ + matching(dv, from@, kv, (j + 1) as nat) =~= before + matching(dv, from@, kv, j as nat));
        } else {
            assert(matching(dv, from@, kv, j as nat) =~= Seq::<u64>::empty() + matching(dv, from@, kv, (j + 1) as nat));
            assert(out@ + matching(dv, from@, kv, (j + 1) as nat) =~= before + matching(dv, from@, kv, j as nat));
        }
        j = j + 1;
    }
    assert(matching(dv, from@, kv, j as nat) =~= seq![]);
    assert(out@ + Seq::<u64>::empty() =~= out@);
    out
}

/// Compare one field: `Some` with the order when the fields differ.
fn field_order(a: &String, b: &String) -> (res: Option<bool>)
    ensures
        a@ == b@ ==> res is None,
        a@ != b@ ==> res == Some(text_less(a@, b@)),
{
    let x = crate::text::chars_of(a.as_str());
    let y = crate::text::chars_of(b.as_str());
    if crate::text::chars_equal(&x, &y) {
        None
    } else {
        Some(crate::reports::lcov::text_lt(&x, &y))
    }
}

/// Whether relationship `a` comes before `b`.
fn key_less_exec(a: &Edge, b: &Edge) -> (res: bool)
    ensures
        res == key_less(edge_view(*a), edge_view(*b)),
{
    if let Some(o) = field_order(&a.0, &b.0) {
        return o;
    }
    if let Some(o) = field_order(&a.1, &b.1) {
        return o;
    }
    if let Some(o) = field_order(&a.2, &b.2) {
        return o;
    }
    let x = crate::text::chars_of(a.3.as_str());
    let y = crate::text::chars_of(b.3.as_str());
    crate::reports::lcov::text_lt(&x, &y)
}

/// Inserting after a prefix of smaller items inserts into the rest.
proof fn lemma_insert_sorted_after(s: Seq<EdgeKey>, k: EdgeKey, i: int)
    requires
        0 <= i <= s.len(),
        forall|j: int| 0 <= j < i ==> key_less(#[trigger] s[j], k),
    ensures
        insert_sorted(s, k) == s.take(i) + insert_sorted(s.skip(i), k),
    decreases i,
{
    if i == 0 {
        assert(s.take(0) =~= seq![]);
        assert(s.skip(0) =~= s);
    } else {
        let t = s.drop_first();
        assert forall|j: int| 0 <= j < i - 1 implies key_less(#[trigger] t[j], k) by {
            assert(t[j] == s[j + 1]);
        }
        lemma_insert_sorted_after(t, k, i - 1);
        assert(t.skip(i - 1) =~= s.skip(i));
        assert(seq![s[0]] + t.take(i - 1) =~= s.take(i));
    }
}

/// Add `k` to the ascending list `v`, before the first item not below it.
fn insert_edge(v: &mut Vec<Edge>, k: Edge)
    ensures
        edges_view(final(v)@) == insert_sorted(edges_view(old(v)@), edge_view(k)),
{
    let ghost s = edges_view(v@);
    let mut i: usize = 0;
    while i < v.len() && key_less_exec(&v[i], &k)
        invariant
            0 <= i <= v@.len(),
            s == edges_view(v@),
            v@ == old(v)@,
            forall|j: int| 0 <= j < i ==> key_less(#[trigger] s[j], edge_view(k)),
        decreases v@.len() - i,
    {
        i = i + 1;
    }
    proof {
        lemma_insert_sorted_after(s, edge_view(k), i as int);
    }
    if i < v.len() {
        assert(s.skip(i as int)[0] == s[i as int]);
        v.insert(i, k);
        assert(edges_view(v@) =~= s.take(i as int) + (seq![edge_view(k)] + s.skip(i as int)));
    } else {
        v.push(k);
        assert(s.skip(i as int) =~= seq![]);
        assert(s.take(i as int) =~= s);
        assert(edges_view(v@) =~= s.take(i as int) + seq![edge_view(k)]);
    }
}

/// Whether `v` holds relationship `k`.
fn has_edge(v: &Vec<Edge>, k: &Edge) -> (res: bool)
    ensures
        res == edges_view(v@).contains(edge_view(*k)),
{
    let ghost s = edges_view(v@);
    let mut i: usize = 0;
    while i < v.len()
        invariant
            0 <= i <= v@.len(),
            s == edges_view(v@),
            forall|q: int| 0 <= q < i ==> s[q] != edge_view(*k),
        decreases v@.len() - i,
    {
        if same_text_ref(&v[i].0, &k.0) && same_text_ref(&v[i].1, &k.1) && same_text_ref(&v[i].2, &k.2)
            && same_text_ref(&v[i].3, &k.3) {
            assert(s[i as int] == edge_view(*k));
            return true;
        }
        i = i + 1;
    }
    false
}

/// The forbidden relationships of module `from` among `deps`, ascending, each once.
fn forbidden_edges_exec(deps: &Vec<DependencyFact>, dirs: &Vec<Direction>, from: &String) -> (res: Vec<Edge>)
    requires
        directions_valid(directions_view(dirs@)),
    ensures
        edges_view(res@) == forbidden_edges(facts_view(deps@), directions_view(dirs@), from@, seq![]),
{
    let ghost all = facts_view(deps@);
    let ghost dv = directions_view(dirs@);
    let mut acc: Vec<Edge> = Vec::new();
    let mut i: usize = 0;
    assert(all.skip(0) =~= all);
    assert(edges_view(acc@) =~= seq![]);
    while i < deps.len()
        invariant
            0 <= i <= deps@.len(),
            all == facts_view(deps@),
            dv == directions_view(dirs@),
            directions_valid(dv),
            forbidden_edges(all, dv, from@, seq![]) == forbidden_edges(all.skip(i as int), dv, from@, edges_view(acc@)),
        decreases deps@.len() - i,
    {
        assert(all.skip(i as int)[0] == fact_view(deps@[i as int]));
        assert(all.skip(i as int).drop_first() =~= all.skip(i + 1));
        let k = edge_of(&deps[i]);
        let hits = matching_exec(dirs, from, &k);
        if hits.len() > 0 && !has_edge(&acc, &k) {
            insert_edge(&mut acc, k);
        }
        i = i + 1;
    }
    assert(all.skip(i as int) =~= seq![]);
    acc
}

/// Append the characters of `s` to `v`.
fn push_text(v: &mut Vec<char>, s: &str)
    ensures
        final(v)@ == old(v)@ + s@,
{
    crate::text::extend_chars(v, &crate::text::chars_of(s));
}

/// The diagnostic of relationship `k` of module `from` with facts `p`.
fn boundary_diagnostic_exec(
    rule: &str,
    p: &ProjectFacts,
    from: &String,
    k: &Edge,
    resolved: bool,
    directions: Vec<u64>,
) -> (res: Diagnostic)
    ensures
        crate::rules::diagnostic_view(res) == boundary_diagnostic(rule@, *p, from@, edge_view(*k), resolved, directions@),
{
    let mut message = crate::text::chars_of("Forbidden module dependency: ");
    push_text(&mut message, from.as_str());
    push_text(&mut message, " -> ");
    push_text(&mut message, k.0.as_str());
    push_text(&mut message, " (");
    push_text(&mut message, k.3.as_str());
    push_text(&mut message, ")");
    let mut identity = crate::text::chars_of(from.as_str());
    push_text(&mut identity, ":");
    push_text(&mut identity, k.0.as_str());
    push_text(&mut identity, ":");
    push_text(&mut identity, k.1.as_str());
    push_text(&mut identity, ":");
    push_text(&mut identity, k.2.as_str());
    push_text(&mut identity, ":");
    push_text(&mut identity, k.3.as_str());
    let kind = if resolved { "resolved" } else { "declared" };
    let ghost dirs = directions@;
    let evidence = vec![
        (crate::rules::text_of("classifier"), Evidence::Text(k.2.clone())),
        (crate::rules::text_of("dependency_kind"), Evidence::Text(crate::rules::text_of(kind))),
        (crate::rules::text_of("from"), Evidence::Text(from.clone())),
        (crate::rules::text_of("matching_directions"), Evidence::Indices(directions)),
        (crate::rules::text_of("producer"), Evidence::Text(p.producer_check.clone())),
        (crate::rules::text_of("scope"), Evidence::Text(k.3.clone())),
        (crate::rules::text_of("snapshot_digest"), Evidence::Text(p.snapshot_digest.clone())),
        (crate::rules::text_of("to"), Evidence::Text(k.0.clone())),
        (crate::rules::text_of("type"), Evidence::Text(k.1.clone())),
    ];
    assert(evidence@.map_values(|q: (String, Evidence)| (q.0@, crate::rules::evidence_view(q.1))) =~= seq![
        ("classifier"@, EvidenceView::Text(k.2@)),
        ("dependency_kind"@, EvidenceView::Text(if resolved { "resolved"@ } else { "declared"@ })),
        ("from"@, EvidenceView::Text(from@)),
        ("matching_directions"@, EvidenceView::Indices(dirs)),
        ("producer"@, EvidenceView::Text(p.producer_check@)),
        ("scope"@, EvidenceView::Text(k.3@)),
        ("snapshot_digest"@, EvidenceView::Text(p.snapshot_digest@)),
        ("to"@, EvidenceView::Text(k.0@)),
        ("type"@, EvidenceView::Text(k.1@)),
    ]);
    crate::rules::diagnostic(
        rule,
        Some(p.manifest.as_str()),
        None,
        crate::text::string_of(&message),
        evidence,
        "Move the dependency or shared interface to the permitted module, repair affected callers, then rebuild and recheck",
        crate::text::string_of(&identity).as_str(),
    )
}

/// Evaluate the module-boundary rule `rule` over the project facts `projects` of
/// the snapshot with files `files` and content digest `digest`: the number of
/// distinct dependencies examined and a diagnostic for each forbidden
/// relationship of a configured module.
#[verifier::loop_isolation(false)]
pub fn module_boundary(
    rule: &str,
    parameters: &Json,
    files: &Vec<(String, File)>,
    digest: &String,
    projects: &Vec<ProjectFacts>,
) -> (res: Result<(usize, Vec<Diagnostic>), RuleError>)
    ensures
        match module_boundary_outcome(rule@, *parameters, files@, digest@, projects@) {
            Ok((m, ds)) => res matches Ok((n, v)) && n as nat == m && diagnostics_view(v@) == ds,
            Err(e) => res is Err && res->Err_0 == e,
        },
{
    let (roots, dirs, resolved) = policy_exec(parameters)?;
    if !directions_valid_exec(&dirs) {
        return Err(RuleError::InvalidGlob);
    }
    let ms = module_inventory_exec(&roots, projects, files, digest)?;
    let ghost dv = directions_view(dirs@);
    let ghost mv = inventory_view(ms@);
    let mut matched: usize = 0;
    let mut ds: Vec<Diagnostic> = Vec::new();
    let mut i: usize = 0;
    assert(mv.skip(0) =~= mv);
    assert(diagnostics_view(ds@) =~= seq![]);
    while i < ms.len()
        invariant
            0 <= i <= ms@.len(),
            mv == inventory_view(ms@),
            dv == directions_view(dirs@),
            directions_valid(dv),
            modules_scan(rule@, dv, resolved, mv, 0, seq![]) == modules_scan(
                rule@,
                dv,
                resolved,
                mv.skip(i as int),
                matched as nat,
                diagnostics_view(ds@),
            ),
        decreases ms@.len() - i,
    {
        assert(mv.skip(i as int)[0] == (ms@[i as int].0@, *ms@[i as int].1));
        assert(mv.skip(i as int).drop_first() =~= mv.skip(i + 1));
        let from = &ms[i].0;
        let p = ms[i].1;
        let deps = if resolved { &p.resolved } else { &p.declared };
        let n = distinct_count_exec(deps);
        if n > usize::MAX - matched {
            return Err(RuleError::CountOverflow);
        }
        matched = matched + n;
        let edges = forbidden_edges_exec(deps, &dirs, from);
        let ghost ev = edges_view(edges@);
        let ghost before = diagnostics_view(ds@);
        let mut j: usize = 0;
        while j < edges.len()
            invariant
                0 <= j <= edges@.len(),
                ev == edges_view(edges@),
                diagnostics_view(ds@) == before + edge_diagnostics(rule@, *p, from@, dv, resolved, ev.take(j as int)),
            decreases edges@.len() - j,
        {
            let hits = matching_exec(&dirs, from, &edges[j]);
            let d = boundary_diagnostic_exec(rule, p, from, &edges[j], resolved, hits);
            let ghost prior = diagnostics_view(ds@);
            ds.push(d);
            assert(ev.take(j + 1) =~= ev.take(j as int).push(ev[j as int]));
            assert(ev[j as int] == edge_view(edges@[j as int]));
            assert(edge_diagnostics(rule@, *p, from@, dv, resolved, ev.take(j + 1)) =~= edge_diagnostics(
                rule@,
                *p,
                from@,
                dv,
                resolved,
                ev.take(j as int),
            ).push(crate::rules::diagnostic_view(d)));
            assert(diagnostics_view(ds@) =~= prior.push(crate::rules::diagnostic_view(d)));
            j = j + 1;
        }
        assert(ev.take(j as int) =~= ev);
        i = i + 1;
    }
    assert(mv.skip(i as int) =~= seq![]);
    Ok((matched, ds))
}

} // verus!

verus! {

/// No relationship occurs twice in `s`.
pub open spec fn no_duplicates(s: Seq<EdgeKey>) -> bool {
    forall|i: int, j: int| 0 <= i < j < s.len() ==> s[i] != s[j]
}

/// Inserting `k` keeps what `s` holds, adds `k`, and adds no duplicate when
/// `k` is new.
proof fn lemma_insert_sorted(s: Seq<EdgeKey>, k: EdgeKey)
    ensures
        insert_sorted(s, k).len() == s.len() + 1,
        forall|x: EdgeKey| #[trigger] insert_sorted(s, k).contains(x) <==> (s.contains(x) || x == k),
        no_duplicates(s) && !s.contains(k) ==> no_duplicates(insert_sorted(s, k)),
    decreases s.len(),
{
    let r = insert_sorted(s, k);
    if s.len() == 0 {
        assert(r =~= seq![k]);
        assert forall|x: EdgeKey| #[trigger] r.contains(x) <==> (s.contains(x) || x == k) by {
            if r.contains(x) {
                let i = choose|i: int| 0 <= i < r.len() && r[i] == x;
                assert(i == 0);
            }
            if x == k {
                assert(r[0] == k);
            }
        }
    } else if key_less(s[0], k) {
        let t = s.drop_first();
        lemma_insert_sorted(t, k);
        let rt = insert_sorted(t, k);
        assert(r =~= seq![s[0]] + rt);
        assert forall|x: EdgeKey| #[trigger] r.contains(x) <==> (s.contains(x) || x == k) by {
            if r.contains(x) {
                let i = choose|i: int| 0 <= i < r.len() && r[i] == x;
                if i == 0 {
                    assert(s[0] == x);
                } else {
                    assert(rt[i - 1] == x);
                    assert(rt.contains(x));
                    if t.contains(x) {
                        let q = choose|q: int| 0 <= q < t.len() && t[q] == x;
                        assert(s[q + 1] == x);
                    }
                }
            }
            if s.contains(x) {
                let q = choose|q: int| 0 <= q < s.len() && s[q] == x;
                if q == 0 {
                    assert(r[0] == x);
                } else {
                    assert(t[q - 1] == x);
                    assert(t.contains(x));
                    assert(rt.contains(x));
                    let i = choose|i: int| 0 <= i < rt.len() && rt[i] == x;
                    assert(r[i + 1] == x);
                }
            }
            if x == k {
                assert(rt.contains(k));
                let i = choose|i: int| 0 <= i < rt.len() && rt[i] == k;
                assert(r[i + 1] == k);
            }
        }
        if no_duplicates(s) && !s.contains(k) {
            assert(no_duplicates(t)) by {
                assert forall|i: int, j: int| 0 <= i < j < t.len() implies t[i] != t[j] by {
                    assert(t[i] == s[i + 1] && t[j] == s[j + 1]);
                }
            }
            assert(!t.contains(k)) by {
                if t.contains(k) {
                    let q = choose|q: int| 0 <= q < t.len() && t[q] == k;
                    assert(s[q + 1] == k);
                }
            }
            assert(!rt.contains(s[0])) by {
                if rt.contains(s[0]) {
                    if t.contains(s[0]) {
                        let q = choose|q: int| 0 <= q < t.len() && t[q] == s[0];
                        assert(s[q + 1] == s[0]);
                    } else {
                        assert(s[0] == k);
                        assert(s.contains(k));
                    }
                }
            }
            assert forall|i: int, j: int| 0 <= i < j < r.len() implies r[i] != r[j] by {
                if i == 0 {
                    assert(r[j] == rt[j - 1]);
                    if r[i] == r[j] {
                        assert(rt.contains(s[0]));
                    }
                } else {
                    assert(r[i] == rt[i - 1] && r[j] == rt[j - 1]);
                }
            }
        }
    } else {
        assert(r =~= seq![k] + s);
        assert forall|x: EdgeKey| #[trigger] r.contains(x) <==> (s.contains(x) || x == k) by {
            if r.contains(x) {
                let i = choose|i: int| 0 <= i < r.len() && r[i] == x;
                if i > 0 {
                    assert(s[i - 1] == x);
                }
            }
            if s.contains(x) {
                let q = choose|q: int| 0 <= q < s.len() && s[q] == x;
                assert(r[q + 1] == x);
            }
            if x == k {
                assert(r[0] == k);
            }
        }
        if no_duplicates(s) && !s.contains(k) {
            assert forall|i: int, j: int| 0 <= i < j < r.len() implies r[i] != r[j] by {
                if i == 0 {
                    assert(r[j] == s[j - 1]);
                    if r[i] == r[j] {
                        assert(s.contains(k));
                    }
                } else {
                    assert(r[i] == s[i - 1] && r[j] == s[j - 1]);
                }
            }
        }
    }
}

/// Collecting forbidden relationships onto a list without duplicates adds none.
proof fn lemma_forbidden_edges_distinct(deps: Seq<FactView>, dirs: Seq<DirectionView>, from: Seq<char>, acc: Seq<EdgeKey>)
    requires
        no_duplicates(acc),
    ensures
        no_duplicates(forbidden_edges(deps, dirs, from, acc)),
    decreases deps.len(),
{
    if deps.len() > 0 {
        let k = edge_key(deps[0]);
        if matching(dirs, from, k, 0).len() > 0 && !acc.contains(k) {
            lemma_insert_sorted(acc, k);
            lemma_forbidden_edges_distinct(deps.drop_first(), dirs, from, insert_sorted(acc, k));
        } else {
            lemma_forbidden_edges_distinct(deps.drop_first(), dirs, from, acc);
        }
    }
}

/// A module relationship is reported once, however many dependencies (or
/// paths to the same artifact) give it: the forbidden relationships of a
/// module hold no duplicate.
pub proof fn module_relationships_distinct(deps: Seq<FactView>, dirs: Seq<DirectionView>, from: Seq<char>)
    ensures
        no_duplicates(forbidden_edges(deps, dirs, from, seq![])),
{
    lemma_forbidden_edges_distinct(deps, dirs, from, seq![]);
}

} // verus!
