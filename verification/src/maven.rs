//! Maven effective-model and dependency-tree normalization: the project facts
//! that Maven resolved, cross-checked with the captured manifest, with no
//! import guessing.

use vstd::prelude::*;
use crate::xml::{has_tag, XmlNode};
use crate::text::{has_prefix, trim};
use crate::compatibility::children;
use crate::maven_usage::{bad_part, contains_text, fact_view, facts_view, known_scope, DependencyFact, FactView, ProjectFacts};
use crate::markers::file_bytes;
use crate::paths::{repository_path, PathError};

verus! {

/// Deepest accepted dependency tree.
pub const MAX_TREE_DEPTH: usize = 64;

/// Most resolved dependencies accepted.
pub const MAX_RESOLVED: usize = 50000;

/// Where one Maven project's facts come from: its module root and the files of
/// its effective POM and dependency tree.
#[derive(Debug, Clone)]
pub struct MavenProject {
    pub root: String,
    pub effective_pom: String,
    pub dependency_tree: String,
}

/// One node of `mvn dependency:tree` JSON output.
#[derive(Debug)]
pub struct DependencyTree {
    pub group_id: String,
    pub artifact_id: String,
    pub version: String,
    pub artifact_type: String,
    pub classifier: String,
    pub scope: String,
    pub optional: String,
    pub children: Vec<DependencyTree>,
}

/// Why Maven output does not establish project facts.
#[derive(Debug, Clone, Copy, PartialEq, Eq, Structural)]
pub enum MavenError {
    /// The effective model exceeds the report size budget.
    TooLarge,
    /// The project manifest is absent from the snapshot.
    MissingManifest,
    /// The captured manifest is not UTF-8 XML.
    InvalidManifest,
    /// The effective model is not UTF-8 XML.
    InvalidModel,
    /// Not one Maven 4.0.0 effective project (a reactor or a raw report).
    NotEffectiveProject,
    /// A model element occurs twice where one is expected.
    DuplicateElement,
    /// A required model element or its text is missing.
    MissingElement,
    /// A model value is empty or holds a property reference.
    UnresolvedElement,
    /// The effective artifact differs from the captured manifest's.
    ForeignManifest,
    /// The effective model has no build section.
    MissingBuild,
    /// A source root is not an absolute path.
    RelativeSourceRoot,
    /// A source root outside the workspace.
    SourceOutsideWorkspace(PathError),
    /// A source root outside the configured module, or empty.
    SourceOutsideModule,
    /// The main and test source roots are the same.
    AmbiguousSourceRoots,
    /// An element other than `dependency` among the dependencies.
    UnexpectedDependency,
    /// A coordinate that is empty, unresolved or holds white space.
    InvalidCoordinate,
    /// A dependency scope other than compile, provided, runtime, test or system.
    UnsupportedScope,
    /// Two declared dependencies with the same group, artifact, type and classifier.
    DuplicateDependency,
    /// The dependency tree describes another project.
    ForeignTree,
    /// The dependency tree is deeper or larger than the analysis budget.
    TreeTooLarge,
    /// An optional flag other than `true` or `false`.
    InvalidOptional,
    /// The tree's direct dependencies differ from the declared ones.
    TreeMismatch,
}

/// The nodes of a UTF-8 XML document, when `bytes` is one.
pub open spec fn xml_document(bytes: Seq<u8>) -> Option<Seq<XmlNode>> {
    if !vstd::utf8::valid_utf8(bytes) {
        None
    } else {
        match crate::xml::spec_parse_xml(vstd::utf8::decode_utf8(bytes), u32::MAX) {
            Some(nodes) => if crate::xml::well_formed(nodes) {
                Some(nodes)
            } else {
                None
            },
            None => None,
        }
    }
}

/// The one child element of `p` named `name`, if there is one.
pub open spec fn single_child(nodes: Seq<XmlNode>, p: int, name: Seq<char>) -> Result<Option<int>, MavenError> {
    let cs = children(nodes, p, name);
    if cs.len() > 1 {
        Err(MavenError::DuplicateElement)
    } else if cs.len() == 0 {
        Ok(None)
    } else {
        Ok(Some(cs[0]))
    }
}

/// The resolved, trimmed text of the one child of `p` named `name`.
pub open spec fn model_text(nodes: Seq<XmlNode>, p: int, name: Seq<char>) -> Result<Seq<char>, MavenError> {
    match single_child(nodes, p, name) {
        Err(e) => Err(e),
        Ok(None) => Err(MavenError::MissingElement),
        Ok(Some(c)) => match nodes[c].text {
            None => Err(MavenError::MissingElement),
            Some(t) => if trim(t@).len() == 0 || contains_text(trim(t@), "${"@) {
                Err(MavenError::UnresolvedElement)
            } else {
                Ok(trim(t@))
            },
        },
    }
}

/// The text of the child of `p` named `name`, or `default` when there is none.
pub open spec fn optional_text(nodes: Seq<XmlNode>, p: int, name: Seq<char>, default: Seq<char>) -> Result<Seq<char>, MavenError> {
    match single_child(nodes, p, name) {
        Err(e) => Err(e),
        Ok(None) => Ok(default),
        Ok(Some(_)) => model_text(nodes, p, name),
    }
}

/// Why a dependency coordinate is refused, if it is.
pub open spec fn coordinate_error(f: FactView) -> Option<MavenError> {
    if bad_part(f.0) || bad_part(f.1) || bad_part(f.4) || bad_part(f.2) {
        Some(MavenError::InvalidCoordinate)
    } else if !known_scope(f.5) {
        Some(MavenError::UnsupportedScope)
    } else {
        None
    }
}

/// The dependency that element `d` of the effective model declares.
pub open spec fn declared_fact(nodes: Seq<XmlNode>, d: int) -> Result<FactView, MavenError> {
    match model_text(nodes, d, "groupId"@) {
        Err(e) => Err(e),
        Ok(group) => match model_text(nodes, d, "artifactId"@) {
            Err(e) => Err(e),
            Ok(artifact) => match model_text(nodes, d, "version"@) {
                Err(e) => Err(e),
                Ok(version) => match optional_text(nodes, d, "type"@, "jar"@) {
                    Err(e) => Err(e),
                    Ok(kind) => match optional_text(nodes, d, "classifier"@, seq![]) {
                        Err(e) => Err(e),
                        Ok(classifier) => match optional_text(nodes, d, "scope"@, "compile"@) {
                            Err(e) => Err(e),
                            Ok(scope) => {
                                let f = (group, artifact, kind, classifier, version, scope);
                                match coordinate_error(f) {
                                    Some(e) => Err(e),
                                    None => Ok(f),
                                }
                            },
                        },
                    },
                },
            },
        },
    }
}

/// Two dependencies with the same group, artifact, type and classifier.
pub open spec fn same_key(a: FactView, b: FactView) -> bool {
    a.0 == b.0 && a.1 == b.1 && a.2 == b.2 && a.3 == b.3
}

/// The dependencies that the elements `ds` declare, after those in `acc`.
pub open spec fn declared_scan(nodes: Seq<XmlNode>, ds: Seq<int>, acc: Seq<FactView>) -> Result<Seq<FactView>, MavenError>
    decreases ds.len(),
{
    if ds.len() == 0 {
        Ok(acc)
    } else if !has_tag(nodes[ds[0]], "dependency"@) {
        Err(MavenError::UnexpectedDependency)
    } else {
        match declared_fact(nodes, ds[0]) {
            Err(e) => Err(e),
            Ok(f) => if exists|i: int| 0 <= i < acc.len() && same_key(#[trigger] acc[i], f) {
                Err(MavenError::DuplicateDependency)
            } else {
                declared_scan(nodes, ds.drop_first(), acc.push(f))
            },
        }
    }
}

/// The dependencies that the effective project element `project` declares.
pub open spec fn declared_of(nodes: Seq<XmlNode>, project: int) -> Result<Seq<FactView>, MavenError> {
    match single_child(nodes, project, "dependencies"@) {
        Err(e) => Err(e),
        Ok(None) => Ok(seq![]),
        Ok(Some(d)) => declared_scan(nodes, children(nodes, d, seq![]), seq![]),
    }
}

/// The repository path of an absolute source root inside the module `root`.
pub open spec fn source_path(value: Seq<char>, workspace: Seq<char>, root: Seq<char>) -> Result<Seq<char>, MavenError> {
    if !(value.len() > 0 && value[0] == '/') {
        Err(MavenError::RelativeSourceRoot)
    } else {
        match repository_path(value, workspace) {
            Err(e) => Err(MavenError::SourceOutsideWorkspace(e)),
            Ok(p) => if p.len() == 0 || (root != "."@ && !(has_prefix(p, root) && p.len() > root.len()
                && p[root.len() as int] == '/')) {
                Err(MavenError::SourceOutsideModule)
            } else {
                Ok(p)
            },
        }
    }
}

/// The dependency that a tree node names.
pub open spec fn tree_fact(t: DependencyTree) -> FactView {
    (t.group_id@, t.artifact_id@, t.artifact_type@, t.classifier@, t.version@, t.scope@)
}

/// An optional flag is `true` or `false`.
pub open spec fn valid_optional(t: DependencyTree) -> bool {
    t.optional@ == "true"@ || t.optional@ == "false"@
}

/// The children of a tree node, one level deeper.
pub open spec fn deeper(t: DependencyTree, depth: int) -> Seq<(DependencyTree, int)> {
    t.children@.map_values(|c: DependencyTree| (c, depth + 1))
}

/// The resolved and direct dependencies of the nodes on `stack`, taken last
/// first with each node's children pushed after it, after `resolved` and `direct`.
pub open spec fn walk(
    stack: Seq<(DependencyTree, int)>,
    resolved: Seq<FactView>,
    direct: Seq<FactView>,
) -> Result<(Seq<FactView>, Seq<FactView>), MavenError>
    decreases MAX_RESOLVED + 1 - resolved.len(),
{
    if stack.len() == 0 {
        Ok((resolved, direct))
    } else {
        let (node, depth) = stack.last();
        if depth > MAX_TREE_DEPTH || resolved.len() > MAX_RESOLVED {
            Err(MavenError::TreeTooLarge)
        } else if !valid_optional(node) {
            Err(MavenError::InvalidOptional)
        } else {
            match coordinate_error(tree_fact(node)) {
                Some(e) => Err(e),
                None => walk(
                    stack.drop_last() + deeper(node, depth),
                    resolved.push(tree_fact(node)),
                    if depth == 1 {
                        direct.push(tree_fact(node))
                    } else {
                        direct
                    },
                ),
            }
        }
    }
}

/// Every item of `a` is in `b` and every item of `b` in `a`.
pub open spec fn same_members(a: Seq<FactView>, b: Seq<FactView>) -> bool {
    (forall|i: int| 0 <= i < a.len() ==> b.contains(#[trigger] a[i])) && (forall|i: int|
        0 <= i < b.len() ==> a.contains(#[trigger] b[i]))
}

/// The manifest of the module at `root`.
pub open spec fn manifest_path(root: Seq<char>) -> Seq<char> {
    if root == "."@ {
        "pom.xml"@
    } else {
        root + "/pom.xml"@
    }
}

/// Project facts as plain values: root, manifest, coordinate, source roots,
/// declared and resolved dependencies, producer and snapshot digest.
pub struct ProjectView {
    pub root: Seq<char>,
    pub manifest: Seq<char>,
    pub coordinate: Seq<char>,
    pub source_root: Seq<char>,
    pub test_source_root: Seq<char>,
    pub declared: Seq<FactView>,
    pub resolved: Seq<FactView>,
    pub producer: Seq<char>,
    pub digest: Seq<char>,
}

/// The plain values of Maven project facts: version 1 of the schema, the
/// `maven` ecosystem, and no usage evidence yet.
pub open spec fn maven_facts_view(f: ProjectFacts) -> Option<ProjectView> {
    if f.schema_version == 1 && f.ecosystem@ == "maven"@ && f.dependency_usage is None {
        Some(
            ProjectView {
                root: f.root@,
                manifest: f.manifest@,
                coordinate: f.coordinate@,
                source_root: f.source_root@,
                test_source_root: f.test_source_root@,
                declared: facts_view(f.declared@),
                resolved: facts_view(f.resolved@),
                producer: f.producer_check@,
                digest: f.snapshot_digest@,
            },
        )
    } else {
        None
    }
}

} // verus!

verus! {

/// The coordinate, group, artifact and version that the effective project
/// element `p` names, after checking that it is one Maven 4.0.0 project.
pub open spec fn model_identity(nodes: Seq<XmlNode>, p: int) -> Result<(Seq<char>, Seq<char>, Seq<char>), MavenError> {
    if !has_tag(nodes[p], "project"@) {
        Err(MavenError::NotEffectiveProject)
    } else {
        match model_text(nodes, p, "modelVersion"@) {
            Err(e) => Err(e),
            Ok(v) => if v != "4.0.0"@ {
                Err(MavenError::NotEffectiveProject)
            } else {
                match model_text(nodes, p, "groupId"@) {
                    Err(e) => Err(e),
                    Ok(group) => match model_text(nodes, p, "artifactId"@) {
                        Err(e) => Err(e),
                        Ok(artifact) => match model_text(nodes, p, "version"@) {
                            Err(e) => Err(e),
                            Ok(version) => Ok((group, artifact, version)),
                        },
                    },
                }
            },
        }
    }
}

/// The main and test source roots of the effective project element `p`.
pub open spec fn source_roots(nodes: Seq<XmlNode>, p: int, workspace: Seq<char>, root: Seq<char>) -> Result<(Seq<char>, Seq<char>), MavenError> {
    match single_child(nodes, p, "build"@) {
        Err(e) => Err(e),
        Ok(None) => Err(MavenError::MissingBuild),
        Ok(Some(b)) => match model_text(nodes, b, "sourceDirectory"@) {
            Err(e) => Err(e),
            Ok(main_dir) => match source_path(main_dir, workspace, root) {
                Err(e) => Err(e),
                Ok(main) => match model_text(nodes, b, "testSourceDirectory"@) {
                    Err(e) => Err(e),
                    Ok(test_dir) => match source_path(test_dir, workspace, root) {
                        Err(e) => Err(e),
                        Ok(test) => if main == test {
                            Err(MavenError::AmbiguousSourceRoots)
                        } else {
                            Ok((main, test))
                        },
                    },
                },
            },
        },
    }
}

/// The resolved dependencies of the tree of the project `group:artifact:version`,
/// whose direct dependencies must be exactly the `declared` ones.
pub open spec fn tree_outcome(
    tree: DependencyTree,
    group: Seq<char>,
    artifact: Seq<char>,
    version: Seq<char>,
    declared: Seq<FactView>,
) -> Result<Seq<FactView>, MavenError> {
    if tree.group_id@ != group || tree.artifact_id@ != artifact || tree.version@ != version
        || tree.scope@.len() != 0 {
        Err(MavenError::ForeignTree)
    } else if !valid_optional(tree) {
        Err(MavenError::InvalidOptional)
    } else {
        match walk(deeper(tree, 0), seq![], seq![]) {
            Err(e) => Err(e),
            Ok((resolved, direct)) => if !same_members(direct, declared) {
                Err(MavenError::TreeMismatch)
            } else {
                Ok(resolved)
            },
        }
    }
}

/// What the effective model (as `nodes`), the captured manifest (as `inodes`)
/// and the dependency tree establish of the project at `root`.
pub open spec fn model_outcome(
    nodes: Seq<XmlNode>,
    inodes: Seq<XmlNode>,
    root: Seq<char>,
    tree: DependencyTree,
    workspace: Seq<char>,
    digest: Seq<char>,
    producer: Seq<char>,
) -> Result<ProjectView, MavenError> {
    match crate::xml::root_element(nodes) {
        None => Err(MavenError::InvalidModel),
        Some(p) => match model_identity(nodes, p) {
            Err(e) => Err(e),
            Ok((group, artifact, version)) => match crate::xml::root_element(inodes) {
                None => Err(MavenError::InvalidManifest),
                Some(ir) => match model_text(inodes, ir, "artifactId"@) {
                    Err(e) => Err(e),
                    Ok(a) => if a != artifact {
                        Err(MavenError::ForeignManifest)
                    } else {
                        match source_roots(nodes, p, workspace, root) {
                            Err(e) => Err(e),
                            Ok((main, test)) => match declared_of(nodes, p) {
                                Err(e) => Err(e),
                                Ok(declared) => match tree_outcome(tree, group, artifact, version, declared) {
                                    Err(e) => Err(e),
                                    Ok(resolved) => Ok(
                                        ProjectView {
                                            root,
                                            manifest: manifest_path(root),
                                            coordinate: group + ":"@ + artifact + ":"@ + version,
                                            source_root: main,
                                            test_source_root: test,
                                            declared,
                                            resolved,
                                            producer,
                                            digest,
                                        },
                                    ),
                                },
                            },
                        }
                    },
                },
            },
        },
    }
}

/// What Maven's effective model `model` and dependency tree `tree` establish of
/// `project`, given the snapshot `files` with content digest `digest`, a
/// checked workspace and the producing check.
pub open spec fn maven_outcome(
    project: MavenProject,
    model: Seq<u8>,
    tree: DependencyTree,
    workspace: Seq<char>,
    files: Seq<(String, crate::provenance::File)>,
    digest: Seq<char>,
    producer: Seq<char>,
) -> Result<ProjectView, MavenError> {
    if model.len() > crate::reports::MAX_REPORT_BYTES {
        Err(MavenError::TooLarge)
    } else {
        match file_bytes(files, manifest_path(project.root@)) {
            None => Err(MavenError::MissingManifest),
            Some(input) => match xml_document(input) {
                None => Err(MavenError::InvalidManifest),
                Some(inodes) => match xml_document(model) {
                    None => Err(MavenError::InvalidModel),
                    Some(nodes) => model_outcome(nodes, inodes, project.root@, tree, workspace, digest, producer),
                },
            },
        }
    }
}

} // verus!

verus! {

/// The nodes of the UTF-8 XML document `bytes`.
fn xml_nodes(bytes: &[u8]) -> (res: Option<Vec<XmlNode>>)
    ensures
        match xml_document(bytes@) {
            Some(n) => res matches Some(v) && v@ == n,
            None => res is None,
        },
{
    let text = match crate::text::text_of_bytes(bytes) {
        None => return None,
        Some(t) => t,
    };
    proof {
        vstd::utf8::encode_utf8_decode_utf8(text@);
    }
    let nodes = match crate::xml::parse_xml(text, u32::MAX) {
        None => return None,
        Some(n) => n,
    };
    if !crate::xml::check_well_formed(&nodes) {
        return None;
    }
    Some(nodes)
}

/// The one child element of `p` named `name`, if there is one.
fn single_child_exec(nodes: &Vec<XmlNode>, p: usize, name: &str) -> (res: Result<Option<usize>, MavenError>)
    ensures
        match single_child(nodes@, p as int, name@) {
            Ok(Some(c)) => res matches Ok(Some(r)) && r as int == c && r < nodes@.len(),
            Ok(None) => res matches Ok(None),
            Err(e) => res is Err && res->Err_0 == e,
        },
{
    let cs = crate::compatibility::children_exec(nodes, p, name);
    if cs.len() > 1 {
        Err(MavenError::DuplicateElement)
    } else if cs.len() == 0 {
        Ok(None)
    } else {
        assert(crate::compatibility::indices(cs@)[0] == cs@[0] as int);
        Ok(Some(cs[0]))
    }
}

/// The resolved, trimmed text of the one child of `p` named `name`.
fn model_text_exec(nodes: &Vec<XmlNode>, p: usize, name: &str) -> (res: Result<Vec<char>, MavenError>)
    ensures
        match model_text(nodes@, p as int, name@) {
            Ok(t) => res matches Ok(r) && r@ == t,
            Err(e) => res is Err && res->Err_0 == e,
        },
{
    let c = match single_child_exec(nodes, p, name) {
        Err(e) => return Err(e),
        Ok(None) => return Err(MavenError::MissingElement),
        Ok(Some(c)) => c,
    };
    let t = match &nodes[c].text {
        None => return Err(MavenError::MissingElement),
        Some(t) => crate::text::chars_of(t.as_str()),
    };
    let v = crate::text::trimmed(&t);
    if v.len() == 0 || crate::maven_usage::text_contains(&v, "${") {
        return Err(MavenError::UnresolvedElement);
    }
    Ok(v)
}

/// The text of the child of `p` named `name`, or `default` when there is none.
fn optional_text_exec(nodes: &Vec<XmlNode>, p: usize, name: &str, default: &str) -> (res: Result<Vec<char>, MavenError>)
    ensures
        match optional_text(nodes@, p as int, name@, default@) {
            Ok(t) => res matches Ok(r) && r@ == t,
            Err(e) => res is Err && res->Err_0 == e,
        },
{
    match single_child_exec(nodes, p, name) {
        Err(e) => Err(e),
        Ok(None) => Ok(crate::text::chars_of(default)),
        Ok(Some(_)) => model_text_exec(nodes, p, name),
    }
}

/// Why a dependency coordinate is refused, if it is.
fn coordinate_error_exec(f: &DependencyFact) -> (res: Option<MavenError>)
    ensures
        res == coordinate_error(fact_view(*f)),
{
    let g = crate::text::chars_of(f.group.as_str());
    let a = crate::text::chars_of(f.artifact.as_str());
    let v = crate::text::chars_of(f.version.as_str());
    let t = crate::text::chars_of(f.artifact_type.as_str());
    if crate::maven_usage::bad_part_exec(&g) || crate::maven_usage::bad_part_exec(&a)
        || crate::maven_usage::bad_part_exec(&v) || crate::maven_usage::bad_part_exec(&t) {
        return Some(MavenError::InvalidCoordinate);
    }
    let s = crate::text::chars_of(f.scope.as_str());
    if !crate::maven_usage::known_scope_exec(&s) {
        return Some(MavenError::UnsupportedScope);
    }
    None
}

/// The dependency that element `d` of the effective model declares.
fn declared_fact_exec(nodes: &Vec<XmlNode>, d: usize) -> (res: Result<DependencyFact, MavenError>)
    ensures
        match declared_fact(nodes@, d as int) {
            Ok(f) => res matches Ok(r) && fact_view(r) == f,
            Err(e) => res is Err && res->Err_0 == e,
        },
{
    proof {
        reveal_strlit("");
        assert(""@ =~= seq![]);
    }
    let group = model_text_exec(nodes, d, "groupId")?;
    let artifact = model_text_exec(nodes, d, "artifactId")?;
    let version = model_text_exec(nodes, d, "version")?;
    let kind = optional_text_exec(nodes, d, "type", "jar")?;
    let classifier = optional_text_exec(nodes, d, "classifier", "")?;
    let scope = optional_text_exec(nodes, d, "scope", "compile")?;
    let f = DependencyFact {
        group: crate::text::string_of(&group),
        artifact: crate::text::string_of(&artifact),
        artifact_type: crate::text::string_of(&kind),
        classifier: crate::text::string_of(&classifier),
        version: crate::text::string_of(&version),
        scope: crate::text::string_of(&scope),
    };
    if let Some(e) = coordinate_error_exec(&f) {
        return Err(e);
    }
    Ok(f)
}

/// Whether `acc` holds a dependency with the group, artifact, type and classifier of `f`.
fn has_key(acc: &Vec<DependencyFact>, f: &DependencyFact) -> (res: bool)
    ensures
        res == exists|i: int| 0 <= i < acc@.len() && same_key(#[trigger] facts_view(acc@)[i], fact_view(*f)),
{
    let mut j: usize = 0;
    while j < acc.len()
        invariant
            0 <= j <= acc@.len(),
            forall|i: int| 0 <= i < j ==> !same_key(#[trigger] facts_view(acc@)[i], fact_view(*f)),
        decreases acc@.len() - j,
    {
        let e = &acc[j];
        if crate::maven_usage::same_text(&e.group, &f.group) && crate::maven_usage::same_text(
            &e.artifact,
            &f.artifact,
        ) && crate::maven_usage::same_text(&e.artifact_type, &f.artifact_type)
            && crate::maven_usage::same_text(&e.classifier, &f.classifier) {
            assert(same_key(facts_view(acc@)[j as int], fact_view(*f)));
            return true;
        }
        j = j + 1;
    }
    false
}

/// The dependencies that the effective project element `p` declares.
fn declared_exec(nodes: &Vec<XmlNode>, p: usize) -> (res: Result<Vec<DependencyFact>, MavenError>)
    ensures
        match declared_of(nodes@, p as int) {
            Ok(v) => res matches Ok(r) && facts_view(r@) == v,
            Err(e) => res is Err && res->Err_0 == e,
        },
{
    proof {
        reveal_strlit("");
        assert(""@ =~= seq![]);
    }
    let d = match single_child_exec(nodes, p, "dependencies") {
        Err(e) => return Err(e),
        Ok(None) => {
            let empty: Vec<DependencyFact> = Vec::new();
            assert(facts_view(empty@) =~= seq![]);
            return Ok(empty);
        },
        Ok(Some(d)) => d,
    };
    let ds = crate::compatibility::children_exec(nodes, d, "");
    let ghost all = crate::compatibility::indices(ds@);
    let mut acc: Vec<DependencyFact> = Vec::new();
    let mut i: usize = 0;
    assert(all.skip(0) =~= all);
    assert(facts_view(acc@) =~= seq![]);
    while i < ds.len()
        invariant
            0 <= i <= ds@.len(),
            all == crate::compatibility::indices(ds@),
            all == children(nodes@, d as int, seq![]),
            single_child(nodes@, p as int, "dependencies"@) == Ok::<Option<int>, MavenError>(Some(d as int)),
            forall|q: int| 0 <= q < ds@.len() ==> ds@[q] < nodes@.len(),
            declared_scan(nodes@, all, seq![]) == declared_scan(nodes@, all.skip(i as int), facts_view(acc@)),
        decreases ds@.len() - i,
    {
        assert(all.skip(i as int)[0] == ds@[i as int] as int);
        assert(all.skip(i as int).drop_first() =~= all.skip(i + 1));
        if !crate::xml::is_tag(&nodes[ds[i]], "dependency") {
            return Err(MavenError::UnexpectedDependency);
        }
        let f = match declared_fact_exec(nodes, ds[i]) {
            Err(e) => return Err(e),
            Ok(f) => f,
        };
        if has_key(&acc, &f) {
            return Err(MavenError::DuplicateDependency);
        }
        let ghost before = facts_view(acc@);
        acc.push(f);
        assert(facts_view(acc@) =~= before.push(fact_view(f)));
        i = i + 1;
    }
    assert(all.skip(i as int) =~= seq![]);
    Ok(acc)
}

/// The repository path of an absolute source root inside the module `root`.
fn source_path_exec(value: &Vec<char>, workspace: &str, root: &String) -> (res: Result<String, MavenError>)
    ensures
        match source_path(value@, workspace@, root@) {
            Ok(p) => res matches Ok(r) && r@ == p,
            Err(e) => res is Err && res->Err_0 == e,
        },
{
    if !(value.len() > 0 && value[0] == '/') {
        return Err(MavenError::RelativeSourceRoot);
    }
    let text = crate::text::string_of(value);
    let p = match crate::paths::repository_path_exec(text.as_str(), workspace) {
        Err(e) => return Err(MavenError::SourceOutsideWorkspace(e)),
        Ok(p) => p,
    };
    let pc = crate::text::chars_of(p.as_str());
    let rc = crate::text::chars_of(root.as_str());
    let inside = crate::text::text_is(&rc, ".") || (crate::text::starts_with_text(&pc, root.as_str())
        && pc.len() > rc.len() && pc[rc.len()] == '/');
    if pc.len() == 0 || !inside {
        return Err(MavenError::SourceOutsideModule);
    }
    Ok(p)
}

} // verus!

verus! {

/// The tree nodes on a stack, with their depths.
pub open spec fn stack_view(s: Seq<(&DependencyTree, usize)>) -> Seq<(DependencyTree, int)> {
    s.map_values(|e: (&DependencyTree, usize)| (*e.0, e.1 as int))
}

/// Whether a tree node's optional flag is `true` or `false`.
fn valid_optional_exec(t: &DependencyTree) -> (res: bool)
    ensures
        res == valid_optional(*t),
{
    let o = crate::text::chars_of(t.optional.as_str());
    crate::text::text_is(&o, "true") || crate::text::text_is(&o, "false")
}

/// The dependency that a tree node names.
fn tree_fact_exec(t: &DependencyTree) -> (res: DependencyFact)
    ensures
        fact_view(res) == tree_fact(*t),
{
    DependencyFact {
        group: t.group_id.clone(),
        artifact: t.artifact_id.clone(),
        artifact_type: t.artifact_type.clone(),
        classifier: t.classifier.clone(),
        version: t.version.clone(),
        scope: t.scope.clone(),
    }
}

/// Push the children of `t`, one level below `depth`, onto `stack`.
fn push_children<'a>(stack: &mut Vec<(&'a DependencyTree, usize)>, t: &'a DependencyTree, depth: usize)
    requires
        depth < usize::MAX,
    ensures
        stack_view(final(stack)@) == stack_view(old(stack)@) + deeper(*t, depth as int),
{
    let ghost base = stack_view(stack@);
    let mut i: usize = 0;
    assert(deeper(*t, depth as int).take(0) =~= seq![]);
    assert(stack_view(stack@) =~= base + deeper(*t, depth as int).take(0));
    while i < t.children.len()
        invariant
            0 <= i <= t.children@.len(),
            depth < usize::MAX,
            stack_view(stack@) == base + deeper(*t, depth as int).take(i as int),
        decreases t.children@.len() - i,
    {
        let ghost before = stack@;
        stack.push((&t.children[i], depth + 1));
        assert(stack_view(stack@) =~= stack_view(before).push((t.children@[i as int], depth + 1)));
        assert(deeper(*t, depth as int).take(i + 1) =~= deeper(*t, depth as int).take(i as int).push(
            (t.children@[i as int], depth + 1),
        ));
        i = i + 1;
    }
    assert(deeper(*t, depth as int).take(i as int) =~= deeper(*t, depth as int));
}

/// Whether `a` and `b` hold the same dependencies.
fn same_members_exec(a: &Vec<DependencyFact>, b: &Vec<DependencyFact>) -> (res: bool)
    ensures
        res == same_members(facts_view(a@), facts_view(b@)),
{
    let mut i: usize = 0;
    while i < a.len()
        invariant
            0 <= i <= a@.len(),
            forall|q: int| 0 <= q < i ==> facts_view(b@).contains(#[trigger] facts_view(a@)[q]),
        decreases a@.len() - i,
    {
        if !crate::maven_usage::has_fact(b, &a[i]) {
            assert(!facts_view(b@).contains(facts_view(a@)[i as int]));
            return false;
        }
        i = i + 1;
    }
    let mut j: usize = 0;
    while j < b.len()
        invariant
            0 <= j <= b@.len(),
            forall|q: int| 0 <= q < a@.len() ==> facts_view(b@).contains(#[trigger] facts_view(a@)[q]),
            forall|q: int| 0 <= q < j ==> facts_view(a@).contains(#[trigger] facts_view(b@)[q]),
        decreases b@.len() - j,
    {
        if !crate::maven_usage::has_fact(a, &b[j]) {
            assert(!facts_view(a@).contains(facts_view(b@)[j as int]));
            return false;
        }
        j = j + 1;
    }
    true
}

/// The resolved dependencies of the tree of the project `group:artifact:version`.
fn tree_exec(
    tree: &DependencyTree,
    group: &Vec<char>,
    artifact: &Vec<char>,
    version: &Vec<char>,
    declared: &Vec<DependencyFact>,
) -> (res: Result<Vec<DependencyFact>, MavenError>)
    ensures
        match tree_outcome(*tree, group@, artifact@, version@, facts_view(declared@)) {
            Ok(r) => res matches Ok(v) && facts_view(v@) == r,
            Err(e) => res is Err && res->Err_0 == e,
        },
{
    let scope = crate::text::chars_of(tree.scope.as_str());
    if !crate::text::chars_equal(&crate::text::chars_of(tree.group_id.as_str()), group)
        || !crate::text::chars_equal(&crate::text::chars_of(tree.artifact_id.as_str()), artifact)
        || !crate::text::chars_equal(&crate::text::chars_of(tree.version.as_str()), version)
        || scope.len() != 0 {
        return Err(MavenError::ForeignTree);
    }
    if !valid_optional_exec(tree) {
        return Err(MavenError::InvalidOptional);
    }
    let mut stack: Vec<(&DependencyTree, usize)> = Vec::new();
    assert(stack_view(stack@) =~= seq![]);
    push_children(&mut stack, tree, 0);
    assert(seq![] + deeper(*tree, 0) =~= deeper(*tree, 0));
    let mut resolved: Vec<DependencyFact> = Vec::new();
    let mut direct: Vec<DependencyFact> = Vec::new();
    let ghost start = walk(deeper(*tree, 0), seq![], seq![]);
    assert(facts_view(resolved@) =~= seq![]);
    assert(facts_view(direct@) =~= seq![]);
    while stack.len() > 0
        invariant
            tree.group_id@ == group@ && tree.artifact_id@ == artifact@ && tree.version@ == version@
                && tree.scope@.len() == 0 && valid_optional(*tree),
            start == walk(deeper(*tree, 0), seq![], seq![]),
            start == walk(stack_view(stack@), facts_view(resolved@), facts_view(direct@)),
            resolved@.len() <= MAX_RESOLVED + 1,
        decreases MAX_RESOLVED + 1 - resolved@.len(),
    {
        let ghost before = stack_view(stack@);
        let (node, depth) = match stack.pop() {
            Some(e) => e,
            None => return Err(MavenError::TreeTooLarge),
        };
        assert(before.last() == (*node, depth as int));
        assert(before.drop_last() =~= stack_view(stack@));
        if depth > MAX_TREE_DEPTH || resolved.len() > MAX_RESOLVED {
            return Err(MavenError::TreeTooLarge);
        }
        if !valid_optional_exec(node) {
            return Err(MavenError::InvalidOptional);
        }
        let fact = tree_fact_exec(node);
        if let Some(e) = coordinate_error_exec(&fact) {
            return Err(e);
        }
        if depth == 1 {
            let ghost d0 = facts_view(direct@);
            direct.push(tree_fact_exec(node));
            assert(facts_view(direct@) =~= d0.push(tree_fact(*node)));
        }
        let ghost r0 = facts_view(resolved@);
        resolved.push(fact);
        assert(facts_view(resolved@) =~= r0.push(tree_fact(*node)));
        push_children(&mut stack, node, depth);
    }
    assert(stack_view(stack@) =~= seq![]);
    if !same_members_exec(&direct, declared) {
        return Err(MavenError::TreeMismatch);
    }
    Ok(resolved)
}

/// Read the Maven facts of `project`: its effective model `model` (as `mvn
/// help:effective-pom` writes it) and dependency tree `tree`, cross-checked
/// with the manifest captured in `snapshot` and with the absolute `workspace`
/// the build ran in. Success needs one Maven 4.0.0 project whose artifact is the
/// manifest's, absolute source roots inside the module, distinct declarations
/// with resolved coordinates, and a complete tree of this project whose direct
/// dependencies are exactly the declared ones.
pub fn parse(
    project: &MavenProject,
    model: &[u8],
    tree: &DependencyTree,
    workspace: &str,
    snapshot: &crate::rules::Snapshot,
    producer: &str,
) -> (res: Result<ProjectFacts, MavenError>)
    ensures
        match maven_outcome(*project, model@, *tree, workspace@, snapshot.files@, snapshot.content_digest@, producer@) {
            Ok(v) => res matches Ok(f) && maven_facts_view(f) == Some(v),
            Err(e) => res is Err && res->Err_0 == e,
        },
{
    if model.len() > crate::reports::MAX_REPORT_BYTES {
        return Err(MavenError::TooLarge);
    }
    let rc = crate::text::chars_of(project.root.as_str());
    let mut manifest_chars: Vec<char> = if crate::text::text_is(&rc, ".") {
        crate::text::chars_of("pom.xml")
    } else {
        let mut m = rc.clone();
        crate::text::extend_chars(&mut m, &crate::text::chars_of("/pom.xml"));
        m
    };
    let manifest = crate::text::string_of(&manifest_chars);
    assert(manifest@ == manifest_path(project.root@));
    let input = match crate::markers::file_at_path(&snapshot.files, manifest.as_str()) {
        None => return Err(MavenError::MissingManifest),
        Some(f) => f,
    };
    let inodes = match xml_nodes(input.bytes.as_slice()) {
        None => return Err(MavenError::InvalidManifest),
        Some(n) => n,
    };
    let nodes = match xml_nodes(model) {
        None => return Err(MavenError::InvalidModel),
        Some(n) => n,
    };
    let p = match crate::xml::find_root_element(&nodes) {
        None => return Err(MavenError::InvalidModel),
        Some(p) => p,
    };
    if !crate::xml::is_tag(&nodes[p], "project") {
        return Err(MavenError::NotEffectiveProject);
    }
    let model_version = model_text_exec(&nodes, p, "modelVersion")?;
    if !crate::text::text_is(&model_version, "4.0.0") {
        return Err(MavenError::NotEffectiveProject);
    }
    let group = model_text_exec(&nodes, p, "groupId")?;
    let artifact = model_text_exec(&nodes, p, "artifactId")?;
    let version = model_text_exec(&nodes, p, "version")?;
    let ir = match crate::xml::find_root_element(&inodes) {
        None => return Err(MavenError::InvalidManifest),
        Some(r) => r,
    };
    let own = model_text_exec(&inodes, ir, "artifactId")?;
    if !crate::text::chars_equal(&own, &artifact) {
        return Err(MavenError::ForeignManifest);
    }
    let b = match single_child_exec(&nodes, p, "build")? {
        None => return Err(MavenError::MissingBuild),
        Some(b) => b,
    };
    let main_dir = model_text_exec(&nodes, b, "sourceDirectory")?;
    let main = source_path_exec(&main_dir, workspace, &project.root)?;
    let test_dir = model_text_exec(&nodes, b, "testSourceDirectory")?;
    let test = source_path_exec(&test_dir, workspace, &project.root)?;
    if crate::maven_usage::same_text(&main, &test) {
        return Err(MavenError::AmbiguousSourceRoots);
    }
    let declared = declared_exec(&nodes, p)?;
    let resolved = tree_exec(tree, &group, &artifact, &version, &declared)?;
    let mut coordinate = group.clone();
    coordinate.push(':');
    crate::text::extend_chars(&mut coordinate, &artifact);
    coordinate.push(':');
    crate::text::extend_chars(&mut coordinate, &version);
    proof {
        reveal_strlit(":");
        assert(coordinate@ =~= group@ + ":"@ + artifact@ + ":"@ + version@);
    }
    Ok(
        ProjectFacts {
            schema_version: 1,
            ecosystem: "maven".to_owned(),
            root: project.root.clone(),
            manifest,
            coordinate: crate::text::string_of(&coordinate),
            source_root: main,
            test_source_root: test,
            declared,
            resolved,
            dependency_usage: None,
            producer_check: producer.to_owned(),
            snapshot_digest: snapshot.content_digest.clone(),
        },
    )
}

} // verus!

verus! {

/// No two dependencies of `s` share group, artifact, type and classifier.
pub open spec fn distinct_keys(s: Seq<FactView>) -> bool {
    forall|i: int, j: int| 0 <= i < j < s.len() ==> !same_key(#[trigger] s[i], #[trigger] s[j])
}

/// The declarations scanned after distinct ones stay distinct.
proof fn lemma_declared_distinct(nodes: Seq<XmlNode>, ds: Seq<int>, acc: Seq<FactView>)
    requires
        distinct_keys(acc),
    ensures
        declared_scan(nodes, ds, acc) matches Ok(v) ==> distinct_keys(v),
    decreases ds.len(),
{
    if ds.len() > 0 && has_tag(nodes[ds[0]], "dependency"@) {
        if let Ok(f) = declared_fact(nodes, ds[0]) {
            if !(exists|i: int| 0 <= i < acc.len() && same_key(#[trigger] acc[i], f)) {
                let next = acc.push(f);
                assert forall|i: int, j: int| 0 <= i < j < next.len() implies !same_key(#[trigger] next[i], #[trigger] next[j]) by {
                    if j == acc.len() {
                        assert(next[i] == acc[i]);
                        assert(!same_key(acc[i], f));
                    } else {
                        assert(next[i] == acc[i] && next[j] == acc[j]);
                    }
                }
                lemma_declared_distinct(nodes, ds.drop_first(), next);
            }
        }
    }
}

/// The declared dependencies of Maven project facts are distinct by group,
/// artifact, type and classifier.
pub proof fn declared_dependencies_distinct(
    project: MavenProject,
    model: Seq<u8>,
    tree: DependencyTree,
    workspace: Seq<char>,
    files: Seq<(String, crate::provenance::File)>,
    digest: Seq<char>,
    producer: Seq<char>,
)
    requires
        maven_outcome(project, model, tree, workspace, files, digest, producer) is Ok,
    ensures
        distinct_keys(maven_outcome(project, model, tree, workspace, files, digest, producer)->Ok_0.declared),
{
    let nodes = xml_document(model)->0;
    let p = crate::xml::root_element(nodes)->0;
    if let Ok(Some(d)) = single_child(nodes, p, "dependencies"@) {
        lemma_declared_distinct(nodes, children(nodes, d, seq![]), seq![]);
    }
}

} // verus!
