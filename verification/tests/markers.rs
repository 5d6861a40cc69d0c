use qualitygate::markers::{declaration, fields, from_source, Marker, MarkerError};
use qualitygate::provenance::File;
use qualitygate::rules::Snapshot;
use qualitygate::syntax::{Comment, Entity, Range, Structure};

fn pairs(text: &str) -> Vec<(String, String)> {
    fields(text)
}

fn pair(k: &str, v: &str) -> (String, String) {
    (k.to_string(), v.to_string())
}

#[test]
fn quoted_descriptions_cannot_masquerade_as_fields() {
    assert_eq!(
        pairs("owner=alice description='owner=somebody'"),
        vec![pair("description", "owner=somebody"), pair("owner", "alice")]
    );
    assert_eq!(
        pairs("MARK: owner=alice, scope=tests"),
        vec![pair("MARK", "owner=alice"), pair("scope", "tests")]
    );
    assert_eq!(pairs("\"owner: eve\" approver = bob"), vec![pair("approver", "bob")]);
}

#[test]
fn repeated_fields_are_ambiguous_and_values_stop_at_delimiters() {
    assert_eq!(pairs("owner: a; owner: b"), vec![pair("owner", "")]);
    assert_eq!(
        pairs("task-id=Q-1) model.name : \"  gpt  \" end"),
        vec![pair("model.name", "gpt"), pair("task-id", "Q-1")]
    );
    assert_eq!(pairs("dangling ="), vec![]);
    assert_eq!(pairs("open = 'never closed"), vec![pair("open", "")]);
    assert_eq!(pairs("esc = 'it\\'s' next: 2"), vec![pair("esc", "it\\'s"), pair("next", "2")]);
    assert_eq!(pairs("1st: x _hidden: y"), vec![pair("_hidden", "y"), pair("st", "x")]);
}

fn entity(start: usize, annotations: Vec<(String, String)>) -> Entity {
    Entity {
        name: "checks".into(),
        symbol: "T#checks".into(),
        range: Range { start_line: start, end_line: start + 1 },
        byte_start: 0,
        byte_end: 0,
        annotations,
        body_digest: String::new(),
        shape_digest: String::new(),
    }
}

fn comment(text: &str, start: usize, end: usize) -> Comment {
    Comment { text: text.into(), range: Range { start_line: start, end_line: end } }
}

fn marker(kind: &str) -> Marker {
    Marker { kind: kind.into(), name: "MARK".into(), fields: vec!["owner".into()] }
}

#[test]
fn comment_markers_bind_only_adjacent_comments() {
    let source = b"// unrelated\nint x;\n// MARK: owner=tool\n/* checked */\nvoid checks() {}\n";
    let view = Structure {
        language: "java".into(),
        tests: vec![],
        comments: vec![comment("// unrelated", 1, 1), comment("// MARK: owner=tool", 3, 3), comment("/* checked */", 4, 4)],
        imports: vec![],
    };
    let found = from_source(&marker("comment"), &entity(5, vec![]), &view, source).unwrap();
    assert_eq!(found.as_deref(), Some("// MARK: owner=tool\n/* checked */"));
    let other = Marker { name: "MARKX".into(), ..marker("comment") };
    assert_eq!(from_source(&other, &entity(5, vec![]), &view, source).unwrap(), None);
    let annotated = entity(5, vec![("MARK".into(), "@MARK(owner=\"bot\")".into())]);
    assert_eq!(
        from_source(&marker("annotation"), &annotated, &view, source).unwrap().as_deref(),
        Some("@MARK(owner=\"bot\")")
    );
    assert_eq!(from_source(&marker("annotation"), &entity(5, vec![]), &view, source).unwrap(), None);
    assert_eq!(
        from_source(&marker("git_trailer"), &entity(5, vec![]), &view, source).unwrap_err(),
        MarkerError::TrailerNeedsProvenance
    );
    assert_eq!(
        from_source(&marker("other"), &entity(5, vec![]), &view, source).unwrap_err(),
        MarkerError::UnsupportedBinding
    );
    assert_eq!(
        from_source(&marker("comment"), &entity(5, vec![]), &view, b"\xff").unwrap_err(),
        MarkerError::NotUtf8
    );
    let snapshot = Snapshot {
        files: vec![("T.java".into(), File { bytes: source.to_vec(), executable: false })],
        base_files: vec![],
        changes: vec![],
        commits: vec![],
        content_digest: "digest".into(),
    };
    assert_eq!(
        declaration(&marker("comment"), &entity(5, vec![]), &view, "T.java", &snapshot).unwrap().as_deref(),
        Some("// MARK: owner=tool\n/* checked */")
    );
}
