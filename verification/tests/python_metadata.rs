use qualitygate::python_metadata::{parse, MetadataError};

const METADATA: &str = "Metadata-Version: 2.1\nName: requests\nVersion: 2.31.0\nRequires-Python: >=3.7\nRequires-Dist: idna (<4,>=2.5)\nRequires-Dist: PySocks (!=1.5.7,>=1.5.6) ; extra == 'socks'\nProvides-Extra: socks\nSummary: Python HTTP\n  for Humans.\n\nRequires-Dist: ignored-body\n";

#[test]
fn core_metadata_headers_are_read_until_the_body() {
    let m = parse(METADATA.as_bytes()).unwrap();
    assert_eq!(m.name, "requests");
    assert_eq!(m.version, "2.31.0");
    assert_eq!(m.requires_python.as_deref(), Some(">=3.7"));
    assert_eq!(
        m.requires_dist,
        vec!["idna (<4,>=2.5)".to_string(), "PySocks (!=1.5.7,>=1.5.6) ; extra == 'socks'".to_string()]
    );
    assert_eq!(m.provides_extra, vec!["socks".to_string()]);
}

#[test]
fn header_names_ignore_ascii_case_and_continuations_join_values() {
    let m = parse(b"METADATA-VERSION: 2.4\nNAME: demo\n\tpackage\nversion:   1.0  \n").unwrap();
    assert_eq!(m.name, "demo package");
    assert_eq!(m.version, "1.0");
    assert_eq!(m.requires_python, None);
    assert!(m.requires_dist.is_empty());
}

#[test]
fn ambiguous_or_incomplete_metadata_is_refused() {
    let err = |text: &[u8]| parse(text).unwrap_err();
    assert_eq!(err(b"\xff"), MetadataError::NotUtf8);
    assert_eq!(err(b" leading continuation\n"), MetadataError::ContinuationWithoutHeader);
    assert_eq!(err(b"Metadata-Version 2.1\n"), MetadataError::MalformedHeader);
    assert_eq!(err(b"Name: a\nVersion: 1\n"), MetadataError::MissingMetadataVersion);
    assert_eq!(err(b"Metadata-Version: 3.0\nName: a\nVersion: 1\n"), MetadataError::UnsupportedVersion);
    assert_eq!(err(b"Metadata-Version: 2.1\nVersion: 1\n"), MetadataError::MissingName);
    assert_eq!(err(b"Metadata-Version: 2.1\nName: a\n"), MetadataError::MissingVersion);
    assert_eq!(err(b"Metadata-Version: 2.1\nName: a\nName: b\nVersion: 1\n"), MetadataError::DuplicateHeader);
    assert_eq!(
        err(b"Metadata-Version: 2.1\nName: a\nVersion: 1\nRequires-Python: >=3\nrequires-python: >=3.8\n"),
        MetadataError::DuplicateHeader
    );
}
