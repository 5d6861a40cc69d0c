# qualitygate

Evidence adapters of a repository quality gate, written in Verus. Every
function in `src/` carries a contract over plain mathematical values
(`Seq`, `Map`, `nat`) and is proved by Verus; calls into outside crates
(serde_json, roxmltree, regex, globset, zip, sha2, base64, ed25519-dalek,
url, percent-encoding) stand behind small trusted wrappers whose contracts
name what the crate computes.

Layout:

- `src/reports/`: tool reports (SARIF, JUnit, coverage, lint JSON) normalized
  into one shape.
- `src/rules.rs`, `src/file_patterns.rs`, `src/source_patterns.rs`,
  `src/shell_conventions.rs`, `src/project_rules.rs`: repository rules over a
  snapshot, each giving its diagnostics or the reason it could not run.
- `src/maven.rs`, `src/maven_usage.rs`, `src/python_metadata.rs`,
  `src/compatibility.rs`: project facts and archive inventories.
- `src/attestation.rs`, `src/policy_approval.rs`, `src/markers.rs`,
  `src/provenance.rs`, `src/paths.rs`: signed envelopes, declaration markers,
  file identities and repository paths.
- `app/`: reading files and serde copies of library types.
- `tests/`: tests on concrete values.
