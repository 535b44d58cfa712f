# kubeyamyam

A security scanner for Kubernetes manifests (static YAML only), with an
interactive terminal browser and text, JSON and SARIF reports.

The checks, the report formats and the browser's decisions are a library
verified with Verus (`src/`); YAML is parsed there by `serde_yaml`, whose
result the library names rather than describes. The command-line program
around it (`app/`) walks directories, reads files, draws the terminal
interface and serializes reports.

- `src/text.rs`: character-level text helpers (search, trim, case, decimal).
- `src/yaml.rs`: the model of a parsed YAML document, its parse, and key-path lookups.
- `src/documents.rs`: recognising manifests, quoting template values, splitting documents.
- `src/scanner.rs`: the checks (privileged containers, host paths, mutable image
  tags, missing limits, service accounts, cluster-admin bindings).
- `src/sorting.rs`: the report order of findings (a stable sort).
- `src/files.rs`: which files are manifests, and their order.
- `src/export.rs`: reports, the text rendering, SARIF, file URIs, the exit code.
- `src/browser.rs`: the interactive browser's state and key handling.
- `src/models.rs`: severities, rules, findings and summaries.
