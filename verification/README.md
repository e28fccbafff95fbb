# jbx

A command-line runner for single-file Java programs: it reads `//DEPS`,
`//JAVA` and related directives from a script, resolves Maven dependencies,
compiles and runs the script, and manages aliases, catalogs, templates,
trusted remote sources and JDKs.

## Layout

- `src/` is the library, written in Verus. Its logic is verified against
  contracts: directive parsing, Maven coordinates and
  version ordering, POM and metadata interpretation, the resolution fixpoint
  (`resolution.rs`, which asks the caller for each POM or metadata document
  it needs), catalogs, templates, the trust store, checksums, formatting and
  the plans for compiling, testing, checking and publishing.
- Calls into other crates (quick-xml, regex, serde_json, sha1/sha2/md-5,
  quick_html2md) and into std's path handling stand behind small trusted
  wrappers: Verus believes their contracts without proof, and each carries a
  doc comment saying what is claimed. `plan_path`, which lays a path plan
  onto a directory with std's path arithmetic, has no contract of its own.
- `app/` is the program: argument handling, the network and the file
  system, and the loops that feed fetched documents back to the library.
- `tests/` exercises the library on concrete values.
