use jbx::pom::parse_pom;
use jbx::resolution::{resolve, Knowledge, MetadataEntry, PomEntry, Query, ResolveStep};
use jbx::resolver::{MavenMetadata, Module, ResolveError};
use jbx::version::pick_higher_version;

fn pom(group: &str, artifact: &str, version: &str, deps: &[(&str, &str, &str)]) -> String {
    let mut d = String::new();
    for (g, a, v) in deps {
        d.push_str(&format!(
            "<dependency><groupId>{g}</groupId><artifactId>{a}</artifactId><version>{v}</version></dependency>"
        ));
    }
    format!(
        "<project><groupId>{group}</groupId><artifactId>{artifact}</artifactId><version>{version}</version><dependencies>{d}</dependencies></project>"
    )
}

fn module(org: &str, name: &str) -> Module {
    Module { org: org.to_string(), name: name.to_string() }
}

/// Answers queries from a fixed set of POMs and metadata until resolution
/// is done.
fn run(coords: &[&str], poms: &[(&str, &str, &str, String)], metadata: &[(&str, &str, Vec<&str>)]) -> Result<Vec<(String, String, String)>, ResolveError> {
    let coords: Vec<String> = coords.iter().map(|c| c.to_string()).collect();
    let mut know = Knowledge { poms: Vec::new(), metadata: Vec::new() };
    for _ in 0..100 {
        match resolve(&coords, &know) {
            ResolveStep::Done(r) => {
                return r.map(|arts| {
                    arts.into_iter()
                        .map(|a| (a.module.org, a.module.name, a.version))
                        .collect()
                })
            }
            ResolveStep::Need(Query::Pom(m, v)) => {
                let found = poms
                    .iter()
                    .find(|(g, a, ver, _)| *g == m.org && *a == m.name && *ver == v)
                    .map(|(_, _, _, xml)| parse_pom(xml).unwrap());
                know.poms.push(PomEntry {
                    module: m,
                    version: v,
                    pom: found.ok_or_else(|| "not found".to_string()),
                });
            }
            ResolveStep::Need(Query::Metadata(m)) => {
                let found = metadata
                    .iter()
                    .find(|(g, a, _)| *g == m.org && *a == m.name)
                    .map(|(_, _, vs)| MavenMetadata {
                        latest: None,
                        release: None,
                        versions: vs.iter().map(|v| v.to_string()).collect(),
                    });
                know.metadata.push(MetadataEntry {
                    module: m,
                    metadata: found.ok_or_else(|| "not found".to_string()),
                });
            }
        }
    }
    panic!("resolution asked too many questions");
}

#[test]
fn first_question_is_the_first_root_pom() {
    let coords = vec!["org.a:app:1.0".to_string(), "org.b:lib:2.0".to_string()];
    let know = Knowledge { poms: Vec::new(), metadata: Vec::new() };
    match resolve(&coords, &know) {
        ResolveStep::Need(Query::Pom(m, v)) => {
            assert_eq!(m, module("org.a", "app"));
            assert_eq!(v, "1.0");
        }
        other => panic!("unexpected {other:?}"),
    }
}

#[test]
fn no_coordinates_resolve_to_nothing() {
    let know = Knowledge { poms: Vec::new(), metadata: Vec::new() };
    assert!(matches!(resolve(&[], &know), ResolveStep::Done(Ok(a)) if a.is_empty()));
}

#[test]
fn invalid_coordinate_is_reported() {
    let know = Knowledge { poms: Vec::new(), metadata: Vec::new() };
    let coords = vec!["a:b:1".to_string(), "broken".to_string()];
    assert!(matches!(
        resolve(&coords, &know),
        ResolveStep::Done(Err(ResolveError::InvalidCoordinate(c))) if c == "broken"
    ));
}

#[test]
fn transitive_dependencies_are_resolved_and_sorted() {
    let poms = vec![
        ("org.z", "app", "1.0", pom("org.z", "app", "1.0", &[("org.a", "lib", "2.0")])),
        ("org.a", "lib", "2.0", pom("org.a", "lib", "2.0", &[("org.m", "util", "3.0")])),
        ("org.m", "util", "3.0", pom("org.m", "util", "3.0", &[])),
    ];
    let got = run(&["org.z:app:1.0"], &poms, &[]).unwrap();
    assert_eq!(
        got,
        vec![
            ("org.a".to_string(), "lib".to_string(), "2.0".to_string()),
            ("org.m".to_string(), "util".to_string(), "3.0".to_string()),
            ("org.z".to_string(), "app".to_string(), "1.0".to_string()),
        ]
    );
}

#[test]
fn conflicting_versions_pick_the_higher_one() {
    let poms = vec![
        ("g", "a", "1", pom("g", "a", "1", &[("g", "c", "1.0")])),
        ("g", "b", "1", pom("g", "b", "1", &[("g", "c", "2.0")])),
        ("g", "c", "1.0", pom("g", "c", "1.0", &[])),
        ("g", "c", "2.0", pom("g", "c", "2.0", &[])),
    ];
    let got = run(&["g:a:1", "g:b:1"], &poms, &[]).unwrap();
    assert!(got.contains(&("g".to_string(), "c".to_string(), "2.0".to_string())));
    assert_eq!(got.len(), 3);
}

#[test]
fn version_ranges_use_metadata() {
    let poms = vec![
        ("g", "a", "1", pom("g", "a", "1", &[("g", "r", "[1.0,2.0)")])),
        ("g", "r", "1.5", pom("g", "r", "1.5", &[])),
    ];
    let got = run(&["g:a:1"], &poms, &[("g", "r", vec!["0.9", "1.0", "1.5", "2.0"])]).unwrap();
    assert!(got.contains(&("g".to_string(), "r".to_string(), "1.5".to_string())));
}

#[test]
fn a_missing_pom_is_a_fetch_error() {
    let got = run(&["g:missing:1"], &[], &[]);
    assert!(matches!(got, Err(ResolveError::Fetch(_))));
}

#[test]
fn a_module_reached_again_keeps_the_higher_version() {
    let m = jbx::resolver::Module { org: "g".to_string(), name: "a".to_string() };
    let other = jbx::resolver::Module { org: "g".to_string(), name: "b".to_string() };
    let mut resolved: Vec<jbx::resolution::ResolvedArtifact> = Vec::new();
    assert_eq!(jbx::resolution::record_request(&mut resolved, &m, "1.0".to_string(), None), "1.0");
    assert_eq!(jbx::resolution::record_request(&mut resolved, &other, "3.0".to_string(), None), "3.0");
    assert_eq!(jbx::resolution::record_request(&mut resolved, &m, "2.0".to_string(), None), "2.0");
    assert_eq!(jbx::resolution::record_request(&mut resolved, &m, "1.5".to_string(), None), "2.0");
    assert_eq!(resolved.len(), 2);
    assert_eq!(resolved[0].version, "2.0");
    assert_eq!(resolved[1].version, "3.0");
}

#[test]
fn the_higher_version_wins_in_either_order() {
    for (a, b) in [("1.2", "1.10"), ("2.0", "2.0-beta"), ("1.0", "1.0.1"), ("3", "2.9.9")] {
        assert_eq!(pick_higher_version(a, b), pick_higher_version(b, a));
    }
    assert_eq!(pick_higher_version("1.2", "1.10"), "1.10");
    assert_eq!(pick_higher_version("1.0", "1.00"), "1.0");
    assert_eq!(pick_higher_version("1.00", "1.0"), "1.00");
}

fn pom_with_parent(artifact: &str, parent: &str) -> String {
    format!(
        "<project><parent><groupId>g</groupId><artifactId>{parent}</artifactId><version>1</version></parent><groupId>g</groupId><artifactId>{artifact}</artifactId><version>1</version></project>"
    )
}

#[test]
fn a_cycle_of_parents_fails() {
    let poms = vec![
        ("g", "app", "1", pom_with_parent("app", "p1")),
        ("g", "p1", "1", pom_with_parent("p1", "p2")),
        ("g", "p2", "1", pom_with_parent("p2", "p1")),
    ];
    match run(&["g:app:1"], &poms, &[]) {
        Err(ResolveError::CircularParent(m, v)) => {
            assert_eq!(m, module("g", "p1"));
            assert_eq!(v, "1");
        }
        other => panic!("unexpected {other:?}"),
    }
}

#[test]
fn a_chain_of_parents_resolves() {
    let poms = vec![
        ("g", "app", "1", pom_with_parent("app", "p1")),
        ("g", "p1", "1", pom_with_parent("p1", "p2")),
        ("g", "p2", "1", pom("g", "p2", "1", &[])),
    ];
    assert_eq!(run(&["g:app:1"], &poms, &[]).unwrap(), vec![("g".to_string(), "app".to_string(), "1".to_string())]);
}
