use jbx::repository::{
    checksum_files, civil_from_days, http_response_head, insert_version,
    is_ignored_publish_source_dir, javadoc_arguments, maven_last_updated_timestamp,
    maven_metadata_version_list, maven_metadata_versions, maven_repository_request_path,
    maven_request_segments, publish_bundle_name, publish_file_names, publish_version_dir,
    repository_response, stage_publish_source, verify_sha1_text, RepositoryResponse, Sha1Error,
};
use jbx::publish::PublishError;
use std::path::{Path, PathBuf};

fn strings(v: &[&str]) -> Vec<String> {
    v.iter().map(|s| s.to_string()).collect()
}

#[test]
fn request_targets_name_files() {
    assert_eq!(maven_request_segments("/org/acme/lib/1.0/lib-1.0.pom?x=1"), Some(strings(&["org", "acme", "lib", "1.0", "lib-1.0.pom"])));
    assert_eq!(maven_request_segments("//a/b"), Some(strings(&["a", "b"])));
    assert_eq!(maven_request_segments("/"), None);
    assert_eq!(maven_request_segments("/a/../b"), None);
    assert_eq!(maven_request_segments("/a//b"), None);
    assert_eq!(maven_request_segments("/a\\b"), None);
    assert_eq!(maven_repository_request_path(Path::new("/repo"), "/a/b.jar"), Some(PathBuf::from("/repo/a/b.jar")));
    assert_eq!(maven_repository_request_path(Path::new("/repo"), "/./b.jar"), None);
}

#[test]
fn requests_are_answered() {
    assert!(matches!(repository_response("POST /a HTTP/1.1\r\n"), RepositoryResponse::MethodNotAllowed));
    assert!(matches!(repository_response(""), RepositoryResponse::MethodNotAllowed));
    assert!(matches!(repository_response("GET / HTTP/1.1\r\n"), RepositoryResponse::NotFound));
    assert!(matches!(repository_response("GET"), RepositoryResponse::NotFound));
    match repository_response("HEAD /a/b.pom HTTP/1.1\r\n") {
        RepositoryResponse::Serve { segments, head_only } => {
            assert_eq!(segments, strings(&["a", "b.pom"]));
            assert!(head_only);
        }
        other => panic!("unexpected {:?}", other),
    }
    assert_eq!(http_response_head(404, "Not Found", 0), "HTTP/1.1 404 Not Found\r\nContent-Length: 0\r\nConnection: close\r\n\r\n");
}

#[test]
fn civil_dates() {
    assert_eq!(civil_from_days(0), (1970, 1, 1));
    assert_eq!(civil_from_days(19723), (2024, 1, 1));
    assert_eq!(civil_from_days(-1), (1969, 12, 31));
    assert_eq!(civil_from_days(11016), (2000, 2, 29));
    assert_eq!(civil_from_days(-719468), (0, 3, 1));
    assert_eq!(maven_last_updated_timestamp(1_700_000_000), "20231114221320");
    assert_eq!(maven_last_updated_timestamp(0), "19700101000000");
}

#[test]
fn metadata_versions_are_a_sorted_set() {
    let text = "<versions>\n<version> 1.1 </version>\n<version>1.0</version>\n<version></version>\n<version>1.1</version>\n<version>2.0";
    assert_eq!(maven_metadata_version_list(text), strings(&["1.1", "1.0", "1.1"]));
    assert_eq!(maven_metadata_versions(text), strings(&["1.0", "1.1"]));
    let mut v = strings(&["1.0", "1.2"]);
    insert_version(&mut v, "1.1");
    insert_version(&mut v, "1.2");
    insert_version(&mut v, "0.9");
    insert_version(&mut v, "3");
    assert_eq!(v, strings(&["0.9", "1.0", "1.1", "1.2", "3"]));
}

#[test]
fn checksums_and_download_checks() {
    let files = checksum_files("lib-1.0.pom", b"hello");
    assert_eq!(files[0], ("lib-1.0.pom.md5".to_string(), "5d41402abc4b2a76b9719d911017c592".to_string()));
    assert_eq!(files[1], ("lib-1.0.pom.sha1".to_string(), "aaf4c61ddcc5e8a2dabede0f3b482cd9aea9434d".to_string()));
    assert_eq!(files[2].1, "2cf24dba5fb0a30e26e83b2ac5b9e29e1b161e5c1fa7425e73043362938b9824");
    assert_eq!(files[3].0, "lib-1.0.pom.sha512");
    assert_eq!(files[3].1, "9b71d224bd62f3785d96d46ad3ea3d73319bfbc2890caadae2dff72519673ca72323c3d99ba5c11d7c7acc6e14b8c5da0c4663475c2e5c3adef46f73bcdec043");
    assert!(verify_sha1_text(b"hello", "aaf4c61ddcc5e8a2dabede0f3b482cd9aea9434d  lib.jar\n").is_ok());
    assert!(matches!(verify_sha1_text(b"hello", ""), Err(Sha1Error::EmptyResponse)));
    assert!(matches!(verify_sha1_text(b"hullo", "aaf4c61ddcc5e8a2dabede0f3b482cd9aea9434d"), Err(Sha1Error::Mismatch(e, _)) if e == "aaf4c61ddcc5e8a2dabede0f3b482cd9aea9434d"));
}

#[test]
fn publish_layout() {
    assert_eq!(publish_version_dir("org.acme", "lib", "1.0"), "org/acme/lib/1.0");
    assert_eq!(publish_file_names("lib", "1.0"), strings(&["lib-1.0.jar", "lib-1.0-sources.jar", "lib-1.0-javadoc.jar", "lib-1.0.pom", "lib-1.0-jbx-docs.md", "lib-1.0-jbx-docs.json"]));
    assert_eq!(publish_bundle_name("lib", "1.0"), "lib-1.0-central-bundle.zip");
    assert!(is_ignored_publish_source_dir(".git") && is_ignored_publish_source_dir("out"));
    assert!(!is_ignored_publish_source_dir("src"));
    assert_eq!(javadoc_arguments("/d", "/s", Some("a.jar".into()), &strings(&["A.java"])), strings(&["-quiet", "-d", "/d", "-sourcepath", "/s", "-classpath", "a.jar", "A.java"]));
}

#[test]
fn sources_are_staged_in_packages() {
    let (p, t) = stage_publish_source("package org.x;\nclass A {}\n", &None, "org.acme", "my-lib").unwrap();
    assert_eq!(p.as_deref(), Some("org.x"));
    assert_eq!(t, "package org.x;\nclass A {}\n");
    let (p, t) = stage_publish_source("public class A {}\n", &None, "org.acme", "my-lib").unwrap();
    assert_eq!(p.as_deref(), Some("org.acme.mylib"));
    assert_eq!(t, "package org.acme.mylib;\n\npublic class A {}\n");
    let (p, _) = stage_publish_source("void main() {}\n", &None, "org.acme", "lib").unwrap();
    assert_eq!(p, None);
    assert!(matches!(stage_publish_source("public class A {}\n", &Some("1bad".into()), "g", "a"), Err(PublishError::InvalidPackage(x)) if x == "1bad"));
}

#[test]
fn local_caches_are_probed_at_their_layouts() {
    let (maven, gradle, coursier) = jbx::repository::local_cache_paths("org.slf4j", "slf4j-api", "2.0.13", "slf4j-api-2.0.13.jar");
    assert_eq!(maven, ".m2/repository/org/slf4j/slf4j-api/2.0.13/slf4j-api-2.0.13.jar");
    assert_eq!(gradle, ".gradle/caches/modules-2/files-2.1/org.slf4j/slf4j-api/2.0.13");
    assert_eq!(coursier, ".cache/coursier/v1/https/repo1.maven.org/maven2/org/slf4j/slf4j-api/2.0.13/slf4j-api-2.0.13.jar");
}
