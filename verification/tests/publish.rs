use jbx::publish::{
    github_repo_slug, is_java_fqn, parse_gav_directive, render_maven_metadata, render_pom,
    render_pom_dependencies, render_pom_developers, render_pom_licenses, render_pom_scm,
    url_encode, validate_coordinate_part, validate_group, validate_package_name,
    validate_path_safe_coordinate_part, xml_escape, PublishCoordinates, PublishDescriptor,
    PublishDeveloper, PublishError, PublishLicense, PublishScm,
};
use std::path::PathBuf;

fn descriptor() -> PublishDescriptor {
    PublishDescriptor {
        script: PathBuf::from("Hello.java"),
        descriptor_dir: PathBuf::from("."),
        coordinates: PublishCoordinates { group: "org.example".into(), id: "hello".into(), version: "1.0".into() },
        package_name: None,
        name: None,
        description: Some("Says <hello> & more".into()),
        url: None,
        licenses: vec![],
        developers: vec![],
        scm: None,
        java_version: None,
        deps: vec!["org.slf4j:slf4j-api:2.0.13".into(), "not a coordinate".into()],
        sources: vec![],
        auto_discover_sources: false,
        repos: vec![],
    }
}

#[test]
fn xml_and_url_escaping() {
    assert_eq!(xml_escape("a<b>&\"c'"), "a&lt;b&gt;&amp;&quot;c&apos;");
    assert_eq!(xml_escape("&amp;"), "&amp;amp;");
    assert_eq!(url_encode("a b/c~"), "a%20b%2Fc~");
}

#[test]
fn gav_directives_need_three_parts() {
    let c = parse_gav_directive("org.example:hello:1.0").unwrap();
    assert_eq!((c.group.as_str(), c.id.as_str(), c.version.as_str()), ("org.example", "hello", "1.0"));
    assert!(matches!(parse_gav_directive("a:b"), Err(PublishError::BadGav(_))));
    assert!(matches!(parse_gav_directive("a:b:c:d"), Err(PublishError::BadGav(_))));
}

#[test]
fn github_slugs() {
    assert_eq!(github_repo_slug("git@github.com:owner/repo.git").as_deref(), Some("owner/repo"));
    assert_eq!(github_repo_slug("https://github.com/owner/repo").as_deref(), Some("owner/repo"));
    assert_eq!(github_repo_slug("https://gitlab.com/owner/repo.git"), None);
}

#[test]
fn coordinate_validation() {
    assert!(validate_coordinate_part("my-app_1.0", "id").is_ok());
    assert!(matches!(validate_coordinate_part("", "id"), Err(PublishError::InvalidPart(n, _)) if n == "id"));
    assert!(validate_coordinate_part("a b", "id").is_err());
    assert!(validate_path_safe_coordinate_part("x", "id").is_ok());
    assert!(validate_path_safe_coordinate_part("..", "id").is_err());
    assert!(validate_group("org.example").is_ok());
    assert!(validate_group("org..example").is_err());
    assert!(validate_group(".org").is_err());
    assert!(validate_package_name("com.example.app").is_ok());
    assert!(validate_package_name("com.1bad").is_err());
    assert!(is_java_fqn("com.example.Main"));
    assert!(!is_java_fqn("Main"));
    assert!(!is_java_fqn("com..Main"));
}

#[test]
fn pom_sections() {
    assert_eq!(render_pom_licenses(&[]), "");
    assert_eq!(
        render_pom_licenses(&[PublishLicense { name: "MIT".into(), url: "https://mit".into() }]),
        "\n  <licenses>\n    <license>\n      <name>MIT</name>\n      <url>https://mit</url>\n    </license>\n  </licenses>"
    );
    assert_eq!(
        render_pom_developers(&[PublishDeveloper { name: "Ann".into(), email: Some("a@x".into()), organization: None, organization_url: None }]),
        "\n  <developers>\n    <developer>\n      <name>Ann</name>\n      <email>a@x</email>\n    </developer>\n  </developers>"
    );
    assert_eq!(
        render_pom_scm(&PublishScm { connection: "scm:git:x".into(), developer_connection: None, url: "https://x".into() }),
        "\n  <scm>\n    <connection>scm:git:x</connection>\n    <url>https://x</url>\n  </scm>"
    );
    assert_eq!(render_pom_dependencies(&["bad".to_string()]), "");
    assert_eq!(
        render_pom_dependencies(&["g:a:sources:1".to_string()]),
        "\n  <dependencies>\n    <dependency>\n      <groupId>g</groupId>\n      <artifactId>a</artifactId>\n      <version>1</version>\n      <classifier>sources</classifier>\n    </dependency>\n  </dependencies>"
    );
}

#[test]
fn pom_and_metadata_documents() {
    let d = descriptor();
    let pom = render_pom(&d);
    assert!(pom.starts_with("<?xml version=\"1.0\" encoding=\"UTF-8\"?>\n<project xmlns="));
    assert!(pom.contains("\n  <groupId>org.example</groupId>\n  <artifactId>hello</artifactId>\n  <version>1.0</version>\n  <packaging>jar</packaging>\n  <name>hello</name>\n  <description>Says &lt;hello&gt; &amp; more</description>"));
    assert!(pom.contains("<artifactId>slf4j-api</artifactId>"));
    assert!(pom.ends_with("</dependencies>\n</project>\n"));
    // The document the library writes reads back with the same coordinates.
    let parsed = jbx::pom::parse_pom(&pom).unwrap();
    assert_eq!(parsed.module.org, "org.example");
    assert_eq!(parsed.module.name, "hello");
    assert_eq!(parsed.version, "1.0");
    assert_eq!(parsed.dependencies.len(), 1);
    let md = render_maven_metadata(&d, &["0.9".to_string(), "1.0".to_string()], "20240101120000");
    assert_eq!(
        md,
        "<?xml version=\"1.0\" encoding=\"UTF-8\"?>\n<metadata>\n  <groupId>org.example</groupId>\n  <artifactId>hello</artifactId>\n  <versioning>\n    <latest>1.0</latest>\n    <release>1.0</release>\n    <versions>\n      <version>0.9</version>\n      <version>1.0</version>\n    </versions>\n    <lastUpdated>20240101120000</lastUpdated>\n  </versioning>\n</metadata>\n"
    );
    let m = jbx::pom::parse_maven_metadata(&md).unwrap();
    assert_eq!(m.release.as_deref(), Some("1.0"));
    assert_eq!(m.versions, vec!["0.9", "1.0"]);
}
