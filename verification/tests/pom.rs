use jbx::pom::parse_pom;
use jbx::resolver::{extract_dependencies, Dependency, Exclusion, Module, Scope};

#[test]
fn parses_pom_basic() {
    let xml = r#"<?xml version="1.0" encoding="UTF-8"?>
<project>
  <groupId>com.example</groupId>
  <artifactId>my-app</artifactId>
  <version>1.0.0</version>
  <packaging>jar</packaging>
  <dependencies>
<dependency>
  <groupId>org.slf4j</groupId>
  <artifactId>slf4j-api</artifactId>
  <version>2.0.13</version>
</dependency>
<dependency>
  <groupId>junit</groupId>
  <artifactId>junit</artifactId>
  <version>4.13.2</version>
  <scope>test</scope>
</dependency>
  </dependencies>
</project>"#;
    let project = parse_pom(xml).unwrap();
    assert_eq!(project.module.org, "com.example");
    assert_eq!(project.module.name, "my-app");
    assert_eq!(project.version, "1.0.0");
    assert_eq!(project.packaging, "jar");
    assert_eq!(project.dependencies.len(), 2);

    // First dep: compile scope (default)
    assert_eq!(project.dependencies[0].module.org, "org.slf4j");
    assert_eq!(project.dependencies[0].scope, Scope::Compile);

    // Second dep: test scope
    assert_eq!(project.dependencies[1].module.org, "junit");
    assert_eq!(project.dependencies[1].scope, Scope::Test);
}

#[test]
fn parses_pom_with_exclusions() {
    let xml = r#"<?xml version="1.0" encoding="UTF-8"?>
<project>
  <groupId>com.example</groupId>
  <artifactId>my-app</artifactId>
  <version>1.0.0</version>
  <dependencies>
<dependency>
  <groupId>com.google</groupId>
  <artifactId>guava</artifactId>
  <version>33.0.0</version>
  <exclusions>
    <exclusion>
      <groupId>com.google</groupId>
      <artifactId>failureaccess</artifactId>
    </exclusion>
  </exclusions>
</dependency>
  </dependencies>
</project>"#;
    let project = parse_pom(xml).unwrap();
    assert_eq!(project.dependencies.len(), 1);
    assert_eq!(project.dependencies[0].exclusions.len(), 1);
    let excl = project.dependencies[0].exclusions.iter().next().unwrap();
    assert_eq!(excl.org, "com.google");
    assert_eq!(excl.name, "failureaccess");
}

#[test]
fn extracts_only_compile_and_runtime_deps() {
    let xml = r#"<?xml version="1.0" encoding="UTF-8"?>
<project>
  <groupId>com.example</groupId>
  <artifactId>my-app</artifactId>
  <version>1.0.0</version>
  <dependencies>
<dependency>
  <groupId>org.slf4j</groupId>
  <artifactId>slf4j-api</artifactId>
  <version>2.0.13</version>
</dependency>
<dependency>
  <groupId>org.slf4j</groupId>
  <artifactId>slf4j-simple</artifactId>
  <version>2.0.13</version>
  <scope>runtime</scope>
</dependency>
<dependency>
  <groupId>junit</groupId>
  <artifactId>junit</artifactId>
  <version>4.13.2</version>
  <scope>test</scope>
</dependency>
<dependency>
  <groupId>javax.servlet</groupId>
  <artifactId>javax.servlet-api</artifactId>
  <version>4.0.1</version>
  <scope>provided</scope>
</dependency>
  </dependencies>
</project>"#;
    let project = parse_pom(xml).unwrap();
    let parent_dep = Dependency {
        module: Module {
            org: "test".to_string(),
            name: "parent".to_string(),
        },
        version: "1.0".to_string(),
        scope: Scope::Compile,
        optional: false,
        exclusions: Vec::new(),
        classifier: None,
    };
    let deps = extract_dependencies(&project, &parent_dep);
    assert_eq!(deps.len(), 2);
    assert_eq!(deps[0].module.name, "slf4j-api");
    assert_eq!(deps[1].module.name, "slf4j-simple");
}

#[test]
fn skips_optional_deps() {
    let xml = r#"<?xml version="1.0" encoding="UTF-8"?>
<project>
  <groupId>com.example</groupId>
  <artifactId>my-app</artifactId>
  <version>1.0.0</version>
  <dependencies>
<dependency>
  <groupId>org.slf4j</groupId>
  <artifactId>slf4j-api</artifactId>
  <version>2.0.13</version>
</dependency>
<dependency>
  <groupId>com.google.code.findbugs</groupId>
  <artifactId>jsr305</artifactId>
  <version>3.0.2</version>
  <optional>true</optional>
</dependency>
  </dependencies>
</project>"#;
    let project = parse_pom(xml).unwrap();
    let parent_dep = Dependency {
        module: Module {
            org: "test".to_string(),
            name: "parent".to_string(),
        },
        version: "1.0".to_string(),
        scope: Scope::Compile,
        optional: false,
        exclusions: Vec::new(),
        classifier: None,
    };
    let deps = extract_dependencies(&project, &parent_dep);
    assert_eq!(deps.len(), 1);
    assert_eq!(deps[0].module.name, "slf4j-api");
}

#[test]
fn applies_exclusions_from_parent() {
    let xml = r#"<?xml version="1.0" encoding="UTF-8"?>
<project>
  <groupId>com.example</groupId>
  <artifactId>my-app</artifactId>
  <version>1.0.0</version>
  <dependencies>
<dependency>
  <groupId>com.google</groupId>
  <artifactId>failureaccess</artifactId>
  <version>1.0.2</version>
</dependency>
  </dependencies>
</project>"#;
    let project = parse_pom(xml).unwrap();
    let parent_dep = Dependency {
        module: Module {
            org: "test".to_string(),
            name: "parent".to_string(),
        },
        version: "1.0".to_string(),
        scope: Scope::Compile,
        optional: false,
        exclusions: vec![Exclusion {
            org: "com.google".to_string(),
            name: "failureaccess".to_string(),
        }],
        classifier: None,
    };
    let deps = extract_dependencies(&project, &parent_dep);
    assert!(deps.is_empty(), "excluded dep should be filtered out");
}

#[test]
fn parses_pom_with_properties() {
    let xml = r#"<?xml version="1.0" encoding="UTF-8"?>
<project>
  <groupId>com.example</groupId>
  <artifactId>my-app</artifactId>
  <version>1.0.0</version>
  <properties>
<slf4j.version>2.0.13</slf4j.version>
  </properties>
  <dependencies>
<dependency>
  <groupId>org.slf4j</groupId>
  <artifactId>slf4j-api</artifactId>
  <version>${slf4j.version}</version>
</dependency>
  </dependencies>
</project>"#;
    let project = parse_pom(xml).unwrap();
    assert_eq!(project.dependencies[0].version, "2.0.13");
}

#[test]
fn substitutes_project_parent_version_property_in_dependencies() {
    let xml = r#"<?xml version="1.0" encoding="UTF-8"?>
<project>
  <parent>
<groupId>com.example</groupId>
<artifactId>parent</artifactId>
<version>1.2.3</version>
  </parent>
  <artifactId>child</artifactId>
  <dependencies>
<dependency>
  <groupId>com.example</groupId>
  <artifactId>service</artifactId>
  <version>${project.parent.version}</version>
</dependency>
  </dependencies>
</project>"#;
    let project = parse_pom(xml).unwrap();
    assert_eq!(project.dependencies[0].version, "1.2.3");
}

#[test]
fn resolves_chained_properties() {
    // jackson.version → jackson.core.version → 2.17.0
    let xml = r#"<?xml version="1.0" encoding="UTF-8"?>
<project>
  <groupId>com.example</groupId>
  <artifactId>my-app</artifactId>
  <version>1.0.0</version>
  <properties>
<jackson.version>${jackson.core.version}</jackson.version>
<jackson.core.version>2.17.0</jackson.core.version>
  </properties>
  <dependencies>
<dependency>
  <groupId>com.fasterxml.jackson.core</groupId>
  <artifactId>jackson-databind</artifactId>
  <version>${jackson.version}</version>
</dependency>
  </dependencies>
</project>"#;
    let project = parse_pom(xml).unwrap();
    assert_eq!(project.dependencies[0].version, "2.17.0");
}

#[test]
fn parses_dependency_management() {
    let xml = r#"<?xml version="1.0" encoding="UTF-8"?>
<project>
  <groupId>com.example</groupId>
  <artifactId>my-app</artifactId>
  <version>1.0.0</version>
  <dependencyManagement>
<dependency>
  <groupId>org.slf4j</groupId>
  <artifactId>slf4j-api</artifactId>
  <version>2.0.13</version>
</dependency>
  </dependencyManagement>
  <dependencies>
<dependency>
  <groupId>org.slf4j</groupId>
  <artifactId>slf4j-api</artifactId>
  <version></version>
</dependency>
  </dependencies>
</project>"#;
    let project = parse_pom(xml).unwrap();
    assert_eq!(project.dependency_management.len(), 1);

    // Test that dependencyManagement fills empty version
    let parent_dep = Dependency {
        module: Module {
            org: "test".to_string(),
            name: "parent".to_string(),
        },
        version: "1.0".to_string(),
        scope: Scope::Compile,
        optional: false,
        exclusions: Vec::new(),
        classifier: None,
    };
    let deps = extract_dependencies(&project, &parent_dep);
    assert_eq!(deps.len(), 1);
    assert_eq!(deps[0].version, "2.0.13");
}

#[test]
fn parses_pom_with_relocation() {
    let xml = r#"<?xml version="1.0" encoding="UTF-8"?>
<project>
  <groupId>com.example</groupId>
  <artifactId>old-artifact</artifactId>
  <version>1.0.0</version>
  <distributionManagement>
<relocation>
  <groupId>com.newexample</groupId>
  <artifactId>new-artifact</artifactId>
  <version>2.0.0</version>
</relocation>
  </distributionManagement>
</project>"#;
    let project = parse_pom(xml).unwrap();
    assert!(project.relocation.is_some());
    let rel = project.relocation.unwrap();
    assert_eq!(rel.module.org, "com.newexample");
    assert_eq!(rel.module.name, "new-artifact");
    assert_eq!(rel.version, "2.0.0");
}


#[test]
fn parses_maven_metadata_versions() {
    let xml = r#"<?xml version="1.0" encoding="UTF-8"?>
<metadata>
  <groupId>org.example</groupId>
  <artifactId>lib</artifactId>
  <versioning>
    <latest>2.0.0-SNAPSHOT</latest>
    <release>1.9.0</release>
    <versions>
      <version>1.8.0</version>
      <version>1.9.0</version>
      <version>2.0.0-SNAPSHOT</version>
    </versions>
  </versioning>
</metadata>"#;
    let m = jbx::pom::parse_maven_metadata(xml).unwrap();
    assert_eq!(m.latest.as_deref(), Some("2.0.0-SNAPSHOT"));
    assert_eq!(m.release.as_deref(), Some("1.9.0"));
    assert_eq!(m.versions, vec!["1.8.0", "1.9.0", "2.0.0-SNAPSHOT"]);
    assert_eq!(
        jbx::resolver::resolve_latest_version(
            &Module { org: "org.example".into(), name: "lib".into() },
            &m
        )
        .unwrap(),
        "1.9.0"
    );
}

#[test]
fn malformed_pom_is_an_error() {
    assert!(parse_pom("<project><groupId>a</artifactId></project>").is_err());
}

#[test]
fn pom_without_packaging_defaults_to_jar_and_records_parent() {
    let xml = r#"<project>
  <parent>
    <groupId>org.parent</groupId>
    <artifactId>parent-pom</artifactId>
    <version>3</version>
  </parent>
  <artifactId>child</artifactId>
</project>"#;
    let project = parse_pom(xml).unwrap();
    assert_eq!(project.packaging, "jar");
    let (pm, pv) = project.parent.unwrap();
    assert_eq!(pm.org, "org.parent");
    assert_eq!(pm.name, "parent-pom");
    assert_eq!(pv, "3");
    assert!(project.relocation.is_none());
}

#[test]
fn plugin_dependencies_are_not_project_dependencies() {
    let xml = r#"<project>
  <groupId>g</groupId>
  <artifactId>a</artifactId>
  <version>1</version>
  <build>
    <plugins>
      <plugin>
        <dependencies>
          <dependency>
            <groupId>p</groupId>
            <artifactId>plugin-dep</artifactId>
            <version>1</version>
          </dependency>
        </dependencies>
      </plugin>
    </plugins>
  </build>
</project>"#;
    let project = parse_pom(xml).unwrap();
    assert!(project.dependencies.is_empty());
}
