use jbx::catalog::Json;
use jbx::jdk::{
    adoptium_checksum, check_jdk_archive,
    default_java_version, detect_platform, normalize_sha256, parse_java_version_directive,
    parse_major_from_java_version_output, parse_major_from_version_string, JdkError,
};

#[test]
fn test_parse_major_from_version_string() {
    assert_eq!(parse_major_from_version_string("21.0.3"), Some(21));
    assert_eq!(parse_major_from_version_string("1.8.0_432"), Some(8));
    assert_eq!(parse_major_from_version_string("17.0.11+10"), Some(17));
    assert_eq!(parse_major_from_version_string("25"), Some(25));
}

#[test]
fn test_parse_java_version_directive_accepts_jbang_range_suffixes() {
    assert_eq!(parse_java_version_directive("25+").unwrap(), 25);
    assert_eq!(parse_java_version_directive("17.0.11+10").unwrap(), 17);
    assert_eq!(parse_java_version_directive("1.8+").unwrap(), 8);
}

#[test]
fn test_parse_major_from_java_version_output_ignores_tool_options() {
    let output = "Picked up JAVA_TOOL_OPTIONS: -Xmx4g\nopenjdk version \"21.0.3\" 2024-04-16\nOpenJDK Runtime Environment\n";
    assert_eq!(parse_major_from_java_version_output(output), Some(21));
}

#[test]
fn test_detect_platform() {
    // The platform of a 64-bit Linux machine with the GNU C library.
    let (os, arch) = detect_platform("linux", "gnu", "x86_64", true).unwrap();
    assert!(matches!(os.as_str(), "linux" | "mac" | "windows" | "alpine-linux"));
    assert!(matches!(
        arch.as_str(),
        "x64" | "aarch64" | "arm" | "riscv64" | "ppc64" | "ppc64le" | "s390x"
    ));
}

#[test]
fn test_default_java_version() {
    assert_eq!(default_java_version(), 25);
}

#[test]
fn detect_platform_maps_each_supported_system() {
    let cases = [
        ("linux", "gnu", "x86_64", true, "linux", "x64"),
        ("linux", "musl", "aarch64", true, "alpine-linux", "aarch64"),
        ("macos", "", "aarch64", true, "mac", "aarch64"),
        ("windows", "msvc", "x86_64", true, "windows", "x64"),
        ("linux", "gnu", "powerpc64", true, "linux", "ppc64le"),
        ("linux", "gnu", "powerpc64", false, "linux", "ppc64"),
    ];
    for (os, env, arch, le, want_os, want_arch) in cases {
        let (o, a) = detect_platform(os, env, arch, le).unwrap();
        assert_eq!(o, want_os);
        assert_eq!(a, want_arch);
    }
}

#[test]
fn detect_platform_refuses_unknown_systems() {
    assert!(matches!(
        detect_platform("haiku", "", "x86_64", true),
        Err(JdkError::UnsupportedOs)
    ));
    assert!(matches!(
        detect_platform("linux", "gnu", "sparc", true),
        Err(JdkError::UnsupportedArch)
    ));
}

#[test]
fn version_directive_without_major_is_an_error() {
    assert!(matches!(
        parse_java_version_directive("latest"),
        Err(JdkError::InvalidVersionDirective(t)) if t == "latest"
    ));
}

#[test]
fn checksum_is_normalized_to_lower_case_hex() {
    let upper = "ABCDEF0123456789ABCDEF0123456789ABCDEF0123456789ABCDEF0123456789";
    assert_eq!(
        normalize_sha256(&format!("  {upper}\n")).unwrap(),
        upper.to_lowercase()
    );
    assert_eq!(
        normalize_sha256("ABCDEF01-23456789ABCDEF0123456789ABCDEF0123456789ABCDEF0123456789").unwrap(),
        "abcdef0123456789abcdef0123456789abcdef0123456789abcdef0123456789"
    );
    assert!(normalize_sha256("not-a-checksum").is_err());
}

#[test]
fn jdk_archive_checksum_is_checked() {
    // SHA-256 of the empty input.
    let empty = "e3b0c44298fc1c149afbf4c8996fb92427ae41e4649b934ca495991b7852b855";
    assert_eq!(check_jdk_archive(empty, b""), Ok(()));
    assert_eq!(check_jdk_archive(&empty.to_uppercase(), b""), Ok(()));
    match check_jdk_archive(empty, b"x") {
        Err(JdkError::ChecksumMismatch(e, a)) => {
            assert_eq!(e, empty);
            assert_eq!(a.len(), 64);
            assert_ne!(a, empty);
        }
        other => panic!("unexpected {other:?}"),
    }
    assert_eq!(check_jdk_archive("abc", b""), Err(JdkError::InvalidChecksum("abc".to_string())));
}

#[test]
fn adoptium_checksum_is_read_from_the_first_asset() {
    let s = |t: &str| Json::Str(t.to_string());
    let obj = |m: Vec<(&str, Json)>| Json::Object(m.into_iter().map(|(k, v)| (k.to_string(), v)).collect());
    let meta = Json::Array(vec![obj(vec![(
        "binary",
        obj(vec![("package", obj(vec![("checksum", s("abcd")), ("name", s("jdk.tar.gz"))]))]),
    )])]);
    assert_eq!(adoptium_checksum(&meta).as_deref(), Some("abcd"));
    assert_eq!(adoptium_checksum(&Json::Array(vec![])), None);
    assert_eq!(adoptium_checksum(&obj(vec![("binary", s("x"))])), None);
    let no_sum = Json::Array(vec![obj(vec![("binary", obj(vec![("package", obj(vec![]))]))])]);
    assert_eq!(adoptium_checksum(&no_sum), None);
}

#[test]
fn java_version_directives_take_the_leading_major() {
    assert_eq!(parse_java_version_directive("25+").unwrap(), 25);
    assert_eq!(parse_java_version_directive("17.0.11+10").unwrap(), 17);
    assert_eq!(parse_java_version_directive("1.8+").unwrap(), 8);
    assert!(parse_java_version_directive("abc").is_err());
}

#[test]
fn release_files_state_the_major_version() {
    assert_eq!(jbx::jdk::release_java_major("IMPLEMENTOR=\"Eclipse\"\nJAVA_VERSION=\"21.0.3\"\n"), Some(21));
    assert_eq!(jbx::jdk::release_java_major("JAVA_VERSION=\"1.8.0_432\""), Some(8));
    assert_eq!(jbx::jdk::release_java_major("JAVA_VERSION=\"\"\nJAVA_VERSION=\"17\""), None);
    assert_eq!(jbx::jdk::release_java_major("OS_NAME=\"Linux\""), None);
}
