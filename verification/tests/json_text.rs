use jbx::catalog::Json;
use jbx::check::{check_report_from_output, CheckError};
use jbx::descriptor::read_descriptor_text;
use jbx::docs_select::filter_remote_docs_text;
use jbx::jdk::{expected_adoptium_sha256, JdkError};
use jbx::json_text::{read_json_text, write_json_text};
use jbx::publish::PublishError;

fn show(j: &Json) -> String {
    format!("{j:?}")
}

#[test]
fn json_text_is_read_into_the_model() {
    let j = read_json_text("{\"b\": [1, true, null], \"a\": \"x\"}").unwrap();
    let expected = Json::Object(vec![
        ("a".to_string(), Json::Str("x".to_string())),
        (
            "b".to_string(),
            Json::Array(vec![Json::Number("1".to_string()), Json::Bool(true), Json::Null]),
        ),
    ]);
    assert_eq!(show(&j), show(&expected));
    assert!(read_json_text("not json").is_none());
    assert!(read_json_text("{\"a\": 1").is_none());
}

#[test]
fn json_model_is_written_pretty() {
    let j = Json::Object(vec![("a".to_string(), Json::Array(vec![Json::Number("2".to_string())]))]);
    assert_eq!(write_json_text(&j), "{\n  \"a\": [\n    2\n  ]\n}");
    let back = read_json_text(&write_json_text(&j)).unwrap();
    assert_eq!(show(&back), show(&j));
}

#[test]
fn adoptium_checksum_is_read_from_metadata_text() {
    let sum = "AB".repeat(32);
    let text = format!("[{{\"binary\": {{\"package\": {{\"checksum\": \"{sum}\"}}}}}}]");
    assert_eq!(expected_adoptium_sha256(&text).unwrap(), "ab".repeat(32));
    assert!(matches!(expected_adoptium_sha256("[]"), Err(JdkError::NoPublishedChecksum)));
    assert!(matches!(expected_adoptium_sha256("<html>"), Err(JdkError::UnreadableChecksumMetadata)));
    let bad = "[{\"binary\": {\"package\": {\"checksum\": \"xyz\"}}}]";
    assert!(matches!(expected_adoptium_sha256(bad), Err(JdkError::InvalidChecksum(c)) if c == "xyz"));
}

#[test]
fn check_output_must_be_json_with_diagnostics() {
    assert!(matches!(check_report_from_output("oops"), Err(CheckError::InvalidOutput)));
    assert!(matches!(check_report_from_output("{}"), Err(CheckError::NoDiagnostics)));
    assert!(check_report_from_output("{\"diagnostics\": []}").is_ok());
}

#[test]
fn descriptor_text_must_be_json() {
    assert!(matches!(read_descriptor_text("main = x"), Err(PublishError::UnreadableDescriptor)));
    assert!(read_descriptor_text("{\"main\": \"App.java\"}").is_ok());
}

#[test]
fn remote_docs_text_is_filtered_when_json() {
    let text = "{\"types\": [{\"name\": \"A\"}, {\"name\": \"B\"}]}".to_string();
    assert_eq!(filter_remote_docs_text(text.clone(), false, &vec!["A".to_string()]), Some(text.clone()));
    assert_eq!(filter_remote_docs_text(text.clone(), true, &vec![]), Some(text.clone()));
    assert_eq!(
        filter_remote_docs_text(text, true, &vec!["A".to_string()]),
        Some("{\n  \"types\": [\n    {\n      \"name\": \"A\"\n    }\n  ]\n}\n".to_string())
    );
    assert_eq!(filter_remote_docs_text("nope".to_string(), true, &vec!["A".to_string()]), None);
}
