use amanda::amrpt::{Report, ReportSection, SectionType};
use serde_json::Value;

fn report() -> Report {
    Report::new("test".to_string(), None, "system".to_string(), "System Report".to_string())
}

fn row(name: &str, value: i32) -> Value {
    let mut m = serde_json::Map::new();
    m.insert("name".to_string(), Value::String(name.to_string()));
    m.insert("value".to_string(), Value::from(value));
    Value::Object(m)
}

fn section(title: &str, section_type: SectionType, data: &str) -> ReportSection {
    ReportSection { title: title.to_string(), section_type, data: data.to_string(), metadata: None }
}

/// The rendering without the header (whose creation time varies).
fn body(report: &Report, charts: &Vec<String>) -> String {
    let text = report.render_text(charts);
    let marker = format!("{}\n\n", "=".repeat(60));
    let at = text.rfind(&marker).unwrap();
    text[at + marker.len()..].to_string()
}

#[test]
fn test_report_builder() {
    let mut report = report();

    report.add_text("Summary".to_string(), "This is a test report");

    let mut metrics = std::collections::HashMap::new();
    metrics.insert("cpu".to_string(), 45.5);
    metrics.insert("memory".to_string(), 78.2);
    report.add_metrics("Resources".to_string(), serde_json::to_value(metrics).unwrap().to_string());

    let rows = Value::Array(vec![row("a", 1), row("b", 2)]).to_string();
    report.add_table("Data".to_string(), rows).unwrap();

    assert_eq!(report.sections.len(), 3);

    let text = report.render_text(&Vec::new());
    assert!(text.contains("System Report"));
    assert!(text.contains("test report"));
    assert!(text.contains("cpu"));
}

#[test]
fn header_layout() {
    let mut report = report();
    report.metadata.amanda.created_at = amanda::time::Timestamp::from_parts(1431648000, 0).unwrap();
    let rule = "=".repeat(60);
    let expected = format!(
        "{}\n  System Report\n  Type: system\n  Generated: 2015-05-15 00:00:00 UTC\n{}\n\n",
        rule, rule
    );
    assert_eq!(report.render_text(&Vec::new()), expected);
}

#[test]
fn sections_render_by_type() {
    let mut report = report();
    report.add_text("Note".to_string(), "line \"quoted\"");
    report.add_metrics("Load".to_string(), "{\"b\":2,\"a\":\"x\"}".to_string());
    report.add_section(section("Items", SectionType::List, "[\"one\",2,{\"k\":null}]"));
    report.add_section(section("Nothing", SectionType::Text, "42"));
    assert_eq!(
        body(&report, &Vec::new()),
        "## Note\nline \"quoted\"\n\n## Load\n  a: \"x\"\n  b: 2\n\n## Items\n  - one\n  - 2\n  - {\"k\":null}\n\n## Nothing\n\n"
    );
}

#[test]
fn tables_and_charts() {
    let mut report = report();
    report.add_table("T".to_string(), "[1]".to_string()).unwrap();
    report.add_section(section("C", SectionType::Chart, "{\"x\":1.0}"));
    report.add_section(section("D", SectionType::Chart, "[true]"));
    let charts = vec![String::new(), "  bars\n".to_string(), "unused".to_string()];
    assert_eq!(body(&report, &charts), "## T\n[\n  1\n]\n\n## C\n  bars\n\n## D\n[\n  true\n]\n\n");
}

#[test]
fn finalize_sets_end_time() {
    let mut report = report();
    assert!(report.metadata.start_time.is_some());
    assert!(report.metadata.end_time.is_none());
    report.finalize();
    assert!(report.metadata.end_time.is_some());
    assert_eq!(report.metadata.title, "System Report");
}

#[test]
fn section_data_must_be_json() {
    let mut report = report();
    assert!(matches!(
        report.add_table("T".to_string(), "[1,".to_string()),
        Err(amanda::AmandaError::Serialization(_))
    ));
    assert!(report.sections.is_empty());
    report.add_metrics("M".to_string(), "cpu=1".to_string());
    assert_eq!(report.sections.len(), 1);
    assert_eq!(report.sections[0].data, "null");
}

#[test]
fn text_sections_hold_escaped_json_strings() {
    let mut report = report();
    report.add_text("E".to_string(), "a\u{1}\u{1f}\t\u{8}\u{c}\n\r\"\\/é\u{7f}");
    assert_eq!(report.sections[0].data, "\"a\\u0001\\u001f\\t\\b\\f\\n\\r\\\"\\\\/é\u{7f}\"");
}
