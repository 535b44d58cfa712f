use kubeyamyam::models::{Finding, RuleId, Severity};
use kubeyamyam::sorting::scan_path;

fn f(sev: Severity, file: &str, resource: &str, message: &str) -> Finding {
    Finding {
        severity: sev,
        rule_id: RuleId::NoLimits,
        file: file.into(),
        resource: resource.into(),
        namespace: "default".into(),
        container: None,
        message: message.into(),
    }
}

#[test]
fn findings_sorted_by_severity_file_resource_and_stable() {
    let a = vec![
        f(Severity::Low, "b.yaml", "Pod/a", "1"),
        f(Severity::Critical, "b.yaml", "Pod/z", "2"),
        f(Severity::Medium, "a.yaml", "Pod/b", "3"),
        f(Severity::Medium, "a.yaml", "Pod/a", "4"),
    ];
    let b = vec![
        f(Severity::Medium, "a.yaml", "Pod/b", "5"),
        f(Severity::Critical, "a.yaml", "Pod/z", "6"),
    ];
    let out = scan_path(vec![a, b]);
    let msgs: Vec<&str> = out.iter().map(|x| x.message.as_str()).collect();
    assert_eq!(msgs, vec!["6", "2", "4", "3", "5", "1"]);
}

#[test]
fn sorting_uses_character_order() {
    let a = vec![
        f(Severity::Low, "é.yaml", "r", "1"),
        f(Severity::Low, "z.yaml", "r", "2"),
        f(Severity::Low, "Z.yaml", "r", "3"),
        f(Severity::Low, "z", "r", "4"),
    ];
    let out = scan_path(vec![a]);
    let msgs: Vec<&str> = out.iter().map(|x| x.message.as_str()).collect();
    assert_eq!(msgs, vec!["3", "4", "2", "1"]);
    assert!(scan_path(vec![]).is_empty());
}
