use kubeyamyam::export::{
    build_report, display_path, exit_code, path_to_uri, sarif_log, strip_unc_prefix, wants_tui,
    write_text,
};
use kubeyamyam::models::{Finding, OutputFormat, RuleId, ScanSummary, Severity};

fn finding(sev: Severity, rule: RuleId, file: &str, resource: &str, container: Option<&str>) -> Finding {
    Finding {
        severity: sev,
        rule_id: rule,
        file: file.into(),
        resource: resource.into(),
        namespace: "default".into(),
        container: container.map(|c| c.to_string()),
        message: "msg".into(),
    }
}

#[test]
fn fail_on_high_trips_on_critical() {
    let findings = vec![Finding {
        severity: Severity::Critical,
        rule_id: RuleId::Privileged,
        file: "a.yaml".into(),
        resource: "Pod/x".into(),
        namespace: "default".into(),
        container: None,
        message: "x".into(),
    }];
    assert_eq!(exit_code(&findings, Some(Severity::High)), 1);
    assert_eq!(exit_code(&findings, Some(Severity::Critical)), 1);
    assert_eq!(exit_code(&findings, None), 0);
}

#[test]
fn exit_code_below_threshold_passes() {
    let findings = vec![finding(Severity::Medium, RuleId::NoLimits, "a.yaml", "Pod/x", Some("c"))];
    assert_eq!(exit_code(&findings, Some(Severity::High)), 0);
    assert_eq!(exit_code(&findings, Some(Severity::Medium)), 1);
    assert_eq!(exit_code(&findings, Some(Severity::Low)), 1);
    assert_eq!(exit_code(&[], Some(Severity::Low)), 0);
}

#[test]
fn summary_counts_each_severity() {
    let findings = vec![
        finding(Severity::Critical, RuleId::Privileged, "a", "r", Some("c")),
        finding(Severity::Medium, RuleId::NoLimits, "a", "r", Some("c")),
        finding(Severity::Medium, RuleId::LatestTag, "a", "r", Some("c")),
        finding(Severity::Low, RuleId::SaDefault, "a", "r", None),
    ];
    let s = ScanSummary::from_findings(&findings);
    assert_eq!(s, ScanSummary { total: 4, critical: 1, high: 0, medium: 2, low: 1 });
    assert_eq!(s.critical + s.high + s.medium + s.low, s.total);
    assert_eq!(ScanSummary::default(), ScanSummary { total: 0, critical: 0, high: 0, medium: 0, low: 0 });
}

#[test]
fn build_report_fills_all_fields() {
    let findings = vec![finding(Severity::High, RuleId::HostPath, "a.yaml", "Pod/x", None)];
    let r = build_report("/tmp/x", findings);
    assert_eq!(r.tool, "kubeyamyam");
    assert_eq!(r.version, "0.1.0");
    assert_eq!(r.path, "/tmp/x");
    assert_eq!(r.findings.len(), 1);
    assert_eq!(r.summary.total, 1);
    assert_eq!(r.summary.high, 1);
}

#[test]
fn text_report_without_findings() {
    let r = build_report("manifests", vec![]);
    let mut out = String::new();
    write_text(&r, &mut out);
    assert_eq!(out, "No security issues found in manifests\n");
}

#[test]
fn text_report_with_findings() {
    let mut f1 = finding(Severity::Critical, RuleId::Privileged, "a.yaml", "Pod/web", Some("nginx"));
    f1.message = "Container 'nginx' runs with privileged=true".into();
    let mut f2 = finding(Severity::Low, RuleId::SaDefault, "a.yaml", "Pod/web", None);
    f2.message = "Workload uses the default ServiceAccount".into();
    let r = build_report("x", vec![f1, f2]);
    let mut out = String::from(">");
    write_text(&r, &mut out);
    let expected = ">CRITICAL K8S-PRIV           Pod/web [nginx]\n\
         \x20        a.yaml\n\
         \x20        Container 'nginx' runs with privileged=true\n\
         \n\
         LOW      K8S-SA-DEFAULT     Pod/web\n\
         \x20        a.yaml\n\
         \x20        Workload uses the default ServiceAccount\n\
         \n\
         Total: 2 (CRITICAL=1, HIGH=0, MEDIUM=0, LOW=1)\n";
    assert_eq!(out, expected);
}

#[test]
fn text_report_counts_in_decimal() {
    let mut fs = Vec::new();
    for _ in 0..12 {
        fs.push(finding(Severity::Medium, RuleId::NoLimits, "f", "r", Some("c")));
    }
    let r = build_report("x", fs);
    let mut out = String::new();
    write_text(&r, &mut out);
    assert!(out.ends_with("Total: 12 (CRITICAL=0, HIGH=0, MEDIUM=12, LOW=0)\n"));
    let long = "K8S-SA-CLUSTERADMIN";
    let mut f = finding(Severity::Critical, RuleId::SaClusterAdmin, "f", "r", None);
    f.message = "m".into();
    let r = build_report("x", vec![f]);
    let mut out = String::new();
    write_text(&r, &mut out);
    assert!(out.starts_with(&format!("CRITICAL {} r\n", long)));
}

#[test]
fn uris_for_files() {
    assert_eq!(path_to_uri("a.yaml", Some("/home/u/a.yaml".to_string())), "file:///home/u/a.yaml");
    assert_eq!(path_to_uri("a.yaml", Some("C:\\x\\a.yaml".to_string())), "file:///C:/x/a.yaml");
    assert_eq!(path_to_uri("dir\\a.yaml", None), "dir/a.yaml");
}

#[test]
fn verbatim_prefix_is_stripped() {
    assert_eq!(strip_unc_prefix("\\\\?\\C:\\x"), "C:\\x");
    assert_eq!(strip_unc_prefix("/home/x"), "/home/x");
    assert_eq!(display_path("\\\\?\\\\\\?\\y"), "\\\\?\\y");
}

#[test]
fn sarif_log_has_rules_and_results() {
    let f1 = finding(Severity::High, RuleId::HostPath, "a.yaml", "Pod/x", None);
    let f2 = finding(Severity::Medium, RuleId::LatestTag, "b.yaml", "Pod/y", Some("c"));
    let f3 = finding(Severity::Low, RuleId::SaDefault, "c.yaml", "Pod/z", None);
    let r = build_report("x", vec![f1, f2, f3]);
    let log = sarif_log(&r, &vec![Some("/abs/a.yaml".to_string()), None, None]);
    assert_eq!(log.schema, "https://json.schemastore.org/sarif-2.1.0.json");
    assert_eq!(log.version, "2.1.0");
    assert_eq!(log.tool_name, "kubeyamyam");
    assert_eq!(log.tool_version, "0.1.0");
    assert_eq!(log.rules.len(), 7);
    assert_eq!(log.rules[0].id, "K8S-PRIV");
    assert_eq!(log.rules[6].name, "Cluster-admin binding");
    assert_eq!(log.rules[1].help_uri, "https://kubernetes.io/docs/concepts/storage/volumes/#hostpath");
    assert_eq!(log.rules[2].tags, vec!["security".to_string(), "kubernetes".to_string()]);
    assert_eq!(log.results.len(), 3);
    assert_eq!(log.results[0].level, "error");
    assert_eq!(log.results[0].uri, "file:///abs/a.yaml");
    assert_eq!(log.results[1].level, "warning");
    assert_eq!(log.results[1].container, Some("c".to_string()));
    assert_eq!(log.results[2].level, "note");
    assert_eq!(log.results[2].severity, "LOW");
    assert_eq!(log.results[2].uri, "c.yaml");
}

#[test]
fn tui_is_chosen_only_for_interactive_text() {
    assert!(wants_tui(true, true, true, OutputFormat::Json, false));
    assert!(wants_tui(false, false, false, OutputFormat::Text, true));
    assert!(!wants_tui(false, false, false, OutputFormat::Text, false));
    assert!(!wants_tui(false, true, false, OutputFormat::Text, true));
    assert!(!wants_tui(false, false, true, OutputFormat::Text, true));
    assert!(!wants_tui(false, false, false, OutputFormat::Sarif, true));
}

#[test]
fn summary_adds_over_parts_and_ignores_order() {
    let a = vec![
        finding(Severity::Critical, RuleId::Privileged, "a", "r", Some("c")),
        finding(Severity::Medium, RuleId::NoLimits, "a", "r", Some("c")),
    ];
    let b = vec![
        finding(Severity::High, RuleId::HostPath, "b", "r", None),
        finding(Severity::Medium, RuleId::LatestTag, "b", "r", Some("c")),
        finding(Severity::Low, RuleId::SaDefault, "b", "r", None),
    ];
    let both: Vec<Finding> = a.iter().chain(b.iter()).cloned().collect();
    let sa = ScanSummary::from_findings(&a);
    let sb = ScanSummary::from_findings(&b);
    let s = ScanSummary::from_findings(&both);
    assert_eq!(s.total, sa.total + sb.total);
    assert_eq!(s.critical, sa.critical + sb.critical);
    assert_eq!(s.high, sa.high + sb.high);
    assert_eq!(s.medium, sa.medium + sb.medium);
    assert_eq!(s.low, sa.low + sb.low);
    let mut reversed = both.clone();
    reversed.reverse();
    assert_eq!(ScanSummary::from_findings(&reversed), s);
    assert_eq!(ScanSummary::from_findings(&[]), ScanSummary::default());
}
