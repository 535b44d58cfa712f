use kubeyamyam::browser::{App, Key, KeyAction};
use kubeyamyam::models::{Finding, RuleId, Severity};

fn f(sev: Severity, rule: RuleId, name: &str) -> Finding {
    Finding {
        severity: sev,
        rule_id: rule,
        file: "a.yaml".into(),
        resource: format!("Pod/{name}"),
        namespace: "default".into(),
        container: if rule == RuleId::Privileged { Some("c".into()) } else { None },
        message: "m".into(),
    }
}

fn loaded() -> App {
    let mut app = App::new("/tmp");
    app.scan_finished(vec![
        f(Severity::Critical, RuleId::Privileged, "a"),
        f(Severity::Medium, RuleId::NoLimits, "b"),
        f(Severity::Medium, RuleId::LatestTag, "c"),
        f(Severity::Low, RuleId::SaDefault, "d"),
    ]);
    app
}

#[test]
fn new_app_waits_for_a_scan() {
    let app = App::new("/tmp");
    assert_eq!(app.status, "Press Enter/F5 to scan · ? help · q quit");
    assert_eq!(app.selected, None);
    assert_eq!(app.detail_text(), "Select a finding to see details.");
}

#[test]
fn scan_shows_everything() {
    let app = loaded();
    assert_eq!(app.filtered.len(), 4);
    assert_eq!(app.selected, Some(0));
    assert_eq!(app.status, "findings: 4 (showing 4) | CRIT 1 HIGH 0 MED 2 LOW 1");
    assert_eq!(
        app.detail_text(),
        "CRITICAL  Privileged container\nResource: Pod/a\nNamespace: default\nContainer: c\nFile: a.yaml\n\nm"
    );
}

#[test]
fn severity_filter_cycles() {
    let mut app = loaded();
    app.cycle_severity();
    assert_eq!(app.severity_filter, Some(Severity::Critical));
    assert_eq!(app.filtered.len(), 1);
    app.cycle_severity();
    assert_eq!(app.filtered.len(), 0);
    assert_eq!(app.selected, None);
    app.cycle_severity();
    assert_eq!(app.filtered.len(), 2);
    assert_eq!(app.selected, Some(0));
    assert_eq!(app.status, "findings: 4 (showing 2) | CRIT 1 HIGH 0 MED 2 LOW 1 sev=MEDIUM");
    app.cycle_severity();
    app.cycle_severity();
    assert_eq!(app.severity_filter, None);
    assert_eq!(app.filtered.len(), 4);
}

#[test]
fn rule_filter_cycles_through_all_rules() {
    let mut app = loaded();
    let mut seen = Vec::new();
    for _ in 0..8 {
        app.cycle_rule();
        seen.push(app.rule_filter);
    }
    assert_eq!(seen[0], Some(RuleId::Privileged));
    assert_eq!(seen[6], Some(RuleId::SaClusterAdmin));
    assert_eq!(seen[7], None);
    app.cycle_rule();
    app.cycle_rule();
    assert_eq!(app.rule_filter, Some(RuleId::HostPath));
    assert!(app.status.ends_with(" rule=K8S-HOSTPATH"));
}

#[test]
fn selection_wraps_around() {
    let mut app = loaded();
    app.move_sel(-1);
    assert_eq!(app.selected, Some(3));
    app.move_sel(1);
    assert_eq!(app.selected, Some(0));
    app.move_sel(5);
    assert_eq!(app.selected, Some(1));
    app.move_sel(-6);
    assert_eq!(app.selected, Some(3));
    app.move_sel(isize::MIN);
    assert_eq!(app.selected, Some(3));
    assert_eq!(app.selected_finding().unwrap().resource, "Pod/d");
}

#[test]
fn selection_is_clamped_when_the_list_shrinks() {
    let mut app = loaded();
    app.move_sel(-1);
    assert_eq!(app.selected, Some(3));
    app.cycle_severity();
    assert_eq!(app.selected, Some(0));
}

#[test]
fn keys_drive_the_browser() {
    let mut app = loaded();
    assert_eq!(app.handle_key(Key::Char('j')), KeyAction::Nothing);
    assert_eq!(app.selected, Some(1));
    assert_eq!(app.handle_key(Key::Up), KeyAction::Nothing);
    assert_eq!(app.selected, Some(0));
    assert_eq!(app.handle_key(Key::Char('?')), KeyAction::Nothing);
    assert!(app.show_help);
    assert_eq!(app.handle_key(Key::Char('q')), KeyAction::Nothing);
    assert!(!app.show_help);
    assert!(!app.should_quit);
    assert_eq!(app.handle_key(Key::Char('/')), KeyAction::Nothing);
    assert!(app.editing_path);
    app.handle_key(Key::Backspace);
    app.handle_key(Key::Char('x'));
    assert_eq!(app.path_input, "/tmx");
    assert_eq!(app.handle_key(Key::Enter), KeyAction::Scan);
    assert!(!app.editing_path);
    assert_eq!(app.handle_key(Key::F(5)), KeyAction::Scan);
    assert_eq!(app.handle_key(Key::Char('f')), KeyAction::Nothing);
    assert_eq!(app.severity_filter, Some(Severity::Critical));
    assert_eq!(app.handle_key(Key::Char('r')), KeyAction::Nothing);
    assert_eq!(app.rule_filter, Some(RuleId::Privileged));
    assert_eq!(app.handle_key(Key::Esc), KeyAction::Nothing);
    assert!(app.should_quit);
}

#[test]
fn missing_path_clears_findings() {
    let mut app = loaded();
    app.scan_started("/nope");
    assert_eq!(app.status, "Scanning /nope…");
    app.scan_path_missing("/nope");
    assert_eq!(app.status, "Path not found: /nope");
    assert!(app.all_findings.is_empty());
    assert!(app.filtered.is_empty());
    assert!(app.selected_finding().is_none());
}
