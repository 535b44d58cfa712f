use kubeyamyam::models::{FailOnArg, RuleId, Severity};

#[test]
fn severity_names_and_ranks() {
    assert_eq!(Severity::Critical.as_str(), "CRITICAL");
    assert_eq!(Severity::High.as_str(), "HIGH");
    assert_eq!(Severity::Medium.as_str(), "MEDIUM");
    assert_eq!(Severity::Low.as_str(), "LOW");
    assert_eq!(Severity::Critical.rank(), 0);
    assert_eq!(Severity::Low.rank(), 3);
    assert!(Severity::Critical < Severity::Low);
}

#[test]
fn rule_names_labels_and_uris() {
    let all = RuleId::all();
    assert_eq!(all.len(), 7);
    let names: Vec<&str> = all.iter().map(|r| r.as_str()).collect();
    assert_eq!(
        names,
        vec![
            "K8S-PRIV",
            "K8S-HOSTPATH",
            "K8S-LATEST",
            "K8S-LIMITS",
            "K8S-SA-DEFAULT",
            "K8S-SA-AUTOMOUNT",
            "K8S-SA-CLUSTERADMIN"
        ]
    );
    assert_eq!(RuleId::NoLimits.label(), "Missing resource limits");
    assert_eq!(
        RuleId::SaAutomount.help_uri(),
        "https://kubernetes.io/docs/tasks/configure-pod-container/configure-service-account/"
    );
    assert_eq!(
        RuleId::LatestTag.help_uri(),
        "https://kubernetes.io/docs/concepts/containers/images/#updating-images"
    );
}

#[test]
fn fail_on_thresholds() {
    assert_eq!(FailOnArg::High.to_threshold(), Some(Severity::High));
    assert_eq!(FailOnArg::Low.to_threshold(), Some(Severity::Low));
    assert_eq!(FailOnArg::Never.to_threshold(), None);
}
