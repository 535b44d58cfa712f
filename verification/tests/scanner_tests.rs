use kubeyamyam::documents::{looks_like_k8s_manifest, neutralize_jinja_values, split_documents};
use kubeyamyam::models::{Finding, RuleId, Severity};
use kubeyamyam::scanner::{is_cluster_admin_ref, is_latest_image, scan_documents, scan_file_text};
use kubeyamyam::yaml::YamlValue;

fn rules(fs: &[Finding]) -> Vec<RuleId> {
    fs.iter().map(|f| f.rule_id).collect()
}

#[test]
fn neutralize_preserves_utf8() {
    let raw = "apiVersion: v1\nkind: Pod\nmetadata:\n  name: {{ x }}\n  note: It works — yes\n";
    let out = neutralize_jinja_values(raw);
    assert!(out.contains("It works — yes"));
    assert!(out.contains("\"__jinja__\""));
}

#[test]
fn neutralize_replaces_only_values_after_colons() {
    assert_eq!(neutralize_jinja_values("a: {{ b }}\nc:\t{{d}} tail"), "a: \"__jinja__\"\nc:\t\"__jinja__\" tail");
    assert_eq!(neutralize_jinja_values("- {{ item }}"), "- {{ item }}");
    assert_eq!(neutralize_jinja_values("a: {{ unclosed"), "a: {{ unclosed");
    assert_eq!(neutralize_jinja_values("x:{{a}}:{{b}}"), "x:\"__jinja__\":\"__jinja__\"");
    assert_eq!(neutralize_jinja_values(""), "");
    let plain = "apiVersion: v1\nkind: Pod\n";
    assert_eq!(neutralize_jinja_values(plain), plain);
}

#[test]
fn documents_are_split_and_trimmed() {
    assert!(split_documents("just: text\n").is_empty());
    assert!(!looks_like_k8s_manifest("kind: Pod\n"));
    assert!(looks_like_k8s_manifest("apiVersion: v1\nkind: Pod\n"));
    let docs = split_documents("apiVersion: v1\nkind: Pod\n---\n\n---\n  kind: Service\n");
    assert_eq!(docs, vec!["apiVersion: v1\nkind: Pod".to_string(), "kind: Service".to_string()]);
    let docs = split_documents("apiVersion: v1\nkind: Pod\nimage: {{ img }}\n");
    assert_eq!(docs, vec!["apiVersion: v1\nkind: Pod\nimage: \"__jinja__\"".to_string()]);
}

#[test]
fn latest_image_tags() {
    assert!(is_latest_image("nginx"));
    assert!(is_latest_image("nginx:latest"));
    assert!(is_latest_image("nginx:LaTeSt"));
    assert!(is_latest_image("  nginx  "));
    assert!(!is_latest_image("nginx:1.25"));
    assert!(!is_latest_image("nginx@sha256:abcd"));
    assert!(!is_latest_image("{{ image }}"));
    assert!(!is_latest_image("${IMAGE}"));
    assert!(!is_latest_image("__jinja__"));
    assert!(!is_latest_image(""));
    assert!(!is_latest_image("   "));
    assert!(!is_latest_image("registry:5000/nginx"));
}

#[test]
fn cluster_admin_role_names() {
    assert!(is_cluster_admin_ref("cluster-admin"));
    assert!(is_cluster_admin_ref("My-Cluster-Admin-Role"));
    assert!(is_cluster_admin_ref("*"));
    assert!(!is_cluster_admin_ref("view"));
    assert!(!is_cluster_admin_ref("**"));
}

const POD: &str = "apiVersion: v1
kind: Pod
metadata:
  name: web
  namespace: prod
spec:
  volumes:
    - name: host
      hostPath:
        path: /var/run
    - name: scratch
      emptyDir: {}
  containers:
    - name: app
      image: nginx
      securityContext:
        privileged: true
    - name: side
      image: busybox:1.36
      resources:
        limits:
          cpu: 100m
  initContainers:
    - image: alpine:latest
      resources:
        limits: {}
";

#[test]
fn pod_findings_in_order() {
    let fs = scan_file_text("pod.yaml", POD);
    assert_eq!(
        rules(&fs),
        vec![
            RuleId::HostPath,
            RuleId::SaDefault,
            RuleId::SaAutomount,
            RuleId::Privileged,
            RuleId::LatestTag,
            RuleId::NoLimits,
            RuleId::LatestTag,
            RuleId::NoLimits,
        ]
    );
    assert!(fs.iter().all(|f| f.file == "pod.yaml" && f.resource == "Pod/web" && f.namespace == "prod"));
    assert_eq!(fs[0].severity, Severity::High);
    assert_eq!(fs[0].message, "Volume 'host' mounts hostPath: /var/run");
    assert_eq!(fs[0].container, None);
    assert_eq!(fs[1].message, "Workload uses the default ServiceAccount");
    assert_eq!(
        fs[2].message,
        "Default SA token automount is enabled (set automountServiceAccountToken: false if unused)"
    );
    assert_eq!(fs[3].severity, Severity::Critical);
    assert_eq!(fs[3].container, Some("app".to_string()));
    assert_eq!(fs[3].message, "Container 'app' runs with privileged=true");
    assert_eq!(fs[4].message, "Container 'app' uses mutable tag: nginx");
    assert_eq!(fs[5].message, "Container 'app' has no resources.limits");
    assert_eq!(fs[6].message, "Init container '<unnamed>' uses mutable tag: alpine:latest");
    assert_eq!(fs[7].message, "Init container '<unnamed>' has no resources.limits");
}

#[test]
fn named_service_account_with_automount_disabled() {
    let raw = "apiVersion: apps/v1
kind: Deployment
metadata:
  name: api
spec:
  template:
    spec:
      serviceAccountName: api-sa
      automountServiceAccountToken: false
      containers:
        - name: api
          image: api:2
          resources:
            limits:
              memory: 1Gi
";
    assert!(scan_file_text("d.yaml", raw).is_empty());
    let raw2 = raw.replace("automountServiceAccountToken: false", "automountServiceAccountToken: true");
    let fs = scan_file_text("d.yaml", &raw2);
    assert_eq!(rules(&fs), vec![RuleId::SaAutomount]);
    assert_eq!(fs[0].message, "automountServiceAccountToken not disabled for SA 'api-sa'");
    assert_eq!(fs[0].resource, "Deployment/api");
    assert_eq!(fs[0].namespace, "default");
}

#[test]
fn cronjob_pod_spec_is_found() {
    let raw = "apiVersion: batch/v1
kind: CronJob
metadata:
  name: nightly
spec:
  jobTemplate:
    spec:
      template:
        spec:
          serviceAccountName: default
          containers:
            - name: job
              image: tool:1
";
    let fs = scan_file_text("c.yaml", raw);
    assert_eq!(rules(&fs), vec![RuleId::SaDefault, RuleId::SaAutomount, RuleId::NoLimits]);
    assert_eq!(fs[2].message, "Container 'job' has no resources.limits");
}

#[test]
fn cluster_admin_binding_and_workload() {
    let raw = "apiVersion: rbac.authorization.k8s.io/v1
kind: ClusterRoleBinding
metadata:
  name: ops-admin
roleRef:
  kind: ClusterRole
  name: cluster-admin
subjects:
  - kind: ServiceAccount
    name: ops
    namespace: tools
  - kind: User
    name: alice
  - kind: ServiceAccount
    name: ''
---
apiVersion: v1
kind: Pod
metadata:
  name: runner
  namespace: tools
spec:
  serviceAccountName: ops
  automountServiceAccountToken: false
  containers: []
---
apiVersion: v1
kind: ConfigMap
metadata:
  name: cfg
";
    let fs = scan_file_text("rbac.yaml", raw);
    assert_eq!(rules(&fs), vec![RuleId::SaClusterAdmin, RuleId::SaClusterAdmin]);
    assert_eq!(fs[0].resource, "ClusterRoleBinding/ops-admin");
    assert_eq!(fs[0].namespace, "tools");
    assert_eq!(fs[0].message, "ServiceAccount 'ops' bound to cluster-admin via ClusterRoleBinding/ops-admin");
    assert_eq!(fs[1].resource, "Pod/runner");
    assert_eq!(fs[1].message, "Workload runs as ServiceAccount 'ops' with cluster-admin privileges");
    assert!(fs.iter().all(|f| f.severity == Severity::Critical && f.container.is_none()));
}

#[test]
fn non_resources_are_ignored() {
    assert!(scan_file_text("x.yaml", "apiVersion: v1\nkind: Pod\n---\n- a\n- b\n").is_empty());
    assert!(scan_file_text("x.yaml", "kind: Pod\nspec: {}\n").is_empty());
    assert!(scan_file_text("x.yaml", "apiVersion: v1\nkind: Service\nspec: {}\n").is_empty());
}

#[test]
fn numbers_and_booleans_read_as_text() {
    let raw = "apiVersion: v1
kind: Pod
metadata:
  name: 42
spec:
  serviceAccountName: true
  containers:
    - name: 7
      image: app:1
      resources:
        limits:
          cpu: 1
";
    let fs = scan_file_text("n.yaml", raw);
    assert_eq!(rules(&fs), vec![RuleId::SaAutomount]);
    assert_eq!(fs[0].resource, "Pod/42");
    assert_eq!(fs[0].message, "automountServiceAccountToken not disabled for SA 'true'");
}

#[test]
fn neutralize_is_idempotent_and_keeps_texts_without_templates() {
    for raw in [
        "a: {{ b }}\nc:\t{{d}} tail",
        "x:{{a}}:{{b}}",
        "a: {{ unclosed",
        "a: {{ x }} }} y: {{ z }}",
        "- {{ item }}",
        "k: \"__jinja__\"",
    ] {
        let once = neutralize_jinja_values(raw);
        assert_eq!(neutralize_jinja_values(&once), once);
    }
    assert_eq!(neutralize_jinja_values("a: {{ b"), "a: {{ b");
    assert_eq!(neutralize_jinja_values("{{ b }}"), "{{ b }}");
    assert_eq!(neutralize_jinja_values("a: b }}"), "a: b }}");
}

const BINDING: &str = "apiVersion: rbac.authorization.k8s.io/v1
kind: ClusterRoleBinding
metadata:
  name: admins
roleRef:
  kind: ClusterRole
  name: cluster-admin
subjects:
  - kind: ServiceAccount
    name: app
    namespace: prod
";

const WORKLOAD: &str = "apiVersion: apps/v1
kind: Deployment
metadata:
  name: web
  namespace: prod
spec:
  template:
    spec:
      serviceAccountName: app
      automountServiceAccountToken: false
      containers: []
";

#[test]
fn cluster_admin_workload_found_in_either_order() {
    let expected = Finding {
        severity: Severity::Critical,
        rule_id: RuleId::SaClusterAdmin,
        file: "f.yaml".to_string(),
        resource: "Deployment/web".to_string(),
        namespace: "prod".to_string(),
        container: None,
        message: "Workload runs as ServiceAccount 'app' with cluster-admin privileges".to_string(),
    };
    let same = |f: &Finding| {
        f.severity == expected.severity
            && f.rule_id == expected.rule_id
            && f.file == expected.file
            && f.resource == expected.resource
            && f.namespace == expected.namespace
            && f.container == expected.container
            && f.message == expected.message
    };
    let forward = format!("{}---\n{}", BINDING, WORKLOAD);
    let backward = format!("{}---\n{}", WORKLOAD, BINDING);
    assert!(scan_file_text("f.yaml", &forward).iter().any(|f| same(f)));
    assert!(scan_file_text("f.yaml", &backward).iter().any(|f| same(f)));
}

#[test]
fn unparsable_document_changes_nothing() {
    let raw = format!("{}---\n{}", BINDING, WORKLOAD);
    let raw2 = format!("{}\n---\na: [\n", raw);
    let fs = scan_file_text("f.yaml", &raw);
    let fs2 = scan_file_text("f.yaml", &raw2);
    assert!(!fs.is_empty());
    assert_eq!(fs.len(), fs2.len());
    for (a, b) in fs.iter().zip(fs2.iter()) {
        assert_eq!(a.rule_id, b.rule_id);
        assert_eq!(a.resource, b.resource);
        assert_eq!(a.message, b.message);
    }
    assert!(fs2.iter().all(|f| f.file == "f.yaml"));

    let text = |t: &str| YamlValue::String(t.to_string());
    let container = YamlValue::Mapping(vec![(text("name"), text("c")), (text("image"), text("nginx"))]);
    let pod = YamlValue::Mapping(vec![
        (text("apiVersion"), text("v1")),
        (text("kind"), text("Pod")),
        (text("metadata"), YamlValue::Mapping(vec![(text("name"), text("p"))])),
        (text("spec"), YamlValue::Mapping(vec![(text("containers"), YamlValue::Sequence(vec![container]))])),
    ]);
    let mut parsed: Vec<Option<YamlValue>> = vec![Some(pod)];
    let before = scan_documents("w.yaml", &parsed);
    parsed.push(None);
    let after = scan_documents("w.yaml", &parsed);
    assert_eq!(rules(&before), vec![RuleId::SaDefault, RuleId::SaAutomount, RuleId::LatestTag, RuleId::NoLimits]);
    assert_eq!(rules(&before), rules(&after));
}
