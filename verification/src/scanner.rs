//! The security checks on parsed Kubernetes resources: containers, pod
//! specifications, role bindings to cluster-admin, and the workloads that run
//! as such a bound service account.

use vstd::prelude::*;
use crate::models::{Finding, FindingView, RuleId, Severity, views, lemma_views_push};
use crate::text::{
    append_str, ascii_lower_chars, ascii_lower_seq, chars_eq, chars_of, contains_char,
    contains_exec, contains_seq, eq_ignore_ascii_case, occurs_at, owned, rfind_char, rfind_char_exec,
    str_eq, trim, trim_chars, trim_end, trim_start, is_unicode_space, lemma_rfind_char,
};
use crate::documents::{manifest_documents, split_documents, string_views};
use crate::yaml::{
    YamlValue, parse_document, parsed_documents, key1, key_path, get_bool, get_path, get_str, is_mapping, is_mapping_exec, is_nonempty_mapping,
    is_nonempty_mapping_exec, map_bool, map_get, map_str, map_str_or, text_or,
};

verus! {

// ---------------------------------------------------------------------------
// Specification of the checks
// ---------------------------------------------------------------------------

/// The view of one finding.
pub open spec fn finding(
    severity: Severity,
    rule_id: RuleId,
    file: Seq<char>,
    resource: Seq<char>,
    namespace: Seq<char>,
    container: Option<Seq<char>>,
    message: Seq<char>,
) -> FindingView {
    FindingView { severity, rule_id, file, resource, namespace, container, message }
}

/// An image reference with a mutable tag: no tag at all, or the tag "latest"
/// in any case. Empty references, template placeholders and digest-pinned
/// references are never reported.
pub open spec fn latest_image(image: Seq<char>) -> bool {
    let t = trim(image);
    if t.len() == 0 {
        false
    } else if contains_seq(t, "{{"@) || contains_seq(t, "${"@) || t == "__jinja__"@ {
        false
    } else if t.contains('@') {
        false
    } else {
        match rfind_char(t, ':') {
            None => true,
            Some(i) => eq_ignore_ascii_case(t.skip(i + 1), "latest"@),
        }
    }
}

/// A role name that grants cluster-admin: it contains "cluster-admin" in any
/// ASCII case, or it is the wildcard "*".
pub open spec fn cluster_admin_ref(name: Seq<char>) -> bool {
    contains_seq(ascii_lower_seq(name), "cluster-admin"@) || name == "*"@
}

/// The items of the sequence at `keys` under `v`; none when there is no
/// sequence there.
pub open spec fn sequence_at(v: YamlValue, keys: Seq<Seq<char>>) -> Seq<YamlValue> {
    match get_path(v, keys) {
        Some(YamlValue::Sequence(items)) => items@,
        _ => Seq::empty(),
    }
}

/// The findings for one container. `kind` names the container type in messages.
pub open spec fn container_findings(
    file: Seq<char>,
    resource: Seq<char>,
    ns: Seq<char>,
    c: YamlValue,
    kind: Seq<char>,
) -> Seq<FindingView> {
    let cname = text_or(get_str(c, seq!["name"@]), "<unnamed>"@);
    let image = text_or(get_str(c, seq!["image"@]), ""@);
    let privileged = get_bool(c, seq!["securityContext"@, "privileged"@]) == Some(true);
    let has_limits = match get_path(c, seq!["resources"@, "limits"@]) {
        Some(l) => is_nonempty_mapping(l),
        None => false,
    };
    let shown_image = if image.len() == 0 {
        "<empty>"@
    } else {
        image
    };
    (if privileged {
        seq![
            finding(
                Severity::Critical,
                RuleId::Privileged,
                file,
                resource,
                ns,
                Some(cname),
                kind + " '"@ + cname + "' runs with privileged=true"@,
            ),
        ]
    } else {
        Seq::empty()
    }) + (if latest_image(image) {
        seq![
            finding(
                Severity::Medium,
                RuleId::LatestTag,
                file,
                resource,
                ns,
                Some(cname),
                kind + " '"@ + cname + "' uses mutable tag: "@ + shown_image,
            ),
        ]
    } else {
        Seq::empty()
    }) + (if !has_limits {
        seq![
            finding(
                Severity::Medium,
                RuleId::NoLimits,
                file,
                resource,
                ns,
                Some(cname),
                kind + " '"@ + cname + "' has no resources.limits"@,
            ),
        ]
    } else {
        Seq::empty()
    })
}

/// The findings for a list of containers, in order.
pub open spec fn containers_findings(
    file: Seq<char>,
    resource: Seq<char>,
    ns: Seq<char>,
    cs: Seq<YamlValue>,
    kind: Seq<char>,
) -> Seq<FindingView>
    decreases cs.len(),
{
    if cs.len() == 0 {
        Seq::empty()
    } else {
        containers_findings(file, resource, ns, cs.drop_last(), kind) + container_findings(
            file,
            resource,
            ns,
            cs.last(),
            kind,
        )
    }
}

/// The finding for one volume, if it mounts a host path.
pub open spec fn hostpath_finding(
    file: Seq<char>,
    resource: Seq<char>,
    ns: Seq<char>,
    vol: YamlValue,
) -> Seq<FindingView> {
    if get_path(vol, seq!["hostPath"@]) is Some {
        seq![
            finding(
                Severity::High,
                RuleId::HostPath,
                file,
                resource,
                ns,
                None,
                "Volume '"@ + text_or(get_str(vol, seq!["name"@]), "<unnamed>"@)
                    + "' mounts hostPath: "@ + text_or(
                    get_str(vol, seq!["hostPath"@, "path"@]),
                    ""@,
                ),
            ),
        ]
    } else {
        Seq::empty()
    }
}

/// The host-path findings for a list of volumes, in order.
pub open spec fn hostpath_findings(
    file: Seq<char>,
    resource: Seq<char>,
    ns: Seq<char>,
    vols: Seq<YamlValue>,
) -> Seq<FindingView>
    decreases vols.len(),
{
    if vols.len() == 0 {
        Seq::empty()
    } else {
        hostpath_findings(file, resource, ns, vols.drop_last()) + hostpath_finding(
            file,
            resource,
            ns,
            vols.last(),
        )
    }
}

/// The pod runs as the default service account: none named, an empty name,
/// or "default".
pub open spec fn uses_default_sa(sa: Option<Seq<char>>) -> bool {
    sa is None || sa == Some(""@) || sa == Some("default"@)
}

/// The message of the token-automount finding.
pub open spec fn automount_message(sa: Option<Seq<char>>) -> Seq<char> {
    if sa is Some && sa->0.len() > 0 {
        "automountServiceAccountToken not disabled for SA '"@ + sa->0 + "'"@
    } else {
        "Default SA token automount is enabled (set automountServiceAccountToken: false if unused)"@
    }
}

/// The service-account findings of a pod specification.
pub open spec fn service_account_findings(
    file: Seq<char>,
    resource: Seq<char>,
    ns: Seq<char>,
    spec: YamlValue,
) -> Seq<FindingView> {
    let sa = get_str(spec, seq!["serviceAccountName"@]);
    let automount = get_bool(spec, seq!["automountServiceAccountToken"@]);
    (if uses_default_sa(sa) {
        seq![
            finding(
                Severity::Low,
                RuleId::SaDefault,
                file,
                resource,
                ns,
                None,
                "Workload uses the default ServiceAccount"@,
            ),
        ]
    } else {
        Seq::empty()
    }) + (if automount != Some(false) {
        seq![
            finding(
                Severity::Medium,
                RuleId::SaAutomount,
                file,
                resource,
                ns,
                None,
                automount_message(sa),
            ),
        ]
    } else {
        Seq::empty()
    })
}

/// All findings of one pod specification: host paths, service account,
/// then containers, init containers and ephemeral containers.
pub open spec fn pod_spec_findings(
    file: Seq<char>,
    resource: Seq<char>,
    ns: Seq<char>,
    spec: YamlValue,
) -> Seq<FindingView> {
    hostpath_findings(file, resource, ns, sequence_at(spec, seq!["volumes"@]))
        + service_account_findings(file, resource, ns, spec) + containers_findings(
        file,
        resource,
        ns,
        sequence_at(spec, seq!["containers"@]),
        "Container"@,
    ) + containers_findings(
        file,
        resource,
        ns,
        sequence_at(spec, seq!["initContainers"@]),
        "Init container"@,
    ) + containers_findings(
        file,
        resource,
        ns,
        sequence_at(spec, seq!["ephemeralContainers"@]),
        "Ephemeral container"@,
    )
}

/// The kind of a resource, or the empty text.
pub open spec fn kind_of(doc: YamlValue) -> Seq<char> {
    text_or(get_str(doc, seq!["kind"@]), ""@)
}

/// Kinds that hold a pod template.
pub open spec fn is_template_kind(k: Seq<char>) -> bool {
    ||| k == "Deployment"@
    ||| k == "StatefulSet"@
    ||| k == "DaemonSet"@
    ||| k == "Job"@
    ||| k == "CronJob"@
    ||| k == "ReplicaSet"@
}

/// Kinds that run pods.
pub open spec fn is_workload_kind(k: Seq<char>) -> bool {
    k == "Pod"@ || is_template_kind(k)
}

/// The pod specification of a resource: `spec` of a Pod,
/// `spec.jobTemplate.spec.template.spec` of a CronJob, `spec.template.spec`
/// of the other template kinds.
pub open spec fn pod_spec_of(doc: YamlValue) -> Option<YamlValue> {
    let k = kind_of(doc);
    if k == "Pod"@ {
        get_path(doc, seq!["spec"@])
    } else if k == "CronJob"@ {
        get_path(doc, seq!["spec"@, "jobTemplate"@, "spec"@, "template"@, "spec"@])
    } else if is_template_kind(k) {
        get_path(doc, seq!["spec"@, "template"@, "spec"@])
    } else {
        None
    }
}

/// "Kind/name" of a resource.
pub open spec fn resource_label(doc: YamlValue) -> Seq<char> {
    text_or(get_str(doc, seq!["kind"@]), "Unknown"@) + "/"@ + text_or(
        get_str(doc, seq!["metadata"@, "name"@]),
        "<unnamed>"@,
    )
}

/// The namespace of a resource, "default" when none is given.
pub open spec fn namespace_of(doc: YamlValue) -> Seq<char> {
    text_or(get_str(doc, seq!["metadata"@, "namespace"@]), "default"@)
}

/// The findings of the pod specification of one resource.
pub open spec fn document_findings(file: Seq<char>, doc: YamlValue) -> Seq<FindingView> {
    if get_str(doc, seq!["kind"@]) is None {
        Seq::empty()
    } else {
        match pod_spec_of(doc) {
            Some(spec) => pod_spec_findings(file, resource_label(doc), namespace_of(doc), spec),
            None => Seq::empty(),
        }
    }
}

/// A RoleBinding or ClusterRoleBinding whose role grants cluster-admin.
pub open spec fn admin_binding(doc: YamlValue) -> bool {
    let k = kind_of(doc);
    &&& (k == "RoleBinding"@ || k == "ClusterRoleBinding"@)
    &&& cluster_admin_ref(text_or(get_str(doc, seq!["roleRef"@, "name"@]), ""@))
}

/// The (namespace, name) of a binding subject that is a named ServiceAccount.
pub open spec fn subject_account(s: YamlValue) -> Option<(Seq<char>, Seq<char>)> {
    let name = get_str(s, seq!["name"@]);
    if get_str(s, seq!["kind"@]) == Some("ServiceAccount"@) && name is Some && name->0.len() > 0 {
        Some((text_or(get_str(s, seq!["namespace"@]), "default"@), name->0))
    } else {
        None
    }
}

/// The service accounts among binding subjects, in order.
pub open spec fn subject_accounts(ss: Seq<YamlValue>) -> Seq<(Seq<char>, Seq<char>)>
    decreases ss.len(),
{
    if ss.len() == 0 {
        Seq::empty()
    } else {
        subject_accounts(ss.drop_last()) + match subject_account(ss.last()) {
            Some(a) => seq![a],
            None => Seq::empty(),
        }
    }
}

/// The service accounts that a resource binds to cluster-admin.
pub open spec fn bound_accounts(doc: YamlValue) -> Seq<(Seq<char>, Seq<char>)> {
    if admin_binding(doc) {
        subject_accounts(sequence_at(doc, seq!["subjects"@]))
    } else {
        Seq::empty()
    }
}

/// The finding for one service account bound to cluster-admin by `doc`.
pub open spec fn binding_finding(
    file: Seq<char>,
    doc: YamlValue,
    account: (Seq<char>, Seq<char>),
) -> FindingView {
    finding(
        Severity::Critical,
        RuleId::SaClusterAdmin,
        file,
        resource_label(doc),
        account.0,
        None,
        "ServiceAccount '"@ + account.1 + "' bound to cluster-admin via "@ + resource_label(doc),
    )
}

/// The findings for the accounts `accounts` bound by `doc`, in order.
pub open spec fn binding_findings_of(
    file: Seq<char>,
    doc: YamlValue,
    accounts: Seq<(Seq<char>, Seq<char>)>,
) -> Seq<FindingView> {
    accounts.map_values(|a: (Seq<char>, Seq<char>)| binding_finding(file, doc, a))
}

/// The findings for the cluster-admin bindings of one resource.
pub open spec fn binding_findings(file: Seq<char>, doc: YamlValue) -> Seq<FindingView> {
    binding_findings_of(file, doc, bound_accounts(doc))
}

/// The finding for a workload whose pod runs as a service account in `admins`.
pub open spec fn workload_admin_findings(
    file: Seq<char>,
    doc: YamlValue,
    admins: Seq<(Seq<char>, Seq<char>)>,
) -> Seq<FindingView> {
    if !is_workload_kind(kind_of(doc)) {
        Seq::empty()
    } else {
        match pod_spec_of(doc) {
            Some(spec) => {
                let sa = text_or(get_str(spec, seq!["serviceAccountName"@]), "default"@);
                if admins.contains((namespace_of(doc), sa)) {
                    seq![
                        finding(
                            Severity::Critical,
                            RuleId::SaClusterAdmin,
                            file,
                            resource_label(doc),
                            namespace_of(doc),
                            None,
                            "Workload runs as ServiceAccount '"@ + sa
                                + "' with cluster-admin privileges"@,
                        ),
                    ]
                } else {
                    Seq::empty()
                }
            },
            None => Seq::empty(),
        }
    }
}

/// A parsed document is kept when it is a mapping with an apiVersion and a kind.
pub open spec fn kept(doc: Option<YamlValue>) -> bool {
    &&& doc is Some
    &&& is_mapping(doc->0)
    &&& get_str(doc->0, seq!["apiVersion"@]) is Some
    &&& get_str(doc->0, seq!["kind"@]) is Some
}

/// The kept documents, in order.
pub open spec fn kept_documents(parsed: Seq<Option<YamlValue>>) -> Seq<YamlValue>
    decreases parsed.len(),
{
    if parsed.len() == 0 {
        Seq::empty()
    } else {
        kept_documents(parsed.drop_last()) + if kept(parsed.last()) {
            seq![parsed.last()->0]
        } else {
            Seq::empty()
        }
    }
}

/// Per document in order: its pod-specification findings, then its binding findings.
pub open spec fn first_pass(file: Seq<char>, docs: Seq<YamlValue>) -> Seq<FindingView>
    decreases docs.len(),
{
    if docs.len() == 0 {
        Seq::empty()
    } else {
        first_pass(file, docs.drop_last()) + document_findings(file, docs.last())
            + binding_findings(file, docs.last())
    }
}

/// Every service account bound to cluster-admin in `docs`.
pub open spec fn all_bound_accounts(docs: Seq<YamlValue>) -> Seq<(Seq<char>, Seq<char>)>
    decreases docs.len(),
{
    if docs.len() == 0 {
        Seq::empty()
    } else {
        all_bound_accounts(docs.drop_last()) + bound_accounts(docs.last())
    }
}

/// Per document in order: the finding for a workload that runs as a
/// cluster-admin service account.
pub open spec fn second_pass(
    file: Seq<char>,
    docs: Seq<YamlValue>,
    admins: Seq<(Seq<char>, Seq<char>)>,
) -> Seq<FindingView>
    decreases docs.len(),
{
    if docs.len() == 0 {
        Seq::empty()
    } else {
        second_pass(file, docs.drop_last(), admins) + workload_admin_findings(
            file,
            docs.last(),
            admins,
        )
    }
}

/// All findings of one file, given its parsed documents (`None` for a
/// document that did not parse).
pub open spec fn file_findings(file: Seq<char>, parsed: Seq<Option<YamlValue>>) -> Seq<FindingView> {
    let docs = kept_documents(parsed);
    first_pass(file, docs) + second_pass(file, docs, all_bound_accounts(docs))
}

// ---------------------------------------------------------------------------
// Executable checks
// ---------------------------------------------------------------------------

/// The key paths the checks use, as character sequences.
proof fn lemma_key_paths()
    ensures
        key_path(seq!["name"]) == seq!["name"@],
        key_path(seq!["image"]) == seq!["image"@],
        key_path(seq!["kind"]) == seq!["kind"@],
        key_path(seq!["apiVersion"]) == seq!["apiVersion"@],
        key_path(seq!["spec"]) == seq!["spec"@],
        key_path(seq!["volumes"]) == seq!["volumes"@],
        key_path(seq!["hostPath"]) == seq!["hostPath"@],
        key_path(seq!["subjects"]) == seq!["subjects"@],
        key_path(seq!["namespace"]) == seq!["namespace"@],
        key_path(seq!["containers"]) == seq!["containers"@],
        key_path(seq!["initContainers"]) == seq!["initContainers"@],
        key_path(seq!["ephemeralContainers"]) == seq!["ephemeralContainers"@],
        key_path(seq!["serviceAccountName"]) == seq!["serviceAccountName"@],
        key_path(seq!["automountServiceAccountToken"]) == seq!["automountServiceAccountToken"@],
        key_path(seq!["hostPath", "path"]) == seq!["hostPath"@, "path"@],
        key_path(seq!["securityContext", "privileged"]) == seq!["securityContext"@, "privileged"@],
        key_path(seq!["resources", "limits"]) == seq!["resources"@, "limits"@],
        key_path(seq!["metadata", "name"]) == seq!["metadata"@, "name"@],
        key_path(seq!["metadata", "namespace"]) == seq!["metadata"@, "namespace"@],
        key_path(seq!["roleRef", "name"]) == seq!["roleRef"@, "name"@],
        key_path(seq!["spec", "template", "spec"]) == seq!["spec"@, "template"@, "spec"@],
        key_path(seq!["spec", "jobTemplate", "spec", "template", "spec"]) == seq![
            "spec"@,
            "jobTemplate"@,
            "spec"@,
            "template"@,
            "spec"@,
        ],
{
    assert(key_path(seq!["name"]) =~= seq!["name"@]);
    assert(key_path(seq!["image"]) =~= seq!["image"@]);
    assert(key_path(seq!["kind"]) =~= seq!["kind"@]);
    assert(key_path(seq!["apiVersion"]) =~= seq!["apiVersion"@]);
    assert(key_path(seq!["spec"]) =~= seq!["spec"@]);
    assert(key_path(seq!["volumes"]) =~= seq!["volumes"@]);
    assert(key_path(seq!["hostPath"]) =~= seq!["hostPath"@]);
    assert(key_path(seq!["subjects"]) =~= seq!["subjects"@]);
    assert(key_path(seq!["namespace"]) =~= seq!["namespace"@]);
    assert(key_path(seq!["containers"]) =~= seq!["containers"@]);
    assert(key_path(seq!["initContainers"]) =~= seq!["initContainers"@]);
    assert(key_path(seq!["ephemeralContainers"]) =~= seq!["ephemeralContainers"@]);
    assert(key_path(seq!["serviceAccountName"]) =~= seq!["serviceAccountName"@]);
    assert(key_path(seq!["automountServiceAccountToken"]) =~= seq![
        "automountServiceAccountToken"@,
    ]);
    assert(key_path(seq!["hostPath", "path"]) =~= seq!["hostPath"@, "path"@]);
    assert(key_path(seq!["securityContext", "privileged"]) =~= seq![
        "securityContext"@,
        "privileged"@,
    ]);
    assert(key_path(seq!["resources", "limits"]) =~= seq!["resources"@, "limits"@]);
    assert(key_path(seq!["metadata", "name"]) =~= seq!["metadata"@, "name"@]);
    assert(key_path(seq!["metadata", "namespace"]) =~= seq!["metadata"@, "namespace"@]);
    assert(key_path(seq!["roleRef", "name"]) =~= seq!["roleRef"@, "name"@]);
    assert(key_path(seq!["spec", "template", "spec"]) =~= seq!["spec"@, "template"@, "spec"@]);
    assert(key_path(seq!["spec", "jobTemplate", "spec", "template", "spec"]) =~= seq![
        "spec"@,
        "jobTemplate"@,
        "spec"@,
        "template"@,
        "spec"@,
    ]);
}

/// Builds one finding.
fn make_finding(
    severity: Severity,
    rule_id: RuleId,
    file: &str,
    resource: &str,
    namespace: &str,
    container: Option<String>,
    message: String,
) -> (r: Finding)
    ensures
        r@ == finding(
            severity,
            rule_id,
            file@,
            resource@,
            namespace@,
            match container {
                Some(c) => Some(c@),
                None => None,
            },
            message@,
        ),
{
    Finding {
        severity,
        rule_id,
        file: owned(file),
        resource: owned(resource),
        namespace: owned(namespace),
        container,
        message,
    }
}

/// Whether an image reference uses a mutable tag (see `latest_image`).
pub fn is_latest_image(image: &str) -> (r: bool)
    ensures
        r == latest_image(image@),
{
    let raw = chars_of(image);
    let t = trim_chars(&raw);
    if t.len() == 0 {
        return false;
    }
    let open_braces = chars_of("{{");
    let dollar = chars_of("${");
    let jinja = chars_of("__jinja__");
    if contains_exec(&t, &open_braces) || contains_exec(&t, &dollar) || chars_eq(&t, &jinja) {
        return false;
    }
    if contains_char(&t, '@') {
        return false;
    }
    proof {
        lemma_rfind_char(t@, ':');
    }
    match rfind_char_exec(&t, ':') {
        None => true,
        Some(i) => {
            let mut tag: Vec<char> = Vec::new();
            let mut k = i + 1;
            while k < t.len()
                invariant
                    i < t@.len(),
                    i + 1 <= k <= t@.len(),
                    tag@ == t@.subrange(i + 1, k as int),
                decreases t@.len() - k,
            {
                tag.push(t[k]);
                k = k + 1;
                assert(tag@ =~= t@.subrange(i + 1, k as int));
            }
            assert(tag@ =~= t@.skip(i + 1));
            let lower = ascii_lower_chars(&tag);
            let latest = chars_of("latest");
            let latest_lower = ascii_lower_chars(&latest);
            chars_eq(&lower, &latest_lower)
        },
    }
}

/// Whether a role name grants cluster-admin (see `cluster_admin_ref`).
pub fn is_cluster_admin_ref(name: &str) -> (r: bool)
    ensures
        r == cluster_admin_ref(name@),
{
    let cs = chars_of(name);
    let lower = ascii_lower_chars(&cs);
    let needle = chars_of("cluster-admin");
    contains_exec(&lower, &needle) || str_eq(name, "*")
}

/// The items of the sequence at `keys` under `v`.
fn sequence_items<'a>(v: &'a YamlValue, keys: &[&str]) -> (r: Option<&'a Vec<YamlValue>>)
    ensures
        match r {
            Some(items) => sequence_at(*v, key_path(keys@)) == items@,
            None => sequence_at(*v, key_path(keys@)) == Seq::<YamlValue>::empty(),
        },
{
    match map_get(v, keys) {
        Some(YamlValue::Sequence(items)) => Some(items),
        _ => None,
    }
}

/// Appends the findings of one container to `out`.
fn scan_container(
    out: &mut Vec<Finding>,
    file_path: &str,
    resource: &str,
    namespace: &str,
    container: &YamlValue,
    container_type: &str,
)
    ensures
        views(final(out)@) == views(old(out)@) + container_findings(
            file_path@,
            resource@,
            namespace@,
            *container,
            container_type@,
        ),
{
    let ghost start = views(out@);
    proof {
        lemma_key_paths();
    }
    let cname = map_str_or(container, &key1("name"), "<unnamed>");
    let privileged = map_bool(container, &["securityContext", "privileged"]);
    let image = map_str_or(container, &key1("image"), "");
    let has_limits = match map_get(container, &["resources", "limits"]) {
        Some(l) => is_nonempty_mapping_exec(l),
        None => false,
    };
    let ghost ctype = container_type@;
    let ghost name = cname@;
    let ghost part1: Seq<FindingView> = if privileged == Some(true) {
        seq![
            finding(
                Severity::Critical,
                RuleId::Privileged,
                file_path@,
                resource@,
                namespace@,
                Some(name),
                ctype + " '"@ + name + "' runs with privileged=true"@,
            ),
        ]
    } else {
        Seq::empty()
    };
    if privileged == Some(true) {
        let mut msg = owned(container_type);
        append_str(&mut msg, " '");
        append_str(&mut msg, cname.as_str());
        append_str(&mut msg, "' runs with privileged=true");
        let f = make_finding(
            Severity::Critical,
            RuleId::Privileged,
            file_path,
            resource,
            namespace,
            Some(cname.clone()),
            msg,
        );
        proof {
            lemma_views_push(out@, f);
        }
        out.push(f);
    }
    assert(views(out@) =~= start + part1);
    let ghost shown: Seq<char> = if image@.len() == 0 {
        "<empty>"@
    } else {
        image@
    };
    let ghost part2: Seq<FindingView> = if latest_image(image@) {
        seq![
            finding(
                Severity::Medium,
                RuleId::LatestTag,
                file_path@,
                resource@,
                namespace@,
                Some(name),
                ctype + " '"@ + name + "' uses mutable tag: "@ + shown,
            ),
        ]
    } else {
        Seq::empty()
    };
    if is_latest_image(image.as_str()) {
        let mut msg = owned(container_type);
        append_str(&mut msg, " '");
        append_str(&mut msg, cname.as_str());
        append_str(&mut msg, "' uses mutable tag: ");
        let image_chars = chars_of(image.as_str());
        if image_chars.len() == 0 {
            append_str(&mut msg, "<empty>");
        } else {
            append_str(&mut msg, image.as_str());
        }
        let f = make_finding(
            Severity::Medium,
            RuleId::LatestTag,
            file_path,
            resource,
            namespace,
            Some(cname.clone()),
            msg,
        );
        proof {
            lemma_views_push(out@, f);
        }
        out.push(f);
    }
    assert(views(out@) =~= start + part1 + part2);
    let ghost part3: Seq<FindingView> = if !has_limits {
        seq![
            finding(
                Severity::Medium,
                RuleId::NoLimits,
                file_path@,
                resource@,
                namespace@,
                Some(name),
                ctype + " '"@ + name + "' has no resources.limits"@,
            ),
        ]
    } else {
        Seq::empty()
    };
    if !has_limits {
        let mut msg = owned(container_type);
        append_str(&mut msg, " '");
        append_str(&mut msg, cname.as_str());
        append_str(&mut msg, "' has no resources.limits");
        let f = make_finding(
            Severity::Medium,
            RuleId::NoLimits,
            file_path,
            resource,
            namespace,
            Some(cname),
            msg,
        );
        proof {
            lemma_views_push(out@, f);
        }
        out.push(f);
    }
    assert(views(out@) =~= start + part1 + part2 + part3);
    assert(part1 + part2 + part3 == container_findings(
        file_path@,
        resource@,
        namespace@,
        *container,
        container_type@,
    ));
    assert(views(out@) =~= start + (part1 + part2 + part3));
}


/// Appends the findings of every container in `containers` to `out`.
fn scan_containers(
    out: &mut Vec<Finding>,
    file_path: &str,
    resource: &str,
    namespace: &str,
    containers: &Vec<YamlValue>,
    container_type: &str,
)
    ensures
        views(final(out)@) == views(old(out)@) + containers_findings(
            file_path@,
            resource@,
            namespace@,
            containers@,
            container_type@,
        ),
{
    let ghost start = views(out@);
    let mut i: usize = 0;
    assert(containers@.take(0) =~= Seq::<YamlValue>::empty());
    while i < containers.len()
        invariant
            0 <= i <= containers@.len(),
            views(out@) == start + containers_findings(
                file_path@,
                resource@,
                namespace@,
                containers@.take(i as int),
                container_type@,
            ),
        decreases containers@.len() - i,
    {
        scan_container(out, file_path, resource, namespace, &containers[i], container_type);
        let ghost next = containers@.take(i + 1);
        assert(next.drop_last() =~= containers@.take(i as int));
        assert(next.last() == containers@[i as int]);
        i = i + 1;
        assert(views(out@) =~= start + containers_findings(
            file_path@,
            resource@,
            namespace@,
            containers@.take(i as int),
            container_type@,
        ));
    }
    assert(containers@.take(containers@.len() as int) =~= containers@);
}

/// Appends the host-path finding of one volume, if any, to `out`.
fn scan_volume(out: &mut Vec<Finding>, file_path: &str, resource: &str, namespace: &str, vol: &YamlValue)
    ensures
        views(final(out)@) == views(old(out)@) + hostpath_finding(
            file_path@,
            resource@,
            namespace@,
            *vol,
        ),
{
    proof {
        lemma_key_paths();
    }
    if map_get(vol, &key1("hostPath")).is_some() {
        let vol_name = map_str_or(vol, &key1("name"), "<unnamed>");
        let path = map_str_or(vol, &["hostPath", "path"], "");
        let mut msg = owned("Volume '");
        append_str(&mut msg, vol_name.as_str());
        append_str(&mut msg, "' mounts hostPath: ");
        append_str(&mut msg, path.as_str());
        let f = make_finding(Severity::High, RuleId::HostPath, file_path, resource, namespace, None, msg);
        proof {
            lemma_views_push(out@, f);
        }
        out.push(f);
    } else {
        assert(views(out@) =~= views(out@) + Seq::<FindingView>::empty());
    }
}

/// Appends the host-path findings of all volumes to `out`.
fn scan_volumes(out: &mut Vec<Finding>, file_path: &str, resource: &str, namespace: &str, vols: &Vec<YamlValue>)
    ensures
        views(final(out)@) == views(old(out)@) + hostpath_findings(
            file_path@,
            resource@,
            namespace@,
            vols@,
        ),
{
    let ghost start = views(out@);
    let mut i: usize = 0;
    assert(vols@.take(0) =~= Seq::<YamlValue>::empty());
    while i < vols.len()
        invariant
            0 <= i <= vols@.len(),
            views(out@) == start + hostpath_findings(
                file_path@,
                resource@,
                namespace@,
                vols@.take(i as int),
            ),
        decreases vols@.len() - i,
    {
        scan_volume(out, file_path, resource, namespace, &vols[i]);
        let ghost next = vols@.take(i + 1);
        assert(next.drop_last() =~= vols@.take(i as int));
        assert(next.last() == vols@[i as int]);
        i = i + 1;
        assert(views(out@) =~= start + hostpath_findings(
            file_path@,
            resource@,
            namespace@,
            vols@.take(i as int),
        ));
    }
    assert(vols@.take(vols@.len() as int) =~= vols@);
}

/// Appends the service-account findings of a pod specification to `out`.
fn scan_service_account(out: &mut Vec<Finding>, file_path: &str, resource: &str, namespace: &str, spec: &YamlValue)
    ensures
        views(final(out)@) == views(old(out)@) + service_account_findings(
            file_path@,
            resource@,
            namespace@,
            *spec,
        ),
{
    proof {
        lemma_key_paths();
    }
    let ghost start = views(out@);
    let sa_name = map_str(spec, &key1("serviceAccountName"));
    let automount = map_bool(spec, &key1("automountServiceAccountToken"));
    let ghost sa = get_str(*spec, seq!["serviceAccountName"@]);
    let uses_default = match &sa_name {
        None => true,
        Some(n) => str_eq(n.as_str(), "") || str_eq(n.as_str(), "default"),
    };
    let ghost part1: Seq<FindingView> = if uses_default_sa(sa) {
        seq![
            finding(
                Severity::Low,
                RuleId::SaDefault,
                file_path@,
                resource@,
                namespace@,
                None,
                "Workload uses the default ServiceAccount"@,
            ),
        ]
    } else {
        Seq::empty()
    };
    if uses_default {
        let f = make_finding(
            Severity::Low,
            RuleId::SaDefault,
            file_path,
            resource,
            namespace,
            None,
            owned("Workload uses the default ServiceAccount"),
        );
        proof {
            lemma_views_push(out@, f);
        }
        out.push(f);
    }
    assert(views(out@) =~= start + part1);
    let ghost part2: Seq<FindingView> = if automount != Some(false) {
        seq![
            finding(
                Severity::Medium,
                RuleId::SaAutomount,
                file_path@,
                resource@,
                namespace@,
                None,
                automount_message(sa),
            ),
        ]
    } else {
        Seq::empty()
    };
    if automount != Some(false) {
        let msg = match &sa_name {
            Some(n) => {
                if chars_of(n.as_str()).len() > 0 {
                    let mut m = owned("automountServiceAccountToken not disabled for SA '");
                    append_str(&mut m, n.as_str());
                    append_str(&mut m, "'");
                    m
                } else {
                    owned(
                        "Default SA token automount is enabled (set automountServiceAccountToken: false if unused)",
                    )
                }
            },
            None => owned(
                "Default SA token automount is enabled (set automountServiceAccountToken: false if unused)",
            ),
        };
        let f = make_finding(
            Severity::Medium,
            RuleId::SaAutomount,
            file_path,
            resource,
            namespace,
            None,
            msg,
        );
        proof {
            lemma_views_push(out@, f);
        }
        out.push(f);
    }
    assert(views(out@) =~= start + (part1 + part2));
}

/// Appends all findings of one pod specification to `out`.
fn scan_pod_spec(out: &mut Vec<Finding>, file_path: &str, resource: &str, namespace: &str, spec: &YamlValue)
    ensures
        views(final(out)@) == views(old(out)@) + pod_spec_findings(
            file_path@,
            resource@,
            namespace@,
            *spec,
        ),
{
    proof {
        lemma_key_paths();
    }
    let ghost start = views(out@);
    let ghost (f, r, n) = (file_path@, resource@, namespace@);
    match sequence_items(spec, &key1("volumes")) {
        Some(vols) => scan_volumes(out, file_path, resource, namespace, vols),
        None => {
            assert(hostpath_findings(f, r, n, Seq::<YamlValue>::empty()) =~= Seq::empty());
            assert(views(out@) =~= views(out@) + Seq::<FindingView>::empty());
        },
    }
    let ghost a1 = hostpath_findings(f, r, n, sequence_at(*spec, seq!["volumes"@]));
    assert(views(out@) == start + a1);
    scan_service_account(out, file_path, resource, namespace, spec);
    let ghost a2 = service_account_findings(f, r, n, *spec);
    assert(views(out@) =~= start + (a1 + a2));
    let ghost keys = seq!["containers"@, "initContainers"@, "ephemeralContainers"@];
    match sequence_items(spec, &key1("containers")) {
        Some(cs) => scan_containers(out, file_path, resource, namespace, cs, "Container"),
        None => {
            assert(containers_findings(f, r, n, Seq::<YamlValue>::empty(), "Container"@) =~= Seq::empty());
            assert(views(out@) =~= views(out@) + Seq::<FindingView>::empty());
        },
    }
    let ghost a3 = containers_findings(f, r, n, sequence_at(*spec, seq!["containers"@]), "Container"@);
    assert(views(out@) =~= start + (a1 + a2 + a3));
    match sequence_items(spec, &key1("initContainers")) {
        Some(cs) => scan_containers(out, file_path, resource, namespace, cs, "Init container"),
        None => {
            assert(containers_findings(f, r, n, Seq::<YamlValue>::empty(), "Init container"@) =~= Seq::empty());
            assert(views(out@) =~= views(out@) + Seq::<FindingView>::empty());
        },
    }
    let ghost a4 = containers_findings(f, r, n, sequence_at(*spec, seq!["initContainers"@]), "Init container"@);
    assert(views(out@) =~= start + (a1 + a2 + a3 + a4));
    match sequence_items(spec, &key1("ephemeralContainers")) {
        Some(cs) => scan_containers(out, file_path, resource, namespace, cs, "Ephemeral container"),
        None => {
            assert(containers_findings(f, r, n, Seq::<YamlValue>::empty(), "Ephemeral container"@) =~= Seq::empty());
            assert(views(out@) =~= views(out@) + Seq::<FindingView>::empty());
        },
    }
    let ghost a5 = containers_findings(
        f,
        r,
        n,
        sequence_at(*spec, seq!["ephemeralContainers"@]),
        "Ephemeral container"@,
    );
    assert(views(out@) =~= start + (a1 + a2 + a3 + a4 + a5));
}

/// Whether `k` is a kind that holds a pod template.
fn is_template_kind_exec(k: &str) -> (r: bool)
    ensures
        r == is_template_kind(k@),
{
    str_eq(k, "Deployment") || str_eq(k, "StatefulSet") || str_eq(k, "DaemonSet") || str_eq(
        k,
        "Job",
    ) || str_eq(k, "CronJob") || str_eq(k, "ReplicaSet")
}

/// Whether `k` is a kind that runs pods.
fn is_workload_kind_exec(k: &str) -> (r: bool)
    ensures
        r == is_workload_kind(k@),
{
    str_eq(k, "Pod") || is_template_kind_exec(k)
}

/// The pod specification of a resource (see `pod_spec_of`).
pub fn pod_spec_of_exec<'a>(doc: &'a YamlValue) -> (r: Option<&'a YamlValue>)
    ensures
        match r {
            Some(x) => pod_spec_of(*doc) == Some(*x),
            None => pod_spec_of(*doc) is None,
        },
{
    proof {
        lemma_key_paths();
    }
    let kind = map_str_or(doc, &key1("kind"), "");
    if str_eq(kind.as_str(), "Pod") {
        map_get(doc, &key1("spec"))
    } else if str_eq(kind.as_str(), "CronJob") {
        map_get(doc, &["spec", "jobTemplate", "spec", "template", "spec"])
    } else if is_template_kind_exec(kind.as_str()) {
        map_get(doc, &["spec", "template", "spec"])
    } else {
        None
    }
}

/// "Kind/name" of a resource, with "Unknown" and "<unnamed>" for what is missing.
pub fn resource_label_exec(doc: &YamlValue) -> (r: String)
    ensures
        r@ == resource_label(*doc),
{
    proof {
        lemma_key_paths();
    }
    let mut label = map_str_or(doc, &key1("kind"), "Unknown");
    let name = map_str_or(doc, &["metadata", "name"], "<unnamed>");
    append_str(&mut label, "/");
    append_str(&mut label, name.as_str());
    label
}

/// The namespace of a resource, "default" when none is given.
pub fn namespace_of_exec(doc: &YamlValue) -> (r: String)
    ensures
        r@ == namespace_of(*doc),
{
    proof {
        lemma_key_paths();
    }
    map_str_or(doc, &["metadata", "namespace"], "default")
}

/// Appends the findings of the pod specification of one resource to `out`.
fn scan_document(out: &mut Vec<Finding>, file_path: &str, doc: &YamlValue)
    ensures
        views(final(out)@) == views(old(out)@) + document_findings(file_path@, *doc),
{
    proof {
        lemma_key_paths();
    }
    if map_str(doc, &key1("kind")).is_none() {
        assert(views(out@) =~= views(out@) + Seq::<FindingView>::empty());
        return;
    }
    let ns = namespace_of_exec(doc);
    match pod_spec_of_exec(doc) {
        Some(spec) => {
            let resource = resource_label_exec(doc);
            scan_pod_spec(out, file_path, resource.as_str(), ns.as_str(), spec);
        },
        None => {
            assert(views(out@) =~= views(out@) + Seq::<FindingView>::empty());
        },
    }
}

/// The character-sequence view of (namespace, name) pairs.
pub open spec fn pair_views(s: Seq<(String, String)>) -> Seq<(Seq<char>, Seq<char>)> {
    s.map_values(|p: (String, String)| (p.0@, p.1@))
}

/// The (namespace, name) of a subject that is a named ServiceAccount.
fn subject_account_exec(subject: &YamlValue) -> (r: Option<(String, String)>)
    ensures
        match r {
            Some(p) => subject_account(*subject) == Some((p.0@, p.1@)),
            None => subject_account(*subject) is None,
        },
{
    proof {
        lemma_key_paths();
    }
    let kind = map_str(subject, &key1("kind"));
    let is_account = match &kind {
        Some(k) => str_eq(k.as_str(), "ServiceAccount"),
        None => false,
    };
    if !is_account {
        return None;
    }
    match map_str(subject, &key1("name")) {
        Some(name) => {
            if chars_of(name.as_str()).len() == 0 {
                return None;
            }
            let ns = map_str_or(subject, &key1("namespace"), "default");
            Some((ns, name))
        },
        None => None,
    }
}

/// Appends the findings for the cluster-admin bindings of one resource to
/// `out`, and the bound service accounts to `admins`.
fn scan_bindings(
    out: &mut Vec<Finding>,
    admins: &mut Vec<(String, String)>,
    file_path: &str,
    doc: &YamlValue,
)
    ensures
        views(final(out)@) == views(old(out)@) + binding_findings(file_path@, *doc),
        pair_views(final(admins)@) == pair_views(old(admins)@) + bound_accounts(*doc),
{
    proof {
        lemma_key_paths();
    }
    let ghost out0 = views(out@);
    let ghost adm0 = pair_views(admins@);
    let kind = map_str_or(doc, &key1("kind"), "");
    let role_name = map_str_or(doc, &["roleRef", "name"], "");
    if !(str_eq(kind.as_str(), "RoleBinding") || str_eq(kind.as_str(), "ClusterRoleBinding"))
        || !is_cluster_admin_ref(role_name.as_str()) {
        assert(binding_findings(file_path@, *doc) =~= Seq::<FindingView>::empty());
        assert(views(out@) =~= out0 + Seq::<FindingView>::empty());
        assert(pair_views(admins@) =~= adm0 + Seq::<(Seq<char>, Seq<char>)>::empty());
        return;
    }
    let resource = resource_label_exec(doc);
    match sequence_items(doc, &key1("subjects")) {
        Some(subjects) => {
            let ghost ss = subjects@;
            let mut i: usize = 0;
            assert(ss.take(0) =~= Seq::<YamlValue>::empty());
            assert(binding_findings_of(file_path@, *doc, Seq::empty()) =~= Seq::<FindingView>::empty());
            assert(views(out@) =~= out0 + Seq::<FindingView>::empty());
            assert(pair_views(admins@) =~= adm0 + Seq::<(Seq<char>, Seq<char>)>::empty());
            while i < subjects.len()
                invariant
                    0 <= i <= ss.len(),
                    ss == subjects@,
                    resource@ == resource_label(*doc),
                    views(out@) == out0 + binding_findings_of(
                        file_path@,
                        *doc,
                        subject_accounts(ss.take(i as int)),
                    ),
                    pair_views(admins@) == adm0 + subject_accounts(ss.take(i as int)),
                decreases ss.len() - i,
            {
                let ghost before = subject_accounts(ss.take(i as int));
                let ghost next = ss.take(i + 1);
                assert(next.drop_last() =~= ss.take(i as int));
                assert(next.last() == ss[i as int]);
                match subject_account_exec(&subjects[i]) {
                    Some(pair) => {
                        let ghost acc = (pair.0@, pair.1@);
                        let mut msg = owned("ServiceAccount '");
                        append_str(&mut msg, pair.1.as_str());
                        append_str(&mut msg, "' bound to cluster-admin via ");
                        append_str(&mut msg, resource.as_str());
                        let f = make_finding(
                            Severity::Critical,
                            RuleId::SaClusterAdmin,
                            file_path,
                            resource.as_str(),
                            pair.0.as_str(),
                            None,
                            msg,
                        );
                        proof {
                            lemma_views_push(out@, f);
                        }
                        out.push(f);
                        let ghost old_adm = admins@;
                        admins.push(pair);
                        assert(pair_views(admins@) =~= pair_views(old_adm).push(acc));
                        assert(subject_accounts(next) =~= before.push(acc));
                        assert(binding_findings_of(file_path@, *doc, before.push(acc))
                            =~= binding_findings_of(file_path@, *doc, before).push(
                            binding_finding(file_path@, *doc, acc),
                        ));
                    },
                    None => {
                        assert(subject_accounts(next) =~= before);
                    },
                }
                i = i + 1;
                assert(views(out@) =~= out0 + binding_findings_of(
                    file_path@,
                    *doc,
                    subject_accounts(ss.take(i as int)),
                ));
                assert(pair_views(admins@) =~= adm0 + subject_accounts(ss.take(i as int)));
            }
            assert(ss.take(ss.len() as int) =~= ss);
        },
        None => {
            assert(subject_accounts(Seq::<YamlValue>::empty()) =~= Seq::empty());
            assert(binding_findings_of(file_path@, *doc, Seq::empty()) =~= Seq::<FindingView>::empty());
            assert(views(out@) =~= out0 + Seq::<FindingView>::empty());
            assert(pair_views(admins@) =~= adm0 + Seq::<(Seq<char>, Seq<char>)>::empty());
        },
    }
}

/// Whether the (namespace, name) pair is among `admins`.
fn contains_pair(admins: &Vec<(String, String)>, ns: &str, name: &str) -> (r: bool)
    ensures
        r == pair_views(admins@).contains((ns@, name@)),
{
    let mut i: usize = 0;
    while i < admins.len()
        invariant
            0 <= i <= admins@.len(),
            forall|j: int| 0 <= j < i ==> pair_views(admins@)[j] != (ns@, name@),
        decreases admins@.len() - i,
    {
        if str_eq(admins[i].0.as_str(), ns) && str_eq(admins[i].1.as_str(), name) {
            assert(pair_views(admins@)[i as int] == (ns@, name@));
            return true;
        }
        i = i + 1;
    }
    false
}

/// Appends the finding for a workload that runs as a cluster-admin service
/// account to `out`.
fn scan_workload(out: &mut Vec<Finding>, file_path: &str, doc: &YamlValue, admins: &Vec<(String, String)>)
    ensures
        views(final(out)@) == views(old(out)@) + workload_admin_findings(
            file_path@,
            *doc,
            pair_views(admins@),
        ),
{
    proof {
        lemma_key_paths();
    }
    let kind = map_str_or(doc, &key1("kind"), "");
    if !is_workload_kind_exec(kind.as_str()) {
        assert(views(out@) =~= views(out@) + Seq::<FindingView>::empty());
        return;
    }
    match pod_spec_of_exec(doc) {
        Some(spec) => {
            let sa = map_str_or(spec, &key1("serviceAccountName"), "default");
            let ns = namespace_of_exec(doc);
            if contains_pair(admins, ns.as_str(), sa.as_str()) {
                let resource = resource_label_exec(doc);
                let mut msg = owned("Workload runs as ServiceAccount '");
                append_str(&mut msg, sa.as_str());
                append_str(&mut msg, "' with cluster-admin privileges");
                let f = make_finding(
                    Severity::Critical,
                    RuleId::SaClusterAdmin,
                    file_path,
                    resource.as_str(),
                    ns.as_str(),
                    None,
                    msg,
                );
                proof {
                    lemma_views_push(out@, f);
                }
                out.push(f);
            } else {
                assert(views(out@) =~= views(out@) + Seq::<FindingView>::empty());
            }
        },
        None => {
            assert(views(out@) =~= views(out@) + Seq::<FindingView>::empty());
        },
    }
}

/// The values behind a sequence of references.
pub open spec fn derefs(s: Seq<&YamlValue>) -> Seq<YamlValue> {
    s.map_values(|r: &YamlValue| *r)
}

/// Whether a parsed document is kept (see `kept`).
fn kept_exec(doc: &Option<YamlValue>) -> (r: bool)
    ensures
        r == kept(*doc),
{
    proof {
        lemma_key_paths();
    }
    match doc {
        Some(d) => is_mapping_exec(d) && map_str(d, &key1("apiVersion")).is_some() && map_str(
            d,
            &key1("kind"),
        ).is_some(),
        None => false,
    }
}

/// The findings of one file, given its parsed documents in order (`None` for
/// a document that failed to parse).
///
/// Documents that are not mappings with an apiVersion and a kind are
/// ignored. For each kept document in order come the findings of its pod
/// specification and of its cluster-admin bindings; after them, for each
/// kept document in order, the finding for a workload that runs as a
/// service account bound to cluster-admin anywhere in the file.
pub fn scan_documents(file_path: &str, parsed: &Vec<Option<YamlValue>>) -> (r: Vec<Finding>)
    ensures
        views(r@) == file_findings(file_path@, parsed@),
{
    let mut docs: Vec<&YamlValue> = Vec::new();
    let mut i: usize = 0;
    assert(parsed@.take(0) =~= Seq::<Option<YamlValue>>::empty());
    while i < parsed.len()
        invariant
            0 <= i <= parsed@.len(),
            derefs(docs@) == kept_documents(parsed@.take(i as int)),
        decreases parsed@.len() - i,
    {
        let ghost next = parsed@.take(i + 1);
        assert(next.drop_last() =~= parsed@.take(i as int));
        assert(next.last() == parsed@[i as int]);
        if kept_exec(&parsed[i]) {
            match &parsed[i] {
                Some(d) => {
                    let ghost before = docs@;
                    docs.push(d);
                    assert(derefs(docs@) =~= derefs(before) + seq![*d]);
                },
                None => {},
            }
        } else {
            assert(kept_documents(next) =~= kept_documents(parsed@.take(i as int)));
        }
        i = i + 1;
    }
    assert(parsed@.take(parsed@.len() as int) =~= parsed@);
    let ghost ds = derefs(docs@);
    let mut out: Vec<Finding> = Vec::new();
    let mut admins: Vec<(String, String)> = Vec::new();
    let mut k: usize = 0;
    assert(ds.take(0) =~= Seq::<YamlValue>::empty());
    assert(views(out@) =~= Seq::<FindingView>::empty());
    assert(pair_views(admins@) =~= Seq::<(Seq<char>, Seq<char>)>::empty());
    while k < docs.len()
        invariant
            0 <= k <= docs@.len(),
            ds == derefs(docs@),
            views(out@) == first_pass(file_path@, ds.take(k as int)),
            pair_views(admins@) == all_bound_accounts(ds.take(k as int)),
        decreases docs@.len() - k,
    {
        let ghost next = ds.take(k + 1);
        assert(next.drop_last() =~= ds.take(k as int));
        assert(next.last() == ds[k as int]);
        let doc = docs[k];
        scan_document(&mut out, file_path, doc);
        scan_bindings(&mut out, &mut admins, file_path, doc);
        k = k + 1;
    }
    assert(ds.take(ds.len() as int) =~= ds);
    let ghost admins_all = pair_views(admins@);
    let ghost head = views(out@);
    let mut k: usize = 0;
    assert(second_pass(file_path@, ds.take(0), admins_all) =~= Seq::<FindingView>::empty());
    assert(views(out@) =~= head + Seq::<FindingView>::empty());
    while k < docs.len()
        invariant
            0 <= k <= docs@.len(),
            ds == derefs(docs@),
            admins_all == pair_views(admins@),
            views(out@) == head + second_pass(file_path@, ds.take(k as int), admins_all),
        decreases docs@.len() - k,
    {
        let ghost next = ds.take(k + 1);
        assert(next.drop_last() =~= ds.take(k as int));
        assert(next.last() == ds[k as int]);
        scan_workload(&mut out, file_path, docs[k], &admins);
        k = k + 1;
        assert(views(out@) =~= head + second_pass(file_path@, ds.take(k as int), admins_all));
    }
    assert(ds.take(ds.len() as int) =~= ds);
    out
}

/// The findings of one manifest file, given the path it is reported under
/// and its text: the text is split into documents (nothing where it does not
/// look like a manifest), each document is parsed, and the parsed documents
/// are scanned as `scan_documents` does.
pub fn scan_file_text(file_path: &str, raw: &str) -> (r: Vec<Finding>)
    ensures
        views(r@) == file_findings(file_path@, parsed_documents(manifest_documents(raw@))),
{
    let docs = split_documents(raw);
    let ghost texts = manifest_documents(raw@);
    let mut parsed: Vec<Option<YamlValue>> = Vec::new();
    let mut i: usize = 0;
    while i < docs.len()
        invariant
            0 <= i <= docs@.len(),
            string_views(docs@) == texts,
            parsed@ == parsed_documents(texts.take(i as int)),
        decreases docs@.len() - i,
    {
        let p = parse_document(docs[i].as_str());
        parsed.push(p);
        i = i + 1;
        assert(parsed@ =~= parsed_documents(texts.take(i as int)));
    }
    assert(texts.take(texts.len() as int) =~= texts);
    scan_documents(file_path, &parsed)
}

// ---------------------------------------------------------------------------
// Laws
// ---------------------------------------------------------------------------

/// The severity each rule always reports with.
pub open spec fn rule_severity(r: RuleId) -> Severity {
    match r {
        RuleId::Privileged => Severity::Critical,
        RuleId::HostPath => Severity::High,
        RuleId::LatestTag => Severity::Medium,
        RuleId::NoLimits => Severity::Medium,
        RuleId::SaDefault => Severity::Low,
        RuleId::SaAutomount => Severity::Medium,
        RuleId::SaClusterAdmin => Severity::Critical,
    }
}

/// Rules that are about one container, and name it.
pub open spec fn is_container_rule(r: RuleId) -> bool {
    r == RuleId::Privileged || r == RuleId::LatestTag || r == RuleId::NoLimits
}

/// A finding of file `file` that is consistent with its rule.
pub open spec fn consistent(file: Seq<char>, f: FindingView) -> bool {
    &&& f.file == file
    &&& f.severity == rule_severity(f.rule_id)
    &&& (f.container is Some <==> is_container_rule(f.rule_id))
}

/// Every finding in `s` is consistent.
pub open spec fn all_consistent(file: Seq<char>, s: Seq<FindingView>) -> bool {
    forall|i: int| 0 <= i < s.len() ==> consistent(file, #[trigger] s[i])
}

proof fn lemma_all_consistent_add(file: Seq<char>, a: Seq<FindingView>, b: Seq<FindingView>)
    requires
        all_consistent(file, a),
        all_consistent(file, b),
    ensures
        all_consistent(file, a + b),
{
    assert forall|i: int| 0 <= i < (a + b).len() implies consistent(file, #[trigger] (a + b)[i]) by {
        if i < a.len() {
            assert((a + b)[i] == a[i]);
        } else {
            assert((a + b)[i] == b[i - a.len()]);
        }
    }
}

proof fn lemma_containers_consistent(
    file: Seq<char>,
    resource: Seq<char>,
    ns: Seq<char>,
    cs: Seq<YamlValue>,
    kind: Seq<char>,
)
    ensures
        all_consistent(file, containers_findings(file, resource, ns, cs, kind)),
    decreases cs.len(),
{
    if cs.len() > 0 {
        lemma_containers_consistent(file, resource, ns, cs.drop_last(), kind);
        let c = cs.last();
        let one = container_findings(file, resource, ns, c, kind);
        assert(all_consistent(file, one));
        lemma_all_consistent_add(file, containers_findings(file, resource, ns, cs.drop_last(), kind), one);
    }
}

proof fn lemma_hostpaths_consistent(file: Seq<char>, resource: Seq<char>, ns: Seq<char>, vols: Seq<YamlValue>)
    ensures
        all_consistent(file, hostpath_findings(file, resource, ns, vols)),
    decreases vols.len(),
{
    if vols.len() > 0 {
        lemma_hostpaths_consistent(file, resource, ns, vols.drop_last());
        lemma_all_consistent_add(
            file,
            hostpath_findings(file, resource, ns, vols.drop_last()),
            hostpath_finding(file, resource, ns, vols.last()),
        );
    }
}

proof fn lemma_pod_spec_consistent(file: Seq<char>, resource: Seq<char>, ns: Seq<char>, spec: YamlValue)
    ensures
        all_consistent(file, pod_spec_findings(file, resource, ns, spec)),
{
    let a1 = hostpath_findings(file, resource, ns, sequence_at(spec, seq!["volumes"@]));
    let a2 = service_account_findings(file, resource, ns, spec);
    let a3 = containers_findings(file, resource, ns, sequence_at(spec, seq!["containers"@]), "Container"@);
    let a4 = containers_findings(
        file,
        resource,
        ns,
        sequence_at(spec, seq!["initContainers"@]),
        "Init container"@,
    );
    let a5 = containers_findings(
        file,
        resource,
        ns,
        sequence_at(spec, seq!["ephemeralContainers"@]),
        "Ephemeral container"@,
    );
    lemma_hostpaths_consistent(file, resource, ns, sequence_at(spec, seq!["volumes"@]));
    assert(all_consistent(file, a2));
    lemma_containers_consistent(file, resource, ns, sequence_at(spec, seq!["containers"@]), "Container"@);
    lemma_containers_consistent(
        file,
        resource,
        ns,
        sequence_at(spec, seq!["initContainers"@]),
        "Init container"@,
    );
    lemma_containers_consistent(
        file,
        resource,
        ns,
        sequence_at(spec, seq!["ephemeralContainers"@]),
        "Ephemeral container"@,
    );
    lemma_all_consistent_add(file, a1, a2);
    lemma_all_consistent_add(file, a1 + a2, a3);
    lemma_all_consistent_add(file, a1 + a2 + a3, a4);
    lemma_all_consistent_add(file, a1 + a2 + a3 + a4, a5);
}

proof fn lemma_first_pass_consistent(file: Seq<char>, docs: Seq<YamlValue>)
    ensures
        all_consistent(file, first_pass(file, docs)),
    decreases docs.len(),
{
    if docs.len() > 0 {
        let d = docs.last();
        lemma_first_pass_consistent(file, docs.drop_last());
        if get_str(d, seq!["kind"@]) is Some {
            match pod_spec_of(d) {
                Some(spec) => lemma_pod_spec_consistent(file, resource_label(d), namespace_of(d), spec),
                None => {},
            }
        }
        let b = binding_findings(file, d);
        assert(all_consistent(file, b));
        lemma_all_consistent_add(file, first_pass(file, docs.drop_last()), document_findings(file, d));
        lemma_all_consistent_add(file, first_pass(file, docs.drop_last()) + document_findings(file, d), b);
    }
}

proof fn lemma_second_pass_consistent(
    file: Seq<char>,
    docs: Seq<YamlValue>,
    admins: Seq<(Seq<char>, Seq<char>)>,
)
    ensures
        all_consistent(file, second_pass(file, docs, admins)),
    decreases docs.len(),
{
    if docs.len() > 0 {
        lemma_second_pass_consistent(file, docs.drop_last(), admins);
        lemma_all_consistent_add(
            file,
            second_pass(file, docs.drop_last(), admins),
            workload_admin_findings(file, docs.last(), admins),
        );
    }
}

/// Every finding reported for a file carries that file's path, the severity
/// fixed for its rule (PRIV and SA-CLUSTERADMIN critical, HOSTPATH high,
/// LATEST, LIMITS and SA-AUTOMOUNT medium, SA-DEFAULT low), and a container
/// name exactly when its rule is about one container.
pub proof fn law_findings_are_consistent(file: Seq<char>, parsed: Seq<Option<YamlValue>>)
    ensures
        all_consistent(file, file_findings(file, parsed)),
{
    let docs = kept_documents(parsed);
    lemma_first_pass_consistent(file, docs);
    lemma_second_pass_consistent(file, docs, all_bound_accounts(docs));
    lemma_all_consistent_add(file, first_pass(file, docs), second_pass(file, docs, all_bound_accounts(docs)));
}

/// The kept documents of two parts are those of each part in turn.
proof fn lemma_kept_documents_concat(a: Seq<Option<YamlValue>>, b: Seq<Option<YamlValue>>)
    ensures
        kept_documents(a + b) == kept_documents(a) + kept_documents(b),
    decreases b.len(),
{
    if b.len() == 0 {
        assert(a + b =~= a);
        assert(kept_documents(a) + kept_documents(b) =~= kept_documents(a));
    } else {
        assert((a + b).drop_last() =~= a + b.drop_last());
        assert((a + b).last() == b.last());
        lemma_kept_documents_concat(a, b.drop_last());
        assert(kept_documents(a + b) =~= kept_documents(a) + kept_documents(b));
    }
}

/// A document that is not kept (one that failed to parse, or that is not a
/// mapping with an apiVersion and a kind) changes nothing in a file's
/// findings, wherever it stands.
pub proof fn law_unkept_document_ignored(
    file: Seq<char>,
    before: Seq<Option<YamlValue>>,
    doc: Option<YamlValue>,
    after: Seq<Option<YamlValue>>,
)
    requires
        !kept(doc),
    ensures
        file_findings(file, before + seq![doc] + after) == file_findings(file, before + after),
{
    lemma_kept_documents_concat(before, seq![doc]);
    lemma_kept_documents_concat(before + seq![doc], after);
    lemma_kept_documents_concat(before, after);
    assert(seq![doc].drop_last() =~= Seq::<Option<YamlValue>>::empty());
    assert(seq![doc].last() == doc);
    assert(kept_documents(Seq::<Option<YamlValue>>::empty()) == Seq::<YamlValue>::empty());
    assert(kept_documents(seq![doc]) =~= Seq::<YamlValue>::empty());
    assert(kept_documents(before + seq![doc]) =~= kept_documents(before));
}

/// A document that failed to parse changes nothing in a file's findings.
pub proof fn law_unparsed_document_ignored(file: Seq<char>, parsed: Seq<Option<YamlValue>>)
    ensures
        file_findings(file, parsed.push(None)) == file_findings(file, parsed),
{
    law_unkept_document_ignored(file, parsed, None, Seq::empty());
    assert(parsed + seq![None] + Seq::<Option<YamlValue>>::empty() =~= parsed.push(None));
    assert(parsed + Seq::<Option<YamlValue>>::empty() =~= parsed);
}

/// Each kept document is among the kept documents.
proof fn lemma_kept_contains(parsed: Seq<Option<YamlValue>>, k: int)
    requires
        0 <= k < parsed.len(),
        kept(parsed[k]),
    ensures
        kept_documents(parsed).contains(parsed[k]->0),
    decreases parsed.len(),
{
    if k == parsed.len() - 1 {
        let r = kept_documents(parsed.drop_last());
        assert(kept_documents(parsed)[r.len() as int] == parsed[k]->0);
    } else {
        lemma_kept_contains(parsed.drop_last(), k);
        let r = kept_documents(parsed.drop_last());
        let j = choose|j: int| 0 <= j < r.len() && r[j] == parsed[k]->0;
        assert(kept_documents(parsed)[j] == r[j]);
    }
}

/// The accounts bound by any one document are among all bound accounts.
proof fn lemma_all_bound_contains(docs: Seq<YamlValue>, d: YamlValue, acct: (Seq<char>, Seq<char>))
    requires
        docs.contains(d),
        bound_accounts(d).contains(acct),
    ensures
        all_bound_accounts(docs).contains(acct),
    decreases docs.len(),
{
    let prev = all_bound_accounts(docs.drop_last());
    if docs.last() == d {
        let j = choose|j: int| 0 <= j < bound_accounts(d).len() && bound_accounts(d)[j] == acct;
        assert(all_bound_accounts(docs)[prev.len() + j] == acct);
    } else {
        let k = choose|k: int| 0 <= k < docs.len() && docs[k] == d;
        assert(docs.drop_last()[k] == d);
        lemma_all_bound_contains(docs.drop_last(), d, acct);
        let j = choose|j: int| 0 <= j < prev.len() && prev[j] == acct;
        assert(all_bound_accounts(docs)[j] == acct);
    }
}

/// The workload finding of any one document is in the second pass.
proof fn lemma_second_pass_contains(
    file: Seq<char>,
    docs: Seq<YamlValue>,
    d: YamlValue,
    admins: Seq<(Seq<char>, Seq<char>)>,
)
    requires
        docs.contains(d),
        workload_admin_findings(file, d, admins).len() > 0,
    ensures
        second_pass(file, docs, admins).contains(workload_admin_findings(file, d, admins)[0]),
    decreases docs.len(),
{
    let prev = second_pass(file, docs.drop_last(), admins);
    if docs.last() == d {
        assert(second_pass(file, docs, admins)[prev.len() as int] == workload_admin_findings(file, d, admins)[0]);
    } else {
        let k = choose|k: int| 0 <= k < docs.len() && docs[k] == d;
        assert(docs.drop_last()[k] == d);
        lemma_second_pass_contains(file, docs.drop_last(), d, admins);
        let j = choose|j: int| 0 <= j < prev.len() && prev[j] == workload_admin_findings(file, d, admins)[0];
        assert(second_pass(file, docs, admins)[j] == prev[j]);
    }
}

/// A workload that runs as a service account which some resource of the same
/// file binds to cluster-admin is reported as such, whichever of the two
/// comes first in the file.
pub proof fn law_cluster_admin_workload_reported(
    file: Seq<char>,
    parsed: Seq<Option<YamlValue>>,
    binding: int,
    workload: int,
)
    requires
        0 <= binding < parsed.len(),
        0 <= workload < parsed.len(),
        kept(parsed[binding]),
        kept(parsed[workload]),
        is_workload_kind(kind_of(parsed[workload]->0)),
        pod_spec_of(parsed[workload]->0) is Some,
        bound_accounts(parsed[binding]->0).contains(
            (
                namespace_of(parsed[workload]->0),
                text_or(get_str(pod_spec_of(parsed[workload]->0)->0, seq!["serviceAccountName"@]), "default"@),
            ),
        ),
    ensures
        file_findings(file, parsed).contains(
            finding(
                Severity::Critical,
                RuleId::SaClusterAdmin,
                file,
                resource_label(parsed[workload]->0),
                namespace_of(parsed[workload]->0),
                None,
                "Workload runs as ServiceAccount '"@ + text_or(
                    get_str(pod_spec_of(parsed[workload]->0)->0, seq!["serviceAccountName"@]),
                    "default"@,
                ) + "' with cluster-admin privileges"@,
            ),
        ),
{
    let docs = kept_documents(parsed);
    let w = parsed[workload]->0;
    let sa = text_or(get_str(pod_spec_of(w)->0, seq!["serviceAccountName"@]), "default"@);
    let acct = (namespace_of(w), sa);
    lemma_kept_contains(parsed, binding);
    lemma_kept_contains(parsed, workload);
    lemma_all_bound_contains(docs, parsed[binding]->0, acct);
    let admins = all_bound_accounts(docs);
    lemma_second_pass_contains(file, docs, w, admins);
    let first = first_pass(file, docs);
    let second = second_pass(file, docs, admins);
    let j = choose|j: int| 0 <= j < second.len() && second[j] == workload_admin_findings(file, w, admins)[0];
    assert((first + second)[first.len() + j] == second[j]);
}

/// The findings of each document are among the findings of the pass over
/// all documents.
proof fn lemma_first_pass_contains(file: Seq<char>, docs: Seq<YamlValue>, d: YamlValue, f: FindingView)
    requires
        docs.contains(d),
        document_findings(file, d).contains(f) || binding_findings(file, d).contains(f),
    ensures
        first_pass(file, docs).contains(f),
    decreases docs.len(),
{
    let prev = first_pass(file, docs.drop_last());
    let whole = first_pass(file, docs);
    assert(whole == prev + document_findings(file, docs.last()) + binding_findings(file, docs.last()));
    if docs.last() == d {
        if document_findings(file, d).contains(f) {
            let j = choose|j: int| 0 <= j < document_findings(file, d).len() && document_findings(file, d)[j] == f;
            assert(whole[prev.len() + j] == f);
        } else {
            let j = choose|j: int| 0 <= j < binding_findings(file, d).len() && binding_findings(file, d)[j] == f;
            assert(whole[prev.len() + document_findings(file, d).len() + j] == f);
        }
    } else {
        let k = choose|k: int| 0 <= k < docs.len() && docs[k] == d;
        assert(docs.drop_last()[k] == d);
        lemma_first_pass_contains(file, docs.drop_last(), d, f);
        let j = choose|j: int| 0 <= j < prev.len() && prev[j] == f;
        assert(whole[j] == f);
    }
}

/// Every finding of a kept document's pod specification and of its
/// cluster-admin bindings is among the findings of the file.
pub proof fn law_document_findings_reported(file: Seq<char>, parsed: Seq<Option<YamlValue>>, k: int)
    requires
        0 <= k < parsed.len(),
        kept(parsed[k]),
    ensures
        forall|i: int|
            0 <= i < document_findings(file, parsed[k]->0).len() ==> file_findings(file, parsed).contains(
                #[trigger] document_findings(file, parsed[k]->0)[i],
            ),
        forall|i: int|
            0 <= i < binding_findings(file, parsed[k]->0).len() ==> file_findings(file, parsed).contains(
                #[trigger] binding_findings(file, parsed[k]->0)[i],
            ),
{
    let docs = kept_documents(parsed);
    let d = parsed[k]->0;
    let first = first_pass(file, docs);
    let second = second_pass(file, docs, all_bound_accounts(docs));
    lemma_kept_contains(parsed, k);
    assert forall|i: int| 0 <= i < document_findings(file, d).len() implies file_findings(file, parsed).contains(
        #[trigger] document_findings(file, d)[i],
    ) by {
        let f = document_findings(file, d)[i];
        lemma_first_pass_contains(file, docs, d, f);
        let j = choose|j: int| 0 <= j < first.len() && first[j] == f;
        assert((first + second)[j] == f);
    }
    assert forall|i: int| 0 <= i < binding_findings(file, d).len() implies file_findings(file, parsed).contains(
        #[trigger] binding_findings(file, d)[i],
    ) by {
        let f = binding_findings(file, d)[i];
        lemma_first_pass_contains(file, docs, d, f);
        let j = choose|j: int| 0 <= j < first.len() && first[j] == f;
        assert((first + second)[j] == f);
    }
}

/// A Deployment, StatefulSet, DaemonSet, Job or ReplicaSet runs pods, and its
/// findings are those of the pod specification at spec.template.spec.
pub proof fn law_pod_template_kinds(file: Seq<char>, doc: YamlValue, spec: YamlValue)
    requires
        get_str(doc, seq!["kind"@]) == Some("Deployment"@) || get_str(doc, seq!["kind"@]) == Some(
            "StatefulSet"@,
        ) || get_str(doc, seq!["kind"@]) == Some("DaemonSet"@) || get_str(doc, seq!["kind"@]) == Some(
            "Job"@,
        ) || get_str(doc, seq!["kind"@]) == Some("ReplicaSet"@),
        get_path(doc, seq!["spec"@, "template"@, "spec"@]) == Some(spec),
    ensures
        is_workload_kind(kind_of(doc)),
        pod_spec_of(doc) == Some(spec),
        document_findings(file, doc) == pod_spec_findings(file, resource_label(doc), namespace_of(doc), spec),
{
    reveal_strlit("Deployment");
    reveal_strlit("StatefulSet");
    reveal_strlit("DaemonSet");
    reveal_strlit("Job");
    reveal_strlit("ReplicaSet");
    reveal_strlit("CronJob");
    reveal_strlit("Pod");
    let k = kind_of(doc);
    assert(k.len() != 7) by {
        assert("Deployment"@.len() == 10 && "StatefulSet"@.len() == 11 && "DaemonSet"@.len() == 9);
        assert("Job"@.len() == 3 && "ReplicaSet"@.len() == 10);
    }
    assert(k != "CronJob"@);
    assert(k != "Pod"@) by {
        if k == "Pod"@ {
            assert(k[0] == 'P');
            assert("Job"@[0] == 'J');
        }
    }
}

/// A CronJob runs pods, and its findings are those of the pod specification
/// at spec.jobTemplate.spec.template.spec.
pub proof fn law_cronjob_pod_spec(file: Seq<char>, doc: YamlValue, spec: YamlValue)
    requires
        get_str(doc, seq!["kind"@]) == Some("CronJob"@),
        get_path(doc, seq!["spec"@, "jobTemplate"@, "spec"@, "template"@, "spec"@]) == Some(spec),
    ensures
        is_workload_kind(kind_of(doc)),
        pod_spec_of(doc) == Some(spec),
        document_findings(file, doc) == pod_spec_findings(file, resource_label(doc), namespace_of(doc), spec),
{
    reveal_strlit("CronJob");
    reveal_strlit("Pod");
    assert("CronJob"@ != "Pod"@) by {
        assert("CronJob"@.len() == 7 && "Pod"@.len() == 3);
    }
}

/// A Pod's findings are those of its own spec.
pub proof fn law_pod_spec(file: Seq<char>, doc: YamlValue, spec: YamlValue)
    requires
        get_str(doc, seq!["kind"@]) == Some("Pod"@),
        get_path(doc, seq!["spec"@]) == Some(spec),
    ensures
        is_workload_kind(kind_of(doc)),
        pod_spec_of(doc) == Some(spec),
        document_findings(file, doc) == pod_spec_findings(file, resource_label(doc), namespace_of(doc), spec),
{
}

/// Each binding subject that is a named ServiceAccount is among the accounts.
proof fn lemma_subject_accounts_contains(ss: Seq<YamlValue>, j: int)
    requires
        0 <= j < ss.len(),
        subject_account(ss[j]) is Some,
    ensures
        subject_accounts(ss).contains(subject_account(ss[j])->0),
    decreases ss.len(),
{
    let prev = subject_accounts(ss.drop_last());
    if j == ss.len() - 1 {
        assert(subject_accounts(ss)[prev.len() as int] == subject_account(ss[j])->0);
    } else {
        assert(ss.drop_last()[j] == ss[j]);
        lemma_subject_accounts_contains(ss.drop_last(), j);
        let i = choose|i: int| 0 <= i < prev.len() && prev[i] == subject_account(ss[j])->0;
        assert(subject_accounts(ss)[i] == prev[i]);
    }
}

/// The role "cluster-admin" grants cluster-admin.
proof fn lemma_cluster_admin_name()
    ensures
        cluster_admin_ref("cluster-admin"@),
{
    reveal_strlit("cluster-admin");
    let x = "cluster-admin"@;
    assert(ascii_lower_seq(x) =~= x);
    assert(x.subrange(0, x.len() as int) =~= x);
    assert(occurs_at(ascii_lower_seq(x), x, 0));
}

/// A RoleBinding, like a ClusterRoleBinding, whose roleRef names
/// cluster-admin binds each of its ServiceAccount subjects that has a name to
/// cluster-admin, and reports a critical finding for it.
pub proof fn law_admin_binding_subjects(file: Seq<char>, doc: YamlValue, j: int)
    requires
        get_str(doc, seq!["kind"@]) == Some("RoleBinding"@) || get_str(doc, seq!["kind"@]) == Some(
            "ClusterRoleBinding"@,
        ),
        get_str(doc, seq!["roleRef"@, "name"@]) == Some("cluster-admin"@),
        0 <= j < sequence_at(doc, seq!["subjects"@]).len(),
        get_str(sequence_at(doc, seq!["subjects"@])[j], seq!["kind"@]) == Some("ServiceAccount"@),
        get_str(sequence_at(doc, seq!["subjects"@])[j], seq!["name"@]) is Some,
        get_str(sequence_at(doc, seq!["subjects"@])[j], seq!["name"@])->0.len() > 0,
    ensures
        bound_accounts(doc).contains(
            (
                text_or(get_str(sequence_at(doc, seq!["subjects"@])[j], seq!["namespace"@]), "default"@),
                get_str(sequence_at(doc, seq!["subjects"@])[j], seq!["name"@])->0,
            ),
        ),
        binding_findings(file, doc).contains(
            finding(
                Severity::Critical,
                RuleId::SaClusterAdmin,
                file,
                resource_label(doc),
                text_or(get_str(sequence_at(doc, seq!["subjects"@])[j], seq!["namespace"@]), "default"@),
                None,
                "ServiceAccount '"@ + get_str(sequence_at(doc, seq!["subjects"@])[j], seq!["name"@])->0
                    + "' bound to cluster-admin via "@ + resource_label(doc),
            ),
        ),
{
    lemma_cluster_admin_name();
    let ss = sequence_at(doc, seq!["subjects"@]);
    lemma_subject_accounts_contains(ss, j);
    let accts = bound_accounts(doc);
    let acct = subject_account(ss[j])->0;
    let i = choose|i: int| 0 <= i < accts.len() && accts[i] == acct;
    assert(binding_findings(file, doc)[i] == binding_finding(file, doc, acct));
}

/// The findings of each container are among those of its list.
proof fn lemma_containers_findings_contains(
    file: Seq<char>,
    resource: Seq<char>,
    ns: Seq<char>,
    cs: Seq<YamlValue>,
    kind: Seq<char>,
    j: int,
    f: FindingView,
)
    requires
        0 <= j < cs.len(),
        container_findings(file, resource, ns, cs[j], kind).contains(f),
    ensures
        containers_findings(file, resource, ns, cs, kind).contains(f),
    decreases cs.len(),
{
    let prev = containers_findings(file, resource, ns, cs.drop_last(), kind);
    let whole = containers_findings(file, resource, ns, cs, kind);
    if j == cs.len() - 1 {
        let own = container_findings(file, resource, ns, cs[j], kind);
        let i = choose|i: int| 0 <= i < own.len() && own[i] == f;
        assert(whole[prev.len() + i] == f);
    } else {
        assert(cs.drop_last()[j] == cs[j]);
        lemma_containers_findings_contains(file, resource, ns, cs.drop_last(), kind, j, f);
        let i = choose|i: int| 0 <= i < prev.len() && prev[i] == f;
        assert(whole[i] == f);
    }
}

/// A container of a pod specification that runs privileged is reported as a
/// critical finding, and one without resources.limits as a medium one, each
/// naming the container ("<unnamed>" when it has no name).
pub proof fn law_container_checks(
    file: Seq<char>,
    resource: Seq<char>,
    ns: Seq<char>,
    spec: YamlValue,
    j: int,
)
    requires
        0 <= j < sequence_at(spec, seq!["containers"@]).len(),
    ensures
        ({
            let c = sequence_at(spec, seq!["containers"@])[j];
            let cname = text_or(get_str(c, seq!["name"@]), "<unnamed>"@);
            &&& get_bool(c, seq!["securityContext"@, "privileged"@]) == Some(true)
                ==> pod_spec_findings(file, resource, ns, spec).contains(
                finding(
                    Severity::Critical,
                    RuleId::Privileged,
                    file,
                    resource,
                    ns,
                    Some(cname),
                    "Container '"@ + cname + "' runs with privileged=true"@,
                ),
            )
            &&& get_path(c, seq!["resources"@, "limits"@]) is None
                ==> pod_spec_findings(file, resource, ns, spec).contains(
                finding(
                    Severity::Medium,
                    RuleId::NoLimits,
                    file,
                    resource,
                    ns,
                    Some(cname),
                    "Container '"@ + cname + "' has no resources.limits"@,
                ),
            )
        }),
{
    let cs = sequence_at(spec, seq!["containers"@]);
    let c = cs[j];
    let cname = text_or(get_str(c, seq!["name"@]), "<unnamed>"@);
    let own = container_findings(file, resource, ns, c, "Container"@);
    let a = hostpath_findings(file, resource, ns, sequence_at(spec, seq!["volumes"@]))
        + service_account_findings(file, resource, ns, spec);
    let b = containers_findings(file, resource, ns, cs, "Container"@);
    let rest = containers_findings(file, resource, ns, sequence_at(spec, seq!["initContainers"@]), "Init container"@)
        + containers_findings(file, resource, ns, sequence_at(spec, seq!["ephemeralContainers"@]), "Ephemeral container"@);
    assert(pod_spec_findings(file, resource, ns, spec) =~= a + b + rest);
    let priv_f = finding(
        Severity::Critical,
        RuleId::Privileged,
        file,
        resource,
        ns,
        Some(cname),
        "Container '"@ + cname + "' runs with privileged=true"@,
    );
    let lim_f = finding(
        Severity::Medium,
        RuleId::NoLimits,
        file,
        resource,
        ns,
        Some(cname),
        "Container '"@ + cname + "' has no resources.limits"@,
    );
    if get_bool(c, seq!["securityContext"@, "privileged"@]) == Some(true) {
        assert("Container"@ + " '"@ + cname + "' runs with privileged=true"@ =~= "Container '"@ + cname
            + "' runs with privileged=true"@) by {
            reveal_strlit("Container");
            reveal_strlit(" '");
            reveal_strlit("Container '");
        }
        assert(own[0] == priv_f);
        lemma_containers_findings_contains(file, resource, ns, cs, "Container"@, j, priv_f);
        let i = choose|i: int| 0 <= i < b.len() && b[i] == priv_f;
        assert((a + b + rest)[a.len() + i] == priv_f);
    }
    if get_path(c, seq!["resources"@, "limits"@]) is None {
        assert("Container"@ + " '"@ + cname + "' has no resources.limits"@ =~= "Container '"@ + cname
            + "' has no resources.limits"@) by {
            reveal_strlit("Container");
            reveal_strlit(" '");
            reveal_strlit("Container '");
        }
        assert(own[own.len() - 1] == lim_f);
        lemma_containers_findings_contains(file, resource, ns, cs, "Container"@, j, lim_f);
        let i = choose|i: int| 0 <= i < b.len() && b[i] == lim_f;
        assert((a + b + rest)[a.len() + i] == lim_f);
    }
}

/// The host-path finding of each volume is among those of its list.
proof fn lemma_hostpath_findings_contains(
    file: Seq<char>,
    resource: Seq<char>,
    ns: Seq<char>,
    vols: Seq<YamlValue>,
    j: int,
)
    requires
        0 <= j < vols.len(),
        hostpath_finding(file, resource, ns, vols[j]).len() > 0,
    ensures
        hostpath_findings(file, resource, ns, vols).contains(hostpath_finding(file, resource, ns, vols[j])[0]),
    decreases vols.len(),
{
    let prev = hostpath_findings(file, resource, ns, vols.drop_last());
    let whole = hostpath_findings(file, resource, ns, vols);
    let f = hostpath_finding(file, resource, ns, vols[j])[0];
    if j == vols.len() - 1 {
        assert(whole[prev.len() as int] == f);
    } else {
        assert(vols.drop_last()[j] == vols[j]);
        lemma_hostpath_findings_contains(file, resource, ns, vols.drop_last(), j);
        let i = choose|i: int| 0 <= i < prev.len() && prev[i] == f;
        assert(whole[i] == f);
    }
}

/// Of a pod specification: a volume that mounts a host path is a high
/// finding naming the volume and the path; running without a service
/// account name, or as "default", is a low finding; and leaving
/// automountServiceAccountToken other than false is a medium finding that
/// names the service account when one is named.
pub proof fn law_pod_spec_account_and_volume_checks(
    file: Seq<char>,
    resource: Seq<char>,
    ns: Seq<char>,
    spec: YamlValue,
    j: int,
)
    ensures
        0 <= j < sequence_at(spec, seq!["volumes"@]).len() && get_path(
            sequence_at(spec, seq!["volumes"@])[j],
            seq!["hostPath"@],
        ) is Some ==> pod_spec_findings(file, resource, ns, spec).contains(
            finding(
                Severity::High,
                RuleId::HostPath,
                file,
                resource,
                ns,
                None,
                "Volume '"@ + text_or(get_str(sequence_at(spec, seq!["volumes"@])[j], seq!["name"@]), "<unnamed>"@)
                    + "' mounts hostPath: "@ + text_or(
                    get_str(sequence_at(spec, seq!["volumes"@])[j], seq!["hostPath"@, "path"@]),
                    ""@,
                ),
            ),
        ),
        get_str(spec, seq!["serviceAccountName"@]) is None || get_str(spec, seq!["serviceAccountName"@])
            == Some("default"@) ==> pod_spec_findings(file, resource, ns, spec).contains(
            finding(
                Severity::Low,
                RuleId::SaDefault,
                file,
                resource,
                ns,
                None,
                "Workload uses the default ServiceAccount"@,
            ),
        ),
        get_bool(spec, seq!["automountServiceAccountToken"@]) != Some(false) && get_str(
            spec,
            seq!["serviceAccountName"@],
        ) is Some && get_str(spec, seq!["serviceAccountName"@])->0.len() > 0 ==> pod_spec_findings(
            file,
            resource,
            ns,
            spec,
        ).contains(
            finding(
                Severity::Medium,
                RuleId::SaAutomount,
                file,
                resource,
                ns,
                None,
                "automountServiceAccountToken not disabled for SA '"@ + get_str(
                    spec,
                    seq!["serviceAccountName"@],
                )->0 + "'"@,
            ),
        ),
        get_bool(spec, seq!["automountServiceAccountToken"@]) != Some(false) && get_str(
            spec,
            seq!["serviceAccountName"@],
        ) is None ==> pod_spec_findings(file, resource, ns, spec).contains(
            finding(
                Severity::Medium,
                RuleId::SaAutomount,
                file,
                resource,
                ns,
                None,
                "Default SA token automount is enabled (set automountServiceAccountToken: false if unused)"@,
            ),
        ),
{
    let vols = sequence_at(spec, seq!["volumes"@]);
    let h = hostpath_findings(file, resource, ns, vols);
    let sa = service_account_findings(file, resource, ns, spec);
    let cs = containers_findings(file, resource, ns, sequence_at(spec, seq!["containers"@]), "Container"@)
        + containers_findings(file, resource, ns, sequence_at(spec, seq!["initContainers"@]), "Init container"@)
        + containers_findings(file, resource, ns, sequence_at(spec, seq!["ephemeralContainers"@]), "Ephemeral container"@);
    let all = pod_spec_findings(file, resource, ns, spec);
    assert(all =~= h + sa + cs);
    if 0 <= j < vols.len() && get_path(vols[j], seq!["hostPath"@]) is Some {
        lemma_hostpath_findings_contains(file, resource, ns, vols, j);
        let f = hostpath_finding(file, resource, ns, vols[j])[0];
        let i = choose|i: int| 0 <= i < h.len() && h[i] == f;
        assert(all[i] == f);
    }
    let first = if uses_default_sa(get_str(spec, seq!["serviceAccountName"@])) {
        1int
    } else {
        0int
    };
    if get_str(spec, seq!["serviceAccountName"@]) is None || get_str(spec, seq!["serviceAccountName"@]) == Some(
        "default"@,
    ) {
        assert(all[h.len() as int] == sa[0]);
    }
    if get_bool(spec, seq!["automountServiceAccountToken"@]) != Some(false) {
        assert(all[h.len() + first] == sa[first]);
    }
}

/// The last `c` of `s + [c] + tag`, where `tag` holds none, is the one
/// between them; a text without `c` has none.
proof fn lemma_rfind_char_split(s: Seq<char>, c: char, tag: Seq<char>)
    requires
        forall|i: int| 0 <= i < tag.len() ==> tag[i] != c,
    ensures
        rfind_char(s + seq![c] + tag, c) == Some(s.len() as int),
        (forall|i: int| 0 <= i < s.len() ==> s[i] != c) ==> rfind_char(s, c) is None,
    decreases s.len() + tag.len(),
{
    let x = s + seq![c] + tag;
    if tag.len() == 0 {
        assert(x.last() == c);
    } else {
        assert(x.last() == tag.last());
        assert(x.drop_last() =~= s + seq![c] + tag.drop_last());
        lemma_rfind_char_split(s, c, tag.drop_last());
    }
    if s.len() > 0 && (forall|i: int| 0 <= i < s.len() ==> s[i] != c) {
        assert(s.last() == s[s.len() - 1]);
        lemma_rfind_char_split(s.drop_last(), c, Seq::<char>::empty());
        assert forall|i: int| 0 <= i < s.drop_last().len() implies s.drop_last()[i] != c by {
            assert(s.drop_last()[i] == s[i]);
        }
    }
}

/// A character that may stand in a plain image name or tag: not a separator
/// (':' or '@'), not the start of a template ('{' or '$'), not white space.
pub open spec fn plain_image_char(ch: char) -> bool {
    ch != ':' && ch != '@' && ch != '{' && ch != '$' && !is_unicode_space(ch)
}

/// A text of plain image characters holds neither "{{" nor "${".
proof fn lemma_plain_no_templates(t: Seq<char>, k: int)
    requires
        0 <= k <= t.len(),
        forall|i: int| 0 <= i < t.len() && i != k ==> plain_image_char(#[trigger] t[i]),
        k < t.len() ==> t[k] == ':',
    ensures
        !contains_seq(t, "{{"@),
        !contains_seq(t, "${"@),
        !t.contains('@'),
{
    reveal_strlit("{{");
    reveal_strlit("${");
    assert forall|i: int| !occurs_at(t, "{{"@, i) by {
        if occurs_at(t, "{{"@, i) {
            assert(t.subrange(i, i + 2)[0] == t[i]);
        }
    }
    assert forall|i: int| !occurs_at(t, "${"@, i) by {
        if occurs_at(t, "${"@, i) {
            assert(t.subrange(i, i + 2)[0] == t[i]);
        }
    }
}

/// An image named without a tag has a mutable tag; an image named with a tag
/// has one exactly when the tag is "latest" in any ASCII case; an image
/// pinned by digest never has one.
pub proof fn law_latest_image_tags(base: Seq<char>, tag: Seq<char>)
    requires
        base.len() > 0,
        forall|i: int| 0 <= i < base.len() ==> plain_image_char(#[trigger] base[i]),
        forall|i: int| 0 <= i < tag.len() ==> plain_image_char(#[trigger] tag[i]),
    ensures
        base != "__jinja__"@ ==> latest_image(base),
        latest_image(base + ":"@ + tag) == eq_ignore_ascii_case(tag, "latest"@),
        !latest_image(base + "@"@ + tag),
{
    reveal_strlit(":");
    reveal_strlit("@");
    reveal_strlit("__jinja__");
    // no tag
    assert(trim_start(base) == base);
    assert(trim_end(base) == base);
    lemma_plain_no_templates(base, base.len() as int);
    lemma_rfind_char_split(base, ':', Seq::<char>::empty());
    // with a tag
    let t = base + ":"@ + tag;
    assert(t =~= base + seq![':'] + tag);
    assert(t[0] == base[0]);
    assert(t.last() == if tag.len() > 0 { tag.last() } else { ':' });
    assert(tag.len() > 0 ==> tag.last() == tag[tag.len() - 1]);
    assert(trim_start(t) == t);
    assert(trim_end(t) == t);
    assert forall|i: int| 0 <= i < t.len() && i != base.len() implies plain_image_char(#[trigger] t[i]) by {
        if i < base.len() {
            assert(t[i] == base[i]);
        } else {
            assert(t[i] == tag[i - base.len() - 1]);
        }
    }
    lemma_plain_no_templates(t, base.len() as int);
    assert(t != "__jinja__"@) by {
        if t == "__jinja__"@ {
            assert(t[base.len() as int] == ':');
        }
    }
    lemma_rfind_char_split(base, ':', tag);
    assert(t.skip(base.len() as int + 1) =~= tag);
    // with a digest
    let d = base + "@"@ + tag;
    assert(d =~= base + seq!['@'] + tag);
    assert(d[base.len() as int] == '@');
    assert(d.contains('@'));
    assert(d[0] == base[0]);
    assert(trim_start(d) == d);
    assert(d.last() == if tag.len() > 0 { tag.last() } else { '@' });
    assert(trim_end(d) == d);
}

} // verus!
