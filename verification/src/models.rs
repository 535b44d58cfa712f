//! The data model of a scan: severities, rule identifiers, findings, the
//! report and its per-severity summary.

use vstd::prelude::*;

verus! {

/// How serious a finding is; `Critical` is the most serious.
#[derive(Clone, Copy, PartialEq, Eq, Structural, Debug, Hash, PartialOrd, Ord)]
pub enum Severity {
    Critical,
    High,
    Medium,
    Low,
}

/// The upper-case name of a severity.
pub open spec fn severity_name(s: Severity) -> Seq<char> {
    match s {
        Severity::Critical => "CRITICAL"@,
        Severity::High => "HIGH"@,
        Severity::Medium => "MEDIUM"@,
        Severity::Low => "LOW"@,
    }
}

/// The rank of a severity: 0 for the most serious, 3 for the least.
pub open spec fn severity_rank(s: Severity) -> u8 {
    match s {
        Severity::Critical => 0,
        Severity::High => 1,
        Severity::Medium => 2,
        Severity::Low => 3,
    }
}

impl Severity {
    /// The upper-case name: "CRITICAL", "HIGH", "MEDIUM" or "LOW".
    pub fn as_str(self) -> (r: &'static str)
        ensures
            r@ == severity_name(self),
    {
        match self {
            Severity::Critical => "CRITICAL",
            Severity::High => "HIGH",
            Severity::Medium => "MEDIUM",
            Severity::Low => "LOW",
        }
    }

    /// The rank: 0 for `Critical` up to 3 for `Low`.
    pub fn rank(self) -> (r: u8)
        ensures
            r == severity_rank(self),
    {
        match self {
            Severity::Critical => 0,
            Severity::High => 1,
            Severity::Medium => 2,
            Severity::Low => 3,
        }
    }
}

/// The checks this scanner performs.
#[derive(Clone, Copy, PartialEq, Eq, Structural, Debug, Hash)]
pub enum RuleId {
    Privileged,
    HostPath,
    LatestTag,
    NoLimits,
    SaDefault,
    SaAutomount,
    SaClusterAdmin,
}

/// The identifier of a rule as it appears in reports.
pub open spec fn rule_name(r: RuleId) -> Seq<char> {
    match r {
        RuleId::Privileged => "K8S-PRIV"@,
        RuleId::HostPath => "K8S-HOSTPATH"@,
        RuleId::LatestTag => "K8S-LATEST"@,
        RuleId::NoLimits => "K8S-LIMITS"@,
        RuleId::SaDefault => "K8S-SA-DEFAULT"@,
        RuleId::SaAutomount => "K8S-SA-AUTOMOUNT"@,
        RuleId::SaClusterAdmin => "K8S-SA-CLUSTERADMIN"@,
    }
}

/// A short human-readable title of a rule.
pub open spec fn rule_label(r: RuleId) -> Seq<char> {
    match r {
        RuleId::Privileged => "Privileged container"@,
        RuleId::HostPath => "hostPath volume"@,
        RuleId::LatestTag => "Latest image tag"@,
        RuleId::NoLimits => "Missing resource limits"@,
        RuleId::SaDefault => "Default ServiceAccount"@,
        RuleId::SaAutomount => "SA token automount"@,
        RuleId::SaClusterAdmin => "Cluster-admin binding"@,
    }
}

/// The documentation page for a rule.
pub open spec fn rule_help_uri(r: RuleId) -> Seq<char> {
    match r {
        RuleId::Privileged => "https://kubernetes.io/docs/concepts/security/pod-security-standards/"@,
        RuleId::HostPath => "https://kubernetes.io/docs/concepts/storage/volumes/#hostpath"@,
        RuleId::LatestTag => "https://kubernetes.io/docs/concepts/containers/images/#updating-images"@,
        RuleId::NoLimits => "https://kubernetes.io/docs/concepts/configuration/manage-resources-containers/"@,
        RuleId::SaDefault | RuleId::SaAutomount | RuleId::SaClusterAdmin =>
            "https://kubernetes.io/docs/tasks/configure-pod-container/configure-service-account/"@,
    }
}

/// Every rule, in the order reports list them.
pub open spec fn all_rules() -> Seq<RuleId> {
    seq![
        RuleId::Privileged,
        RuleId::HostPath,
        RuleId::LatestTag,
        RuleId::NoLimits,
        RuleId::SaDefault,
        RuleId::SaAutomount,
        RuleId::SaClusterAdmin,
    ]
}

impl RuleId {
    /// The identifier used in reports, such as "K8S-PRIV".
    pub fn as_str(self) -> (r: &'static str)
        ensures
            r@ == rule_name(self),
    {
        match self {
            RuleId::Privileged => "K8S-PRIV",
            RuleId::HostPath => "K8S-HOSTPATH",
            RuleId::LatestTag => "K8S-LATEST",
            RuleId::NoLimits => "K8S-LIMITS",
            RuleId::SaDefault => "K8S-SA-DEFAULT",
            RuleId::SaAutomount => "K8S-SA-AUTOMOUNT",
            RuleId::SaClusterAdmin => "K8S-SA-CLUSTERADMIN",
        }
    }

    /// A short human-readable title.
    pub fn label(self) -> (r: &'static str)
        ensures
            r@ == rule_label(self),
    {
        match self {
            RuleId::Privileged => "Privileged container",
            RuleId::HostPath => "hostPath volume",
            RuleId::LatestTag => "Latest image tag",
            RuleId::NoLimits => "Missing resource limits",
            RuleId::SaDefault => "Default ServiceAccount",
            RuleId::SaAutomount => "SA token automount",
            RuleId::SaClusterAdmin => "Cluster-admin binding",
        }
    }

    /// The documentation page of the rule.
    pub fn help_uri(self) -> (r: &'static str)
        ensures
            r@ == rule_help_uri(self),
    {
        match self {
            RuleId::Privileged => "https://kubernetes.io/docs/concepts/security/pod-security-standards/",
            RuleId::HostPath => "https://kubernetes.io/docs/concepts/storage/volumes/#hostpath",
            RuleId::LatestTag => "https://kubernetes.io/docs/concepts/containers/images/#updating-images",
            RuleId::NoLimits => "https://kubernetes.io/docs/concepts/configuration/manage-resources-containers/",
            RuleId::SaDefault | RuleId::SaAutomount | RuleId::SaClusterAdmin =>
                "https://kubernetes.io/docs/tasks/configure-pod-container/configure-service-account/",
        }
    }

    /// Every rule, in report order.
    pub fn all() -> (r: Vec<RuleId>)
        ensures
            r@ == all_rules(),
    {
        let r = vec![
            RuleId::Privileged,
            RuleId::HostPath,
            RuleId::LatestTag,
            RuleId::NoLimits,
            RuleId::SaDefault,
            RuleId::SaAutomount,
            RuleId::SaClusterAdmin,
        ];
        assert(r@ =~= all_rules());
        r
    }
}

/// `RuleId::all()` lists every rule, each once.
pub proof fn law_all_rules_listed_once(r: RuleId)
    ensures
        all_rules().contains(r),
        all_rules().no_duplicates(),
{
    match r {
        RuleId::Privileged => assert(all_rules()[0] == r),
        RuleId::HostPath => assert(all_rules()[1] == r),
        RuleId::LatestTag => assert(all_rules()[2] == r),
        RuleId::NoLimits => assert(all_rules()[3] == r),
        RuleId::SaDefault => assert(all_rules()[4] == r),
        RuleId::SaAutomount => assert(all_rules()[5] == r),
        RuleId::SaClusterAdmin => assert(all_rules()[6] == r),
    }
}

/// One problem found in one resource of one file.
#[derive(Clone, Debug)]
pub struct Finding {
    pub severity: Severity,
    pub rule_id: RuleId,
    pub file: String,
    pub resource: String,
    pub namespace: String,
    pub container: Option<String>,
    pub message: String,
}

/// The content of a finding, with texts as character sequences.
pub struct FindingView {
    pub severity: Severity,
    pub rule_id: RuleId,
    pub file: Seq<char>,
    pub resource: Seq<char>,
    pub namespace: Seq<char>,
    pub container: Option<Seq<char>>,
    pub message: Seq<char>,
}

/// The view of an optional text.
pub open spec fn opt_view(o: Option<String>) -> Option<Seq<char>> {
    match o {
        Some(s) => Some(s@),
        None => None,
    }
}

impl View for Finding {
    type V = FindingView;

    open spec fn view(&self) -> FindingView {
        FindingView {
            severity: self.severity,
            rule_id: self.rule_id,
            file: self.file@,
            resource: self.resource@,
            namespace: self.namespace@,
            container: opt_view(self.container),
            message: self.message@,
        }
    }
}

/// The views of a sequence of findings.
pub open spec fn views(s: Seq<Finding>) -> Seq<FindingView> {
    s.map_values(|f: Finding| f@)
}

/// Appending one finding appends its view.
pub proof fn lemma_views_push(s: Seq<Finding>, f: Finding)
    ensures
        views(s.push(f)) == views(s).push(f@),
{
    assert(views(s.push(f)) =~= views(s).push(f@));
}

impl Finding {
    /// A field-by-field copy of the finding.
    pub fn duplicate(&self) -> (r: Finding)
        ensures
            r@ == self@,
    {
        let container = match &self.container {
            Some(c) => Some(c.clone()),
            None => None,
        };
        Finding {
            severity: self.severity,
            rule_id: self.rule_id,
            file: self.file.clone(),
            resource: self.resource.clone(),
            namespace: self.namespace.clone(),
            container,
            message: self.message.clone(),
        }
    }
}

/// The number of findings of severity `sev` in `s`.
pub open spec fn count_severity(s: Seq<FindingView>, sev: Severity) -> nat
    decreases s.len(),
{
    if s.len() == 0 {
        0
    } else {
        count_severity(s.drop_last(), sev) + if s.last().severity == sev {
            1nat
        } else {
            0nat
        }
    }
}

/// The four per-severity counts add up to the number of findings.
pub proof fn lemma_counts_sum(s: Seq<FindingView>)
    ensures
        count_severity(s, Severity::Critical) + count_severity(s, Severity::High) + count_severity(
            s,
            Severity::Medium,
        ) + count_severity(s, Severity::Low) == s.len(),
    decreases s.len(),
{
    if s.len() > 0 {
        lemma_counts_sum(s.drop_last());
    }
}

/// A count never exceeds the number of findings.
pub proof fn lemma_count_le_len(s: Seq<FindingView>, sev: Severity)
    ensures
        count_severity(s, sev) <= s.len(),
    decreases s.len(),
{
    if s.len() > 0 {
        lemma_count_le_len(s.drop_last(), sev);
    }
}

/// The result of scanning a path.
#[derive(Clone, Debug)]
pub struct ScanReport {
    pub tool: String,
    pub version: String,
    pub path: String,
    pub findings: Vec<Finding>,
    pub summary: ScanSummary,
}

/// How many findings a report holds, in all and per severity.
#[derive(Clone, Copy, Debug, PartialEq, Eq, Structural)]
pub struct ScanSummary {
    pub total: usize,
    pub critical: usize,
    pub high: usize,
    pub medium: usize,
    pub low: usize,
}

impl Default for ScanSummary {
    fn default() -> (r: ScanSummary)
        ensures
            r == (ScanSummary { total: 0, critical: 0, high: 0, medium: 0, low: 0 }),
    {
        ScanSummary { total: 0, critical: 0, high: 0, medium: 0, low: 0 }
    }
}

/// The summary that describes the findings `s`.
pub open spec fn summary_of(s: Seq<FindingView>) -> ScanSummary {
    ScanSummary {
        total: s.len() as usize,
        critical: count_severity(s, Severity::Critical) as usize,
        high: count_severity(s, Severity::High) as usize,
        medium: count_severity(s, Severity::Medium) as usize,
        low: count_severity(s, Severity::Low) as usize,
    }
}

impl ScanSummary {
    /// Counts the findings, in all and per severity.
    ///
    /// The four per-severity counts always add up to the total.
    pub fn from_findings(findings: &[Finding]) -> (s: ScanSummary)
        ensures
            s == summary_of(views(findings@)),
            s.total == findings@.len(),
            s.critical + s.high + s.medium + s.low == s.total,
    {
        let mut s = ScanSummary { total: findings.len(), critical: 0, high: 0, medium: 0, low: 0 };
        let mut i: usize = 0;
        while i < findings.len()
            invariant
                0 <= i <= findings@.len(),
                s.total == findings@.len(),
                s.critical == count_severity(views(findings@.take(i as int)), Severity::Critical),
                s.high == count_severity(views(findings@.take(i as int)), Severity::High),
                s.medium == count_severity(views(findings@.take(i as int)), Severity::Medium),
                s.low == count_severity(views(findings@.take(i as int)), Severity::Low),
            decreases findings@.len() - i,
        {
            let ghost before = views(findings@.take(i as int));
            let ghost after = views(findings@.take(i + 1));
            assert(after.drop_last() =~= before);
            proof {
                lemma_count_le_len(before, findings@[i as int].severity);
            }
            match findings[i].severity {
                Severity::Critical => s.critical = s.critical + 1,
                Severity::High => s.high = s.high + 1,
                Severity::Medium => s.medium = s.medium + 1,
                Severity::Low => s.low = s.low + 1,
            }
            i = i + 1;
        }
        assert(findings@.take(findings@.len() as int) =~= findings@);
        proof {
            lemma_counts_sum(views(findings@));
        }
        s
    }
}

/// Counting is additive: the findings of `a` followed by those of `b` hold
/// as many of each severity as `a` and `b` together.
pub proof fn law_count_concat(a: Seq<FindingView>, b: Seq<FindingView>, sev: Severity)
    ensures
        count_severity(a + b, sev) == count_severity(a, sev) + count_severity(b, sev),
    decreases b.len(),
{
    if b.len() == 0 {
        assert(a + b =~= a);
    } else {
        assert((a + b).drop_last() =~= a + b.drop_last());
        law_count_concat(a, b.drop_last(), sev);
    }
}

/// The same findings in any order hold as many of each severity.
pub proof fn law_count_permutation(a: Seq<FindingView>, b: Seq<FindingView>, sev: Severity)
    requires
        a.to_multiset() == b.to_multiset(),
    ensures
        count_severity(a, sev) == count_severity(b, sev),
    decreases a.len(),
{
    broadcast use vstd::seq_lib::group_to_multiset_ensures;
    if a.len() == 0 {
        assert(b.to_multiset().len() == 0);
        assert(b.len() == 0);
    } else {
        let x = a.last();
        let rest = a.drop_last();
        assert(rest.push(x) =~= a);
        assert(a.to_multiset().count(x) > 0);
        assert(b.contains(x));
        let j = choose|j: int| 0 <= j < b.len() && b[j] == x;
        let left = b.subrange(0, j);
        let right = b.subrange(j + 1, b.len() as int);
        assert(b.remove(j) =~= left + right);
        assert(b =~= left + seq![x] + right);
        assert(rest.to_multiset() =~= b.remove(j).to_multiset());
        law_count_permutation(rest, b.remove(j), sev);
        law_count_concat(left, right, sev);
        law_count_concat(left, seq![x], sev);
        law_count_concat(left + seq![x], right, sev);
        assert(seq![x].drop_last() =~= Seq::<FindingView>::empty());
        assert(count_severity(Seq::<FindingView>::empty(), sev) == 0);
        assert(count_severity(seq![x], sev) == count_severity(rest.push(x), sev) - count_severity(rest, sev));
    }
}

/// The summary of findings from two parts is the part summaries added field
/// by field (where the total fits in a `usize`).
pub proof fn law_summary_concat(a: Seq<FindingView>, b: Seq<FindingView>)
    requires
        a.len() + b.len() <= usize::MAX,
    ensures
        summary_of(a + b).total == summary_of(a).total + summary_of(b).total,
        summary_of(a + b).critical == summary_of(a).critical + summary_of(b).critical,
        summary_of(a + b).high == summary_of(a).high + summary_of(b).high,
        summary_of(a + b).medium == summary_of(a).medium + summary_of(b).medium,
        summary_of(a + b).low == summary_of(a).low + summary_of(b).low,
{
    law_count_concat(a, b, Severity::Critical);
    law_count_concat(a, b, Severity::High);
    law_count_concat(a, b, Severity::Medium);
    law_count_concat(a, b, Severity::Low);
    lemma_count_le_len(a + b, Severity::Critical);
    lemma_count_le_len(a + b, Severity::High);
    lemma_count_le_len(a + b, Severity::Medium);
    lemma_count_le_len(a + b, Severity::Low);
}

/// The summary does not depend on the order of the findings.
pub proof fn law_summary_permutation(a: Seq<FindingView>, b: Seq<FindingView>)
    requires
        a.to_multiset() == b.to_multiset(),
    ensures
        summary_of(a) == summary_of(b),
{
    broadcast use vstd::seq_lib::group_to_multiset_ensures;
    assert(a.len() == a.to_multiset().len());
    assert(b.len() == b.to_multiset().len());
    law_count_permutation(a, b, Severity::Critical);
    law_count_permutation(a, b, Severity::High);
    law_count_permutation(a, b, Severity::Medium);
    law_count_permutation(a, b, Severity::Low);
}

/// No findings give the default summary.
pub proof fn law_summary_empty()
    ensures
        summary_of(Seq::<FindingView>::empty()) == (ScanSummary { total: 0, critical: 0, high: 0, medium: 0, low: 0 }),
{
}

/// Ranks order severities from the most serious: critical, high, medium,
/// low, each a different rank.
pub proof fn law_severity_rank_order()
    ensures
        severity_rank(Severity::Critical) < severity_rank(Severity::High),
        severity_rank(Severity::High) < severity_rank(Severity::Medium),
        severity_rank(Severity::Medium) < severity_rank(Severity::Low),
{
}

/// The output formats of a report.
#[derive(Clone, Copy, Debug, PartialEq, Eq, Structural)]
pub enum OutputFormat {
    Text,
    Json,
    Sarif,
}

/// The `--fail-on` choices: a severity threshold, or never.
#[derive(Clone, Copy, Debug, PartialEq, Eq, Structural)]
pub enum FailOnArg {
    Critical,
    High,
    Medium,
    Low,
    Never,
}

impl FailOnArg {
    /// The severity threshold of the choice; `None` for `Never`.
    pub fn to_threshold(self) -> (r: Option<Severity>)
        ensures
            r == match self {
                FailOnArg::Critical => Some(Severity::Critical),
                FailOnArg::High => Some(Severity::High),
                FailOnArg::Medium => Some(Severity::Medium),
                FailOnArg::Low => Some(Severity::Low),
                FailOnArg::Never => None,
            },
    {
        match self {
            FailOnArg::Critical => Some(Severity::Critical),
            FailOnArg::High => Some(Severity::High),
            FailOnArg::Medium => Some(Severity::Medium),
            FailOnArg::Low => Some(Severity::Low),
            FailOnArg::Never => None,
        }
    }
}

} // verus!
