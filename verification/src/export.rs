//! Reports: building a report, rendering it as text, the SARIF document,
//! file URIs, the exit code, and the choice between interactive and plain
//! output.

use vstd::prelude::*;
use crate::models::{
    Finding, FindingView, OutputFormat, RuleId, ScanReport, ScanSummary, Severity, all_rules,
    opt_view, rule_help_uri, rule_label, rule_name, severity_name, severity_rank, summary_of, views,
};
use crate::text::{
    append_decimal, append_padded, append_str, chars_of, decimal, has_prefix, owned, pad_right,
    push_char,
};

verus! {

// ---------------------------------------------------------------------------
// Report
// ---------------------------------------------------------------------------

/// The name of the tool in reports.
pub open spec fn tool_name() -> Seq<char> {
    "kubeyamyam"@
}

/// The version of the tool in reports.
pub open spec fn tool_version() -> Seq<char> {
    "0.1.0"@
}

/// A report of the findings for `path` (the path as displayed), with their
/// summary.
pub fn build_report(path: &str, findings: Vec<Finding>) -> (r: ScanReport)
    ensures
        r.tool@ == tool_name(),
        r.version@ == tool_version(),
        r.path@ == path@,
        views(r.findings@) == views(findings@),
        r.summary == summary_of(views(findings@)),
{
    let summary = ScanSummary::from_findings(findings.as_slice());
    ScanReport {
        tool: owned("kubeyamyam"),
        version: owned("0.1.0"),
        path: owned(path),
        findings,
        summary,
    }
}

/// The summary of a built report describes exactly its findings: the total
/// is their number, each severity count is the number of findings of that
/// severity, and the four counts add up to the total.
pub proof fn law_report_summary_matches(findings: Seq<FindingView>)
    requires
        findings.len() <= usize::MAX,
    ensures
        summary_of(findings).total == findings.len(),
        summary_of(findings).critical + summary_of(findings).high + summary_of(findings).medium
            + summary_of(findings).low == findings.len(),
{
    crate::models::lemma_counts_sum(findings);
    crate::models::lemma_count_le_len(findings, Severity::Critical);
    crate::models::lemma_count_le_len(findings, Severity::High);
    crate::models::lemma_count_le_len(findings, Severity::Medium);
    crate::models::lemma_count_le_len(findings, Severity::Low);
}

// ---------------------------------------------------------------------------
// Exit code
// ---------------------------------------------------------------------------

/// Some finding is at or above the threshold (its rank is not greater).
pub open spec fn any_at_or_above(findings: Seq<FindingView>, threshold: Severity) -> bool {
    exists|i: int|
        0 <= i < findings.len() && severity_rank(#[trigger] findings[i].severity) <= severity_rank(
            threshold,
        )
}

/// The exit status for `findings` and an optional threshold.
pub open spec fn exit_status(findings: Seq<FindingView>, fail_on: Option<Severity>) -> i32 {
    match fail_on {
        None => 0,
        Some(t) => if any_at_or_above(findings, t) {
            1
        } else {
            0
        },
    }
}

/// Exit 1 when any finding is at or above `fail_on`;
/// `fail_on = None` means never fail (exit 0 on a successful scan).
pub fn exit_code(findings: &[Finding], fail_on: Option<Severity>) -> (r: i32)
    ensures
        r == exit_status(views(findings@), fail_on),
{
    let threshold = match fail_on {
        None => {
            return 0;
        },
        Some(t) => t,
    };
    let ghost fs = views(findings@);
    let mut i: usize = 0;
    while i < findings.len()
        invariant
            0 <= i <= findings@.len(),
            fs == views(findings@),
            fail_on == Some(threshold),
            forall|j: int|
                0 <= j < i ==> severity_rank(#[trigger] fs[j].severity) > severity_rank(threshold),
        decreases findings@.len() - i,
    {
        if findings[i].severity.rank() <= threshold.rank() {
            assert(fs[i as int].severity == findings@[i as int].severity);
            assert(severity_rank(fs[i as int].severity) <= severity_rank(threshold));
            assert(any_at_or_above(fs, threshold));
            return 1;
        }
        assert(fs[i as int].severity == findings@[i as int].severity);
        i = i + 1;
    }
    0
}

/// A stricter threshold never turns a failing exit code into a passing one:
/// when the scan fails at threshold `t1`, it fails at every threshold `t2`
/// that is the same or less serious.
pub proof fn law_exit_code_monotone(findings: Seq<FindingView>, t1: Severity, t2: Severity)
    requires
        severity_rank(t1) <= severity_rank(t2),
        exit_status(findings, Some(t1)) == 1,
    ensures
        exit_status(findings, Some(t2)) == 1,
{
    let i = choose|i: int|
        0 <= i < findings.len() && severity_rank(#[trigger] findings[i].severity) <= severity_rank(t1);
    assert(severity_rank(findings[i].severity) <= severity_rank(t2));
}

/// A scan without findings always exits 0.
pub proof fn law_exit_code_no_findings(fail_on: Option<Severity>)
    ensures
        exit_status(Seq::<FindingView>::empty(), fail_on) == 0,
{
}

// ---------------------------------------------------------------------------
// Text report
// ---------------------------------------------------------------------------

/// " [container]" for a finding about a container, nothing otherwise.
pub open spec fn container_suffix(c: Option<Seq<char>>) -> Seq<char> {
    match c {
        Some(name) => " ["@ + name + "]"@,
        None => Seq::empty(),
    }
}

/// The four lines of text for one finding.
pub open spec fn finding_block(f: FindingView) -> Seq<char> {
    pad_right(severity_name(f.severity), 8) + " "@ + pad_right(rule_name(f.rule_id), 18) + " "@
        + f.resource + container_suffix(f.container) + "\n"@ + "         "@ + f.file + "\n"@
        + "         "@ + f.message + "\n"@ + "\n"@
}

/// The blocks of all findings, in order.
pub open spec fn finding_blocks(fs: Seq<FindingView>) -> Seq<char>
    decreases fs.len(),
{
    if fs.len() == 0 {
        Seq::empty()
    } else {
        finding_blocks(fs.drop_last()) + finding_block(fs.last())
    }
}

/// The closing line with the counts.
pub open spec fn totals_line(s: ScanSummary) -> Seq<char> {
    "Total: "@ + decimal(s.total as nat) + " (CRITICAL="@ + decimal(s.critical as nat)
        + ", HIGH="@ + decimal(s.high as nat) + ", MEDIUM="@ + decimal(s.medium as nat)
        + ", LOW="@ + decimal(s.low as nat) + ")\n"@
}

/// The text report: a single line when there are no findings; otherwise
/// the blocks of the findings followed by the totals line.
pub open spec fn report_text(path: Seq<char>, fs: Seq<FindingView>, s: ScanSummary) -> Seq<char> {
    if fs.len() == 0 {
        "No security issues found in "@ + path + "\n"@
    } else {
        finding_blocks(fs) + totals_line(s)
    }
}

/// Appends the text block of one finding to `out`.
fn write_finding(out: &mut String, f: &Finding)
    ensures
        final(out)@ == old(out)@ + finding_block(f@),
{
    let ghost start = out@;
    append_padded(out, f.severity.as_str(), 8);
    append_str(out, " ");
    append_padded(out, f.rule_id.as_str(), 18);
    append_str(out, " ");
    append_str(out, f.resource.as_str());
    match &f.container {
        Some(c) => {
            append_str(out, " [");
            append_str(out, c.as_str());
            append_str(out, "]");
        },
        None => {
            assert(out@ =~= out@ + Seq::<char>::empty());
        },
    }
    append_str(out, "\n");
    append_str(out, "         ");
    append_str(out, f.file.as_str());
    append_str(out, "\n");
    append_str(out, "         ");
    append_str(out, f.message.as_str());
    append_str(out, "\n");
    append_str(out, "\n");
    assert(out@ =~= start + finding_block(f@));
}

/// Writes the plain-text report to `out`: for each finding its severity,
/// rule, resource and container, then its file and message, then a blank
/// line; then the totals. A report without findings is one line.
pub fn write_text(report: &ScanReport, out: &mut String)
    ensures
        final(out)@ == old(out)@ + report_text(
            report.path@,
            views(report.findings@),
            report.summary,
        ),
{
    let ghost start = out@;
    let ghost fs = views(report.findings@);
    if report.findings.len() == 0 {
        append_str(out, "No security issues found in ");
        append_str(out, report.path.as_str());
        append_str(out, "\n");
        assert(out@ =~= start + report_text(report.path@, fs, report.summary));
        return;
    }
    let mut i: usize = 0;
    assert(fs.take(0) =~= Seq::<FindingView>::empty());
    assert(out@ =~= start + finding_blocks(fs.take(0)));
    while i < report.findings.len()
        invariant
            0 <= i <= report.findings@.len(),
            fs == views(report.findings@),
            out@ == start + finding_blocks(fs.take(i as int)),
        decreases report.findings@.len() - i,
    {
        let ghost next = fs.take(i + 1);
        assert(next.drop_last() =~= fs.take(i as int));
        assert(next.last() == report.findings@[i as int]@);
        write_finding(out, &report.findings[i]);
        i = i + 1;
        assert(out@ =~= start + finding_blocks(fs.take(i as int)));
    }
    assert(fs.take(fs.len() as int) =~= fs);
    let ghost mid = out@;
    append_str(out, "Total: ");
    append_decimal(out, report.summary.total);
    append_str(out, " (CRITICAL=");
    append_decimal(out, report.summary.critical);
    append_str(out, ", HIGH=");
    append_decimal(out, report.summary.high);
    append_str(out, ", MEDIUM=");
    append_decimal(out, report.summary.medium);
    append_str(out, ", LOW=");
    append_decimal(out, report.summary.low);
    append_str(out, ")\n");
    assert(out@ =~= mid + totals_line(report.summary));
    assert(out@ =~= start + report_text(report.path@, fs, report.summary));
}

// ---------------------------------------------------------------------------
// Paths and URIs
// ---------------------------------------------------------------------------

/// The Windows verbatim prefix `\\?\`.
pub open spec fn verbatim_prefix() -> Seq<char> {
    seq!['\\', '\\', '?', '\\']
}

/// `s` without a leading verbatim prefix.
pub open spec fn without_verbatim_prefix(s: Seq<char>) -> Seq<char> {
    if has_prefix(s, verbatim_prefix()) {
        s.skip(4)
    } else {
        s
    }
}

/// `s` with every backslash turned into a slash.
pub open spec fn forward_slashes(s: Seq<char>) -> Seq<char> {
    s.map_values(|c: char| if c == '\\' { '/' } else { c })
}

/// The URI of a finding's file: a `file://` URI of the canonical path when
/// there is one, otherwise the path with forward slashes.
pub open spec fn file_uri(path: Seq<char>, canonical: Option<Seq<char>>) -> Seq<char> {
    match canonical {
        Some(abs) => {
            let s = forward_slashes(abs);
            if s.len() > 0 && s[0] == '/' {
                "file://"@ + s
            } else {
                "file:///"@ + s
            }
        },
        None => forward_slashes(path),
    }
}

/// The path text without a leading verbatim prefix `\\?\`.
pub fn strip_unc_prefix(path: &str) -> (r: String)
    ensures
        r@ == without_verbatim_prefix(path@),
{
    let cs = chars_of(path);
    let prefix: Vec<char> = vec!['\\', '\\', '?', '\\'];
    assert(prefix@ =~= verbatim_prefix());
    if crate::text::has_prefix_exec(&cs, &prefix) {
        crate::text::string_from_range(&cs, 4, cs.len())
    } else {
        let r = crate::text::string_from_range(&cs, 0, cs.len());
        assert(cs@.subrange(0, cs@.len() as int) =~= cs@);
        r
    }
}

/// How a file path is shown in findings: as displayed, without a leading
/// verbatim prefix `\\?\`.
pub fn display_path(displayed: &str) -> (r: String)
    ensures
        r@ == without_verbatim_prefix(displayed@),
{
    strip_unc_prefix(displayed)
}

/// `s` with every backslash turned into a slash, appended to `out`.
fn append_forward_slashes(out: &mut String, s: &str)
    ensures
        final(out)@ == old(out)@ + forward_slashes(s@),
{
    let cs = chars_of(s);
    let ghost start = out@;
    let mut i: usize = 0;
    while i < cs.len()
        invariant
            0 <= i <= cs@.len(),
            out@ == start + forward_slashes(cs@.take(i as int)),
        decreases cs@.len() - i,
    {
        let c = cs[i];
        push_char(out, if c == '\\' { '/' } else { c });
        i = i + 1;
        assert(out@ =~= start + forward_slashes(cs@.take(i as int)));
    }
    assert(cs@.take(cs@.len() as int) =~= cs@);
}

/// The URI for a finding's file. `canonical` is the canonical form of
/// `path`, when the file system could give one.
pub fn path_to_uri(path: &str, canonical: Option<String>) -> (r: String)
    ensures
        r@ == file_uri(path@, opt_view(canonical)),
{
    match canonical {
        Some(abs) => {
            let mut slashed = String::new();
            append_forward_slashes(&mut slashed, abs.as_str());
            let cs = chars_of(slashed.as_str());
            let mut r = if cs.len() > 0 && cs[0] == '/' {
                owned("file://")
            } else {
                owned("file:///")
            };
            append_str(&mut r, slashed.as_str());
            r
        },
        None => {
            let mut r = String::new();
            append_forward_slashes(&mut r, path);
            r
        },
    }
}

// ---------------------------------------------------------------------------
// SARIF
// ---------------------------------------------------------------------------

/// A rule description in a SARIF log.
pub struct SarifRule {
    pub id: String,
    pub name: String,
    pub short_description: String,
    pub full_description: String,
    pub help_uri: String,
    pub tags: Vec<String>,
}

/// One result in a SARIF log.
pub struct SarifResult {
    pub rule_id: String,
    pub level: String,
    pub message: String,
    pub uri: String,
    pub severity: String,
    pub resource: String,
    pub namespace: String,
    pub container: Option<String>,
}

/// A SARIF 2.1.0 log with one run of this tool.
pub struct SarifLog {
    pub schema: String,
    pub version: String,
    pub tool_name: String,
    pub tool_version: String,
    pub information_uri: String,
    pub rules: Vec<SarifRule>,
    pub results: Vec<SarifResult>,
}

/// The content of a SARIF rule.
pub struct SarifRuleView {
    pub id: Seq<char>,
    pub name: Seq<char>,
    pub short_description: Seq<char>,
    pub full_description: Seq<char>,
    pub help_uri: Seq<char>,
    pub tags: Seq<Seq<char>>,
}

/// The content of a SARIF result.
pub struct SarifResultView {
    pub rule_id: Seq<char>,
    pub level: Seq<char>,
    pub message: Seq<char>,
    pub uri: Seq<char>,
    pub severity: Seq<char>,
    pub resource: Seq<char>,
    pub namespace: Seq<char>,
    pub container: Option<Seq<char>>,
}

impl View for SarifRule {
    type V = SarifRuleView;

    open spec fn view(&self) -> SarifRuleView {
        SarifRuleView {
            id: self.id@,
            name: self.name@,
            short_description: self.short_description@,
            full_description: self.full_description@,
            help_uri: self.help_uri@,
            tags: self.tags@.map_values(|t: String| t@),
        }
    }
}

impl View for SarifResult {
    type V = SarifResultView;

    open spec fn view(&self) -> SarifResultView {
        SarifResultView {
            rule_id: self.rule_id@,
            level: self.level@,
            message: self.message@,
            uri: self.uri@,
            severity: self.severity@,
            resource: self.resource@,
            namespace: self.namespace@,
            container: opt_view(self.container),
        }
    }
}

/// The SARIF level of a severity: critical and high are errors, medium is a
/// warning, low is a note.
pub open spec fn sarif_level(s: Severity) -> Seq<char> {
    match s {
        Severity::Critical | Severity::High => "error"@,
        Severity::Medium => "warning"@,
        Severity::Low => "note"@,
    }
}

/// The SARIF description of a rule.
pub open spec fn sarif_rule(r: RuleId) -> SarifRuleView {
    SarifRuleView {
        id: rule_name(r),
        name: rule_label(r),
        short_description: rule_label(r),
        full_description: rule_label(r),
        help_uri: rule_help_uri(r),
        tags: seq!["security"@, "kubernetes"@],
    }
}

/// The SARIF result for a finding whose file has the URI `uri`.
pub open spec fn sarif_result(f: FindingView, uri: Seq<char>) -> SarifResultView {
    SarifResultView {
        rule_id: rule_name(f.rule_id),
        level: sarif_level(f.severity),
        message: f.message,
        uri,
        severity: severity_name(f.severity),
        resource: f.resource,
        namespace: f.namespace,
        container: f.container,
    }
}

/// The SARIF level of a severity.
fn level_of(s: Severity) -> (r: &'static str)
    ensures
        r@ == sarif_level(s),
{
    match s {
        Severity::Critical | Severity::High => "error",
        Severity::Medium => "warning",
        Severity::Low => "note",
    }
}

/// The SARIF description of a rule.
fn rule_entry(r: RuleId) -> (e: SarifRule)
    ensures
        e@ == sarif_rule(r),
{
    let tags = vec![owned("security"), owned("kubernetes")];
    let e = SarifRule {
        id: owned(r.as_str()),
        name: owned(r.label()),
        short_description: owned(r.label()),
        full_description: owned(r.label()),
        help_uri: owned(r.help_uri()),
        tags,
    };
    assert(e@.tags =~= seq!["security"@, "kubernetes"@]);
    e
}

/// The SARIF result for a finding.
fn result_entry(f: &Finding, uri: String) -> (e: SarifResult)
    ensures
        e@ == sarif_result(f@, uri@),
{
    let container = match &f.container {
        Some(c) => Some(c.clone()),
        None => None,
    };
    SarifResult {
        rule_id: owned(f.rule_id.as_str()),
        level: owned(level_of(f.severity)),
        message: f.message.clone(),
        uri,
        severity: owned(f.severity.as_str()),
        resource: f.resource.clone(),
        namespace: f.namespace.clone(),
        container,
    }
}

/// The SARIF 2.1.0 document for a report, suitable for code-scanning
/// uploads: every rule of the tool, and one result per finding in report
/// order. `canonical_files[i]` is the canonical path of the file of finding
/// `i`, when the file system could give one.
pub fn sarif_log(report: &ScanReport, canonical_files: &Vec<Option<String>>) -> (log: SarifLog)
    requires
        canonical_files@.len() == report.findings@.len(),
    ensures
        log.schema@ == "https://json.schemastore.org/sarif-2.1.0.json"@,
        log.version@ == "2.1.0"@,
        log.tool_name@ == tool_name(),
        log.tool_version@ == report.version@,
        log.information_uri@ == "https://github.com/thearrowoftime"@,
        log.rules@.len() == all_rules().len(),
        forall|i: int| 0 <= i < all_rules().len() ==> #[trigger] log.rules@[i]@ == sarif_rule(all_rules()[i]),
        log.results@.len() == report.findings@.len(),
        forall|i: int|
            0 <= i < report.findings@.len() ==> #[trigger] log.results@[i]@ == sarif_result(
                report.findings@[i]@,
                file_uri(report.findings@[i].file@, opt_view(canonical_files@[i])),
            ),
{
    let all = RuleId::all();
    let mut rules: Vec<SarifRule> = Vec::new();
    let mut i: usize = 0;
    while i < all.len()
        invariant
            0 <= i <= all@.len(),
            all@ == all_rules(),
            rules@.len() == i,
            forall|j: int| 0 <= j < i ==> #[trigger] rules@[j]@ == sarif_rule(all_rules()[j]),
        decreases all@.len() - i,
    {
        rules.push(rule_entry(all[i]));
        i = i + 1;
    }
    let mut results: Vec<SarifResult> = Vec::new();
    let mut k: usize = 0;
    while k < report.findings.len()
        invariant
            0 <= k <= report.findings@.len(),
            canonical_files@.len() == report.findings@.len(),
            results@.len() == k,
            forall|j: int|
                0 <= j < k ==> #[trigger] results@[j]@ == sarif_result(
                    report.findings@[j]@,
                    file_uri(report.findings@[j].file@, opt_view(canonical_files@[j])),
                ),
        decreases report.findings@.len() - k,
    {
        let f = &report.findings[k];
        let canonical = match &canonical_files[k] {
            Some(c) => Some(c.clone()),
            None => None,
        };
        let uri = path_to_uri(f.file.as_str(), canonical);
        results.push(result_entry(f, uri));
        k = k + 1;
    }
    SarifLog {
        schema: owned("https://json.schemastore.org/sarif-2.1.0.json"),
        version: owned("2.1.0"),
        tool_name: owned("kubeyamyam"),
        tool_version: report.version.clone(),
        information_uri: owned("https://github.com/thearrowoftime"),
        rules,
        results,
    }
}

// ---------------------------------------------------------------------------
// Output mode
// ---------------------------------------------------------------------------

/// Whether to run the interactive interface: when asked for, or when plain
/// output was not asked for, no output file is given, the format is text and
/// standard output is a terminal.
pub fn wants_tui(
    tui: bool,
    cli: bool,
    has_output: bool,
    format: OutputFormat,
    stdout_is_terminal: bool,
) -> (r: bool)
    ensures
        r == (tui || (!cli && !has_output && format == OutputFormat::Text && stdout_is_terminal)),
{
    tui || (!cli && !has_output && format == OutputFormat::Text && stdout_is_terminal)
}

/// The SARIF level of a result: "error" for critical and high findings,
/// "warning" for medium ones, "note" for low ones; so a result is an error
/// exactly when its finding is at least high.
pub proof fn law_sarif_levels(f: FindingView, uri: Seq<char>)
    ensures
        sarif_result(f, uri).level == "error"@ <==> (f.severity == Severity::Critical || f.severity
            == Severity::High),
        sarif_result(f, uri).level == "warning"@ <==> f.severity == Severity::Medium,
        sarif_result(f, uri).level == "note"@ <==> f.severity == Severity::Low,
{
    reveal_strlit("error");
    reveal_strlit("warning");
    reveal_strlit("note");
    assert("error"@.len() == 5 && "warning"@.len() == 7 && "note"@.len() == 4);
}

/// The exit code fails on a finding of exactly the threshold's severity and
/// on any critical finding whatever the threshold; it passes when every
/// finding is low and the threshold is more serious than low, and always
/// without a threshold.
pub proof fn law_exit_code_threshold(findings: Seq<FindingView>, t: Severity)
    ensures
        exit_status(findings, None) == 0,
        (exists|i: int| 0 <= i < findings.len() && #[trigger] findings[i].severity == t) ==> exit_status(
            findings,
            Some(t),
        ) == 1,
        (exists|i: int| 0 <= i < findings.len() && #[trigger] findings[i].severity == Severity::Critical)
            ==> exit_status(findings, Some(t)) == 1,
        (forall|i: int| 0 <= i < findings.len() ==> #[trigger] findings[i].severity == Severity::Low) && t
            != Severity::Low ==> exit_status(findings, Some(t)) == 0,
{
    if exists|i: int| 0 <= i < findings.len() && #[trigger] findings[i].severity == t {
        let i = choose|i: int| 0 <= i < findings.len() && #[trigger] findings[i].severity == t;
        assert(severity_rank(findings[i].severity) <= severity_rank(t));
    }
    if exists|i: int| 0 <= i < findings.len() && #[trigger] findings[i].severity == Severity::Critical {
        let i = choose|i: int| 0 <= i < findings.len() && #[trigger] findings[i].severity == Severity::Critical;
        assert(severity_rank(findings[i].severity) <= severity_rank(t));
    }
}

/// A path shown in findings loses a leading `\\?\` and nothing else: a path
/// that starts with it is shown as the rest, any other path as it is.
pub proof fn law_display_path_strips_verbatim_prefix(rest: Seq<char>, path: Seq<char>)
    ensures
        without_verbatim_prefix(seq!['\\', '\\', '?', '\\'] + rest) == rest,
        !(path.len() >= 4 && path[0] == '\\' && path[1] == '\\' && path[2] == '?' && path[3] == '\\')
            ==> without_verbatim_prefix(path) == path,
{
    let p = seq!['\\', '\\', '?', '\\'] + rest;
    assert(p.subrange(0, 4) =~= verbatim_prefix());
    assert(p.skip(4) =~= rest);
    if has_prefix(path, verbatim_prefix()) {
        assert(path[0] == path.subrange(0, 4)[0]);
        assert(path[1] == path.subrange(0, 4)[1]);
        assert(path[2] == path.subrange(0, 4)[2]);
        assert(path[3] == path.subrange(0, 4)[3]);
    }
}

/// A file URI never holds a backslash. Without a canonical path it is the
/// path with each backslash turned into a slash; with one it is "file://"
/// followed by one more slash unless the canonical path starts with a
/// slash or backslash, then the canonical path with each backslash turned
/// into a slash.
pub proof fn law_file_uri_shape(path: Seq<char>, canonical: Option<Seq<char>>)
    ensures
        forall|i: int| 0 <= i < file_uri(path, canonical).len() ==> #[trigger] file_uri(path, canonical)[i] != '\\',
        canonical is None ==> file_uri(path, canonical).len() == path.len() && forall|i: int|
            0 <= i < path.len() ==> #[trigger] file_uri(path, canonical)[i] == if path[i] == '\\' {
                '/'
            } else {
                path[i]
            },
        canonical matches Some(abs) ==> ({
            let uri = file_uri(path, canonical);
            let lead: int = if abs.len() > 0 && (abs[0] == '/' || abs[0] == '\\') {
                7
            } else {
                8
            };
            &&& uri.len() == lead + abs.len()
            &&& uri.take(7) == seq!['f', 'i', 'l', 'e', ':', '/', '/']
            &&& lead == 8 ==> uri[7] == '/'
            &&& forall|i: int|
                0 <= i < abs.len() ==> #[trigger] uri[lead + i] == if abs[i] == '\\' {
                    '/'
                } else {
                    abs[i]
                }
        }),
{
    reveal_strlit("file://");
    reveal_strlit("file:///");
    let uri = file_uri(path, canonical);
    match canonical {
        Some(abs) => {
            let s = forward_slashes(abs);
            if s.len() > 0 && s[0] == '/' {
                assert(uri =~= "file://"@ + s);
                assert(uri.take(7) =~= seq!['f', 'i', 'l', 'e', ':', '/', '/']);
                assert forall|i: int| 0 <= i < uri.len() implies #[trigger] uri[i] != '\\' by {
                    if i >= 7 {
                        assert(uri[i] == s[i - 7]);
                    }
                }
                assert forall|i: int| 0 <= i < abs.len() implies #[trigger] uri[7 + i] == if abs[i] == '\\' {
                    '/'
                } else {
                    abs[i]
                } by {
                    assert(uri[7 + i] == s[i]);
                }
            } else {
                assert(uri =~= "file:///"@ + s);
                assert(uri.take(7) =~= seq!['f', 'i', 'l', 'e', ':', '/', '/']);
                assert forall|i: int| 0 <= i < uri.len() implies #[trigger] uri[i] != '\\' by {
                    if i >= 8 {
                        assert(uri[i] == s[i - 8]);
                    }
                }
                assert forall|i: int| 0 <= i < abs.len() implies #[trigger] uri[8 + i] == if abs[i] == '\\' {
                    '/'
                } else {
                    abs[i]
                } by {
                    assert(uri[8 + i] == s[i]);
                }
            }
        },
        None => {},
    }
}

} // verus!
