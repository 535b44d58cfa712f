//! The state of the interactive findings browser and its decisions: which
//! findings a filter shows, the selection, the status line, the detail text
//! of a finding, and what each key does. Drawing and scanning are done by the
//! caller.

use vstd::prelude::*;
use crate::models::{
    Finding, FindingView, RuleId, Severity, all_rules, count_severity, rule_label, rule_name,
    severity_name, views, lemma_views_push, lemma_count_le_len,
};
use crate::text::{append_decimal, append_str, decimal, owned, push_char};

verus! {

/// A key press, as the browser distinguishes them.
#[derive(Clone, Copy, Debug, PartialEq, Eq, Structural)]
pub enum Key {
    Esc,
    Enter,
    Backspace,
    Char(char),
    F(u8),
    Up,
    Down,
    Other,
}

/// What the caller has to do after a key press.
#[derive(Clone, Copy, Debug, PartialEq, Eq, Structural)]
pub enum KeyAction {
    Nothing,
    Scan,
}

/// The state of the findings browser.
pub struct App {
    pub path_input: String,
    pub all_findings: Vec<Finding>,
    pub filtered: Vec<Finding>,
    pub selected: Option<usize>,
    pub severity_filter: Option<Severity>,
    pub rule_filter: Option<RuleId>,
    pub status: String,
    pub show_help: bool,
    pub editing_path: bool,
    pub should_quit: bool,
}

// ---------------------------------------------------------------------------
// Specification
// ---------------------------------------------------------------------------

/// A finding passes the filters: its severity and rule match those chosen.
pub open spec fn passes(f: FindingView, sev: Option<Severity>, rule: Option<RuleId>) -> bool {
    (sev is None || f.severity == sev->0) && (rule is None || f.rule_id == rule->0)
}

/// The findings that pass the filters, in order.
pub open spec fn matching(fs: Seq<FindingView>, sev: Option<Severity>, rule: Option<RuleId>) -> Seq<
    FindingView,
>
    decreases fs.len(),
{
    if fs.len() == 0 {
        Seq::empty()
    } else {
        matching(fs.drop_last(), sev, rule) + if passes(fs.last(), sev, rule) {
            seq![fs.last()]
        } else {
            Seq::empty()
        }
    }
}

/// The selection after the shown list has `len` entries: none for an empty
/// list, the first entry when nothing was selected, the last entry when the
/// selection is past the end, the same entry otherwise.
pub open spec fn adjusted_selection(selected: Option<usize>, len: nat) -> Option<usize> {
    if len == 0 {
        None
    } else {
        match selected {
            None => Some(0),
            Some(i) => if i >= len {
                Some((len - 1) as usize)
            } else {
                Some(i)
            },
        }
    }
}

/// " sev=..." and " rule=..." for the active filters.
pub open spec fn filter_suffix(sev: Option<Severity>, rule: Option<RuleId>) -> Seq<char> {
    (match sev {
        Some(s) => " sev="@ + severity_name(s),
        None => Seq::empty(),
    }) + (match rule {
        Some(r) => " rule="@ + rule_name(r),
        None => Seq::empty(),
    })
}

/// The status line: how many findings there are, how many are shown, the
/// count per severity of all findings, and the active filters.
pub open spec fn status_line(
    all: Seq<FindingView>,
    shown: nat,
    sev: Option<Severity>,
    rule: Option<RuleId>,
) -> Seq<char> {
    "findings: "@ + decimal(all.len()) + " (showing "@ + decimal(shown) + ") | CRIT "@ + decimal(
        count_severity(all, Severity::Critical),
    ) + " HIGH "@ + decimal(count_severity(all, Severity::High)) + " MED "@ + decimal(
        count_severity(all, Severity::Medium),
    ) + " LOW "@ + decimal(count_severity(all, Severity::Low)) + filter_suffix(sev, rule)
}

/// The severity filter after `f`: none, critical, high, medium, low, and round again.
pub open spec fn next_severity_filter(f: Option<Severity>) -> Option<Severity> {
    match f {
        None => Some(Severity::Critical),
        Some(Severity::Critical) => Some(Severity::High),
        Some(Severity::High) => Some(Severity::Medium),
        Some(Severity::Medium) => Some(Severity::Low),
        Some(Severity::Low) => None,
    }
}

/// The rule filter after `f`: none, then every rule in report order, and
/// round again.
pub open spec fn next_rule_filter(f: Option<RuleId>) -> Option<RuleId> {
    match f {
        None => Some(RuleId::Privileged),
        Some(RuleId::Privileged) => Some(RuleId::HostPath),
        Some(RuleId::HostPath) => Some(RuleId::LatestTag),
        Some(RuleId::LatestTag) => Some(RuleId::NoLimits),
        Some(RuleId::NoLimits) => Some(RuleId::SaDefault),
        Some(RuleId::SaDefault) => Some(RuleId::SaAutomount),
        Some(RuleId::SaAutomount) => Some(RuleId::SaClusterAdmin),
        Some(RuleId::SaClusterAdmin) => None,
    }
}

/// The selection after moving by `delta` in a non-empty list of `len`
/// entries, wrapping around at both ends; no selection counts as the first.
pub open spec fn moved_selection(selected: Option<usize>, delta: int, len: nat) -> usize {
    let cur: int = match selected {
        Some(i) => i as int,
        None => 0,
    };
    ((cur + delta) % (len as int)) as usize
}

/// The details of the selected finding, or a prompt when none is selected.
pub open spec fn detail_of(f: Option<FindingView>) -> Seq<char> {
    match f {
        Some(f) => severity_name(f.severity) + "  "@ + rule_label(f.rule_id) + "\nResource: "@
            + f.resource + "\nNamespace: "@ + f.namespace + (match f.container {
            Some(c) => "\nContainer: "@ + c,
            None => Seq::empty(),
        }) + "\nFile: "@ + f.file + "\n\n"@ + f.message,
        None => "Select a finding to see details."@,
    }
}

/// The finding under the selection, if the selection is within the shown list.
pub open spec fn selected_view(filtered: Seq<Finding>, selected: Option<usize>) -> Option<
    FindingView,
> {
    match selected {
        Some(i) => if i < filtered.len() {
            Some(filtered[i as int]@)
        } else {
            None
        },
        None => None,
    }
}

impl App {
    /// The fields that only the scan and the filters change stay the same.
    pub open spec fn same_input(&self, other: &App) -> bool {
        &&& self.path_input@ == other.path_input@
        &&& views(self.all_findings@) == views(other.all_findings@)
        &&& self.show_help == other.show_help
        &&& self.editing_path == other.editing_path
        &&& self.should_quit == other.should_quit
    }

    /// The shown list, the filters and the status line are the same.
    pub open spec fn same_filters_and_status(&self, other: &App) -> bool {
        &&& views(self.filtered@) == views(other.filtered@)
        &&& self.severity_filter == other.severity_filter
        &&& self.rule_filter == other.rule_filter
        &&& self.status@ == other.status@
    }

    /// All findings, the shown list, the selection, the filters and the
    /// status line are the same.
    pub open spec fn same_listing(&self, other: &App) -> bool {
        &&& views(self.all_findings@) == views(other.all_findings@)
        &&& self.same_filters_and_status(other)
        &&& self.selected == other.selected
    }

    /// The status line, the shown list and the selection agree with the
    /// findings and the filters.
    pub open spec fn filters_applied(&self, prior_selected: Option<usize>) -> bool {
        &&& views(self.filtered@) == matching(
            views(self.all_findings@),
            self.severity_filter,
            self.rule_filter,
        )
        &&& self.selected == adjusted_selection(prior_selected, self.filtered@.len())
        &&& self.status@ == status_line(
            views(self.all_findings@),
            self.filtered@.len(),
            self.severity_filter,
            self.rule_filter,
        )
    }
}

// ---------------------------------------------------------------------------
// Laws
// ---------------------------------------------------------------------------

/// Cycling the severity filter five times gives the filter back.
pub proof fn law_severity_cycle_returns(f: Option<Severity>)
    ensures
        next_severity_filter(
            next_severity_filter(next_severity_filter(next_severity_filter(next_severity_filter(f)))),
        ) == f,
{
}

/// Cycling the rule filter eight times gives the filter back, and it visits
/// every rule on the way.
pub proof fn law_rule_cycle_returns(f: Option<RuleId>)
    ensures
        next_rule_filter(
            next_rule_filter(
                next_rule_filter(
                    next_rule_filter(
                        next_rule_filter(next_rule_filter(next_rule_filter(next_rule_filter(f)))),
                    ),
                ),
            ),
        ) == f,
        next_rule_filter(None) == Some(all_rules()[0]),
        forall|i: int|
            1 <= i < all_rules().len() ==> next_rule_filter(Some(all_rules()[i - 1])) == Some(
                #[trigger] all_rules()[i],
            ),
{
    assert forall|i: int|
        1 <= i < all_rules().len() implies next_rule_filter(Some(all_rules()[i - 1])) == Some(
        #[trigger] all_rules()[i],
    ) by {
        if i == 1 {
        } else if i == 2 {
        } else if i == 3 {
        } else if i == 4 {
        } else if i == 5 {
        } else {
        }
    }
}

/// Moving the selection down and then up again comes back to where it was,
/// and a moved selection is always within the list.
pub proof fn law_move_down_up_returns(i: usize, len: nat)
    requires
        i < len,
        len <= usize::MAX,
    ensures
        moved_selection(Some(moved_selection(Some(i), 1, len)), -1, len) == i,
        moved_selection(Some(i), 1, len) < len,
        moved_selection(Some(i), -1, len) < len,
{
    if i + 1 < len {
        assert((i + 1) % (len as int) == i + 1) by (nonlinear_arith)
            requires
                0 <= i + 1 < len,
        ;
        assert(((i + 1) - 1) % (len as int) == i) by (nonlinear_arith)
            requires
                0 <= i < len,
        ;
    } else {
        assert((i + 1) % (len as int) == 0) by (nonlinear_arith)
            requires
                i + 1 == len,
                len > 0,
        ;
        assert((0 - 1) % (len as int) == len - 1) by (nonlinear_arith)
            requires
                len > 0,
        ;
    }
    assert(0 <= (i - 1) % (len as int) < len) by (nonlinear_arith)
        requires
            len > 0,
    ;
}

/// The shown findings are exactly the findings that pass the filters: every
/// shown finding passes, and each is one of all the findings.
pub proof fn law_matching_passes(fs: Seq<FindingView>, sev: Option<Severity>, rule: Option<RuleId>)
    ensures
        forall|i: int|
            0 <= i < matching(fs, sev, rule).len() ==> passes(
                #[trigger] matching(fs, sev, rule)[i],
                sev,
                rule,
            ) && fs.contains(matching(fs, sev, rule)[i]),
        matching(fs, sev, rule).len() <= fs.len(),
        sev is None && rule is None ==> matching(fs, sev, rule) == fs,
    decreases fs.len(),
{
    if fs.len() > 0 {
        law_matching_passes(fs.drop_last(), sev, rule);
        let prev = matching(fs.drop_last(), sev, rule);
        let m = matching(fs, sev, rule);
        assert forall|i: int| 0 <= i < m.len() implies passes(#[trigger] m[i], sev, rule) && fs.contains(
            m[i],
        ) by {
            if i < prev.len() {
                assert(m[i] == prev[i]);
                assert(fs.drop_last().contains(prev[i]));
                let k = choose|k: int| 0 <= k < fs.drop_last().len() && fs.drop_last()[k] == prev[i];
                assert(fs[k] == prev[i]);
            } else {
                assert(m[i] == fs.last());
                assert(fs[fs.len() - 1] == fs.last());
            }
        }
        if sev is None && rule is None {
            assert(fs.drop_last().push(fs.last()) =~= fs);
        }
    }
}

/// A finding that matches the filters is among the shown findings.
proof fn lemma_matching_complete(fs: Seq<FindingView>, sev: Option<Severity>, rule: Option<RuleId>, k: int)
    requires
        0 <= k < fs.len(),
        sev is None || fs[k].severity == sev->0,
        rule is None || fs[k].rule_id == rule->0,
    ensures
        matching(fs, sev, rule).contains(fs[k]),
    decreases fs.len(),
{
    let prev = matching(fs.drop_last(), sev, rule);
    if k == fs.len() - 1 {
        assert(matching(fs, sev, rule)[prev.len() as int] == fs[k]);
    } else {
        assert(fs.drop_last()[k] == fs[k]);
        lemma_matching_complete(fs.drop_last(), sev, rule, k);
        let j = choose|j: int| 0 <= j < prev.len() && prev[j] == fs[k];
        assert(matching(fs, sev, rule)[j] == prev[j]);
    }
}

/// Once the filters are applied, the browser shows exactly the findings
/// whose severity and rule match the active filters: each shown finding has
/// the chosen severity and the chosen rule and is one of all the findings,
/// and each finding with the chosen severity and rule is shown.
pub proof fn law_shown_findings_match_filters(app: App, prior_selected: Option<usize>)
    requires
        app.filters_applied(prior_selected),
    ensures
        forall|i: int|
            0 <= i < app.filtered@.len() ==> {
                &&& (app.severity_filter is Some ==> #[trigger] app.filtered@[i].severity
                    == app.severity_filter->0)
                &&& (app.rule_filter is Some ==> app.filtered@[i].rule_id == app.rule_filter->0)
                &&& views(app.all_findings@).contains(app.filtered@[i]@)
            },
        forall|k: int|
            0 <= k < app.all_findings@.len() && (app.severity_filter is None
                || #[trigger] app.all_findings@[k].severity == app.severity_filter->0) && (
            app.rule_filter is None || app.all_findings@[k].rule_id == app.rule_filter->0)
                ==> views(app.filtered@).contains(app.all_findings@[k]@),
{
    let fs = views(app.all_findings@);
    let m = views(app.filtered@);
    law_matching_passes(fs, app.severity_filter, app.rule_filter);
    assert forall|i: int| 0 <= i < app.filtered@.len() implies {
        &&& (app.severity_filter is Some ==> #[trigger] app.filtered@[i].severity == app.severity_filter->0)
        &&& (app.rule_filter is Some ==> app.filtered@[i].rule_id == app.rule_filter->0)
        &&& views(app.all_findings@).contains(app.filtered@[i]@)
    } by {
        assert(m[i] == app.filtered@[i]@);
        assert(passes(m[i], app.severity_filter, app.rule_filter));
    }
    assert forall|k: int|
        0 <= k < app.all_findings@.len() && (app.severity_filter is None
            || #[trigger] app.all_findings@[k].severity == app.severity_filter->0) && (app.rule_filter
            is None || app.all_findings@[k].rule_id == app.rule_filter->0) implies m.contains(
        app.all_findings@[k]@,
    ) by {
        assert(fs[k] == app.all_findings@[k]@);
        lemma_matching_complete(fs, app.severity_filter, app.rule_filter, k);
    }
}

/// The severity filter steps from none to critical, high, medium, low and
/// back to none: from the most serious down.
pub proof fn law_severity_cycle_order()
    ensures
        next_severity_filter(None) == Some(Severity::Critical),
        next_severity_filter(Some(Severity::Critical)) == Some(Severity::High),
        next_severity_filter(Some(Severity::High)) == Some(Severity::Medium),
        next_severity_filter(Some(Severity::Medium)) == Some(Severity::Low),
        next_severity_filter(Some(Severity::Low)) is None,
{
}

/// Moving down goes to the next entry and from the last one to the first;
/// moving up goes to the previous entry and from the first one to the last.
pub proof fn law_move_steps(i: usize, len: nat)
    requires
        i < len,
        len <= usize::MAX,
    ensures
        i + 1 < len ==> moved_selection(Some(i), 1, len) == i + 1,
        i + 1 == len ==> moved_selection(Some(i), 1, len) == 0,
        i > 0 ==> moved_selection(Some(i), -1, len) == i - 1,
        i == 0 ==> moved_selection(Some(i), -1, len) == len - 1,
        moved_selection(None, 1, len) == moved_selection(Some(0), 1, len),
{
    if i + 1 < len {
        assert((i + 1) % (len as int) == i + 1) by (nonlinear_arith)
            requires
                0 <= i + 1 < len,
        ;
    } else {
        assert((i + 1) % (len as int) == 0) by (nonlinear_arith)
            requires
                i + 1 == len,
                len > 0,
        ;
    }
    if i > 0 {
        assert((i - 1) % (len as int) == i - 1) by (nonlinear_arith)
            requires
                0 <= i - 1 < len,
        ;
    } else {
        assert((0 - 1) % (len as int) == len - 1) by (nonlinear_arith)
            requires
                len > 0,
        ;
    }
}

/// After the shown list changes, the selection is on an entry of the list
/// whenever the list has any, stays where it was when that entry is still
/// there, and is cleared for an empty list.
pub proof fn law_selection_within_list(selected: Option<usize>, len: nat)
    requires
        len <= usize::MAX,
    ensures
        len == 0 ==> adjusted_selection(selected, len) is None,
        len > 0 ==> (adjusted_selection(selected, len) matches Some(j) && j < len),
        (selected matches Some(i) && i < len) ==> adjusted_selection(selected, len) == selected,
        len > 0 && selected is None ==> adjusted_selection(selected, len) == Some(0usize),
        len > 0 && (selected matches Some(i) && i >= len) ==> adjusted_selection(selected, len) == Some(
            (len - 1) as usize,
        ),
{
}

// ---------------------------------------------------------------------------
// Executable state changes
// ---------------------------------------------------------------------------

/// Whether a finding passes the filters.
fn passes_exec(f: &Finding, sev: Option<Severity>, rule: Option<RuleId>) -> (r: bool)
    ensures
        r == passes(f@, sev, rule),
{
    let sev_ok = match sev {
        Some(s) => f.severity == s,
        None => true,
    };
    let rule_ok = match rule {
        Some(r) => f.rule_id == r,
        None => true,
    };
    sev_ok && rule_ok
}

impl App {
    /// A browser for `path`, before its first scan.
    pub fn new(path: &str) -> (app: App)
        ensures
            app.path_input@ == path@,
            app.all_findings@.len() == 0,
            app.filtered@.len() == 0,
            app.selected is None,
            app.severity_filter is None,
            app.rule_filter is None,
            app.status@ == "Press Enter/F5 to scan · ? help · q quit"@,
            !app.show_help,
            !app.editing_path,
            !app.should_quit,
    {
        App {
            path_input: owned(path),
            all_findings: Vec::new(),
            filtered: Vec::new(),
            selected: None,
            severity_filter: None,
            rule_filter: None,
            status: owned("Press Enter/F5 to scan · ? help · q quit"),
            show_help: false,
            editing_path: false,
            should_quit: false,
        }
    }

    /// Recomputes the shown findings, the selection and the status line from
    /// all findings and the filters.
    pub fn apply_filters(&mut self)
        ensures
            final(self).same_input(old(self)),
            final(self).severity_filter == old(self).severity_filter,
            final(self).rule_filter == old(self).rule_filter,
            final(self).filters_applied(old(self).selected),
    {
        let sev = self.severity_filter;
        let rule = self.rule_filter;
        let ghost all = views(self.all_findings@);
        let mut shown: Vec<Finding> = Vec::new();
        let mut i: usize = 0;
        assert(all.take(0) =~= Seq::<FindingView>::empty());
        assert(views(shown@) =~= Seq::<FindingView>::empty());
        while i < self.all_findings.len()
            invariant
                0 <= i <= self.all_findings@.len(),
                all == views(self.all_findings@),
                views(shown@) == matching(all.take(i as int), sev, rule),
            decreases self.all_findings@.len() - i,
        {
            let ghost next = all.take(i + 1);
            assert(next.drop_last() =~= all.take(i as int));
            assert(next.last() == self.all_findings@[i as int]@);
            if passes_exec(&self.all_findings[i], sev, rule) {
                let f = self.all_findings[i].duplicate();
                proof {
                    lemma_views_push(shown@, f);
                }
                shown.push(f);
            }
            i = i + 1;
            assert(views(shown@) =~= matching(all.take(i as int), sev, rule));
        }
        assert(all.take(all.len() as int) =~= all);
        let n = shown.len();
        self.filtered = shown;
        if n == 0 {
            self.selected = None;
        } else {
            match self.selected {
                None => {
                    self.selected = Some(0);
                },
                Some(s) => {
                    if s >= n {
                        self.selected = Some(n - 1);
                    }
                },
            }
        }
        let mut counts: [usize; 4] = [0, 0, 0, 0];
        let mut k: usize = 0;
        assert(all.take(0) =~= Seq::<FindingView>::empty());
        while k < self.all_findings.len()
            invariant
                0 <= k <= self.all_findings@.len(),
                all == views(self.all_findings@),
                counts@.len() == 4,
                counts@[0] == count_severity(all.take(k as int), Severity::Critical),
                counts@[1] == count_severity(all.take(k as int), Severity::High),
                counts@[2] == count_severity(all.take(k as int), Severity::Medium),
                counts@[3] == count_severity(all.take(k as int), Severity::Low),
            decreases self.all_findings@.len() - k,
        {
            let ghost before = all.take(k as int);
            let ghost next = all.take(k + 1);
            assert(next.drop_last() =~= before);
            assert(next.last() == self.all_findings@[k as int]@);
            proof {
                lemma_count_le_len(before, self.all_findings@[k as int].severity);
            }
            let r = self.all_findings[k].severity.rank() as usize;
            counts.set(r, counts[r] + 1);
            k = k + 1;
        }
        assert(all.take(all.len() as int) =~= all);
        let mut status = owned("findings: ");
        append_decimal(&mut status, self.all_findings.len());
        append_str(&mut status, " (showing ");
        append_decimal(&mut status, n);
        append_str(&mut status, ") | CRIT ");
        append_decimal(&mut status, counts[0]);
        append_str(&mut status, " HIGH ");
        append_decimal(&mut status, counts[1]);
        append_str(&mut status, " MED ");
        append_decimal(&mut status, counts[2]);
        append_str(&mut status, " LOW ");
        append_decimal(&mut status, counts[3]);
        let ghost before_suffix = status@;
        match sev {
            Some(s) => {
                append_str(&mut status, " sev=");
                append_str(&mut status, s.as_str());
            },
            None => {},
        }
        match rule {
            Some(r) => {
                append_str(&mut status, " rule=");
                append_str(&mut status, r.as_str());
            },
            None => {},
        }
        assert(status@ =~= before_suffix + filter_suffix(sev, rule));
        self.status = status;
    }

    /// Moves to the next severity filter and reapplies the filters.
    pub fn cycle_severity(&mut self)
        ensures
            final(self).same_input(old(self)),
            final(self).severity_filter == next_severity_filter(old(self).severity_filter),
            final(self).rule_filter == old(self).rule_filter,
            final(self).filters_applied(old(self).selected),
    {
        self.severity_filter =
        match self.severity_filter {
            None => Some(Severity::Critical),
            Some(Severity::Critical) => Some(Severity::High),
            Some(Severity::High) => Some(Severity::Medium),
            Some(Severity::Medium) => Some(Severity::Low),
            Some(Severity::Low) => None,
        };
        self.apply_filters();
    }

    /// Moves to the next rule filter and reapplies the filters.
    pub fn cycle_rule(&mut self)
        ensures
            final(self).same_input(old(self)),
            final(self).severity_filter == old(self).severity_filter,
            final(self).rule_filter == next_rule_filter(old(self).rule_filter),
            final(self).filters_applied(old(self).selected),
    {
        self.rule_filter =
        match self.rule_filter {
            None => Some(RuleId::Privileged),
            Some(RuleId::Privileged) => Some(RuleId::HostPath),
            Some(RuleId::HostPath) => Some(RuleId::LatestTag),
            Some(RuleId::LatestTag) => Some(RuleId::NoLimits),
            Some(RuleId::NoLimits) => Some(RuleId::SaDefault),
            Some(RuleId::SaDefault) => Some(RuleId::SaAutomount),
            Some(RuleId::SaAutomount) => Some(RuleId::SaClusterAdmin),
            Some(RuleId::SaClusterAdmin) => None,
        };
        self.apply_filters();
    }

    /// The finding under the selection, if the selection is within the list.
    pub fn selected_finding(&self) -> (r: Option<&Finding>)
        ensures
            match r {
                Some(f) => selected_view(self.filtered@, self.selected) == Some(f@),
                None => selected_view(self.filtered@, self.selected) is None,
            },
    {
        match self.selected {
            Some(i) => {
                if i < self.filtered.len() {
                    Some(&self.filtered[i])
                } else {
                    None
                }
            },
            None => None,
        }
    }

    /// Moves the selection by `delta`, wrapping around; nothing happens when
    /// no finding is shown.
    pub fn move_sel(&mut self, delta: isize)
        ensures
            final(self).same_input(old(self)),
            final(self).same_filters_and_status(old(self)),
            final(self).selected == if old(self).filtered@.len() == 0 {
                old(self).selected
            } else {
                Some(moved_selection(old(self).selected, delta as int, old(self).filtered@.len()))
            },
    {
        if self.filtered.len() == 0 {
            return;
        }
        let n = self.filtered.len();
        let len: u128 = n as u128;
        let cur: u128 = match self.selected {
            Some(i) => i as u128,
            None => 0,
        };
        let c: u128 = cur % len;
        let next: u128 = if delta >= 0 {
            let d: u128 = (delta as u128) % len;
            proof {
                vstd::arithmetic::div_mod::lemma_add_mod_noop(cur as int, delta as int, len as int);
            }
            (c + d) % len
        } else {
            let neg: u128 = (-(delta as i128)) as u128;
            let d: u128 = neg % len;
            proof {
                vstd::arithmetic::div_mod::lemma_mod_add_multiples_vanish(c - d, len as int);
                vstd::arithmetic::div_mod::lemma_sub_mod_noop(cur as int, neg as int, len as int);
                assert(c + len - d == len + (c - d));
            }
            (c + len - d) % len
        };
        self.selected = Some(next as usize);
    }

    /// The details of the selected finding, or a prompt when none is selected.
    pub fn detail_text(&self) -> (r: String)
        ensures
            r@ == detail_of(selected_view(self.filtered@, self.selected)),
    {
        match self.selected_finding() {
            Some(f) => {
                let mut d = owned(f.severity.as_str());
                append_str(&mut d, "  ");
                append_str(&mut d, f.rule_id.label());
                append_str(&mut d, "\nResource: ");
                append_str(&mut d, f.resource.as_str());
                append_str(&mut d, "\nNamespace: ");
                append_str(&mut d, f.namespace.as_str());
                let ghost mid = d@;
                match &f.container {
                    Some(c) => {
                        append_str(&mut d, "\nContainer: ");
                        append_str(&mut d, c.as_str());
                    },
                    None => {
                        assert(d@ =~= mid + Seq::<char>::empty());
                    },
                }
                append_str(&mut d, "\nFile: ");
                append_str(&mut d, f.file.as_str());
                append_str(&mut d, "\n\n");
                append_str(&mut d, f.message.as_str());
                d
            },
            None => owned("Select a finding to see details."),
        }
    }

    /// The state when the path to scan does not exist: the status says so
    /// and no findings are kept.
    pub fn scan_path_missing(&mut self, shown_path: &str)
        ensures
            final(self).status@ == "Path not found: "@ + shown_path@,
            final(self).all_findings@.len() == 0,
            final(self).filtered@.len() == 0,
            final(self).selected == old(self).selected,
            final(self).severity_filter == old(self).severity_filter,
            final(self).rule_filter == old(self).rule_filter,
            final(self).path_input@ == old(self).path_input@,
            final(self).show_help == old(self).show_help,
            final(self).editing_path == old(self).editing_path,
            final(self).should_quit == old(self).should_quit,
    {
        let mut status = owned("Path not found: ");
        append_str(&mut status, shown_path);
        self.status = status;
        self.all_findings = Vec::new();
        self.filtered = Vec::new();
    }

    /// The status while the path is being scanned.
    pub fn scan_started(&mut self, shown_path: &str)
        ensures
            final(self).status@ == "Scanning "@ + shown_path@ + "…"@,
            final(self).same_input(old(self)),
            views(final(self).filtered@) == views(old(self).filtered@),
            final(self).selected == old(self).selected,
            final(self).severity_filter == old(self).severity_filter,
            final(self).rule_filter == old(self).rule_filter,
    {
        let mut status = owned("Scanning ");
        append_str(&mut status, shown_path);
        append_str(&mut status, "…");
        self.status = status;
        proof {
            assert(views(self.filtered@) == views(old(self).filtered@));
        }
    }

    /// Takes the findings of a finished scan: the filters are cleared and
    /// reapplied, so every finding is shown.
    pub fn scan_finished(&mut self, findings: Vec<Finding>)
        ensures
            views(final(self).all_findings@) == views(findings@),
            final(self).severity_filter is None,
            final(self).rule_filter is None,
            final(self).filters_applied(old(self).selected),
            final(self).path_input@ == old(self).path_input@,
            final(self).show_help == old(self).show_help,
            final(self).editing_path == old(self).editing_path,
            final(self).should_quit == old(self).should_quit,
    {
        self.all_findings = findings;
        self.severity_filter = None;
        self.rule_filter = None;
        self.apply_filters();
    }

    /// Handles one key press and says whether a scan has to be run.
    ///
    /// An open help window closes on any key. While the path is edited,
    /// Esc stops editing, Enter stops editing and scans, Backspace deletes
    /// the last character and a character is appended. Otherwise q or Esc
    /// quits, ? opens the help, / starts editing the path, f and r cycle the
    /// severity and rule filters, F5 or Enter scans, Up/k and Down/j move the
    /// selection.
    pub fn handle_key(&mut self, key: Key) -> (action: KeyAction)
        ensures
            old(self).show_help ==> {
                &&& action == KeyAction::Nothing
                &&& !final(self).show_help
                &&& final(self).editing_path == old(self).editing_path
                &&& final(self).should_quit == old(self).should_quit
                &&& final(self).path_input@ == old(self).path_input@
                &&& final(self).same_listing(old(self))
            },
            !old(self).show_help && old(self).editing_path ==> {
                &&& final(self).show_help == old(self).show_help
                &&& final(self).should_quit == old(self).should_quit
                &&& final(self).same_listing(old(self))
                &&& match key {
                    Key::Esc => !final(self).editing_path && action == KeyAction::Nothing
                        && final(self).path_input@ == old(self).path_input@,
                    Key::Enter => !final(self).editing_path && action == KeyAction::Scan
                        && final(self).path_input@ == old(self).path_input@,
                    Key::Backspace => final(self).editing_path && action == KeyAction::Nothing
                        && final(self).path_input@ == if old(self).path_input@.len() == 0 {
                        old(self).path_input@
                    } else {
                        old(self).path_input@.drop_last()
                    },
                    Key::Char(c) => final(self).editing_path && action == KeyAction::Nothing
                        && final(self).path_input@ == old(self).path_input@.push(c),
                    _ => final(self).editing_path && action == KeyAction::Nothing
                        && final(self).path_input@ == old(self).path_input@,
                }
            },
            !old(self).show_help && !old(self).editing_path ==> {
                &&& final(self).path_input@ == old(self).path_input@
                &&& match key {
                    Key::Char('q') | Key::Esc => action == KeyAction::Nothing
                        && final(self).should_quit && !final(self).show_help
                        && !final(self).editing_path && final(self).same_listing(old(self)),
                    Key::Char('?') => action == KeyAction::Nothing && final(self).show_help
                        && !final(self).editing_path && final(self).should_quit
                        == old(self).should_quit && final(self).same_listing(old(self)),
                    Key::Char('/') => action == KeyAction::Nothing && final(self).editing_path
                        && !final(self).show_help && final(self).should_quit
                        == old(self).should_quit && final(self).same_listing(old(self)),
                    Key::Char('f') => action == KeyAction::Nothing && final(self).same_input(
                        old(self),
                    ) && final(self).severity_filter == next_severity_filter(
                        old(self).severity_filter,
                    ) && final(self).rule_filter == old(self).rule_filter && final(self).filters_applied(old(self).selected),
                    Key::Char('r') => action == KeyAction::Nothing && final(self).same_input(
                        old(self),
                    ) && final(self).rule_filter == next_rule_filter(old(self).rule_filter)
                        && final(self).severity_filter == old(self).severity_filter && final(self).filters_applied(old(self).selected),
                    Key::F(5) | Key::Enter => action == KeyAction::Scan && final(self).same_input(
                        old(self),
                    ) && final(self).same_listing(old(self)),
                    Key::Up | Key::Char('k') => action == KeyAction::Nothing && final(self).same_input(old(self)) && final(self).same_filters_and_status(old(self))
                        && final(self).selected == if old(self).filtered@.len() == 0 {
                        old(self).selected
                    } else {
                        Some(moved_selection(old(self).selected, -1, old(self).filtered@.len()))
                    },
                    Key::Down | Key::Char('j') => action == KeyAction::Nothing && final(self).same_input(old(self)) && final(self).same_filters_and_status(old(self))
                        && final(self).selected == if old(self).filtered@.len() == 0 {
                        old(self).selected
                    } else {
                        Some(moved_selection(old(self).selected, 1, old(self).filtered@.len()))
                    },
                    _ => action == KeyAction::Nothing && final(self).same_input(old(self))
                        && final(self).same_listing(old(self)),
                }
            },
    {
        if self.show_help {
            self.show_help = false;
            return KeyAction::Nothing;
        }
        if self.editing_path {
            match key {
                Key::Esc => {
                    self.editing_path = false;
                },
                Key::Enter => {
                    self.editing_path = false;
                    return KeyAction::Scan;
                },
                Key::Backspace => {
                    let cs = crate::text::chars_of(self.path_input.as_str());
                    if cs.len() > 0 {
                        self.path_input = crate::text::string_from_range(&cs, 0, cs.len() - 1);
                    }
                },
                Key::Char(c) => {
                    push_char(&mut self.path_input, c);
                },
                _ => {},
            }
            return KeyAction::Nothing;
        }
        match key {
            Key::Char('q') | Key::Esc => {
                self.should_quit = true;
                KeyAction::Nothing
            },
            Key::Char('?') => {
                self.show_help = true;
                KeyAction::Nothing
            },
            Key::Char('/') => {
                self.editing_path = true;
                KeyAction::Nothing
            },
            Key::Char('f') => {
                self.cycle_severity();
                KeyAction::Nothing
            },
            Key::Char('r') => {
                self.cycle_rule();
                KeyAction::Nothing
            },
            Key::F(5) | Key::Enter => KeyAction::Scan,
            Key::Up | Key::Char('k') => {
                self.move_sel(-1);
                KeyAction::Nothing
            },
            Key::Down | Key::Char('j') => {
                self.move_sel(1);
                KeyAction::Nothing
            },
            _ => KeyAction::Nothing,
        }
    }
}

} // verus!
