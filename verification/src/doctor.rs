//! Health report for external and in-process tooling.

use vstd::prelude::*;
use vstd::string::StringExecFns;
use crate::jira_import::CommentBodyFormat;

verus! {

/// One line of doctor status for a tool.
#[derive(Debug, Clone)]
pub struct ToolStatus {
    pub name: String,
    pub present: bool,
    pub detail: String,
}

impl View for ToolStatus {
    type V = (Seq<char>, bool, Seq<char>);

    open spec fn view(&self) -> (Seq<char>, bool, Seq<char>) {
        (self.name@, self.present, self.detail@)
    }
}

pub open spec fn status_line(s: ToolStatus) -> Seq<char> {
    s.name@ + ": "@ + (if s.present {
        "ok"@
    } else {
        "MISSING"@
    }) + " — "@ + s.detail@
}

impl ToolStatus {
    /// `name: ok — detail` or `name: MISSING — detail`.
    pub fn line(&self) -> (r: String)
        ensures
            r@ == status_line(*self),
    {
        let mut s = self.name.clone();
        s.append(": ");
        if self.present {
            s.append("ok");
        } else {
            s.append("MISSING");
        }
        s.append(" — ");
        s.append(self.detail.as_str());
        s
    }
}

pub open spec fn status_lines(ss: Seq<ToolStatus>) -> Seq<char>
    decreases ss.len(),
{
    if ss.len() == 0 {
        seq![]
    } else {
        status_lines(ss.drop_last()) + status_line(ss.last()) + "\n"@
    }
}

/// Human-readable multi-line doctor report: a heading, then one line per tool.
pub fn format_doctor(statuses: &[ToolStatus]) -> (r: String)
    ensures
        r@ == "canonic doctor\n"@ + status_lines(statuses@),
{
    let mut s = String::from_str("canonic doctor\n");
    let ghost head = s@;
    let mut k: usize = 0;
    while k < statuses.len()
        invariant
            k <= statuses.len(),
            s@ == head + status_lines(statuses@.take(k as int)),
        decreases statuses.len() - k,
    {
        let l = statuses[k].line();
        s.append(l.as_str());
        s.append("\n");
        assert(statuses@.take(k + 1).drop_last() =~= statuses@.take(k as int));
        assert(s@ =~= head + status_lines(statuses@.take(k + 1)));
        k += 1;
    }
    assert(statuses@.take(statuses.len() as int) =~= statuses@);
    s
}

/// A status that blocks the convert workflow: pandoc missing.
pub open spec fn is_critical(s: ToolStatus) -> bool {
    s.name@ == "pandoc"@ && !s.present
}

/// The critical statuses among `ss`, in order.
pub open spec fn critical_of(ss: Seq<ToolStatus>) -> Seq<ToolStatus>
    decreases ss.len(),
{
    if ss.len() == 0 {
        seq![]
    } else {
        let rest = critical_of(ss.drop_last());
        if is_critical(ss.last()) {
            rest.push(ss.last())
        } else {
            rest
        }
    }
}

pub open spec fn targets(s: Seq<&ToolStatus>) -> Seq<ToolStatus> {
    Seq::new(s.len(), |i: int| *s[i])
}

/// Critical tools for the convert workflow: currently pandoc.
pub fn critical_missing(statuses: &[ToolStatus]) -> (r: Vec<&ToolStatus>)
    ensures
        targets(r@) == critical_of(statuses@),
{
    let mut out: Vec<&ToolStatus> = Vec::new();
    let pandoc = String::from_str("pandoc");
    let mut k: usize = 0;
    while k < statuses.len()
        invariant
            k <= statuses.len(),
            pandoc@ == "pandoc"@,
            targets(out@) == critical_of(statuses@.take(k as int)),
        decreases statuses.len() - k,
    {
        assert(statuses@.take(k + 1).drop_last() =~= statuses@.take(k as int));
        let s = &statuses[k];
        let ghost prev = targets(out@);
        if s.name == pandoc && !s.present {
            out.push(s);
            assert(targets(out@) =~= prev.push(*s));
        }
        assert(targets(out@) =~= critical_of(statuses@.take(k + 1)));
        k += 1;
    }
    assert(statuses@.take(statuses.len() as int) =~= statuses@);
    out
}

/// Status of pandoc, given whether it answered and its version line.
pub open spec fn pandoc_view(present: bool, version_line: Option<Seq<char>>) -> (Seq<char>, bool, Seq<char>) {
    (
        "pandoc"@,
        present,
        if present {
            match version_line {
                Some(v) => v,
                None => "present on PATH"@,
            }
        } else {
            "not installed or not on PATH (required for `canonic convert`)"@
        },
    )
}

/// Status of pandoc, given whether it answered and its version line.
pub fn pandoc_status(present: bool, version_line: Option<String>) -> (r: ToolStatus)
    ensures
        r@ == pandoc_view(present, crate::corpus::opt_view(version_line)),
{
    let detail = if present {
        match version_line {
            Some(v) => v,
            None => String::from_str("present on PATH"),
        }
    } else {
        String::from_str("not installed or not on PATH (required for `canonic convert`)")
    };
    ToolStatus { name: String::from_str("pandoc"), present, detail }
}

/// Status of the Vale CLI.
pub open spec fn vale_view(present: bool) -> (Seq<char>, bool, Seq<char>) {
    (
        "vale"@,
        present,
        if present {
            "present on PATH (used by `canonic lint --engine vale|all`)"@
        } else {
            "not installed or not on PATH (optional; style lint skipped when missing)"@
        },
    )
}

/// Status of the Vale CLI.
pub fn vale_status(present: bool) -> (r: ToolStatus)
    ensures
        r@ == vale_view(present),
{
    let detail = if present {
        String::from_str("present on PATH (used by `canonic lint --engine vale|all`)")
    } else {
        String::from_str("not installed or not on PATH (optional; style lint skipped when missing)")
    };
    ToolStatus { name: String::from_str("vale"), present, detail }
}

/// Status of the optional Harper CLI, given the binary name found, if any.
pub open spec fn harper_cli_view(bin: Option<Seq<char>>) -> (Seq<char>, bool, Seq<char>) {
    (
        "harper-cli"@,
        bin is Some,
        match bin {
            Some(b) => b + " present on PATH (optional CLI fallback)"@,
            None => "no harper-cli/harper/harperls on PATH (optional; in-process harper-core still used)"@,
        },
    )
}

/// Status of the optional Harper CLI, given the binary name found, if any.
pub fn harper_cli_status(bin: Option<&str>) -> (r: ToolStatus)
    ensures
        r@ == harper_cli_view(
            match bin {
                Some(b) => Some(b@),
                None => None,
            },
        ),
{
    match bin {
        Some(b) => {
            let mut d = String::from_str(b);
            d.append(" present on PATH (optional CLI fallback)");
            ToolStatus { name: String::from_str("harper-cli"), present: true, detail: d }
        },
        None => ToolStatus {
            name: String::from_str("harper-cli"),
            present: false,
            detail: String::from_str(
                "no harper-cli/harper/harperls on PATH (optional; in-process harper-core still used)",
            ),
        },
    }
}

/// Status of the in-process grammar engine, given whether it is linked and
/// its version.
pub open spec fn harper_core_view(linked: bool, version: Seq<char>) -> (Seq<char>, bool, Seq<char>) {
    (
        "harper-core"@,
        linked,
        if linked {
            "in-process grammar engine linked (v"@ + version + ")"@
        } else {
            "in-process harper-core not linked in this build"@
        },
    )
}

/// Status of the in-process grammar engine, given whether it is linked and
/// its version.
pub fn harper_core_status(linked: bool, version: &str) -> (r: ToolStatus)
    ensures
        r@ == harper_core_view(linked, version@),
{
    let detail = if linked {
        let mut d = String::from_str("in-process grammar engine linked (v");
        d.append(version);
        d.append(")");
        d
    } else {
        String::from_str("in-process harper-core not linked in this build")
    };
    ToolStatus { name: String::from_str("harper-core"), present: linked, detail }
}

/// The outcome of the optional Jira check.
pub enum JiraCheck {
    /// `JIRA_BASE_URL` is not set.
    Unset,
    /// Settings incomplete; the reason.
    Incomplete(String),
    /// The probe failed; the reason.
    ProbeFailed(String),
    /// The probe answered for this user with this comment format.
    Answered { display_name: String, format: CommentBodyFormat },
}

pub open spec fn format_label(f: CommentBodyFormat) -> Seq<char> {
    match f {
        CommentBodyFormat::Adf => "ADF/v3"@,
        CommentBodyFormat::Wiki => "wiki/v2"@,
        CommentBodyFormat::Auto => "auto"@,
    }
}

/// Status of the optional free-tier Jira check; never critical.
pub open spec fn jira_view(check: JiraCheck) -> (Seq<char>, bool, Seq<char>) {
    (
        "jira"@,
        check is Answered,
        match check {
            JiraCheck::Unset => "JIRA_BASE_URL unset (optional; set for jira-probe / import-jira / jira-comment)"@,
            JiraCheck::Incomplete(e) => "Jira env incomplete: "@ + e@,
            JiraCheck::ProbeFailed(e) => "JIRA_BASE_URL set but probe failed: "@ + e@,
            JiraCheck::Answered { display_name, format } => "ok free platform REST — "@ + display_name@
                + " ("@ + format_label(format) + "; no Marketplace apps)"@,
        },
    )
}

/// Status line of the optional free-tier Jira check; never critical.
pub fn jira_status(check: JiraCheck) -> (r: ToolStatus)
    ensures
        r@ == jira_view(check),
{
    let name = String::from_str("jira");
    match check {
        JiraCheck::Unset => ToolStatus {
            name,
            present: false,
            detail: String::from_str(
                "JIRA_BASE_URL unset (optional; set for jira-probe / import-jira / jira-comment)",
            ),
        },
        JiraCheck::Incomplete(e) => {
            let mut d = String::from_str("Jira env incomplete: ");
            d.append(e.as_str());
            ToolStatus { name, present: false, detail: d }
        },
        JiraCheck::ProbeFailed(e) => {
            let mut d = String::from_str("JIRA_BASE_URL set but probe failed: ");
            d.append(e.as_str());
            ToolStatus { name, present: false, detail: d }
        },
        JiraCheck::Answered { display_name, format } => {
            let mut d = String::from_str("ok free platform REST — ");
            d.append(display_name.as_str());
            d.append(" (");
            match format {
                CommentBodyFormat::Adf => d.append("ADF/v3"),
                CommentBodyFormat::Wiki => d.append("wiki/v2"),
                CommentBodyFormat::Auto => d.append("auto"),
            }
            d.append("; no Marketplace apps)");
            ToolStatus { name, present: true, detail: d }
        },
    }
}

/// The tooling report: pandoc, Vale, the Harper CLI, the in-process Harper
/// engine and the optional Jira check, in that order, from what the probes
/// found.
pub fn collect_statuses_from(
    pandoc: bool,
    pandoc_version: Option<String>,
    vale: bool,
    harper_bin: Option<&str>,
    harper_core: bool,
    harper_version: &str,
    jira: JiraCheck,
) -> (r: Vec<ToolStatus>)
    ensures
        r@.len() == 5,
        r@[0]@ == pandoc_view(pandoc, crate::corpus::opt_view(pandoc_version)),
        r@[1]@ == vale_view(vale),
        r@[2]@ == harper_cli_view(
            match harper_bin {
                Some(b) => Some(b@),
                None => None,
            },
        ),
        r@[3]@ == harper_core_view(harper_core, harper_version@),
        r@[4]@ == jira_view(jira),
{
    let mut out: Vec<ToolStatus> = Vec::new();
    out.push(pandoc_status(pandoc, pandoc_version));
    out.push(vale_status(vale));
    out.push(harper_cli_status(harper_bin));
    out.push(harper_core_status(harper_core, harper_version));
    out.push(jira_status(jira));
    out
}

} // verus!

verus! {

/// The doctor report is critical exactly when pandoc is missing, whatever
/// the optional tools and the Jira check say.
pub proof fn law_only_pandoc_is_critical(s: Seq<ToolStatus>)
    requires
        s.len() == 5,
        s[0]@.0 == "pandoc"@,
        s[1]@.0 == "vale"@,
        s[2]@.0 == "harper-cli"@,
        s[3]@.0 == "harper-core"@,
        s[4]@.0 == "jira"@,
    ensures
        (critical_of(s).len() == 0) <==> s[0].present,
{
    reveal_strlit("pandoc");
    reveal_strlit("vale");
    reveal_strlit("harper-cli");
    reveal_strlit("harper-core");
    reveal_strlit("jira");
    assert(s.drop_last().drop_last().drop_last().drop_last() =~= seq![s[0]]);
    assert(s.drop_last().drop_last().drop_last() =~= seq![s[0], s[1]]);
    assert(s.drop_last().drop_last() =~= seq![s[0], s[1], s[2]]);
    assert(s.drop_last() =~= seq![s[0], s[1], s[2], s[3]]);
    assert(s[1].name@.len() != "pandoc"@.len());
    assert(s[2].name@.len() != "pandoc"@.len());
    assert(s[3].name@.len() != "pandoc"@.len());
    assert(s[4].name@.len() != "pandoc"@.len());
    assert(!is_critical(s[1]) && !is_critical(s[2]) && !is_critical(s[3]) && !is_critical(s[4]));
    assert(seq![s[0]].drop_last() =~= Seq::<ToolStatus>::empty());
    let c1 = critical_of(seq![s[0]]);
    assert(seq![s[0]].last() == s[0]);
    assert(critical_of(Seq::<ToolStatus>::empty()) =~= Seq::<ToolStatus>::empty());
    assert(s[0].name@ == "pandoc"@);
    assert(is_critical(s[0]) == !s[0].present);
    assert(c1.len() == 0 <==> s[0].present);
    assert(critical_of(seq![s[0], s[1]]) == c1);
    assert(critical_of(seq![s[0], s[1], s[2]]) == c1);
    assert(critical_of(seq![s[0], s[1], s[2], s[3]]) == c1);
    assert(critical_of(s) == c1);
}

} // verus!
