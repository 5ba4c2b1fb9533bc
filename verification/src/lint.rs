//! Lint reports for the markdown corpus (Vale, Harper) and prose extraction.

use vstd::prelude::*;
use vstd::string::StringExecFns;
use crate::corpus::string_views;
use crate::json::{get, json_object_of, parse_json_object, parsed_model, JsonModel, JsonValue};
use crate::text::{chars_of, contains, contains_chars, decimal, join, lines, lowercase, push_decimal, to_lowercase, trim};

verus! {

/// Which lint engine to run.
#[derive(Debug, Clone, Copy, PartialEq, Eq, Structural)]
pub enum LintEngine {
    /// Run Vale (if present) and Harper (in-process, plus CLI if present).
    All,
    /// Run only Vale.
    Vale,
    /// Run Harper in-process (and the CLI if on PATH).
    Harper,
}

/// One lint finding from any engine.
#[derive(Debug, Clone)]
pub struct LintFinding {
    pub engine: String,
    pub path: String,
    pub message: String,
    pub severity: String,
    pub line: Option<u32>,
}

/// Aggregated report from one or more engines.
#[derive(Debug, Clone)]
pub struct LintReport {
    pub findings: Vec<LintFinding>,
    /// Engines that ran.
    pub ran: Vec<String>,
    /// Engines that were requested but missing (explicit messages).
    pub missing: Vec<String>,
}

/// `{:?}` of a string: quoted, with escapes.
pub uninterp spec fn debug_str(s: Seq<char>) -> Seq<char>;

/// Formats one string with `{:?}` (`<str as Debug>::fmt`). The escaping
/// rules are Unicode-dependent, so the result is only named.
#[verifier::external_body]
pub(crate) fn debug_quote(s: &str) -> (r: String)
    ensures
        r@ == debug_str(s@),
{
    format!("{:?}", s)
}

/// `{:?}` of a list of strings.
pub open spec fn debug_list(items: Seq<Seq<char>>) -> Seq<char> {
    "["@ + join(items.map_values(|s: Seq<char>| debug_str(s)), ", "@) + "]"@
}

pub(crate) fn debug_list_exec(items: &Vec<String>) -> (r: String)
    ensures
        r@ == debug_list(string_views(items@)),
{
    let mut parts: Vec<Vec<char>> = Vec::new();
    let mut k: usize = 0;
    while k < items.len()
        invariant
            k <= items.len(),
            crate::text::views(parts@) == string_views(items@).take(k as int).map_values(
                |s: Seq<char>| debug_str(s),
            ),
        decreases items.len() - k,
    {
        let d = crate::text::chars_of(debug_quote(items[k].as_str()).as_str());
        let ghost prev = parts@;
        parts.push(d);
        proof {
            crate::text::lemma_views_push(prev, d);
        }
        assert(crate::text::views(parts@) =~= string_views(items@).take(k + 1).map_values(
            |s: Seq<char>| debug_str(s),
        ));
        k += 1;
    }
    assert(string_views(items@).take(items.len() as int) =~= string_views(items@));
    let sep = crate::text::chars_of(", ");
    let joined = crate::text::join_chars(&parts, &sep);
    let mut s = String::from_str("[");
    crate::text::push_chars(&mut s, &joined);
    s.append("]");
    s
}

/// `lint: N finding(s); ran=[..]; missing=[..]`.
pub open spec fn lint_summary(r: LintReportView) -> Seq<char> {
    "lint: "@ + decimal(r.0.len()) + " finding(s); ran="@ + debug_list(r.1) + "; missing="@
        + debug_list(r.2)
}

/// The text of a report: summary, missing tools, findings, and a closing
/// line when the report is clean.
pub open spec fn report_text(r: LintReportView) -> Seq<char> {
    lint_summary(r) + "\n"@ + missing_text(r.2) + findings_text(r.0) + if r.0.len() == 0
        && r.2.len() == 0 {
        "No issues found.\n"@
    } else {
        seq![]
    }
}

impl LintReport {
    /// No finding and nothing missing.
    pub fn is_clean(&self) -> (r: bool)
        ensures
            r == (self.findings@.len() == 0 && self.missing@.len() == 0),
    {
        self.findings.len() == 0 && self.missing.len() == 0
    }

    /// `lint: N finding(s); ran=[..]; missing=[..]`.
    pub fn summary_line(&self) -> (r: String)
        ensures
            r@ == lint_summary(self@),
    {
        let mut s = String::from_str("lint: ");
        push_decimal(&mut s, self.findings.len());
        s.append(" finding(s); ran=");
        s.append(debug_list_exec(&self.ran).as_str());
        s.append("; missing=");
        s.append(debug_list_exec(&self.missing).as_str());
        s
    }
}

/// Whether the in-process Harper engine counts as available: the program
/// around this library is meant to link `harper-core`, so the answer is
/// always yes; the lint run does not probe for it.
pub fn harper_core_available() -> (r: bool)
    ensures
        r,
{
    true
}

/// The Vale command line for the given paths: JSON output, no failing exit.
pub fn vale_command_args(paths: &[String]) -> (r: Vec<String>)
    ensures
        string_views(r@) == seq!["--output=JSON"@, "--no-exit"@] + string_views(paths@),
{
    let mut args: Vec<String> = Vec::new();
    args.push(String::from_str("--output=JSON"));
    args.push(String::from_str("--no-exit"));
    let ghost head = string_views(args@);
    assert(head =~= seq!["--output=JSON"@, "--no-exit"@]);
    let mut k: usize = 0;
    while k < paths.len()
        invariant
            k <= paths.len(),
            string_views(args@) == head + string_views(paths@).take(k as int),
        decreases paths.len() - k,
    {
        let ghost prev = args@;
        let p = paths[k].clone();
        args.push(p);
        proof {
            crate::corpus::lemma_string_views_push(prev, p);
        }
        assert(string_views(args@) =~= head + string_views(paths@).take(k + 1));
        k += 1;
    }
    assert(string_views(paths@).take(paths.len() as int) =~= string_views(paths@));
    args
}

/// Harper CLI arguments: the paths themselves.
pub fn harper_command_args(paths: &[String]) -> (r: Vec<String>)
    ensures
        string_views(r@) == string_views(paths@),
{
    let mut args: Vec<String> = Vec::new();
    let mut k: usize = 0;
    while k < paths.len()
        invariant
            k <= paths.len(),
            string_views(args@) == string_views(paths@).take(k as int),
        decreases paths.len() - k,
    {
        let ghost prev = args@;
        let p = paths[k].clone();
        args.push(p);
        proof {
            crate::corpus::lemma_string_views_push(prev, p);
        }
        assert(string_views(args@) =~= string_views(paths@).take(k + 1));
        k += 1;
    }
    assert(string_views(paths@).take(paths.len() as int) =~= string_views(paths@));
    args
}

/// Names the Harper CLI goes by, in the order they are tried.
pub fn harper_candidates() -> (r: [&'static str; 3])
    ensures
        r@[0]@ == "harper-cli"@,
        r@[1]@ == "harper"@,
        r@[2]@ == "harperls"@,
{
    ["harper-cli", "harper", "harperls"]
}

/// The Harper CLI binary to use: the first candidate found on PATH.
pub fn harper_binary_name(available: [bool; 3]) -> (r: Option<&'static str>)
    ensures
        match r {
            Some(b) => (available[0] && b@ == "harper-cli"@) || (!available[0] && available[1]
                && b@ == "harper"@) || (!available[0] && !available[1] && available[2] && b@
                == "harperls"@),
            None => !available[0] && !available[1] && !available[2],
        },
{
    if available[0] {
        Some("harper-cli")
    } else if available[1] {
        Some("harper")
    } else if available[2] {
        Some("harperls")
    } else {
        None
    }
}

} // verus!

verus! {

impl View for LintFinding {
    type V = (Seq<char>, Seq<char>, Seq<char>, Seq<char>, Option<u32>);

    open spec fn view(&self) -> Self::V {
        (self.engine@, self.path@, self.message@, self.severity@, self.line)
    }
}

impl LintFinding {
    /// A copy with equal fields.
    pub fn duplicate(&self) -> (r: LintFinding)
        ensures
            r@ == self@,
    {
        LintFinding {
            engine: self.engine.clone(),
            path: self.path.clone(),
            message: self.message.clone(),
            severity: self.severity.clone(),
            line: self.line,
        }
    }
}

pub open spec fn lint_views(v: Seq<LintFinding>) -> Seq<(Seq<char>, Seq<char>, Seq<char>, Seq<char>, Option<u32>)> {
    Seq::new(v.len(), |i: int| v[i]@)
}

pub type LintReportView = (
    Seq<(Seq<char>, Seq<char>, Seq<char>, Seq<char>, Option<u32>)>,
    Seq<Seq<char>>,
    Seq<Seq<char>>,
);

impl View for LintReport {
    type V = LintReportView;

    open spec fn view(&self) -> LintReportView {
        (lint_views(self.findings@), string_views(self.ran@), string_views(self.missing@))
    }
}

pub open spec fn line_suffix(line: Option<u32>) -> Seq<char> {
    match line {
        Some(n) => ":"@ + decimal(n as nat),
        None => seq![],
    }
}

pub open spec fn finding_text(f: (Seq<char>, Seq<char>, Seq<char>, Seq<char>, Option<u32>)) -> Seq<char> {
    "["@ + f.0 + "] "@ + f.1 + line_suffix(f.4) + ": "@ + f.2 + " ("@ + f.3 + ")\n"@
}

pub open spec fn findings_text(fs: Seq<(Seq<char>, Seq<char>, Seq<char>, Seq<char>, Option<u32>)>) -> Seq<char>
    decreases fs.len(),
{
    if fs.len() == 0 {
        seq![]
    } else {
        findings_text(fs.drop_last()) + finding_text(fs.last())
    }
}

pub open spec fn missing_text(ms: Seq<Seq<char>>) -> Seq<char>
    decreases ms.len(),
{
    if ms.len() == 0 {
        seq![]
    } else {
        missing_text(ms.drop_last()) + "MISSING: "@ + ms.last() + "\n"@
    }
}

fn push_finding_text(out: &mut String, f: &LintFinding)
    ensures
        final(out)@ == old(out)@ + finding_text(f@),
{
    out.append("[");
    out.append(f.engine.as_str());
    out.append("] ");
    out.append(f.path.as_str());
    match f.line {
        Some(n) => {
            out.append(":");
            push_decimal(out, n as usize);
        },
        None => {},
    }
    out.append(": ");
    out.append(f.message.as_str());
    out.append(" (");
    out.append(f.severity.as_str());
    out.append(")\n");
}

/// Format a human-readable report: summary, missing tools, findings, and a
/// closing line when the report is clean.
pub fn format_report(report: &LintReport) -> (r: String)
    ensures
        r@ == report_text(report@),
{
    let mut out = report.summary_line();
    out.append("\n");
    let ghost head = out@;
    let mut k: usize = 0;
    while k < report.missing.len()
        invariant
            k <= report.missing.len(),
            out@ == head + missing_text(string_views(report.missing@).take(k as int)),
        decreases report.missing.len() - k,
    {
        out.append("MISSING: ");
        out.append(report.missing[k].as_str());
        out.append("\n");
        assert(string_views(report.missing@).take(k + 1).drop_last() =~= string_views(
            report.missing@,
        ).take(k as int));
        assert(out@ =~= head + missing_text(string_views(report.missing@).take(k + 1)));
        k += 1;
    }
    assert(string_views(report.missing@).take(report.missing.len() as int) =~= string_views(
        report.missing@,
    ));
    let ghost mid = out@;
    let mut j: usize = 0;
    while j < report.findings.len()
        invariant
            j <= report.findings.len(),
            out@ == mid + findings_text(lint_views(report.findings@).take(j as int)),
        decreases report.findings.len() - j,
    {
        push_finding_text(&mut out, &report.findings[j]);
        assert(lint_views(report.findings@).take(j + 1).drop_last() =~= lint_views(
            report.findings@,
        ).take(j as int));
        assert(out@ =~= mid + findings_text(lint_views(report.findings@).take(j + 1)));
        j += 1;
    }
    assert(lint_views(report.findings@).take(report.findings.len() as int) =~= lint_views(
        report.findings@,
    ));
    if report.findings.len() == 0 && report.missing.len() == 0 {
        out.append("No issues found.\n");
    }
    out
}

} // verus!

verus! {

/// Why no lint run can start.
#[derive(Debug, Clone, Copy, PartialEq, Eq, Structural)]
pub enum LintError {
    /// No path was given.
    NoPaths,
}

impl LintError {
    pub fn message(&self) -> (r: String)
        ensures
            r@ == "no paths to lint"@,
    {
        String::from_str("no paths to lint")
    }
}

/// The outside work a lint run asks for next.
#[derive(Debug, Clone, PartialEq, Eq)]
pub enum LintAction {
    /// Check whether the Vale CLI is on PATH.
    ProbeVale,
    /// Run Vale over the paths.
    RunVale,
    /// Lint the paths with the in-process Harper engine.
    RunHarperCore,
    /// Look for a Harper CLI binary.
    FindHarperCli,
    /// Run this Harper CLI binary over the paths.
    RunHarperCli(String),
    /// The report is complete.
    Finish,
}

/// What the outside work brought back.
#[derive(Debug)]
pub enum LintEvent {
    ValeProbed(bool),
    ValeRan(Result<Vec<LintFinding>, String>),
    HarperCoreRan(Result<Vec<LintFinding>, String>),
    HarperCliFound(Option<String>),
    HarperCliRan(Result<Vec<LintFinding>, String>),
}

/// A lint run in progress: what was asked for, the report so far, and the
/// outside work awaited.
#[derive(Debug)]
pub struct LintRun {
    pub want_vale: bool,
    pub want_harper: bool,
    pub report: LintReport,
    pub next: LintAction,
}

pub open spec fn vale_missing_text() -> Seq<char> {
    "vale is not installed or not on PATH; install Vale to lint prose style"@
}

/// The error finding an engine failure is recorded as.
pub open spec fn failure_finding(engine: Seq<char>, message: Seq<char>) -> (
    Seq<char>,
    Seq<char>,
    Seq<char>,
    Seq<char>,
    Option<u32>,
) {
    (engine, seq![], message, "error"@, None)
}

/// The report after an engine ran: its findings added and the engine marked
/// as ran; a failure is one error finding with `prefix` and the reason.
pub open spec fn after_engine(
    r: LintReportView,
    engine: Seq<char>,
    prefix: Seq<char>,
    result: Result<Seq<(Seq<char>, Seq<char>, Seq<char>, Seq<char>, Option<u32>)>, Seq<char>>,
) -> LintReportView {
    match result {
        Ok(fs) => (r.0 + fs, r.1.push(engine), r.2),
        Err(e) => (r.0.push(failure_finding(engine, prefix + e)), r.1.push(engine), r.2),
    }
}

pub open spec fn result_views(r: Result<Vec<LintFinding>, String>) -> Result<
    Seq<(Seq<char>, Seq<char>, Seq<char>, Seq<char>, Option<u32>)>,
    Seq<char>,
> {
    match r {
        Ok(fs) => Ok(lint_views(fs@)),
        Err(e) => Err(e@),
    }
}

/// The action after the Vale part: Harper when asked for, else done.
pub open spec fn after_vale_action(want_harper: bool) -> LintAction {
    if want_harper {
        LintAction::RunHarperCore
    } else {
        LintAction::Finish
    }
}

/// One step of a lint run: the report and the next action after `event`
/// while `next` was awaited. An event that does not answer `next` changes
/// nothing.
pub open spec fn lint_step(
    want_harper: bool,
    r: LintReportView,
    next: LintAction,
    event: LintEvent,
) -> (LintReportView, LintAction) {
    match (next, event) {
        (LintAction::ProbeVale, LintEvent::ValeProbed(true)) => (r, LintAction::RunVale),
        (LintAction::ProbeVale, LintEvent::ValeProbed(false)) => (
            (r.0, r.1, r.2.push(vale_missing_text())),
            after_vale_action(want_harper),
        ),
        (LintAction::RunVale, LintEvent::ValeRan(res)) => (
            after_engine(r, "vale"@, "vale invocation failed: "@, result_views(res)),
            after_vale_action(want_harper),
        ),
        (LintAction::RunHarperCore, LintEvent::HarperCoreRan(res)) => (
            after_engine(r, "harper-core"@, "harper-core lint failed: "@, result_views(res)),
            LintAction::FindHarperCli,
        ),
        (LintAction::FindHarperCli, LintEvent::HarperCliFound(Some(bin))) => (
            r,
            LintAction::RunHarperCli(bin),
        ),
        (LintAction::FindHarperCli, LintEvent::HarperCliFound(None)) => (r, LintAction::Finish),
        (LintAction::RunHarperCli(bin), LintEvent::HarperCliRan(res)) => (
            after_engine(r, bin@, "harper CLI invocation failed: "@, result_views(res)),
            LintAction::Finish,
        ),
        _ => (r, next),
    }
}

fn push_string(v: &mut Vec<String>, s: String)
    ensures
        string_views(final(v)@) == string_views(old(v)@).push(s@),
{
    v.push(s);
    proof {
        crate::corpus::lemma_string_views_push(old(v)@, s);
    }
}

fn push_lint(v: &mut Vec<LintFinding>, f: LintFinding)
    ensures
        lint_views(final(v)@) == lint_views(old(v)@).push(f@),
{
    v.push(f);
    assert(lint_views(v@) =~= lint_views(old(v)@).push(f@));
}

fn record_engine(report: &mut LintReport, engine: &str, prefix: &str, result: Result<Vec<LintFinding>, String>)
    ensures
        final(report)@ == after_engine(old(report)@, engine@, prefix@, result_views(result)),
{
    match result {
        Ok(fs) => {
            push_string(&mut report.ran, String::from_str(engine));
            let mut k: usize = 0;
            let ghost base = lint_views(report.findings@);
            while k < fs.len()
                invariant
                    k <= fs.len(),
                    lint_views(report.findings@) == base + lint_views(fs@).take(k as int),
                    string_views(report.ran@) == string_views(old(report).ran@).push(engine@),
                    report.missing == old(report).missing,
                decreases fs.len() - k,
            {
                let f = fs[k].duplicate();
                push_lint(&mut report.findings, f);
                assert(lint_views(fs@).take(k + 1) =~= lint_views(fs@).take(k as int).push(fs@[k as int]@));
                k += 1;
            }
            assert(lint_views(fs@).take(fs.len() as int) =~= lint_views(fs@));
        },
        Err(e) => {
            let mut m = String::from_str(prefix);
            m.append(e.as_str());
            push_lint(
                &mut report.findings,
                LintFinding {
                    engine: String::from_str(engine),
                    path: String::new(),
                    message: m,
                    severity: String::from_str("error"),
                    line: None,
                },
            );
            push_string(&mut report.ran, String::from_str(engine));
        },
    }
}

} // verus!

verus! {

pub open spec fn wants_vale(engine: LintEngine) -> bool {
    engine == LintEngine::All || engine == LintEngine::Vale
}

pub open spec fn wants_harper(engine: LintEngine) -> bool {
    engine == LintEngine::All || engine == LintEngine::Harper
}

/// The first outside work of a run.
pub open spec fn first_action(want_vale: bool, want_harper: bool) -> LintAction {
    if want_vale {
        LintAction::ProbeVale
    } else {
        after_vale_action(want_harper)
    }
}

/// Start linting `paths` with the selected engine(s): refused without paths,
/// else an empty report awaiting the first outside work. Missing optional
/// tools end up as explicit entries in the report's `missing` list.
pub fn lint_paths(paths: &[String], engine: LintEngine) -> (r: Result<LintRun, LintError>)
    ensures
        paths@.len() == 0 ==> r == Err::<LintRun, LintError>(LintError::NoPaths),
        paths@.len() > 0 ==> (r matches Ok(run) && run.want_vale == wants_vale(engine)
            && run.want_harper == wants_harper(engine) && run.report@ == (
            Seq::<(Seq<char>, Seq<char>, Seq<char>, Seq<char>, Option<u32>)>::empty(),
            Seq::<Seq<char>>::empty(),
            Seq::<Seq<char>>::empty(),
        ) && run.next == first_action(wants_vale(engine), wants_harper(engine))),
{
    if paths.len() == 0 {
        return Err(LintError::NoPaths);
    }
    let want_vale = match engine {
        LintEngine::All | LintEngine::Vale => true,
        _ => false,
    };
    let want_harper = match engine {
        LintEngine::All | LintEngine::Harper => true,
        _ => false,
    };
    let report = LintReport { findings: Vec::new(), ran: Vec::new(), missing: Vec::new() };
    assert(report@ =~= (
        Seq::<(Seq<char>, Seq<char>, Seq<char>, Seq<char>, Option<u32>)>::empty(),
        Seq::<Seq<char>>::empty(),
        Seq::<Seq<char>>::empty(),
    ));
    let next = if want_vale {
        LintAction::ProbeVale
    } else if want_harper {
        LintAction::RunHarperCore
    } else {
        LintAction::Finish
    };
    Ok(LintRun { want_vale, want_harper, report, next })
}

fn copy_action(a: &LintAction) -> (r: LintAction)
    ensures
        r == *a,
{
    match a {
        LintAction::ProbeVale => LintAction::ProbeVale,
        LintAction::RunVale => LintAction::RunVale,
        LintAction::RunHarperCore => LintAction::RunHarperCore,
        LintAction::FindHarperCli => LintAction::FindHarperCli,
        LintAction::RunHarperCli(b) => LintAction::RunHarperCli(b.clone()),
        LintAction::Finish => LintAction::Finish,
    }
}

impl LintRun {
    /// Take in the outcome of the awaited outside work and say what comes next.
    pub fn step(&mut self, event: LintEvent) -> (a: LintAction)
        ensures
            (final(self).report@, final(self).next) == lint_step(
                old(self).want_harper,
                old(self).report@,
                old(self).next,
                event,
            ),
            a == final(self).next,
            final(self).want_vale == old(self).want_vale,
            final(self).want_harper == old(self).want_harper,
    {
        let after_vale = if self.want_harper {
            LintAction::RunHarperCore
        } else {
            LintAction::Finish
        };
        match (&self.next, event) {
            (LintAction::ProbeVale, LintEvent::ValeProbed(true)) => {
                self.next = LintAction::RunVale;
            },
            (LintAction::ProbeVale, LintEvent::ValeProbed(false)) => {
                push_string(
                    &mut self.report.missing,
                    String::from_str(
                        "vale is not installed or not on PATH; install Vale to lint prose style",
                    ),
                );
                self.next = after_vale;
            },
            (LintAction::RunVale, LintEvent::ValeRan(res)) => {
                record_engine(&mut self.report, "vale", "vale invocation failed: ", res);
                self.next = after_vale;
            },
            (LintAction::RunHarperCore, LintEvent::HarperCoreRan(res)) => {
                record_engine(&mut self.report, "harper-core", "harper-core lint failed: ", res);
                self.next = LintAction::FindHarperCli;
            },
            (LintAction::FindHarperCli, LintEvent::HarperCliFound(Some(bin))) => {
                self.next = LintAction::RunHarperCli(bin);
            },
            (LintAction::FindHarperCli, LintEvent::HarperCliFound(None)) => {
                self.next = LintAction::Finish;
            },
            (LintAction::RunHarperCli(bin), LintEvent::HarperCliRan(res)) => {
                let b = bin.clone();
                record_engine(&mut self.report, b.as_str(), "harper CLI invocation failed: ", res);
                self.next = LintAction::Finish;
            },
            _ => {},
        }
        copy_action(&self.next)
    }
}

} // verus!

verus! {

pub open spec fn dashes3() -> Seq<char> {
    seq!['-', '-', '-']
}

pub open spec fn fence() -> Seq<char> {
    seq!['`', '`', '`']
}

/// The text after a leading front-matter block, if `text` opens with one.
pub open spec fn prose_body(text: Seq<char>) -> Seq<char> {
    if crate::text::starts_with(text, dashes3()) {
        let rest = text.skip(3);
        match crate::text::find(rest, crate::corpus::fm_close()) {
            Some(end) => crate::text::strip_leading_newlines(rest.skip(end + 4)),
            None => text,
        }
    } else {
        text
    }
}

/// Leading characters of `set` removed.
pub open spec fn strip_leading_in(s: Seq<char>, set: Seq<char>) -> Seq<char>
    decreases s.len(),
{
    if s.len() > 0 && set.contains(s[0]) {
        strip_leading_in(s.drop_first(), set)
    } else {
        s
    }
}

/// Leading ASCII digits removed.
pub open spec fn strip_leading_digits(s: Seq<char>) -> Seq<char>
    decreases s.len(),
{
    if s.len() > 0 && crate::text::is_ascii_digit(s[0]) {
        strip_leading_digits(s.drop_first())
    } else {
        s
    }
}

/// A prose line without list markers (`-`, `+`, `*`, `#`, then a number and
/// `.` or `)`).
pub open spec fn prose_text(line: Seq<char>) -> Seq<char> {
    crate::text::trim(
        strip_leading_in(
            strip_leading_digits(strip_leading_in(line, seq!['-', '+', '*', '#'])),
            seq!['.', ')'],
        ),
    )
}

/// Paragraph collection state: finished paragraphs (start line, text), the
/// paragraph being built, its start line, and whether inside a code fence.
pub type ProseState = (Seq<(nat, Seq<char>)>, Seq<char>, nat, bool);

pub open spec fn flush(st: ProseState) -> ProseState {
    if st.1.len() > 0 {
        (st.0.push((st.2, st.1)), seq![], st.2, st.3)
    } else {
        st
    }
}

/// The state after one more line, numbered `line_no`.
pub open spec fn prose_step(st: ProseState, line_no: nat, raw: Seq<char>) -> ProseState {
    let line = crate::text::trim(raw);
    if crate::text::starts_with(line, fence()) {
        let f = flush(st);
        (f.0, f.1, f.2, !st.3)
    } else if st.3 {
        st
    } else if line.len() == 0 || line[0] == '#' || line[0] == '|' || crate::text::starts_with(
        line,
        dashes3(),
    ) {
        flush(st)
    } else {
        let bl = prose_text(line);
        if bl.len() == 0 {
            flush(st)
        } else if st.1.len() == 0 {
            (st.0, bl, line_no, st.3)
        } else {
            (st.0, st.1.push(' ') + bl, st.2, st.3)
        }
    }
}

/// The state after the first `k` lines of `ls`, numbered from `offset + 1`.
pub open spec fn prose_fold(ls: Seq<Seq<char>>, offset: nat, k: int) -> ProseState
    decreases k,
{
    if k <= 0 {
        (seq![], seq![], 0, false)
    } else {
        prose_step(prose_fold(ls, offset, k - 1), (offset + k) as nat, ls[k - 1])
    }
}

/// The prose paragraphs of a markdown text with their 1-based start lines:
/// front matter, headings, tables, rules and fenced code skipped, list
/// markers dropped, consecutive lines joined with a space.
pub open spec fn prose_paragraphs_of(text: Seq<char>) -> Seq<(nat, Seq<char>)> {
    let body = prose_body(text);
    let offset = crate::text::lines(text.take(text.len() - body.len())).len();
    let ls = crate::text::lines(body);
    flush(prose_fold(ls, offset, ls.len() as int)).0
}

} // verus!

verus! {

fn strip_leading_in_chars(v: &Vec<char>, set: &Vec<char>) -> (r: Vec<char>)
    ensures
        r@ == strip_leading_in(v@, set@),
{
    let n = v.len();
    let mut i: usize = 0;
    assert(v@.subrange(0, n as int) =~= v@);
    while i < n && crate::text::has_char(set, v[i])
        invariant
            i <= n == v.len(),
            strip_leading_in(v@, set@) == strip_leading_in(v@.subrange(i as int, n as int), set@),
        decreases n - i,
    {
        assert(v@.subrange(i as int, n as int).drop_first() =~= v@.subrange(i + 1, n as int));
        i += 1;
    }
    crate::text::slice_chars(v, i, n)
}

fn strip_leading_digits_chars(v: &Vec<char>) -> (r: Vec<char>)
    ensures
        r@ == strip_leading_digits(v@),
{
    let n = v.len();
    let mut i: usize = 0;
    assert(v@.subrange(0, n as int) =~= v@);
    while i < n && '0' <= v[i] && v[i] <= '9'
        invariant
            i <= n == v.len(),
            strip_leading_digits(v@) == strip_leading_digits(v@.subrange(i as int, n as int)),
        decreases n - i,
    {
        assert(v@.subrange(i as int, n as int).drop_first() =~= v@.subrange(i + 1, n as int));
        i += 1;
    }
    crate::text::slice_chars(v, i, n)
}

fn prose_text_chars(line: &Vec<char>) -> (r: Vec<char>)
    ensures
        r@ == prose_text(line@),
{
    let markers = vec!['-', '+', '*', '#'];
    let ends = vec!['.', ')'];
    assert(markers@ =~= seq!['-', '+', '*', '#']);
    assert(ends@ =~= seq!['.', ')']);
    let a = strip_leading_in_chars(line, &markers);
    let b = strip_leading_digits_chars(&a);
    let c = strip_leading_in_chars(&b, &ends);
    crate::text::trim_chars(&c)
}

proof fn lemma_strip_leading_newlines_len(s: Seq<char>)
    ensures
        crate::text::strip_leading_newlines(s).len() <= s.len(),
    decreases s.len(),
{
    if s.len() > 0 && (s[0] == '\r' || s[0] == '\n') {
        lemma_strip_leading_newlines_len(s.drop_first());
    }
}

fn prose_body_chars(tv: &Vec<char>) -> (r: Vec<char>)
    ensures
        r@ == prose_body(tv@),
        r@.len() <= tv@.len(),
{
    let d = vec!['-', '-', '-'];
    assert(d@ =~= dashes3());
    if !crate::text::starts_with_chars(tv, &d) {
        return crate::text::slice_chars(tv, 0, tv.len());
    }
    let rest = crate::text::slice_chars(tv, 3, tv.len());
    assert(tv@.skip(3) =~= rest@);
    let close = vec!['\n', '-', '-', '-'];
    assert(close@ =~= crate::corpus::fm_close());
    match crate::text::find_chars(&rest, &close) {
        Some(end) => {
            assert(crate::text::occurs_at(rest@, close@, end as int));
            assert(end + 4 <= rest.len());
            let tail = crate::text::slice_chars(&rest, end + 4, rest.len());
            assert(rest@.skip(end + 4) =~= tail@);
            proof {
                lemma_strip_leading_newlines_len(tail@);
            }
            crate::text::strip_leading_newlines_chars(&tail)
        },
        None => crate::text::slice_chars(tv, 0, tv.len()),
    }
}

pub open spec fn para_views(v: Seq<(usize, Vec<char>)>) -> Seq<(nat, Seq<char>)> {
    Seq::new(v.len(), |i: int| (v[i].0 as nat, v[i].1@))
}

struct ProseExec {
    paras: Vec<(usize, Vec<char>)>,
    buf: Vec<char>,
    start: usize,
    fence: bool,
}

impl ProseExec {
    spec fn state(&self) -> ProseState {
        (para_views(self.paras@), self.buf@, self.start as nat, self.fence)
    }

    fn flush(&mut self)
        ensures
            final(self).state() == flush(old(self).state()),
    {
        if self.buf.len() > 0 {
            let b = crate::text::slice_chars(&self.buf, 0, self.buf.len());
            assert(self.buf@.subrange(0, self.buf@.len() as int) =~= self.buf@);
            let ghost prev = self.paras@;
            self.paras.push((self.start, b));
            assert(para_views(self.paras@) =~= para_views(prev).push((self.start as nat, b@)));
            self.buf = Vec::new();
            assert(self.buf@ =~= seq![]);
        }
    }

    fn step(&mut self, line_no: usize, raw: &Vec<char>)
        ensures
            final(self).state() == prose_step(old(self).state(), line_no as nat, raw@),
    {
        let ghost old_st = self.state();
        let line = crate::text::trim_chars(raw);
        let f = vec!['`', '`', '`'];
        assert(f@ =~= fence());
        let d = vec!['-', '-', '-'];
        assert(d@ =~= dashes3());
        if crate::text::starts_with_chars(&line, &f) {
            let was = self.fence;
            self.flush();
            self.fence = !was;
            assert(self.state() == prose_step(old_st, line_no as nat, raw@));
        } else if self.fence {
            assert(self.state() == prose_step(old_st, line_no as nat, raw@));
        } else if line.len() == 0 || line[0] == '#' || line[0] == '|'
            || crate::text::starts_with_chars(&line, &d) {
            self.flush();
            assert(self.state() == prose_step(old_st, line_no as nat, raw@));
        } else {
            let bl = prose_text_chars(&line);
            if bl.len() == 0 {
                self.flush();
                assert(self.state() == prose_step(old_st, line_no as nat, raw@));
            } else if self.buf.len() == 0 {
                self.buf = bl;
                self.start = line_no;
                assert(self.state() == prose_step(old_st, line_no as nat, raw@));
            } else {
                self.buf.push(' ');
                let ghost mid = self.buf@;
                let ghost paras0 = self.paras@;
                let ghost start0 = self.start;
                let ghost fence0 = self.fence;
                let mut k: usize = 0;
                while k < bl.len()
                    invariant
                        k <= bl.len(),
                        self.buf@ == mid + bl@.take(k as int),
                        self.paras@ == paras0,
                        self.start == start0,
                        self.fence == fence0,
                    decreases bl.len() - k,
                {
                    self.buf.push(bl[k]);
                    assert(self.buf@ =~= mid + bl@.take(k + 1));
                    k += 1;
                }
                assert(bl@.take(bl.len() as int) =~= bl@);
                assert(self.state() == prose_step(old_st, line_no as nat, raw@));
            }
        }
    }
}

/// Prose paragraphs of a markdown text with their 1-based start lines,
/// skipping front matter, headings, tables, rules and fenced code.
pub fn prose_paragraphs(text: &str) -> (r: Vec<(usize, String)>)
    ensures
        r@.len() == prose_paragraphs_of(text@).len(),
        forall|i: int|
            0 <= i < r@.len() ==> (#[trigger] r@[i]).0 as nat == prose_paragraphs_of(text@)[i].0
                && r@[i].1@ == prose_paragraphs_of(text@)[i].1,
{
    let tv = chars_of_text(text);
    let body = prose_body_chars(&tv);
    let prefix = crate::text::slice_chars(&tv, 0, tv.len() - body.len());
    assert(tv@.take(tv@.len() - body@.len()) =~= prefix@);
    let offset = crate::text::lines_of(&prefix).len();
    let ls = crate::text::lines_of(&body);
    proof {
        crate::text::lemma_lines_from_len(prefix@, 0);
        crate::text::lemma_lines_from_len(body@, 0);
    }
    let mut st = ProseExec { paras: Vec::new(), buf: Vec::new(), start: 0, fence: false };
    assert(st.state() =~= (Seq::<(nat, Seq<char>)>::empty(), Seq::<char>::empty(), 0nat, false));
    let mut k: usize = 0;
    while k < ls.len()
        invariant
            k <= ls.len(),
            crate::text::views(ls@) == crate::text::lines(body@),
            offset + ls.len() <= tv.len(),
            st.state() == prose_fold(crate::text::lines(body@), offset as nat, k as int),
        decreases ls.len() - k,
    {
        st.step(offset + k + 1, &ls[k]);
        assert(crate::text::views(ls@)[k as int] == ls@[k as int]@);
        k += 1;
    }
    st.flush();
    let mut out: Vec<(usize, String)> = Vec::new();
    let mut j: usize = 0;
    while j < st.paras.len()
        invariant
            j <= st.paras.len(),
            out@.len() == j,
            forall|i: int|
                0 <= i < j ==> (#[trigger] out@[i]).0 as nat == para_views(st.paras@)[i].0
                    && out@[i].1@ == para_views(st.paras@)[i].1,
        decreases st.paras.len() - j,
    {
        let p = &st.paras[j];
        out.push((p.0, string_of_chars(&p.1)));
        j += 1;
    }
    out
}

fn chars_of_text(text: &str) -> (r: Vec<char>)
    ensures
        r@ == text@,
{
    crate::text::chars_of(text)
}

fn string_of_chars(v: &Vec<char>) -> (r: String)
    ensures
        r@ == v@,
{
    crate::text::string_of(v)
}

} // verus!

verus! {

pub type FindingView = (Seq<char>, Seq<char>, Seq<char>, Seq<char>, Option<u32>);

/// `serde_json::Value::get` with a fallback key: the value under `k1` in an
/// object, else the one under `k2`.
pub open spec fn lookup_either(a: JsonModel, k1: Seq<char>, k2: Seq<char>) -> Option<JsonModel> {
    match a {
        JsonModel::Object(m) => match get(m, k1) {
            Some(v) => Some(v),
            None => get(m, k2),
        },
        _ => None,
    }
}

pub open spec fn str_or(v: Option<JsonModel>, dflt: Seq<char>) -> Seq<char> {
    match v {
        Some(JsonModel::Str(s)) => s,
        _ => dflt,
    }
}

pub open spec fn all_digits(t: Seq<char>) -> bool {
    t.len() > 0 && forall|i: int| 0 <= i < t.len() ==> '0' <= #[trigger] t[i] && t[i] <= '9'
}

/// The value of a decimal digit string.
pub open spec fn digits_value(t: Seq<char>) -> nat
    decreases t.len(),
{
    if t.len() == 0 {
        0
    } else {
        digits_value(t.drop_last()) * 10 + ((t.last() as u32) - ('0' as u32)) as nat
    }
}

/// `serde_json::Value::as_u64`: a number written as a plain digit string
/// that fits in 64 bits.
pub open spec fn json_u64(v: JsonModel) -> Option<nat> {
    match v {
        JsonModel::Number(t) => if all_digits(t) && digits_value(t) <= u64::MAX {
            Some(digits_value(t))
        } else {
            None
        },
        _ => None,
    }
}

/// The line of a Vale alert, cut to 32 bits as `as u32` does.
pub open spec fn alert_line(a: JsonModel) -> Option<u32> {
    match lookup_either(a, "Line"@, "line"@) {
        Some(v) => match json_u64(v) {
            Some(n) => Some((n % 0x1_0000_0000) as u32),
            None => None,
        },
        None => None,
    }
}

/// The finding for one Vale alert on `path`.
pub open spec fn alert_finding(path: Seq<char>, a: JsonModel) -> FindingView {
    (
        "vale"@,
        path,
        str_or(lookup_either(a, "Message"@, "message"@), "vale alert"@),
        str_or(lookup_either(a, "Severity"@, "severity"@), "suggestion"@),
        alert_line(a),
    )
}

/// The findings of Vale's JSON output: per file, the alerts of its array.
pub open spec fn vale_alerts(m: Seq<(Seq<char>, JsonModel)>) -> Seq<FindingView>
    decreases m.len(),
{
    if m.len() == 0 {
        seq![]
    } else {
        vale_alerts(m.drop_last()) + match m.last().1 {
            JsonModel::Array(items) => items.map_values(|a: JsonModel| alert_finding(m.last().0, a)),
            _ => seq![],
        }
    }
}

pub open spec fn first_path(paths: Seq<Seq<char>>) -> Seq<char> {
    if paths.len() == 0 {
        seq![]
    } else {
        paths[0]
    }
}

/// One finding per non-blank line among `ls`, with the line kept as it is.
pub open spec fn plain_line_findings(engine: Seq<char>, path: Seq<char>, ls: Seq<Seq<char>>, severity: Seq<char>) -> Seq<FindingView>
    decreases ls.len(),
{
    if ls.len() == 0 {
        seq![]
    } else {
        plain_line_findings(engine, path, ls.drop_last(), severity) + if trim(ls.last()).len() == 0 {
            seq![]
        } else {
            seq![(engine, path, ls.last(), severity, None::<u32>)]
        }
    }
}

/// The findings of a Vale run. Output that parsed as a JSON object gives its
/// alerts; otherwise a failed run with output gives one `info` finding per
/// non-blank line of the first 50 lines of stdout followed by stderr.
pub open spec fn vale_output_findings(
    parsed: Option<Seq<(Seq<char>, JsonModel)>>,
    stdout: Seq<char>,
    stderr: Seq<char>,
    success: bool,
    paths: Seq<Seq<char>>,
) -> Seq<FindingView> {
    match parsed {
        Some(m) => vale_alerts(m),
        None => {
            let combined = stdout + stderr;
            if trim(combined).len() > 0 && !success {
                let ls = lines(combined);
                plain_line_findings(
                    "vale"@,
                    first_path(paths),
                    ls.take(if ls.len() < 50 { ls.len() as int } else { 50 }),
                    "info"@,
                )
            } else {
                seq![]
            }
        },
    }
}

/// One finding per non-blank line among `ls`, with the line trimmed.
pub open spec fn trimmed_line_findings(engine: Seq<char>, path: Seq<char>, ls: Seq<Seq<char>>) -> Seq<FindingView>
    decreases ls.len(),
{
    if ls.len() == 0 {
        seq![]
    } else {
        trimmed_line_findings(engine, path, ls.drop_last()) + if trim(ls.last()).len() == 0 {
            seq![]
        } else {
            seq![(engine, path, trim(ls.last()), "suggestion"@, None::<u32>)]
        }
    }
}

/// The findings of a Vale run from what it printed: its standard output
/// read as a JSON object when it is one, else its raw text, and whether it
/// exited successfully.
pub fn vale_output(stdout: &str, stderr: &str, success: bool, paths: &[String]) -> (r: Vec<LintFinding>)
    ensures
        lint_views(r@) == vale_output_findings(json_object_of(stdout@), stdout@, stderr@, success, string_views(paths@)),
{
    let parsed = parse_json_object(stdout);
    vale_findings(&parsed, stdout, stderr, success, paths)
}

/// The findings of a Harper CLI run of `bin`: when it failed or mentions an
/// error, one `suggestion` per non-blank trimmed line of the first 100 lines
/// of stdout followed by stderr.
pub open spec fn harper_output_findings(
    bin: Seq<char>,
    stdout: Seq<char>,
    stderr: Seq<char>,
    success: bool,
    paths: Seq<Seq<char>>,
) -> Seq<FindingView> {
    let combined = stdout + stderr;
    if !success || contains(lowercase(combined), "error"@) {
        let ls = lines(combined);
        trimmed_line_findings(
            bin,
            first_path(paths),
            ls.take(if ls.len() < 100 { ls.len() as int } else { 100 }),
        )
    } else {
        seq![]
    }
}

/// Whether a probe run of `name` shows the binary is there: it succeeded,
/// printed something, or mentions its own name in its error output.
pub open spec fn answered(name: Seq<char>, success: bool, stdout_empty: bool, stderr: Seq<char>) -> bool {
    success || !stdout_empty || contains(lowercase(stderr), name)
}

pub fn probe_answered(name: &str, success: bool, stdout_empty: bool, stderr: &str) -> (r: bool)
    ensures
        r == answered(name@, success, stdout_empty, stderr@),
{
    success || !stdout_empty || contains_chars(&to_lowercase(&chars_of(stderr)), &chars_of(name))
}

fn digits_u64(t: &Vec<char>) -> (r: Option<u64>)
    ensures
        match r {
            Some(n) => all_digits(t@) && digits_value(t@) == n,
            None => !(all_digits(t@) && digits_value(t@) <= u64::MAX),
        },
{
    if t.len() == 0 {
        return None;
    }
    let mut acc: u64 = 0;
    let mut k: usize = 0;
    while k < t.len()
        invariant
            k <= t.len(),
            t@.len() > 0,
            forall|i: int| 0 <= i < k ==> '0' <= #[trigger] t@[i] && t@[i] <= '9',
            acc == digits_value(t@.take(k as int)),
        decreases t.len() - k,
    {
        let c = t[k];
        assert(t@.take(k + 1).drop_last() =~= t@.take(k as int));
        if !('0' <= c && c <= '9') {
            assert(!all_digits(t@));
            return None;
        }
        let d = (c as u32 - '0' as u32) as u64;
        if acc > (u64::MAX - d) / 10 {
            proof {
                assert(acc * 10 + d > u64::MAX) by (nonlinear_arith)
                    requires
                        acc > (u64::MAX - d) / 10,
                        d <= 9,
                ;
                assert(t@.take(k + 1).last() == c);
                if all_digits(t@) {
                    lemma_digits_mono(t@, k + 1);
                }
            }
            return None;
        }
        assert(acc * 10 + d <= u64::MAX) by (nonlinear_arith)
            requires
                acc <= (u64::MAX - d) / 10,
                d <= 9,
        ;
        acc = acc * 10 + d;
        k += 1;
    }
    assert(t@.take(t.len() as int) =~= t@);
    Some(acc)
}

/// A longer digit string is worth at least as much as its prefix.
proof fn lemma_digits_mono(t: Seq<char>, k: int)
    requires
        0 <= k <= t.len(),
        forall|i: int| 0 <= i < t.len() ==> '0' <= #[trigger] t[i] && t[i] <= '9',
    ensures
        digits_value(t.take(k)) <= digits_value(t),
    decreases t.len() - k,
{
    assert(t.take(t.len() as int) =~= t);
    if k < t.len() {
        let u = t.drop_last();
        assert forall|i: int| 0 <= i < u.len() implies '0' <= #[trigger] u[i] && u[i] <= '9' by {
            assert(u[i] == t[i]);
        }
        if k < t.len() {
            assert(u.take(k) =~= t.take(k));
            lemma_digits_mono(u, k);
        }
    }
}

} // verus!

verus! {

fn lookup_either_exec<'a>(a: &'a JsonValue, k1: &str, k2: &str) -> (r: Option<&'a JsonValue>)
    ensures
        match r {
            Some(v) => lookup_either(a.model(), k1@, k2@) == Some(v.model()),
            None => lookup_either(a.model(), k1@, k2@) is None,
        },
{
    match a {
        JsonValue::Object(m) => {
            proof {
                crate::json::lemma_entries_model(m@);
                crate::json::lemma_key_index_from(crate::json::entries_model(m@), k1@, 0);
                crate::json::lemma_key_index_from(crate::json::entries_model(m@), k2@, 0);
            }
            match crate::json::key_index_exec(m, k1) {
                Some(i) => Some(&m[i].1),
                None => match crate::json::key_index_exec(m, k2) {
                    Some(i) => Some(&m[i].1),
                    None => None,
                },
            }
        },
        _ => None,
    }
}

fn str_or_exec(v: Option<&JsonValue>, dflt: &str) -> (r: String)
    ensures
        r@ == str_or(
            match v {
                Some(x) => Some(x.model()),
                None => None,
            },
            dflt@,
        ),
{
    match v {
        Some(JsonValue::Str(s)) => s.clone(),
        _ => String::from_str(dflt),
    }
}

fn alert_finding_exec(path: &String, a: &JsonValue) -> (r: LintFinding)
    ensures
        r@ == alert_finding(path@, a.model()),
{
    let message = str_or_exec(lookup_either_exec(a, "Message", "message"), "vale alert");
    let severity = str_or_exec(lookup_either_exec(a, "Severity", "severity"), "suggestion");
    let line: Option<u32> = match lookup_either_exec(a, "Line", "line") {
        Some(JsonValue::Number(t)) => match digits_u64(&chars_of(t.as_str())) {
            Some(n) => Some((n % 0x1_0000_0000) as u32),
            None => None,
        },
        _ => None,
    };
    LintFinding { engine: String::from_str("vale"), path: path.clone(), message, severity, line }
}

fn first_path_exec(paths: &[String]) -> (r: String)
    ensures
        r@ == first_path(string_views(paths@)),
{
    if paths.len() == 0 {
        String::new()
    } else {
        paths[0].clone()
    }
}

fn push_view(out: &mut Vec<LintFinding>, f: LintFinding)
    ensures
        lint_views(final(out)@) == lint_views(old(out)@).push(f@),
{
    out.push(f);
    assert(lint_views(out@) =~= lint_views(old(out)@).push(f@));
}

/// One finding per non-blank line of `ls`, the line kept or trimmed.
fn line_findings(engine: &str, path: &String, ls: &Vec<Vec<char>>, n: usize, severity: &str, trimmed: bool) -> (r: Vec<LintFinding>)
    requires
        n <= ls.len(),
    ensures
        lint_views(r@) == if trimmed {
            trimmed_line_findings(engine@, path@, crate::text::views(ls@).take(n as int))
        } else {
            plain_line_findings(engine@, path@, crate::text::views(ls@).take(n as int), severity@)
        },
{
    let mut out: Vec<LintFinding> = Vec::new();
    let ghost vs = crate::text::views(ls@);
    let mut k: usize = 0;
    while k < n
        invariant
            k <= n <= ls.len(),
            vs == crate::text::views(ls@),
            lint_views(out@) == if trimmed {
                trimmed_line_findings(engine@, path@, vs.take(k as int))
            } else {
                plain_line_findings(engine@, path@, vs.take(k as int), severity@)
            },
        decreases n - k,
    {
        assert(vs.take(k + 1).drop_last() =~= vs.take(k as int));
        assert(vs.take(k + 1).last() == ls@[k as int]@);
        let t = crate::text::trim_chars(&ls[k]);
        if t.len() > 0 {
            let message = if trimmed {
                crate::text::string_of(&t)
            } else {
                crate::text::string_of(&ls[k])
            };
            let sev = if trimmed {
                String::from_str("suggestion")
            } else {
                String::from_str(severity)
            };
            push_view(
                &mut out,
                LintFinding {
                    engine: String::from_str(engine),
                    path: path.clone(),
                    message,
                    severity: sev,
                    line: None,
                },
            );
        }
        k += 1;
    }
    out
}


/// The findings of a Vale run, from its output: the JSON object it printed
/// when that parsed, else its raw text, and whether it exited successfully.
pub fn vale_findings(
    parsed: &Option<Vec<(String, JsonValue)>>,
    stdout: &str,
    stderr: &str,
    success: bool,
    paths: &[String],
) -> (r: Vec<LintFinding>)
    ensures
        lint_views(r@) == vale_output_findings(parsed_model(*parsed), stdout@, stderr@, success, string_views(paths@)),
{
    match parsed {
        Some(m) => {
            proof {
                crate::json::lemma_entries_model(m@);
            }
            let ghost em = crate::json::entries_model(m@);
            let mut out: Vec<LintFinding> = Vec::new();
            let mut k: usize = 0;
            while k < m.len()
                invariant
                    k <= m.len(),
                    em == crate::json::entries_model(m@),
                    em.len() == m@.len(),
                    forall|j: int| 0 <= j < m@.len() ==> #[trigger] em[j] == (m@[j].0@, m@[j].1.model()),
                    lint_views(out@) == vale_alerts(em.take(k as int)),
                decreases m.len() - k,
            {
                assert(em.take(k + 1).drop_last() =~= em.take(k as int));
                assert(em.take(k + 1).last() == em[k as int]);
                let ghost base = lint_views(out@);
                let path = &m[k].0;
                match &m[k].1 {
                    JsonValue::Array(items) => {
                        proof {
                            crate::json::lemma_items_model(items@);
                        }
                        let ghost im = crate::json::items_model(items@);
                        let mut j: usize = 0;
                        while j < items.len()
                            invariant
                                j <= items.len(),
                                im == crate::json::items_model(items@),
                                im.len() == items@.len(),
                                forall|i: int| 0 <= i < items@.len() ==> #[trigger] im[i] == items@[i].model(),
                                lint_views(out@) == base + im.take(j as int).map_values(
                                    |a: JsonModel| alert_finding(path@, a),
                                ),
                            decreases items.len() - j,
                        {
                            let f = alert_finding_exec(path, &items[j]);
                            push_view(&mut out, f);
                            assert(im.take(j + 1).map_values(|a: JsonModel| alert_finding(path@, a))
                                =~= im.take(j as int).map_values(|a: JsonModel| alert_finding(path@, a)).push(
                                alert_finding(path@, im[j as int]),
                            ));
                            j += 1;
                        }
                        assert(im.take(items.len() as int) =~= im);
                    },
                    _ => {},
                }
                k += 1;
            }
            assert(em.take(m.len() as int) =~= em);
            out
        },
        None => {
            let mut combined = chars_of(stdout);
            let mut tail = chars_of(stderr);
            combined.append(&mut tail);
            if crate::text::trim_chars(&combined).len() > 0 && !success {
                let ls = crate::text::lines_of(&combined);
                let n = if ls.len() < 50 {
                    ls.len()
                } else {
                    50
                };
                let p = first_path_exec(paths);
                line_findings("vale", &p, &ls, n, "info", false)
            } else {
                Vec::new()
            }
        },
    }
}

/// The findings of a Harper CLI run of `bin`, from its output and whether it
/// exited successfully.
pub fn harper_cli_findings(bin: &str, stdout: &str, stderr: &str, success: bool, paths: &[String]) -> (r: Vec<LintFinding>)
    ensures
        lint_views(r@) == harper_output_findings(bin@, stdout@, stderr@, success, string_views(paths@)),
{
    let mut combined = chars_of(stdout);
    let mut tail = chars_of(stderr);
    combined.append(&mut tail);
    let err = vec!['e', 'r', 'r', 'o', 'r'];
    proof {
        reveal_strlit("error");
    }
    assert(err@ =~= "error"@);
    if !success || contains_chars(&to_lowercase(&combined), &err) {
        let ls = crate::text::lines_of(&combined);
        let n = if ls.len() < 100 {
            ls.len()
        } else {
            100
        };
        let p = first_path_exec(paths);
        line_findings(bin, &p, &ls, n, "suggestion", true)
    } else {
        Vec::new()
    }
}

} // verus!

verus! {

/// What every lint run keeps: each missing-tool entry is the explicit Vale
/// message, and when Harper is asked for, the in-process engine has run
/// once the Vale part is over.
pub open spec fn run_sound(want_harper: bool, r: LintReportView, next: LintAction) -> bool {
    &&& forall|i: int| 0 <= i < r.2.len() ==> #[trigger] r.2[i] == vale_missing_text()
    &&& want_harper ==> (next is ProbeVale || next is RunVale || next is RunHarperCore
        || r.1.contains("harper-core"@))
}

/// A run starts sound.
pub proof fn law_lint_start_sound(engine: LintEngine)
    ensures
        run_sound(
            wants_harper(engine),
            (
                Seq::<FindingView>::empty(),
                Seq::<Seq<char>>::empty(),
                Seq::<Seq<char>>::empty(),
            ),
            first_action(wants_vale(engine), wants_harper(engine)),
        ),
{
}

/// Every step keeps a run sound.
pub proof fn law_lint_step_sound(want_harper: bool, r: LintReportView, next: LintAction, event: LintEvent)
    requires
        run_sound(want_harper, r, next),
    ensures
        run_sound(
            want_harper,
            lint_step(want_harper, r, next, event).0,
            lint_step(want_harper, r, next, event).1,
        ),
{
    let (r2, n2) = lint_step(want_harper, r, next, event);
    assert forall|i: int| 0 <= i < r2.2.len() implies #[trigger] r2.2[i] == vale_missing_text() by {
        if i < r.2.len() {
            assert(r2.2[i] == r.2[i]);
        }
    }
    if want_harper && r.1.contains("harper-core"@) {
        let k = choose|k: int| 0 <= k < r.1.len() && r.1[k] == "harper-core"@;
        assert(r2.1[k] == "harper-core"@);
    }
    if want_harper && next is RunHarperCore {
        match event {
            LintEvent::HarperCoreRan(res) => {
                assert(r2.1[r2.1.len() - 1] == "harper-core"@);
            },
            _ => {},
        }
    }
}

/// A finished sound run with Harper asked for has run the in-process engine.
pub proof fn law_lint_finish_ran_harper(r: LintReportView)
    requires
        run_sound(true, r, LintAction::Finish),
    ensures
        r.1.contains("harper-core"@),
{
}

} // verus!
