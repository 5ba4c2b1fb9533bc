//! State of the interactive corpus browser.
//!
//! The browser is a state machine: a key press changes the state and may ask
//! for outside work (reloading files, rebuilding the index, converting,
//! linting, searching, probing tools). The terminal loop performs that work
//! and hands its outcome back to one of the `finish_*` methods.

use vstd::prelude::*;
use vstd::string::StringExecFns;
use crate::check::{
    check_doc, check_responses, format_check_report, report_findings, report_text, summary_text,
    FindingView,
};
use crate::config::DEFAULT_PREFIX;
use crate::corpus::{string_views, CannedResponse};
use crate::lint::{debug_list, debug_list_exec, debug_quote, debug_str};
use crate::text::{
    chars_of, contains, contains_chars, decimal, lowercase, push_chars, push_decimal, to_lowercase,
    trim, trim_chars, utf8_boundary, utf8_cut, utf8_cut_chars, utf8_len,
};

verus! {

/// Which pane or modal has the keyboard.
#[derive(Debug, Clone, Copy, PartialEq, Eq, Structural)]
pub enum Focus {
    List,
    Filter,
    Help,
}

/// One row of the browser list (the filtered view over the corpus).
#[derive(Debug, Clone)]
pub struct ListEntry {
    pub id: String,
    pub title: String,
    pub path: String,
    pub check_ok: bool,
    pub finding_count: usize,
}

/// A row as id, title, path, whether it checks clean, and its finding count.
pub type EntryView = (Seq<char>, Seq<char>, Seq<char>, bool, nat);

impl View for ListEntry {
    type V = EntryView;

    open spec fn view(&self) -> EntryView {
        (self.id@, self.title@, self.path@, self.check_ok, self.finding_count as nat)
    }
}

pub open spec fn entry_views(v: Seq<ListEntry>) -> Seq<EntryView> {
    Seq::new(v.len(), |i: int| v[i]@)
}

/// A key press as the browser reads it.
#[derive(Debug, Clone, Copy, PartialEq, Eq, Structural)]
pub enum Key {
    Char(char),
    Enter,
    Esc,
    Backspace,
    Up,
    Down,
    PageUp,
    PageDown,
    Other,
}

/// Outside work a key press asks for.
#[derive(Debug, Clone, PartialEq, Eq)]
pub enum TuiAction {
    /// Nothing to do outside.
    Nothing,
    /// Read the corpus from disk again.
    Reload,
    /// Rebuild the search index from the corpus.
    Reindex,
    /// Convert the response with this id at this path to Jira wiki markup.
    Convert { id: String, path: String },
    /// Lint these paths.
    Lint(Vec<String>),
    /// Search the index for this query.
    Search(String),
    /// Take a snapshot of the tooling report.
    Doctor,
}

/// [`TuiAction`] as plain values.
pub enum Work {
    Nothing,
    Reload,
    Reindex,
    Convert(Seq<char>, Seq<char>),
    Lint(Seq<Seq<char>>),
    Search(Seq<char>),
    Doctor,
}

impl View for TuiAction {
    type V = Work;

    open spec fn view(&self) -> Work {
        match self {
            TuiAction::Nothing => Work::Nothing,
            TuiAction::Reload => Work::Reload,
            TuiAction::Reindex => Work::Reindex,
            TuiAction::Convert { id, path } => Work::Convert(id@, path@),
            TuiAction::Lint(ps) => Work::Lint(string_views(ps@)),
            TuiAction::Search(q) => Work::Search(q@),
            TuiAction::Doctor => Work::Doctor,
        }
    }
}

/// The browser state.
pub struct App {
    /// Corpus directory shown in the texts.
    pub corpus: String,
    /// Every response of the corpus, in load order.
    pub responses: Vec<CannedResponse>,
    /// The rows that match the filter.
    pub entries: Vec<ListEntry>,
    /// The highlighted row.
    pub selected: Option<usize>,
    pub filter: String,
    pub focus: Focus,
    pub status: String,
    pub preview: String,
    pub side_panel: String,
    pub should_quit: bool,
    /// Vertical scroll of the preview pane.
    pub scroll: u16,
    /// The highlighted body cannot be cut at the preview limit, which falls
    /// inside one of its characters: the browser cannot go on.
    pub cut_fault: bool,
}

/// [`App`] as plain values.
pub struct AppView {
    pub corpus: Seq<char>,
    pub responses: Seq<CannedResponse>,
    pub entries: Seq<EntryView>,
    pub selected: Option<nat>,
    pub filter: Seq<char>,
    pub focus: Focus,
    pub status: Seq<char>,
    pub preview: Seq<char>,
    pub side_panel: Seq<char>,
    pub should_quit: bool,
    pub scroll: u16,
    pub cut_fault: bool,
}

impl View for App {
    type V = AppView;

    open spec fn view(&self) -> AppView {
        AppView {
            corpus: self.corpus@,
            responses: self.responses@,
            entries: entry_views(self.entries@),
            selected: match self.selected {
                Some(i) => Some(i as nat),
                None => None,
            },
            filter: self.filter@,
            focus: self.focus,
            status: self.status@,
            preview: self.preview@,
            side_panel: self.side_panel@,
            should_quit: self.should_quit,
            scroll: self.scroll,
            cut_fault: self.cut_fault,
        }
    }
}

/// Bytes of a response body that the preview shows at most.
pub open spec fn preview_limit() -> nat {
    12000
}

/// The state is consistent: the highlighted row exists.
pub open spec fn app_wf(v: AppView) -> bool {
    v.selected matches Some(i) ==> i < v.entries.len()
}

/// The findings of the quality check of one response on its own.
pub open spec fn doc_report(r: CannedResponse) -> Seq<FindingView> {
    report_findings(seq![r], DEFAULT_PREFIX@)
}

pub open spec fn entry_of(r: CannedResponse) -> EntryView {
    (r.id@, r.title@, r.path@, doc_report(r).len() == 0, doc_report(r).len())
}

pub open spec fn tag_matches(tags: Seq<Seq<char>>, q: Seq<char>) -> bool {
    exists|i: int| 0 <= i < tags.len() && contains(lowercase(tags[i]), q)
}

/// A response matches the lowercased filter `q` when `q` is empty or occurs
/// in its lowercased id, title, content or one of its tags.
pub open spec fn response_matches(r: CannedResponse, q: Seq<char>) -> bool {
    ||| q.len() == 0
    ||| contains(lowercase(r.id@), q)
    ||| contains(lowercase(r.title@), q)
    ||| contains(lowercase(r.content@), q)
    ||| tag_matches(string_views(r.tags@), q)
}

/// The rows for the responses that match `q`, in corpus order.
pub open spec fn entries_for(rs: Seq<CannedResponse>, q: Seq<char>) -> Seq<EntryView>
    decreases rs.len(),
{
    if rs.len() == 0 {
        seq![]
    } else {
        let rest = entries_for(rs.drop_last(), q);
        if response_matches(rs.last(), q) {
            rest.push(entry_of(rs.last()))
        } else {
            rest
        }
    }
}

/// The first row at or after `i` with this id.
pub open spec fn entry_position(es: Seq<EntryView>, id: Seq<char>, i: int) -> Option<nat>
    decreases es.len() - i,
{
    if i < 0 || i >= es.len() {
        None
    } else if es[i].0 == id {
        Some(i as nat)
    } else {
        entry_position(es, id, i + 1)
    }
}

/// The row to highlight after the rows changed: the row of the previously
/// highlighted id, else the first row, else none.
pub open spec fn reselect(prev: Option<Seq<char>>, es: Seq<EntryView>) -> Option<nat> {
    let found = match prev {
        Some(id) => entry_position(es, id, 0),
        None => None,
    };
    match found {
        Some(i) => Some(i),
        None => if es.len() == 0 {
            None
        } else {
            Some(0)
        },
    }
}

pub open spec fn selected_entry(v: AppView) -> Option<EntryView> {
    match v.selected {
        Some(i) => if i < v.entries.len() {
            Some(v.entries[i as int])
        } else {
            None
        },
        None => None,
    }
}

/// The first response at or after `i` with this id.
pub open spec fn response_position(rs: Seq<CannedResponse>, id: Seq<char>, i: int) -> Option<nat>
    decreases rs.len() - i,
{
    if i < 0 || i >= rs.len() {
        None
    } else if rs[i].id@ == id {
        Some(i as nat)
    } else {
        response_position(rs, id, i + 1)
    }
}

/// The response behind the highlighted row.
pub open spec fn selected_response(v: AppView) -> Option<CannedResponse> {
    match selected_entry(v) {
        Some(e) => match response_position(v.responses, e.0, 0) {
            Some(j) => Some(v.responses[j as int]),
            None => None,
        },
        None => None,
    }
}

/// The quality gate line(s) of a response's preview.
pub open spec fn gate_text(fs: Seq<FindingView>) -> Seq<char> {
    if fs.len() == 0 {
        "check: OK"@
    } else {
        "check: "@ + decimal(fs.len()) + " finding(s)\n"@ + report_text(1, fs)
    }
}

/// The body as the preview shows it: cut at the limit, with a marker.
pub open spec fn shown_body(body: Seq<char>) -> Seq<char> {
    if utf8_len(body) > preview_limit() {
        body.take(utf8_cut(body, preview_limit()) as int) + "\n… (truncated)"@
    } else {
        body
    }
}

pub open spec fn sop_shown(sop: Option<String>) -> Seq<char> {
    match sop {
        Some(s) => s@,
        None => "-"@,
    }
}

/// The preview of one response: its fields, its quality gate and its body.
pub open spec fn response_preview(r: CannedResponse) -> Seq<char> {
    "id: "@ + r.id@ + "\ntitle: "@ + r.title@ + "\npath: "@ + r.path@ + "\nsop: "@ + sop_shown(
        r.sop,
    ) + "\ntags: "@ + debug_list(string_views(r.tags@)) + "\n\n── quality ──\n"@ + gate_text(
        doc_report(r),
    ) + "\n\n── markdown ──\n"@ + shown_body(r.body@)
}

pub open spec fn empty_corpus_text(corpus: Seq<char>) -> Seq<char> {
    "No responses in "@ + corpus
        + ".\n\nScaffold one:\n  canonic new \"Topic title\"\n\nOr import drafts:\n  canonic import-jira \"project = HSP AND labels = canned-response\"\n  canonic promote corpus/imports/…md"@
}

pub open spec fn no_match_text() -> Seq<char> {
    "No rows match the current filter."@
}

/// What the preview pane shows for the highlighted row.
pub open spec fn preview_of(v: AppView) -> Seq<char> {
    match selected_response(v) {
        Some(r) => response_preview(r),
        None => if v.responses.len() == 0 {
            empty_corpus_text(v.corpus)
        } else {
            no_match_text()
        },
    }
}

/// The highlighted body cannot be cut at the preview limit: the limit falls
/// inside one of its characters.
pub open spec fn cut_fails(v: AppView) -> bool {
    match selected_response(v) {
        Some(r) => !utf8_boundary(r.body@, preview_limit()),
        None => false,
    }
}

/// The state with the preview brought up to date, and whether the
/// highlighted body could be cut for it.
pub open spec fn previewed(v: AppView) -> AppView {
    AppView { preview: preview_of(v), cut_fault: cut_fails(v), ..v }
}

/// The state with the rows rebuilt from the filter, the highlight kept on
/// the same id where possible, and the preview brought up to date.
pub open spec fn rebuilt(v: AppView) -> AppView {
    let es = entries_for(v.responses, lowercase(v.filter));
    let prev = match selected_entry(v) {
        Some(e) => Some(e.0),
        None => None,
    };
    previewed(AppView { entries: es, selected: reselect(prev, es), ..v })
}

/// The state after the quality check of the whole corpus: rows rebuilt, the
/// summary as status, and the report in the preview.
pub open spec fn checked_all(v: AppView) -> AppView {
    let fs = report_findings(v.responses, DEFAULT_PREFIX@);
    let w = rebuilt(with_status(v, summary_text(v.responses.len(), fs.len())));
    AppView { preview: report_text(v.responses.len(), fs), ..w }
}

} // verus!

verus! {

fn lower_of(s: &String) -> (r: Vec<char>)
    ensures
        r@ == lowercase(s@),
{
    to_lowercase(&chars_of(s.as_str()))
}

fn matches_filter(r: &CannedResponse, q: &Vec<char>) -> (b: bool)
    ensures
        b == response_matches(*r, q@),
{
    if q.len() == 0 {
        return true;
    }
    if contains_chars(&lower_of(&r.id), q) {
        return true;
    }
    if contains_chars(&lower_of(&r.title), q) {
        return true;
    }
    if contains_chars(&lower_of(&r.content), q) {
        return true;
    }
    let ghost tags = string_views(r.tags@);
    let mut k: usize = 0;
    while k < r.tags.len()
        invariant
            k <= r.tags.len(),
            tags == string_views(r.tags@),
            forall|i: int| 0 <= i < k ==> !contains(lowercase(tags[i]), q@),
        decreases r.tags.len() - k,
    {
        if contains_chars(&lower_of(&r.tags[k]), q) {
            assert(contains(lowercase(tags[k as int]), q@));
            return true;
        }
        k += 1;
    }
    false
}

fn entry_for(r: &CannedResponse) -> (e: ListEntry)
    ensures
        e@ == entry_of(*r),
{
    let report = check_doc(r, DEFAULT_PREFIX);
    assert(crate::check::findings_view(report.findings@).len() == report.findings@.len());
    ListEntry {
        id: r.id.clone(),
        title: r.title.clone(),
        path: r.path.clone(),
        check_ok: report.ok(),
        finding_count: report.findings.len(),
    }
}

fn push_entry(v: &mut Vec<ListEntry>, e: ListEntry)
    ensures
        entry_views(final(v)@) == entry_views(old(v)@).push(e@),
{
    v.push(e);
    assert(entry_views(v@) =~= entry_views(old(v)@).push(e@));
}

fn append_str(s: &mut String, t: &str)
    ensures
        final(s)@ == old(s)@ + t@,
{
    s.append(t);
}

/// The preview text of one response.
fn response_preview_text(r: &CannedResponse) -> (s: String)
    ensures
        s@ == response_preview(*r),
{
    let mut s = String::from_str("id: ");
    append_str(&mut s, r.id.as_str());
    append_str(&mut s, "\ntitle: ");
    append_str(&mut s, r.title.as_str());
    append_str(&mut s, "\npath: ");
    append_str(&mut s, r.path.as_str());
    append_str(&mut s, "\nsop: ");
    match &r.sop {
        Some(x) => append_str(&mut s, x.as_str()),
        None => append_str(&mut s, "-"),
    }
    append_str(&mut s, "\ntags: ");
    let tags = debug_list_exec(&r.tags);
    append_str(&mut s, tags.as_str());
    append_str(&mut s, "\n\n── quality ──\n");
    let ghost head = s@;
    let report = check_doc(r, DEFAULT_PREFIX);
    if report.ok() {
        append_str(&mut s, "check: OK");
    } else {
        append_str(&mut s, "check: ");
        push_decimal(&mut s, report.findings.len());
        append_str(&mut s, " finding(s)\n");
        let text = format_check_report(&report);
        append_str(&mut s, text.as_str());
    }
    assert(crate::check::findings_view(report.findings@).len() == report.findings@.len());
    assert(s@ =~= head + gate_text(doc_report(*r)));
    append_str(&mut s, "\n\n── markdown ──\n");
    let ghost head2 = s@;
    let body = chars_of(r.body.as_str());
    let (cut, _bytes) = utf8_cut_chars(&body, 12000);
    if cut < body.len() {
        let part = crate::text::slice_chars(&body, 0, cut);
        push_chars(&mut s, &part);
        append_str(&mut s, "\n… (truncated)");
        assert(part@ =~= body@.take(cut as int));
    } else {
        append_str(&mut s, r.body.as_str());
    }
    assert(s@ =~= head2 + shown_body(r.body@));
    assert(s@ =~= response_preview(*r));
    s
}

pub proof fn lemma_entry_views_take(rs: Seq<CannedResponse>, q: Seq<char>, k: int)
    requires
        0 <= k < rs.len(),
    ensures
        entries_for(rs.take(k + 1), q) == if response_matches(rs[k], q) {
            entries_for(rs.take(k), q).push(entry_of(rs[k]))
        } else {
            entries_for(rs.take(k), q)
        },
{
    assert(rs.take(k + 1).drop_last() =~= rs.take(k));
    assert(rs.take(k + 1).last() == rs[k]);
}

impl App {
    /// The consistency the browser keeps.
    pub open spec fn wf(&self) -> bool {
        app_wf(self@)
    }

    /// Where the response behind the highlighted row stands in the corpus.
    fn selected_position(&self) -> (found: Option<usize>)
        ensures
            match found {
                Some(j) => j < self.responses.len() && selected_response(self@) == Some(
                    self.responses@[j as int],
                ),
                None => selected_response(self@) is None,
            },
    {
        let mut found: Option<usize> = None;
        match self.selected {
            Some(i) => {
                if i < self.entries.len() {
                    let id = &self.entries[i].id;
                    let ghost idv = id@;
                    let mut j: usize = 0;
                    while j < self.responses.len()
                        invariant_except_break
                            found is None,
                        invariant
                            j <= self.responses.len(),
                            idv == id@,
                            response_position(self.responses@, idv, 0) == response_position(
                                self.responses@,
                                idv,
                                j as int,
                            ),
                        ensures
                            found is None ==> response_position(self.responses@, idv, 0)
                                is None,
                            found matches Some(p) ==> response_position(self.responses@, idv, 0)
                                == Some(p as nat) && p < self.responses.len(),
                        decreases self.responses.len() - j,
                    {
                        if self.responses[j].id == *id {
                            found = Some(j);
                            break;
                        }
                        j += 1;
                    }
                }
            },
            None => {},
        }
        found
    }

    /// The response behind the highlighted row, when there is one.
    pub fn selected_response(&self) -> (r: Option<&CannedResponse>)
        ensures
            match r {
                Some(x) => selected_response(self@) == Some(*x),
                None => selected_response(self@) is None,
            },
    {
        match self.selected_position() {
            Some(j) => Some(&self.responses[j]),
            None => None,
        }
    }

    /// Bring the preview pane up to date with the highlighted row.
    pub fn update_preview(&mut self)
        requires
            old(self).wf(),
        ensures
            final(self)@ == previewed(old(self)@),
            final(self).wf(),
    {
        let found = self.selected_position();
        let ghost v = self@;
        match found {
            Some(j) => {
                assert(selected_response(v) == Some(v.responses[j as int]));
                self.preview = response_preview_text(&self.responses[j]);
                let body = chars_of(self.responses[j].body.as_str());
                let (cut, bytes) = utf8_cut_chars(&body, 12000);
                self.cut_fault = cut < body.len() && bytes != 12000;
            },
            None => {
                assert(selected_response(v) is None);
                self.cut_fault = false;
                if self.responses.len() == 0 {
                    let mut s = String::from_str("No responses in ");
                    append_str(&mut s, self.corpus.as_str());
                    append_str(
                        &mut s,
                        ".\n\nScaffold one:\n  canonic new \"Topic title\"\n\nOr import drafts:\n  canonic import-jira \"project = HSP AND labels = canned-response\"\n  canonic promote corpus/imports/…md",
                    );
                    self.preview = s;
                } else {
                    self.preview = String::from_str("No rows match the current filter.");
                }
            },
        }
    }

    /// Rebuild the rows from the filter, keep the highlight on the same id
    /// where possible, and refresh the preview.
    pub fn rebuild_entries(&mut self)
        requires
            old(self).wf(),
        ensures
            final(self)@ == rebuilt(old(self)@),
            final(self).wf(),
    {
        let q = lower_of(&self.filter);
        let prev: Option<String> = match self.selected {
            Some(i) => if i < self.entries.len() {
                Some(self.entries[i].id.clone())
            } else {
                None
            },
            None => None,
        };
        let mut es: Vec<ListEntry> = Vec::new();
        let mut k: usize = 0;
        while k < self.responses.len()
            invariant
                k <= self.responses.len(),
                q@ == lowercase(self.filter@),
                entry_views(es@) == entries_for(self.responses@.take(k as int), q@),
            decreases self.responses.len() - k,
        {
            proof {
                lemma_entry_views_take(self.responses@, q@, k as int);
            }
            let r = &self.responses[k];
            if matches_filter(r, &q) {
                push_entry(&mut es, entry_for(r));
            }
            k += 1;
        }
        assert(self.responses@.take(self.responses.len() as int) =~= self.responses@);
        let ghost ev = entry_views(es@);
        let mut idx: Option<usize> = None;
        match &prev {
            Some(id) => {
                let mut j: usize = 0;
                while j < es.len()
                    invariant_except_break
                        idx is None,
                    invariant
                        j <= es.len(),
                        ev == entry_views(es@),
                        entry_position(ev, id@, 0) == entry_position(ev, id@, j as int),
                    ensures
                        idx is None ==> entry_position(ev, id@, 0) is None,
                        idx matches Some(p) ==> entry_position(ev, id@, 0) == Some(p as nat) && p
                            < es.len(),
                    decreases es.len() - j,
                {
                    if es[j].id == *id {
                        idx = Some(j);
                        break;
                    }
                    j += 1;
                }
            },
            None => {},
        }
        if idx.is_none() && es.len() > 0 {
            idx = Some(0);
        }
        self.entries = es;
        self.selected = idx;
        assert(self@.entries == ev);
        self.update_preview();
    }

    /// Highlight row `i`, reset the scroll and refresh the preview.
    fn select_row(&mut self, i: usize)
        requires
            old(self).wf(),
            i < old(self).entries.len(),
        ensures
            final(self)@ == previewed(AppView { selected: Some(i as nat), scroll: 0, ..old(self)@ }),
            final(self).wf(),
    {
        self.selected = Some(i);
        self.scroll = 0;
        self.update_preview();
    }
}

} // verus!

verus! {

pub open spec fn with_status(v: AppView, s: Seq<char>) -> AppView {
    AppView { status: s, ..v }
}

/// Highlight row `i`, reset the scroll and refresh the preview.
pub open spec fn select_to(v: AppView, i: nat) -> AppView {
    previewed(AppView { selected: Some(i), scroll: 0, ..v })
}

/// Move the highlight one row down, stopping at the last row.
pub open spec fn next_of(v: AppView) -> AppView {
    if v.entries.len() == 0 {
        v
    } else {
        select_to(
            v,
            match v.selected {
                Some(i) => if i + 1 < v.entries.len() {
                    (i + 1) as nat
                } else {
                    (v.entries.len() - 1) as nat
                },
                None => 0,
            },
        )
    }
}

/// Move the highlight one row up, stopping at the first row.
pub open spec fn prev_of(v: AppView) -> AppView {
    if v.entries.len() == 0 {
        v
    } else {
        select_to(
            v,
            match v.selected {
                Some(i) => if i == 0 {
                    0
                } else {
                    (i - 1) as nat
                },
                None => 0,
            },
        )
    }
}

/// Rows that check clean.
pub open spec fn clean_count(es: Seq<EntryView>) -> nat
    decreases es.len(),
{
    if es.len() == 0 {
        0
    } else {
        clean_count(es.drop_last()) + if es.last().3 {
            1nat
        } else {
            0nat
        }
    }
}

/// The side panel: corpus, row counts, filter, and the tooling report.
pub open spec fn side_panel_text(v: AppView, doctor: Seq<char>) -> Seq<char> {
    "corpus: "@ + v.corpus + "\nentries: "@ + decimal(v.entries.len()) + " (filter "@ + debug_str(
        v.filter,
    ) + ")\nclean: "@ + decimal(clean_count(v.entries)) + " · findings: "@ + decimal(
        (v.entries.len() - clean_count(v.entries)) as nat,
    ) + "\n\n── doctor ──\n"@ + trim(doctor)
}

pub open spec fn with_side_panel(v: AppView, doctor: Seq<char>) -> AppView {
    AppView { side_panel: side_panel_text(v, doctor), ..v }
}

pub open spec fn load_hint(n: nat, corpus: Seq<char>) -> Seq<char> {
    decimal(n) + " response(s) in "@ + corpus
        + " · ↑↓ move · / filter · c convert · r reindex · ? help · q quit"@
}

/// The state right after loading a corpus.
pub open spec fn loaded(corpus: Seq<char>, responses: Seq<CannedResponse>, doctor: Seq<char>) -> AppView {
    let v0 = AppView {
        corpus,
        responses,
        entries: seq![],
        selected: None,
        filter: seq![],
        focus: Focus::List,
        status: seq![],
        preview: seq![],
        side_panel: seq![],
        should_quit: false,
        scroll: 0,
        cut_fault: false,
    };
    let v1 = with_side_panel(rebuilt(v0), doctor);
    with_status(v1, load_hint(v1.entries.len(), corpus))
}

pub open spec fn filter_hint() -> Seq<char> {
    "filter: type to match id/title/body · Enter apply · Esc clear"@
}

pub open spec fn scroll_down(s: u16) -> u16 {
    if s + 8 > u16::MAX {
        u16::MAX
    } else {
        (s + 8) as u16
    }
}

pub open spec fn scroll_up(s: u16) -> u16 {
    if s < 8 {
        0
    } else {
        (s - 8) as u16
    }
}

/// What lint runs on: the highlighted row's file, else every file.
pub open spec fn lint_targets(v: AppView) -> Seq<Seq<char>> {
    match selected_entry(v) {
        Some(e) => seq![e.2],
        None => v.responses.map_values(|r: CannedResponse| r.path@),
    }
}

/// What search looks for: the filter, else the highlighted title, else the
/// shared prefix word.
pub open spec fn search_query(v: AppView) -> Seq<char> {
    if v.filter.len() == 0 {
        match selected_entry(v) {
            Some(e) => e.1,
            None => "resp"@,
        }
    } else {
        v.filter
    }
}

/// A key while the help is shown: closing keys return to the list.
pub open spec fn help_key(v: AppView, key: Key) -> AppView {
    if key == Key::Esc || key == Key::Char('q') || key == Key::Char('?') || key == Key::Enter {
        AppView { focus: Focus::List, ..v }
    } else {
        v
    }
}

pub open spec fn popped(s: Seq<char>) -> Seq<char> {
    if s.len() == 0 {
        s
    } else {
        s.drop_last()
    }
}

/// A key while the filter is edited.
pub open spec fn filter_key(v: AppView, key: Key, ctrl: bool) -> AppView {
    match key {
        Key::Esc => with_status(
            rebuilt(AppView { filter: seq![], focus: Focus::List, ..v }),
            "filter cleared"@,
        ),
        Key::Enter => with_status(
            rebuilt(AppView { focus: Focus::List, ..v }),
            "filter: "@ + debug_str(v.filter),
        ),
        Key::Backspace => rebuilt(AppView { filter: popped(v.filter), ..v }),
        Key::Char(c) => if ctrl {
            v
        } else {
            rebuilt(AppView { filter: v.filter.push(c), ..v })
        },
        _ => v,
    }
}

/// A key on the list.
pub open spec fn list_key(v: AppView, key: Key, ctrl: bool) -> (AppView, Work) {
    if key == Key::Char('q') || key == Key::Esc {
        (AppView { should_quit: true, ..v }, Work::Nothing)
    } else if key == Key::Char('c') && ctrl {
        (AppView { should_quit: true, ..v }, Work::Nothing)
    } else if key == Key::Down || key == Key::Char('j') {
        (next_of(v), Work::Nothing)
    } else if key == Key::Up || key == Key::Char('k') {
        (prev_of(v), Work::Nothing)
    } else if key == Key::Char('/') {
        (AppView { focus: Focus::Filter, status: filter_hint(), ..v }, Work::Nothing)
    } else if key == Key::Char('?') {
        (AppView { focus: Focus::Help, ..v }, Work::Nothing)
    } else if key == Key::Char('g') {
        (
            if v.entries.len() == 0 {
                v
            } else {
                select_to(v, 0)
            },
            Work::Nothing,
        )
    } else if key == Key::Char('G') {
        (
            if v.entries.len() == 0 {
                v
            } else {
                select_to(v, (v.entries.len() - 1) as nat)
            },
            Work::Nothing,
        )
    } else if key == Key::PageDown || key == Key::Char('J') {
        (AppView { scroll: scroll_down(v.scroll), ..v }, Work::Nothing)
    } else if key == Key::PageUp || key == Key::Char('K') {
        (AppView { scroll: scroll_up(v.scroll), ..v }, Work::Nothing)
    } else if key == Key::Char('R') {
        (v, Work::Reload)
    } else if key == Key::Char('r') {
        (v, Work::Reindex)
    } else if key == Key::Char('c') {
        match selected_entry(v) {
            Some(e) => (v, Work::Convert(e.0, e.2)),
            None => (with_status(v, "convert: no selection"@), Work::Nothing),
        }
    } else if key == Key::Char('C') {
        (checked_all(v), Work::Nothing)
    } else if key == Key::Char('l') {
        if lint_targets(v).len() == 0 {
            (with_status(v, "lint: nothing to lint"@), Work::Nothing)
        } else {
            (v, Work::Lint(lint_targets(v)))
        }
    } else if key == Key::Char('s') {
        (v, Work::Search(search_query(v)))
    } else if key == Key::Char('d') {
        (v, Work::Doctor)
    } else if key == Key::Enter {
        let w = previewed(v);
        (
            with_status(
                w,
                match selected_entry(w) {
                    Some(e) => "selected "@ + e.0,
                    None => "no selection"@,
                },
            ),
            Work::Nothing,
        )
    } else {
        (v, Work::Nothing)
    }
}

/// One key press: the next state and the outside work it asks for.
pub open spec fn key_step(v: AppView, key: Key, ctrl: bool) -> (AppView, Work) {
    match v.focus {
        Focus::Help => (help_key(v, key), Work::Nothing),
        Focus::Filter => (filter_key(v, key, ctrl), Work::Nothing),
        Focus::List => list_key(v, key, ctrl),
    }
}

} // verus!

verus! {

fn string_pop(s: &String) -> (r: String)
    ensures
        r@ == popped(s@),
{
    let mut v = chars_of(s.as_str());
    if v.len() > 0 {
        v.pop();
    }
    crate::text::string_of(&v)
}

fn string_push_char(s: &String, c: char) -> (r: String)
    ensures
        r@ == s@.push(c),
{
    let mut v = chars_of(s.as_str());
    v.push(c);
    crate::text::string_of(&v)
}

impl App {
    /// Move the highlight one row down.
    pub fn select_next(&mut self)
        requires
            old(self).wf(),
        ensures
            final(self)@ == next_of(old(self)@),
            final(self).wf(),
    {
        if self.entries.len() == 0 {
            return;
        }
        let i = match self.selected {
            Some(i) => if i + 1 < self.entries.len() {
                i + 1
            } else {
                self.entries.len() - 1
            },
            None => 0,
        };
        self.select_row(i);
    }

    /// Move the highlight one row up.
    pub fn select_prev(&mut self)
        requires
            old(self).wf(),
        ensures
            final(self)@ == prev_of(old(self)@),
            final(self).wf(),
    {
        if self.entries.len() == 0 {
            return;
        }
        let i = match self.selected {
            Some(i) => if i == 0 {
                0
            } else {
                i - 1
            },
            None => 0,
        };
        self.select_row(i);
    }

    /// The highlighted row, if any.
    pub fn selected_entry(&self) -> (r: Option<&ListEntry>)
        ensures
            match r {
                Some(e) => selected_entry(self@) == Some(e@),
                None => selected_entry(self@) is None,
            },
    {
        match self.selected {
            Some(i) => if i < self.entries.len() {
                Some(&self.entries[i])
            } else {
                None
            },
            None => None,
        }
    }

    /// Rewrite the side panel with this tooling report.
    pub fn refresh_side_panel(&mut self, doctor: &str)
        requires
            old(self).wf(),
        ensures
            final(self)@ == with_side_panel(old(self)@, doctor@),
            final(self).wf(),
    {
        let ghost es = self@.entries;
        let mut clean: usize = 0;
        let mut k: usize = 0;
        while k < self.entries.len()
            invariant
                k <= self.entries.len(),
                es == entry_views(self.entries@),
                clean == clean_count(es.take(k as int)),
                clean <= k,
            decreases self.entries.len() - k,
        {
            assert(es.take(k + 1).drop_last() =~= es.take(k as int));
            if self.entries[k].check_ok {
                clean = clean + 1;
            }
            k += 1;
        }
        assert(es.take(es.len() as int) =~= es);
        let mut s = String::from_str("corpus: ");
        append_str(&mut s, self.corpus.as_str());
        append_str(&mut s, "\nentries: ");
        push_decimal(&mut s, self.entries.len());
        append_str(&mut s, " (filter ");
        let f = debug_quote(self.filter.as_str());
        append_str(&mut s, f.as_str());
        append_str(&mut s, ")\nclean: ");
        push_decimal(&mut s, clean);
        append_str(&mut s, " · findings: ");
        push_decimal(&mut s, self.entries.len() - clean);
        append_str(&mut s, "\n\n── doctor ──\n");
        let d = trim_chars(&chars_of(doctor));
        push_chars(&mut s, &d);
        self.side_panel = s;
    }

    /// The browser state for a loaded corpus and the tooling report.
    pub fn load(corpus: String, responses: Vec<CannedResponse>, doctor: &str) -> (app: App)
        ensures
            app@ == loaded(corpus@, responses@, doctor@),
            app.wf(),
    {
        let mut app = App {
            corpus,
            responses,
            entries: Vec::new(),
            selected: None,
            filter: String::new(),
            focus: Focus::List,
            status: String::new(),
            preview: String::new(),
            side_panel: String::new(),
            should_quit: false,
            scroll: 0,
            cut_fault: false,
        };
        assert(app@.entries =~= seq![]);
        app.rebuild_entries();
        app.refresh_side_panel(doctor);
        let mut s = String::new();
        push_decimal(&mut s, app.entries.len());
        append_str(&mut s, " response(s) in ");
        append_str(&mut s, app.corpus.as_str());
        append_str(&mut s, " · ↑↓ move · / filter · c convert · r reindex · ? help · q quit");
        app.status = s;
        app
    }

    fn filter_key_exec(&mut self, key: Key, ctrl: bool)
        requires
            old(self).wf(),
        ensures
            final(self)@ == filter_key(old(self)@, key, ctrl),
            final(self).wf(),
    {
        match key {
            Key::Esc => {
                self.filter = String::new();
                self.focus = Focus::List;
                self.rebuild_entries();
                self.status = String::from_str("filter cleared");
            },
            Key::Enter => {
                self.focus = Focus::List;
                self.rebuild_entries();
                let mut s = String::from_str("filter: ");
                let f = debug_quote(self.filter.as_str());
                append_str(&mut s, f.as_str());
                self.status = s;
            },
            Key::Backspace => {
                self.filter = string_pop(&self.filter);
                self.rebuild_entries();
            },
            Key::Char(c) => {
                if !ctrl {
                    self.filter = string_push_char(&self.filter, c);
                    self.rebuild_entries();
                }
            },
            _ => {},
        }
    }
}

} // verus!

verus! {

impl App {
    fn lint_targets_exec(&self) -> (r: Vec<String>)
        ensures
            string_views(r@) == lint_targets(self@),
    {
        match self.selected_entry() {
            Some(e) => {
                let v = vec![e.path.clone()];
                assert(string_views(v@) =~= seq![e@.2]);
                v
            },
            None => {
                let mut out: Vec<String> = Vec::new();
                let mut k: usize = 0;
                while k < self.responses.len()
                    invariant
                        k <= self.responses.len(),
                        string_views(out@) == self.responses@.take(k as int).map_values(
                            |r: CannedResponse| r.path@,
                        ),
                    decreases self.responses.len() - k,
                {
                    let ghost prev = out@;
                    out.push(self.responses[k].path.clone());
                    proof {
                        crate::corpus::lemma_string_views_push(prev, out@.last());
                    }
                    assert(self.responses@.take(k + 1).map_values(|r: CannedResponse| r.path@)
                        =~= self.responses@.take(k as int).map_values(|r: CannedResponse| r.path@).push(
                        self.responses@[k as int].path@,
                    ));
                    k += 1;
                }
                assert(self.responses@.take(self.responses.len() as int) =~= self.responses@);
                out
            },
        }
    }

    fn search_query_exec(&self) -> (r: String)
        ensures
            r@ == search_query(self@),
    {
        if self.filter.as_str().is_empty() {
            match self.selected_entry() {
                Some(e) => e.title.clone(),
                None => String::from_str("resp"),
            }
        } else {
            self.filter.clone()
        }
    }

    /// Run the quality check over the whole (unfiltered) corpus and show the
    /// report.
    pub fn run_check_all(&mut self)
        requires
            old(self).wf(),
        ensures
            final(self)@ == checked_all(old(self)@),
            final(self).wf(),
    {
        let report = check_responses(&self.responses, DEFAULT_PREFIX);
        assert(crate::check::findings_view(report.findings@).len() == report.findings@.len());
        self.status = report.summary_line();
        self.rebuild_entries();
        self.preview = format_check_report(&report);
    }

    fn list_key_exec(&mut self, key: Key, ctrl: bool) -> (a: TuiAction)
        requires
            old(self).wf(),
        ensures
            (final(self)@, a@) == list_key(old(self)@, key, ctrl),
            final(self).wf(),
    {
        if key == Key::Char('q') || key == Key::Esc {
            self.should_quit = true;
        } else if key == Key::Char('c') && ctrl {
            self.should_quit = true;
        } else if key == Key::Down || key == Key::Char('j') {
            self.select_next();
        } else if key == Key::Up || key == Key::Char('k') {
            self.select_prev();
        } else if key == Key::Char('/') {
            self.focus = Focus::Filter;
            self.status = String::from_str(
                "filter: type to match id/title/body · Enter apply · Esc clear",
            );
        } else if key == Key::Char('?') {
            self.focus = Focus::Help;
        } else if key == Key::Char('g') {
            if self.entries.len() > 0 {
                self.select_row(0);
            }
        } else if key == Key::Char('G') {
            if self.entries.len() > 0 {
                let last = self.entries.len() - 1;
                self.select_row(last);
            }
        } else if key == Key::PageDown || key == Key::Char('J') {
            self.scroll = if self.scroll > u16::MAX - 8 {
                u16::MAX
            } else {
                self.scroll + 8
            };
        } else if key == Key::PageUp || key == Key::Char('K') {
            self.scroll = if self.scroll < 8 {
                0
            } else {
                self.scroll - 8
            };
        } else if key == Key::Char('R') {
            return TuiAction::Reload;
        } else if key == Key::Char('r') {
            return TuiAction::Reindex;
        } else if key == Key::Char('c') {
            match self.selected_entry() {
                Some(e) => {
                    return TuiAction::Convert { id: e.id.clone(), path: e.path.clone() };
                },
                None => {
                    self.status = String::from_str("convert: no selection");
                },
            }
        } else if key == Key::Char('C') {
            self.run_check_all();
        } else if key == Key::Char('l') {
            let paths = self.lint_targets_exec();
            if paths.len() == 0 {
                self.status = String::from_str("lint: nothing to lint");
            } else {
                return TuiAction::Lint(paths);
            }
        } else if key == Key::Char('s') {
            return TuiAction::Search(self.search_query_exec());
        } else if key == Key::Char('d') {
            return TuiAction::Doctor;
        } else if key == Key::Enter {
            self.update_preview();
            let s = match self.selected_entry() {
                Some(e) => {
                    let mut s = String::from_str("selected ");
                    append_str(&mut s, e.id.as_str());
                    s
                },
                None => String::from_str("no selection"),
            };
            self.status = s;
        }
        TuiAction::Nothing
    }

    /// Take one key press: update the state and say what outside work, if
    /// any, the press asks for.
    pub fn handle_key(&mut self, key: Key, ctrl: bool) -> (a: TuiAction)
        requires
            old(self).wf(),
        ensures
            (final(self)@, a@) == key_step(old(self)@, key, ctrl),
            final(self).wf(),
    {
        match self.focus {
            Focus::Help => {
                if key == Key::Esc || key == Key::Char('q') || key == Key::Char('?') || key
                    == Key::Enter {
                    self.focus = Focus::List;
                }
                TuiAction::Nothing
            },
            Focus::Filter => {
                self.filter_key_exec(key, ctrl);
                TuiAction::Nothing
            },
            Focus::List => self.list_key_exec(key, ctrl),
        }
    }
}

} // verus!

verus! {

/// One search hit as the preview lists it; the score already rendered.
#[derive(Debug, Clone)]
pub struct HitRow {
    pub id: String,
    pub score: String,
    pub title: String,
    pub snippet: String,
}

pub open spec fn hit_line(i: nat, h: HitRow) -> Seq<char> {
    decimal(i + 1) + ". "@ + h.id@ + "  score="@ + h.score@ + "\n   "@ + h.title@ + "\n   "@
        + h.snippet@ + "\n\n"@
}

/// The listing of the first `n` hits.
pub open spec fn hit_lines(hs: Seq<HitRow>, n: nat) -> Seq<char>
    decreases n,
{
    if n == 0 || n > hs.len() {
        seq![]
    } else {
        hit_lines(hs, (n - 1) as nat) + hit_line((n - 1) as nat, hs[n - 1])
    }
}

/// What came back from a conversion.
pub enum ConvertOutcome {
    /// Pandoc is not installed.
    PandocMissing,
    /// The Jira wiki markup.
    Converted(String),
    /// The conversion failed, for this reason.
    Failed(String),
}

pub open spec fn converted(v: AppView, id: Seq<char>, outcome: ConvertOutcome) -> AppView {
    match outcome {
        ConvertOutcome::PandocMissing => AppView {
            status: "convert: pandoc missing (install pandoc)"@,
            preview: "pandoc is not on PATH. Install pandoc to convert markdown → jira wiki."@,
            ..v
        },
        ConvertOutcome::Converted(j) => AppView {
            status: "convert: "@ + id + " → "@ + decimal(utf8_len(j@))
                + " bytes jira wiki (not posted)"@,
            preview: "── jira wiki (pandoc) · "@ + id + " ──\n\n"@ + j@,
            ..v
        },
        ConvertOutcome::Failed(e) => with_status(v, "convert failed: "@ + e@),
    }
}

pub open spec fn reloaded(v: AppView, rs: Seq<CannedResponse>, doctor: Seq<char>) -> AppView {
    let w = with_side_panel(rebuilt(AppView { responses: rs, ..v }), doctor);
    with_status(w, "reloaded "@ + decimal(rs.len()) + " response(s)"@)
}

pub open spec fn reindexed(v: AppView, outcome: Result<(usize, String), String>) -> AppView {
    match outcome {
        Ok((n, index)) => with_status(
            v,
            "reindexed "@ + decimal(n as nat) + " document(s) → "@ + index@,
        ),
        Err(e) => with_status(v, "reindex failed: "@ + e@),
    }
}

pub open spec fn searched(v: AppView, q: Seq<char>, outcome: Result<Vec<HitRow>, String>) -> AppView {
    match outcome {
        Ok(hs) => if hs.len() == 0 {
            AppView {
                preview: "(no hits for "@ + debug_str(q) + ")"@,
                status: "search: 0 hits for "@ + debug_str(q),
                ..v
            }
        } else {
            AppView {
                preview: "── search: "@ + debug_str(q) + " ("@ + decimal(hs.len() as nat)
                    + " hit(s)) ──\n\n"@ + hit_lines(hs@, hs.len() as nat),
                status: "search: "@ + decimal(hs.len() as nat) + " hit(s) for "@ + debug_str(q),
                ..v
            }
        },
        Err(e) => with_status(v, "search failed: "@ + e@),
    }
}

pub open spec fn doctor_shown(v: AppView, doctor: Seq<char>) -> AppView {
    let w = with_side_panel(v, doctor);
    AppView { preview: w.side_panel, status: "doctor snapshot in preview"@, ..w }
}

/// The list pane's title.
pub open spec fn list_title_text(v: AppView) -> Seq<char> {
    if v.focus == Focus::Filter {
        " filter: "@ + v.filter + "_ "@
    } else if v.filter.len() == 0 {
        " responses "@
    } else {
        " responses · /"@ + v.filter + " "@
    }
}

fn utf8_len_of(s: &String) -> (n: usize)
    requires
        utf8_len(s@) <= usize::MAX,
    ensures
        n == utf8_len(s@),
{
    let v = chars_of(s.as_str());
    let mut k: usize = 0;
    let mut n: usize = 0;
    while k < v.len()
        invariant
            k <= v.len(),
            v@ == s@,
            n == utf8_len(v@.take(k as int)),
            utf8_len(v@) <= usize::MAX,
        decreases v.len() - k,
    {
        proof {
            crate::text::lemma_utf8_take_push(v@, k as int);
            crate::text::lemma_utf8_take_mono(v@, k + 1, v.len() as int);
            assert(v@.take(v.len() as int) =~= v@);
        }
        n = n + crate::text::char_len_utf8(v[k]);
        k += 1;
    }
    assert(v@.take(v.len() as int) =~= v@);
    n
}

impl App {
    /// Take in the corpus read again from disk.
    pub fn finish_reload(&mut self, responses: Vec<CannedResponse>, doctor: &str)
        requires
            old(self).wf(),
        ensures
            final(self)@ == reloaded(old(self)@, responses@, doctor@),
            final(self).wf(),
    {
        let n = responses.len();
        self.responses = responses;
        self.rebuild_entries();
        self.refresh_side_panel(doctor);
        let mut s = String::from_str("reloaded ");
        push_decimal(&mut s, n);
        append_str(&mut s, " response(s)");
        self.status = s;
    }

    /// Take in the outcome of rebuilding the index: the document count and
    /// the index directory, or the failure.
    pub fn finish_reindex(&mut self, outcome: Result<(usize, String), String>)
        requires
            old(self).wf(),
        ensures
            final(self)@ == reindexed(old(self)@, outcome),
            final(self).wf(),
    {
        match outcome {
            Ok((n, index)) => {
                let mut s = String::from_str("reindexed ");
                push_decimal(&mut s, n);
                append_str(&mut s, " document(s) → ");
                append_str(&mut s, index.as_str());
                self.status = s;
            },
            Err(e) => {
                let mut s = String::from_str("reindex failed: ");
                append_str(&mut s, e.as_str());
                self.status = s;
            },
        }
    }

    /// Take in the outcome of converting the response `id`.
    pub fn finish_convert(&mut self, id: &str, outcome: ConvertOutcome)
        requires
            old(self).wf(),
            outcome matches ConvertOutcome::Converted(j) ==> utf8_len(j@) <= usize::MAX,
        ensures
            final(self)@ == converted(old(self)@, id@, outcome),
            final(self).wf(),
    {
        match outcome {
            ConvertOutcome::PandocMissing => {
                self.status = String::from_str("convert: pandoc missing (install pandoc)");
                self.preview = String::from_str(
                    "pandoc is not on PATH. Install pandoc to convert markdown → jira wiki.",
                );
            },
            ConvertOutcome::Converted(j) => {
                let n = utf8_len_of(&j);
                let mut s = String::from_str("convert: ");
                append_str(&mut s, id);
                append_str(&mut s, " → ");
                push_decimal(&mut s, n);
                append_str(&mut s, " bytes jira wiki (not posted)");
                self.status = s;
                let mut p = String::from_str("── jira wiki (pandoc) · ");
                append_str(&mut p, id);
                append_str(&mut p, " ──\n\n");
                append_str(&mut p, j.as_str());
                self.preview = p;
            },
            ConvertOutcome::Failed(e) => {
                let mut s = String::from_str("convert failed: ");
                append_str(&mut s, e.as_str());
                self.status = s;
            },
        }
    }

    /// Take in the outcome of a lint run.
    pub fn finish_lint(&mut self, outcome: Result<crate::lint::LintReport, String>)
        requires
            old(self).wf(),
        ensures
            final(self)@ == match outcome {
                Ok(r) => AppView {
                    status: crate::lint::lint_summary(r@),
                    preview: crate::lint::report_text(r@),
                    ..old(self)@
                },
                Err(e) => with_status(old(self)@, "lint failed: "@ + e@),
            },
            final(self).wf(),
    {
        match outcome {
            Ok(r) => {
                self.status = r.summary_line();
                self.preview = crate::lint::format_report(&r);
            },
            Err(e) => {
                let mut s = String::from_str("lint failed: ");
                append_str(&mut s, e.as_str());
                self.status = s;
            },
        }
    }

    /// Take in the outcome of searching for `query`.
    pub fn finish_search(&mut self, query: &str, outcome: Result<Vec<HitRow>, String>)
        requires
            old(self).wf(),
        ensures
            final(self)@ == searched(old(self)@, query@, outcome),
            final(self).wf(),
    {
        match outcome {
            Ok(hs) => {
                let q = debug_quote(query);
                if hs.len() == 0 {
                    let mut p = String::from_str("(no hits for ");
                    append_str(&mut p, q.as_str());
                    append_str(&mut p, ")");
                    self.preview = p;
                    let mut s = String::from_str("search: 0 hits for ");
                    append_str(&mut s, q.as_str());
                    self.status = s;
                } else {
                    let mut p = String::from_str("── search: ");
                    append_str(&mut p, q.as_str());
                    append_str(&mut p, " (");
                    push_decimal(&mut p, hs.len());
                    append_str(&mut p, " hit(s)) ──\n\n");
                    let ghost head = p@;
                    let mut k: usize = 0;
                    while k < hs.len()
                        invariant
                            k <= hs.len(),
                            p@ == head + hit_lines(hs@, k as nat),
                        decreases hs.len() - k,
                    {
                        let h = &hs[k];
                        push_decimal(&mut p, k + 1);
                        append_str(&mut p, ". ");
                        append_str(&mut p, h.id.as_str());
                        append_str(&mut p, "  score=");
                        append_str(&mut p, h.score.as_str());
                        append_str(&mut p, "\n   ");
                        append_str(&mut p, h.title.as_str());
                        append_str(&mut p, "\n   ");
                        append_str(&mut p, h.snippet.as_str());
                        append_str(&mut p, "\n\n");
                        assert(p@ =~= head + hit_lines(hs@, (k + 1) as nat));
                        k += 1;
                    }
                    self.preview = p;
                    let mut s = String::from_str("search: ");
                    push_decimal(&mut s, hs.len());
                    append_str(&mut s, " hit(s) for ");
                    append_str(&mut s, q.as_str());
                    self.status = s;
                }
            },
            Err(e) => {
                let mut s = String::from_str("search failed: ");
                append_str(&mut s, e.as_str());
                self.status = s;
            },
        }
    }

    /// Show this tooling report in the side panel and the preview.
    pub fn finish_doctor(&mut self, doctor: &str)
        requires
            old(self).wf(),
        ensures
            final(self)@ == doctor_shown(old(self)@, doctor@),
            final(self).wf(),
    {
        self.refresh_side_panel(doctor);
        self.preview = self.side_panel.clone();
        self.status = String::from_str("doctor snapshot in preview");
    }

    /// Highlight the row with this id, when there is one.
    pub fn focus_on(&mut self, id: &str)
        requires
            old(self).wf(),
        ensures
            final(self)@ == match entry_position(old(self)@.entries, id@, 0) {
                Some(i) => previewed(AppView { selected: Some(i), ..old(self)@ }),
                None => old(self)@,
            },
            final(self).wf(),
    {
        let ghost ev = self@.entries;
        let id_s = String::from_str(id);
        let mut found: Option<usize> = None;
        let mut j: usize = 0;
        while j < self.entries.len()
            invariant_except_break
                found is None,
            invariant
                j <= self.entries.len(),
                ev == entry_views(self.entries@),
                id_s@ == id@,
                entry_position(ev, id@, 0) == entry_position(ev, id@, j as int),
            ensures
                found is None ==> entry_position(ev, id@, 0) is None,
                found matches Some(p) ==> entry_position(ev, id@, 0) == Some(p as nat) && p
                    < self.entries.len(),
            decreases self.entries.len() - j,
        {
            if self.entries[j].id == id_s {
                found = Some(j);
                break;
            }
            j += 1;
        }
        match found {
            Some(p) => {
                self.selected = Some(p);
                self.update_preview();
            },
            None => {},
        }
    }

    /// The title of the list pane.
    pub fn list_title(&self) -> (r: String)
        ensures
            r@ == list_title_text(self@),
    {
        if self.focus == Focus::Filter {
            let mut s = String::from_str(" filter: ");
            append_str(&mut s, self.filter.as_str());
            append_str(&mut s, "_ ");
            s
        } else if self.filter.as_str().is_empty() {
            String::from_str(" responses ")
        } else {
            let mut s = String::from_str(" responses · /");
            append_str(&mut s, self.filter.as_str());
            append_str(&mut s, " ");
            s
        }
    }
}


} // verus!

verus! {

/// The help overlay's text.
pub const HELP_TEXT: &'static str = "canonic TUI — corpus browser\n\nNavigation\n  j / ↓          next response\n  k / ↑          previous response\n  g / G          first / last\n  PgDn/PgUp      scroll preview\n  /              filter by id, title, tags, body\n  Enter          refresh preview\n  ?              this help\n  q / Esc        quit\n\nActions (operate on selection or corpus)\n  C              run quality check on whole corpus\n  c              convert selection → jira wiki (pandoc; preview only)\n  l              lint selection with harper-core\n  r              rebuild Tantivy index\n  s              search index (uses filter text or selected title)\n  R              reload corpus from disk\n  d              show doctor / tooling snapshot\n\nConstraints\n  • Markdown under corpus/responses/ is source of truth\n  • TUI never POSTs to Jira (use canonic jira-comment explicitly)\n  • Promote imports with: canonic promote PATH.md\n";

/// The help overlay's text, as a string.
pub fn help_text() -> (r: String)
    ensures
        r@ == HELP_TEXT@,
{
    String::from_str(HELP_TEXT)
}

} // verus!

verus! {

proof fn lemma_entry_position(es: Seq<EntryView>, id: Seq<char>, i: int)
    requires
        0 <= i,
    ensures
        match entry_position(es, id, i) {
            Some(k) => i <= k < es.len() && es[k as int].0 == id,
            None => forall|j: int| i <= j < es.len() ==> es[j].0 != id,
        },
    decreases es.len() - i,
{
    if i < es.len() && es[i].0 != id {
        lemma_entry_position(es, id, i + 1);
    }
}

proof fn lemma_reselect_in_range(prev: Option<Seq<char>>, es: Seq<EntryView>)
    ensures
        reselect(prev, es) matches Some(i) ==> i < es.len(),
{
    match prev {
        Some(id) => lemma_entry_position(es, id, 0),
        None => {},
    }
}

pub open spec fn selected_id(v: AppView) -> Option<Seq<char>> {
    match selected_entry(v) {
        Some(e) => Some(e.0),
        None => None,
    }
}

/// Rebuilding the rows keeps the highlight on the same response whenever
/// that response is still listed.
pub proof fn law_rebuild_keeps_selection(v: AppView, id: Seq<char>, k: int)
    requires
        selected_id(v) == Some(id),
        0 <= k < rebuilt(v).entries.len(),
        rebuilt(v).entries[k].0 == id,
    ensures
        selected_id(rebuilt(v)) == Some(id),
{
    let es = entries_for(v.responses, lowercase(v.filter));
    lemma_entry_position(es, id, 0);
}

/// With an empty filter every response is listed, in corpus order.
pub proof fn law_empty_filter_lists_all(rs: Seq<CannedResponse>)
    ensures
        entries_for(rs, seq![]) == rs.map_values(|r: CannedResponse| entry_of(r)),
    decreases rs.len(),
{
    if rs.len() > 0 {
        law_empty_filter_lists_all(rs.drop_last());
        assert(rs.map_values(|r: CannedResponse| entry_of(r)) =~= rs.drop_last().map_values(
            |r: CannedResponse| entry_of(r),
        ).push(entry_of(rs.last())));
    } else {
        assert(rs.map_values(|r: CannedResponse| entry_of(r)) =~= seq![]);
    }
}

proof fn lemma_rebuilt_wf(v: AppView)
    ensures
        app_wf(rebuilt(v)),
{
    let es = entries_for(v.responses, lowercase(v.filter));
    let prev = match selected_entry(v) {
        Some(e) => Some(e.0),
        None => None,
    };
    lemma_reselect_in_range(prev, es);
}

/// Every key press keeps the browser consistent: the highlight stays on an
/// existing row.
pub proof fn law_key_keeps_wf(v: AppView, key: Key, ctrl: bool)
    requires
        app_wf(v),
    ensures
        app_wf(key_step(v, key, ctrl).0),
{
    lemma_rebuilt_wf(v);
    lemma_rebuilt_wf(AppView { filter: seq![], focus: Focus::List, ..v });
    lemma_rebuilt_wf(AppView { focus: Focus::List, ..v });
    lemma_rebuilt_wf(AppView { filter: popped(v.filter), ..v });
    match key {
        Key::Char(c) => {
            lemma_rebuilt_wf(AppView { filter: v.filter.push(c), ..v });
        },
        _ => {},
    }
    lemma_rebuilt_wf(
        with_status(
            v,
            summary_text(v.responses.len(), report_findings(v.responses, DEFAULT_PREFIX@).len()),
        ),
    );
}

} // verus!

verus! {

/// The filter's condition on one response, written out: an empty filter,
/// or the lowercased filter found in the lowercased id, title, body text or
/// one of the tags.
pub open spec fn filter_hits(r: CannedResponse, q: Seq<char>) -> bool {
    ||| q.len() == 0
    ||| contains(lowercase(r.id@), q)
    ||| contains(lowercase(r.title@), q)
    ||| contains(lowercase(r.content@), q)
    ||| exists|t: int| 0 <= t < r.tags@.len() && contains(lowercase(#[trigger] r.tags@[t]@), q)
}

proof fn lemma_entries_for_members(rs: Seq<CannedResponse>, q: Seq<char>)
    ensures
        forall|i: int| 0 <= i < rs.len() && filter_hits(rs[i], q) ==> entries_for(rs, q).contains(
            #[trigger] entry_of(rs[i]),
        ),
        forall|k: int| #![trigger entries_for(rs, q)[k]] 0 <= k < entries_for(rs, q).len() ==> exists|i: int|
            #![trigger filter_hits(rs[i], q)]
            0 <= i < rs.len() && filter_hits(rs[i], q) && entries_for(rs, q)[k] == entry_of(rs[i]),
    decreases rs.len(),
{
    if rs.len() > 0 {
        let p = rs.drop_last();
        let l = rs.last();
        lemma_entries_for_members(p, q);
        let rest = entries_for(p, q);
        let es = entries_for(rs, q);
        assert(response_matches(l, q) <==> filter_hits(l, q)) by {
            if exists|t: int| 0 <= t < l.tags@.len() && contains(lowercase(#[trigger] l.tags@[t]@), q) {
                let t = choose|t: int| 0 <= t < l.tags@.len() && contains(lowercase(#[trigger] l.tags@[t]@), q);
                assert(string_views(l.tags@)[t] == l.tags@[t]@);
            }
            if tag_matches(string_views(l.tags@), q) {
                let t = choose|t: int| 0 <= t < string_views(l.tags@).len() && contains(
                    lowercase(string_views(l.tags@)[t]),
                    q,
                );
                assert(string_views(l.tags@)[t] == l.tags@[t]@);
            }
        }
        assert forall|i: int| 0 <= i < rs.len() && filter_hits(rs[i], q) implies es.contains(
            #[trigger] entry_of(rs[i]),
        ) by {
            if i < p.len() {
                assert(rs[i] == p[i]);
                assert(rest.contains(entry_of(p[i])));
                let k = choose|k: int| 0 <= k < rest.len() && rest[k] == entry_of(p[i]);
                if response_matches(l, q) {
                    assert(es[k] == rest[k]);
                }
            } else {
                assert(rs[i] == l);
                assert(es[es.len() - 1] == entry_of(l));
            }
        }
        assert forall|k: int| #![trigger es[k]] 0 <= k < es.len() implies exists|i: int|
            #![trigger filter_hits(rs[i], q)]
            0 <= i < rs.len() && filter_hits(rs[i], q) && es[k] == entry_of(rs[i]) by {
            if k < rest.len() {
                assert(es[k] == rest[k]);
                let i = choose|i: int| #![trigger filter_hits(p[i], q)] 0 <= i < p.len() && filter_hits(p[i], q) && rest[k] == entry_of(p[i]);
                assert(rs[i] == p[i]);
                assert(filter_hits(rs[i], q));
            } else {
                assert(es[k] == entry_of(l));
                assert(rs[rs.len() - 1] == l);
                assert(filter_hits(rs[rs.len() - 1], q));
            }
        }
        assert(es == entries_for(rs, q));
    } else {
        assert(entries_for(rs, q).len() == 0);
    }
}

/// Rebuilding the rows lists exactly the responses that the filter hits:
/// every response whose lowercased id, title, body text or a tag contains
/// the lowercased filter (or any response, for an empty filter) has its
/// row, and every row belongs to such a response.
pub proof fn law_filter_lists_hits(v: AppView)
    ensures
        ({
            let q = lowercase(v.filter);
            let es = rebuilt(v).entries;
            &&& forall|i: int| 0 <= i < v.responses.len() && filter_hits(v.responses[i], q) ==> es.contains(
                #[trigger] entry_of(v.responses[i]),
            )
            &&& forall|k: int| #![trigger es[k]] 0 <= k < es.len() ==> exists|i: int|
                #![trigger filter_hits(v.responses[i], q)]
                0 <= i < v.responses.len() && filter_hits(v.responses[i], q) && es[k] == entry_of(
                    v.responses[i],
                )
        }),
{
    lemma_entries_for_members(v.responses, lowercase(v.filter));
}

} // verus!
