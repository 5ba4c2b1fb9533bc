use canonic::corpus::{parse_response, sort_by_id, CannedResponse};
use canonic::lint::LintReport;
use canonic::tui::{
    help_text, App, ConvertOutcome, Focus, HitRow, Key, TuiAction,
};

fn ok_doc(dir: &str, id: &str, title: &str, body: &str) -> CannedResponse {
    let text = format!(
        "---\nid: {id}\ntitle: {title}\nprefix: resp\nsop: none\n---\n\n# {title}\n\n{body}\n\nRegards,\nSupport Team\n"
    );
    parse_response(&format!("{dir}/{id}.md"), &text)
}

fn load(docs: Vec<CannedResponse>) -> App {
    let docs = sort_by_id(docs);
    App::load("corpus/responses".to_string(), docs, "canonic doctor\npandoc: ok — pandoc 3\n")
}

#[test]
fn load_lists_check_clean_entries() {
    let dir = "tmp";
    let app = load(vec![
        ok_doc(dir, "resp-alpha", "Alpha", "Alpha body about project space."),
        ok_doc(dir, "resp-beta", "Beta", "Beta body about modules."),
    ]);
    assert_eq!(app.entries.len(), 2);
    assert!(app.entries.iter().all(|e| e.check_ok));
    assert!(app.selected.is_some());
    assert!(app.preview.contains("resp-") || app.preview.contains("Alpha") || app.preview.contains("Beta"));
}

#[test]
fn filter_narrows_list() {
    let dir = "tmp";
    let mut app = load(vec![
        ok_doc(dir, "resp-storage", "Storage topic", "disk quota"),
        ok_doc(dir, "resp-queue", "Queue topic", "partition limits"),
    ]);
    app.filter = "queue".into();
    app.rebuild_entries();
    assert_eq!(app.entries.len(), 1);
    assert_eq!(app.entries[0].id, "resp-queue");
}

#[test]
fn handle_key_quit_and_nav() {
    let dir = "tmp";
    let mut app = load(vec![
        ok_doc(dir, "resp-a", "A", "one"),
        ok_doc(dir, "resp-b", "B", "two"),
    ]);
    app.handle_key(Key::Down, false);
    assert_eq!(app.selected, Some(1));
    app.handle_key(Key::Up, false);
    assert_eq!(app.selected, Some(0));
    app.handle_key(Key::Char('q'), false);
    assert!(app.should_quit);
}

#[test]
fn empty_corpus_has_guidance() {
    let app = App::load("corpus/responses".to_string(), vec![], "");
    assert!(app.entries.is_empty());
    assert!(
        app.preview.contains("canonic new") || app.preview.contains("No responses"),
        "{}",
        app.preview
    );
}

#[test]
fn load_status_and_side_panel_are_exact() {
    let app = load(vec![ok_doc("tmp", "resp-a", "A", "one")]);
    assert_eq!(
        app.status,
        "1 response(s) in corpus/responses · ↑↓ move · / filter · c convert · r reindex · ? help · q quit"
    );
    assert_eq!(
        app.side_panel,
        "corpus: corpus/responses\nentries: 1 (filter \"\")\nclean: 1 · findings: 0\n\n── doctor ──\ncanonic doctor\npandoc: ok — pandoc 3"
    );
    assert!(app.preview.starts_with("id: resp-a\ntitle: A\npath: tmp/resp-a.md\nsop: none\ntags: []\n\n── quality ──\ncheck: OK\n\n── markdown ──\n---\nid: resp-a"));
}

#[test]
fn filter_mode_edits_and_clears() {
    let mut app = load(vec![
        ok_doc("tmp", "resp-storage", "Storage topic", "disk quota"),
        ok_doc("tmp", "resp-queue", "Queue topic", "partition limits"),
    ]);
    assert_eq!(app.handle_key(Key::Char('/'), false), TuiAction::Nothing);
    assert_eq!(app.focus, Focus::Filter);
    for c in "QUEUE".chars() {
        app.handle_key(Key::Char(c), false);
    }
    assert_eq!(app.filter, "QUEUE");
    assert_eq!(app.entries.len(), 1);
    app.handle_key(Key::Backspace, false);
    assert_eq!(app.filter, "QUEU");
    app.handle_key(Key::Enter, false);
    assert_eq!(app.focus, Focus::List);
    assert_eq!(app.status, "filter: \"QUEU\"");
    app.handle_key(Key::Char('/'), false);
    app.handle_key(Key::Char('x'), true);
    assert_eq!(app.filter, "QUEU");
    app.handle_key(Key::Esc, false);
    assert_eq!(app.filter, "");
    assert_eq!(app.entries.len(), 2);
    assert_eq!(app.status, "filter cleared");
}

#[test]
fn selection_survives_filter_when_still_listed() {
    let mut app = load(vec![
        ok_doc("tmp", "resp-a", "Alpha", "shared words"),
        ok_doc("tmp", "resp-b", "Beta", "shared words"),
    ]);
    app.handle_key(Key::Char('G'), false);
    assert_eq!(app.selected, Some(1));
    app.filter = "beta".into();
    app.rebuild_entries();
    assert_eq!(app.selected, Some(0));
    assert_eq!(app.entries[0].id, "resp-b");
    app.filter = "nothing matches this".into();
    app.rebuild_entries();
    assert_eq!(app.selected, None);
    assert_eq!(app.preview, "No rows match the current filter.");
}

#[test]
fn list_keys_ask_for_outside_work() {
    let mut app = load(vec![
        ok_doc("tmp", "resp-a", "Alpha", "one"),
        ok_doc("tmp", "resp-b", "Beta", "two"),
    ]);
    assert_eq!(app.handle_key(Key::Char('R'), false), TuiAction::Reload);
    assert_eq!(app.handle_key(Key::Char('r'), false), TuiAction::Reindex);
    assert_eq!(app.handle_key(Key::Char('d'), false), TuiAction::Doctor);
    assert_eq!(
        app.handle_key(Key::Char('c'), false),
        TuiAction::Convert { id: "resp-a".into(), path: "tmp/resp-a.md".into() }
    );
    assert_eq!(
        app.handle_key(Key::Char('l'), false),
        TuiAction::Lint(vec!["tmp/resp-a.md".into()])
    );
    assert_eq!(app.handle_key(Key::Char('s'), false), TuiAction::Search("Alpha".into()));
    app.filter = "beta".into();
    assert_eq!(app.handle_key(Key::Char('s'), false), TuiAction::Search("beta".into()));
    assert!(!app.should_quit);
    assert_eq!(app.handle_key(Key::Char('c'), true), TuiAction::Nothing);
    assert!(app.should_quit);
}

#[test]
fn convert_and_lint_without_rows() {
    let mut app = App::load("empty".to_string(), vec![], "");
    assert_eq!(app.handle_key(Key::Char('c'), false), TuiAction::Nothing);
    assert_eq!(app.status, "convert: no selection");
    assert_eq!(app.handle_key(Key::Char('l'), false), TuiAction::Nothing);
    assert_eq!(app.status, "lint: nothing to lint");
    assert_eq!(app.handle_key(Key::Char('s'), false), TuiAction::Search("resp".into()));
    app.handle_key(Key::Enter, false);
    assert_eq!(app.status, "no selection");
}

#[test]
fn help_opens_and_closes() {
    let mut app = App::load("empty".to_string(), vec![], "");
    app.handle_key(Key::Char('?'), false);
    assert_eq!(app.focus, Focus::Help);
    app.handle_key(Key::Char('x'), false);
    assert_eq!(app.focus, Focus::Help);
    app.handle_key(Key::Esc, false);
    assert_eq!(app.focus, Focus::List);
    assert!(!app.should_quit);
    assert!(help_text().starts_with("canonic TUI — corpus browser\n"));
}

#[test]
fn scroll_saturates() {
    let mut app = App::load("empty".to_string(), vec![], "");
    app.handle_key(Key::PageUp, false);
    assert_eq!(app.scroll, 0);
    app.handle_key(Key::PageDown, false);
    app.handle_key(Key::Char('J'), false);
    assert_eq!(app.scroll, 16);
    app.scroll = u16::MAX - 3;
    app.handle_key(Key::PageDown, false);
    assert_eq!(app.scroll, u16::MAX);
}

#[test]
fn check_all_reports_summary() {
    let bad = parse_response("tmp/password-reset.md", "---\nid: password-reset\n---\n\nBody\n");
    let mut app = load(vec![bad, ok_doc("tmp", "resp-a", "A", "one")]);
    app.handle_key(Key::Char('C'), false);
    assert_eq!(app.status, "check: 2 file(s), 3 finding(s)");
    assert!(app.entries.iter().any(|e| !e.check_ok && e.finding_count == 3));
    assert!(app.preview.starts_with("check: 2 file(s), 3 finding(s)\n[id-prefix] tmp/password-reset.md"));
}

#[test]
fn finishing_outside_work_updates_status() {
    let mut app = load(vec![ok_doc("tmp", "resp-a", "A", "one")]);
    app.finish_reindex(Ok((3, ".canonic-index".into())));
    assert_eq!(app.status, "reindexed 3 document(s) → .canonic-index");
    app.finish_reindex(Err("disk full".into()));
    assert_eq!(app.status, "reindex failed: disk full");
    app.finish_convert("resp-a", ConvertOutcome::Converted("h1. Ä".into()));
    assert_eq!(app.status, "convert: resp-a → 6 bytes jira wiki (not posted)");
    assert_eq!(app.preview, "── jira wiki (pandoc) · resp-a ──\n\nh1. Ä");
    app.finish_convert("resp-a", ConvertOutcome::PandocMissing);
    assert_eq!(app.status, "convert: pandoc missing (install pandoc)");
    app.finish_convert("resp-a", ConvertOutcome::Failed("boom".into()));
    assert_eq!(app.status, "convert failed: boom");
    app.finish_search("zzz", Ok(vec![]));
    assert_eq!(app.preview, "(no hits for \"zzz\")");
    assert_eq!(app.status, "search: 0 hits for \"zzz\"");
    app.finish_search(
        "alpha",
        Ok(vec![HitRow {
            id: "resp-a".into(),
            score: "1.500".into(),
            title: "A".into(),
            snippet: "one".into(),
        }]),
    );
    assert_eq!(app.preview, "── search: \"alpha\" (1 hit(s)) ──\n\n1. resp-a  score=1.500\n   A\n   one\n\n");
    assert_eq!(app.status, "search: 1 hit(s) for \"alpha\"");
    app.finish_lint(Ok(LintReport { findings: vec![], ran: vec!["harper-core".into()], missing: vec![] }));
    assert_eq!(app.status, "lint: 0 finding(s); ran=[\"harper-core\"]; missing=[]");
    app.finish_doctor("  report  ");
    assert_eq!(app.preview, app.side_panel);
    assert_eq!(app.status, "doctor snapshot in preview");
    app.finish_reload(vec![], "");
    assert_eq!(app.status, "reloaded 0 response(s)");
    assert!(app.entries.is_empty());
}

#[test]
fn long_bodies_are_cut_in_preview() {
    let body = "x".repeat(13_000);
    let doc = ok_doc("tmp", "resp-long", "Long", &body);
    let app = load(vec![doc]);
    assert!(app.preview.ends_with("\n… (truncated)"));
    let markdown = app.preview.split("── markdown ──\n").nth(1).unwrap();
    assert_eq!(markdown.len(), 12_000 + "\n… (truncated)".len());
}

#[test]
fn cut_inside_a_character_is_refused() {
    let mut body = "a".repeat(11_999);
    body.push('é');
    body.push_str(&"b".repeat(100));
    let doc = parse_response("tmp/resp-x.md", &body);
    let fine = ok_doc("tmp", "resp-a", "A", "one");
    let mut app = load(vec![fine, doc]);
    assert!(!app.cut_fault);
    app.handle_key(Key::Down, false);
    assert_eq!(app.entries[app.selected.unwrap()].id, "resp-x");
    assert!(app.cut_fault);
    app.handle_key(Key::Up, false);
    assert!(!app.cut_fault);
}

#[test]
fn focus_and_list_title() {
    let mut app = load(vec![
        ok_doc("tmp", "resp-a", "A", "one"),
        ok_doc("tmp", "resp-b", "B", "two"),
    ]);
    app.focus_on("resp-b");
    assert_eq!(app.selected, Some(1));
    app.focus_on("resp-missing");
    assert_eq!(app.selected, Some(1));
    assert_eq!(app.list_title(), " responses ");
    app.filter = "b".into();
    assert_eq!(app.list_title(), " responses · /b ");
    app.focus = Focus::Filter;
    assert_eq!(app.list_title(), " filter: b_ ");
}
