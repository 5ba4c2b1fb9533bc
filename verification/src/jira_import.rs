//! Jira publication helpers: slugs, import drafts, probes, comment posts.

use vstd::prelude::*;
use vstd::string::StringExecFns;
use crate::json::{
    adf_walk, adf_walk_exec, items_model, entries_model, lemma_entries_model, lemma_items_model, JsonModel, JsonValue,
};
use crate::text::{
    ascii_alnum, is_ascii_alnum, lowercase, string_of, strip_trailing_char, to_lowercase,
    chars_of, is_ascii_seq,
};

verus! {

pub open spec fn topic_word() -> Seq<char> {
    seq!['t', 'o', 'p', 'i', 'c']
}

/// Slug of already-lowercased text, with whether the last character written
/// was a dash (a dash is written only after an alphanumeric).
pub open spec fn slug_state(s: Seq<char>) -> (Seq<char>, bool)
    decreases s.len(),
{
    if s.len() == 0 {
        (seq![], true)
    } else {
        let (out, last_dash) = slug_state(s.drop_last());
        let c = s.last();
        if is_ascii_alnum(c) {
            (out.push(c), false)
        } else if !last_dash {
            (out.push('-'), true)
        } else {
            (out, last_dash)
        }
    }
}

/// The slug of a title: its lowercase form with ASCII letters and digits
/// kept, every run of other characters made one `-`, no dash at either end;
/// `topic` when nothing is left.
pub open spec fn slug(title: Seq<char>) -> Seq<char> {
    let out = strip_trailing_char(slug_state(lowercase(title)).0, '-');
    if out.len() == 0 {
        topic_word()
    } else {
        out
    }
}

/// Turn a title into a slug: lowercase ASCII alphanumerics, everything else
/// collapsed to a single `-`, with no leading, trailing, or repeated dash.
pub fn slugify(title: &str) -> (r: String)
    ensures
        r@ == slug(title@),
{
    let lower = to_lowercase(&chars_of(title));
    let mut out: Vec<char> = Vec::new();
    let mut last_dash = true;
    let mut k: usize = 0;
    while k < lower.len()
        invariant
            k <= lower.len(),
            (out@, last_dash) == slug_state(lower@.take(k as int)),
        decreases lower.len() - k,
    {
        assert(lower@.take(k + 1).drop_last() =~= lower@.take(k as int));
        let c = lower[k];
        if ascii_alnum(c) {
            out.push(c);
            last_dash = false;
        } else if !last_dash {
            out.push('-');
            last_dash = true;
        }
        k += 1;
    }
    assert(lower@.take(lower.len() as int) =~= lower@);
    let ghost full = out@;
    assert(strip_trailing_char(full, '-') == strip_trailing_char(out@, '-'));
    while out.len() > 0 && out[out.len() - 1] == '-'
        invariant
            strip_trailing_char(full, '-') == strip_trailing_char(out@, '-'),
        decreases out.len(),
    {
        let ghost before = out@;
        out.pop();
        assert(before.drop_last() =~= out@);
    }
    if out.len() == 0 {
        let t = vec!['t', 'o', 'p', 'i', 'c'];
        assert(t@ =~= topic_word());
        string_of(&t)
    } else {
        string_of(&out)
    }
}

} // verus!

verus! {

/// Where imported drafts land by default (never auto-indexed or quality-checked).
pub fn default_import_dir() -> (r: String)
    ensures
        r@ == "corpus/imports"@,
{
    String::from_str("corpus/imports")
}

/// How to authenticate against the Jira REST API.
#[derive(Debug, Clone)]
pub enum JiraAuth {
    /// Jira Cloud convention: an account email plus an API token.
    Basic { user: String, token: String },
    /// A raw `Authorization` header value, e.g. `Bearer <personal-access-token>`.
    Header(String),
}

/// Jira instance connection details.
#[derive(Debug, Clone)]
pub struct JiraConfig {
    pub base_url: String,
    pub auth: JiraAuth,
}

impl JiraConfig {
    pub fn new(base_url: String, auth: JiraAuth) -> (r: Self)
        ensures
            r.base_url == base_url,
            r.auth == auth,
    {
        JiraConfig { base_url, auth }
    }
}

/// How to encode comment bodies for platform REST.
#[derive(Debug, Clone, Copy, PartialEq, Eq, Structural)]
pub enum CommentBodyFormat {
    /// Server/Data Center wiki string on `/rest/api/2/...`.
    Wiki,
    /// Cloud ADF document on `/rest/api/3/...`.
    Adf,
    /// Hosts under `.atlassian.net` get ADF, others wiki.
    Auto,
}

impl Default for CommentBodyFormat {
    fn default() -> (r: Self)
        ensures
            r == CommentBodyFormat::Auto,
    {
        CommentBodyFormat::Auto
    }
}

/// The domain that Jira Cloud sites live under.
pub open spec fn cloud_suffix() -> Seq<char> {
    ".atlassian.net"@
}

/// The URL text after its `scheme://`, when it has one.
pub open spec fn after_scheme(u: Seq<char>) -> Seq<char> {
    match crate::text::find(u, "://"@) {
        Some(i) => u.skip(i + 3),
        None => u,
    }
}

/// Index of the first `/`, `?` or `#` at or after `i`, or the length.
pub open spec fn authority_end(s: Seq<char>, i: int) -> int
    decreases s.len() - i,
{
    if i < 0 || i >= s.len() {
        s.len() as int
    } else if s[i] == '/' || s[i] == '?' || s[i] == '#' {
        i
    } else {
        authority_end(s, i + 1)
    }
}

/// The host of a URL: what stands between `scheme://` and the first `/`,
/// `?` or `#`, without a `user@` in front and a `:port` behind.
pub open spec fn url_host(u: Seq<char>) -> Seq<char> {
    let a = after_scheme(u);
    let auth = a.take(authority_end(a, 0));
    let h = match crate::text::last_index_of(auth, '@') {
        Some(k) => auth.skip(k + 1),
        None => auth,
    };
    h.take(crate::text::char_from(h, ':', 0))
}

/// The base URL names a Jira Cloud site: its host ends with
/// `.atlassian.net`, ignoring ASCII case.
pub open spec fn cloud_host(base_url: Seq<char>) -> bool {
    crate::text::ends_with(
        url_host(base_url).map_values(|c: char| crate::text::ascii_lower(c)),
        cloud_suffix(),
    )
}

fn url_host_chars(u: &Vec<char>) -> (r: Vec<char>)
    ensures
        r@ == url_host(u@),
{
    let sep = chars_of("://");
    proof {
        reveal_strlit("://");
    }
    let a = match crate::text::find_chars(u, &sep) {
        Some(i) => {
            assert(sep@.len() == 3);
            let t = crate::text::slice_chars(u, i + 3, u.len());
            assert(t@ =~= u@.skip(i + 3));
            t
        },
        None => {
            let t = crate::text::slice_chars(u, 0, u.len());
            assert(t@ =~= u@);
            t
        },
    };
    assert(a@ == after_scheme(u@));
    let mut e: usize = 0;
    while e < a.len() && !(a[e] == '/' || a[e] == '?' || a[e] == '#')
        invariant
            e <= a.len(),
            authority_end(a@, 0) == authority_end(a@, e as int),
        decreases a.len() - e,
    {
        e += 1;
    }
    let auth = crate::text::slice_chars(&a, 0, e);
    assert(auth@ =~= a@.take(authority_end(a@, 0)));
    proof {
        crate::text::lemma_last_index_of(auth@, '@');
    }
    let h = match crate::text::last_index_of_chars(&auth, '@') {
        Some(k) => {
            let t = crate::text::slice_chars(&auth, k + 1, auth.len());
            assert(t@ =~= auth@.skip(k + 1));
            t
        },
        None => auth,
    };
    let mut p: usize = 0;
    while p < h.len() && h[p] != ':'
        invariant
            p <= h.len(),
            crate::text::char_from(h@, ':', 0) == crate::text::char_from(h@, ':', p as int),
        decreases h.len() - p,
    {
        p += 1;
    }
    let r = crate::text::slice_chars(&h, 0, p);
    assert(r@ =~= h@.take(crate::text::char_from(h@, ':', 0)));
    r
}

/// True when the base URL's host is a Jira Cloud site (`*.atlassian.net`).
pub fn is_cloud_host(base_url: &str) -> (r: bool)
    ensures
        r == cloud_host(base_url@),
{
    let v = url_host_chars(&chars_of(base_url));
    let mut lower: Vec<char> = Vec::new();
    let mut k: usize = 0;
    while k < v.len()
        invariant
            k <= v.len(),
            lower@ == v@.take(k as int).map_values(|c: char| crate::text::ascii_lower(c)),
        decreases v.len() - k,
    {
        lower.push(crate::text::to_ascii_lower(v[k]));
        assert(lower@ =~= v@.take(k + 1).map_values(|c: char| crate::text::ascii_lower(c)));
        k += 1;
    }
    assert(v@.take(v.len() as int) =~= v@);
    let suffix = chars_of(".atlassian.net");
    crate::text::ends_with_chars(&lower, &suffix)
}

impl CommentBodyFormat {
    /// The concrete format: `Auto` becomes `Adf` on Cloud hosts and `Wiki`
    /// elsewhere; the others stay.
    pub open spec fn resolved(self, base_url: Seq<char>) -> CommentBodyFormat {
        match self {
            CommentBodyFormat::Auto => if cloud_host(base_url) {
                CommentBodyFormat::Adf
            } else {
                CommentBodyFormat::Wiki
            },
            other => other,
        }
    }

    pub fn resolve(self, base_url: &str) -> (r: CommentBodyFormat)
        ensures
            r == self.resolved(base_url@),
    {
        match self {
            CommentBodyFormat::Auto => {
                if is_cloud_host(base_url) {
                    CommentBodyFormat::Adf
                } else {
                    CommentBodyFormat::Wiki
                }
            },
            other => other,
        }
    }
}

/// The issue-comment endpoint for a format: API v3 for ADF, v2 otherwise.
pub open spec fn comment_url(base_url: Seq<char>, issue_key: Seq<char>, format: CommentBodyFormat) -> Seq<char> {
    let api = match format.resolved(base_url) {
        CommentBodyFormat::Adf => "3"@,
        _ => "2"@,
    };
    crate::text::strip_trailing_char(base_url, '/') + "/rest/api/"@ + api + "/issue/"@ + issue_key
        + "/comment"@
}

pub fn comment_post_url(base_url: &str, issue_key: &str, format: CommentBodyFormat) -> (r: String)
    ensures
        r@ == comment_url(base_url@, issue_key@, format),
{
    let base = crate::text::strip_trailing_char_chars(&chars_of(base_url), '/');
    let mut s = string_of(&base);
    s.append("/rest/api/");
    match format.resolve(base_url) {
        CommentBodyFormat::Adf => s.append("3"),
        _ => s.append("2"),
    }
    s.append("/issue/");
    s.append(issue_key);
    s.append("/comment");
    s
}

} // verus!

verus! {

/// Plain text of an ADF document: its text with every run of whitespace
/// made one space.
pub open spec fn adf_plain_text(node: JsonModel) -> Seq<char> {
    crate::text::trim(crate::text::join(crate::text::words(adf_walk(node, seq![])), seq![' ']))
}

/// Text of a comment body: a wiki string as it is, an ADF document or list
/// flattened to plain text, any other value as its JSON text.
pub open spec fn comment_text(body: JsonModel) -> Seq<char> {
    match body {
        JsonModel::Str(s) => s,
        JsonModel::Object(_) => adf_plain_text(body),
        JsonModel::Array(_) => adf_plain_text(body),
        JsonModel::Null => "null"@,
        JsonModel::Bool(b) => if b {
            "true"@
        } else {
            "false"@
        },
        JsonModel::Number(n) => n,
    }
}

fn adf_to_plain_text(node: &JsonValue) -> (r: Vec<char>)
    ensures
        r@ == adf_plain_text(node.model()),
{
    let mut out: Vec<char> = Vec::new();
    assert(out@ =~= seq![]);
    adf_walk_exec(node, &mut out);
    let ws = crate::text::words_of(&out);
    let sp = vec![' '];
    assert(sp@ =~= seq![' ']);
    let joined = crate::text::join_chars(&ws, &sp);
    crate::text::trim_chars(&joined)
}

/// Flatten comment bodies: wiki strings stay as they are; Cloud ADF
/// (Atlassian Document Format) is reduced to plain text.
pub fn comment_body_to_text(body: &JsonValue) -> (r: String)
    ensures
        r@ == comment_text(body.model()),
{
    match body {
        JsonValue::Str(s) => s.clone(),
        JsonValue::Object(_) => string_of(&adf_to_plain_text(body)),
        JsonValue::Array(_) => string_of(&adf_to_plain_text(body)),
        JsonValue::Null => String::from_str("null"),
        JsonValue::Bool(b) => if *b {
            String::from_str("true")
        } else {
            String::from_str("false")
        },
        JsonValue::Number(n) => n.clone(),
    }
}

pub open spec fn str_model(s: Seq<char>) -> JsonModel {
    JsonModel::Str(s)
}

/// A paragraph node holding one line (no text node for an empty line).
pub open spec fn paragraph_model(line: Seq<char>) -> JsonModel {
    JsonModel::Object(
        seq![
            ("type"@, str_model("paragraph"@)),
            ("content"@, JsonModel::Array(if line.len() == 0 {
                seq![]
            } else {
                seq![text_node(line)]
            })),
        ],
    )
}

pub open spec fn text_node(t: Seq<char>) -> JsonModel {
    JsonModel::Object(seq![("type"@, str_model("text"@)), ("text"@, str_model(t))])
}

/// Lines of a text as `split('\n')` gives them, trailing whitespace removed,
/// blank lines kept only when `keep_all`.
pub open spec fn adf_lines(pieces: Seq<Seq<char>>, keep_all: bool) -> Seq<Seq<char>>
    decreases pieces.len(),
{
    if pieces.len() == 0 {
        seq![]
    } else {
        let rest = adf_lines(pieces.drop_last(), keep_all);
        let l = crate::text::trim_end(pieces.last());
        if l.len() > 0 || keep_all {
            rest.push(l)
        } else {
            rest
        }
    }
}

/// The minimal ADF document for a text: one paragraph per line (blank lines
/// kept when the text has several lines); a text with no non-blank line
/// becomes one paragraph holding it.
pub open spec fn adf_doc(text: Seq<char>) -> JsonModel {
    let ls = adf_lines(crate::text::split_char(text, '\n'), text.contains('\n'));
    let content = if ls.len() == 0 {
        seq![
            JsonModel::Object(
                seq![
                    ("type"@, str_model("paragraph"@)),
                    ("content"@, JsonModel::Array(seq![text_node(text)])),
                ],
            ),
        ]
    } else {
        ls.map_values(|l: Seq<char>| paragraph_model(l))
    };
    JsonModel::Object(
        seq![
            ("type"@, str_model("doc"@)),
            ("version"@, JsonModel::Number("1"@)),
            ("content"@, JsonModel::Array(content)),
        ],
    )
}

} // verus!

verus! {

fn text_node_value(t: String) -> (r: JsonValue)
    ensures
        r.model() == text_node(t@),
{
    let v = vec![
        (String::from_str("type"), JsonValue::Str(String::from_str("text"))),
        (String::from_str("text"), JsonValue::Str(t)),
    ];
    proof {
        lemma_entries_model(v@);
    }
    assert(entries_model(v@) =~= seq![("type"@, str_model("text"@)), ("text"@, str_model(t@))]);
    JsonValue::Object(v)
}

fn paragraph_value(line: &Vec<char>) -> (r: JsonValue)
    ensures
        r.model() == paragraph_model(line@),
{
    let items: Vec<JsonValue> = if line.len() == 0 {
        Vec::new()
    } else {
        vec![text_node_value(string_of(line))]
    };
    proof {
        lemma_items_model(items@);
    }
    if line.len() == 0 {
        assert(items_model(items@) =~= seq![]);
    } else {
        assert(items_model(items@) =~= seq![text_node(line@)]);
    }
    let v = vec![
        (String::from_str("type"), JsonValue::Str(String::from_str("paragraph"))),
        (String::from_str("content"), JsonValue::Array(items)),
    ];
    proof {
        lemma_entries_model(v@);
    }
    assert(entries_model(v@) =~= seq![
        ("type"@, str_model("paragraph"@)),
        ("content"@, JsonModel::Array(if line@.len() == 0 {
            seq![]
        } else {
            seq![text_node(line@)]
        })),
    ]);
    JsonValue::Object(v)
}

proof fn lemma_items_model_push(s: Seq<JsonValue>, x: JsonValue)
    ensures
        items_model(s.push(x)) == items_model(s).push(x.model()),
{
    lemma_items_model(s);
    lemma_items_model(s.push(x));
    assert(items_model(s.push(x)) =~= items_model(s).push(x.model()));
}

fn adf_paragraphs(tv: &Vec<char>, keep_all: bool) -> (r: Vec<JsonValue>)
    ensures
        items_model(r@) == adf_lines(crate::text::split_char(tv@, '\n'), keep_all).map_values(
            |l: Seq<char>| paragraph_model(l),
        ),
{
    let pieces = crate::text::split_char_chars(tv, '\n');
    let mut paras: Vec<JsonValue> = Vec::new();
    let mut k: usize = 0;
    assert(items_model(paras@) =~= seq![]);
    assert(adf_lines(crate::text::views(pieces@).take(0), keep_all).map_values(
        |l: Seq<char>| paragraph_model(l),
    ) =~= seq![]);
    while k < pieces.len()
        invariant
            k <= pieces.len(),
            crate::text::views(pieces@) == crate::text::split_char(tv@, '\n'),
            items_model(paras@) == adf_lines(crate::text::views(pieces@).take(k as int), keep_all).map_values(
                |l: Seq<char>| paragraph_model(l),
            ),
        decreases pieces.len() - k,
    {
        let ghost ps = crate::text::views(pieces@);
        assert(ps.take(k + 1).drop_last() =~= ps.take(k as int));
        assert(ps.take(k + 1).last() == pieces@[k as int]@);
        let l = crate::text::trim_end_chars(&pieces[k]);
        if l.len() > 0 || keep_all {
            let p = paragraph_value(&l);
            let ghost old_paras = paras@;
            paras.push(p);
            proof {
                lemma_items_model_push(old_paras, p);
            }
            assert(items_model(paras@) =~= adf_lines(ps.take(k + 1), keep_all).map_values(
                |l: Seq<char>| paragraph_model(l),
            ));
        } else {
            assert(adf_lines(ps.take(k + 1), keep_all) == adf_lines(ps.take(k as int), keep_all));
        }
        k += 1;
    }
    assert(crate::text::views(pieces@).take(pieces.len() as int) =~= crate::text::views(pieces@));
    paras
}

fn fallback_content(text: &str) -> (r: Vec<JsonValue>)
    ensures
        items_model(r@) == seq![
            JsonModel::Object(
                seq![
                    ("type"@, str_model("paragraph"@)),
                    ("content"@, JsonModel::Array(seq![text_node(text@)])),
                ],
            ),
        ],
{
    let inner = vec![text_node_value(String::from_str(text))];
    proof {
        lemma_items_model(inner@);
    }
    assert(items_model(inner@) =~= seq![text_node(text@)]);
    let v = vec![
        (String::from_str("type"), JsonValue::Str(String::from_str("paragraph"))),
        (String::from_str("content"), JsonValue::Array(inner)),
    ];
    proof {
        lemma_entries_model(v@);
    }
    assert(entries_model(v@) =~= seq![
        ("type"@, str_model("paragraph"@)),
        ("content"@, JsonModel::Array(seq![text_node(text@)])),
    ]);
    let c = vec![JsonValue::Object(v)];
    proof {
        lemma_items_model(c@);
    }
    assert(items_model(c@) =~= seq![
        JsonModel::Object(
            seq![
                ("type"@, str_model("paragraph"@)),
                ("content"@, JsonModel::Array(seq![text_node(text@)])),
            ],
        ),
    ]);
    c
}

/// Build a minimal ADF document from plain or wiki text (Cloud comment write path).
pub fn plain_text_to_adf(text: &str) -> (r: JsonValue)
    ensures
        r.model() == adf_doc(text@),
{
    let tv = chars_of(text);
    let keep_all = crate::text::has_char(&tv, '\n');
    let paras = adf_paragraphs(&tv, keep_all);
    proof {
        lemma_items_model(paras@);
    }
    let content: Vec<JsonValue> = if paras.len() == 0 {
        fallback_content(text)
    } else {
        paras
    };
    let ghost cm = items_model(content@);
    let v = vec![
        (String::from_str("type"), JsonValue::Str(String::from_str("doc"))),
        (String::from_str("version"), JsonValue::Number(String::from_str("1"))),
        (String::from_str("content"), JsonValue::Array(content)),
    ];
    proof {
        lemma_entries_model(v@);
    }
    assert(entries_model(v@) =~= seq![
        ("type"@, str_model("doc"@)),
        ("version"@, JsonModel::Number("1"@)),
        ("content"@, JsonModel::Array(cm)),
    ]);
    JsonValue::Object(v)
}

} // verus!

verus! {

/// One issue found by a JQL search: key plus its summary.
#[derive(Debug, Clone)]
pub struct IssueSummary {
    pub key: String,
    pub summary: String,
}

/// One comment on a Jira issue, with its body still in Jira wiki markup.
#[derive(Debug, Clone)]
pub struct IssueComment {
    pub author: String,
    pub created: String,
    pub body_wiki: String,
}

pub open spec fn draft_head(id: Seq<char>, issue_key: Seq<char>, title: Seq<char>) -> Seq<char> {
    "---\nid: "@ + id + "\ntitle: "@ + title + "\nprefix: resp\ntags: []\nsop: none\n---\n\n# "@ + title
        + "\n\n<!-- imported from "@ + issue_key
        + "; edit into a real answer, then move to corpus/responses/ -->\n"@
}

/// One section of a draft: a comment given as author, creation time and
/// markdown body.
pub open spec fn draft_section(c: (String, String, String)) -> Seq<char> {
    "\n## Comment by "@ + c.0@ + " ("@ + c.1@ + ")\n\n"@ + crate::text::trim(c.2@)
        + "\n"@
}

pub open spec fn draft_sections(cs: Seq<(String, String, String)>) -> Seq<char>
    decreases cs.len(),
{
    if cs.len() == 0 {
        seq![]
    } else {
        draft_sections(cs.drop_last()) + draft_section(cs.last())
    }
}

/// Render one issue's comments as a review draft: front matter plus one
/// section per comment. `id` must already carry the `resp-` prefix.
pub fn draft_markdown(id: &str, issue_key: &str, title: &str, comments: &[(String, String, String)]) -> (r: String)
    ensures
        r@ == draft_head(id@, issue_key@, title@) + draft_sections(comments@),
{
    let mut out = String::from_str("---\nid: ");
    out.append(id);
    out.append("\ntitle: ");
    out.append(title);
    out.append("\nprefix: resp\ntags: []\nsop: none\n---\n\n# ");
    out.append(title);
    out.append("\n\n<!-- imported from ");
    out.append(issue_key);
    out.append("; edit into a real answer, then move to corpus/responses/ -->\n");
    let ghost head = out@;
    let mut k: usize = 0;
    while k < comments.len()
        invariant
            k <= comments.len(),
            out@ == head + draft_sections(comments@.take(k as int)),
        decreases comments.len() - k,
    {
        let c = &comments[k];
        out.append("\n## Comment by ");
        out.append(c.0.as_str());
        out.append(" (");
        out.append(c.1.as_str());
        out.append(")\n\n");
        crate::text::push_chars(&mut out, &crate::text::trim_chars(&chars_of(c.2.as_str())));
        out.append("\n");
        assert(comments@.take(k + 1).drop_last() =~= comments@.take(k as int));
        assert(out@ =~= head + draft_sections(comments@.take(k + 1)));
        k += 1;
    }
    assert(comments@.take(comments.len() as int) =~= comments@);
    out
}

/// Id of the draft imported from an issue: `resp-`, the slug of its summary,
/// `-`, and its key in lowercase.
pub open spec fn import_id(summary: Seq<char>, key: Seq<char>) -> Seq<char> {
    "resp-"@ + slug(summary) + "-"@ + lowercase(key)
}

pub fn import_draft_id(issue: &IssueSummary) -> (r: String)
    ensures
        r@ == import_id(issue.summary@, issue.key@),
{
    let mut s = String::from_str("resp-");
    let slug_s = slugify(issue.summary.as_str());
    s.append(slug_s.as_str());
    s.append("-");
    crate::text::push_chars(&mut s, &to_lowercase(&chars_of(issue.key.as_str())));
    s
}

/// Where the next search page starts, or `None` when the last page came:
/// nothing returned, or the returned page reaches the reported total.
pub open spec fn next_page(returned_start: nat, got: nat, total: nat) -> Option<nat> {
    if got == 0 || returned_start + got >= total {
        None
    } else {
        Some(returned_start + got)
    }
}

pub fn next_search_start(returned_start: u32, got: u32, total: u32) -> (r: Option<u32>)
    ensures
        match r {
            Some(n) => next_page(returned_start as nat, got as nat, total as nat) == Some(n as nat),
            None => next_page(returned_start as nat, got as nat, total as nat) is None,
        },
{
    let sum: u64 = returned_start as u64 + got as u64;
    if got == 0 || sum >= total as u64 {
        None
    } else {
        Some(sum as u32)
    }
}

/// The identity fields of a `/myself` answer.
#[derive(Debug, Clone)]
pub struct MyselfFields {
    pub name: Option<String>,
    pub display_name: Option<String>,
    pub account_id: Option<String>,
    pub email: Option<String>,
}

pub open spec fn unknown_text() -> Seq<char> {
    "(unknown)"@
}

pub open spec fn first_present(a: Option<String>, b: Option<String>, c: Option<String>) -> Seq<char> {
    match a {
        Some(x) => x@,
        None => match b {
            Some(y) => y@,
            None => match c {
                Some(z) => z@,
                None => unknown_text(),
            },
        },
    }
}

fn first_present_exec(a: &Option<String>, b: &Option<String>, c: &Option<String>) -> (r: String)
    ensures
        r@ == first_present(*a, *b, *c),
{
    match a {
        Some(x) => x.clone(),
        None => match b {
            Some(y) => y.clone(),
            None => match c {
                Some(z) => z.clone(),
                None => String::from_str("(unknown)"),
            },
        },
    }
}

/// Display name and account of a probed user: display name, else login
/// name, else email; account id, else login name, else email;
/// `(unknown)` when none is there.
pub fn probe_identity(me: &MyselfFields) -> (r: (String, String))
    ensures
        r.0@ == first_present(me.display_name, me.name, me.email),
        r.1@ == first_present(me.account_id, me.name, me.email),
{
    (
        first_present_exec(&me.display_name, &me.name, &me.email),
        first_present_exec(&me.account_id, &me.name, &me.email),
    )
}

/// Id of a created comment: the reported one when non-empty, else `(unknown)`.
pub fn created_comment_id(id: &Option<String>) -> (r: String)
    ensures
        r@ == match id {
            Some(s) => if s@.len() > 0 {
                s@
            } else {
                unknown_text()
            },
            None => unknown_text(),
        },
{
    match id {
        Some(s) => {
            if chars_of(s.as_str()).len() > 0 {
                s.clone()
            } else {
                String::from_str("(unknown)")
            }
        },
        None => String::from_str("(unknown)"),
    }
}

/// Result of a free-tier connectivity probe (`/myself` + optional serverInfo).
#[derive(Debug, Clone)]
pub struct JiraProbe {
    pub base_url: String,
    pub display_name: String,
    pub account: String,
    pub server_title: Option<String>,
    pub server_version: Option<String>,
}

pub open spec fn probe_text(p: JiraProbe) -> Seq<char> {
    "jira: ok — free REST platform API (no Marketplace apps)\n  base: "@ + p.base_url@
        + "\n  user: "@ + p.display_name@ + " ("@ + p.account@ + ")"@ + match p.server_title {
        Some(t) => "\n  server: "@ + t@,
        None => seq![],
    } + match p.server_version {
        Some(v) => "\n  version: "@ + v@,
        None => seq![],
    } + "\n  note: write uses POST issue comment only; bulk library sync stays human-gated\n"@
}

/// Format a probe result for CLI stdout.
pub fn format_probe(probe: &JiraProbe) -> (r: String)
    ensures
        r@ == probe_text(*probe),
{
    let mut s = String::from_str("jira: ok — free REST platform API (no Marketplace apps)\n  base: ");
    s.append(probe.base_url.as_str());
    s.append("\n  user: ");
    s.append(probe.display_name.as_str());
    s.append(" (");
    s.append(probe.account.as_str());
    s.append(")");
    match &probe.server_title {
        Some(t) => {
            s.append("\n  server: ");
            s.append(t.as_str());
        },
        None => {},
    }
    match &probe.server_version {
        Some(v) => {
            s.append("\n  version: ");
            s.append(v.as_str());
        },
        None => {},
    }
    s.append("\n  note: write uses POST issue comment only; bulk library sync stays human-gated\n");
    s
}

} // verus!

verus! {

/// One comment created via free REST POST.
#[derive(Debug, Clone)]
pub struct PostedComment {
    pub issue_key: String,
    pub comment_id: String,
    pub body_wiki: String,
}

/// The JSON body of a comment POST: the wiki text for API v2, its ADF
/// document for API v3.
pub open spec fn payload_model(body_wiki: Seq<char>, format: CommentBodyFormat, base_url: Seq<char>) -> JsonModel {
    let inner = match format.resolved(base_url) {
        CommentBodyFormat::Adf => adf_doc(body_wiki),
        _ => str_model(body_wiki),
    };
    JsonModel::Object(seq![("body"@, inner)])
}

pub fn comment_post_payload(body_wiki: &str, format: CommentBodyFormat, base_url: &str) -> (r: JsonValue)
    ensures
        r.model() == payload_model(body_wiki@, format, base_url@),
{
    let inner = match format.resolve(base_url) {
        CommentBodyFormat::Adf => plain_text_to_adf(body_wiki),
        _ => JsonValue::Str(String::from_str(body_wiki)),
    };
    let ghost im = inner.model();
    let v = vec![(String::from_str("body"), inner)];
    proof {
        lemma_entries_model(v@);
    }
    assert(entries_model(v@) =~= seq![("body"@, im)]);
    JsonValue::Object(v)
}

/// Why a comment cannot be posted.
#[derive(Debug, Clone, Copy, PartialEq, Eq, Structural)]
pub enum PostError {
    /// The issue key is blank.
    EmptyIssueKey,
    /// The comment body is blank.
    EmptyBody,
}

impl PostError {
    pub fn message(&self) -> (r: String)
        ensures
            r@ == match self {
                PostError::EmptyIssueKey => "issue key is empty"@,
                PostError::EmptyBody => "comment body is empty"@,
            },
    {
        match self {
            PostError::EmptyIssueKey => String::from_str("issue key is empty"),
            PostError::EmptyBody => String::from_str("comment body is empty"),
        }
    }
}

/// A comment POST ready to send: endpoint, resolved format and JSON body.
#[derive(Debug)]
pub struct CommentPost {
    pub url: String,
    pub format: CommentBodyFormat,
    pub payload: JsonValue,
}

/// What posting asks for: a blank issue key or body is refused (key
/// first); otherwise the endpoint and body for the resolved format.
pub fn prepare_comment_post(
    cfg: &JiraConfig,
    issue_key: &str,
    body_wiki: &str,
    format: CommentBodyFormat,
) -> (r: Result<CommentPost, PostError>)
    ensures
        crate::text::trim(issue_key@).len() == 0 ==> r == Err::<CommentPost, PostError>(
            PostError::EmptyIssueKey,
        ),
        crate::text::trim(issue_key@).len() > 0 && crate::text::trim(body_wiki@).len() == 0 ==> r
            == Err::<CommentPost, PostError>(PostError::EmptyBody),
        crate::text::trim(issue_key@).len() > 0 && crate::text::trim(body_wiki@).len() > 0 ==> (
        r matches Ok(p) && p.url@ == comment_url(cfg.base_url@, issue_key@, format) && p.format
            == format.resolved(cfg.base_url@) && p.payload.model() == payload_model(
            body_wiki@,
            format,
            cfg.base_url@,
        )),
{
    if crate::text::trim_chars(&chars_of(issue_key)).len() == 0 {
        return Err(PostError::EmptyIssueKey);
    }
    if crate::text::trim_chars(&chars_of(body_wiki)).len() == 0 {
        return Err(PostError::EmptyBody);
    }
    let resolved = format.resolve(cfg.base_url.as_str());
    let url = comment_post_url(cfg.base_url.as_str(), issue_key, format);
    let payload = comment_post_payload(body_wiki, format, cfg.base_url.as_str());
    Ok(CommentPost { url, format: resolved, payload })
}

/// The outcome of a dry run: the converted body, no comment id.
pub fn dry_run_comment(issue_key: &str, body_wiki: String) -> (r: PostedComment)
    ensures
        r.issue_key@ == issue_key@,
        r.comment_id@ == "(dry-run)"@,
        r.body_wiki == body_wiki,
{
    PostedComment {
        issue_key: String::from_str(issue_key),
        comment_id: String::from_str("(dry-run)"),
        body_wiki,
    }
}

} // verus!

verus! {

/// `base_url` without trailing `/`, then `rest`.
pub open spec fn api_url(base_url: Seq<char>, rest: Seq<char>) -> Seq<char> {
    crate::text::strip_trailing_char(base_url, '/') + rest
}

fn api_url_exec(base_url: &str, rest: &str) -> (r: String)
    ensures
        r@ == api_url(base_url@, rest@),
{
    let base = crate::text::strip_trailing_char_chars(&chars_of(base_url), '/');
    let mut s = string_of(&base);
    s.append(rest);
    s
}

/// The JQL search endpoint.
pub fn search_url(base_url: &str) -> (r: String)
    ensures
        r@ == api_url(base_url@, "/rest/api/2/search"@),
{
    api_url_exec(base_url, "/rest/api/2/search")
}

/// The endpoint listing an issue's comments.
pub fn issue_comments_url(base_url: &str, issue_key: &str) -> (r: String)
    ensures
        r@ == api_url(base_url@, "/rest/api/2/issue/"@ + issue_key@ + "/comment"@),
{
    let mut rest = String::from_str("/rest/api/2/issue/");
    rest.append(issue_key);
    rest.append("/comment");
    api_url_exec(base_url, rest.as_str())
}

/// The endpoint that names the authenticated user.
pub fn myself_url(base_url: &str) -> (r: String)
    ensures
        r@ == api_url(base_url@, "/rest/api/2/myself"@),
{
    api_url_exec(base_url, "/rest/api/2/myself")
}

/// The endpoint that describes the server.
pub fn server_info_url(base_url: &str) -> (r: String)
    ensures
        r@ == api_url(base_url@, "/rest/api/2/serverInfo"@),
{
    api_url_exec(base_url, "/rest/api/2/serverInfo")
}

/// The probe result: the base URL without trailing `/`, the identity of the
/// `/myself` answer, and the server title and version when `/serverInfo`
/// answered.
pub fn probe_result(
    base_url: &str,
    me: &MyselfFields,
    server: Option<(Option<String>, Option<String>)>,
) -> (r: JiraProbe)
    ensures
        r.base_url@ == crate::text::strip_trailing_char(base_url@, '/'),
        r.display_name@ == first_present(me.display_name, me.name, me.email),
        r.account@ == first_present(me.account_id, me.name, me.email),
        crate::corpus::opt_view(r.server_title) == match server {
            Some((t, _)) => crate::corpus::opt_view(t),
            None => None,
        },
        crate::corpus::opt_view(r.server_version) == match server {
            Some((_, v)) => crate::corpus::opt_view(v),
            None => None,
        },
{
    let (display_name, account) = probe_identity(me);
    let (server_title, server_version) = match server {
        Some((t, v)) => (t, v),
        None => (None, None),
    };
    let base = crate::text::strip_trailing_char_chars(&chars_of(base_url), '/');
    JiraProbe {
        base_url: string_of(&base),
        display_name,
        account,
        server_title,
        server_version,
    }
}

/// Why a probe failed when `/myself` did not answer with success.
pub fn probe_failure_text(status: &str) -> (r: String)
    ensures
        r@ == "Jira probe failed (auth or reachability): HTTP "@ + status@
            + " on /rest/api/2/myself — free Cloud needs email+API token; Server/DC may use JIRA_AUTH_HEADER"@,
{
    let mut s = String::from_str("Jira probe failed (auth or reachability): HTTP ");
    s.append(status);
    s.append(
        " on /rest/api/2/myself — free Cloud needs email+API token; Server/DC may use JIRA_AUTH_HEADER",
    );
    s
}

/// `{:?}` of a format: its variant name.
pub open spec fn format_name(f: CommentBodyFormat) -> Seq<char> {
    match f {
        CommentBodyFormat::Wiki => "Wiki"@,
        CommentBodyFormat::Adf => "Adf"@,
        CommentBodyFormat::Auto => "Auto"@,
    }
}

/// Why posting failed: the HTTP status, the format, and the answer's text
/// when there is one.
pub fn post_failure_text(issue_key: &str, status: &str, format: CommentBodyFormat, detail: &str) -> (r: String)
    ensures
        r@ == "posting comment on "@ + issue_key@ + " failed: HTTP "@ + status@ + " (format="@
            + format_name(format) + ")"@ + if detail@.len() == 0 {
            seq![]
        } else {
            " — "@ + detail@
        },
{
    let mut s = String::from_str("posting comment on ");
    s.append(issue_key);
    s.append(" failed: HTTP ");
    s.append(status);
    s.append(" (format=");
    match format {
        CommentBodyFormat::Wiki => s.append("Wiki"),
        CommentBodyFormat::Adf => s.append("Adf"),
        CommentBodyFormat::Auto => s.append("Auto"),
    }
    s.append(")");
    if chars_of(detail).len() > 0 {
        s.append(" — ");
        s.append(detail);
    }
    s
}

/// The posted comment: the issue, the created comment's id (or
/// `(unknown)`), and the body that was sent.
pub fn posted_comment(issue_key: &str, id: &Option<String>, body_wiki: &str) -> (r: PostedComment)
    ensures
        r.issue_key@ == issue_key@,
        r.comment_id@ == match id {
            Some(s) => if s@.len() > 0 {
                s@
            } else {
                unknown_text()
            },
            None => unknown_text(),
        },
        r.body_wiki@ == body_wiki@,
{
    PostedComment {
        issue_key: String::from_str(issue_key),
        comment_id: created_comment_id(id),
        body_wiki: String::from_str(body_wiki),
    }
}

/// The drafts an import writes: for each issue, its draft id and the file
/// under `out_dir` named after it.
pub fn import_targets(out_dir: &str, issues: &[IssueSummary]) -> (r: Vec<(String, String)>)
    ensures
        r@.len() == issues@.len(),
        forall|i: int| 0 <= i < issues@.len() ==> {
            &&& (#[trigger] r@[i]).0@ == import_id(issues@[i].summary@, issues@[i].key@)
            &&& r@[i].1@ == crate::scaffold::response_file(out_dir@, r@[i].0@)
        },
{
    let mut out: Vec<(String, String)> = Vec::new();
    let mut k: usize = 0;
    while k < issues.len()
        invariant
            k <= issues.len(),
            out@.len() == k,
            forall|i: int| 0 <= i < k ==> {
                &&& (#[trigger] out@[i]).0@ == import_id(issues@[i].summary@, issues@[i].key@)
                &&& out@[i].1@ == crate::scaffold::response_file(out_dir@, out@[i].0@)
            },
        decreases issues.len() - k,
    {
        let id = import_draft_id(&issues[k]);
        let path = crate::scaffold::response_file_exec(out_dir, &id);
        out.push((id, path));
        k += 1;
    }
    out
}

} // verus!

verus! {

/// A slug: non-empty ASCII letters, digits and single dashes, with no dash
/// at either end.
pub open spec fn slug_shaped(s: Seq<char>) -> bool {
    &&& s.len() > 0
    &&& forall|i: int| 0 <= i < s.len() ==> is_ascii_alnum(#[trigger] s[i]) || s[i] == '-'
    &&& s[0] != '-'
    &&& s.last() != '-'
    &&& forall|i: int| 0 <= i < s.len() - 1 ==> !(#[trigger] s[i] == '-' && s[i + 1] == '-')
}

proof fn lemma_slug_state(s: Seq<char>)
    ensures
        ({
            let (out, ld) = slug_state(s);
            &&& forall|i: int| 0 <= i < out.len() ==> is_ascii_alnum(#[trigger] out[i]) || out[i] == '-'
            &&& out.len() > 0 ==> out[0] != '-'
            &&& forall|i: int| 0 <= i < out.len() - 1 ==> !(#[trigger] out[i] == '-' && out[i + 1] == '-')
            &&& out.len() == 0 ==> ld
            &&& out.len() > 0 ==> (ld <==> out.last() == '-')
        }),
    decreases s.len(),
{
    if s.len() > 0 {
        lemma_slug_state(s.drop_last());
        let (out0, ld0) = slug_state(s.drop_last());
        let (out, ld) = slug_state(s);
        assert forall|i: int| 0 <= i < out.len() - 1 implies !(#[trigger] out[i] == '-' && out[i + 1] == '-') by {
            if i + 1 < out0.len() {
                assert(out[i] == out0[i] && out[i + 1] == out0[i + 1]);
            }
        }
    }
}

proof fn lemma_strip_dashes(s: Seq<char>)
    ensures
        ({
            let t = strip_trailing_char(s, '-');
            &&& t.len() <= s.len()
            &&& t == s.take(t.len() as int)
            &&& t.len() > 0 ==> t.last() != '-'
        }),
    decreases s.len(),
{
    if s.len() > 0 && s.last() == '-' {
        lemma_strip_dashes(s.drop_last());
        let t = strip_trailing_char(s, '-');
        assert(s.drop_last().take(t.len() as int) =~= s.take(t.len() as int));
    } else {
        assert(s.take(s.len() as int) =~= s);
    }
}

/// Every slug is slug-shaped: non-empty ASCII letters, digits and single
/// dashes, with no dash at either end.
pub proof fn law_slug_shape(title: Seq<char>)
    ensures
        slug_shaped(slug(title)),
{
    let st = slug_state(lowercase(title));
    lemma_slug_state(lowercase(title));
    lemma_strip_dashes(st.0);
    let out = strip_trailing_char(st.0, '-');
    if out.len() == 0 {
        assert(slug(title) == topic_word());
    } else {
        assert forall|i: int| 0 <= i < out.len() implies is_ascii_alnum(#[trigger] out[i]) || out[i] == '-' by {
            assert(out[i] == st.0[i]);
        }
        assert forall|i: int| 0 <= i < out.len() - 1 implies !(#[trigger] out[i] == '-' && out[i + 1] == '-') by {
            assert(out[i] == st.0[i] && out[i + 1] == st.0[i + 1]);
        }
        assert(out[0] == st.0[0]);
    }
}

/// Search pages only move forward: the next page starts after the one
/// that came back.
pub proof fn law_search_pages_advance(returned_start: nat, got: nat, total: nat)
    ensures
        next_page(returned_start, got, total) matches Some(n) ==> n > returned_start && n < total,
{
}

} // verus!

verus! {

proof fn lemma_slug_state_from(s: Seq<char>)
    ensures
        forall|i: int| 0 <= i < slug_state(s).0.len() ==> #[trigger] slug_state(s).0[i] == '-' || s.contains(
            slug_state(s).0[i],
        ),
    decreases s.len(),
{
    if s.len() > 0 {
        lemma_slug_state_from(s.drop_last());
        let out0 = slug_state(s.drop_last()).0;
        let out = slug_state(s).0;
        assert forall|i: int| 0 <= i < out.len() implies #[trigger] out[i] == '-' || s.contains(out[i]) by {
            if i < out0.len() {
                assert(out[i] == out0[i]);
                if s.drop_last().contains(out0[i]) {
                    let k = choose|k: int| 0 <= k < s.drop_last().len() && s.drop_last()[k] == out0[i];
                    assert(s[k] == out0[i]);
                }
            } else {
                assert(out[i] == '-' || out[i] == s.last());
                assert(s[s.len() - 1] == s.last());
            }
        }
    }
}

/// The slug of an ASCII title has no uppercase letter.
pub proof fn law_slug_ascii_lowercase(title: Seq<char>)
    requires
        is_ascii_seq(title),
    ensures
        forall|i: int| 0 <= i < slug(title).len() ==> !('A' <= #[trigger] slug(title)[i] && slug(title)[i] <= 'Z'),
{
    let low = lowercase(title);
    assert(low == title.map_values(|c: char| crate::text::ascii_lower(c)));
    assert forall|k: int| 0 <= k < low.len() implies !('A' <= #[trigger] low[k] && low[k] <= 'Z') by {
        let c = title[k];
        assert(low[k] == crate::text::ascii_lower(c));
        if 'A' <= c && c <= 'Z' {
            assert(((c as u32) + 32) as char >= 'a');
        }
    }
    let st = slug_state(low).0;
    lemma_slug_state_from(low);
    assert forall|i: int| 0 <= i < st.len() implies !('A' <= #[trigger] st[i] && st[i] <= 'Z') by {
        if st[i] != '-' {
            let k = choose|k: int| 0 <= k < low.len() && low[k] == st[i];
            assert(!('A' <= low[k] && low[k] <= 'Z'));
        }
    }
    lemma_strip_dashes(st);
    let out = strip_trailing_char(st, '-');
    assert forall|i: int| 0 <= i < out.len() implies !('A' <= #[trigger] out[i] && out[i] <= 'Z') by {
        assert(out[i] == st[i]);
    }
}

} // verus!

verus! {

/// A paragraph node with these children.
pub open spec fn paragraph_with(children: Seq<JsonModel>) -> JsonModel {
    JsonModel::Object(seq![("type"@, str_model("paragraph"@)), ("content"@, JsonModel::Array(children))])
}

/// A version-1 ADF document with these blocks.
pub open spec fn doc_with(content: Seq<JsonModel>) -> JsonModel {
    JsonModel::Object(
        seq![
            ("type"@, str_model("doc"@)),
            ("version"@, JsonModel::Number("1"@)),
            ("content"@, JsonModel::Array(content)),
        ],
    )
}

/// Lines, each followed by a line break.
pub open spec fn nl_join(ls: Seq<Seq<char>>) -> Seq<char>
    decreases ls.len(),
{
    if ls.len() == 0 {
        seq![]
    } else {
        nl_join(ls.drop_last()) + ls.last() + seq!['\n']
    }
}

/// Nothing written yet, or a line just ended.
pub open spec fn at_line_start(out: Seq<char>) -> bool {
    out.len() == 0 || out.last() == '\n'
}

proof fn lemma_key_literals()
    ensures
        "type"@ != "text"@,
        "content"@ != "text"@,
        "version"@ != "text"@,
        "type"@ != "content"@,
        "version"@ != "content"@,
        "text"@ != "content"@,
        "doc"@ != "paragraph"@,
        "doc"@ != "heading"@,
{
    reveal_strlit("type");
    reveal_strlit("text");
    reveal_strlit("content");
    reveal_strlit("version");
    reveal_strlit("doc");
    reveal_strlit("paragraph");
    reveal_strlit("heading");
    assert("type"@[1] != "text"@[1]);
    assert("version"@[0] != "content"@[0]);
    assert("doc"@.len() == 3);
    assert("paragraph"@.len() == 9);
    assert("heading"@.len() == 7);
}

proof fn lemma_walk_items_push(a: Seq<JsonModel>, x: JsonModel, out: Seq<char>)
    ensures
        crate::json::adf_walk_items(a.push(x), out) == adf_walk(x, crate::json::adf_walk_items(a, out)),
    decreases a.len(),
{
    if a.len() == 0 {
        assert(a.push(x).drop_first() =~= Seq::<JsonModel>::empty());
        assert(a.push(x)[0] == x);
        assert(crate::json::adf_walk_items(Seq::<JsonModel>::empty(), adf_walk(x, out)) == adf_walk(x, out));
    } else {
        assert(a.push(x).drop_first() =~= a.drop_first().push(x));
        assert(a.push(x)[0] == a[0]);
        lemma_walk_items_push(a.drop_first(), x, adf_walk(a[0], out));
    }
}

proof fn lemma_walk_single(x: JsonModel, out: Seq<char>)
    ensures
        crate::json::adf_walk_items(seq![x], out) == adf_walk(x, out),
{
    lemma_walk_items_push(Seq::<JsonModel>::empty(), x, out);
    assert(Seq::<JsonModel>::empty().push(x) =~= seq![x]);
}

proof fn lemma_walk_text_node(l: Seq<char>, out: Seq<char>)
    requires
        at_line_start(out),
    ensures
        adf_walk(text_node(l), out) == out + l,
{
    lemma_key_literals();
    let m = seq![("type"@, str_model("text"@)), ("text"@, str_model(l))];
    assert(crate::json::key_index_from(m, "text"@, 1) == Some(1int));
    assert(crate::json::key_index(m, "text"@) == Some(1int));
    assert(crate::json::key_index_from(m, "content"@, 2) is None);
    assert(crate::json::key_index_from(m, "content"@, 1) is None);
    assert(crate::json::key_index(m, "content"@) is None);
    assert(crate::json::with_separator(out) == out);
}

proof fn lemma_walk_paragraph(children: Seq<JsonModel>, out: Seq<char>)
    ensures
        adf_walk(paragraph_with(children), out) == crate::json::adf_walk_items(children, out).push('\n'),
{
    lemma_key_literals();
    let m = seq![("type"@, str_model("paragraph"@)), ("content"@, JsonModel::Array(children))];
    assert(crate::json::key_index_from(m, "text"@, 2) is None);
    assert(crate::json::key_index_from(m, "text"@, 1) is None);
    assert(crate::json::key_index(m, "text"@) is None);
    assert(crate::json::key_index_from(m, "content"@, 1) == Some(1int));
    assert(crate::json::key_index(m, "content"@) == Some(1int));
    assert(crate::json::key_index(m, "type"@) == Some(0int));
    assert(crate::json::get(m, "type"@) == Some(str_model("paragraph"@)));
    assert(crate::json::is_block(m));
}

proof fn lemma_walk_doc(content: Seq<JsonModel>, out: Seq<char>)
    ensures
        adf_walk(doc_with(content), out) == crate::json::adf_walk_items(content, out),
{
    lemma_key_literals();
    let m = seq![
        ("type"@, str_model("doc"@)),
        ("version"@, JsonModel::Number("1"@)),
        ("content"@, JsonModel::Array(content)),
    ];
    assert(crate::json::key_index_from(m, "text"@, 3) is None);
    assert(crate::json::key_index_from(m, "text"@, 2) is None);
    assert(crate::json::key_index_from(m, "text"@, 1) is None);
    assert(crate::json::key_index(m, "text"@) is None);
    assert(crate::json::key_index_from(m, "content"@, 2) == Some(2int));
    assert(crate::json::key_index_from(m, "content"@, 1) == Some(2int));
    assert(crate::json::key_index(m, "content"@) == Some(2int));
    assert(crate::json::key_index(m, "type"@) == Some(0int));
    assert(crate::json::get(m, "type"@) == Some(str_model("doc"@)));
    assert(!crate::json::is_block(m));
}

proof fn lemma_walk_line(l: Seq<char>, out: Seq<char>)
    requires
        at_line_start(out),
    ensures
        adf_walk(paragraph_model(l), out) == out + l + seq!['\n'],
{
    if l.len() == 0 {
        assert(paragraph_model(l) == paragraph_with(Seq::<JsonModel>::empty()));
        lemma_walk_paragraph(Seq::<JsonModel>::empty(), out);
        assert(crate::json::adf_walk_items(Seq::<JsonModel>::empty(), out) == out);
        assert(out.push('\n') =~= out + l + seq!['\n']);
    } else {
        assert(paragraph_model(l) == paragraph_with(seq![text_node(l)]));
        lemma_walk_paragraph(seq![text_node(l)], out);
        lemma_walk_single(text_node(l), out);
        lemma_walk_text_node(l, out);
        assert((out + l).push('\n') =~= out + l + seq!['\n']);
    }
}

proof fn lemma_nl_join_start(ls: Seq<Seq<char>>)
    ensures
        at_line_start(nl_join(ls)),
{
    if ls.len() > 0 {
        assert((nl_join(ls.drop_last()) + ls.last() + seq!['\n']).last() == '\n');
    }
}

proof fn lemma_walk_lines(ls: Seq<Seq<char>>)
    ensures
        crate::json::adf_walk_items(ls.map_values(|l: Seq<char>| paragraph_model(l)), seq![]) == nl_join(ls),
    decreases ls.len(),
{
    if ls.len() == 0 {
        assert(ls.map_values(|l: Seq<char>| paragraph_model(l)) =~= Seq::<JsonModel>::empty());
    } else {
        let d = ls.drop_last();
        lemma_walk_lines(d);
        assert(ls.map_values(|l: Seq<char>| paragraph_model(l)) =~= d.map_values(
            |l: Seq<char>| paragraph_model(l),
        ).push(paragraph_model(ls.last())));
        lemma_walk_items_push(
            d.map_values(|l: Seq<char>| paragraph_model(l)),
            paragraph_model(ls.last()),
            seq![],
        );
        lemma_nl_join_start(d);
        lemma_walk_line(ls.last(), nl_join(d));
    }
}

proof fn lemma_words_nl_join(ls: Seq<Seq<char>>)
    ensures
        crate::text::words(nl_join(ls)) == crate::text::words_all(ls),
    decreases ls.len(),
{
    if ls.len() > 0 {
        let d = ls.drop_last();
        let l = ls.last();
        lemma_words_nl_join(d);
        lemma_nl_join_start(d);
        assert(nl_join(ls) =~= nl_join(d) + (l + seq!['\n']));
        assert((l + seq!['\n'])[0] == '\n' || (l + seq!['\n'])[0] == l[0]);
        crate::text::lemma_words_concat(l, seq!['\n']);
        crate::text::lemma_words_ws_char('\n');
        assert(crate::text::words(l) + Seq::<Seq<char>>::empty() =~= crate::text::words(l));
        if nl_join(d).len() > 0 {
            assert(crate::text::is_ws(nl_join(d).last()));
        }
        crate::text::lemma_words_concat(nl_join(d), l + seq!['\n']);
    }
}

proof fn lemma_words_adf_lines_keep(ps: Seq<Seq<char>>)
    ensures
        adf_lines(ps, true).len() == ps.len(),
        crate::text::words_all(adf_lines(ps, true)) == crate::text::words_all(ps),
    decreases ps.len(),
{
    if ps.len() > 0 {
        let r = adf_lines(ps.drop_last(), true);
        let x = crate::text::trim_end(ps.last());
        lemma_words_adf_lines_keep(ps.drop_last());
        crate::text::lemma_words_trim_end(ps.last());
        assert(adf_lines(ps, true) == r.push(x));
        assert(r.push(x).drop_last() =~= r);
        assert(r.push(x).last() == x);
    }
}

/// A comment posted as an ADF document reads back as the words of its text
/// joined by single spaces: the write path and the read path agree on the
/// text up to whitespace.
pub proof fn law_adf_comment_round_trip(text: Seq<char>)
    ensures
        comment_text(adf_doc(text)) == crate::text::join(crate::text::words(text), seq![' ']),
{
    let pieces = crate::text::split_char(text, '\n');
    let keep = text.contains('\n');
    let ls = adf_lines(pieces, keep);
    let fallback = seq![
        JsonModel::Object(
            seq![("type"@, str_model("paragraph"@)), ("content"@, JsonModel::Array(seq![text_node(text)]))],
        ),
    ];
    let content = if ls.len() == 0 {
        fallback
    } else {
        ls.map_values(|l: Seq<char>| paragraph_model(l))
    };
    assert(adf_doc(text) == doc_with(content));
    lemma_walk_doc(content, seq![]);
    let walked = adf_walk(adf_doc(text), seq![]);
    assert(walked == crate::json::adf_walk_items(content, seq![]));
    crate::text::lemma_words_split(text);
    crate::text::lemma_char_from(text, '\n', 0);
    if keep {
        assert(pieces.len() > 0);
        lemma_words_adf_lines_keep(pieces);
        lemma_walk_lines(ls);
        lemma_words_nl_join(ls);
        assert(crate::text::words(walked) == crate::text::words(text));
    } else {
        let e = crate::text::char_from(text, '\n', 0);
        if e < text.len() {
            assert(text[e] == '\n');
            assert(text.contains('\n'));
        }
        assert(text.subrange(0, text.len() as int) =~= text);
        assert(pieces == seq![text]);
        crate::text::lemma_words_all_single(text);
        assert(seq![text].drop_last() =~= Seq::<Seq<char>>::empty());
        assert(seq![text].last() == text);
        let l = crate::text::trim_end(text);
        crate::text::lemma_words_trim_end(text);
        assert(pieces.drop_last() =~= Seq::<Seq<char>>::empty());
        assert(pieces.last() == text);
        assert(adf_lines(Seq::<Seq<char>>::empty(), false) == Seq::<Seq<char>>::empty());
        assert(ls == adf_lines(pieces, false));
        if l.len() > 0 {
            assert(ls =~= seq![l]);
            lemma_walk_lines(ls);
            lemma_words_nl_join(ls);
            crate::text::lemma_words_all_single(l);
        } else {
            assert(ls.len() == 0);
            lemma_walk_single(paragraph_with(seq![text_node(text)]), seq![]);
            lemma_walk_paragraph(seq![text_node(text)], seq![]);
            lemma_walk_single(text_node(text), seq![]);
            lemma_walk_text_node(text, seq![]);
            assert(walked =~= text + seq!['\n']);
            crate::text::lemma_words_concat(text, seq!['\n']);
            crate::text::lemma_words_ws_char('\n');
            assert(crate::text::words(text) + Seq::<Seq<char>>::empty() =~= crate::text::words(text));
        }
        assert(crate::text::words(walked) == crate::text::words(text));
    }
    crate::text::lemma_trim_joined_words(text);
}

} // verus!

verus! {

/// Resolving a body format never leaves `Auto`, keeps an explicit choice,
/// and resolving the result again changes nothing.
pub proof fn law_resolve_settles(f: CommentBodyFormat, base_url: Seq<char>)
    ensures
        f.resolved(base_url) != CommentBodyFormat::Auto,
        f.resolved(base_url).resolved(base_url) == f.resolved(base_url),
        f != CommentBodyFormat::Auto ==> f.resolved(base_url) == f,
{
}

proof fn lemma_slug_state_fixed(s: Seq<char>)
    requires
        forall|i: int| 0 <= i < s.len() ==> is_ascii_alnum(#[trigger] s[i]) || s[i] == '-',
        s.len() > 0 ==> s[0] != '-',
        forall|i: int| 0 <= i < s.len() - 1 ==> !(#[trigger] s[i] == '-' && s[i + 1] == '-'),
    ensures
        slug_state(s) == (s, s.len() == 0 || s.last() == '-'),
    decreases s.len(),
{
    if s.len() > 0 {
        let p = s.drop_last();
        assert forall|i: int| 0 <= i < p.len() - 1 implies !(#[trigger] p[i] == '-' && p[i + 1] == '-') by {
            assert(p[i] == s[i] && p[i + 1] == s[i + 1]);
        }
        assert forall|i: int| 0 <= i < p.len() implies is_ascii_alnum(#[trigger] p[i]) || p[i] == '-' by {
            assert(p[i] == s[i]);
        }
        if p.len() > 0 {
            assert(p[0] == s[0]);
            assert(p.last() == s[p.len() - 1]);
        }
        lemma_slug_state_fixed(p);
        assert(p.push(s.last()) =~= s);
    }
}

/// A slug with no uppercase letter is its own slug.
pub proof fn law_slug_fixes_slugs(s: Seq<char>)
    requires
        slug_shaped(s),
        forall|i: int| 0 <= i < s.len() ==> !('A' <= #[trigger] s[i] && s[i] <= 'Z'),
    ensures
        slug(s) == s,
{
    assert forall|i: int| 0 <= i < s.len() implies (#[trigger] s[i] as u32) < 128 by {
        assert(is_ascii_alnum(s[i]) || s[i] == '-');
    }
    assert(is_ascii_seq(s));
    assert(lowercase(s) =~= s) by {
        assert forall|i: int| 0 <= i < s.len() implies crate::text::ascii_lower(#[trigger] s[i]) == s[i] by {
            assert(!('A' <= s[i] && s[i] <= 'Z'));
        }
    }
    lemma_slug_state_fixed(s);
    assert(strip_trailing_char(s, '-') == s);
}

/// For an ASCII title, the slug has no uppercase letter and slugifying it
/// again gives it back unchanged.
pub proof fn law_slug_idempotent(title: Seq<char>)
    requires
        is_ascii_seq(title),
    ensures
        forall|i: int| 0 <= i < slug(title).len() ==> !('A' <= #[trigger] slug(title)[i] && slug(title)[i] <= 'Z'),
        slug(slug(title)) == slug(title),
{
    law_slug_shape(title);
    law_slug_ascii_lowercase(title);
    law_slug_fixes_slugs(slug(title));
}

} // verus!

verus! {

/// The maximal runs of ASCII letters and digits of `s`, in order.
pub open spec fn alnum_runs(s: Seq<char>) -> Seq<Seq<char>>
    decreases s.len(),
{
    if s.len() == 0 {
        seq![]
    } else {
        let r = alnum_runs(s.drop_last());
        let c = s.last();
        if !is_ascii_alnum(c) {
            r
        } else if s.len() > 1 && is_ascii_alnum(s[s.len() - 2]) && r.len() > 0 {
            r.drop_last().push(r.last().push(c))
        } else {
            r.push(seq![c])
        }
    }
}

pub open spec fn dash_if(b: bool) -> Seq<char> {
    if b {
        seq!['-']
    } else {
        seq![]
    }
}

proof fn lemma_join_extend(r: Seq<Seq<char>>, c: char)
    requires
        r.len() > 0,
    ensures
        crate::text::join(r.drop_last().push(r.last().push(c)), seq!['-']) == crate::text::join(r, seq!['-']).push(c),
{
    let n = r.drop_last().push(r.last().push(c));
    assert(n.drop_last() =~= r.drop_last());
    assert(n.last() == r.last().push(c));
    if r.len() == 1 {
        assert(n[0] == r.last().push(c));
        assert(r[0] == r.last());
    } else {
        assert(crate::text::join(r, seq!['-']) == crate::text::join(r.drop_last(), seq!['-']) + seq!['-'] + r.last());
        assert((crate::text::join(r.drop_last(), seq!['-']) + seq!['-'] + r.last()).push(c) =~= crate::text::join(
            r.drop_last(),
            seq!['-'],
        ) + seq!['-'] + r.last().push(c));
    }
}

proof fn lemma_join_push(r: Seq<Seq<char>>, x: Seq<char>)
    ensures
        crate::text::join(r.push(x), seq!['-']) == crate::text::join(r, seq!['-']) + dash_if(r.len() > 0) + x,
{
    let n = r.push(x);
    assert(n.drop_last() =~= r);
    assert(n.last() == x);
    if r.len() == 0 {
        assert(n[0] == x);
        assert(crate::text::join(r, seq!['-']) =~= seq![]);
        assert(Seq::<char>::empty() + Seq::<char>::empty() + x =~= x);
    }
}

proof fn lemma_slug_state_runs(s: Seq<char>)
    ensures
        ({
            let (out, ld) = slug_state(s);
            let r = alnum_runs(s);
            &&& ld == (s.len() == 0 || !is_ascii_alnum(s.last()))
            &&& out == crate::text::join(r, seq!['-']) + dash_if(r.len() > 0 && ld)
            &&& (s.len() > 0 && is_ascii_alnum(s.last())) ==> r.len() > 0
            &&& forall|k: int| 0 <= k < r.len() ==> (#[trigger] r[k]).len() > 0 && forall|m: int|
                0 <= m < r[k].len() ==> is_ascii_alnum(r[k][m])
        }),
    decreases s.len(),
{
    if s.len() == 0 {
        assert(crate::text::join(Seq::<Seq<char>>::empty(), seq!['-']) =~= seq![]);
        assert(Seq::<char>::empty() + dash_if(false) =~= Seq::<char>::empty());
    } else {
        let p = s.drop_last();
        let c = s.last();
        lemma_slug_state_runs(p);
        let (out0, ld0) = slug_state(p);
        let r0 = alnum_runs(p);
        let j0 = crate::text::join(r0, seq!['-']);
        if p.len() > 0 {
            assert(p.last() == s[s.len() - 2]);
        }
        if is_ascii_alnum(c) {
            if s.len() > 1 && is_ascii_alnum(s[s.len() - 2]) && r0.len() > 0 {
                lemma_join_extend(r0, c);
                assert(out0 == j0 + dash_if(false));
                assert(j0 + dash_if(false) =~= j0);
                let r = alnum_runs(s);
                assert(r == r0.drop_last().push(r0.last().push(c)));
                assert(crate::text::join(r, seq!['-']) + dash_if(false) =~= j0.push(c));
                assert forall|k: int| 0 <= k < r.len() implies (#[trigger] r[k]).len() > 0 && forall|m: int|
                    0 <= m < r[k].len() ==> is_ascii_alnum(r[k][m]) by {
                    if k < r.len() - 1 {
                        assert(r[k] == r0[k]);
                    } else {
                        assert(r[k] == r0[r0.len() - 1].push(c));
                        assert forall|m: int| 0 <= m < r[k].len() implies is_ascii_alnum(r[k][m]) by {
                            if m < r0[r0.len() - 1].len() {
                                assert(r[k][m] == r0[r0.len() - 1][m]);
                            }
                        }
                    }
                }
            } else {
                lemma_join_push(r0, seq![c]);
                assert(ld0);
                assert(out0.push(c) =~= j0 + dash_if(r0.len() > 0) + seq![c]);
                let r = alnum_runs(s);
                assert(r == r0.push(seq![c]));
                assert(crate::text::join(r, seq!['-']) + dash_if(false) =~= crate::text::join(r, seq!['-']));
                assert forall|k: int| 0 <= k < r.len() implies (#[trigger] r[k]).len() > 0 && forall|m: int|
                    0 <= m < r[k].len() ==> is_ascii_alnum(r[k][m]) by {
                    if k < r.len() - 1 {
                        assert(r[k] == r0[k]);
                    } else {
                        assert(r[k] == seq![c]);
                    }
                }
            }
        } else {
            assert(alnum_runs(s) == r0);
            if !ld0 {
                assert(r0.len() > 0);
                assert(out0 == j0 + dash_if(false));
                assert(j0 + dash_if(false) =~= j0);
                assert(out0.push('-') =~= j0 + dash_if(true));
            }
        }
    }
}

/// The slug of a title is the maximal runs of ASCII letters and digits of
/// its lowercase form joined by `-`, or `topic` when there is none.
pub proof fn law_slug_runs(title: Seq<char>)
    ensures
        slug(title) == if alnum_runs(lowercase(title)).len() == 0 {
            topic_word()
        } else {
            crate::text::join(alnum_runs(lowercase(title)), seq!['-'])
        },
{
    let s = lowercase(title);
    lemma_slug_state_runs(s);
    let (out, ld) = slug_state(s);
    let r = alnum_runs(s);
    let j = crate::text::join(r, seq!['-']);
    crate::text::lemma_join_ends(r, seq!['-']);
    if r.len() == 0 {
        assert(j =~= seq![]);
        assert(out =~= Seq::<char>::empty());
    } else {
        assert(j.last() == r.last().last());
        assert(r.last() == r[r.len() - 1]);
        assert(is_ascii_alnum(r[r.len() - 1][r[r.len() - 1].len() - 1]));
        assert(j.last() != '-');
        assert(strip_trailing_char(j, '-') == j);
        if ld {
            assert((j + seq!['-']).drop_last() =~= j);
            assert(out == j + seq!['-']);
        } else {
            assert(out =~= j);
        }
        assert(j.len() > 0);
    }
}

} // verus!

verus! {

/// The section written for one comment: its author, its time and its body
/// trimmed.
pub open spec fn comment_section_text(c: (String, String, String)) -> Seq<char> {
    "\n## Comment by "@ + c.0@ + " ("@ + c.1@ + ")\n\n"@ + crate::text::trim(c.2@) + "\n"@
}

/// The sections of consecutive comments follow one another: the sections of
/// `a` then `b` are the sections of `a` followed by those of `b`.
pub proof fn law_draft_sections_concat(a: Seq<(String, String, String)>, b: Seq<(String, String, String)>)
    ensures
        draft_sections(a + b) == draft_sections(a) + draft_sections(b),
    decreases b.len(),
{
    if b.len() == 0 {
        assert(a + b =~= a);
        assert(draft_sections(a) + draft_sections(b) =~= draft_sections(a));
    } else {
        law_draft_sections_concat(a, b.drop_last());
        assert((a + b).drop_last() =~= a + b.drop_last());
        assert((a + b).last() == b.last());
        assert(draft_sections(a) + (draft_sections(b.drop_last()) + draft_section(b.last()))
            =~= (draft_sections(a) + draft_sections(b.drop_last())) + draft_section(b.last()));
    }
}

/// Every comment gets its own section, in order: the draft's sections are
/// those of the comments before comment `k`, then comment `k`'s author, time
/// and trimmed body, then the sections of the comments after it.
pub proof fn law_draft_has_every_comment(cs: Seq<(String, String, String)>, k: int)
    requires
        0 <= k < cs.len(),
    ensures
        draft_sections(cs) == draft_sections(cs.take(k)) + comment_section_text(cs[k]) + draft_sections(
            cs.skip(k + 1),
        ),
        crate::text::contains(draft_sections(cs), comment_section_text(cs[k])),
{
    assert(cs =~= cs.take(k) + (seq![cs[k]] + cs.skip(k + 1)));
    law_draft_sections_concat(cs.take(k), seq![cs[k]] + cs.skip(k + 1));
    law_draft_sections_concat(seq![cs[k]], cs.skip(k + 1));
    assert(seq![cs[k]].drop_last() =~= Seq::<(String, String, String)>::empty());
    assert(seq![cs[k]].last() == cs[k]);
    assert(draft_sections(Seq::<(String, String, String)>::empty()) =~= Seq::<char>::empty());
    assert(draft_section(cs[k]) =~= comment_section_text(cs[k]));
    assert(Seq::<char>::empty() + draft_section(cs[k]) =~= draft_section(cs[k]));
    assert(draft_sections(seq![cs[k]]) =~= comment_section_text(cs[k]));
    let pre = draft_sections(cs.take(k));
    let all = draft_sections(cs);
    let sec = comment_section_text(cs[k]);
    assert(all =~= pre + sec + draft_sections(cs.skip(k + 1)));
    assert(all.subrange(pre.len() as int, (pre.len() + sec.len()) as int) =~= sec);
    assert(crate::text::occurs_at(all, sec, pre.len() as int));
}

} // verus!
