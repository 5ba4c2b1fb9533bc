//! Scaffold new responses: ids and check-clean markdown.

use vstd::prelude::*;
use vstd::string::StringExecFns;
use crate::config::DEFAULT_PREFIX;
use crate::corpus::{opt_view, string_views, CannedResponse};
use crate::jira_import::{slug, slugify};
use crate::text::{
    ascii_alnum, chars_of, decimal, is_ascii_alnum, push_chars, starts_with, string_of, trim, trim_chars,
};

verus! {

/// Default team closing used by scaffolds (passes the personal-signature rule).
pub const TEAM_SIGN_OFF: &'static str = "Regards,\nSupport Team\n";

/// Placeholder body of a scaffold without one.
pub const PLACEHOLDER_BODY: &'static str =
    "Replace this paragraph with the shared team answer. Keep the team sign-off below.";

/// Options for rendering a new canned-response markdown file.
#[derive(Debug, Clone)]
pub struct ScaffoldOptions {
    /// Human title (also used for the H1 and default id slug).
    pub title: String,
    /// Explicit id (`resp-…`); when `None`, derived as `resp-<slugify(title)>`.
    pub id: Option<String>,
    /// Front-matter `sop` (Confluence URL or `none`).
    pub sop: String,
    /// Optional tags (without brackets).
    pub tags: Vec<String>,
    /// Optional body paragraphs (between greeting and sign-off). Empty gives a placeholder.
    pub body: Option<String>,
}

impl Default for ScaffoldOptions {
    fn default() -> (r: Self)
        ensures
            r.title@.len() == 0,
            r.id is None,
            r.sop@ == "none"@,
            r.tags@.len() == 0,
            r.body is None,
    {
        ScaffoldOptions {
            title: String::new(),
            id: None,
            sop: String::from_str("none"),
            tags: Vec::new(),
            body: None,
        }
    }
}

/// Why a scaffold could not be made.
#[derive(Debug, Clone, PartialEq, Eq)]
pub enum ScaffoldError {
    /// The id is empty.
    EmptyId,
    /// The id does not start with `resp-`.
    BadPrefix(String),
    /// Nothing, or something other than ASCII letters, digits and `-`, after `resp-`.
    UnsafeId(String),
    /// The title is blank.
    EmptyTitle,
    /// The sop is blank.
    EmptySop,
}

/// Mathematical model of [`ScaffoldError`].
pub enum ScaffoldErrorKind {
    EmptyId,
    BadPrefix(Seq<char>),
    UnsafeId(Seq<char>),
    EmptyTitle,
    EmptySop,
}

impl View for ScaffoldError {
    type V = ScaffoldErrorKind;

    open spec fn view(&self) -> ScaffoldErrorKind {
        match self {
            ScaffoldError::EmptyId => ScaffoldErrorKind::EmptyId,
            ScaffoldError::BadPrefix(s) => ScaffoldErrorKind::BadPrefix(s@),
            ScaffoldError::UnsafeId(s) => ScaffoldErrorKind::UnsafeId(s@),
            ScaffoldError::EmptyTitle => ScaffoldErrorKind::EmptyTitle,
            ScaffoldError::EmptySop => ScaffoldErrorKind::EmptySop,
        }
    }
}

pub open spec fn scaffold_result_view(r: Result<String, ScaffoldError>) -> Result<
    Seq<char>,
    ScaffoldErrorKind,
> {
    match r {
        Ok(s) => Ok(s@),
        Err(e) => Err(e@),
    }
}

pub open spec fn id_prefix() -> Seq<char> {
    seq!['r', 'e', 's', 'p', '-']
}

/// The id a scaffold asks for: the explicit id trimmed, else `resp-` and the
/// slug of the title.
pub open spec fn requested_id(id: Option<Seq<char>>, title: Seq<char>) -> Seq<char> {
    match id {
        Some(i) => trim(i),
        None => id_prefix() + slug(title),
    }
}

/// Whether `raw` is a usable response id: `resp-` followed by at least one
/// character, all ASCII letters, digits or `-`.
pub open spec fn response_id_result(raw: Seq<char>) -> Result<Seq<char>, ScaffoldErrorKind> {
    if raw.len() == 0 {
        Err(ScaffoldErrorKind::EmptyId)
    } else if !starts_with(raw, id_prefix()) {
        Err(ScaffoldErrorKind::BadPrefix(raw))
    } else if raw.len() == 5 || !(forall|i: int|
        5 <= i < raw.len() ==> (is_ascii_alnum(#[trigger] raw[i]) || raw[i] == '-')) {
        Err(ScaffoldErrorKind::UnsafeId(raw))
    } else {
        Ok(raw)
    }
}

/// Resolve a stable `resp-` id from options (or title).
pub fn resolve_response_id(opts: &ScaffoldOptions) -> (r: Result<String, ScaffoldError>)
    ensures
        scaffold_result_view(r) == response_id_result(requested_id(opt_view(opts.id), opts.title@)),
{
    let raw: Vec<char> = match &opts.id {
        Some(id) => trim_chars(&chars_of(id.as_str())),
        None => {
            let mut v = vec!['r', 'e', 's', 'p', '-'];
            assert(v@ =~= id_prefix());
            let s = slugify(opts.title.as_str());
            let sv = chars_of(s.as_str());
            let mut k: usize = 0;
            let ghost v0 = v@;
            while k < sv.len()
                invariant
                    k <= sv.len(),
                    v@ == v0 + sv@.take(k as int),
                decreases sv.len() - k,
            {
                v.push(sv[k]);
                assert(v@ =~= v0 + sv@.take(k + 1));
                k += 1;
            }
            assert(sv@.take(sv.len() as int) =~= sv@);
            v
        },
    };
    if raw.len() == 0 {
        return Err(ScaffoldError::EmptyId);
    }
    let pre = vec!['r', 'e', 's', 'p', '-'];
    assert(pre@ =~= id_prefix());
    if !crate::text::starts_with_chars(&raw, &pre) {
        return Err(ScaffoldError::BadPrefix(string_of(&raw)));
    }
    if raw.len() == 5 {
        return Err(ScaffoldError::UnsafeId(string_of(&raw)));
    }
    let mut k: usize = 5;
    while k < raw.len()
        invariant
            5 <= k <= raw.len(),
            raw@.len() > 5,
            starts_with(raw@, id_prefix()),
            raw@ == requested_id(opt_view(opts.id), opts.title@),
            forall|i: int| 5 <= i < k ==> (is_ascii_alnum(#[trigger] raw@[i]) || raw@[i] == '-'),
        decreases raw.len() - k,
    {
        let c = raw[k];
        if !(ascii_alnum(c) || c == '-') {
            assert(!(is_ascii_alnum(raw@[k as int]) || raw@[k as int] == '-'));
            assert(!(forall|i: int|
                5 <= i < raw@.len() ==> (is_ascii_alnum(#[trigger] raw@[i]) || raw@[i] == '-')));
            return Err(ScaffoldError::UnsafeId(string_of(&raw)));
        }
        k += 1;
    }
    Ok(string_of(&raw))
}

} // verus!

verus! {

/// Tags trimmed, blank ones dropped.
pub open spec fn kept_tags(tags: Seq<Seq<char>>) -> Seq<Seq<char>>
    decreases tags.len(),
{
    if tags.len() == 0 {
        seq![]
    } else {
        let rest = kept_tags(tags.drop_last());
        let t = trim(tags.last());
        if t.len() > 0 {
            rest.push(t)
        } else {
            rest
        }
    }
}

/// Items joined with `, `.
pub open spec fn join_comma(ts: Seq<Seq<char>>) -> Seq<char>
    decreases ts.len(),
{
    if ts.len() == 0 {
        seq![]
    } else if ts.len() == 1 {
        ts[0]
    } else {
        join_comma(ts.drop_last()) + ", "@ + ts.last()
    }
}

/// The front-matter `tags` value of a scaffold.
pub open spec fn tags_text(tags: Seq<Seq<char>>) -> Seq<char> {
    if tags.len() == 0 {
        "[]"@
    } else {
        "["@ + join_comma(kept_tags(tags)) + "]"@
    }
}

/// The body of a scaffold: the given one trimmed, else the placeholder.
pub open spec fn body_text(body: Option<Seq<char>>) -> Seq<char> {
    match body {
        Some(b) => if trim(b).len() > 0 {
            trim(b)
        } else {
            PLACEHOLDER_BODY@
        },
        None => PLACEHOLDER_BODY@,
    }
}

/// The markdown of a scaffold with the given id.
pub open spec fn scaffold_text(
    id: Seq<char>,
    title: Seq<char>,
    tags: Seq<char>,
    sop: Seq<char>,
    body: Seq<char>,
) -> Seq<char> {
    "---\nid: "@ + id + "\ntitle: "@ + title + "\nprefix: "@ + DEFAULT_PREFIX@ + "\ntags: "@ + tags
        + "\nsop: "@ + sop + "\n---\n\n# "@ + title + "\n\nHello,\n\n"@ + body + "\n\n"@
        + TEAM_SIGN_OFF@
}

/// What `scaffold_markdown` gives: a blank title or sop, or an unusable id,
/// is refused (title first, then id, then sop); otherwise the markdown.
pub open spec fn scaffold_result(
    title: Seq<char>,
    id: Option<Seq<char>>,
    sop: Seq<char>,
    tags: Seq<Seq<char>>,
    body: Option<Seq<char>>,
) -> Result<Seq<char>, ScaffoldErrorKind> {
    if trim(title).len() == 0 {
        Err(ScaffoldErrorKind::EmptyTitle)
    } else {
        match response_id_result(requested_id(id, title)) {
            Err(e) => Err(e),
            Ok(rid) => if trim(sop).len() == 0 {
                Err(ScaffoldErrorKind::EmptySop)
            } else {
                Ok(scaffold_text(rid, trim(title), tags_text(tags), trim(sop), body_text(body)))
            },
        }
    }
}

fn tags_string(tags: &Vec<String>) -> (r: String)
    ensures
        r@ == tags_text(string_views(tags@)),
{
    if tags.len() == 0 {
        return String::from_str("[]");
    }
    let mut kept: Vec<Vec<char>> = Vec::new();
    let mut k: usize = 0;
    while k < tags.len()
        invariant
            k <= tags.len(),
            crate::text::views(kept@) == kept_tags(string_views(tags@).take(k as int)),
        decreases tags.len() - k,
    {
        assert(string_views(tags@).take(k + 1).drop_last() =~= string_views(tags@).take(k as int));
        assert(string_views(tags@).take(k + 1).last() == tags@[k as int]@);
        let t = trim_chars(&chars_of(tags[k].as_str()));
        let ghost prev = crate::text::views(kept@);
        if t.len() > 0 {
            kept.push(t);
            assert(crate::text::views(kept@) =~= prev.push(t@));
        }
        k += 1;
    }
    assert(string_views(tags@).take(tags.len() as int) =~= string_views(tags@));
    let mut s = String::from_str("[");
    let ghost head = s@;
    let mut j: usize = 0;
    while j < kept.len()
        invariant
            j <= kept.len(),
            s@ == head + join_comma(crate::text::views(kept@).take(j as int)),
        decreases kept.len() - j,
    {
        let ghost ks = crate::text::views(kept@);
        assert(ks.take(j + 1).drop_last() =~= ks.take(j as int));
        if j > 0 {
            s.append(", ");
        }
        push_chars(&mut s, &kept[j]);
        assert(ks.take(j + 1).last() == kept@[j as int]@);
        if j == 0 {
            assert(ks.take(1)[0] == kept@[0]@);
        }
        assert(s@ =~= head + join_comma(ks.take(j + 1)));
        j += 1;
    }
    assert(crate::text::views(kept@).take(kept.len() as int) =~= crate::text::views(kept@));
    s.append("]");
    s
}

/// Render check-clean markdown for a new response (pure; no I/O).
pub fn scaffold_markdown(opts: &ScaffoldOptions) -> (r: Result<String, ScaffoldError>)
    ensures
        scaffold_result_view(r) == scaffold_result(
            opts.title@,
            opt_view(opts.id),
            opts.sop@,
            string_views(opts.tags@),
            opt_view(opts.body),
        ),
{
    let title = trim_chars(&chars_of(opts.title.as_str()));
    if title.len() == 0 {
        return Err(ScaffoldError::EmptyTitle);
    }
    let id = match resolve_response_id(opts) {
        Ok(id) => id,
        Err(e) => {
            return Err(e);
        },
    };
    let sop = trim_chars(&chars_of(opts.sop.as_str()));
    if sop.len() == 0 {
        return Err(ScaffoldError::EmptySop);
    }
    let tags = tags_string(&opts.tags);
    let body: Vec<char> = match &opts.body {
        Some(b) => {
            let t = trim_chars(&chars_of(b.as_str()));
            if t.len() > 0 {
                t
            } else {
                chars_of(PLACEHOLDER_BODY)
            }
        },
        None => chars_of(PLACEHOLDER_BODY),
    };
    let mut s = String::from_str("---\nid: ");
    s.append(id.as_str());
    s.append("\ntitle: ");
    push_chars(&mut s, &title);
    s.append("\nprefix: ");
    s.append(DEFAULT_PREFIX);
    s.append("\ntags: ");
    s.append(tags.as_str());
    s.append("\nsop: ");
    push_chars(&mut s, &sop);
    s.append("\n---\n\n# ");
    push_chars(&mut s, &title);
    s.append("\n\nHello,\n\n");
    push_chars(&mut s, &body);
    s.append("\n\n");
    s.append(TEAM_SIGN_OFF);
    assert(s@ =~= scaffold_text(id@, title@, tags@, sop@, body@));
    Ok(s)
}

} // verus!

verus! {

pub open spec fn scaffold_error_text(e: ScaffoldErrorKind) -> Seq<char> {
    match e {
        ScaffoldErrorKind::EmptyId => "response id is empty"@,
        ScaffoldErrorKind::BadPrefix(raw) => "id must start with `resp-` (got `"@ + raw
            + "`); pass --id or a title that slugifies cleanly"@,
        ScaffoldErrorKind::UnsafeId(raw) => "id `"@ + raw
            + "` contains characters that are not safe for a markdown filename stem"@,
        ScaffoldErrorKind::EmptyTitle => "title must be non-empty"@,
        ScaffoldErrorKind::EmptySop => "sop must be non-empty (use the literal `none` if there is no SOP URL)"@,
    }
}

impl ScaffoldError {
    /// The error text.
    pub fn message(&self) -> (r: String)
        ensures
            r@ == scaffold_error_text(self@),
    {
        match self {
            ScaffoldError::EmptyId => String::from_str("response id is empty"),
            ScaffoldError::BadPrefix(raw) => {
                let mut s = String::from_str("id must start with `resp-` (got `");
                s.append(raw.as_str());
                s.append("`); pass --id or a title that slugifies cleanly");
                s
            },
            ScaffoldError::UnsafeId(raw) => {
                let mut s = String::from_str("id `");
                s.append(raw.as_str());
                s.append("` contains characters that are not safe for a markdown filename stem");
                s
            },
            ScaffoldError::EmptyTitle => String::from_str("title must be non-empty"),
            ScaffoldError::EmptySop => String::from_str(
                "sop must be non-empty (use the literal `none` if there is no SOP URL)",
            ),
        }
    }
}

/// Where a response with this id is stored under `dir`.
pub open spec fn response_file(dir: Seq<char>, id: Seq<char>) -> Seq<char> {
    crate::text::join_path(dir, id + ".md"@)
}

pub(crate) fn response_file_exec(dir: &str, id: &String) -> (r: String)
    ensures
        r@ == response_file(dir@, id@),
{
    let mut name = chars_of(id.as_str());
    name.push('.');
    name.push('m');
    name.push('d');
    proof {
        reveal_strlit(".md");
    }
    assert(name@ =~= id@ + ".md"@);
    crate::text::join_path_str(dir, &name)
}

/// The file a scaffold is written to under `dir` and its text: the id is
/// resolved first, then the markdown rendered.
pub open spec fn scaffold_file_result(
    dir: Seq<char>,
    title: Seq<char>,
    id: Option<Seq<char>>,
    sop: Seq<char>,
    tags: Seq<Seq<char>>,
    body: Option<Seq<char>>,
) -> Result<(Seq<char>, Seq<char>), ScaffoldErrorKind> {
    match response_id_result(requested_id(id, title)) {
        Err(e) => Err(e),
        Ok(rid) => match scaffold_result(title, id, sop, tags, body) {
            Err(e) => Err(e),
            Ok(t) => Ok((response_file(dir, rid), t)),
        },
    }
}

/// The path under `dir` and the text of a new response.
pub fn scaffold_file(dir: &str, opts: &ScaffoldOptions) -> (r: Result<(String, String), ScaffoldError>)
    ensures
        match r {
            Ok((p, t)) => scaffold_file_result(
                dir@,
                opts.title@,
                opt_view(opts.id),
                opts.sop@,
                string_views(opts.tags@),
                opt_view(opts.body),
            ) == Ok::<(Seq<char>, Seq<char>), ScaffoldErrorKind>((p@, t@)),
            Err(e) => scaffold_file_result(
                dir@,
                opts.title@,
                opt_view(opts.id),
                opts.sop@,
                string_views(opts.tags@),
                opt_view(opts.body),
            ) == Err::<(Seq<char>, Seq<char>), ScaffoldErrorKind>(e@),
        },
{
    let id = match resolve_response_id(opts) {
        Ok(id) => id,
        Err(e) => return Err(e),
    };
    let text = match scaffold_markdown(opts) {
        Ok(t) => t,
        Err(e) => return Err(e),
    };
    Ok((response_file_exec(dir, &id), text))
}

/// One line of a promotion refusal: `  [code] message`.
pub open spec fn refusal_line(f: crate::check::FindingView) -> Seq<char> {
    "  ["@ + f.2 + "] "@ + f.3
}

/// Why a draft is not promoted: the findings of its check.
pub open spec fn refusal_text(path: Seq<char>, fs: Seq<crate::check::FindingView>) -> Seq<char> {
    "refuse to promote "@ + path + ": quality check failed ("@ + decimal(fs.len())
        + " finding(s)):\n"@ + crate::text::join(fs.map_values(|f: crate::check::FindingView| refusal_line(f)), "\n"@)
        + "\nEdit the draft until `canonic check --corpus <dir>` is clean, then promote again."@
}

/// Where a draft is promoted to under `dest_dir`, or why it is refused: a
/// draft is promoted only when it checks clean, to the file named after its
/// id.
pub open spec fn promote_result(doc: CannedResponse, dest_dir: Seq<char>) -> Result<Seq<char>, Seq<char>> {
    let fs = crate::tui::doc_report(doc);
    if fs.len() == 0 {
        Ok(response_file(dest_dir, doc.id@))
    } else {
        Err(refusal_text(doc.path@, fs))
    }
}

/// Decide the promotion of a draft read from disk into `dest_dir`: its
/// destination, or the refusal text.
pub fn promote_plan(doc: &CannedResponse, dest_dir: &str) -> (r: Result<String, String>)
    ensures
        match r {
            Ok(p) => promote_result(*doc, dest_dir@) == Ok::<Seq<char>, Seq<char>>(p@),
            Err(m) => promote_result(*doc, dest_dir@) == Err::<Seq<char>, Seq<char>>(m@),
        },
{
    let report = crate::check::check_doc(doc, DEFAULT_PREFIX);
    let ghost fs = crate::check::findings_view(report.findings@);
    assert(fs.len() == report.findings@.len());
    if report.ok() {
        return Ok(response_file_exec(dest_dir, &doc.id));
    }
    let mut parts: Vec<Vec<char>> = Vec::new();
    let mut k: usize = 0;
    while k < report.findings.len()
        invariant
            k <= report.findings.len(),
            fs == crate::check::findings_view(report.findings@),
            crate::text::views(parts@) == fs.take(k as int).map_values(
                |f: crate::check::FindingView| refusal_line(f),
            ),
        decreases report.findings.len() - k,
    {
        let f = &report.findings[k];
        let mut line = String::from_str("  [");
        line.append(f.code.as_str());
        line.append("] ");
        line.append(f.message.as_str());
        let lv = chars_of(line.as_str());
        let ghost prev = parts@;
        parts.push(lv);
        proof {
            crate::text::lemma_views_push(prev, lv);
        }
        assert(fs.take(k + 1).map_values(|f: crate::check::FindingView| refusal_line(f))
            =~= fs.take(k as int).map_values(|f: crate::check::FindingView| refusal_line(f)).push(
            refusal_line(fs[k as int]),
        ));
        k += 1;
    }
    assert(fs.take(fs.len() as int) =~= fs);
    let nl = vec!['\n'];
    proof {
        reveal_strlit("\n");
    }
    assert(nl@ =~= "\n"@);
    let detail = crate::text::join_chars(&parts, &nl);
    let mut m = String::from_str("refuse to promote ");
    m.append(doc.path.as_str());
    m.append(": quality check failed (");
    crate::text::push_decimal(&mut m, report.findings.len());
    m.append(" finding(s)):\n");
    push_chars(&mut m, &detail);
    m.append("\nEdit the draft until `canonic check --corpus <dir>` is clean, then promote again.");
    Err(m)
}

} // verus!

verus! {

/// Without an explicit id, the id of a scaffold is always usable: `resp-`
/// followed by the slug of the title.
pub proof fn law_default_id_valid(title: Seq<char>)
    ensures
        response_id_result(requested_id(None, title)) == Ok::<Seq<char>, ScaffoldErrorKind>(
            id_prefix() + slug(title),
        ),
{
    crate::jira_import::law_slug_shape(title);
    let raw = id_prefix() + slug(title);
    assert(raw.subrange(0, 5) =~= id_prefix());
    assert(starts_with(raw, id_prefix()));
    assert forall|i: int| 5 <= i < raw.len() implies (is_ascii_alnum(#[trigger] raw[i]) || raw[i] == '-') by {
        assert(raw[i] == slug(title)[i - 5]);
    }
}

} // verus!

verus! {

proof fn lemma_concat_lacks(a: Seq<char>, b: Seq<char>, c: char)
    requires
        !a.contains(c),
        !b.contains(c),
    ensures
        !(a + b).contains(c),
{
    if (a + b).contains(c) {
        let k = choose|k: int| 0 <= k < (a + b).len() && (a + b)[k] == c;
        if k < a.len() {
            assert(a[k] == c);
        } else {
            assert(b[k - a.len()] == c);
        }
    }
}

/// What a usable id is made of: `resp-` and then ASCII letters, digits and
/// `-` only.
proof fn lemma_id_chars(rid: Seq<char>)
    requires
        response_id_result(rid) == Ok::<Seq<char>, ScaffoldErrorKind>(rid),
    ensures
        rid.len() > 5,
        rid[0] == 'r',
        forall|i: int| 0 <= i < rid.len() ==> is_ascii_alnum(#[trigger] rid[i]) || rid[i] == '-',
        !rid.contains('\n'),
        !rid.contains(':'),
        !rid.contains('/'),
        !rid.contains('.'),
        !crate::text::is_ws(rid.last()),
{
    assert(starts_with(rid, id_prefix()));
    assert(rid.subrange(0, 5) == id_prefix());
    assert forall|i: int| 0 <= i < rid.len() implies is_ascii_alnum(#[trigger] rid[i]) || rid[i] == '-' by {
        if i < 5 {
            assert(rid[i] == rid.subrange(0, 5)[i]);
        }
    }
    assert(rid[0] == rid.subrange(0, 5)[0]);
    assert(is_ascii_alnum(rid[rid.len() - 1]) || rid[rid.len() - 1] == '-');
}

/// The scaffold's front-matter block and the text after it.
pub open spec fn scaffold_block(id: Seq<char>, title: Seq<char>, tags: Seq<char>, sop: Seq<char>) -> Seq<char> {
    crate::corpus::key_id() + seq![':', ' '] + id + seq!['\n'] + (crate::corpus::key_title() + seq![':', ' '] + title
        + seq!['\n'] + (crate::corpus::key_prefix() + seq![':', ' '] + DEFAULT_PREFIX@ + seq!['\n'] + (
    crate::corpus::key_tags() + seq![':', ' '] + tags + seq!['\n'] + (crate::corpus::key_sop() + seq![
        ':',
        ' ',
    ] + sop))))
}

pub open spec fn scaffold_content(title: Seq<char>, body: Seq<char>) -> Seq<char> {
    seq!['#', ' '] + title + seq!['\n'] + (seq!['\n'] + ("Hello,"@ + seq!['\n'] + seq!['\n'])) + (body
        + seq!['\n'] + (seq!['\n'] + ("Regards,"@ + seq!['\n'] + ("Support Team"@ + seq!['\n']))))
}

proof fn lemma_scaffold_shape(id: Seq<char>, title: Seq<char>, tags: Seq<char>, sop: Seq<char>, body: Seq<char>)
    ensures
        scaffold_text(id, title, tags, sop, body) == seq!['-', '-', '-', '\n'] + scaffold_block(
            id,
            title,
            tags,
            sop,
        ) + seq!['\n', '-', '-', '-', '\n', '\n'] + scaffold_content(title, body),
{
    reveal_strlit("---\nid: ");
    reveal_strlit("\ntitle: ");
    reveal_strlit("\nprefix: ");
    reveal_strlit("resp");
    reveal_strlit("\ntags: ");
    reveal_strlit("\nsop: ");
    reveal_strlit("\n---\n\n# ");
    reveal_strlit("\n\nHello,\n\n");
    reveal_strlit("\n\n");
    reveal_strlit("Regards,\nSupport Team\n");
    reveal_strlit("Hello,");
    reveal_strlit("Regards,");
    reveal_strlit("Support Team");
    assert(scaffold_text(id, title, tags, sop, body) =~= seq!['-', '-', '-', '\n'] + scaffold_block(
        id,
        title,
        tags,
        sop,
    ) + seq!['\n', '-', '-', '-', '\n', '\n'] + scaffold_content(title, body));
}

} // verus!

verus! {

/// A front-matter value that reads back as itself: one line, not blank at
/// either end.
pub open spec fn clean_value(v: Seq<char>) -> bool {
    &&& v.len() > 0
    &&& !crate::text::is_ws(v[0])
    &&& !crate::text::is_ws(v.last())
    &&& !v.contains('\n')
}

proof fn lemma_key_line(key: Seq<char>, v: Seq<char>)
    requires
        key.len() > 0,
        !crate::text::is_ws(key[0]),
        !crate::text::is_ws(key.last()),
        key[0] != '#',
        key[0] != '-',
        !key.contains(':'),
        !key.contains('\n'),
        clean_value(v),
    ensures
        ({
            let line = key + seq![':', ' '] + v;
            &&& crate::corpus::entry_of(line) == Some((key, v))
            &&& !line.contains('\n')
            &&& line.len() > 0
            &&& line[0] == key[0]
            &&& line[0] != '-'
            &&& crate::text::strip_cr(line) == line
        }),
{
    let line = key + seq![':', ' '] + v;
    crate::corpus::lemma_entry_line(key, v);
    lemma_concat_lacks(key, seq![':', ' '], '\n');
    lemma_concat_lacks(key + seq![':', ' '], v, '\n');
    assert(line.last() == v.last());
    assert(line[0] == key[0]);
}

/// The scaffold's front matter reads back as its five entries.
proof fn lemma_scaffold_block(id: Seq<char>, title: Seq<char>, tags: Seq<char>, sop: Seq<char>)
    requires
        clean_value(id),
        clean_value(title),
        clean_value(tags),
        clean_value(sop),
    ensures
        ({
            let b = scaffold_block(id, title, tags, sop);
            &&& b.len() > 0
            &&& b[0] == 'i'
            &&& crate::corpus::no_fence_break(b)
            &&& crate::corpus::entries(crate::text::lines(b)) == seq![
                (crate::corpus::key_id(), id),
                (crate::corpus::key_title(), title),
                (crate::corpus::key_prefix(), DEFAULT_PREFIX@),
                (crate::corpus::key_tags(), tags),
                (crate::corpus::key_sop(), sop),
            ]
        }),
{
    reveal_strlit("resp");
    let k1 = crate::corpus::key_id();
    let k2 = crate::corpus::key_title();
    let k3 = crate::corpus::key_prefix();
    let k4 = crate::corpus::key_tags();
    let k5 = crate::corpus::key_sop();
    let p = DEFAULT_PREFIX@;
    assert(p =~= seq!['r', 'e', 's', 'p']);
    assert(clean_value(p));
    assert(!p.contains('\n'));
    let l1 = k1 + seq![':', ' '] + id;
    let l2 = k2 + seq![':', ' '] + title;
    let l3 = k3 + seq![':', ' '] + p;
    let l4 = k4 + seq![':', ' '] + tags;
    let l5 = k5 + seq![':', ' '] + sop;
    assert(!k1.contains(':') && !k1.contains('\n'));
    assert(!k2.contains(':') && !k2.contains('\n'));
    assert(!k3.contains(':') && !k3.contains('\n'));
    assert(!k4.contains(':') && !k4.contains('\n'));
    assert(!k5.contains(':') && !k5.contains('\n'));
    lemma_key_line(k1, id);
    lemma_key_line(k2, title);
    lemma_key_line(k3, p);
    lemma_key_line(k4, tags);
    lemma_key_line(k5, sop);
    let r4 = l4 + seq!['\n'] + l5;
    let r3 = l3 + seq!['\n'] + r4;
    let r2 = l2 + seq!['\n'] + r3;
    let b = l1 + seq!['\n'] + r2;
    assert(b =~= scaffold_block(id, title, tags, sop));
    crate::corpus::lemma_no_fence_break_line(l5);
    crate::corpus::lemma_no_fence_break_join(l4, l5);
    assert(r4[0] == 't');
    crate::corpus::lemma_no_fence_break_join(l3, r4);
    assert(r3[0] == 'p');
    crate::corpus::lemma_no_fence_break_join(l2, r3);
    assert(r2[0] == 't');
    crate::corpus::lemma_no_fence_break_join(l1, r2);
    crate::text::lemma_lines_single(l5);
    crate::text::lemma_lines_first(l4, l5);
    crate::text::lemma_lines_first(l3, r4);
    crate::text::lemma_lines_first(l2, r3);
    crate::text::lemma_lines_first(l1, r2);
    let ls = crate::text::lines(b);
    assert(ls =~= seq![l1, l2, l3, l4, l5]);
    let es = crate::corpus::entries(ls);
    assert(ls.drop_last() =~= seq![l1, l2, l3, l4]);
    assert(ls.drop_last().drop_last() =~= seq![l1, l2, l3]);
    assert(ls.drop_last().drop_last().drop_last() =~= seq![l1, l2]);
    assert(ls.drop_last().drop_last().drop_last().drop_last() =~= seq![l1]);
    assert(seq![l1].drop_last() =~= Seq::<Seq<char>>::empty());
    assert(seq![l1].last() == l1);
    assert(crate::corpus::entries(Seq::<Seq<char>>::empty()) =~= seq![]);
    assert(crate::corpus::entries(seq![l1]) =~= seq![(k1, id)]);
    assert(crate::corpus::entries(seq![l1, l2]) =~= seq![(k1, id), (k2, title)]);
    assert(crate::corpus::entries(seq![l1, l2, l3]) =~= seq![(k1, id), (k2, title), (k3, p)]);
    assert(crate::corpus::entries(seq![l1, l2, l3, l4]) =~= seq![(k1, id), (k2, title), (k3, p), (k4, tags)]);
    assert(es =~= seq![(k1, id), (k2, title), (k3, p), (k4, tags), (k5, sop)]);
}

} // verus!

verus! {

proof fn lemma_scaffold_content_lines(title: Seq<char>, body: Seq<char>)
    requires
        clean_value(title),
        body.len() > 0,
        !crate::text::is_ws(body.last()),
    ensures
        crate::text::lines(scaffold_content(title, body)) == seq![seq!['#', ' '] + title, seq![], "Hello,"@, seq![]]
            + crate::text::lines(body) + seq![seq![], "Regards,"@, "Support Team"@],
{
    reveal_strlit("Hello,");
    reveal_strlit("Regards,");
    reveal_strlit("Support Team");
    let e: Seq<char> = seq![];
    let nl = seq!['\n'];
    let h = seq!['#', ' '] + title;
    lemma_concat_lacks(seq!['#', ' '], title, '\n');
    assert(h.last() == title.last());
    assert(crate::text::strip_cr(h) == h);
    let y3 = nl;
    crate::text::lemma_lines_first(e, e);
    assert(e + nl + e =~= nl);
    assert(crate::text::lines(e) =~= seq![]);
    assert(crate::text::lines(nl) =~= seq![e]);
    let hello = "Hello,"@;
    assert(!hello.contains('\n'));
    crate::text::lemma_lines_first(hello, nl);
    let y2 = hello + nl + nl;
    assert(crate::text::lines(y2) =~= seq![hello, e]);
    crate::text::lemma_lines_first(e, y2);
    let y1 = nl + y2;
    assert(e + nl + y2 =~= y1);
    assert(crate::text::lines(y1) =~= seq![e, hello, e]);
    crate::text::lemma_lines_first(h, y1);
    let p = h + nl + y1;
    assert(crate::text::lines(p) =~= seq![h, e, hello, e]);
    let team = "Support Team"@;
    let regards = "Regards,"@;
    assert(!team.contains('\n'));
    assert(!regards.contains('\n'));
    crate::text::lemma_lines_first(team, e);
    assert(team + nl + e =~= team + nl);
    assert(crate::text::lines(team + nl) =~= seq![team]);
    crate::text::lemma_lines_first(regards, team + nl);
    let q1 = regards + nl + (team + nl);
    assert(crate::text::lines(q1) =~= seq![regards, team]);
    crate::text::lemma_lines_first(e, q1);
    let q = nl + q1;
    assert(e + nl + q1 =~= q);
    assert(crate::text::lines(q) =~= seq![e, regards, team]);
    crate::text::lemma_lines_newline_end(body);
    crate::text::lemma_lines_concat(body + nl, q);
    let x = body + nl + q;
    assert(crate::text::lines(x) == crate::text::lines(body) + seq![e, regards, team]);
    crate::text::lemma_lines_concat(p, x);
    assert(scaffold_content(title, body) =~= p + x);
    assert(crate::text::lines(p + x) =~= seq![h, e, hello, e] + crate::text::lines(body) + seq![e, regards, team]);
}

} // verus!

verus! {

/// The team sign-off line is not taken for a person's name.
proof fn lemma_team_not_name()
    ensures
        !crate::check::name_like("Support Team"@),
{
    reveal_strlit("Support Team");
    let team = "Support Team"@;
    assert(crate::text::is_ascii_seq(team));
    let lt = crate::text::lowercase(team);
    assert(lt =~= team.map_values(|c: char| crate::text::ascii_lower(c)));
    assert(lt.subrange(0, 7) =~= crate::check::support_word());
    assert(crate::text::occurs_at(lt, crate::check::support_word(), 0));
}

proof fn lemma_not_regards(w: Seq<char>)
    requires
        w.len() == 0 || w[0] == '#' || w == "Hello,"@,
    ensures
        !crate::text::eq_ignore_ascii_case(w, crate::check::regards_comma()),
        !crate::text::eq_ignore_ascii_case(w, crate::check::regards()),
{
    reveal_strlit("Hello,");
    if w.len() > 0 && w[0] == '#' {
        assert(crate::text::ascii_lower(w[0]) != crate::text::ascii_lower(crate::check::regards()[0]));
        assert(crate::text::ascii_lower(w[0]) != crate::text::ascii_lower(crate::check::regards_comma()[0]));
    }
}

/// No `Regards` line of a scaffold is followed by a name, given that none
/// in its body is.
proof fn lemma_scaffold_no_regards_hit(title: Seq<char>, body: Seq<char>)
    requires
        clean_value(title),
        body.len() > 0,
        !crate::text::is_ws(body.last()),
        !crate::check::regards_hit(crate::check::trimmed_lines(body)),
    ensures
        !crate::check::regards_hit(crate::check::trimmed_lines(scaffold_content(title, body))),
{
    reveal_strlit("Hello,");
    reveal_strlit("Regards,");
    reveal_strlit("Support Team");
    lemma_scaffold_content_lines(title, body);
    let h = seq!['#', ' '] + title;
    assert(h.last() == title.last());
    crate::text::lemma_trim_id(h);
    crate::text::lemma_trim_id("Hello,"@);
    crate::text::lemma_trim_id("Regards,"@);
    crate::text::lemma_trim_id("Support Team"@);
    crate::text::lemma_trim_id(seq![]);
    let tb = crate::check::trimmed_lines(body);
    let m = tb.len() as int;
    let e: Seq<char> = seq![];
    let tl = crate::check::trimmed_lines(scaffold_content(title, body));
    assert(tl =~= seq![h, e, "Hello,"@, e] + tb + seq![e, "Regards,"@, "Support Team"@]);
    lemma_team_not_name();
    lemma_not_regards(h);
    lemma_not_regards(e);
    lemma_not_regards("Hello,"@);
    if crate::check::regards_hit(tl) {
        let i = choose|i: int| 0 <= i && i + 1 < tl.len() && #[trigger] crate::check::regards_pair(tl[i], tl[i + 1]);
        if i < 4 {
            assert(tl[i] == h || tl[i] == e || tl[i] == "Hello,"@);
        } else if i + 1 < 4 + m {
            assert(tl[i] == tb[i - 4]);
            assert(tl[i + 1] == tb[i - 4 + 1]);
            assert(crate::check::regards_pair(tb[i - 4], tb[i - 4 + 1]));
        } else if i + 1 == 4 + m {
            assert(tl[i + 1] == e);
        } else if i == 4 + m {
            assert(tl[i] == e);
        } else {
            assert(i == 4 + m + 1);
            assert(tl[i + 1] == "Support Team"@);
        }
    }
}

} // verus!

verus! {

proof fn lemma_lookup_five(es: Seq<(Seq<char>, Seq<char>)>, id: Seq<char>, title: Seq<char>, tags: Seq<char>, sop: Seq<char>)
    requires
        es == seq![
            (crate::corpus::key_id(), id),
            (crate::corpus::key_title(), title),
            (crate::corpus::key_prefix(), DEFAULT_PREFIX@),
            (crate::corpus::key_tags(), tags),
            (crate::corpus::key_sop(), sop),
        ],
    ensures
        crate::corpus::lookup(es, crate::corpus::key_id()) == Some(id),
        crate::corpus::lookup(es, crate::corpus::key_title()) == Some(title),
        crate::corpus::lookup(es, crate::corpus::key_prefix()) == Some(DEFAULT_PREFIX@),
        crate::corpus::lookup(es, crate::corpus::key_sop()) == Some(sop),
{
    let e4 = es.drop_last();
    let e3 = e4.drop_last();
    let e2 = e3.drop_last();
    let e1 = e2.drop_last();
    assert(e4 =~= seq![es[0], es[1], es[2], es[3]]);
    assert(e3 =~= seq![es[0], es[1], es[2]]);
    assert(e2 =~= seq![es[0], es[1]]);
    assert(e1 =~= seq![es[0]]);
    assert(e1.last() == es[0]);
    assert(e2.last() == es[1]);
    assert(e3.last() == es[2]);
    assert(e4.last() == es[3]);
    assert(es.last() == es[4]);
    let ki = crate::corpus::key_id();
    let kt = crate::corpus::key_title();
    assert(crate::corpus::key_sop().len() != ki.len() && crate::corpus::key_sop().len() != kt.len());
    assert(crate::corpus::key_tags().len() != ki.len() && crate::corpus::key_tags().len() != kt.len());
    assert(crate::corpus::key_prefix().len() != ki.len() && crate::corpus::key_prefix().len() != kt.len());
    assert(kt.len() != ki.len());
    assert(crate::corpus::lookup(e1, ki) == Some(id));
    assert(crate::corpus::lookup(e2, ki) == Some(id));
    assert(crate::corpus::lookup(e3, ki) == Some(id));
    assert(crate::corpus::lookup(e4, ki) == Some(id));
    assert(crate::corpus::lookup(e2, kt) == Some(title));
    assert(crate::corpus::lookup(e3, kt) == Some(title));
    assert(crate::corpus::lookup(e4, kt) == Some(title));
    let kp = crate::corpus::key_prefix();
    assert(crate::corpus::key_sop().len() != kp.len() && crate::corpus::key_tags().len() != kp.len());
    assert(crate::corpus::lookup(e3, kp) == Some(DEFAULT_PREFIX@));
    assert(crate::corpus::lookup(e4, kp) == Some(DEFAULT_PREFIX@));
}

/// A scaffold passes the quality check once read back from the file it is
/// written to: given a title, sop and tags that each fit on one line, a body
/// without a `Regards` line followed by a person's name, and text after the
/// front matter in which the personal-closing pattern finds nothing, every
/// response parsed from the scaffold's path and text has no finding.
pub proof fn law_scaffold_check_clean(
    dir: Seq<char>,
    title: Seq<char>,
    id: Option<Seq<char>>,
    sop: Seq<char>,
    tags: Seq<Seq<char>>,
    body: Option<Seq<char>>,
    doc: CannedResponse,
)
    requires
        scaffold_file_result(dir, title, id, sop, tags, body) is Ok,
        !trim(title).contains('\n'),
        !trim(sop).contains('\n'),
        !tags_text(tags).contains('\n'),
        !crate::check::regards_hit(crate::check::trimmed_lines(body_text(body))),
        !(crate::check::regex_compiles(crate::check::SIGNATURE_PATTERN@) && crate::check::regex_is_match(
            crate::check::SIGNATURE_PATTERN@,
            crate::corpus::front_matter_content(scaffold_file_result(dir, title, id, sop, tags, body)->Ok_0.1),
        )),
        crate::corpus::parsed_from(
            doc,
            scaffold_file_result(dir, title, id, sop, tags, body)->Ok_0.0,
            scaffold_file_result(dir, title, id, sop, tags, body)->Ok_0.1,
        ),
    ensures
        crate::check::report_findings(seq![doc], DEFAULT_PREFIX@) == Seq::<crate::check::FindingView>::empty(),
{
    reveal_strlit("resp");
    reveal_strlit("[]");
    reveal_strlit("[");
    reveal_strlit("]");
    reveal_strlit(".md");
    reveal_strlit("Replace this paragraph with the shared team answer. Keep the team sign-off below.");
    let res = scaffold_file_result(dir, title, id, sop, tags, body)->Ok_0;
    let path = res.0;
    let text = res.1;
    let rid = response_id_result(requested_id(id, title))->Ok_0;
    assert(rid == requested_id(id, title));
    let t = trim(title);
    let s = trim(sop);
    let g = tags_text(tags);
    let bd = body_text(body);
    assert(text == scaffold_text(rid, t, g, s, bd));
    assert(path == response_file(dir, rid));
    crate::text::lemma_trim_ends(title);
    crate::text::lemma_trim_ends(sop);
    assert(clean_value(t));
    assert(clean_value(s));
    assert(g.len() > 0 && g[0] == '[' && g.last() == ']');
    assert(clean_value(g));
    lemma_id_chars(rid);
    assert(clean_value(rid));
    match body {
        Some(b) => {
            crate::text::lemma_trim_ends(b);
        },
        None => {},
    }
    assert(bd.len() > 0 && !crate::text::is_ws(bd.last()));
    lemma_scaffold_shape(rid, t, g, s, bd);
    lemma_scaffold_block(rid, t, g, s);
    let block = scaffold_block(rid, t, g, s);
    let content = scaffold_content(t, bd);
    assert(content[0] == '#');
    crate::corpus::lemma_front_matter_parts(block, content);
    assert(crate::corpus::front_matter_content(text) == content);
    let es = crate::corpus::entries(crate::text::lines(block));
    assert(crate::corpus::front_matter_entries(text) == es);
    lemma_lookup_five(es, rid, t, g, s);
    assert(doc.id@ == rid);
    assert(doc.title@ == t);
    assert(opt_view(doc.prefix) == Some(DEFAULT_PREFIX@));
    assert(opt_view(doc.sop) == Some(s));
    assert(doc.content@ == content);
    assert(doc.path@ == path);
    assert(DEFAULT_PREFIX@.push('-') =~= id_prefix());
    assert(".md"@ =~= seq!['.', 'm', 'd']);
    crate::corpus::lemma_file_stem_join(dir, rid);
    assert(crate::check::stem_or_empty(path) == rid);
    crate::text::lemma_trim_id(t);
    crate::text::lemma_trim_id(s);
    lemma_scaffold_no_regards_hit(t, bd);
    assert(crate::check::signature_hit(content) is None);
    assert(crate::check::doc_findings(doc, DEFAULT_PREFIX@) =~= Seq::<crate::check::FindingView>::empty());
    let one = seq![doc];
    assert(crate::check::rule_findings(one, DEFAULT_PREFIX@, 0) =~= seq![]);
    assert(one[0] == doc);
    assert(crate::check::rule_findings(one, DEFAULT_PREFIX@, 1) =~= crate::check::doc_findings(doc, DEFAULT_PREFIX@));
    assert(crate::check::earlier_same_id(one, 0, 0) is None);
    assert(crate::check::duplicate_findings(one, 0) =~= seq![]);
    assert(crate::check::duplicate_findings(one, 1) =~= seq![]);
    assert(crate::check::report_findings(one, DEFAULT_PREFIX@) =~= Seq::<crate::check::FindingView>::empty());
}

} // verus!

verus! {

pub open spec fn overwrite_refusal_text(path: Seq<char>) -> Seq<char> {
    "refusing to overwrite "@ + path + " (pass --force to replace)"@
}

pub open spec fn published_refusal_text(path: Seq<char>) -> Seq<char> {
    "refusing to overwrite published response "@ + path + " (pass --force to replace)"@
}

/// Whether a new scaffold may be written to `path`: refused, with the
/// reason, when a file is already there and `force` was not given.
pub fn scaffold_write_check(path: &str, present: bool, force: bool) -> (r: Result<(), String>)
    ensures
        r is Ok <==> (!present || force),
        r matches Err(m) ==> m@ == overwrite_refusal_text(path@),
{
    if present && !force {
        let mut s = String::from_str("refusing to overwrite ");
        s.append(path);
        s.append(" (pass --force to replace)");
        Err(s)
    } else {
        Ok(())
    }
}

/// Whether a promoted draft may be copied to `dest`: refused, with the
/// reason, when a published response is already there and `force` was not
/// given.
pub fn promote_write_check(dest: &str, present: bool, force: bool) -> (r: Result<(), String>)
    ensures
        r is Ok <==> (!present || force),
        r matches Err(m) ==> m@ == published_refusal_text(dest@),
{
    if present && !force {
        let mut s = String::from_str("refusing to overwrite published response ");
        s.append(dest);
        s.append(" (pass --force to replace)");
        Err(s)
    } else {
        Ok(())
    }
}

} // verus!
