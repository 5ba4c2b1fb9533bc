//! Corpus quality checks for a configured shared id prefix.

use vstd::prelude::*;
use vstd::string::StringExecFns;
use crate::corpus::{file_stem, file_stem_chars, opt_view, CannedResponse};
use crate::text::{
    chars_of, char_is_alphabetic, contains, contains_chars, decimal, eq_ignore_ascii_case,
    eq_ignore_ascii_case_chars, alpha_char, is_whitespace, is_ws, lines, lines_of, lowercase,
    push_chars, push_decimal, starts_with, starts_with_chars, to_lowercase, trim, trim_chars,
    views, words, words_of,
};

verus! {

/// One quality finding.
#[derive(Debug, Clone)]
pub struct CheckFinding {
    pub path: String,
    pub id: String,
    pub code: String,
    pub message: String,
}

impl View for CheckFinding {
    type V = (Seq<char>, Seq<char>, Seq<char>, Seq<char>);

    open spec fn view(&self) -> Self::V {
        (self.path@, self.id@, self.code@, self.message@)
    }
}

/// Aggregated quality report.
#[derive(Debug, Clone)]
pub struct CheckReport {
    pub findings: Vec<CheckFinding>,
    pub checked: usize,
}

pub open spec fn findings_view(v: Seq<CheckFinding>) -> Seq<(Seq<char>, Seq<char>, Seq<char>, Seq<char>)> {
    Seq::new(v.len(), |i: int| v[i]@)
}

impl CheckReport {
    /// No finding at all.
    pub fn ok(&self) -> (r: bool)
        ensures
            r == (self.findings@.len() == 0),
    {
        self.findings.len() == 0
    }

    /// `check: N file(s), M finding(s)`.
    pub fn summary_line(&self) -> (r: String)
        ensures
            r@ == summary_text(self.checked as nat, self.findings@.len()),
    {
        let mut s = String::from_str("check: ");
        push_decimal(&mut s, self.checked);
        s.append(" file(s), ");
        push_decimal(&mut s, self.findings.len());
        s.append(" finding(s)");
        s
    }
}

pub open spec fn summary_text(checked: nat, findings: nat) -> Seq<char> {
    "check: "@ + decimal(checked) + " file(s), "@ + decimal(findings) + " finding(s)"@
}

} // verus!

verus! {

/// The pattern of personal closings and bare first names.
pub const SIGNATURE_PATTERN: &'static str = "(?im)^\\s*(cheers|thanks,?\\s*$|best,?\\s*$|yours,?\\s*$|sincerely,?\\s*$)\\s*$|^\\s*[-–—]\\s*[A-Z][a-z]{1,12}\\s*$|^\\s*(John|Jane|Manuel|Alice|Bob)\\s*$";

/// `regex::Regex::new(pattern)` succeeds.
pub uninterp spec fn regex_compiles(pattern: Seq<char>) -> bool;

/// `Regex::is_match` of the compiled `pattern` on `haystack`.
pub uninterp spec fn regex_is_match(pattern: Seq<char>, haystack: Seq<char>) -> bool;

/// Compiles `pattern` with `regex::Regex::new` and, when that succeeds, runs
/// `Regex::is_match` on `haystack`. The contract claims only that the result
/// is present exactly when the pattern compiles and is then the match
/// outcome; both are named, since regex semantics take pages to state.
#[verifier::external_body]
fn regex_search(pattern: &str, haystack: &str) -> (r: Option<bool>)
    ensures
        r is Some <==> regex_compiles(pattern@),
        r matches Some(b) ==> b == regex_is_match(pattern@, haystack@),
{
    regex::Regex::new(pattern).ok().map(|re| re.is_match(haystack))
}

pub open spec fn regards() -> Seq<char> {
    seq!['r', 'e', 'g', 'a', 'r', 'd', 's']
}

pub open spec fn regards_comma() -> Seq<char> {
    seq!['r', 'e', 'g', 'a', 'r', 'd', 's', ',']
}

pub open spec fn support_word() -> Seq<char> {
    seq!['s', 'u', 'p', 'p', 'o', 'r', 't']
}

pub open spec fn team_word() -> Seq<char> {
    seq!['t', 'e', 'a', 'm']
}

/// A line that could be a person's name: non-empty, without `support` or
/// `team` (in any case), at most two words, only letters, spaces and `-`.
pub open spec fn name_like(next: Seq<char>) -> bool {
    &&& next.len() > 0
    &&& !contains(lowercase(next), support_word())
    &&& !contains(lowercase(next), team_word())
    &&& words(next).len() <= 2
    &&& forall|i: int| 0 <= i < next.len() ==> (alpha_char(next[i]) || is_ws(next[i]) || next[i] == '-')
}

/// A `Regards` line directly followed by a name-like line.
pub open spec fn regards_pair(w0: Seq<char>, w1: Seq<char>) -> bool {
    (eq_ignore_ascii_case(w0, regards_comma()) || eq_ignore_ascii_case(w0, regards())) && name_like(w1)
}

/// The trimmed lines of a text.
pub open spec fn trimmed_lines(content: Seq<char>) -> Seq<Seq<char>> {
    lines(content).map_values(|l: Seq<char>| trim(l))
}

pub open spec fn regards_hit(ls: Seq<Seq<char>>) -> bool {
    exists|i: int| 0 <= i && i + 1 < ls.len() && #[trigger] regards_pair(ls[i], ls[i + 1])
}

pub open spec fn msg_pattern_hit() -> Seq<char> {
    "matched personal closing/name pattern"@
}

pub open spec fn msg_regards_hit() -> Seq<char> {
    "Regards followed by personal name instead of team"@
}

/// Why `content` looks signed by a person rather than by the team, if it does.
pub open spec fn signature_hit(content: Seq<char>) -> Option<Seq<char>> {
    if regex_compiles(SIGNATURE_PATTERN@) && regex_is_match(SIGNATURE_PATTERN@, content) {
        Some(msg_pattern_hit())
    } else if regards_hit(trimmed_lines(content)) {
        Some(msg_regards_hit())
    } else {
        None
    }
}

fn name_like_chars(next: &Vec<char>) -> (r: bool)
    ensures
        r == name_like(next@),
{
    if next.len() == 0 {
        return false;
    }
    let lower = to_lowercase(next);
    let support = vec!['s', 'u', 'p', 'p', 'o', 'r', 't'];
    let team = vec!['t', 'e', 'a', 'm'];
    assert(support@ =~= support_word());
    assert(team@ =~= team_word());
    if contains_chars(&lower, &support) || contains_chars(&lower, &team) {
        return false;
    }
    let ws = words_of(next);
    if ws.len() > 2 {
        return false;
    }
    let mut k: usize = 0;
    while k < next.len()
        invariant
            k <= next.len(),
            forall|i: int| 0 <= i < k ==> (alpha_char(next@[i]) || is_ws(next@[i]) || next@[i] == '-'),
        decreases next.len() - k,
    {
        let c = next[k];
        if !(char_is_alphabetic(c) || is_whitespace(c) || c == '-') {
            return false;
        }
        k += 1;
    }
    true
}

fn personal_signature_hit(content: &String) -> (r: Option<String>)
    ensures
        match r {
            Some(m) => signature_hit(content@) == Some(m@),
            None => signature_hit(content@) is None,
        },
{
    match regex_search(SIGNATURE_PATTERN, content.as_str()) {
        Some(true) => {
            return Some(String::from_str("matched personal closing/name pattern"));
        },
        _ => {},
    }
    let cv = chars_of(content.as_str());
    let ls = lines_of(&cv);
    let mut trimmed: Vec<Vec<char>> = Vec::new();
    let mut k: usize = 0;
    while k < ls.len()
        invariant
            k <= ls.len(),
            views(ls@) == lines(cv@),
            views(trimmed@) == trimmed_lines(cv@).take(k as int),
        decreases ls.len() - k,
    {
        let t = trim_chars(&ls[k]);
        let ghost prev = views(trimmed@);
        trimmed.push(t);
        assert(prev.len() == k);
        assert(views(trimmed@) =~= prev.push(t@));
        assert(lines(cv@)[k as int] == ls@[k as int]@);
        assert(trimmed_lines(cv@).take(k + 1) =~= prev.push(trim(ls@[k as int]@)));
        k += 1;
    }
    assert(views(trimmed@) =~= trimmed_lines(cv@));
    let regards_c = vec!['r', 'e', 'g', 'a', 'r', 'd', 's', ','];
    let regards_v = vec!['r', 'e', 'g', 'a', 'r', 'd', 's'];
    assert(regards_c@ =~= regards_comma());
    assert(regards_v@ =~= regards());
    let mut i: usize = 0;
    while trimmed.len() > 0 && i < trimmed.len() - 1
        invariant
            i <= trimmed.len(),
            views(trimmed@) == trimmed_lines(cv@),
            regards_c@ == regards_comma(),
            regards_v@ == regards(),
            cv@ == content@,
            !(regex_compiles(SIGNATURE_PATTERN@) && regex_is_match(SIGNATURE_PATTERN@, content@)),
            forall|j: int| 0 <= j < i ==> !#[trigger] regards_pair(trimmed_lines(cv@)[j], trimmed_lines(cv@)[j + 1]),
        decreases trimmed.len() - i,
    {
        let w0 = &trimmed[i];
        let w1 = &trimmed[i + 1];
        if (eq_ignore_ascii_case_chars(w0, &regards_c) || eq_ignore_ascii_case_chars(w0, &regards_v))
            && name_like_chars(w1) {
            assert(views(trimmed@)[i as int] == w0@);
            assert(views(trimmed@)[i + 1] == w1@);
            assert(regards_pair(trimmed_lines(cv@)[i as int], trimmed_lines(cv@)[i + 1]));
            return Some(String::from_str("Regards followed by personal name instead of team"));
        }
        i += 1;
    }
    assert(!regards_hit(trimmed_lines(cv@))) by {
        if regards_hit(trimmed_lines(cv@)) {
            let j = choose|j: int|
                0 <= j && j + 1 < trimmed_lines(cv@).len() && #[trigger] regards_pair(
                    trimmed_lines(cv@)[j],
                    trimmed_lines(cv@)[j + 1],
                );
            assert(j < i);
        }
    }
    None
}

} // verus!

verus! {

pub open spec fn msg_id_prefix(prefix: Seq<char>, id: Seq<char>) -> Seq<char> {
    "id must start with `"@ + prefix
        + "-` (shared library prefix from canonic.toml / --prefix); got `"@ + id + "`"@
}

pub open spec fn msg_id_filename(stem: Seq<char>, id: Seq<char>) -> Seq<char> {
    "filename stem `"@ + stem + "` must equal id `"@ + id + "`"@
}

pub open spec fn msg_prefix_mismatch(prefix: Seq<char>, got: Seq<char>) -> Seq<char> {
    "front matter `prefix` must be `"@ + prefix + "`; got `"@ + got + "`"@
}

pub open spec fn msg_prefix_missing(prefix: Seq<char>) -> Seq<char> {
    "front matter `prefix: "@ + prefix + "` is required"@
}

pub open spec fn msg_sop() -> Seq<char> {
    "front matter `sop` is required (Confluence URL or the literal `none`)"@
}

pub open spec fn msg_title() -> Seq<char> {
    "title must be non-empty"@
}

pub open spec fn msg_signature(why: Seq<char>) -> Seq<char> {
    "possible personal sign-off; use shared team closing ("@ + why + ")"@
}

pub open spec fn msg_duplicate(id: Seq<char>, other: Seq<char>) -> Seq<char> {
    "id `"@ + id + "` also used by "@ + other
}

/// File stem of a path, empty when it has none.
pub open spec fn stem_or_empty(path: Seq<char>) -> Seq<char> {
    match file_stem(path) {
        Some(s) => s,
        None => seq![],
    }
}

pub type FindingView = (Seq<char>, Seq<char>, Seq<char>, Seq<char>);

/// The findings that the rules give for one response, in rule order:
/// id prefix, id/filename agreement, `prefix` field, `sop` field, title,
/// personal sign-off.
pub open spec fn doc_findings(doc: CannedResponse, prefix: Seq<char>) -> Seq<FindingView> {
    let path = doc.path@;
    let id = doc.id@;
    let f_prefix: Seq<FindingView> = if !starts_with(id, prefix.push('-')) {
        seq![(path, id, "id-prefix"@, msg_id_prefix(prefix, id))]
    } else {
        seq![]
    };
    let stem = stem_or_empty(path);
    let f_stem: Seq<FindingView> = if stem != id {
        seq![(path, id, "id-filename"@, msg_id_filename(stem, id))]
    } else {
        seq![]
    };
    let f_field: Seq<FindingView> = match opt_view(doc.prefix) {
        Some(p) => if p == prefix {
            seq![]
        } else {
            seq![(path, id, "prefix-field"@, msg_prefix_mismatch(prefix, p))]
        },
        None => seq![(path, id, "prefix-field"@, msg_prefix_missing(prefix))],
    };
    let f_sop: Seq<FindingView> = match opt_view(doc.sop) {
        Some(s) => if trim(s).len() > 0 {
            seq![]
        } else {
            seq![(path, id, "sop-field"@, msg_sop())]
        },
        None => seq![(path, id, "sop-field"@, msg_sop())],
    };
    let f_title: Seq<FindingView> = if trim(doc.title@).len() == 0 {
        seq![(path, id, "title"@, msg_title())]
    } else {
        seq![]
    };
    let f_sig: Seq<FindingView> = match signature_hit(doc.content@) {
        Some(why) => seq![(path, id, "personal-signature"@, msg_signature(why))],
        None => seq![],
    };
    f_prefix + f_stem + f_field + f_sop + f_title + f_sig
}

fn finding(path: &String, id: &String, code: &str, message: String) -> (r: CheckFinding)
    ensures
        r@ == (path@, id@, code@, message@),
{
    CheckFinding { path: path.clone(), id: id.clone(), code: String::from_str(code), message }
}

impl CheckFinding {
    /// A copy with equal fields.
    pub fn duplicate(&self) -> (r: CheckFinding)
        ensures
            r@ == self@,
    {
        CheckFinding {
            path: self.path.clone(),
            id: self.id.clone(),
            code: self.code.clone(),
            message: self.message.clone(),
        }
    }
}

fn push_finding(out: &mut Vec<CheckFinding>, f: CheckFinding)
    ensures
        findings_view(final(out)@) == findings_view(old(out)@).push(f@),
{
    out.push(f);
    assert(findings_view(out@) =~= findings_view(old(out)@).push(f@));
}

fn check_one(doc: &CannedResponse, prefix: &String) -> (r: Vec<CheckFinding>)
    ensures
        findings_view(r@) == doc_findings(*doc, prefix@),
{
    let mut out: Vec<CheckFinding> = Vec::new();
    let path = &doc.path;
    let id = &doc.id;
    let id_v = chars_of(id.as_str());
    let mut dash = chars_of(prefix.as_str());
    dash.push('-');
    let ghost e0 = findings_view(out@);
    assert(e0 =~= seq![]);
    if !starts_with_chars(&id_v, &dash) {
        let mut m = String::from_str("id must start with `");
        m.append(prefix.as_str());
        m.append("-` (shared library prefix from canonic.toml / --prefix); got `");
        m.append(id.as_str());
        m.append("`");
        push_finding(&mut out, finding(path, id, "id-prefix", m));
    }
    let ghost e1 = findings_view(out@);
    let path_v = chars_of(path.as_str());
    let stem: Vec<char> = match file_stem_chars(&path_v) {
        Some(s) => s,
        None => Vec::new(),
    };
    assert(stem@ == stem_or_empty(path@));
    let same = stem.len() == id_v.len() && crate::text::occurs_at_exec(&id_v, &stem, 0);
    assert(same == (stem@ == id@)) by {
        if stem@ == id@ {
            assert(id@.subrange(0, stem@.len() as int) =~= stem@);
        }
        if same {
            assert(stem@ =~= id@.subrange(0, stem@.len() as int));
            assert(id@.subrange(0, stem@.len() as int) =~= id@);
        }
    }
    if !same {
        let mut m = String::from_str("filename stem `");
        push_chars(&mut m, &stem);
        m.append("` must equal id `");
        m.append(id.as_str());
        m.append("`");
        push_finding(&mut out, finding(path, id, "id-filename", m));
    }
    let ghost e2 = findings_view(out@);
    match &doc.prefix {
        Some(p) => {
            if !(*p == *prefix) {
                let mut m = String::from_str("front matter `prefix` must be `");
                m.append(prefix.as_str());
                m.append("`; got `");
                m.append(p.as_str());
                m.append("`");
                push_finding(&mut out, finding(path, id, "prefix-field", m));
            }
        },
        None => {
            let mut m = String::from_str("front matter `prefix: ");
            m.append(prefix.as_str());
            m.append("` is required");
            push_finding(&mut out, finding(path, id, "prefix-field", m));
        },
    }
    let ghost e3 = findings_view(out@);
    let sop_ok = match &doc.sop {
        Some(s) => trim_chars(&chars_of(s.as_str())).len() > 0,
        None => false,
    };
    if !sop_ok {
        let m = String::from_str(
            "front matter `sop` is required (Confluence URL or the literal `none`)",
        );
        push_finding(&mut out, finding(path, id, "sop-field", m));
    }
    let ghost e4 = findings_view(out@);
    if trim_chars(&chars_of(doc.title.as_str())).len() == 0 {
        let m = String::from_str("title must be non-empty");
        push_finding(&mut out, finding(path, id, "title", m));
    }
    let ghost e5 = findings_view(out@);
    match personal_signature_hit(&doc.content) {
        Some(why) => {
            let mut m = String::from_str("possible personal sign-off; use shared team closing (");
            m.append(why.as_str());
            m.append(")");
            push_finding(&mut out, finding(path, id, "personal-signature", m));
        },
        None => {},
    }
    assert(findings_view(out@) =~= doc_findings(*doc, prefix@));
    out
}

} // verus!

verus! {

/// Index of the last response before `j` whose id equals that of `docs[j]`.
pub open spec fn earlier_same_id(docs: Seq<CannedResponse>, j: int, k: int) -> Option<int>
    decreases k,
{
    if k <= 0 {
        None
    } else if docs[k - 1].id@ == docs[j].id@ {
        Some(k - 1)
    } else {
        earlier_same_id(docs, j, k - 1)
    }
}

/// Findings of every rule for the first `n` responses, response by response.
pub open spec fn rule_findings(docs: Seq<CannedResponse>, prefix: Seq<char>, n: int) -> Seq<FindingView>
    decreases n,
{
    if n <= 0 {
        seq![]
    } else {
        rule_findings(docs, prefix, n - 1) + doc_findings(docs[n - 1], prefix)
    }
}

/// `duplicate-id` findings for the first `n` responses: one for each response
/// whose id an earlier response already has, naming the latest such earlier
/// response's path.
pub open spec fn duplicate_findings(docs: Seq<CannedResponse>, n: int) -> Seq<FindingView>
    decreases n,
{
    if n <= 0 {
        seq![]
    } else {
        let rest = duplicate_findings(docs, n - 1);
        let d = docs[n - 1];
        match earlier_same_id(docs, n - 1, n - 1) {
            Some(i) => rest.push(
                (d.path@, d.id@, "duplicate-id"@, msg_duplicate(d.id@, docs[i].path@)),
            ),
            None => rest,
        }
    }
}

/// All findings of the quality check over `docs`: the per-response rules
/// first, then the duplicate ids.
pub open spec fn report_findings(docs: Seq<CannedResponse>, prefix: Seq<char>) -> Seq<FindingView> {
    rule_findings(docs, prefix, docs.len() as int) + duplicate_findings(docs, docs.len() as int)
}

pub proof fn lemma_earlier_same_id(docs: Seq<CannedResponse>, j: int, k: int)
    requires
        0 <= k <= docs.len(),
        0 <= j < docs.len(),
    ensures
        match earlier_same_id(docs, j, k) {
            Some(i) => 0 <= i < k && docs[i].id@ == docs[j].id@ && forall|m: int|
                i < m < k ==> docs[m].id@ != docs[j].id@,
            None => forall|m: int| 0 <= m < k ==> docs[m].id@ != docs[j].id@,
        },
    decreases k,
{
    if k > 0 && docs[k - 1].id@ != docs[j].id@ {
        lemma_earlier_same_id(docs, j, k - 1);
    }
}

/// Pure quality rules over already-loaded responses.
pub fn check_responses(docs: &[CannedResponse], prefix: &str) -> (r: CheckReport)
    ensures
        r.checked == docs@.len(),
        findings_view(r.findings@) == report_findings(docs@, prefix@),
{
    let prefix_s = String::from_str(prefix);
    let mut findings: Vec<CheckFinding> = Vec::new();
    let mut k: usize = 0;
    assert(findings_view(findings@) =~= seq![]);
    while k < docs.len()
        invariant
            k <= docs.len(),
            prefix_s@ == prefix@,
            findings_view(findings@) == rule_findings(docs@, prefix@, k as int),
        decreases docs.len() - k,
    {
        let more = check_one(&docs[k], &prefix_s);
        let ghost prev = findings_view(findings@);
        let mut m: usize = 0;
        while m < more.len()
            invariant
                m <= more.len(),
                findings_view(findings@) == prev + findings_view(more@).take(m as int),
            decreases more.len() - m,
        {
            push_finding(&mut findings, more[m].duplicate());
            assert(findings_view(more@).take(m + 1) =~= findings_view(more@).take(m as int).push(
                more@[m as int]@,
            ));
            m += 1;
        }
        assert(findings_view(more@).take(more.len() as int) =~= findings_view(more@));
        k += 1;
    }
    let ghost rules = findings_view(findings@);
    let mut j: usize = 0;
    assert(rules =~= rules + duplicate_findings(docs@, 0));
    while j < docs.len()
        invariant
            j <= docs.len(),
            findings_view(findings@) == rules + duplicate_findings(docs@, j as int),
        decreases docs.len() - j,
    {
        let id_v = chars_of(docs[j].id.as_str());
        let mut i = j;
        proof {
            lemma_earlier_same_id(docs@, j as int, j as int);
        }
        let mut found: Option<usize> = None;
        loop
            invariant_except_break
                found is None,
            invariant
                i <= j < docs.len(),
                found is None ==> earlier_same_id(docs@, j as int, j as int) == earlier_same_id(
                    docs@,
                    j as int,
                    i as int,
                ),
                found matches Some(p) ==> earlier_same_id(docs@, j as int, j as int) == Some(
                    p as int,
                ),
            ensures
                found is None ==> i == 0,
                found matches Some(p) ==> earlier_same_id(docs@, j as int, j as int) == Some(
                    p as int,
                ),
            decreases i,
        {
            if i == 0 {
                break ;
            }
            if docs[i - 1].id == docs[j].id {
                assert(docs@[i - 1].id@ == docs@[j as int].id@);
                assert(earlier_same_id(docs@, j as int, i as int) == Some(i - 1));
                found = Some(i - 1);
                break ;
            }
            i -= 1;
        }
        assert(found is None ==> earlier_same_id(docs@, j as int, j as int) is None) by {
            if found is None {
                assert(i == 0);
            }
        }
        let ghost prev = findings_view(findings@);
        match found {
            Some(p) => {
                assert(earlier_same_id(docs@, j as int, j as int) == Some(p as int));
                let mut m = String::from_str("id `");
                m.append(docs[j].id.as_str());
                m.append("` also used by ");
                m.append(docs[p].path.as_str());
                push_finding(&mut findings, finding(&docs[j].path, &docs[j].id, "duplicate-id", m));
            },
            None => {},
        }
        assert(findings_view(findings@) =~= rules + duplicate_findings(docs@, j + 1));
        j += 1;
    }
    assert(findings_view(findings@) =~= report_findings(docs@, prefix@));
    CheckReport { findings, checked: docs.len() }
}

/// The quality check of a single response on its own.
pub fn check_doc(doc: &CannedResponse, prefix: &str) -> (r: CheckReport)
    ensures
        r.checked == 1,
        findings_view(r.findings@) == report_findings(seq![*doc], prefix@),
{
    let prefix_s = String::from_str(prefix);
    let findings = check_one(doc, &prefix_s);
    let ghost s = seq![*doc];
    assert(rule_findings(s, prefix@, 0) =~= seq![]);
    assert(s[0] == *doc);
    assert(rule_findings(s, prefix@, 1) =~= doc_findings(*doc, prefix@));
    assert(earlier_same_id(s, 0, 0) is None);
    assert(duplicate_findings(s, 0) =~= seq![]);
    assert(duplicate_findings(s, 1) =~= seq![]);
    assert(report_findings(s, prefix@) =~= doc_findings(*doc, prefix@));
    CheckReport { findings, checked: 1 }
}

/// Human-readable report text for one finding.
pub open spec fn finding_line(f: FindingView) -> Seq<char> {
    "["@ + f.2 + "] "@ + f.0 + " ("@ + f.1 + "): "@ + f.3 + "\n"@
}

pub open spec fn finding_lines(fs: Seq<FindingView>) -> Seq<char>
    decreases fs.len(),
{
    if fs.len() == 0 {
        seq![]
    } else {
        finding_lines(fs.drop_last()) + finding_line(fs.last())
    }
}

/// The text of a report: summary line, one line per finding, and a closing
/// line when nothing was found.
pub open spec fn report_text(checked: nat, fs: Seq<FindingView>) -> Seq<char> {
    summary_text(checked, fs.len()) + "\n"@ + finding_lines(fs) + if fs.len() == 0 {
        "All quality checks passed.\n"@
    } else {
        seq![]
    }
}

/// Format a human-readable check report.
pub fn format_check_report(report: &CheckReport) -> (r: String)
    ensures
        r@ == report_text(report.checked as nat, findings_view(report.findings@)),
{
    let mut s = report.summary_line();
    s.append("\n");
    let ghost head = s@;
    let mut k: usize = 0;
    while k < report.findings.len()
        invariant
            k <= report.findings.len(),
            s@ == head + finding_lines(findings_view(report.findings@).take(k as int)),
        decreases report.findings.len() - k,
    {
        let f = &report.findings[k];
        s.append("[");
        s.append(f.code.as_str());
        s.append("] ");
        s.append(f.path.as_str());
        s.append(" (");
        s.append(f.id.as_str());
        s.append("): ");
        s.append(f.message.as_str());
        s.append("\n");
        assert(findings_view(report.findings@).take(k + 1).drop_last() =~= findings_view(
            report.findings@,
        ).take(k as int));
        assert(s@ =~= head + finding_lines(findings_view(report.findings@).take(k + 1)));
        k += 1;
    }
    assert(findings_view(report.findings@).take(report.findings.len() as int) =~= findings_view(
        report.findings@,
    ));
    if report.ok() {
        s.append("All quality checks passed.\n");
    }
    assert(s@ =~= report_text(report.checked as nat, findings_view(report.findings@)));
    s
}

} // verus!

verus! {

proof fn lemma_no_earlier_same_id(docs: Seq<CannedResponse>, j: int, k: int)
    requires
        0 <= k <= j < docs.len(),
        forall|a: int, b: int| 0 <= a < b < docs.len() ==> docs[a].id@ != docs[b].id@,
    ensures
        earlier_same_id(docs, j, k) is None,
    decreases k,
{
    if k > 0 {
        lemma_no_earlier_same_id(docs, j, k - 1);
    }
}

proof fn lemma_no_duplicate_findings(docs: Seq<CannedResponse>, n: int)
    requires
        0 <= n <= docs.len(),
        forall|a: int, b: int| 0 <= a < b < docs.len() ==> docs[a].id@ != docs[b].id@,
    ensures
        duplicate_findings(docs, n) == Seq::<FindingView>::empty(),
    decreases n,
{
    if n > 0 {
        lemma_no_duplicate_findings(docs, n - 1);
        lemma_no_earlier_same_id(docs, n - 1, n - 1);
    }
}

/// When no two responses share an id, the check reports only the
/// per-response rule findings: no `duplicate-id` finding at all.
pub proof fn law_unique_ids_no_duplicates(docs: Seq<CannedResponse>, prefix: Seq<char>)
    requires
        forall|a: int, b: int| 0 <= a < b < docs.len() ==> docs[a].id@ != docs[b].id@,
    ensures
        report_findings(docs, prefix) == rule_findings(docs, prefix, docs.len() as int),
{
    lemma_no_duplicate_findings(docs, docs.len() as int);
    assert(report_findings(docs, prefix) =~= rule_findings(docs, prefix, docs.len() as int));
}

proof fn lemma_duplicate_kept(docs: Seq<CannedResponse>, j: int, n: int, f: FindingView)
    requires
        0 <= j < n <= docs.len(),
        duplicate_findings(docs, j + 1).contains(f),
    ensures
        duplicate_findings(docs, n).contains(f),
    decreases n - j,
{
    if n > j + 1 {
        lemma_duplicate_kept(docs, j, n - 1, f);
        let rest = duplicate_findings(docs, n - 1);
        let k = choose|k: int| 0 <= k < rest.len() && rest[k] == f;
        match earlier_same_id(docs, n - 1, n - 1) {
            Some(i) => {
                assert(duplicate_findings(docs, n)[k] == f);
            },
            None => {},
        }
    }
}

/// A response whose id an earlier response already has is reported: the
/// check holds a `duplicate-id` finding for its path and id.
pub proof fn law_repeated_id_reported(docs: Seq<CannedResponse>, prefix: Seq<char>, i: int, j: int)
    requires
        0 <= i < j < docs.len(),
        docs[i].id@ == docs[j].id@,
    ensures
        exists|k: int|
            0 <= k < report_findings(docs, prefix).len() && (#[trigger] report_findings(docs, prefix)[k]).0
                == docs[j].path@ && report_findings(docs, prefix)[k].1 == docs[j].id@
                && report_findings(docs, prefix)[k].2 == "duplicate-id"@,
{
    lemma_earlier_same_id(docs, j, j);
    let e = earlier_same_id(docs, j, j);
    assert(e is Some) by {
        if e is None {
            assert(docs[i].id@ != docs[j].id@);
        }
    }
    let l = e->0;
    let f: FindingView = (docs[j].path@, docs[j].id@, "duplicate-id"@, msg_duplicate(docs[j].id@, docs[l].path@));
    let d1 = duplicate_findings(docs, j + 1);
    assert(d1 == duplicate_findings(docs, j).push(f));
    assert(d1[d1.len() - 1] == f);
    assert(d1.contains(f));
    lemma_duplicate_kept(docs, j, docs.len() as int, f);
    let dn = duplicate_findings(docs, docs.len() as int);
    let k = choose|k: int| 0 <= k < dn.len() && dn[k] == f;
    let rf = rule_findings(docs, prefix, docs.len() as int);
    assert(report_findings(docs, prefix)[rf.len() + k] == f);
}

} // verus!

verus! {

/// The order in which the per-response rules report.
pub open spec fn rule_rank(code: Seq<char>) -> int {
    if code == "id-prefix"@ {
        0
    } else if code == "id-filename"@ {
        1
    } else if code == "prefix-field"@ {
        2
    } else if code == "sop-field"@ {
        3
    } else if code == "title"@ {
        4
    } else {
        5
    }
}

pub open spec fn rank_ordered(fs: Seq<FindingView>) -> bool {
    forall|j: int, k: int| 0 <= j < k < fs.len() ==> rule_rank(#[trigger] fs[j].2) < rule_rank(#[trigger] fs[k].2)
}

proof fn lemma_rank_append(g: Seq<FindingView>, f: Seq<FindingView>, r: int)
    requires
        rank_ordered(g),
        forall|j: int| 0 <= j < g.len() ==> rule_rank(#[trigger] g[j].2) < r,
        f.len() <= 1,
        f.len() == 1 ==> rule_rank(f[0].2) == r,
    ensures
        rank_ordered(g + f),
        forall|j: int| 0 <= j < (g + f).len() ==> rule_rank(#[trigger] (g + f)[j].2) <= r,
{
    let h = g + f;
    assert forall|j: int, k: int| 0 <= j < k < h.len() implies rule_rank(#[trigger] h[j].2) < rule_rank(#[trigger] h[k].2) by {
        if k < g.len() {
            assert(h[j] == g[j] && h[k] == g[k]);
        } else {
            assert(h[j] == g[j] && h[k] == f[0]);
        }
    }
    assert forall|j: int| 0 <= j < h.len() implies rule_rank(#[trigger] h[j].2) <= r by {
        if j < g.len() {
            assert(h[j] == g[j]);
        } else {
            assert(h[j] == f[0]);
        }
    }
}

proof fn lemma_single_report(doc: CannedResponse, prefix: Seq<char>)
    ensures
        report_findings(seq![doc], prefix) == doc_findings(doc, prefix),
{
    let s = seq![doc];
    assert(rule_findings(s, prefix, 0) =~= seq![]);
    assert(s[0] == doc);
    assert(rule_findings(s, prefix, 1) =~= doc_findings(doc, prefix));
    assert(earlier_same_id(s, 0, 0) is None);
    assert(duplicate_findings(s, 0) =~= seq![]);
    assert(duplicate_findings(s, 1) =~= seq![]);
    assert(report_findings(s, prefix) =~= doc_findings(doc, prefix));
}

/// A response checked on its own has no finding exactly when its id starts
/// with the prefix and a dash, its file is named after its id, its `prefix`
/// field is the prefix, its `sop` is not blank, its title is not blank and
/// no personal sign-off is found. Every finding names the response's path
/// and id, and no rule reports twice (the rules report in a fixed order).
pub proof fn law_response_rules(doc: CannedResponse, prefix: Seq<char>)
    ensures
        ({
            let fs = report_findings(seq![doc], prefix);
            &&& (fs.len() == 0) <==> {
                &&& starts_with(doc.id@, prefix.push('-'))
                &&& file_stem(doc.path@) == Some(doc.id@)
                &&& opt_view(doc.prefix) == Some(prefix)
                &&& (doc.sop matches Some(s) && trim(s@).len() > 0)
                &&& trim(doc.title@).len() > 0
                &&& signature_hit(doc.content@) is None
            }
            &&& forall|k: int| 0 <= k < fs.len() ==> (#[trigger] fs[k]).0 == doc.path@ && fs[k].1 == doc.id@
            &&& rank_ordered(fs)
            &&& forall|j: int, k: int| 0 <= j < k < fs.len() ==> #[trigger] fs[j].2 != #[trigger] fs[k].2
        }),
{
    lemma_single_report(doc, prefix);
    reveal_strlit("id-prefix");
    reveal_strlit("id-filename");
    reveal_strlit("prefix-field");
    reveal_strlit("sop-field");
    reveal_strlit("title");
    reveal_strlit("personal-signature");
    let path = doc.path@;
    let id = doc.id@;
    let p1: Seq<FindingView> = if !starts_with(id, prefix.push('-')) {
        seq![(path, id, "id-prefix"@, msg_id_prefix(prefix, id))]
    } else {
        seq![]
    };
    let stem = stem_or_empty(path);
    let p2: Seq<FindingView> = if stem != id {
        seq![(path, id, "id-filename"@, msg_id_filename(stem, id))]
    } else {
        seq![]
    };
    let p3: Seq<FindingView> = match opt_view(doc.prefix) {
        Some(p) => if p == prefix {
            seq![]
        } else {
            seq![(path, id, "prefix-field"@, msg_prefix_mismatch(prefix, p))]
        },
        None => seq![(path, id, "prefix-field"@, msg_prefix_missing(prefix))],
    };
    let p4: Seq<FindingView> = match opt_view(doc.sop) {
        Some(s) => if trim(s).len() > 0 {
            seq![]
        } else {
            seq![(path, id, "sop-field"@, msg_sop())]
        },
        None => seq![(path, id, "sop-field"@, msg_sop())],
    };
    let p5: Seq<FindingView> = if trim(doc.title@).len() == 0 {
        seq![(path, id, "title"@, msg_title())]
    } else {
        seq![]
    };
    let p6: Seq<FindingView> = match signature_hit(doc.content@) {
        Some(why) => seq![(path, id, "personal-signature"@, msg_signature(why))],
        None => seq![],
    };
    let fs = doc_findings(doc, prefix);
    assert(fs == p1 + p2 + p3 + p4 + p5 + p6);
    assert("id-prefix"@.len() == 9);
    assert("id-filename"@.len() == 11);
    assert("prefix-field"@.len() == 12);
    assert("sop-field"@.len() == 9);
    assert("title"@.len() == 5);
    assert("personal-signature"@.len() == 18);
    assert("sop-field"@[0] != "id-prefix"@[0]);
    assert(rule_rank("id-prefix"@) == 0);
    assert(rule_rank("id-filename"@) == 1);
    assert(rule_rank("prefix-field"@) == 2);
    assert(rule_rank("sop-field"@) == 3);
    assert(rule_rank("title"@) == 4);
    assert(rule_rank("personal-signature"@) == 5);
    let g0 = Seq::<FindingView>::empty();
    lemma_rank_append(g0, p1, 0);
    assert(g0 + p1 =~= p1);
    lemma_rank_append(p1, p2, 1);
    lemma_rank_append(p1 + p2, p3, 2);
    lemma_rank_append(p1 + p2 + p3, p4, 3);
    lemma_rank_append(p1 + p2 + p3 + p4, p5, 4);
    lemma_rank_append(p1 + p2 + p3 + p4 + p5, p6, 5);
    assert forall|j: int, k: int| 0 <= j < k < fs.len() implies #[trigger] fs[j].2 != #[trigger] fs[k].2 by {
        assert(rule_rank(fs[j].2) < rule_rank(fs[k].2));
    }
    let h12 = p1 + p2;
    let h123 = h12 + p3;
    let h1234 = h123 + p4;
    let h12345 = h1234 + p5;
    assert forall|k: int| 0 <= k < fs.len() implies (#[trigger] fs[k]).0 == path && fs[k].1 == id by {
        if k < h12345.len() {
            if k < h1234.len() {
                if k < h123.len() {
                    if k < h12.len() {
                        if k < p1.len() {
                            assert(fs[k] == p1[k]);
                        } else {
                            assert(fs[k] == p2[k - p1.len()]);
                        }
                    } else {
                        assert(fs[k] == p3[k - h12.len()]);
                    }
                } else {
                    assert(fs[k] == p4[k - h123.len()]);
                }
            } else {
                assert(fs[k] == p5[k - h1234.len()]);
            }
        } else {
            assert(fs[k] == p6[k - h12345.len()]);
        }
    }
    if starts_with(id, prefix.push('-')) {
        assert(id.len() > 0);
        if file_stem(path) is None {
            assert(stem == Seq::<char>::empty());
        }
    }
    assert(fs.len() == p1.len() + p2.len() + p3.len() + p4.len() + p5.len() + p6.len());
}

} // verus!

verus! {

proof fn lemma_rule_findings_empty(docs: Seq<CannedResponse>, prefix: Seq<char>, n: int)
    requires
        0 <= n <= docs.len(),
    ensures
        (rule_findings(docs, prefix, n).len() == 0) <==> (forall|i: int|
            0 <= i < n ==> (#[trigger] doc_findings(docs[i], prefix)).len() == 0),
    decreases n,
{
    if n > 0 {
        lemma_rule_findings_empty(docs, prefix, n - 1);
    }
}

/// The check over a corpus is clean exactly when every response passes the
/// per-response rules on its own and no two responses share an id.
pub proof fn law_report_clean(docs: Seq<CannedResponse>, prefix: Seq<char>)
    ensures
        (report_findings(docs, prefix).len() == 0) <==> {
            &&& forall|i: int| 0 <= i < docs.len() ==> (#[trigger] doc_findings(docs[i], prefix)).len() == 0
            &&& forall|a: int, b: int| 0 <= a < b < docs.len() ==> docs[a].id@ != docs[b].id@
        },
{
    let n = docs.len() as int;
    lemma_rule_findings_empty(docs, prefix, n);
    let rf = rule_findings(docs, prefix, n);
    assert(report_findings(docs, prefix).len() >= rf.len());
    if forall|a: int, b: int| 0 <= a < b < docs.len() ==> docs[a].id@ != docs[b].id@ {
        law_unique_ids_no_duplicates(docs, prefix);
    } else {
        let (a, b) = choose|a: int, b: int| 0 <= a < b < docs.len() && docs[a].id@ == docs[b].id@;
        law_repeated_id_reported(docs, prefix, a, b);
    }
}

} // verus!

verus! {

/// A `Regards` line followed by a line that mentions a team or support, in
/// any letter case, is never read as a personal sign-off.
pub proof fn law_team_line_not_personal(w0: Seq<char>, w1: Seq<char>)
    requires
        contains(lowercase(w1), "team"@) || contains(lowercase(w1), "support"@),
    ensures
        !regards_pair(w0, w1),
{
    reveal_strlit("team");
    reveal_strlit("support");
    assert(team_word() =~= "team"@);
    assert(support_word() =~= "support"@);
}

/// A text that the closing pattern does not match, and whose every
/// `Regards` line (in any ASCII case, with or without a comma) is followed
/// by a line mentioning a team or support in any letter case, has no
/// personal sign-off.
pub proof fn law_team_signoff_clean(content: Seq<char>)
    requires
        !(regex_compiles(SIGNATURE_PATTERN@) && regex_is_match(SIGNATURE_PATTERN@, content)),
        forall|i: int|
            0 <= i && i + 1 < trimmed_lines(content).len() && (eq_ignore_ascii_case(
                #[trigger] trimmed_lines(content)[i],
                "regards"@,
            ) || eq_ignore_ascii_case(trimmed_lines(content)[i], "regards,"@)) ==> (contains(
                lowercase(trimmed_lines(content)[i + 1]),
                "team"@,
            ) || contains(lowercase(trimmed_lines(content)[i + 1]), "support"@)),
    ensures
        signature_hit(content) is None,
{
    reveal_strlit("regards");
    reveal_strlit("regards,");
    assert(regards() =~= "regards"@);
    assert(regards_comma() =~= "regards,"@);
    let ls = trimmed_lines(content);
    if regards_hit(ls) {
        let i = choose|i: int| 0 <= i && i + 1 < ls.len() && #[trigger] regards_pair(ls[i], ls[i + 1]);
        law_team_line_not_personal(ls[i], ls[i + 1]);
    }
}

} // verus!
