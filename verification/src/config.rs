//! Project settings: the shared id prefix and the optional Jira block.

use vstd::prelude::*;
use vstd::string::StringExecFns;
use crate::corpus::opt_view;
use crate::text::{
    chars_of, is_ws, string_of, strip_trailing_char, strip_trailing_char_chars, trim, trim_chars,
};

verus! {

/// Default shared library prefix when no config or CLI override is set.
pub const DEFAULT_PREFIX: &'static str = "resp";

/// Why a prefix was refused.
#[derive(Debug, Clone, PartialEq, Eq)]
pub enum PrefixError {
    /// Nothing left after trimming.
    Empty,
    /// Starts or ends with `-`.
    EdgeDash(String),
    /// Holds something other than lowercase ASCII letters, digits and `-`.
    BadChars(String),
}

/// Characters a prefix may hold.
pub open spec fn prefix_char(c: char) -> bool {
    ('a' <= c && c <= 'z') || ('0' <= c && c <= '9') || c == '-'
}

/// What `normalize_prefix` gives for `raw`: the trimmed text when it is
/// non-empty, neither starts nor ends with `-`, and holds only lowercase
/// ASCII letters, digits and `-`.
pub open spec fn normalized_prefix(raw: Seq<char>) -> Result<Seq<char>, PrefixErrorKind> {
    let p = trim(raw);
    if p.len() == 0 {
        Err(PrefixErrorKind::Empty)
    } else if p[0] == '-' || p.last() == '-' {
        Err(PrefixErrorKind::EdgeDash(p))
    } else if !(forall|i: int| 0 <= i < p.len() ==> prefix_char(#[trigger] p[i])) {
        Err(PrefixErrorKind::BadChars(p))
    } else {
        Ok(p)
    }
}

/// Mathematical model of [`PrefixError`].
pub enum PrefixErrorKind {
    Empty,
    EdgeDash(Seq<char>),
    BadChars(Seq<char>),
}

impl View for PrefixError {
    type V = PrefixErrorKind;

    open spec fn view(&self) -> PrefixErrorKind {
        match self {
            PrefixError::Empty => PrefixErrorKind::Empty,
            PrefixError::EdgeDash(s) => PrefixErrorKind::EdgeDash(s@),
            PrefixError::BadChars(s) => PrefixErrorKind::BadChars(s@),
        }
    }
}

pub open spec fn result_view(r: Result<String, PrefixError>) -> Result<Seq<char>, PrefixErrorKind> {
    match r {
        Ok(s) => Ok(s@),
        Err(e) => Err(e@),
    }
}

/// ASCII letter/digit/`-` only; no leading/trailing `-`; non-empty.
pub fn normalize_prefix(raw: &str) -> (r: Result<String, PrefixError>)
    ensures
        result_view(r) == normalized_prefix(raw@),
{
    let p = trim_chars(&chars_of(raw));
    if p.len() == 0 {
        return Err(PrefixError::Empty);
    }
    if p[0] == '-' || p[p.len() - 1] == '-' {
        return Err(PrefixError::EdgeDash(string_of(&p)));
    }
    let mut k: usize = 0;
    while k < p.len()
        invariant
            k <= p.len(),
            p@ == trim(raw@),
            p@.len() > 0 && p@[0] != '-' && p@.last() != '-',
            forall|i: int| 0 <= i < k ==> prefix_char(#[trigger] p@[i]),
        decreases p.len() - k,
    {
        let c = p[k];
        if !(('a' <= c && c <= 'z') || ('0' <= c && c <= '9') || c == '-') {
            assert(!prefix_char(p@[k as int]));
            assert(!(forall|i: int| 0 <= i < p@.len() ==> prefix_char(#[trigger] p@[i])));
            return Err(PrefixError::BadChars(string_of(&p)));
        }
        k += 1;
    }
    Ok(string_of(&p))
}

impl PrefixError {
    /// Human-readable reason.
    pub fn message(&self) -> (r: String)
        ensures
            r@ == prefix_error_text(self@),
    {
        match self {
            PrefixError::Empty => String::from_str("prefix must be non-empty"),
            PrefixError::EdgeDash(p) => {
                let mut s = String::from_str("prefix must not start or end with '-' (got `");
                s.append(p.as_str());
                s.append("`)");
                s
            },
            PrefixError::BadChars(p) => {
                let mut s = String::from_str(
                    "prefix must be lowercase ascii letters, digits, or '-' (got `",
                );
                s.append(p.as_str());
                s.append("`)");
                s
            },
        }
    }
}

pub open spec fn prefix_error_text(e: PrefixErrorKind) -> Seq<char> {
    match e {
        PrefixErrorKind::Empty => "prefix must be non-empty"@,
        PrefixErrorKind::EdgeDash(p) => "prefix must not start or end with '-' (got `"@ + p + "`)"@,
        PrefixErrorKind::BadChars(p) => "prefix must be lowercase ascii letters, digits, or '-' (got `"@
            + p + "`)"@,
    }
}

/// Free-tier Jira connection settings (from `canonic.toml` / `canonic.local.toml`).
#[derive(Debug, Clone)]
pub struct JiraSettings {
    /// Instance base URL, e.g. `https://your-instance.atlassian.net`.
    pub base_url: Option<String>,
    /// Cloud Free: account email for Basic auth with `api_token`.
    pub email: Option<String>,
    /// Cloud Free API token (with `email`).
    pub api_token: Option<String>,
    /// Raw `Authorization` header value; wins over email/token.
    pub auth_header: Option<String>,
}

impl Default for JiraSettings {
    fn default() -> (r: Self)
        ensures
            r.base_url is None && r.email is None && r.api_token is None && r.auth_header is None,
    {
        JiraSettings { base_url: None, email: None, api_token: None, auth_header: None }
    }
}

/// Trimmed value of an optional field, empty when absent.
pub open spec fn trimmed_or_empty(o: Option<String>) -> Seq<char> {
    match opt_view(o) {
        Some(s) => trim(s),
        None => seq![],
    }
}

fn trimmed_len(o: &Option<String>) -> (r: usize)
    ensures
        r == trimmed_or_empty(*o).len(),
{
    match o {
        Some(s) => trim_chars(&chars_of(s.as_str())).len(),
        None => 0,
    }
}

impl JiraSettings {
    /// Enough is set to attempt a connection: a base URL, and either an
    /// `Authorization` header or both email and API token (all non-blank).
    pub open spec fn configured(&self) -> bool {
        trimmed_or_empty(self.base_url).len() > 0 && (trimmed_or_empty(self.auth_header).len() > 0
            || (trimmed_or_empty(self.email).len() > 0 && trimmed_or_empty(self.api_token).len()
            > 0))
    }

    /// True when enough fields are present to attempt a connection.
    pub fn is_configured(&self) -> (r: bool)
        ensures
            r == self.configured(),
    {
        if trimmed_len(&self.base_url) == 0 {
            return false;
        }
        if trimmed_len(&self.auth_header) > 0 {
            return true;
        }
        trimmed_len(&self.email) > 0 && trimmed_len(&self.api_token) > 0
    }
}

/// Loaded canonic project settings.
#[derive(Debug, Clone)]
pub struct CanonicConfig {
    /// Shared id / front-matter prefix (e.g. `resp` gives `resp-topic-slug.md`).
    pub prefix: String,
    /// Optional free Jira REST settings.
    pub jira: JiraSettings,
    /// Path the primary TOML was loaded from.
    pub source_path: Option<String>,
}

impl Default for CanonicConfig {
    fn default() -> (r: Self)
        ensures
            r.prefix@ == DEFAULT_PREFIX@,
            r.jira.base_url is None && r.jira.email is None && r.jira.api_token is None
                && r.jira.auth_header is None,
            r.source_path is None,
    {
        CanonicConfig {
            prefix: String::from_str(DEFAULT_PREFIX),
            jira: JiraSettings::default(),
            source_path: None,
        }
    }
}

/// A base URL as kept after validation: trimmed, trailing `/` removed,
/// dropped when nothing is left.
pub open spec fn cleaned_base_url(o: Option<Seq<char>>) -> Option<Seq<char>> {
    match o {
        Some(u) => {
            let c = strip_trailing_char(trim(u), '/');
            if c.len() == 0 {
                None
            } else {
                Some(c)
            }
        },
        None => None,
    }
}

impl CanonicConfig {
    /// Validate and normalize: the prefix through [`normalize_prefix`], the
    /// Jira base URL cleaned; everything else unchanged.
    pub fn validate(self) -> (r: Result<Self, PrefixError>)
        ensures
            match r {
                Ok(c) => normalized_prefix(self.prefix@) == Ok::<Seq<char>, PrefixErrorKind>(
                    c.prefix@,
                ) && opt_view(c.jira.base_url) == cleaned_base_url(opt_view(self.jira.base_url))
                    && c.jira.email == self.jira.email && c.jira.api_token == self.jira.api_token
                    && c.jira.auth_header == self.jira.auth_header && c.source_path
                    == self.source_path,
                Err(e) => normalized_prefix(self.prefix@) == Err::<Seq<char>, PrefixErrorKind>(
                    e@,
                ),
            },
    {
        let prefix = match normalize_prefix(self.prefix.as_str()) {
            Ok(p) => p,
            Err(e) => {
                return Err(e);
            },
        };
        let base_url = match &self.jira.base_url {
            Some(u) => {
                let c = strip_trailing_char_chars(&trim_chars(&chars_of(u.as_str())), '/');
                if c.len() == 0 {
                    None
                } else {
                    Some(string_of(&c))
                }
            },
            None => None,
        };
        Ok(
            CanonicConfig {
                prefix,
                jira: JiraSettings {
                    base_url,
                    email: self.jira.email,
                    api_token: self.jira.api_token,
                    auth_header: self.jira.auth_header,
                },
                source_path: self.source_path,
            },
        )
    }
}

/// The prefix in force: the CLI one when given, else the configured one,
/// either normalized.
pub fn resolve_prefix(cli_prefix: Option<&str>, config: &CanonicConfig) -> (r: Result<
    String,
    PrefixError,
>)
    ensures
        result_view(r) == match cli_prefix {
            Some(p) => normalized_prefix(p@),
            None => normalized_prefix(config.prefix@),
        },
{
    match cli_prefix {
        Some(p) => normalize_prefix(p),
        None => normalize_prefix(config.prefix.as_str()),
    }
}

} // verus!

verus! {

proof fn lemma_trim_start_id(s: Seq<char>)
    requires
        s.len() == 0 || !is_ws(s[0]),
    ensures
        crate::text::trim_start(s) == s,
{
}

proof fn lemma_trim_end_id(s: Seq<char>)
    requires
        s.len() == 0 || !is_ws(s.last()),
    ensures
        crate::text::trim_end(s) == s,
{
}

/// A normalized prefix is its own normalization: normalizing twice gives
/// the same prefix.
pub proof fn law_normalize_prefix_idempotent(raw: Seq<char>)
    requires
        normalized_prefix(raw) is Ok,
    ensures
        normalized_prefix(normalized_prefix(raw)->Ok_0) == normalized_prefix(raw),
{
    let p = normalized_prefix(raw)->Ok_0;
    assert(prefix_char(p[0]));
    assert(prefix_char(p.last()));
    lemma_trim_start_id(p);
    lemma_trim_end_id(p);
    assert(trim(p) == p);
}

} // verus!
