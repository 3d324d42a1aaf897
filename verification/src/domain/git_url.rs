//! Recognising and parsing the Git repository locations that `grf` accepts:
//! `http(s)://` and `git://` URLs, `file://` URLs, `git@host:owner/repo` SSH
//! locations, and local directories.
use vstd::prelude::*;

use crate::domain::error::{is_invalid_url, GrfError, Result};
use crate::text::{
    chars_of, concat, ends_with, ends_with_chars, nonempty_pieces, nonempty_pieces_of, owned,
    push_line, replace_char, replace_char_exec, slice_chars, starts_with, starts_with_chars,
    string_from_chars,
};

verus! {

/// Where a repository lives, as far as its cache location is concerned.
#[derive(Debug, Clone)]
pub struct ParsedGitUrl {
    pub host: String,
    pub owner: String,
    pub repo: String,
    pub port: Option<u16>,
}

/// `(host, owner, repo, port)`.
pub type GitUrlView = (Seq<char>, Seq<char>, Seq<char>, Option<u16>);

impl View for ParsedGitUrl {
    type V = GitUrlView;

    open spec fn view(&self) -> GitUrlView {
        (self.host@, self.owner@, self.repo@, self.port)
    }
}

// ---------------------------------------------------------------------------
// Names for what the `url` crate and the file system give back
// ---------------------------------------------------------------------------

/// Whether `url::Url::parse` accepts `raw`.
pub uninterp spec fn url_parses(raw: Seq<char>) -> bool;

/// `Url::host_str` of the URL that `url::Url::parse` makes of `raw`.
pub uninterp spec fn url_host(raw: Seq<char>) -> Option<Seq<char>>;

/// `Url::path_segments` of the URL that `url::Url::parse` makes of `raw`.
pub uninterp spec fn url_path_segments(raw: Seq<char>) -> Option<Seq<Seq<char>>>;

/// `Url::port` of the URL that `url::Url::parse` makes of `raw`.
pub uninterp spec fn url_port(raw: Seq<char>) -> Option<u16>;

/// The UTF-8 path that `Url::to_file_path` gives for the URL parsed from `raw`;
/// `None` where parsing, the conversion or the UTF-8 check fails.
pub uninterp spec fn url_file_path(raw: Seq<char>) -> Option<Seq<char>>;

/// The pieces of a parsed URL that locate a repository.
#[derive(Debug, Clone)]
pub struct UrlParts {
    pub host: Option<String>,
    pub path_segments: Option<Vec<String>>,
    pub port: Option<u16>,
}

/// Calls `url::Url::parse` and reads `host_str`, `path_segments` and `port` of the
/// result. Claims: `Some` exactly when the parse succeeds, and then the three
/// pieces are those the crate computes for `raw` (named, not restated).
#[verifier::external_body]
fn parse_url(raw: &str) -> (r: Option<UrlParts>)
    ensures
        r is Some <==> url_parses(raw@),
        r matches Some(p) ==> {
            &&& p.host.deep_view() == url_host(raw@)
            &&& p.path_segments.deep_view() == url_path_segments(raw@)
            &&& p.port == url_port(raw@)
        },
{
    url::Url::parse(raw).ok().map(
        |u| UrlParts {
            host: u.host_str().map(|h| h.to_string()),
            path_segments: u.path_segments().map(|s| s.map(|x| x.to_string()).collect()),
            port: u.port(),
        },
    )
}

/// Calls `url::Url::parse` and then `Url::to_file_path`, keeping the path when it is
/// UTF-8. Claims only that the result is the named value for `raw`.
#[verifier::external_body]
fn url_to_file_path(raw: &str) -> (r: Option<String>)
    ensures
        r.deep_view() == url_file_path(raw@),
{
    url::Url::parse(raw).ok().and_then(|u| u.to_file_path().ok()).and_then(
        |p| p.into_os_string().into_string().ok(),
    )
}

/// `std::path::Path::exists`. Nothing is claimed: the answer depends on the disk.
#[verifier::external_body]
pub fn path_exists(path: &str) -> bool {
    std::path::Path::new(path).exists()
}

/// `std::path::Path::canonicalize`, keeping the result when it is UTF-8. Which path
/// comes back depends on the disk and is not claimed; what is claimed is what std
/// documents of every success: the form is absolute, so it starts at a root (`/`
/// on Unix; the `\\?\` extended-length prefix on Windows).
#[verifier::external_body]
fn canonicalize_utf8(path: &str) -> (r: Option<String>)
    ensures
        r matches Some(c) ==> is_rooted(c@),
{
    std::path::Path::new(path).canonicalize().ok().and_then(|p| p.into_os_string().into_string().ok())
}

// ---------------------------------------------------------------------------
// Specifications
// ---------------------------------------------------------------------------

pub open spec fn is_ascii_alnum(c: char) -> bool {
    ('0' <= c && c <= '9') || ('A' <= c && c <= 'Z') || ('a' <= c && c <= 'z')
}

/// The schemes and prefixes that mark a value as a Git URL without looking at disk.
pub open spec fn has_git_url_prefix(s: Seq<char>) -> bool {
    ||| starts_with(s, "http://"@)
    ||| starts_with(s, "https://"@)
    ||| starts_with(s, "git@"@)
    ||| starts_with(s, "file://"@)
    ||| starts_with(s, "git://"@)
}

/// `value` without one trailing `.git`.
pub open spec fn trim_repo_suffix_spec(s: Seq<char>) -> Seq<char> {
    if ends_with(s, ".git"@) {
        s.take(s.len() - 4)
    } else {
        s
    }
}

/// The decimal digits of `n`.
pub open spec fn decimal(n: nat) -> Seq<char>
    decreases n,
{
    if n < 10 {
        seq![digit_char(n)]
    } else {
        decimal(n / 10).push(digit_char(n % 10))
    }
}

pub open spec fn digit_char(d: nat) -> char {
    ((48 + d) as u32) as char
}

/// The directory name under which a host's repositories are cached.
pub open spec fn storage_host_spec(v: GitUrlView) -> Seq<char> {
    match v.3 {
        Some(port) => v.0 + "_"@ + decimal(port as nat),
        None => v.0,
    }
}

/// `host/owner/repo`, with the port folded into the host part.
pub open spec fn canonical_name_spec(v: GitUrlView) -> Seq<char> {
    storage_host_spec(v) + "/"@ + v.1 + "/"@ + v.2
}

/// The segments that are not empty, in order.
pub open spec fn drop_empty(segs: Seq<Seq<char>>) -> Seq<Seq<char>>
    decreases segs.len(),
{
    if segs.len() == 0 {
        seq![]
    } else if segs[0].len() == 0 {
        drop_empty(segs.drop_first())
    } else {
        seq![segs[0]] + drop_empty(segs.drop_first())
    }
}

/// The location described by the pieces of a parsed `http(s)://` or `git://` URL.
pub open spec fn http_parts_spec(
    host: Option<Seq<char>>,
    segments: Option<Seq<Seq<char>>>,
    port: Option<u16>,
) -> Option<GitUrlView> {
    match (host, segments) {
        (Some(h), Some(segs)) => {
            let f = drop_empty(segs);
            if f.len() < 2 {
                None
            } else {
                Some((h, f[0], trim_repo_suffix_spec(f[1]), port))
            }
        },
        _ => None,
    }
}

/// The location described by an `http(s)://` or `git://` URL.
pub open spec fn http_like_spec(raw: Seq<char>) -> Option<GitUrlView> {
    if url_parses(raw) {
        http_parts_spec(url_host(raw), url_path_segments(raw), url_port(raw))
    } else {
        None
    }
}

/// Index of the first `c` in `s`.
pub open spec fn first_index_of(s: Seq<char>, c: char) -> Option<int>
    decreases s.len(),
{
    if s.len() == 0 {
        None
    } else if s[0] == c {
        Some(0)
    } else {
        match first_index_of(s.drop_first(), c) {
            Some(i) => Some(i + 1),
            None => None,
        }
    }
}

/// Index of the last `c` in `s`.
pub open spec fn last_index_of(s: Seq<char>, c: char) -> Option<int>
    decreases s.len(),
{
    if s.len() == 0 {
        None
    } else if s.last() == c {
        Some(s.len() - 1)
    } else {
        last_index_of(s.drop_last(), c)
    }
}

/// The location described by `git@host:owner/repo`.
pub open spec fn ssh_spec(raw: Seq<char>) -> Option<GitUrlView> {
    let w = raw.skip(4);
    match first_index_of(w, ':') {
        None => None,
        Some(k) => {
            let segs = nonempty_pieces(w.skip(k + 1), '/');
            if segs.len() != 2 {
                None
            } else {
                Some((w.take(k), segs[0], trim_repo_suffix_spec(segs[1]), None))
            }
        },
    }
}

/// `s` without any trailing `c`.
pub open spec fn trim_end_char(s: Seq<char>, c: char) -> Seq<char>
    decreases s.len(),
{
    if s.len() > 0 && s.last() == c {
        trim_end_char(s.drop_last(), c)
    } else {
        s
    }
}

/// `s` without any leading `c`.
pub open spec fn trim_start_char(s: Seq<char>, c: char) -> Seq<char>
    decreases s.len(),
{
    if s.len() > 0 && s[0] == c {
        trim_start_char(s.drop_first(), c)
    } else {
        s
    }
}

/// Every character mapped to itself when ASCII alphanumeric and to `_` otherwise,
/// with runs of `_` collapsed; `last_underscore` says whether the output so far
/// ends in `_`.
pub open spec fn collapse_from(s: Seq<char>, last_underscore: bool) -> Seq<char>
    decreases s.len(),
{
    if s.len() == 0 {
        seq![]
    } else if is_ascii_alnum(s[0]) {
        seq![s[0]] + collapse_from(s.drop_first(), false)
    } else if last_underscore {
        collapse_from(s.drop_first(), true)
    } else {
        seq!['_'] + collapse_from(s.drop_first(), true)
    }
}

/// A path turned into a label of ASCII letters, digits and single `_`s, without
/// `_` at either end.
pub open spec fn sanitize_spec(s: Seq<char>) -> Seq<char> {
    trim_end_char(trim_start_char(collapse_from(s, false), '_'), '_')
}

/// The location of a local repository, from its canonical path.
pub open spec fn local_path_spec(canonical: Seq<char>) -> Option<GitUrlView> {
    let c = trim_end_char(replace_char(canonical, '\\', '/'), '/');
    let (name, parent) = match last_index_of(c, '/') {
        Some(k) => (c.skip(k + 1), c.take(k)),
        None => (c, "root"@),
    };
    if name.len() == 0 {
        None
    } else {
        Some(("local"@, sanitize_spec(parent), trim_repo_suffix_spec(name), None))
    }
}

/// `r` is the outcome that `spec` describes for the input `url`: the location, or
/// `InvalidGitUrl` naming `url`.
pub open spec fn outcome_is(r: Result<ParsedGitUrl>, spec: Option<GitUrlView>, url: Seq<char>) -> bool {
    match spec {
        Some(v) => r matches Ok(p) && p@ == v,
        None => r matches Err(e) && is_invalid_url(e, url),
    }
}

/// A path that starts at a root: its first character is a separator (`/`, or `\`).
pub open spec fn is_rooted(c: Seq<char>) -> bool {
    c.len() > 0 && (c[0] == '/' || c[0] == '\\')
}

/// A canonical form the disk can give: absolute, when there is one.
pub open spec fn rooted_or_none(c: Option<Seq<char>>) -> bool {
    match c {
        Some(p) => is_rooted(p),
        None => true,
    }
}

/// What a look at the disk for the local path `raw` can give: the answer for some
/// absolute canonical form of it (or for none).
pub open spec fn local_answer(r: Result<ParsedGitUrl>, raw: Seq<char>) -> bool {
    exists|c: Option<Seq<char>>| rooted_or_none(c) && answer_is(r, #[trigger] canonical_answer(raw, c))
}

pub open spec fn is_http_like(s: Seq<char>) -> bool {
    starts_with(s, "http://"@) || starts_with(s, "https://"@) || starts_with(s, "git://"@)
}

/// The answer for a local `path` whose canonical form the disk gave as `canonical`
/// (`None` when it could not be resolved): `Ok` with the location, or `Err` with
/// the value that `InvalidGitUrl` names, `path` itself.
pub open spec fn canonical_answer(path: Seq<char>, canonical: Option<Seq<char>>) -> std::result::Result<GitUrlView, Seq<char>> {
    match canonical {
        Some(c) => match local_path_spec(c) {
            Some(v) => Ok(v),
            None => Err(path),
        },
        None => Err(path),
    }
}

/// What `parse_git_url` answers for `raw`, given what the disk answered: `exists`,
/// whether `raw` is a path that exists (asked only of values without a URL prefix),
/// and `canonical`, the canonical form of the local path looked up (`raw`, or the
/// path of a `file://` URL). `Ok` holds the location, `Err` the value that
/// `InvalidGitUrl` names.
pub open spec fn git_url_answer(raw: Seq<char>, exists: bool, canonical: Option<Seq<char>>) -> std::result::Result<GitUrlView, Seq<char>> {
    if is_http_like(raw) {
        match http_like_spec(raw) {
            Some(v) => Ok(v),
            None => Err(raw),
        }
    } else if starts_with(raw, "file://"@) {
        match url_file_path(raw) {
            Some(path) => canonical_answer(path, canonical),
            None => Err(raw),
        }
    } else if starts_with(raw, "git@"@) {
        match ssh_spec(raw) {
            Some(v) => Ok(v),
            None => Err(raw),
        }
    } else if exists {
        canonical_answer(raw, canonical)
    } else {
        Err(raw)
    }
}

/// `r` is the answer `a`: the location it holds, or `InvalidGitUrl` naming the
/// value it holds.
pub open spec fn answer_is(r: Result<ParsedGitUrl>, a: std::result::Result<GitUrlView, Seq<char>>) -> bool {
    match a {
        Ok(v) => r matches Ok(p) && p@ == v,
        Err(u) => r matches Err(e) && is_invalid_url(e, u),
    }
}

pub open spec fn opt_view(o: Option<&str>) -> Option<Seq<char>> {
    match o {
        Some(s) => Some(s@),
        None => None,
    }
}


// ---------------------------------------------------------------------------
// Laws
// ---------------------------------------------------------------------------

/// Whatever the disk answered, a value that parses as a Git location looks like
/// one (`looks_like_git_url_given` with the same answer), and a value that does not
/// look like one is refused as an invalid Git URL naming it.
pub proof fn law_parsed_values_look_like_git_urls(raw: Seq<char>, exists: bool, canonical: Option<Seq<char>>)
    ensures
        git_url_answer(raw, exists, canonical) is Ok ==> has_git_url_prefix(raw) || exists,
        !(has_git_url_prefix(raw) || exists) ==> git_url_answer(raw, exists, canonical) == Err::<
            GitUrlView,
            Seq<char>,
        >(raw),
{
}

/// A `file://` URL parses as the path it names does, when that path exists and the
/// disk gives the same canonical form for it.
pub proof fn law_file_url_parses_as_its_path(
    url: Seq<char>,
    path: Seq<char>,
    exists: bool,
    canonical: Option<Seq<char>>,
)
    requires
        starts_with(url, "file://"@),
        url_file_path(url) == Some(path),
        !has_git_url_prefix(path),
    ensures
        git_url_answer(url, exists, canonical) == git_url_answer(path, true, canonical),
{
    reveal_strlit("file://");
    reveal_strlit("http://");
    reveal_strlit("https://");
    reveal_strlit("git://");
    assert(url.take(7)[0] == url[0]);
    assert(url[0] == 'f');
    assert(!starts_with(url, "http://"@)) by {
        if starts_with(url, "http://"@) {
            assert(url.take(7)[0] == url[0]);
        }
    }
    assert(!starts_with(url, "https://"@)) by {
        if starts_with(url, "https://"@) {
            assert(url.take(8)[0] == url[0]);
        }
    }
    assert(!starts_with(url, "git://"@)) by {
        if starts_with(url, "git://"@) {
            assert(url.take(6)[0] == url[0]);
        }
    }
}

/// A local location is read off an absolute path: where the look at the disk for a
/// local path succeeds (as `parse_git_url` does for a value without a URL prefix,
/// or for the path of a `file://` URL), the location is that of some absolute
/// canonical path, never of the path as typed when that is relative.
pub proof fn law_local_location_from_absolute_path(r: Result<ParsedGitUrl>, raw: Seq<char>)
    requires
        local_answer(r, raw),
        r is Ok,
    ensures
        exists|c: Seq<char>| is_rooted(c) && local_path_spec(c) == Some(r->Ok_0@),
{
    let c = choose|c: Option<Seq<char>>| rooted_or_none(c) && answer_is(r, #[trigger] canonical_answer(raw, c));
    let p = c->Some_0;
    assert(is_rooted(p) && local_path_spec(p) == Some(r->Ok_0@));
}

/// Every character is an ASCII letter or digit or `_`, and no two `_` are adjacent.
pub open spec fn is_label_body(s: Seq<char>) -> bool {
    &&& forall|i: int| 0 <= i < s.len() ==> is_ascii_alnum(#[trigger] s[i]) || s[i] == '_'
    &&& forall|i: int| 0 <= i < s.len() - 1 ==> !(#[trigger] s[i] == '_' && s[i + 1] == '_')
}

/// A label: a label body that neither starts nor ends with `_`.
pub open spec fn is_label(s: Seq<char>) -> bool {
    &&& is_label_body(s)
    &&& s.len() > 0 ==> s[0] != '_' && s.last() != '_'
}

proof fn lemma_collapse_body(s: Seq<char>, lu: bool)
    ensures
        is_label_body(collapse_from(s, lu)),
        lu && collapse_from(s, lu).len() > 0 ==> collapse_from(s, lu)[0] != '_',
    decreases s.len(),
{
    if s.len() > 0 {
        let rest = s.drop_first();
        if is_ascii_alnum(s[0]) {
            lemma_collapse_body(rest, false);
            let r = collapse_from(rest, false);
            let out = seq![s[0]] + r;
            assert forall|i: int| 0 <= i < out.len() implies is_ascii_alnum(#[trigger] out[i]) || out[i] == '_' by {
                if i > 0 {
                    assert(out[i] == r[i - 1]);
                }
            }
            assert forall|i: int| 0 <= i < out.len() - 1 implies !(#[trigger] out[i] == '_' && out[i + 1] == '_') by {
                if i > 0 {
                    assert(out[i] == r[i - 1] && out[i + 1] == r[i]);
                }
            }
        } else if lu {
            lemma_collapse_body(rest, true);
        } else {
            lemma_collapse_body(rest, true);
            let r = collapse_from(rest, true);
            let out = seq!['_'] + r;
            assert forall|i: int| 0 <= i < out.len() implies is_ascii_alnum(#[trigger] out[i]) || out[i] == '_' by {
                if i > 0 {
                    assert(out[i] == r[i - 1]);
                }
            }
            assert forall|i: int| 0 <= i < out.len() - 1 implies !(#[trigger] out[i] == '_' && out[i + 1] == '_') by {
                if i > 0 {
                    assert(out[i] == r[i - 1] && out[i + 1] == r[i]);
                } else {
                    assert(out[1] == r[0]);
                }
            }
        }
    }
}

proof fn lemma_trim_start_char_skip(s: Seq<char>, c: char) -> (k: int)
    ensures
        0 <= k <= s.len(),
        trim_start_char(s, c) == s.skip(k),
        trim_start_char(s, c).len() > 0 ==> trim_start_char(s, c)[0] != c,
    decreases s.len(),
{
    if s.len() > 0 && s[0] == c {
        let k = lemma_trim_start_char_skip(s.drop_first(), c);
        assert(s.drop_first().skip(k) =~= s.skip(k + 1));
        k + 1
    } else {
        assert(s.skip(0) =~= s);
        0
    }
}

proof fn lemma_trim_end_char_take(s: Seq<char>, c: char) -> (k: int)
    ensures
        0 <= k <= s.len(),
        trim_end_char(s, c) == s.take(k),
        trim_end_char(s, c).len() > 0 ==> trim_end_char(s, c).last() != c,
    decreases s.len(),
{
    if s.len() > 0 && s.last() == c {
        let k = lemma_trim_end_char_take(s.drop_last(), c);
        assert(s.drop_last().take(k) =~= s.take(k));
        k
    } else {
        assert(s.take(s.len() as int) =~= s);
        s.len() as int
    }
}

/// A sanitised path label holds only ASCII letters, digits and single `_`s, and
/// neither starts nor ends with `_`.
pub proof fn law_sanitize_gives_label(s: Seq<char>)
    ensures
        is_label(sanitize_spec(s)),
{
    let c = collapse_from(s, false);
    lemma_collapse_body(s, false);
    let a = trim_start_char(c, '_');
    let ka = lemma_trim_start_char_skip(c, '_');
    let r = trim_end_char(a, '_');
    let kr = lemma_trim_end_char_take(a, '_');
    assert(r =~= c.subrange(ka, ka + kr));
    assert forall|i: int| 0 <= i < r.len() implies is_ascii_alnum(#[trigger] r[i]) || r[i] == '_' by {
        assert(r[i] == c[ka + i]);
    }
    assert forall|i: int| 0 <= i < r.len() - 1 implies !(#[trigger] r[i] == '_' && r[i + 1] == '_') by {
        assert(r[i] == c[ka + i] && r[i + 1] == c[ka + i + 1]);
    }
    if r.len() > 0 {
        assert(r[0] == a[0]);
    }
}

/// On a label, collapsing changes nothing.
proof fn lemma_collapse_label(s: Seq<char>, lu: bool)
    requires
        is_label_body(s),
        lu ==> (s.len() == 0 || s[0] != '_'),
    ensures
        collapse_from(s, lu) == s,
    decreases s.len(),
{
    if s.len() > 0 {
        let rest = s.drop_first();
        assert(is_label_body(rest)) by {
            assert forall|i: int| 0 <= i < rest.len() implies is_ascii_alnum(#[trigger] rest[i]) || rest[i] == '_' by {
                assert(rest[i] == s[i + 1]);
            }
            assert forall|i: int| 0 <= i < rest.len() - 1 implies !(#[trigger] rest[i] == '_' && rest[i + 1] == '_') by {
                assert(rest[i] == s[i + 1] && rest[i + 1] == s[i + 2]);
            }
        }
        if is_ascii_alnum(s[0]) {
            lemma_collapse_label(rest, false);
        } else {
            assert(s[0] == '_');
            assert(!lu);
            if rest.len() > 0 {
                assert(rest[0] == s[1]);
                assert(!(s[0] == '_' && s[1] == '_'));
            }
            lemma_collapse_label(rest, true);
        }
        assert(s =~= seq![s[0]] + rest);
    }
}

/// Sanitising a label gives it back unchanged: sanitising twice is sanitising once.
pub proof fn law_sanitize_idempotent(s: Seq<char>)
    ensures
        sanitize_spec(sanitize_spec(s)) == sanitize_spec(s),
{
    let r = sanitize_spec(s);
    law_sanitize_gives_label(s);
    lemma_collapse_label(r, false);
    if r.len() > 0 {
        assert(trim_start_char(r, '_') == r);
        assert(trim_end_char(r, '_') == r);
    } else {
        assert(trim_start_char(r, '_') == r);
        assert(trim_end_char(r, '_') == r);
    }
}

// ---------------------------------------------------------------------------
// Executable code
// ---------------------------------------------------------------------------

impl ParsedGitUrl {
    /// `host/owner/repo`, with the port folded into the host part.
    pub fn canonical_name(&self) -> (s: String)
        ensures
            s@ == canonical_name_spec(self@),
    {
        let mut cs = chars_of(&self.storage_host());
        cs.push('/');
        cs = concat(&cs, &chars_of(&self.owner));
        cs.push('/');
        cs = concat(&cs, &chars_of(&self.repo));
        proof {
            reveal_strlit("/");
            assert(canonical_name_spec(self@) =~= storage_host_spec(self@).push('/') + self.owner@.push('/') + self.repo@) by {
                assert("/"@ =~= seq!['/']);
            }
        }
        let s = string_from_chars(&cs);
        proof {
            reveal_strlit("/");
            assert(cs@ =~= canonical_name_spec(self@));
        }
        s
    }

    /// The host, or `host_port` when a port is given.
    pub fn storage_host(&self) -> (s: String)
        ensures
            s@ == storage_host_spec(self@),
    {
        match self.port {
            Some(port) => {
                let mut cs = chars_of(&self.host);
                cs.push('_');
                let digits = u16_decimal(port);
                let all = concat(&cs, &digits);
                proof {
                    reveal_strlit("_");
                    assert(all@ =~= storage_host_spec(self@));
                }
                string_from_chars(&all)
            },
            None => self.host.clone(),
        }
    }
}

/// The decimal digits of `n`.
pub fn u16_decimal(n: u16) -> (r: Vec<char>)
    ensures
        r@ == decimal(n as nat),
    decreases n,
{
    let d = (n % 10) as u8;
    let c = (48u8 + d) as char;
    assert(c == digit_char((n % 10) as nat));
    if n < 10 {
        let mut r: Vec<char> = Vec::new();
        r.push(c);
        assert(r@ =~= seq![digit_char(n as nat)]);
        r
    } else {
        let mut r = u16_decimal(n / 10);
        r.push(c);
        r
    }
}

/// Whether `value` names a Git repository: it carries one of the URL prefixes
/// `http://`, `https://`, `git@`, `file://`, `git://`, or it is a path that exists.
pub fn looks_like_git_url(value: &str) -> (b: bool)
    ensures
        has_git_url_prefix(value@) ==> b,
{
    if has_git_url_prefix_exec(value) {
        true
    } else {
        looks_like_git_url_given(value, path_exists(value))
    }
}

/// What `looks_like_git_url` answers once it is known whether `value` is a path
/// that exists.
pub fn looks_like_git_url_given(value: &str, exists: bool) -> (b: bool)
    ensures
        b == (has_git_url_prefix(value@) || exists),
{
    has_git_url_prefix_exec(value) || exists
}

fn has_git_url_prefix_exec(value: &str) -> (b: bool)
    ensures
        b == has_git_url_prefix(value@),
{
    let v = chars_of(value);
    starts_with_chars(&v, &chars_of("http://")) || starts_with_chars(&v, &chars_of("https://"))
        || starts_with_chars(&v, &chars_of("git@")) || starts_with_chars(&v, &chars_of("file://"))
        || starts_with_chars(&v, &chars_of("git://"))
}

fn starts_with_lit(v: &Vec<char>, lit: &str) -> (b: bool)
    ensures
        b == starts_with(v@, lit@),
{
    starts_with_chars(v, &chars_of(lit))
}

fn invalid_url(raw: &str) -> (e: GrfError)
    ensures
        is_invalid_url(e, raw@),
{
    GrfError::InvalidGitUrl { url: owned(raw) }
}

/// Parses a repository location.
///
/// `http://`, `https://` and `git://` URLs are read with the `url` crate; `git@`
/// locations are split by hand; `file://` URLs and other existing paths are
/// resolved on disk.
pub fn parse_git_url(raw: &str) -> (r: Result<ParsedGitUrl>)
    ensures
        is_http_like(raw@) ==> outcome_is(r, http_like_spec(raw@), raw@),
        !is_http_like(raw@) && starts_with(raw@, "file://"@) ==> match url_file_path(raw@) {
            None => r matches Err(e) && is_invalid_url(e, raw@),
            Some(path) => local_answer(r, path),
        },
        !is_http_like(raw@) && !starts_with(raw@, "file://"@) && starts_with(raw@, "git@"@)
            ==> outcome_is(r, ssh_spec(raw@), raw@),
        !has_git_url_prefix(raw@) ==> local_answer(r, raw@),
        exists|exists: bool, canonical: Option<Seq<char>>|
            answer_is(r, #[trigger] git_url_answer(raw@, exists, canonical)),
{
    let v = chars_of(raw);
    if starts_with_lit(&v, "http://") || starts_with_lit(&v, "https://") {
        let r = parse_http_url(raw);
        assert(answer_is(r, git_url_answer(raw@, false, None)));
        return r;
    }
    if starts_with_lit(&v, "git://") {
        let r = parse_http_like_url(raw);
        assert(answer_is(r, git_url_answer(raw@, false, None)));
        return r;
    }
    if starts_with_lit(&v, "file://") {
        let r = parse_file_url(raw);
        proof {
            match url_file_path(raw@) {
                None => {
                    assert(answer_is(r, git_url_answer(raw@, false, None)));
                },
                Some(path) => {
                    let c = choose|c: Option<Seq<char>>| rooted_or_none(c) && answer_is(r, canonical_answer(path, c));
                    assert(answer_is(r, git_url_answer(raw@, false, c)));
                },
            }
        }
        return r;
    }
    if starts_with_lit(&v, "git@") {
        let r = parse_ssh_url(raw);
        assert(answer_is(r, git_url_answer(raw@, false, None)));
        return r;
    }
    if path_exists(raw) {
        let r = parse_local_path(raw);
        proof {
            let c = choose|c: Option<Seq<char>>| rooted_or_none(c) && answer_is(r, canonical_answer(raw@, c));
            assert(answer_is(r, git_url_answer(raw@, true, c)));
        }
        return r;
    }
    let r = Err(invalid_url(raw));
    assert(answer_is(r, git_url_answer(raw@, false, None)));
    r
}

/// What `parse_git_url` answers once the disk has answered: `exists`, whether
/// `raw` is a path that exists, and `canonical`, the canonical form of the local
/// path looked up (`raw`, or the path of a `file://` URL).
pub fn parse_git_url_given(raw: &str, exists: bool, canonical: Option<&str>) -> (r: Result<ParsedGitUrl>)
    ensures
        answer_is(r, git_url_answer(raw@, exists, opt_view(canonical))),
{
    let v = chars_of(raw);
    if starts_with_lit(&v, "http://") || starts_with_lit(&v, "https://") {
        return parse_http_url(raw);
    }
    if starts_with_lit(&v, "git://") {
        return parse_http_like_url(raw);
    }
    if starts_with_lit(&v, "file://") {
        return match url_to_file_path(raw) {
            Some(path) => parsed_from_canonical_path(path.as_str(), canonical),
            None => Err(invalid_url(raw)),
        };
    }
    if starts_with_lit(&v, "git@") {
        return parse_ssh_url(raw);
    }
    if exists {
        return parsed_from_canonical_path(raw, canonical);
    }
    Err(invalid_url(raw))
}

fn parse_http_url(raw: &str) -> (r: Result<ParsedGitUrl>)
    ensures
        outcome_is(r, http_like_spec(raw@), raw@),
{
    parse_http_like_url(raw)
}

fn parse_http_like_url(raw: &str) -> (r: Result<ParsedGitUrl>)
    ensures
        outcome_is(r, http_like_spec(raw@), raw@),
{
    let parts = parse_url(raw);
    parsed_from_url_parts(raw, &parts)
}

/// The location described by what `url::Url::parse` made of `raw` (`None` when it
/// failed): the host, the first two non-empty path segments as owner and
/// repository (less a `.git` suffix), and the port.
pub fn parsed_from_url_parts(raw: &str, parts: &Option<UrlParts>) -> (r: Result<ParsedGitUrl>)
    ensures
        outcome_is(
            r,
            match parts {
                Some(p) => http_parts_spec(p.host.deep_view(), p.path_segments.deep_view(), p.port),
                None => None,
            },
            raw@,
        ),
{
    let p = match parts {
        Some(p) => p,
        None => return Err(invalid_url(raw)),
    };
    let host = match &p.host {
        Some(h) => h,
        None => return Err(invalid_url(raw)),
    };
    let segments = match &p.path_segments {
        Some(s) => s,
        None => return Err(invalid_url(raw)),
    };
    let filtered = non_empty_segments(segments);
    if filtered.len() < 2 {
        return Err(invalid_url(raw));
    }
    assert(filtered.deep_view()[0] == filtered[0]@);
    assert(filtered.deep_view()[1] == filtered[1]@);
    assert(p.host.deep_view() == Some(host@));
    assert(p.path_segments.deep_view() == Some(segments.deep_view()));
    let owner = string_from_chars(&filtered[0]);
    let repo = trim_repo_suffix(&filtered[1]);
    Ok(ParsedGitUrl { host: host.clone(), owner, repo: string_from_chars(&repo), port: p.port })
}

/// The non-empty segments, in order.
fn non_empty_segments(segs: &Vec<String>) -> (r: Vec<Vec<char>>)
    ensures
        r.deep_view() == drop_empty(segs.deep_view()),
{
    let mut out: Vec<Vec<char>> = Vec::new();
    let mut i: usize = 0;
    assert(segs.deep_view().skip(0) =~= segs.deep_view());
    assert(out.deep_view() + drop_empty(segs.deep_view()) =~= drop_empty(segs.deep_view()));
    while i < segs.len()
        invariant
            i <= segs.len(),
            drop_empty(segs.deep_view()) == out.deep_view() + drop_empty(segs.deep_view().skip(i as int)),
        decreases segs.len() - i,
    {
        let ghost rest = segs.deep_view().skip(i as int);
        assert(rest[0] == segs[i as int]@);
        assert(rest.drop_first() =~= segs.deep_view().skip(i + 1));
        let seg = chars_of(segs[i].as_str());
        if seg.len() > 0 {
            let ghost before = out.deep_view();
            push_line(&mut out, seg);
            assert(before + (seq![rest[0]] + drop_empty(rest.drop_first())) =~= out.deep_view()
                + drop_empty(rest.drop_first()));
        }
        i += 1;
    }
    assert(segs.deep_view().skip(i as int) =~= Seq::<Seq<char>>::empty());
    assert(out.deep_view() + Seq::<Seq<char>>::empty() =~= out.deep_view());
    out
}

/// `value` without one trailing `.git`.
/// `value` without one trailing `.git`.
fn trim_repo_suffix(value: &Vec<char>) -> (r: Vec<char>)
    ensures
        r@ == trim_repo_suffix_spec(value@),
{
    if ends_with_chars(value, &chars_of(".git")) {
        proof { reveal_strlit(".git"); }
        slice_chars(value, 0, value.len() - 4)
    } else {
        slice_chars(value, 0, value.len())
    }
}

fn parse_ssh_url(raw: &str) -> (r: Result<ParsedGitUrl>)
    requires
        starts_with(raw@, "git@"@),
    ensures
        outcome_is(r, ssh_spec(raw@), raw@),
{
    let v = chars_of(raw);
    proof { reveal_strlit("git@"); }
    let w = slice_chars(&v, 4, v.len());
    assert(w@ =~= raw@.skip(4));
    let k = match first_index_of_exec(&w, ':') {
        Some(k) => k,
        None => return Err(invalid_url(raw)),
    };
    let host = slice_chars(&w, 0, k);
    let path = slice_chars(&w, k + 1, w.len());
    assert(path@ =~= w@.skip(k + 1));
    let segments = nonempty_pieces_of(&path, '/');
    if segments.len() != 2 {
        return Err(invalid_url(raw));
    }
    assert(segments.deep_view()[0] == segments[0]@);
    assert(segments.deep_view()[1] == segments[1]@);
    let repo = trim_repo_suffix(&segments[1]);
    Ok(
        ParsedGitUrl {
            host: string_from_chars(&host),
            owner: string_from_chars(&segments[0]),
            repo: string_from_chars(&repo),
            port: None,
        },
    )
}

fn first_index_of_exec(s: &Vec<char>, c: char) -> (r: Option<usize>)
    ensures
        match r {
            Some(i) => first_index_of(s@, c) == Some(i as int) && i < s.len(),
            None => first_index_of(s@, c) is None,
        },
{
    let mut i: usize = 0;
    while i < s.len()
        invariant
            i <= s.len(),
            forall|j: int| 0 <= j < i ==> s@[j] != c,
        decreases s.len() - i,
    {
        if s[i] == c {
            proof { lemma_first_index_of(s@, c, i as int); }
            return Some(i);
        }
        i += 1;
    }
    proof { lemma_first_index_of_none(s@, c); }
    None
}

proof fn lemma_first_index_of(s: Seq<char>, c: char, i: int)
    requires
        0 <= i < s.len(),
        s[i] == c,
        forall|j: int| 0 <= j < i ==> s[j] != c,
    ensures
        first_index_of(s, c) == Some(i),
    decreases i,
{
    if i > 0 {
        assert forall|j: int| 0 <= j < i - 1 implies s.drop_first()[j] != c by {
            assert(s.drop_first()[j] == s[j + 1]);
        }
        lemma_first_index_of(s.drop_first(), c, i - 1);
    }
}

proof fn lemma_first_index_of_none(s: Seq<char>, c: char)
    requires
        forall|j: int| 0 <= j < s.len() ==> s[j] != c,
    ensures
        first_index_of(s, c) is None,
    decreases s.len(),
{
    if s.len() > 0 {
        assert forall|j: int| 0 <= j < s.drop_first().len() implies s.drop_first()[j] != c by {
            assert(s.drop_first()[j] == s[j + 1]);
        }
        lemma_first_index_of_none(s.drop_first(), c);
    }
}

fn parse_file_url(raw: &str) -> (r: Result<ParsedGitUrl>)
    ensures
        match url_file_path(raw@) {
            None => r matches Err(e) && is_invalid_url(e, raw@),
            Some(path) => local_answer(r, path),
        },
{
    match url_to_file_path(raw) {
        Some(path) => parse_local_path(path.as_str()),
        None => Err(invalid_url(raw)),
    }
}

fn parse_local_path(raw: &str) -> (r: Result<ParsedGitUrl>)
    ensures
        local_answer(r, raw@),
{
    let canonical = canonicalize_utf8(raw);
    let r = match &canonical {
        Some(c) => parsed_from_canonical_path(raw, Some(c.as_str())),
        None => parsed_from_canonical_path(raw, None),
    };
    assert(answer_is(r, canonical_answer(raw@, canonical.deep_view())));
    r
}

/// The location of a local repository, from its canonical path (`None` when the
/// path could not be resolved): host `local`, the sanitised parent directory as
/// owner, the last path component (less `.git`) as repository.
pub fn parsed_from_canonical_path(raw: &str, canonical: Option<&str>) -> (r: Result<ParsedGitUrl>)
    ensures
        outcome_is(
            r,
            match canonical {
                Some(c) => local_path_spec(c@),
                None => None,
            },
            raw@,
        ),
{
    let canonical = match canonical {
        Some(c) => c,
        None => return Err(invalid_url(raw)),
    };
    let replaced = replace_char_exec(&chars_of(canonical), '\\', '/');
    let c = trim_end_char_exec(&replaced, '/');
    let (name, parent) = match last_index_of_exec(&c, '/') {
        Some(k) => (slice_chars(&c, k + 1, c.len()), slice_chars(&c, 0, k)),
        None => (slice_chars(&c, 0, c.len()), chars_of("root")),
    };
    proof {
        assert(c@.subrange(0, c@.len() as int) =~= c@);
        match last_index_of(c@, '/') {
            Some(k) => {
                assert(c@.subrange(k + 1, c@.len() as int) =~= c@.skip(k + 1));
                assert(c@.subrange(0, k) =~= c@.take(k));
            },
            None => {},
        }
    }
    if name.len() == 0 {
        return Err(invalid_url(raw));
    }
    let repo = trim_repo_suffix(&name);
    let owner = sanitize_path_label(string_from_chars(&parent).as_str());
    Ok(
        ParsedGitUrl {
            host: owned("local"),
            owner,
            repo: string_from_chars(&repo),
            port: None,
        },
    )
}

fn trim_end_char_exec(s: &Vec<char>, c: char) -> (r: Vec<char>)
    ensures
        r@ == trim_end_char(s@, c),
{
    let mut j: usize = s.len();
    assert(s@.take(j as int) =~= s@);
    while j > 0 && s[j - 1] == c
        invariant
            j <= s.len(),
            trim_end_char(s@, c) == trim_end_char(s@.take(j as int), c),
        decreases j,
    {
        assert(s@.take(j as int).drop_last() =~= s@.take(j - 1));
        j -= 1;
    }
    let r = slice_chars(s, 0, j);
    assert(r@ =~= s@.take(j as int));
    r
}

fn last_index_of_exec(s: &Vec<char>, c: char) -> (r: Option<usize>)
    ensures
        match r {
            Some(i) => last_index_of(s@, c) == Some(i as int) && i < s.len(),
            None => last_index_of(s@, c) is None,
        },
{
    let mut j: usize = s.len();
    assert(s@.take(j as int) =~= s@);
    while j > 0
        invariant
            j <= s.len(),
            last_index_of(s@, c) == last_index_of(s@.take(j as int), c),
        decreases j,
    {
        assert(s@.take(j as int).last() == s@[j - 1]);
        if s[j - 1] == c {
            return Some(j - 1);
        }
        assert(s@.take(j as int).drop_last() =~= s@.take(j - 1));
        j -= 1;
    }
    None
}

fn is_ascii_alnum_exec(c: char) -> (b: bool)
    ensures
        b == is_ascii_alnum(c),
{
    ('0' <= c && c <= '9') || ('A' <= c && c <= 'Z') || ('a' <= c && c <= 'z')
}

/// Turns a path into a label: ASCII letters and digits kept, every run of other
/// characters replaced by one `_`, and `_` trimmed from both ends.
pub fn sanitize_path_label(value: &str) -> (r: String)
    ensures
        r@ == sanitize_spec(value@),
{
    string_from_chars(&sanitize_chars(&chars_of(value)))
}

fn sanitize_chars(s: &Vec<char>) -> (r: Vec<char>)
    ensures
        r@ == sanitize_spec(s@),
{
    let mut out: Vec<char> = Vec::new();
    let mut last_was_underscore = false;
    let mut i: usize = 0;
    assert(s@.skip(0) =~= s@);
    while i < s.len()
        invariant
            i <= s.len(),
            collapse_from(s@, false) == out@ + collapse_from(s@.skip(i as int), last_was_underscore),
        decreases s.len() - i,
    {
        let ghost rest = s@.skip(i as int);
        assert(rest[0] == s@[i as int]);
        assert(rest.drop_first() =~= s@.skip(i + 1));
        let ch = s[i];
        let ghost before = out@;
        let ghost tail = s@.skip(i + 1);
        if is_ascii_alnum_exec(ch) {
            out.push(ch);
            assert(before + (seq![ch] + collapse_from(tail, false)) =~= out@ + collapse_from(tail, false));
            last_was_underscore = false;
        } else if !last_was_underscore {
            out.push('_');
            assert(before + (seq!['_'] + collapse_from(tail, true)) =~= out@ + collapse_from(tail, true));
            last_was_underscore = true;
        }
        i += 1;
    }
    assert(s@.skip(i as int) =~= Seq::<char>::empty());
    assert(out@ + Seq::<char>::empty() =~= out@);
    let a = trim_start_char_exec(&out, '_');
    trim_end_char_exec(&a, '_')
}

fn trim_start_char_exec(s: &Vec<char>, c: char) -> (r: Vec<char>)
    ensures
        r@ == trim_start_char(s@, c),
{
    let mut i: usize = 0;
    assert(s@.skip(0) =~= s@);
    while i < s.len() && s[i] == c
        invariant
            i <= s.len(),
            trim_start_char(s@, c) == trim_start_char(s@.skip(i as int), c),
        decreases s.len() - i,
    {
        assert(s@.skip(i as int)[0] == s@[i as int]);
        assert(s@.skip(i as int).drop_first() =~= s@.skip(i + 1));
        i += 1;
    }
    let r = slice_chars(s, i, s.len());
    assert(r@ =~= s@.skip(i as int));
    r
}

} // verus!
