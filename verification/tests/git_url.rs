use grf::domain::git_url::{
    looks_like_git_url, looks_like_git_url_given, parse_git_url, parse_git_url_given,
    sanitize_path_label, parsed_from_canonical_path, parsed_from_url_parts,
    u16_decimal, ParsedGitUrl, UrlParts,
};
use grf::domain::error::GrfError;

#[test]
fn parses_https_url() {
    let parsed = parse_git_url("https://github.com/openai/codex.git").unwrap();
    assert_eq!(parsed.canonical_name(), "github.com/openai/codex");
}

#[test]
fn parses_http_url_with_port() {
    let parsed = parse_git_url("http://127.0.0.1:3000/team/repo.git").unwrap();
    assert_eq!(parsed.canonical_name(), "127.0.0.1_3000/team/repo");
}

#[test]
fn parses_ssh_url() {
    let parsed = parse_git_url("git@github.com:openai/codex.git").unwrap();
    assert_eq!(parsed.canonical_name(), "github.com/openai/codex");
}

#[test]
fn detects_git_url() {
    assert!(looks_like_git_url("https://github.com/openai/codex.git"));
    assert!(looks_like_git_url("git@github.com:openai/codex.git"));
    assert!(!looks_like_git_url("codex"));
}

#[test]
fn parses_local_path() {
    let temp = tempfile::TempDir::new().unwrap();
    let repo_dir = tempfile::Builder::new()
        .prefix("sample.git")
        .rand_bytes(0)
        .tempdir_in(temp.path())
        .unwrap();

    let parsed = parse_git_url(repo_dir.path().to_str().unwrap()).unwrap();
    assert_eq!(parsed.host, "local");
    assert_eq!(parsed.repo, "sample");
}

fn invalid_url_of(r: Result<ParsedGitUrl, GrfError>) -> String {
    match r {
        Err(GrfError::InvalidGitUrl { url }) => url,
        other => panic!("expected InvalidGitUrl, got {:?}", other),
    }
}

#[test]
fn parses_git_scheme_url() {
    let parsed = parse_git_url("git://example.org/owner/project").unwrap();
    assert_eq!(parsed.host, "example.org");
    assert_eq!(parsed.owner, "owner");
    assert_eq!(parsed.repo, "project");
    assert_eq!(parsed.port, None);
    assert_eq!(parsed.canonical_name(), "example.org/owner/project");
}

#[test]
fn https_default_port_is_dropped() {
    let parsed = parse_git_url("https://example.com:443/a/b.git").unwrap();
    assert_eq!(parsed.port, None);
    assert_eq!(parsed.storage_host(), "example.com");
}

#[test]
fn http_url_skips_empty_segments() {
    let parsed = parse_git_url("https://host.test//team///repo.git/extra").unwrap();
    assert_eq!(parsed.owner, "team");
    assert_eq!(parsed.repo, "repo");
}

#[test]
fn http_url_needs_two_segments() {
    let raw = "https://github.com/only";
    assert_eq!(invalid_url_of(parse_git_url(raw)), raw);
}

#[test]
fn ssh_url_needs_exactly_two_segments() {
    let raw = "git@github.com:a/b/c.git";
    assert_eq!(invalid_url_of(parse_git_url(raw)), raw);
    let raw = "git@github.com:codex.git";
    assert_eq!(invalid_url_of(parse_git_url(raw)), raw);
}

#[test]
fn ssh_url_needs_a_colon() {
    let raw = "git@github.com/openai/codex.git";
    assert_eq!(invalid_url_of(parse_git_url(raw)), raw);
}

#[test]
fn ssh_url_trims_only_one_git_suffix() {
    let parsed = parse_git_url("git@host:team/repo.git.git").unwrap();
    assert_eq!(parsed.repo, "repo.git");
    assert_eq!(parsed.host, "host");
    assert_eq!(parsed.port, None);
}

#[test]
fn unknown_value_is_invalid() {
    let raw = "definitely-not-a-repo-location-here";
    assert_eq!(invalid_url_of(parse_git_url(raw)), raw);
}

#[test]
fn detects_all_known_prefixes() {
    assert!(looks_like_git_url("http://x"));
    assert!(looks_like_git_url("file:///tmp/x"));
    assert!(looks_like_git_url("git://x/y"));
    assert!(!looks_like_git_url("ssh-like:thing"));
}

#[test]
fn storage_host_with_port() {
    let p = ParsedGitUrl {
        host: String::from("h"),
        owner: String::from("o"),
        repo: String::from("r"),
        port: Some(65535),
    };
    assert_eq!(p.storage_host(), "h_65535");
    assert_eq!(p.canonical_name(), "h_65535/o/r");
}

#[test]
fn decimal_digits() {
    assert_eq!(u16_decimal(0), vec!['0']);
    assert_eq!(u16_decimal(3000), vec!['3', '0', '0', '0']);
}

#[test]
fn url_parts_are_read_as_location() {
    let parts = Some(UrlParts {
        host: Some(String::from("example.com")),
        path_segments: Some(vec![
            String::from(""),
            String::from("me"),
            String::from("tool.git"),
        ]),
        port: Some(8080),
    });
    let p = parsed_from_url_parts("raw", &parts).unwrap();
    assert_eq!(p.canonical_name(), "example.com_8080/me/tool");

    let no_host = Some(UrlParts { host: None, path_segments: Some(vec![]), port: None });
    assert_eq!(invalid_url_of(parsed_from_url_parts("raw", &no_host)), "raw");
    assert_eq!(invalid_url_of(parsed_from_url_parts("raw", &None)), "raw");
}

#[test]
fn canonical_path_is_read_as_location() {
    let p = parsed_from_canonical_path("x", Some("/home/me/my-projects/sample.git/")).unwrap();
    assert_eq!(p.host, "local");
    assert_eq!(p.owner, "home_me_my_projects");
    assert_eq!(p.repo, "sample");

    let p = parsed_from_canonical_path("x", Some("C:\\Users\\me\\repo")).unwrap();
    assert_eq!(p.owner, "C_Users_me");
    assert_eq!(p.repo, "repo");

    let p = parsed_from_canonical_path("x", Some("lonely.git")).unwrap();
    assert_eq!(p.owner, "root");
    assert_eq!(p.repo, "lonely");

    assert_eq!(invalid_url_of(parsed_from_canonical_path("x", Some("///"))), "x");
    assert_eq!(invalid_url_of(parsed_from_canonical_path("x", None)), "x");
}

#[test]
fn location_decision_given_disk_answer() {
    assert!(looks_like_git_url_given("git@github.com:a/b.git", false));
    assert!(looks_like_git_url_given("file:///tmp/x", false));
    assert!(!looks_like_git_url_given("sample", false));
    assert!(looks_like_git_url_given("sample", true));
    assert!(!looks_like_git_url_given("ftp://host/x", false));
}

#[test]
fn parse_given_disk_answers() {
    let local = parse_git_url_given("/srv/repos/My Repo.git", true, Some("/srv/repos/My Repo.git")).unwrap();
    assert_eq!(local.host, "local");
    assert_eq!(local.owner, "srv_repos");
    assert_eq!(local.repo, "My Repo");
    let from_url = parse_git_url_given("file:///srv/repos/My%20Repo.git", false, Some("/srv/repos/My Repo.git")).unwrap();
    assert_eq!(from_url.host, local.host);
    assert_eq!(from_url.owner, local.owner);
    assert_eq!(from_url.repo, local.repo);
    assert_eq!(from_url.port, None);
    match parse_git_url_given("nowhere", false, None) {
        Err(GrfError::InvalidGitUrl { url }) => assert_eq!(url, "nowhere"),
        other => panic!("unexpected {:?}", other),
    }
    assert!(!looks_like_git_url_given("nowhere", false));
    match parse_git_url_given("here", true, None) {
        Err(GrfError::InvalidGitUrl { url }) => assert_eq!(url, "here"),
        other => panic!("unexpected {:?}", other),
    }
    let https = parse_git_url_given("https://github.com/openai/codex.git", false, None).unwrap();
    assert_eq!(https.canonical_name(), "github.com/openai/codex");
}

#[test]
fn sanitizing_twice_changes_nothing() {
    let once = sanitize_path_label("/home/me/My Projects/--x--");
    assert_eq!(once, "home_me_My_Projects_x");
    assert_eq!(sanitize_path_label(&once), once);
    assert_eq!(sanitize_path_label("___"), "");
}
