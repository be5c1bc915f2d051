use vpn_sub_sync::config::Source;
use vpn_sub_sync::github_readme::{
    pick_last_match, resolve_from_readme, resolve_url, ResolveError, UrlStep,
};

fn source(kind: &str, url: Option<&str>, repo: Option<&str>, pattern: Option<&str>) -> Source {
    Source {
        name: "demo".into(),
        kind: kind.into(),
        enabled: true,
        format: "v2ray".into(),
        url: url.map(String::from),
        repo: repo.map(String::from),
        branch: "dev".into(),
        url_pattern: pattern.map(String::from),
    }
}

fn failure(step: UrlStep) -> String {
    match step {
        UrlStep::Failed(e) => e.message(),
        other => panic!("expected a failure, got {other:?}"),
    }
}

#[test]
fn direct_source_uses_its_url() {
    match resolve_url(&source("direct", Some("https://a.example/sub"), None, None)) {
        UrlStep::Resolved(u) => assert_eq!(u, "https://a.example/sub"),
        other => panic!("unexpected {other:?}"),
    }
    assert_eq!(
        failure(resolve_url(&source("direct", None, None, None))),
        "source 'demo' missing url"
    );
}

#[test]
fn readme_source_fetches_the_readme() {
    match resolve_url(&source("github_readme", None, Some("owner/repo"), Some("x"))) {
        UrlStep::FetchReadme(u) => {
            assert_eq!(u, "https://raw.githubusercontent.com/owner/repo/dev/README.md")
        }
        other => panic!("unexpected {other:?}"),
    }
    assert_eq!(
        failure(resolve_url(&source("github_readme", None, None, None))),
        "source 'demo' missing repo"
    );
    assert_eq!(
        failure(resolve_url(&source("github_readme", None, Some("o/r"), None))),
        "source 'demo' missing url_pattern"
    );
}

#[test]
fn unknown_kind_is_reported() {
    assert_eq!(
        failure(resolve_url(&source("gist", Some("u"), None, None))),
        "unknown source kind 'gist' for 'demo'"
    );
    // the kind is matched exactly
    assert_eq!(
        failure(resolve_url(&source("Direct", Some("u"), None, None))),
        "unknown source kind 'Direct' for 'demo'"
    );
}

#[test]
fn last_match_in_readme_wins() {
    let s = source(
        "github_readme",
        None,
        Some("owner/repo"),
        Some(r"https://example\.com/sub\d+"),
    );
    let readme = "old: https://example.com/sub1\nnew: https://example.com/sub22 end";
    assert_eq!(resolve_from_readme(&s, readme).unwrap(), "https://example.com/sub22");
}

#[test]
fn readme_failures() {
    let s = source("github_readme", None, Some("owner/repo"), Some(r"https://example\.com/sub\d+"));
    let e = resolve_from_readme(&s, "nothing here").unwrap_err();
    assert_eq!(e.message(), "no subscription URL matched pattern in owner/repo README");
    let bad = source("github_readme", None, Some("owner/repo"), Some("("));
    let e = resolve_from_readme(&bad, "anything").unwrap_err();
    assert!(matches!(e, ResolveError::InvalidPattern));
    assert_eq!(e.message(), "invalid url_pattern regex");
    let e = resolve_from_readme(&source("github_readme", None, None, Some("x")), "x").unwrap_err();
    assert_eq!(e.message(), "source 'demo' missing repo");
}

#[test]
fn picking_from_matches() {
    assert_eq!(
        pick_last_match(Some(vec!["a".into(), "b".into()]), "o/r").unwrap(),
        "b"
    );
    assert_eq!(
        pick_last_match(Some(vec![]), "o/r").unwrap_err().message(),
        "no subscription URL matched pattern in o/r README"
    );
    assert!(matches!(pick_last_match(None, "o/r"), Err(ResolveError::InvalidPattern)));
}
