use vpn_sub_sync::config::{default_branch, default_enabled, Config, Source};

fn source(format: &str) -> Source {
    Source {
        name: "s".into(),
        kind: "direct".into(),
        enabled: default_enabled(),
        format: format.into(),
        url: Some("https://example.com".into()),
        repo: None,
        branch: default_branch(),
        url_pattern: None,
    }
}

#[test]
fn format_ignores_ascii_case() {
    assert!(source("v2ray").is_v2ray());
    assert!(source("V2Ray").is_v2ray());
    assert!(!source("v2ray ").is_v2ray());
    assert!(source("CLASH").is_clash());
    assert!(!source("clash").is_v2ray());
    assert!(!source("yaml").is_clash());
}

#[test]
fn defaults() {
    assert!(default_enabled());
    assert_eq!(default_branch(), "main");
    let cfg = Config { source: vec![source("v2ray")] };
    assert_eq!(cfg.source[0].branch, "main");
    assert!(cfg.source[0].enabled);
}
