use base64::Engine;
use vpn_sub_sync::config::Source;
use vpn_sub_sync::sync::{
    absorb, body_outcome, checked_sync_totals, count_proxy_entries, fetch_failed_outcome,
    sync_totals, unresolved_outcome,
};

fn source(format: &str, url: Option<&str>) -> Source {
    Source {
        name: "src".into(),
        kind: "direct".into(),
        enabled: true,
        format: format.into(),
        url: url.map(String::from),
        repo: None,
        branch: "main".into(),
        url_pattern: None,
    }
}

const CLASH: &str = "proxies:\n  - name: a\n    server: 1.1.1.1\n    port: 443\n  - name: b\n    server: 2.2.2.2\n    port: 80\n";

#[test]
fn v2ray_body_with_nodes() {
    let s = source("V2RAY", None);
    let o = body_outcome(&s, "u".into(), "vless://a@h:1\nss://b@h:2\nvless://a@h:1".into(), "t".into());
    assert!(o.report.ok);
    assert_eq!(o.report.node_count, 2);
    assert_eq!(o.report.protocols, vec![("ss".to_string(), 1), ("vless".to_string(), 1)]);
    assert_eq!(o.report.error, None);
    assert_eq!(o.report.resolved_url, "u");
    assert_eq!(o.report.fetched_at, "t");
    assert_eq!(o.v2ray_nodes, vec!["vless://a@h:1".to_string(), "ss://b@h:2".to_string()]);
    assert_eq!(o.clash_body, None);
}

#[test]
fn v2ray_body_without_nodes() {
    let o = body_outcome(&source("v2ray", None), "u".into(), "<html></html>".into(), "t".into());
    assert!(!o.report.ok);
    assert_eq!(o.report.node_count, 0);
    assert_eq!(o.report.error.as_deref(), Some("no valid nodes found"));
    assert!(o.v2ray_nodes.is_empty());
}

#[test]
fn clash_body() {
    let o = body_outcome(&source("clash", None), "u".into(), CLASH.into(), "t".into());
    assert!(o.report.ok);
    assert_eq!(o.report.node_count, 2);
    assert_eq!(o.clash_body.as_deref(), Some(CLASH));
    let bad = body_outcome(&source("clash", None), "u".into(), "proxies: []".into(), "t".into());
    assert!(!bad.report.ok);
    assert_eq!(bad.report.node_count, 0);
    assert_eq!(bad.report.error.as_deref(), Some("invalid clash yaml"));
    assert_eq!(bad.clash_body, None);
}

#[test]
fn unknown_format() {
    let o = body_outcome(&source("json", None), "u".into(), "{}".into(), "t".into());
    assert!(!o.report.ok);
    assert_eq!(o.report.error.as_deref(), Some("unknown format 'json'"));
}

#[test]
fn failures_before_the_body() {
    let o = unresolved_outcome(&source("v2ray", Some("https://x")), "boom".into(), "t".into());
    assert_eq!(o.report.resolved_url, "https://x");
    assert_eq!(o.report.error.as_deref(), Some("boom"));
    assert!(!o.report.ok);
    let o = unresolved_outcome(&source("v2ray", None), "boom".into(), "t".into());
    assert_eq!(o.report.resolved_url, "");
    let o = fetch_failed_outcome(&source("v2ray", None), "https://y".into(), "HTTP 500".into(), "t".into());
    assert_eq!(o.report.resolved_url, "https://y");
    assert_eq!(o.report.error.as_deref(), Some("HTTP 500"));
    assert_eq!(o.report.name, "src");
    assert_eq!(o.report.format, "v2ray");
}

#[test]
fn absorbing_outcomes() {
    let mut nodes = vec!["vless://x@h:1".to_string()];
    let mut chunks = Vec::new();
    let ok = body_outcome(&source("v2ray", None), "u".into(), "ss://a@h:2".into(), "t".into());
    let r = absorb(&mut nodes, &mut chunks, ok);
    assert!(r.ok);
    assert_eq!(nodes, vec!["vless://x@h:1".to_string(), "ss://a@h:2".to_string()]);
    let clash = body_outcome(&source("clash", None), "u".into(), CLASH.into(), "t".into());
    absorb(&mut nodes, &mut chunks, clash);
    assert_eq!(chunks, vec![CLASH.to_string()]);
    let failed = unresolved_outcome(&source("v2ray", None), "e".into(), "t".into());
    let r = absorb(&mut nodes, &mut chunks, failed);
    assert!(!r.ok);
    assert_eq!(nodes.len(), 2);
    assert_eq!(chunks.len(), 1);
}

#[test]
fn totals_of_a_run() {
    let nodes = vec!["vless://a@h:1".to_string(), "ss://b@h:2".to_string(), "vless://a@h:1".to_string()];
    let t = sync_totals(&nodes, &[CLASH.to_string(), CLASH.to_string()]);
    assert_eq!(t.v2ray_total_nodes, 2);
    let expected = base64::engine::general_purpose::STANDARD.encode("vless://a@h:1\nss://b@h:2");
    assert_eq!(t.v2ray_b64, expected);
    // merged entries sit four spaces deep, so no line break is followed by `  - `
    assert_eq!(t.clash_proxy_count, 0);
    assert!(t.clash_yaml.starts_with("proxies:\n    - name: a\n"));
    let empty = sync_totals(&[], &[]);
    assert_eq!(empty.v2ray_total_nodes, 0);
    assert_eq!(empty.v2ray_b64, "");
    assert_eq!(empty.clash_yaml, "");
    assert_eq!(empty.clash_proxy_count, 0);
}

#[test]
fn proxy_entries_follow_line_breaks() {
    assert_eq!(count_proxy_entries(CLASH), 2);
    assert_eq!(count_proxy_entries("  - name: first\n  - name: second"), 1);
}

#[test]
fn checked_totals_agree() {
    let nodes = vec!["trojan://p@h:443".to_string()];
    let t = checked_sync_totals(&nodes, &[]).unwrap();
    assert_eq!(t.v2ray_total_nodes, 1);
    assert_eq!(t.v2ray_b64, sync_totals(&nodes, &[]).v2ray_b64);
}
