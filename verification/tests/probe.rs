use base64::Engine;
use vpn_sub_sync::probe::{
    collect_clash_endpoints, collect_v2ray_endpoints, distinct_endpoints, extract_clash_endpoint,
    extract_v2ray_endpoint, filter_clash_chunks, filter_v2ray_nodes, probe_step, ssr_endpoint_in,
    vmess_endpoint_in, ProbeCache, ProbeConfig, ProbeResult, ProbeStep,
};
use vpn_sub_sync::JsonField;

#[test]
fn parse_vless_endpoint() {
    let ep = extract_v2ray_endpoint("vless://uuid@example.com:443?encryption=none&security=tls");
    assert_eq!(ep, Some(("example.com".into(), 443)));
}

#[test]
fn parse_vmess_endpoint() {
    let json = r#"{"add":"1.2.3.4","port":"8443"}"#;
    let b64 = base64::engine::general_purpose::STANDARD.encode(json);
    let node = format!("vmess://{b64}");
    assert_eq!(extract_v2ray_endpoint(&node), Some(("1.2.3.4".into(), 8443)));
}

#[test]
fn parse_clash_endpoint() {
    let block = "  - name: test\n    type: ss\n    server: node.example.com\n    port: 8388\n";
    assert_eq!(extract_clash_endpoint(block), Some(("node.example.com".into(), 8388)));
}

#[test]
fn vmess_numeric_port_is_cut_to_16_bits() {
    let json = r#"{"add":"h","port":65537}"#;
    let b64 = base64::engine::general_purpose::STANDARD.encode(json);
    assert_eq!(extract_v2ray_endpoint(&format!("vmess://{b64}")), Some(("h".into(), 1)));
}

#[test]
fn ss_plain_and_base64() {
    assert_eq!(
        extract_v2ray_endpoint("ss://aes:pw@10.0.0.1:8388#name"),
        Some(("10.0.0.1".into(), 8388))
    );
    let b64 = base64::engine::general_purpose::STANDARD.encode("aes-256-gcm:pw@srv.example:9000");
    assert_eq!(
        extract_v2ray_endpoint(&format!("ss://{b64}#n")),
        Some(("srv.example".into(), 9000))
    );
}

#[test]
fn ssr_endpoint() {
    let b64 = base64::engine::general_purpose::STANDARD.encode("ssr.example:1234:auth:aes:tls:cGFzcw/?x=12");
    assert_eq!(extract_v2ray_endpoint(&format!("ssr://{b64}")), Some(("ssr.example".into(), 1234)));
}

#[test]
fn bracketed_host() {
    assert_eq!(extract_v2ray_endpoint("trojan://pw@[::1]:443#x"), Some(("::1".into(), 443)));
    assert_eq!(extract_v2ray_endpoint("hy2://pw@host:+80"), Some(("host".into(), 80)));
}

#[test]
fn unreadable_endpoints() {
    assert_eq!(extract_v2ray_endpoint("vless://uuid@:443"), None);
    assert_eq!(extract_v2ray_endpoint("vless://uuid@host:99999"), None);
    assert_eq!(extract_v2ray_endpoint("http://example.com:80"), None);
    assert_eq!(extract_clash_endpoint("server: a\nport: 0\n"), None);
    assert_eq!(extract_clash_endpoint("server: \"a\"\nport: 1\nport: x\n"), None);
}

#[test]
fn clash_quoted_server() {
    assert_eq!(extract_clash_endpoint("server: \"a.b\"\nport: 12\n"), Some(("a.b".into(), 12)));
}

#[test]
fn cache_insert_replaces() {
    let mut c = ProbeCache::new();
    c.insert(("h".into(), 1), ProbeResult { reachable: false, latency_ms: None });
    c.insert(("h".into(), 1), ProbeResult { reachable: true, latency_ms: Some(5) });
    let r = c.get(&("h".into(), 1)).unwrap();
    assert!(r.reachable);
    assert_eq!(r.latency_ms, Some(5));
    assert!(c.get(&("h".into(), 2)).is_none());
}

fn probed() -> ProbeCache {
    let mut c = ProbeCache::new();
    c.insert(("1.1.1.1".into(), 443), ProbeResult { reachable: true, latency_ms: Some(12) });
    c.insert(("2.2.2.2".into(), 443), ProbeResult { reachable: false, latency_ms: None });
    c
}

fn on() -> ProbeConfig {
    ProbeConfig { enabled: true, timeout_secs: 3, concurrency: 50 }
}

#[test]
fn probe_keeps_reached_and_unreadable_nodes() {
    let nodes: Vec<String> = vec![
        "vless://a@1.1.1.1:443#a".into(),
        "vless://b@2.2.2.2:443#b".into(),
        "vless://nohost".into(),
        "trojan://c@3.3.3.3:443#never-probed".into(),
    ];
    let (kept, stats, cache) = filter_v2ray_nodes(&nodes, &on(), probed());
    assert_eq!(kept, vec![nodes[0].clone(), nodes[2].clone()]);
    assert_eq!(
        (stats.before, stats.after, stats.reachable, stats.unreachable, stats.unparsed),
        (4, 2, 1, 2, 1)
    );
    assert_eq!(stats.reachable + stats.unreachable + stats.unparsed, stats.before);
    assert!(cache.get(&("1.1.1.1".to_string(), 443)).unwrap().reachable);
}

#[test]
fn probe_off_keeps_everything() {
    let nodes: Vec<String> = vec!["vless://b@2.2.2.2:443#b".into()];
    let cfg = ProbeConfig { enabled: false, timeout_secs: 3, concurrency: 50 };
    let (kept, stats, cache) = filter_v2ray_nodes(&nodes, &cfg, probed());
    assert_eq!(kept, nodes);
    assert_eq!((stats.before, stats.after, stats.unreachable), (1, 1, 0));
    assert!(cache.get(&("1.1.1.1".to_string(), 443)).is_none());
}

#[test]
fn endpoints_to_probe() {
    let nodes: Vec<String> = vec![
        "vless://a@1.1.1.1:443".into(),
        "junk".into(),
        "trojan://b@1.1.1.1:443".into(),
        "ss://x:y@5.5.5.5:80".into(),
    ];
    let eps = collect_v2ray_endpoints(&nodes);
    assert_eq!(
        eps,
        vec![("1.1.1.1".to_string(), 443), ("1.1.1.1".to_string(), 443), ("5.5.5.5".to_string(), 80)]
    );
    assert_eq!(
        distinct_endpoints(&eps),
        vec![("1.1.1.1".to_string(), 443), ("5.5.5.5".to_string(), 80)]
    );
}

const DOC: &str = "proxies:\n  - name: a\n    server: 1.1.1.1\n    port: 443\n  - name: b\n    server: 2.2.2.2\n    port: 443\n  - name: c\n    type: ss\n";

#[test]
fn clash_probe_rebuilds_documents() {
    let chunks = vec![DOC.to_string(), "no proxies here".to_string()];
    let eps = collect_clash_endpoints(&chunks);
    assert_eq!(eps, vec![("1.1.1.1".to_string(), 443), ("2.2.2.2".to_string(), 443)]);
    let (out, stats, _) = filter_clash_chunks(&chunks, &on(), probed());
    assert_eq!(
        out,
        vec![
            "proxies:\n    - name: a\n      server: 1.1.1.1\n      port: 443\n    - name: c\n      type: ss\n"
                .to_string(),
            "no proxies here".to_string(),
        ]
    );
    assert_eq!(
        (stats.before, stats.after, stats.reachable, stats.unreachable, stats.unparsed),
        (3, 2, 1, 1, 1)
    );
}

#[test]
fn clash_probe_drops_documents_left_empty() {
    let doc = "proxies:\n  - name: b\n    server: 2.2.2.2\n    port: 443\n";
    let (out, stats, _) = filter_clash_chunks(&[doc.to_string()], &on(), probed());
    assert!(out.is_empty());
    assert_eq!((stats.before, stats.after), (1, 0));
    let (out, stats, _) = filter_clash_chunks(&[doc.to_string()], &ProbeConfig { enabled: false, timeout_secs: 1, concurrency: 1 }, probed());
    assert_eq!(out, vec![doc.to_string()]);
    assert_eq!(stats.before, 0);
}

#[test]
fn cache_extend_prefers_newer_results() {
    let mut a = probed();
    let mut b = ProbeCache::new();
    b.insert(("2.2.2.2".into(), 443), ProbeResult { reachable: true, latency_ms: Some(7) });
    b.insert(("3.3.3.3".into(), 22), ProbeResult { reachable: false, latency_ms: None });
    a.extend(b);
    assert_eq!(a.get(&("2.2.2.2".to_string(), 443)).unwrap().latency_ms, Some(7));
    assert!(!a.get(&("3.3.3.3".to_string(), 22)).unwrap().reachable);
    assert!(a.get(&("1.1.1.1".to_string(), 443)).unwrap().reachable);
    assert!(a.get(&("1.1.1.1".to_string(), 80)).is_none());
}

#[test]
fn vmess_endpoint_from_members() {
    let host = || JsonField::Text("h".into());
    assert_eq!(vmess_endpoint_in(host(), JsonField::Unsigned(70000)), Some(("h".into(), 4464)));
    assert_eq!(vmess_endpoint_in(host(), JsonField::Text("8443".into())), Some(("h".into(), 8443)));
    assert_eq!(vmess_endpoint_in(host(), JsonField::Text("port".into())), None);
    assert_eq!(vmess_endpoint_in(host(), JsonField::Missing), None);
    assert_eq!(vmess_endpoint_in(host(), JsonField::Other), None);
    assert_eq!(vmess_endpoint_in(JsonField::Unsigned(1), JsonField::Unsigned(1)), None);
}

#[test]
fn ssr_endpoint_from_decoded_body() {
    assert_eq!(
        ssr_endpoint_in("ssr.example:1234:auth:aes:tls:cGFzcw/?x=1"),
        Some(("ssr.example".into(), 1234))
    );
    assert_eq!(ssr_endpoint_in(":1234:x"), None);
    assert_eq!(ssr_endpoint_in("host"), None);
    assert_eq!(ssr_endpoint_in("h:99999"), None);
}


#[test]
fn probe_steps() {
    match probe_step(true, 86, 2) {
        ProbeStep::Done(r) => assert!(r.reachable && r.latency_ms == Some(86)),
        other => panic!("unexpected {other:?}"),
    }
    match probe_step(true, u128::from(u32::MAX) + 5, 0) {
        ProbeStep::Done(r) => assert_eq!(r.latency_ms, Some(u32::MAX)),
        other => panic!("unexpected {other:?}"),
    }
    assert!(matches!(probe_step(false, 10, 1), ProbeStep::TryNext));
    match probe_step(false, 10, 0) {
        ProbeStep::Done(r) => assert!(!r.reachable && r.latency_ms.is_none()),
        other => panic!("unexpected {other:?}"),
    }
}
