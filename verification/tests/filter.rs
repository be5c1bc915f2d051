use vpn_sub_sync::filter::{refine_clash_chunks, refine_v2ray_nodes, refine_v2ray_tagged, FilterConfig};
use vpn_sub_sync::probe::{ProbeCache, ProbeResult};
use vpn_sub_sync::tag::TaggedNode;

fn cache() -> ProbeCache {
    let mut c = ProbeCache::new();
    c.insert(
        ("1.1.1.1".into(), 443),
        ProbeResult {
            reachable: true,
            latency_ms: Some(100),
        },
    );
    c.insert(
        ("2.2.2.2".into(), 443),
        ProbeResult {
            reachable: true,
            latency_ms: Some(2500),
        },
    );
    c
}

#[test]
fn dedupes_same_endpoint() {
    let nodes = vec![
        "vless://a@1.1.1.1:443#n1".into(),
        "vless://b@1.1.1.1:443#n2".into(),
    ];
    let cfg = FilterConfig {
        dedupe_endpoint: true,
        max_latency_ms: None,
        max_nodes: None,
        drop_unparsed: false,
    };
    let (out, stats) = refine_v2ray_nodes(&nodes, &cache(), &cfg);
    assert_eq!(out.len(), 1);
    assert_eq!(stats.deduped, 1);
}

#[test]
fn drops_slow_nodes() {
    let nodes = vec![
        "vless://a@1.1.1.1:443#fast".into(),
        "vless://b@2.2.2.2:443#slow".into(),
    ];
    let cfg = FilterConfig {
        dedupe_endpoint: false,
        max_latency_ms: Some(2000),
        max_nodes: None,
        drop_unparsed: false,
    };
    let (out, stats) = refine_v2ray_nodes(&nodes, &cache(), &cfg);
    assert_eq!(out.len(), 1);
    assert_eq!(stats.slow_dropped, 1);
}

#[test]
fn dedup_preserves_first_source() {
    let nodes = vec![
        TaggedNode::new("vless://a@1.1.1.1:443#n1".into(), "Au1rxx"),
        TaggedNode::new("vless://b@1.1.1.1:443#n2".into(), "DaBao-Lee"),
    ];
    let cfg = FilterConfig {
        dedupe_endpoint: true,
        max_latency_ms: None,
        max_nodes: None,
        drop_unparsed: false,
    };
    let (out, stats) = refine_v2ray_tagged(&nodes, &cache(), &cfg);
    assert_eq!(out.len(), 1);
    assert_eq!(stats.deduped, 1);
    assert_eq!(out[0].source, "Au1rxx");
}

#[test]
fn sorts_by_latency_and_caps() {
    let nodes = vec![
        "vless://x@9.9.9.9:443#unknown".into(),
        "vless://b@2.2.2.2:443#slow".into(),
        "vless://a@1.1.1.1:443#fast".into(),
        "not a node".into(),
    ];
    let cfg = FilterConfig {
        dedupe_endpoint: false,
        max_latency_ms: None,
        max_nodes: Some(3),
        drop_unparsed: true,
    };
    let (out, stats) = refine_v2ray_nodes(&nodes, &cache(), &cfg);
    assert_eq!(
        out,
        vec![
            "vless://a@1.1.1.1:443#fast".to_string(),
            "vless://b@2.2.2.2:443#slow".to_string(),
            "vless://x@9.9.9.9:443#unknown".to_string(),
        ]
    );
    assert_eq!(stats.unparsed_dropped, 1);
    assert_eq!(stats.capped, 0);
    assert_eq!(stats.before, 4);
    assert_eq!(stats.after, 3);
}

#[test]
fn dedup_keeps_fastest_of_endpoint() {
    let mut c = ProbeCache::new();
    c.insert(("3.3.3.3".into(), 1), ProbeResult { reachable: true, latency_ms: Some(10) });
    let nodes = vec![
        "vless://a@3.3.3.3:1#first".into(),
        "vless://b@3.3.3.3:1#second".into(),
        "vless://c@4.4.4.4:1#other".into(),
    ];
    let cfg = FilterConfig {
        dedupe_endpoint: true,
        max_latency_ms: None,
        max_nodes: Some(1),
        drop_unparsed: false,
    };
    let (out, stats) = refine_v2ray_nodes(&nodes, &c, &cfg);
    assert_eq!(out, vec!["vless://a@3.3.3.3:1#first".to_string()]);
    assert_eq!(stats.deduped, 1);
    assert_eq!(stats.capped, 1);
}

#[test]
fn config_enabled() {
    let off = FilterConfig { dedupe_endpoint: false, max_latency_ms: None, max_nodes: None, drop_unparsed: false };
    assert!(!off.enabled());
    let on = FilterConfig { max_nodes: Some(1), ..off.clone() };
    assert!(on.enabled());
}

#[test]
fn clash_blocks_are_refined_per_document() {
    let doc = "proxies:\n  - name: a\n    server: 1.1.1.1\n    port: 443\n  - name: b\n    server: 1.1.1.1\n    port: 443\n";
    let lost = "proxies:\n  - name: c\n    type: ss\n";
    let chunks = vec![doc.to_string(), lost.to_string(), "plain".to_string()];
    let cfg = FilterConfig {
        dedupe_endpoint: true,
        max_latency_ms: None,
        max_nodes: None,
        drop_unparsed: true,
    };
    let (out, stats) = refine_clash_chunks(&chunks, &cache(), &cfg);
    assert_eq!(
        out,
        vec![
            "proxies:\n    - name: a\n      server: 1.1.1.1\n      port: 443\n".to_string(),
            "plain".to_string(),
        ]
    );
    assert_eq!((stats.before, stats.after, stats.deduped, stats.unparsed_dropped), (3, 1, 1, 1));
}

#[test]
fn refined_nodes_are_ordered_capped_and_counted() {
    let nodes: Vec<String> = vec![
        "vless://s@2.2.2.2:443#slow".into(),
        "vless://u@9.9.9.9:443#unknown".into(),
        "vless://f@1.1.1.1:443#fast".into(),
    ];
    let cfg = FilterConfig {
        dedupe_endpoint: false,
        max_latency_ms: None,
        max_nodes: Some(2),
        drop_unparsed: false,
    };
    let (out, stats) = refine_v2ray_nodes(&nodes, &cache(), &cfg);
    assert_eq!(out, vec![nodes[2].clone(), nodes[0].clone()]);
    assert_eq!(stats.capped, 1);
    assert_eq!(
        stats.before,
        stats.after + stats.deduped + stats.slow_dropped + stats.unparsed_dropped + stats.capped
    );
}
