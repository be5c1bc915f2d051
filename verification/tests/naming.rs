use base64::Engine;
use vpn_sub_sync::naming::{
    decode_fragment, encode_fragment, extract_original_display_name, rename_clash_chunks,
    rename_clash_tagged, rename_v2ray_nodes, set_v2ray_display_name,
    rename_v2ray_tagged, NamingConfig,
};
use vpn_sub_sync::tag::{TaggedChunk, TaggedNode};
use vpn_sub_sync::probe::{extract_v2ray_endpoint, ProbeCache, ProbeResult};

fn cfg() -> NamingConfig {
    NamingConfig {
        enabled: true,
        template: "{country}-{latency}".to_string(),
        first_name: "孔大夫-我做个艺术家".to_string(),
    }
}

#[test]
fn first_node_uses_custom_name() {
    let cache = ProbeCache::new();
    let nodes = vec![
        "vless://a@1.2.3.4:443#x".to_string(),
        "vless://b@1.2.3.5:443#y".to_string(),
    ];
    let out = rename_v2ray_nodes(&nodes, &cfg(), &cache);
    let n1 = decode_fragment(out[0].split('#').nth(1).unwrap());
    assert_eq!(n1, "孔大夫-我做个艺术家");
}

#[test]
fn builds_country_latency_name() {
    let mut cache = ProbeCache::new();
    cache.insert(
        ("1.2.3.4".into(), 443),
        ProbeResult {
            reachable: true,
            latency_ms: Some(86),
        },
    );
    let node = "vless://uuid@1.2.3.4:443?security=tls#%F0%9F%87%AD%F0%9F%87%B0%E9%A6%99%E6%B8%AF";
    let nodes = vec!["vless://first@9.9.9.9:443#skip".to_string(), node.to_string()];
    let out = rename_v2ray_nodes(&nodes, &cfg(), &cache);
    let name = decode_fragment(out[1].split('#').nth(1).unwrap());
    assert_eq!(name, "香港-86ms");
}

#[test]
fn deduplicates_same_name() {
    let mut cache = ProbeCache::new();
    cache.insert(
        ("1.2.3.4".into(), 443),
        ProbeResult {
            reachable: true,
            latency_ms: Some(50),
        },
    );
    cache.insert(
        ("1.2.3.5".into(), 443),
        ProbeResult {
            reachable: true,
            latency_ms: Some(50),
        },
    );
    let nodes = vec![
        "vless://a@1.2.3.4:443#HK".to_string(),
        "vless://b@1.2.3.5:443#HK".to_string(),
        "vless://c@1.2.3.6:443#HK".to_string(),
    ];
    let out = rename_v2ray_nodes(&nodes, &cfg(), &cache);
    let n1 = decode_fragment(out[0].split('#').nth(1).unwrap());
    let n2 = decode_fragment(out[1].split('#').nth(1).unwrap());
    let n3 = decode_fragment(out[2].split('#').nth(1).unwrap());
    assert_eq!(n1, "孔大夫-我做个艺术家");
    assert_ne!(n2, n3);
}

#[test]
fn same_base_gets_numbered_suffix() {
    let mut cache = ProbeCache::new();
    for host in ["1.2.3.4", "1.2.3.5", "1.2.3.6"] {
        cache.insert((host.into(), 443), ProbeResult { reachable: true, latency_ms: Some(50) });
    }
    let nodes = vec![
        "vless://a@1.2.3.4:443#HK".to_string(),
        "vless://b@1.2.3.5:443#HK".to_string(),
        "vless://c@1.2.3.6:443#HK".to_string(),
    ];
    let out = rename_v2ray_nodes(&nodes, &cfg(), &cache);
    assert_eq!(decode_fragment(out[1].split('#').nth(1).unwrap()), "香港-50ms");
    assert_eq!(decode_fragment(out[2].split('#').nth(1).unwrap()), "香港-50ms-2");
}

#[test]
fn fragment_encoding_is_percent_utf8() {
    assert_eq!(encode_fragment("a b"), "a%20b");
    assert_eq!(encode_fragment("港"), "%E6%B8%AF");
    assert_eq!(decode_fragment("%E6%B8%AF-x"), "港-x");
    assert_eq!(decode_fragment("%zz%"), "%zz%");
    assert_eq!(decode_fragment(&encode_fragment("孔大夫 #1")), "孔大夫 #1");
}

#[test]
fn disabled_naming_keeps_nodes() {
    let cache = ProbeCache::new();
    let c = NamingConfig { enabled: false, ..cfg() };
    let nodes = vec!["vless://a@1.2.3.4:443#x".to_string()];
    assert_eq!(rename_v2ray_nodes(&nodes, &c, &cache), nodes);
}

#[test]
fn clash_names_are_unique_across_documents() {
    let cfg = NamingConfig {
        enabled: true,
        template: "{host}:{port}".to_string(),
        first_name: "unused".to_string(),
    };
    let doc1 = "proxies:\n  - name: HK\n    server: 1.2.3.4\n    port: 443\n  - name: HK\n    server: 1.2.3.4\n    port: 443\n";
    let doc2 = "proxies:\n  - name: x\n    server: 1.2.3.4\n    port: 443\n";
    let chunks = vec![doc1.to_string(), "no proxies".to_string(), doc2.to_string()];
    let out = rename_clash_chunks(&chunks, &cfg, &ProbeCache::new());
    assert_eq!(
        out,
        vec![
            "proxies:\n    - name: \"1.2.3.4:443\"\n      server: 1.2.3.4\n      port: 443\n    - name: \"1.2.3.4:443-2\"\n      server: 1.2.3.4\n      port: 443\n".to_string(),
            "no proxies".to_string(),
            "proxies:\n    - name: \"1.2.3.4:443-3\"\n      server: 1.2.3.4\n      port: 443\n".to_string(),
        ]
    );
    let off = NamingConfig { enabled: false, ..cfg };
    assert_eq!(rename_clash_chunks(&chunks, &off, &ProbeCache::new()), chunks);
}

#[test]
fn fragment_round_trip_on_samples() {
    for name in ["孔大夫-我做个艺术家", "a b#c%d", "", "🇭🇰 HK_01.~x"] {
        assert_eq!(decode_fragment(&encode_fragment(name)), name);
    }
    assert_eq!(encode_fragment("a b"), "a%20b");
    assert_eq!(encode_fragment("香"), "%E9%A6%99");
}

#[test]
fn vmess_names_live_in_the_document() {
    let engine = base64::engine::general_purpose::STANDARD;
    let json = r#"{"add":"1.2.3.4","port":"443","ps":"old"}"#;
    let node = format!("vmess://{}", engine.encode(json));
    let nodes = vec![node];
    let out = rename_v2ray_nodes(&nodes, &cfg(), &ProbeCache::new());
    let body = out[0].strip_prefix("vmess://").unwrap();
    let doc: serde_json::Value =
        serde_json::from_str(&String::from_utf8(engine.decode(body).unwrap()).unwrap()).unwrap();
    assert_eq!(doc["ps"], "孔大夫-我做个艺术家");
    assert_eq!(doc["add"], "1.2.3.4");
    assert_eq!(extract_v2ray_endpoint(&out[0]), extract_v2ray_endpoint(&nodes[0]));
    assert_eq!(extract_v2ray_endpoint(&out[0]), Some(("1.2.3.4".to_string(), 443)));
    // a body that is no base64 document is left as it was
    let broken = vec!["vmess://not-base64!".to_string()];
    assert_eq!(rename_v2ray_nodes(&broken, &cfg(), &ProbeCache::new()), broken);
}

#[test]
fn tagged_nodes_fill_the_source() {
    let mut cache = ProbeCache::new();
    cache.insert(("1.2.3.4".into(), 443), ProbeResult { reachable: true, latency_ms: Some(2) });
    let cfg = NamingConfig {
        enabled: true,
        template: "{source}-{country}-{latency}".to_string(),
        first_name: "孔大夫".to_string(),
    };
    let nodes = vec![
        TaggedNode::new("vless://a@9.9.9.9:443#x".into(), "free-nodes"),
        TaggedNode::new("vless://b@1.2.3.4:443#韩国".into(), "xrayvip"),
    ];
    let out = rename_v2ray_tagged(&nodes, &cfg, &cache);
    assert_eq!(out.len(), 2);
    assert_eq!(decode_fragment(out[0].node.split('#').nth(1).unwrap()), "孔大夫");
    assert_eq!(decode_fragment(out[1].node.split('#').nth(1).unwrap()), "xrayvip-韩国-2ms");
    assert_eq!(out[1].source, "xrayvip");
    // untagged nodes have no source: the placeholder stays
    let plain: Vec<String> = nodes.iter().map(|t| t.node.clone()).collect();
    let out = rename_v2ray_nodes(&plain, &cfg, &cache);
    assert_eq!(decode_fragment(out[1].split('#').nth(1).unwrap()), "{source}-韩国-2ms");
}

#[test]
fn tagged_clash_documents_fill_the_source() {
    let cfg = NamingConfig {
        enabled: true,
        template: "{source}-{index}".to_string(),
        first_name: "unused".to_string(),
    };
    let doc = "proxies:\n  - name: a\n    server: 1.2.3.4\n    port: 443\n";
    let chunks = vec![
        TaggedChunk::new(doc.into(), "s1"),
        TaggedChunk::new(doc.into(), "s2"),
        TaggedChunk::new("plain".into(), "s3"),
    ];
    let out = rename_clash_tagged(&chunks, &cfg, &ProbeCache::new());
    assert_eq!(out[0].body, "proxies:\n    - name: s1-001\n      server: 1.2.3.4\n      port: 443\n");
    assert_eq!(out[1].body, "proxies:\n    - name: s2-001\n      server: 1.2.3.4\n      port: 443\n");
    assert_eq!(out[2].body, "plain");
    assert_eq!(out[1].source, "s2");
}

#[test]
fn renaming_keeps_endpoints_and_names_read_back() {
    let cfg = NamingConfig {
        enabled: true,
        template: "{host}#{port} {proto}".to_string(),
        first_name: "首个 #1".to_string(),
    };
    let nodes: Vec<String> = vec![
        "vless://a@1.2.3.4:443?x=1#old".into(),
        "  trojan://p@h.example:8443  ".into(),
        "hy2://k@5.6.7.8:9000?sni=x#n#m".into(),
    ];
    let out = rename_v2ray_nodes(&nodes, &cfg, &ProbeCache::new());
    for (before, after) in nodes.iter().zip(out.iter()) {
        assert_eq!(extract_v2ray_endpoint(before), extract_v2ray_endpoint(after));
    }
    let names: Vec<String> = out.iter().map(|n| decode_fragment(n.split('#').nth(1).unwrap())).collect();
    assert_eq!(names, vec!["首个 #1", "h.example#8443 trojan", "5.6.7.8#9000 hy2"]);
}

#[test]
fn display_name_is_set_and_read_back() {
    let engine = base64::engine::general_purpose::STANDARD;
    let vmess = format!("vmess://{}", engine.encode(r#"{"add":"h.example","port":8443,"ps":"old"}"#));
    for node in [vmess.as_str(), " vless://u@1.2.3.4:443?a=b#old ", "trojan://p@h:1"] {
        let renamed = set_v2ray_display_name(node, "新 name#1");
        assert_eq!(extract_v2ray_endpoint(&renamed), extract_v2ray_endpoint(node));
        assert_eq!(extract_original_display_name(&renamed).as_deref(), Some("新 name#1"));
    }
    assert_eq!(set_v2ray_display_name("vless://u@h:1#x", "a b"), "vless://u@h:1#a%20b");
    assert_eq!(extract_original_display_name("  - name: \"hk 1\"\n    server: h"), Some("hk 1".to_string()));
}
