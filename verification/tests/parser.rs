use base64::Engine;
use vpn_sub_sync::parser::{
    build_clash_proxies, count_protocols, extract_clash_proxy_blocks, merge_clash_yaml,
    merge_v2ray_nodes, parse_v2ray_content, validate_clash,
};

fn b64(s: &str) -> String {
    base64::engine::general_purpose::STANDARD.encode(s)
}

#[test]
fn plain_lines_are_trimmed_filtered_and_deduplicated() {
    let raw = "vless://a@h:1\n  trojan://b@h:2  \nvless://a@h:1\nhello\n\n";
    let stats = parse_v2ray_content(raw);
    assert_eq!(stats.nodes, vec!["vless://a@h:1".to_string(), "trojan://b@h:2".to_string()]);
    assert_eq!(
        stats.protocols,
        vec![("trojan".to_string(), 1), ("vless".to_string(), 1)]
    );
}

#[test]
fn base64_body_is_decoded() {
    let body = b64("ss://x@h:1\nvmess://abc\n");
    let stats = parse_v2ray_content(&format!("  {body}\n"));
    assert_eq!(stats.nodes, vec!["ss://x@h:1".to_string(), "vmess://abc".to_string()]);
    assert_eq!(stats.protocols, vec![("ss".to_string(), 1), ("vmess".to_string(), 1)]);
}

#[test]
fn base64_without_nodes_is_read_as_text() {
    // decodes, but to no node line: the body is taken as plain text
    let stats = parse_v2ray_content(&b64("just text"));
    assert!(stats.nodes.is_empty());
    assert!(stats.protocols.is_empty());
}

#[test]
fn protocols_come_in_name_order_and_add_up() {
    let nodes: Vec<String> = vec![
        "vmess://1".into(),
        "hy2://a".into(),
        "x://b".into(),
        "hysteria2://c".into(),
        "hy2://d".into(),
    ];
    let counts = count_protocols(&nodes);
    assert_eq!(
        counts,
        vec![
            ("hy2".to_string(), 2),
            ("hysteria2".to_string(), 1),
            ("unknown".to_string(), 1),
            ("vmess".to_string(), 1),
        ]
    );
    let total: usize = counts.iter().map(|(_, n)| n).sum();
    assert_eq!(total, nodes.len());
}

#[test]
fn merged_nodes_are_base64_of_lines() {
    let nodes: Vec<String> = vec!["a".into(), "b".into()];
    assert_eq!(merge_v2ray_nodes(&nodes), "YQpi");
    assert_eq!(merge_v2ray_nodes(&[]), "");
}

const YAML: &str = "port: 7890\nproxies:\n  - name: a\n    server: 1.1.1.1\n    port: 443\n\n# note\n  - name: b\n    server: 2.2.2.2\n    port: 80\nrules:\n  - MATCH,DIRECT\n";

#[test]
fn proxy_blocks_end_at_the_next_section() {
    let blocks = extract_clash_proxy_blocks(YAML).unwrap();
    assert_eq!(
        blocks,
        vec![
            "  - name: a\n    server: 1.1.1.1\n    port: 443".to_string(),
            "  - name: b\n    server: 2.2.2.2\n    port: 80".to_string(),
        ]
    );
}

#[test]
fn no_proxy_section_gives_none() {
    assert_eq!(extract_clash_proxy_blocks("rules:\n  - MATCH\n"), None);
    assert_eq!(extract_clash_proxy_blocks("Proxies:\n"), None);
}

#[test]
fn built_document_indents_each_line() {
    let blocks: Vec<String> = vec!["- name: a\n  port: 1".into(), "- name: b".into()];
    assert_eq!(
        build_clash_proxies(&blocks),
        "proxies:\n  - name: a\n    port: 1\n  - name: b\n"
    );
}

#[test]
fn merge_keeps_first_block_of_each_key() {
    let other = "proxies:\n  - name: a\n    server: 9.9.9.9\n  - name: c\n    server: 3.3.3.3\n";
    let merged = merge_clash_yaml(&[YAML.to_string(), other.to_string(), "nothing".to_string()]);
    assert_eq!(
        merged,
        "proxies:\n    - name: a\n      server: 1.1.1.1\n      port: 443\n    - name: b\n      server: 2.2.2.2\n      port: 80\n    - name: c\n      server: 3.3.3.3\n"
    );
    assert_eq!(merge_clash_yaml(&["nothing".to_string()]), "");
}

#[test]
fn clash_validation_needs_length_and_proxies() {
    assert!(!validate_clash("proxies:\n  - a"));
    assert!(validate_clash(YAML));
    let long_without = "x".repeat(60);
    assert!(!validate_clash(&long_without));
    let upper = format!("PROXIES:\n{}", "y".repeat(60));
    assert!(validate_clash(&upper));
}

#[test]
fn merged_subscription_reads_back() {
    let nodes: Vec<String> = vec![
        "vless://a@h:1#x".into(),
        "ss://b@h:2".into(),
        "vless://a@h:1#x".into(),
        "trojan://c@h:3#香港".into(),
    ];
    let back = parse_v2ray_content(&merge_v2ray_nodes(&nodes)).nodes;
    assert_eq!(back, vec![nodes[0].clone(), nodes[1].clone(), nodes[3].clone()]);
    assert!(parse_v2ray_content(&merge_v2ray_nodes(&[])).nodes.is_empty());
}
