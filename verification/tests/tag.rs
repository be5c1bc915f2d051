use vpn_sub_sync::tag::{nodes_only, TaggedChunk, TaggedNode};

#[test]
fn tagged_values_keep_their_source() {
    let n = TaggedNode::new("vless://a@h:1".into(), "xrayvip");
    assert_eq!(n.node, "vless://a@h:1");
    assert_eq!(n.source, "xrayvip");
    let c = TaggedChunk::new("proxies:\n".into(), "clash-src");
    assert_eq!(c.body, "proxies:\n");
    assert_eq!(c.source, "clash-src");
}

#[test]
fn nodes_only_drops_the_sources_in_order() {
    let tagged = vec![
        TaggedNode::new("b".into(), "s1"),
        TaggedNode::new("a".into(), "s2"),
        TaggedNode::new("b".into(), "s3"),
    ];
    assert_eq!(nodes_only(&tagged), vec!["b".to_string(), "a".to_string(), "b".to_string()]);
}
