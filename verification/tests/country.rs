use vpn_sub_sync::country::{country_in_lowercase, detect_country};

#[test]
fn from_hint_chinese() {
    assert_eq!(detect_country("1.2.3.4", Some("🇭🇰香港|IEPL|01")), "香港");
}

#[test]
fn from_host_pattern() {
    assert_eq!(detect_country("us-gcp.example.com", None), "美国");
}

#[test]
fn unknown_fallback() {
    assert_eq!(detect_country("node.example.com", None), "未知");
}

#[test]
fn hint_wins_over_host() {
    assert_eq!(detect_country("jp.example.com", Some("Seoul 01")), "韩国");
}

#[test]
fn hint_without_country_falls_back_to_host() {
    assert_eq!(detect_country("jp.example.com", Some("node 7")), "日本");
}

#[test]
fn keyword_is_case_insensitive() {
    assert_eq!(detect_country("x", Some("HONG KONG 02")), "香港");
}

#[test]
fn iso_token_between_spaces() {
    assert_eq!(detect_country("x", Some("fast de node")), "德国");
}

#[test]
fn standalone_token() {
    assert_eq!(detect_country("x", Some("node_nl_1")), "荷兰");
    assert_eq!(detect_country("x", Some("[AUS]")), "澳大利亚");
}

#[test]
fn host_code_pattern() {
    assert_eq!(detect_country("a.hk.b", None), "香港");
    assert_eq!(detect_country("edge-ru-1.net", None), "俄罗斯");
}

#[test]
fn lower_case_text_is_matched_as_given() {
    assert_eq!(country_in_lowercase("hong kong 02").as_deref(), Some("香港"));
    // the rules are written in lower case: upper-case text is not folded here
    assert_eq!(country_in_lowercase("HONG KONG 02"), None);
    assert_eq!(country_in_lowercase("edge-sg-3"), Some("新加坡".to_string()));
    assert_eq!(country_in_lowercase("plain"), None);
}

#[test]
fn lower_casing_first_changes_nothing() {
    for text in ["US-GCP.example.com", "Fast DE node", "plain", "[AUS]"] {
        assert_eq!(detect_country(text, None), detect_country(&text.to_lowercase(), None));
    }
    assert_ne!(detect_country("HONG KONG", None), "未知");
}
