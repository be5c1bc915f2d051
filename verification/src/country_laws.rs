//! What the country rules promise of their own labels.
use vstd::prelude::*;
use crate::country::{country_of_lower, country_of_text, is_country_label, keyword_country};
use crate::foreign::lower_text;
use crate::text::{contains, has_char, occurs_at};

verus! {

/// Every character of `s` is a CJK unified ideograph.
pub open spec fn is_cjk_text(s: Seq<char>) -> bool {
    forall|i: int| 0 <= i < s.len() ==> 0x4E00 <= (#[trigger] s[i] as u32) <= 0x9FFF
}

/// `s` cannot hold `p` when one of `p`'s characters never occurs in `s`.
proof fn lemma_absent_char(s: Seq<char>, p: Seq<char>, k: int)
    requires
        0 <= k < p.len(),
        !has_char(s, p[k]),
    ensures
        !contains(s, p),
{
    if contains(s, p) {
        let i = choose|i: int| occurs_at(s, p, i);
        assert(s.subrange(i, i + p.len())[k] == p[k]);
        assert(s[i + k] == p[k]);
    }
}

/// A CJK text cannot hold a word that starts with any other character.
proof fn lemma_cjk_lacks(s: Seq<char>, p: Seq<char>)
    requires
        is_cjk_text(s),
        p.len() > 0,
        !(0x4E00 <= (p[0] as u32) <= 0x9FFF),
    ensures
        !contains(s, p),
{
    if has_char(s, p[0]) {
        let k = choose|k: int| 0 <= k < s.len() && s[k] == p[0];
        assert(0x4E00 <= (s[k] as u32) <= 0x9FFF);
    }
    lemma_absent_char(s, p, 0);
}

/// Every text holds itself.
proof fn lemma_contains_self(s: Seq<char>)
    ensures
        contains(s, s),
{
    assert(s.subrange(0, s.len() as int) =~= s);
    assert(occurs_at(s, s, 0));
}

/// No keyword written in Latin letters or as a flag occurs in a CJK text.
proof fn lemma_cjk_no_foreign_keyword(s: Seq<char>)
    requires
        is_cjk_text(s),
    ensures
        !contains(s, "hong kong"@),
        !contains(s, "hongkong"@),
        !contains(s, "🇭🇰"@),
        !contains(s, "hkg"@),
        !contains(s, "hk节点"@),
        !contains(s, "hk-"@),
        !contains(s, "taiwan"@),
        !contains(s, "tw省"@),
        !contains(s, "🇹🇼"@),
        !contains(s, "twn"@),
        !contains(s, "tw-"@),
        !contains(s, "macau"@),
        !contains(s, "macao"@),
        !contains(s, "🇲🇴"@),
        !contains(s, "united states"@),
        !contains(s, "usa"@),
        !contains(s, "🇺🇸"@),
        !contains(s, "us节点"@),
        !contains(s, "america"@),
        !contains(s, "japan"@),
        !contains(s, "tokyo"@),
        !contains(s, "osaka"@),
        !contains(s, "🇯🇵"@),
        !contains(s, "jp节点"@),
        !contains(s, "korea"@),
        !contains(s, "seoul"@),
        !contains(s, "🇰🇷"@),
        !contains(s, "kr节点"@),
        !contains(s, "singapore"@),
        !contains(s, "🇸🇬"@),
        !contains(s, "sg节点"@),
        !contains(s, "united kingdom"@),
        !contains(s, "london"@),
        !contains(s, "🇬🇧"@),
        !contains(s, "uk节点"@),
        !contains(s, "germany"@),
        !contains(s, "frankfurt"@),
        !contains(s, "🇩🇪"@),
        !contains(s, "de节点"@),
        !contains(s, "france"@),
        !contains(s, "paris"@),
        !contains(s, "🇫🇷"@),
        !contains(s, "fr节点"@),
        !contains(s, "canada"@),
        !contains(s, "toronto"@),
        !contains(s, "🇨🇦"@),
        !contains(s, "ca节点"@),
        !contains(s, "australia"@),
        !contains(s, "sydney"@),
        !contains(s, "🇦🇺"@),
        !contains(s, "au节点"@),
        !contains(s, "india"@),
        !contains(s, "mumbai"@),
        !contains(s, "🇮🇳"@),
        !contains(s, "in节点"@),
        !contains(s, "netherlands"@),
        !contains(s, "amsterdam"@),
        !contains(s, "🇳🇱"@),
        !contains(s, "nl节点"@),
        !contains(s, "russia"@),
        !contains(s, "moscow"@),
        !contains(s, "🇷🇺"@),
        !contains(s, "ru节点"@),
        !contains(s, "turkey"@),
        !contains(s, "istanbul"@),
        !contains(s, "🇹🇷"@),
        !contains(s, "tr节点"@),
        !contains(s, "argentina"@),
        !contains(s, "🇦🇷"@),
        !contains(s, "brazil"@),
        !contains(s, "🇧🇷"@),
        !contains(s, "philippines"@),
        !contains(s, "manila"@),
        !contains(s, "🇵🇭"@),
        !contains(s, "malaysia"@),
        !contains(s, "kuala"@),
        !contains(s, "🇲🇾"@),
        !contains(s, "thailand"@),
        !contains(s, "bangkok"@),
        !contains(s, "🇹🇭"@),
        !contains(s, "vietnam"@),
        !contains(s, "hanoi"@),
        !contains(s, "🇻🇳"@),
        !contains(s, "indonesia"@),
        !contains(s, "jakarta"@),
        !contains(s, "🇮🇩"@),
{
    reveal_strlit("hong kong");
    lemma_cjk_lacks(s, "hong kong"@);
    reveal_strlit("hongkong");
    lemma_cjk_lacks(s, "hongkong"@);
    reveal_strlit("🇭🇰");
    lemma_cjk_lacks(s, "🇭🇰"@);
    reveal_strlit("hkg");
    lemma_cjk_lacks(s, "hkg"@);
    reveal_strlit("hk节点");
    lemma_cjk_lacks(s, "hk节点"@);
    reveal_strlit("hk-");
    lemma_cjk_lacks(s, "hk-"@);
    reveal_strlit("taiwan");
    lemma_cjk_lacks(s, "taiwan"@);
    reveal_strlit("tw省");
    lemma_cjk_lacks(s, "tw省"@);
    reveal_strlit("🇹🇼");
    lemma_cjk_lacks(s, "🇹🇼"@);
    reveal_strlit("twn");
    lemma_cjk_lacks(s, "twn"@);
    reveal_strlit("tw-");
    lemma_cjk_lacks(s, "tw-"@);
    reveal_strlit("macau");
    lemma_cjk_lacks(s, "macau"@);
    reveal_strlit("macao");
    lemma_cjk_lacks(s, "macao"@);
    reveal_strlit("🇲🇴");
    lemma_cjk_lacks(s, "🇲🇴"@);
    reveal_strlit("united states");
    lemma_cjk_lacks(s, "united states"@);
    reveal_strlit("usa");
    lemma_cjk_lacks(s, "usa"@);
    reveal_strlit("🇺🇸");
    lemma_cjk_lacks(s, "🇺🇸"@);
    reveal_strlit("us节点");
    lemma_cjk_lacks(s, "us节点"@);
    reveal_strlit("america");
    lemma_cjk_lacks(s, "america"@);
    reveal_strlit("japan");
    lemma_cjk_lacks(s, "japan"@);
    reveal_strlit("tokyo");
    lemma_cjk_lacks(s, "tokyo"@);
    reveal_strlit("osaka");
    lemma_cjk_lacks(s, "osaka"@);
    reveal_strlit("🇯🇵");
    lemma_cjk_lacks(s, "🇯🇵"@);
    reveal_strlit("jp节点");
    lemma_cjk_lacks(s, "jp节点"@);
    reveal_strlit("korea");
    lemma_cjk_lacks(s, "korea"@);
    reveal_strlit("seoul");
    lemma_cjk_lacks(s, "seoul"@);
    reveal_strlit("🇰🇷");
    lemma_cjk_lacks(s, "🇰🇷"@);
    reveal_strlit("kr节点");
    lemma_cjk_lacks(s, "kr节点"@);
    reveal_strlit("singapore");
    lemma_cjk_lacks(s, "singapore"@);
    reveal_strlit("🇸🇬");
    lemma_cjk_lacks(s, "🇸🇬"@);
    reveal_strlit("sg节点");
    lemma_cjk_lacks(s, "sg节点"@);
    reveal_strlit("united kingdom");
    lemma_cjk_lacks(s, "united kingdom"@);
    reveal_strlit("london");
    lemma_cjk_lacks(s, "london"@);
    reveal_strlit("🇬🇧");
    lemma_cjk_lacks(s, "🇬🇧"@);
    reveal_strlit("uk节点");
    lemma_cjk_lacks(s, "uk节点"@);
    reveal_strlit("germany");
    lemma_cjk_lacks(s, "germany"@);
    reveal_strlit("frankfurt");
    lemma_cjk_lacks(s, "frankfurt"@);
    reveal_strlit("🇩🇪");
    lemma_cjk_lacks(s, "🇩🇪"@);
    reveal_strlit("de节点");
    lemma_cjk_lacks(s, "de节点"@);
    reveal_strlit("france");
    lemma_cjk_lacks(s, "france"@);
    reveal_strlit("paris");
    lemma_cjk_lacks(s, "paris"@);
    reveal_strlit("🇫🇷");
    lemma_cjk_lacks(s, "🇫🇷"@);
    reveal_strlit("fr节点");
    lemma_cjk_lacks(s, "fr节点"@);
    reveal_strlit("canada");
    lemma_cjk_lacks(s, "canada"@);
    reveal_strlit("toronto");
    lemma_cjk_lacks(s, "toronto"@);
    reveal_strlit("🇨🇦");
    lemma_cjk_lacks(s, "🇨🇦"@);
    reveal_strlit("ca节点");
    lemma_cjk_lacks(s, "ca节点"@);
    reveal_strlit("australia");
    lemma_cjk_lacks(s, "australia"@);
    reveal_strlit("sydney");
    lemma_cjk_lacks(s, "sydney"@);
    reveal_strlit("🇦🇺");
    lemma_cjk_lacks(s, "🇦🇺"@);
    reveal_strlit("au节点");
    lemma_cjk_lacks(s, "au节点"@);
    reveal_strlit("india");
    lemma_cjk_lacks(s, "india"@);
    reveal_strlit("mumbai");
    lemma_cjk_lacks(s, "mumbai"@);
    reveal_strlit("🇮🇳");
    lemma_cjk_lacks(s, "🇮🇳"@);
    reveal_strlit("in节点");
    lemma_cjk_lacks(s, "in节点"@);
    reveal_strlit("netherlands");
    lemma_cjk_lacks(s, "netherlands"@);
    reveal_strlit("amsterdam");
    lemma_cjk_lacks(s, "amsterdam"@);
    reveal_strlit("🇳🇱");
    lemma_cjk_lacks(s, "🇳🇱"@);
    reveal_strlit("nl节点");
    lemma_cjk_lacks(s, "nl节点"@);
    reveal_strlit("russia");
    lemma_cjk_lacks(s, "russia"@);
    reveal_strlit("moscow");
    lemma_cjk_lacks(s, "moscow"@);
    reveal_strlit("🇷🇺");
    lemma_cjk_lacks(s, "🇷🇺"@);
    reveal_strlit("ru节点");
    lemma_cjk_lacks(s, "ru节点"@);
    reveal_strlit("turkey");
    lemma_cjk_lacks(s, "turkey"@);
    reveal_strlit("istanbul");
    lemma_cjk_lacks(s, "istanbul"@);
    reveal_strlit("🇹🇷");
    lemma_cjk_lacks(s, "🇹🇷"@);
    reveal_strlit("tr节点");
    lemma_cjk_lacks(s, "tr节点"@);
    reveal_strlit("argentina");
    lemma_cjk_lacks(s, "argentina"@);
    reveal_strlit("🇦🇷");
    lemma_cjk_lacks(s, "🇦🇷"@);
    reveal_strlit("brazil");
    lemma_cjk_lacks(s, "brazil"@);
    reveal_strlit("🇧🇷");
    lemma_cjk_lacks(s, "🇧🇷"@);
    reveal_strlit("philippines");
    lemma_cjk_lacks(s, "philippines"@);
    reveal_strlit("manila");
    lemma_cjk_lacks(s, "manila"@);
    reveal_strlit("🇵🇭");
    lemma_cjk_lacks(s, "🇵🇭"@);
    reveal_strlit("malaysia");
    lemma_cjk_lacks(s, "malaysia"@);
    reveal_strlit("kuala");
    lemma_cjk_lacks(s, "kuala"@);
    reveal_strlit("🇲🇾");
    lemma_cjk_lacks(s, "🇲🇾"@);
    reveal_strlit("thailand");
    lemma_cjk_lacks(s, "thailand"@);
    reveal_strlit("bangkok");
    lemma_cjk_lacks(s, "bangkok"@);
    reveal_strlit("🇹🇭");
    lemma_cjk_lacks(s, "🇹🇭"@);
    reveal_strlit("vietnam");
    lemma_cjk_lacks(s, "vietnam"@);
    reveal_strlit("hanoi");
    lemma_cjk_lacks(s, "hanoi"@);
    reveal_strlit("🇻🇳");
    lemma_cjk_lacks(s, "🇻🇳"@);
    reveal_strlit("indonesia");
    lemma_cjk_lacks(s, "indonesia"@);
    reveal_strlit("jakarta");
    lemma_cjk_lacks(s, "jakarta"@);
    reveal_strlit("🇮🇩");
    lemma_cjk_lacks(s, "🇮🇩"@);
}

/// No keyword of a rule before the 香港 rule occurs in its label.
proof fn lemma_label_hong_kong()
    ensures
        keyword_country("香港"@) == Some("香港"@),
{
    let l = "香港"@;
    reveal_strlit("香港");
    assert(is_cjk_text(l));
    lemma_cjk_no_foreign_keyword(l);
    lemma_contains_self(l);
}

/// No keyword of a rule before the 台湾 rule occurs in its label.
proof fn lemma_label_taiwan()
    ensures
        keyword_country("台湾"@) == Some("台湾"@),
{
    let l = "台湾"@;
    reveal_strlit("台湾");
    assert(is_cjk_text(l));
    lemma_cjk_no_foreign_keyword(l);
    reveal_strlit("香港");
    lemma_absent_char(l, "香港"@, 0);
    lemma_contains_self(l);
}

/// No keyword of a rule before the 澳门 rule occurs in its label.
proof fn lemma_label_macau()
    ensures
        keyword_country("澳门"@) == Some("澳门"@),
{
    let l = "澳门"@;
    reveal_strlit("澳门");
    assert(is_cjk_text(l));
    lemma_cjk_no_foreign_keyword(l);
    reveal_strlit("香港");
    lemma_absent_char(l, "香港"@, 0);
    reveal_strlit("台湾");
    lemma_absent_char(l, "台湾"@, 0);
    lemma_contains_self(l);
}

/// No keyword of a rule before the 美国 rule occurs in its label.
proof fn lemma_label_united_states()
    ensures
        keyword_country("美国"@) == Some("美国"@),
{
    let l = "美国"@;
    reveal_strlit("美国");
    assert(is_cjk_text(l));
    lemma_cjk_no_foreign_keyword(l);
    reveal_strlit("香港");
    lemma_absent_char(l, "香港"@, 0);
    reveal_strlit("台湾");
    lemma_absent_char(l, "台湾"@, 0);
    reveal_strlit("澳门");
    lemma_absent_char(l, "澳门"@, 0);
    lemma_contains_self(l);
}

/// No keyword of a rule before the 日本 rule occurs in its label.
proof fn lemma_label_japan()
    ensures
        keyword_country("日本"@) == Some("日本"@),
{
    let l = "日本"@;
    reveal_strlit("日本");
    assert(is_cjk_text(l));
    lemma_cjk_no_foreign_keyword(l);
    reveal_strlit("香港");
    lemma_absent_char(l, "香港"@, 0);
    reveal_strlit("台湾");
    lemma_absent_char(l, "台湾"@, 0);
    reveal_strlit("澳门");
    lemma_absent_char(l, "澳门"@, 0);
    reveal_strlit("美国");
    lemma_absent_char(l, "美国"@, 0);
    lemma_contains_self(l);
}

/// No keyword of a rule before the 韩国 rule occurs in its label.
proof fn lemma_label_korea()
    ensures
        keyword_country("韩国"@) == Some("韩国"@),
{
    let l = "韩国"@;
    reveal_strlit("韩国");
    assert(is_cjk_text(l));
    lemma_cjk_no_foreign_keyword(l);
    reveal_strlit("香港");
    lemma_absent_char(l, "香港"@, 0);
    reveal_strlit("台湾");
    lemma_absent_char(l, "台湾"@, 0);
    reveal_strlit("澳门");
    lemma_absent_char(l, "澳门"@, 0);
    reveal_strlit("美国");
    lemma_absent_char(l, "美国"@, 0);
    reveal_strlit("日本");
    lemma_absent_char(l, "日本"@, 0);
    lemma_contains_self(l);
}

/// No keyword of a rule before the 新加坡 rule occurs in its label.
proof fn lemma_label_singapore()
    ensures
        keyword_country("新加坡"@) == Some("新加坡"@),
{
    let l = "新加坡"@;
    reveal_strlit("新加坡");
    assert(is_cjk_text(l));
    lemma_cjk_no_foreign_keyword(l);
    reveal_strlit("香港");
    lemma_absent_char(l, "香港"@, 0);
    reveal_strlit("台湾");
    lemma_absent_char(l, "台湾"@, 0);
    reveal_strlit("澳门");
    lemma_absent_char(l, "澳门"@, 0);
    reveal_strlit("美国");
    lemma_absent_char(l, "美国"@, 0);
    reveal_strlit("日本");
    lemma_absent_char(l, "日本"@, 0);
    reveal_strlit("韩国");
    lemma_absent_char(l, "韩国"@, 0);
    lemma_contains_self(l);
}

/// No keyword of a rule before the 英国 rule occurs in its label.
proof fn lemma_label_united_kingdom()
    ensures
        keyword_country("英国"@) == Some("英国"@),
{
    let l = "英国"@;
    reveal_strlit("英国");
    assert(is_cjk_text(l));
    lemma_cjk_no_foreign_keyword(l);
    reveal_strlit("香港");
    lemma_absent_char(l, "香港"@, 0);
    reveal_strlit("台湾");
    lemma_absent_char(l, "台湾"@, 0);
    reveal_strlit("澳门");
    lemma_absent_char(l, "澳门"@, 0);
    reveal_strlit("美国");
    lemma_absent_char(l, "美国"@, 0);
    reveal_strlit("日本");
    lemma_absent_char(l, "日本"@, 0);
    reveal_strlit("韩国");
    lemma_absent_char(l, "韩国"@, 0);
    reveal_strlit("新加坡");
    lemma_absent_char(l, "新加坡"@, 0);
    lemma_contains_self(l);
}

/// No keyword of a rule before the 德国 rule occurs in its label.
proof fn lemma_label_germany()
    ensures
        keyword_country("德国"@) == Some("德国"@),
{
    let l = "德国"@;
    reveal_strlit("德国");
    assert(is_cjk_text(l));
    lemma_cjk_no_foreign_keyword(l);
    reveal_strlit("香港");
    lemma_absent_char(l, "香港"@, 0);
    reveal_strlit("台湾");
    lemma_absent_char(l, "台湾"@, 0);
    reveal_strlit("澳门");
    lemma_absent_char(l, "澳门"@, 0);
    reveal_strlit("美国");
    lemma_absent_char(l, "美国"@, 0);
    reveal_strlit("日本");
    lemma_absent_char(l, "日本"@, 0);
    reveal_strlit("韩国");
    lemma_absent_char(l, "韩国"@, 0);
    reveal_strlit("新加坡");
    lemma_absent_char(l, "新加坡"@, 0);
    reveal_strlit("英国");
    lemma_absent_char(l, "英国"@, 0);
    lemma_contains_self(l);
}

/// No keyword of a rule before the 法国 rule occurs in its label.
proof fn lemma_label_france()
    ensures
        keyword_country("法国"@) == Some("法国"@),
{
    let l = "法国"@;
    reveal_strlit("法国");
    assert(is_cjk_text(l));
    lemma_cjk_no_foreign_keyword(l);
    reveal_strlit("香港");
    lemma_absent_char(l, "香港"@, 0);
    reveal_strlit("台湾");
    lemma_absent_char(l, "台湾"@, 0);
    reveal_strlit("澳门");
    lemma_absent_char(l, "澳门"@, 0);
    reveal_strlit("美国");
    lemma_absent_char(l, "美国"@, 0);
    reveal_strlit("日本");
    lemma_absent_char(l, "日本"@, 0);
    reveal_strlit("韩国");
    lemma_absent_char(l, "韩国"@, 0);
    reveal_strlit("新加坡");
    lemma_absent_char(l, "新加坡"@, 0);
    reveal_strlit("英国");
    lemma_absent_char(l, "英国"@, 0);
    reveal_strlit("德国");
    lemma_absent_char(l, "德国"@, 0);
    lemma_contains_self(l);
}

/// No keyword of a rule before the 加拿大 rule occurs in its label.
proof fn lemma_label_canada()
    ensures
        keyword_country("加拿大"@) == Some("加拿大"@),
{
    let l = "加拿大"@;
    reveal_strlit("加拿大");
    assert(is_cjk_text(l));
    lemma_cjk_no_foreign_keyword(l);
    reveal_strlit("香港");
    lemma_absent_char(l, "香港"@, 0);
    reveal_strlit("台湾");
    lemma_absent_char(l, "台湾"@, 0);
    reveal_strlit("澳门");
    lemma_absent_char(l, "澳门"@, 0);
    reveal_strlit("美国");
    lemma_absent_char(l, "美国"@, 0);
    reveal_strlit("日本");
    lemma_absent_char(l, "日本"@, 0);
    reveal_strlit("韩国");
    lemma_absent_char(l, "韩国"@, 0);
    reveal_strlit("新加坡");
    lemma_absent_char(l, "新加坡"@, 0);
    reveal_strlit("英国");
    lemma_absent_char(l, "英国"@, 0);
    reveal_strlit("德国");
    lemma_absent_char(l, "德国"@, 0);
    reveal_strlit("法国");
    lemma_absent_char(l, "法国"@, 0);
    lemma_contains_self(l);
}

/// No keyword of a rule before the 澳大利亚 rule occurs in its label.
proof fn lemma_label_australia()
    ensures
        keyword_country("澳大利亚"@) == Some("澳大利亚"@),
{
    let l = "澳大利亚"@;
    reveal_strlit("澳大利亚");
    assert(is_cjk_text(l));
    lemma_cjk_no_foreign_keyword(l);
    reveal_strlit("香港");
    lemma_absent_char(l, "香港"@, 0);
    reveal_strlit("台湾");
    lemma_absent_char(l, "台湾"@, 0);
    reveal_strlit("澳门");
    lemma_absent_char(l, "澳门"@, 1);
    reveal_strlit("美国");
    lemma_absent_char(l, "美国"@, 0);
    reveal_strlit("日本");
    lemma_absent_char(l, "日本"@, 0);
    reveal_strlit("韩国");
    lemma_absent_char(l, "韩国"@, 0);
    reveal_strlit("新加坡");
    lemma_absent_char(l, "新加坡"@, 0);
    reveal_strlit("英国");
    lemma_absent_char(l, "英国"@, 0);
    reveal_strlit("德国");
    lemma_absent_char(l, "德国"@, 0);
    reveal_strlit("法国");
    lemma_absent_char(l, "法国"@, 0);
    reveal_strlit("加拿大");
    lemma_absent_char(l, "加拿大"@, 0);
    lemma_contains_self(l);
}

/// No keyword of a rule before the 印度 rule occurs in its label.
proof fn lemma_label_india()
    ensures
        keyword_country("印度"@) == Some("印度"@),
{
    let l = "印度"@;
    reveal_strlit("印度");
    assert(is_cjk_text(l));
    lemma_cjk_no_foreign_keyword(l);
    reveal_strlit("香港");
    lemma_absent_char(l, "香港"@, 0);
    reveal_strlit("台湾");
    lemma_absent_char(l, "台湾"@, 0);
    reveal_strlit("澳门");
    lemma_absent_char(l, "澳门"@, 0);
    reveal_strlit("美国");
    lemma_absent_char(l, "美国"@, 0);
    reveal_strlit("日本");
    lemma_absent_char(l, "日本"@, 0);
    reveal_strlit("韩国");
    lemma_absent_char(l, "韩国"@, 0);
    reveal_strlit("新加坡");
    lemma_absent_char(l, "新加坡"@, 0);
    reveal_strlit("英国");
    lemma_absent_char(l, "英国"@, 0);
    reveal_strlit("德国");
    lemma_absent_char(l, "德国"@, 0);
    reveal_strlit("法国");
    lemma_absent_char(l, "法国"@, 0);
    reveal_strlit("加拿大");
    lemma_absent_char(l, "加拿大"@, 0);
    reveal_strlit("澳大利亚");
    lemma_absent_char(l, "澳大利亚"@, 0);
    lemma_contains_self(l);
}

/// No keyword of a rule before the 荷兰 rule occurs in its label.
proof fn lemma_label_netherlands()
    ensures
        keyword_country("荷兰"@) == Some("荷兰"@),
{
    let l = "荷兰"@;
    reveal_strlit("荷兰");
    assert(is_cjk_text(l));
    lemma_cjk_no_foreign_keyword(l);
    reveal_strlit("香港");
    lemma_absent_char(l, "香港"@, 0);
    reveal_strlit("台湾");
    lemma_absent_char(l, "台湾"@, 0);
    reveal_strlit("澳门");
    lemma_absent_char(l, "澳门"@, 0);
    reveal_strlit("美国");
    lemma_absent_char(l, "美国"@, 0);
    reveal_strlit("日本");
    lemma_absent_char(l, "日本"@, 0);
    reveal_strlit("韩国");
    lemma_absent_char(l, "韩国"@, 0);
    reveal_strlit("新加坡");
    lemma_absent_char(l, "新加坡"@, 0);
    reveal_strlit("英国");
    lemma_absent_char(l, "英国"@, 0);
    reveal_strlit("德国");
    lemma_absent_char(l, "德国"@, 0);
    reveal_strlit("法国");
    lemma_absent_char(l, "法国"@, 0);
    reveal_strlit("加拿大");
    lemma_absent_char(l, "加拿大"@, 0);
    reveal_strlit("澳大利亚");
    lemma_absent_char(l, "澳大利亚"@, 0);
    reveal_strlit("印度");
    lemma_absent_char(l, "印度"@, 0);
    lemma_contains_self(l);
}

/// No keyword of a rule before the 俄罗斯 rule occurs in its label.
proof fn lemma_label_russia()
    ensures
        keyword_country("俄罗斯"@) == Some("俄罗斯"@),
{
    let l = "俄罗斯"@;
    reveal_strlit("俄罗斯");
    assert(is_cjk_text(l));
    lemma_cjk_no_foreign_keyword(l);
    reveal_strlit("香港");
    lemma_absent_char(l, "香港"@, 0);
    reveal_strlit("台湾");
    lemma_absent_char(l, "台湾"@, 0);
    reveal_strlit("澳门");
    lemma_absent_char(l, "澳门"@, 0);
    reveal_strlit("美国");
    lemma_absent_char(l, "美国"@, 0);
    reveal_strlit("日本");
    lemma_absent_char(l, "日本"@, 0);
    reveal_strlit("韩国");
    lemma_absent_char(l, "韩国"@, 0);
    reveal_strlit("新加坡");
    lemma_absent_char(l, "新加坡"@, 0);
    reveal_strlit("英国");
    lemma_absent_char(l, "英国"@, 0);
    reveal_strlit("德国");
    lemma_absent_char(l, "德国"@, 0);
    reveal_strlit("法国");
    lemma_absent_char(l, "法国"@, 0);
    reveal_strlit("加拿大");
    lemma_absent_char(l, "加拿大"@, 0);
    reveal_strlit("澳大利亚");
    lemma_absent_char(l, "澳大利亚"@, 0);
    reveal_strlit("印度");
    lemma_absent_char(l, "印度"@, 0);
    reveal_strlit("荷兰");
    lemma_absent_char(l, "荷兰"@, 0);
    lemma_contains_self(l);
}

/// No keyword of a rule before the 土耳其 rule occurs in its label.
proof fn lemma_label_turkey()
    ensures
        keyword_country("土耳其"@) == Some("土耳其"@),
{
    let l = "土耳其"@;
    reveal_strlit("土耳其");
    assert(is_cjk_text(l));
    lemma_cjk_no_foreign_keyword(l);
    reveal_strlit("香港");
    lemma_absent_char(l, "香港"@, 0);
    reveal_strlit("台湾");
    lemma_absent_char(l, "台湾"@, 0);
    reveal_strlit("澳门");
    lemma_absent_char(l, "澳门"@, 0);
    reveal_strlit("美国");
    lemma_absent_char(l, "美国"@, 0);
    reveal_strlit("日本");
    lemma_absent_char(l, "日本"@, 0);
    reveal_strlit("韩国");
    lemma_absent_char(l, "韩国"@, 0);
    reveal_strlit("新加坡");
    lemma_absent_char(l, "新加坡"@, 0);
    reveal_strlit("英国");
    lemma_absent_char(l, "英国"@, 0);
    reveal_strlit("德国");
    lemma_absent_char(l, "德国"@, 0);
    reveal_strlit("法国");
    lemma_absent_char(l, "法国"@, 0);
    reveal_strlit("加拿大");
    lemma_absent_char(l, "加拿大"@, 0);
    reveal_strlit("澳大利亚");
    lemma_absent_char(l, "澳大利亚"@, 0);
    reveal_strlit("印度");
    lemma_absent_char(l, "印度"@, 0);
    reveal_strlit("荷兰");
    lemma_absent_char(l, "荷兰"@, 0);
    reveal_strlit("俄罗斯");
    lemma_absent_char(l, "俄罗斯"@, 0);
    lemma_contains_self(l);
}

/// No keyword of a rule before the 阿根廷 rule occurs in its label.
proof fn lemma_label_argentina()
    ensures
        keyword_country("阿根廷"@) == Some("阿根廷"@),
{
    let l = "阿根廷"@;
    reveal_strlit("阿根廷");
    assert(is_cjk_text(l));
    lemma_cjk_no_foreign_keyword(l);
    reveal_strlit("香港");
    lemma_absent_char(l, "香港"@, 0);
    reveal_strlit("台湾");
    lemma_absent_char(l, "台湾"@, 0);
    reveal_strlit("澳门");
    lemma_absent_char(l, "澳门"@, 0);
    reveal_strlit("美国");
    lemma_absent_char(l, "美国"@, 0);
    reveal_strlit("日本");
    lemma_absent_char(l, "日本"@, 0);
    reveal_strlit("韩国");
    lemma_absent_char(l, "韩国"@, 0);
    reveal_strlit("新加坡");
    lemma_absent_char(l, "新加坡"@, 0);
    reveal_strlit("英国");
    lemma_absent_char(l, "英国"@, 0);
    reveal_strlit("德国");
    lemma_absent_char(l, "德国"@, 0);
    reveal_strlit("法国");
    lemma_absent_char(l, "法国"@, 0);
    reveal_strlit("加拿大");
    lemma_absent_char(l, "加拿大"@, 0);
    reveal_strlit("澳大利亚");
    lemma_absent_char(l, "澳大利亚"@, 0);
    reveal_strlit("印度");
    lemma_absent_char(l, "印度"@, 0);
    reveal_strlit("荷兰");
    lemma_absent_char(l, "荷兰"@, 0);
    reveal_strlit("俄罗斯");
    lemma_absent_char(l, "俄罗斯"@, 0);
    reveal_strlit("土耳其");
    lemma_absent_char(l, "土耳其"@, 0);
    lemma_contains_self(l);
}

/// No keyword of a rule before the 巴西 rule occurs in its label.
proof fn lemma_label_brazil()
    ensures
        keyword_country("巴西"@) == Some("巴西"@),
{
    let l = "巴西"@;
    reveal_strlit("巴西");
    assert(is_cjk_text(l));
    lemma_cjk_no_foreign_keyword(l);
    reveal_strlit("香港");
    lemma_absent_char(l, "香港"@, 0);
    reveal_strlit("台湾");
    lemma_absent_char(l, "台湾"@, 0);
    reveal_strlit("澳门");
    lemma_absent_char(l, "澳门"@, 0);
    reveal_strlit("美国");
    lemma_absent_char(l, "美国"@, 0);
    reveal_strlit("日本");
    lemma_absent_char(l, "日本"@, 0);
    reveal_strlit("韩国");
    lemma_absent_char(l, "韩国"@, 0);
    reveal_strlit("新加坡");
    lemma_absent_char(l, "新加坡"@, 0);
    reveal_strlit("英国");
    lemma_absent_char(l, "英国"@, 0);
    reveal_strlit("德国");
    lemma_absent_char(l, "德国"@, 0);
    reveal_strlit("法国");
    lemma_absent_char(l, "法国"@, 0);
    reveal_strlit("加拿大");
    lemma_absent_char(l, "加拿大"@, 0);
    reveal_strlit("澳大利亚");
    lemma_absent_char(l, "澳大利亚"@, 0);
    reveal_strlit("印度");
    lemma_absent_char(l, "印度"@, 0);
    reveal_strlit("荷兰");
    lemma_absent_char(l, "荷兰"@, 0);
    reveal_strlit("俄罗斯");
    lemma_absent_char(l, "俄罗斯"@, 0);
    reveal_strlit("土耳其");
    lemma_absent_char(l, "土耳其"@, 0);
    reveal_strlit("阿根廷");
    lemma_absent_char(l, "阿根廷"@, 0);
    lemma_contains_self(l);
}

/// No keyword of a rule before the 菲律宾 rule occurs in its label.
proof fn lemma_label_philippines()
    ensures
        keyword_country("菲律宾"@) == Some("菲律宾"@),
{
    let l = "菲律宾"@;
    reveal_strlit("菲律宾");
    assert(is_cjk_text(l));
    lemma_cjk_no_foreign_keyword(l);
    reveal_strlit("香港");
    lemma_absent_char(l, "香港"@, 0);
    reveal_strlit("台湾");
    lemma_absent_char(l, "台湾"@, 0);
    reveal_strlit("澳门");
    lemma_absent_char(l, "澳门"@, 0);
    reveal_strlit("美国");
    lemma_absent_char(l, "美国"@, 0);
    reveal_strlit("日本");
    lemma_absent_char(l, "日本"@, 0);
    reveal_strlit("韩国");
    lemma_absent_char(l, "韩国"@, 0);
    reveal_strlit("新加坡");
    lemma_absent_char(l, "新加坡"@, 0);
    reveal_strlit("英国");
    lemma_absent_char(l, "英国"@, 0);
    reveal_strlit("德国");
    lemma_absent_char(l, "德国"@, 0);
    reveal_strlit("法国");
    lemma_absent_char(l, "法国"@, 0);
    reveal_strlit("加拿大");
    lemma_absent_char(l, "加拿大"@, 0);
    reveal_strlit("澳大利亚");
    lemma_absent_char(l, "澳大利亚"@, 0);
    reveal_strlit("印度");
    lemma_absent_char(l, "印度"@, 0);
    reveal_strlit("荷兰");
    lemma_absent_char(l, "荷兰"@, 0);
    reveal_strlit("俄罗斯");
    lemma_absent_char(l, "俄罗斯"@, 0);
    reveal_strlit("土耳其");
    lemma_absent_char(l, "土耳其"@, 0);
    reveal_strlit("阿根廷");
    lemma_absent_char(l, "阿根廷"@, 0);
    reveal_strlit("巴西");
    lemma_absent_char(l, "巴西"@, 0);
    lemma_contains_self(l);
}

/// No keyword of a rule before the 马来西亚 rule occurs in its label.
proof fn lemma_label_malaysia()
    ensures
        keyword_country("马来西亚"@) == Some("马来西亚"@),
{
    let l = "马来西亚"@;
    reveal_strlit("马来西亚");
    assert(is_cjk_text(l));
    lemma_cjk_no_foreign_keyword(l);
    reveal_strlit("香港");
    lemma_absent_char(l, "香港"@, 0);
    reveal_strlit("台湾");
    lemma_absent_char(l, "台湾"@, 0);
    reveal_strlit("澳门");
    lemma_absent_char(l, "澳门"@, 0);
    reveal_strlit("美国");
    lemma_absent_char(l, "美国"@, 0);
    reveal_strlit("日本");
    lemma_absent_char(l, "日本"@, 0);
    reveal_strlit("韩国");
    lemma_absent_char(l, "韩国"@, 0);
    reveal_strlit("新加坡");
    lemma_absent_char(l, "新加坡"@, 0);
    reveal_strlit("英国");
    lemma_absent_char(l, "英国"@, 0);
    reveal_strlit("德国");
    lemma_absent_char(l, "德国"@, 0);
    reveal_strlit("法国");
    lemma_absent_char(l, "法国"@, 0);
    reveal_strlit("加拿大");
    lemma_absent_char(l, "加拿大"@, 0);
    reveal_strlit("澳大利亚");
    lemma_absent_char(l, "澳大利亚"@, 0);
    reveal_strlit("印度");
    lemma_absent_char(l, "印度"@, 0);
    reveal_strlit("荷兰");
    lemma_absent_char(l, "荷兰"@, 0);
    reveal_strlit("俄罗斯");
    lemma_absent_char(l, "俄罗斯"@, 0);
    reveal_strlit("土耳其");
    lemma_absent_char(l, "土耳其"@, 0);
    reveal_strlit("阿根廷");
    lemma_absent_char(l, "阿根廷"@, 0);
    reveal_strlit("巴西");
    lemma_absent_char(l, "巴西"@, 0);
    reveal_strlit("菲律宾");
    lemma_absent_char(l, "菲律宾"@, 0);
    lemma_contains_self(l);
}

/// No keyword of a rule before the 泰国 rule occurs in its label.
proof fn lemma_label_thailand()
    ensures
        keyword_country("泰国"@) == Some("泰国"@),
{
    let l = "泰国"@;
    reveal_strlit("泰国");
    assert(is_cjk_text(l));
    lemma_cjk_no_foreign_keyword(l);
    reveal_strlit("香港");
    lemma_absent_char(l, "香港"@, 0);
    reveal_strlit("台湾");
    lemma_absent_char(l, "台湾"@, 0);
    reveal_strlit("澳门");
    lemma_absent_char(l, "澳门"@, 0);
    reveal_strlit("美国");
    lemma_absent_char(l, "美国"@, 0);
    reveal_strlit("日本");
    lemma_absent_char(l, "日本"@, 0);
    reveal_strlit("韩国");
    lemma_absent_char(l, "韩国"@, 0);
    reveal_strlit("新加坡");
    lemma_absent_char(l, "新加坡"@, 0);
    reveal_strlit("英国");
    lemma_absent_char(l, "英国"@, 0);
    reveal_strlit("德国");
    lemma_absent_char(l, "德国"@, 0);
    reveal_strlit("法国");
    lemma_absent_char(l, "法国"@, 0);
    reveal_strlit("加拿大");
    lemma_absent_char(l, "加拿大"@, 0);
    reveal_strlit("澳大利亚");
    lemma_absent_char(l, "澳大利亚"@, 0);
    reveal_strlit("印度");
    lemma_absent_char(l, "印度"@, 0);
    reveal_strlit("荷兰");
    lemma_absent_char(l, "荷兰"@, 0);
    reveal_strlit("俄罗斯");
    lemma_absent_char(l, "俄罗斯"@, 0);
    reveal_strlit("土耳其");
    lemma_absent_char(l, "土耳其"@, 0);
    reveal_strlit("阿根廷");
    lemma_absent_char(l, "阿根廷"@, 0);
    reveal_strlit("巴西");
    lemma_absent_char(l, "巴西"@, 0);
    reveal_strlit("菲律宾");
    lemma_absent_char(l, "菲律宾"@, 0);
    reveal_strlit("马来西亚");
    lemma_absent_char(l, "马来西亚"@, 0);
    lemma_contains_self(l);
}

/// No keyword of a rule before the 越南 rule occurs in its label.
proof fn lemma_label_vietnam()
    ensures
        keyword_country("越南"@) == Some("越南"@),
{
    let l = "越南"@;
    reveal_strlit("越南");
    assert(is_cjk_text(l));
    lemma_cjk_no_foreign_keyword(l);
    reveal_strlit("香港");
    lemma_absent_char(l, "香港"@, 0);
    reveal_strlit("台湾");
    lemma_absent_char(l, "台湾"@, 0);
    reveal_strlit("澳门");
    lemma_absent_char(l, "澳门"@, 0);
    reveal_strlit("美国");
    lemma_absent_char(l, "美国"@, 0);
    reveal_strlit("日本");
    lemma_absent_char(l, "日本"@, 0);
    reveal_strlit("韩国");
    lemma_absent_char(l, "韩国"@, 0);
    reveal_strlit("新加坡");
    lemma_absent_char(l, "新加坡"@, 0);
    reveal_strlit("英国");
    lemma_absent_char(l, "英国"@, 0);
    reveal_strlit("德国");
    lemma_absent_char(l, "德国"@, 0);
    reveal_strlit("法国");
    lemma_absent_char(l, "法国"@, 0);
    reveal_strlit("加拿大");
    lemma_absent_char(l, "加拿大"@, 0);
    reveal_strlit("澳大利亚");
    lemma_absent_char(l, "澳大利亚"@, 0);
    reveal_strlit("印度");
    lemma_absent_char(l, "印度"@, 0);
    reveal_strlit("荷兰");
    lemma_absent_char(l, "荷兰"@, 0);
    reveal_strlit("俄罗斯");
    lemma_absent_char(l, "俄罗斯"@, 0);
    reveal_strlit("土耳其");
    lemma_absent_char(l, "土耳其"@, 0);
    reveal_strlit("阿根廷");
    lemma_absent_char(l, "阿根廷"@, 0);
    reveal_strlit("巴西");
    lemma_absent_char(l, "巴西"@, 0);
    reveal_strlit("菲律宾");
    lemma_absent_char(l, "菲律宾"@, 0);
    reveal_strlit("马来西亚");
    lemma_absent_char(l, "马来西亚"@, 0);
    reveal_strlit("泰国");
    lemma_absent_char(l, "泰国"@, 0);
    lemma_contains_self(l);
}

/// No keyword of a rule before the 印尼 rule occurs in its label.
proof fn lemma_label_indonesia()
    ensures
        keyword_country("印尼"@) == Some("印尼"@),
{
    let l = "印尼"@;
    reveal_strlit("印尼");
    assert(is_cjk_text(l));
    lemma_cjk_no_foreign_keyword(l);
    reveal_strlit("香港");
    lemma_absent_char(l, "香港"@, 0);
    reveal_strlit("台湾");
    lemma_absent_char(l, "台湾"@, 0);
    reveal_strlit("澳门");
    lemma_absent_char(l, "澳门"@, 0);
    reveal_strlit("美国");
    lemma_absent_char(l, "美国"@, 0);
    reveal_strlit("日本");
    lemma_absent_char(l, "日本"@, 0);
    reveal_strlit("韩国");
    lemma_absent_char(l, "韩国"@, 0);
    reveal_strlit("新加坡");
    lemma_absent_char(l, "新加坡"@, 0);
    reveal_strlit("英国");
    lemma_absent_char(l, "英国"@, 0);
    reveal_strlit("德国");
    lemma_absent_char(l, "德国"@, 0);
    reveal_strlit("法国");
    lemma_absent_char(l, "法国"@, 0);
    reveal_strlit("加拿大");
    lemma_absent_char(l, "加拿大"@, 0);
    reveal_strlit("澳大利亚");
    lemma_absent_char(l, "澳大利亚"@, 0);
    reveal_strlit("印度");
    lemma_absent_char(l, "印度"@, 1);
    reveal_strlit("荷兰");
    lemma_absent_char(l, "荷兰"@, 0);
    reveal_strlit("俄罗斯");
    lemma_absent_char(l, "俄罗斯"@, 0);
    reveal_strlit("土耳其");
    lemma_absent_char(l, "土耳其"@, 0);
    reveal_strlit("阿根廷");
    lemma_absent_char(l, "阿根廷"@, 0);
    reveal_strlit("巴西");
    lemma_absent_char(l, "巴西"@, 0);
    reveal_strlit("菲律宾");
    lemma_absent_char(l, "菲律宾"@, 0);
    reveal_strlit("马来西亚");
    lemma_absent_char(l, "马来西亚"@, 0);
    reveal_strlit("泰国");
    lemma_absent_char(l, "泰国"@, 0);
    reveal_strlit("越南");
    lemma_absent_char(l, "越南"@, 0);
    lemma_contains_self(l);
}

/// Each rule's label names itself: a lower-case text that is exactly a
/// label is matched by that label's own rule, so the country it names is that
/// label; and where lower-casing leaves the label as it is, so does the text.
pub proof fn law_labels_name_themselves(c: Seq<char>)
    requires
        is_country_label(c),
    ensures
        keyword_country(c) == Some(c),
        country_of_lower(c) == Some(c),
        lower_text(c) == c ==> country_of_text(c) == Some(c),
{
    if c == "香港"@ {
        lemma_label_hong_kong();
    } else if c == "台湾"@ {
        lemma_label_taiwan();
    } else if c == "澳门"@ {
        lemma_label_macau();
    } else if c == "美国"@ {
        lemma_label_united_states();
    } else if c == "日本"@ {
        lemma_label_japan();
    } else if c == "韩国"@ {
        lemma_label_korea();
    } else if c == "新加坡"@ {
        lemma_label_singapore();
    } else if c == "英国"@ {
        lemma_label_united_kingdom();
    } else if c == "德国"@ {
        lemma_label_germany();
    } else if c == "法国"@ {
        lemma_label_france();
    } else if c == "加拿大"@ {
        lemma_label_canada();
    } else if c == "澳大利亚"@ {
        lemma_label_australia();
    } else if c == "印度"@ {
        lemma_label_india();
    } else if c == "荷兰"@ {
        lemma_label_netherlands();
    } else if c == "俄罗斯"@ {
        lemma_label_russia();
    } else if c == "土耳其"@ {
        lemma_label_turkey();
    } else if c == "阿根廷"@ {
        lemma_label_argentina();
    } else if c == "巴西"@ {
        lemma_label_brazil();
    } else if c == "菲律宾"@ {
        lemma_label_philippines();
    } else if c == "马来西亚"@ {
        lemma_label_malaysia();
    } else if c == "泰国"@ {
        lemma_label_thailand();
    } else if c == "越南"@ {
        lemma_label_vietnam();
    } else if c == "印尼"@ {
        lemma_label_indonesia();
    }
}

/// In a text written in Chinese characters that names one country by its
/// label and no other label, that country is the one the rules find.
pub proof fn law_chinese_name_decides(s: Seq<char>, c: Seq<char>)
    requires
        is_cjk_text(s),
        is_country_label(c),
        contains(s, c),
        forall|d: Seq<char>| is_country_label(d) && d != c ==> !#[trigger] contains(s, d),
    ensures
        keyword_country(s) == Some(c),
        country_of_lower(s) == Some(c),
{
    lemma_cjk_no_foreign_keyword(s);
    if c == "香港"@ {
        reveal_strlit("香港");
    } else if c == "台湾"@ {
        reveal_strlit("台湾");
        reveal_strlit("香港");
        assert(!contains(s, "香港"@));
    } else if c == "澳门"@ {
        reveal_strlit("澳门");
        reveal_strlit("香港");
        assert(!contains(s, "香港"@));
        reveal_strlit("台湾");
        assert(!contains(s, "台湾"@));
    } else if c == "美国"@ {
        reveal_strlit("美国");
        reveal_strlit("香港");
        assert(!contains(s, "香港"@));
        reveal_strlit("台湾");
        assert(!contains(s, "台湾"@));
        reveal_strlit("澳门");
        assert(!contains(s, "澳门"@));
    } else if c == "日本"@ {
        reveal_strlit("日本");
        reveal_strlit("香港");
        assert(!contains(s, "香港"@));
        reveal_strlit("台湾");
        assert(!contains(s, "台湾"@));
        reveal_strlit("澳门");
        assert(!contains(s, "澳门"@));
        reveal_strlit("美国");
        assert(!contains(s, "美国"@));
    } else if c == "韩国"@ {
        reveal_strlit("韩国");
        reveal_strlit("香港");
        assert(!contains(s, "香港"@));
        reveal_strlit("台湾");
        assert(!contains(s, "台湾"@));
        reveal_strlit("澳门");
        assert(!contains(s, "澳门"@));
        reveal_strlit("美国");
        assert(!contains(s, "美国"@));
        reveal_strlit("日本");
        assert(!contains(s, "日本"@));
    } else if c == "新加坡"@ {
        reveal_strlit("新加坡");
        reveal_strlit("香港");
        assert(!contains(s, "香港"@));
        reveal_strlit("台湾");
        assert(!contains(s, "台湾"@));
        reveal_strlit("澳门");
        assert(!contains(s, "澳门"@));
        reveal_strlit("美国");
        assert(!contains(s, "美国"@));
        reveal_strlit("日本");
        assert(!contains(s, "日本"@));
        reveal_strlit("韩国");
        assert(!contains(s, "韩国"@));
    } else if c == "英国"@ {
        reveal_strlit("英国");
        reveal_strlit("香港");
        assert(!contains(s, "香港"@));
        reveal_strlit("台湾");
        assert(!contains(s, "台湾"@));
        reveal_strlit("澳门");
        assert(!contains(s, "澳门"@));
        reveal_strlit("美国");
        assert(!contains(s, "美国"@));
        reveal_strlit("日本");
        assert(!contains(s, "日本"@));
        reveal_strlit("韩国");
        assert(!contains(s, "韩国"@));
        reveal_strlit("新加坡");
        assert(!contains(s, "新加坡"@));
    } else if c == "德国"@ {
        reveal_strlit("德国");
        reveal_strlit("香港");
        assert(!contains(s, "香港"@));
        reveal_strlit("台湾");
        assert(!contains(s, "台湾"@));
        reveal_strlit("澳门");
        assert(!contains(s, "澳门"@));
        reveal_strlit("美国");
        assert(!contains(s, "美国"@));
        reveal_strlit("日本");
        assert(!contains(s, "日本"@));
        reveal_strlit("韩国");
        assert(!contains(s, "韩国"@));
        reveal_strlit("新加坡");
        assert(!contains(s, "新加坡"@));
        reveal_strlit("英国");
        assert(!contains(s, "英国"@));
    } else if c == "法国"@ {
        reveal_strlit("法国");
        reveal_strlit("香港");
        assert(!contains(s, "香港"@));
        reveal_strlit("台湾");
        assert(!contains(s, "台湾"@));
        reveal_strlit("澳门");
        assert(!contains(s, "澳门"@));
        reveal_strlit("美国");
        assert(!contains(s, "美国"@));
        reveal_strlit("日本");
        assert(!contains(s, "日本"@));
        reveal_strlit("韩国");
        assert(!contains(s, "韩国"@));
        reveal_strlit("新加坡");
        assert(!contains(s, "新加坡"@));
        reveal_strlit("英国");
        assert(!contains(s, "英国"@));
        reveal_strlit("德国");
        assert(!contains(s, "德国"@));
    } else if c == "加拿大"@ {
        reveal_strlit("加拿大");
        reveal_strlit("香港");
        assert(!contains(s, "香港"@));
        reveal_strlit("台湾");
        assert(!contains(s, "台湾"@));
        reveal_strlit("澳门");
        assert(!contains(s, "澳门"@));
        reveal_strlit("美国");
        assert(!contains(s, "美国"@));
        reveal_strlit("日本");
        assert(!contains(s, "日本"@));
        reveal_strlit("韩国");
        assert(!contains(s, "韩国"@));
        reveal_strlit("新加坡");
        assert(!contains(s, "新加坡"@));
        reveal_strlit("英国");
        assert(!contains(s, "英国"@));
        reveal_strlit("德国");
        assert(!contains(s, "德国"@));
        reveal_strlit("法国");
        assert(!contains(s, "法国"@));
    } else if c == "澳大利亚"@ {
        reveal_strlit("澳大利亚");
        reveal_strlit("香港");
        assert(!contains(s, "香港"@));
        reveal_strlit("台湾");
        assert(!contains(s, "台湾"@));
        reveal_strlit("澳门");
        assert(!contains(s, "澳门"@));
        reveal_strlit("美国");
        assert(!contains(s, "美国"@));
        reveal_strlit("日本");
        assert(!contains(s, "日本"@));
        reveal_strlit("韩国");
        assert(!contains(s, "韩国"@));
        reveal_strlit("新加坡");
        assert(!contains(s, "新加坡"@));
        reveal_strlit("英国");
        assert(!contains(s, "英国"@));
        reveal_strlit("德国");
        assert(!contains(s, "德国"@));
        reveal_strlit("法国");
        assert(!contains(s, "法国"@));
        reveal_strlit("加拿大");
        assert(!contains(s, "加拿大"@));
    } else if c == "印度"@ {
        reveal_strlit("印度");
        reveal_strlit("香港");
        assert(!contains(s, "香港"@));
        reveal_strlit("台湾");
        assert(!contains(s, "台湾"@));
        reveal_strlit("澳门");
        assert(!contains(s, "澳门"@));
        reveal_strlit("美国");
        assert(!contains(s, "美国"@));
        reveal_strlit("日本");
        assert(!contains(s, "日本"@));
        reveal_strlit("韩国");
        assert(!contains(s, "韩国"@));
        reveal_strlit("新加坡");
        assert(!contains(s, "新加坡"@));
        reveal_strlit("英国");
        assert(!contains(s, "英国"@));
        reveal_strlit("德国");
        assert(!contains(s, "德国"@));
        reveal_strlit("法国");
        assert(!contains(s, "法国"@));
        reveal_strlit("加拿大");
        assert(!contains(s, "加拿大"@));
        reveal_strlit("澳大利亚");
        assert(!contains(s, "澳大利亚"@));
    } else if c == "荷兰"@ {
        reveal_strlit("荷兰");
        reveal_strlit("香港");
        assert(!contains(s, "香港"@));
        reveal_strlit("台湾");
        assert(!contains(s, "台湾"@));
        reveal_strlit("澳门");
        assert(!contains(s, "澳门"@));
        reveal_strlit("美国");
        assert(!contains(s, "美国"@));
        reveal_strlit("日本");
        assert(!contains(s, "日本"@));
        reveal_strlit("韩国");
        assert(!contains(s, "韩国"@));
        reveal_strlit("新加坡");
        assert(!contains(s, "新加坡"@));
        reveal_strlit("英国");
        assert(!contains(s, "英国"@));
        reveal_strlit("德国");
        assert(!contains(s, "德国"@));
        reveal_strlit("法国");
        assert(!contains(s, "法国"@));
        reveal_strlit("加拿大");
        assert(!contains(s, "加拿大"@));
        reveal_strlit("澳大利亚");
        assert(!contains(s, "澳大利亚"@));
        reveal_strlit("印度");
        assert(!contains(s, "印度"@));
    } else if c == "俄罗斯"@ {
        reveal_strlit("俄罗斯");
        reveal_strlit("香港");
        assert(!contains(s, "香港"@));
        reveal_strlit("台湾");
        assert(!contains(s, "台湾"@));
        reveal_strlit("澳门");
        assert(!contains(s, "澳门"@));
        reveal_strlit("美国");
        assert(!contains(s, "美国"@));
        reveal_strlit("日本");
        assert(!contains(s, "日本"@));
        reveal_strlit("韩国");
        assert(!contains(s, "韩国"@));
        reveal_strlit("新加坡");
        assert(!contains(s, "新加坡"@));
        reveal_strlit("英国");
        assert(!contains(s, "英国"@));
        reveal_strlit("德国");
        assert(!contains(s, "德国"@));
        reveal_strlit("法国");
        assert(!contains(s, "法国"@));
        reveal_strlit("加拿大");
        assert(!contains(s, "加拿大"@));
        reveal_strlit("澳大利亚");
        assert(!contains(s, "澳大利亚"@));
        reveal_strlit("印度");
        assert(!contains(s, "印度"@));
        reveal_strlit("荷兰");
        assert(!contains(s, "荷兰"@));
    } else if c == "土耳其"@ {
        reveal_strlit("土耳其");
        reveal_strlit("香港");
        assert(!contains(s, "香港"@));
        reveal_strlit("台湾");
        assert(!contains(s, "台湾"@));
        reveal_strlit("澳门");
        assert(!contains(s, "澳门"@));
        reveal_strlit("美国");
        assert(!contains(s, "美国"@));
        reveal_strlit("日本");
        assert(!contains(s, "日本"@));
        reveal_strlit("韩国");
        assert(!contains(s, "韩国"@));
        reveal_strlit("新加坡");
        assert(!contains(s, "新加坡"@));
        reveal_strlit("英国");
        assert(!contains(s, "英国"@));
        reveal_strlit("德国");
        assert(!contains(s, "德国"@));
        reveal_strlit("法国");
        assert(!contains(s, "法国"@));
        reveal_strlit("加拿大");
        assert(!contains(s, "加拿大"@));
        reveal_strlit("澳大利亚");
        assert(!contains(s, "澳大利亚"@));
        reveal_strlit("印度");
        assert(!contains(s, "印度"@));
        reveal_strlit("荷兰");
        assert(!contains(s, "荷兰"@));
        reveal_strlit("俄罗斯");
        assert(!contains(s, "俄罗斯"@));
    } else if c == "阿根廷"@ {
        reveal_strlit("阿根廷");
        reveal_strlit("香港");
        assert(!contains(s, "香港"@));
        reveal_strlit("台湾");
        assert(!contains(s, "台湾"@));
        reveal_strlit("澳门");
        assert(!contains(s, "澳门"@));
        reveal_strlit("美国");
        assert(!contains(s, "美国"@));
        reveal_strlit("日本");
        assert(!contains(s, "日本"@));
        reveal_strlit("韩国");
        assert(!contains(s, "韩国"@));
        reveal_strlit("新加坡");
        assert(!contains(s, "新加坡"@));
        reveal_strlit("英国");
        assert(!contains(s, "英国"@));
        reveal_strlit("德国");
        assert(!contains(s, "德国"@));
        reveal_strlit("法国");
        assert(!contains(s, "法国"@));
        reveal_strlit("加拿大");
        assert(!contains(s, "加拿大"@));
        reveal_strlit("澳大利亚");
        assert(!contains(s, "澳大利亚"@));
        reveal_strlit("印度");
        assert(!contains(s, "印度"@));
        reveal_strlit("荷兰");
        assert(!contains(s, "荷兰"@));
        reveal_strlit("俄罗斯");
        assert(!contains(s, "俄罗斯"@));
        reveal_strlit("土耳其");
        assert(!contains(s, "土耳其"@));
    } else if c == "巴西"@ {
        reveal_strlit("巴西");
        reveal_strlit("香港");
        assert(!contains(s, "香港"@));
        reveal_strlit("台湾");
        assert(!contains(s, "台湾"@));
        reveal_strlit("澳门");
        assert(!contains(s, "澳门"@));
        reveal_strlit("美国");
        assert(!contains(s, "美国"@));
        reveal_strlit("日本");
        assert(!contains(s, "日本"@));
        reveal_strlit("韩国");
        assert(!contains(s, "韩国"@));
        reveal_strlit("新加坡");
        assert(!contains(s, "新加坡"@));
        reveal_strlit("英国");
        assert(!contains(s, "英国"@));
        reveal_strlit("德国");
        assert(!contains(s, "德国"@));
        reveal_strlit("法国");
        assert(!contains(s, "法国"@));
        reveal_strlit("加拿大");
        assert(!contains(s, "加拿大"@));
        reveal_strlit("澳大利亚");
        assert(!contains(s, "澳大利亚"@));
        reveal_strlit("印度");
        assert(!contains(s, "印度"@));
        reveal_strlit("荷兰");
        assert(!contains(s, "荷兰"@));
        reveal_strlit("俄罗斯");
        assert(!contains(s, "俄罗斯"@));
        reveal_strlit("土耳其");
        assert(!contains(s, "土耳其"@));
        reveal_strlit("阿根廷");
        assert(!contains(s, "阿根廷"@));
    } else if c == "菲律宾"@ {
        reveal_strlit("菲律宾");
        reveal_strlit("香港");
        assert(!contains(s, "香港"@));
        reveal_strlit("台湾");
        assert(!contains(s, "台湾"@));
        reveal_strlit("澳门");
        assert(!contains(s, "澳门"@));
        reveal_strlit("美国");
        assert(!contains(s, "美国"@));
        reveal_strlit("日本");
        assert(!contains(s, "日本"@));
        reveal_strlit("韩国");
        assert(!contains(s, "韩国"@));
        reveal_strlit("新加坡");
        assert(!contains(s, "新加坡"@));
        reveal_strlit("英国");
        assert(!contains(s, "英国"@));
        reveal_strlit("德国");
        assert(!contains(s, "德国"@));
        reveal_strlit("法国");
        assert(!contains(s, "法国"@));
        reveal_strlit("加拿大");
        assert(!contains(s, "加拿大"@));
        reveal_strlit("澳大利亚");
        assert(!contains(s, "澳大利亚"@));
        reveal_strlit("印度");
        assert(!contains(s, "印度"@));
        reveal_strlit("荷兰");
        assert(!contains(s, "荷兰"@));
        reveal_strlit("俄罗斯");
        assert(!contains(s, "俄罗斯"@));
        reveal_strlit("土耳其");
        assert(!contains(s, "土耳其"@));
        reveal_strlit("阿根廷");
        assert(!contains(s, "阿根廷"@));
        reveal_strlit("巴西");
        assert(!contains(s, "巴西"@));
    } else if c == "马来西亚"@ {
        reveal_strlit("马来西亚");
        reveal_strlit("香港");
        assert(!contains(s, "香港"@));
        reveal_strlit("台湾");
        assert(!contains(s, "台湾"@));
        reveal_strlit("澳门");
        assert(!contains(s, "澳门"@));
        reveal_strlit("美国");
        assert(!contains(s, "美国"@));
        reveal_strlit("日本");
        assert(!contains(s, "日本"@));
        reveal_strlit("韩国");
        assert(!contains(s, "韩国"@));
        reveal_strlit("新加坡");
        assert(!contains(s, "新加坡"@));
        reveal_strlit("英国");
        assert(!contains(s, "英国"@));
        reveal_strlit("德国");
        assert(!contains(s, "德国"@));
        reveal_strlit("法国");
        assert(!contains(s, "法国"@));
        reveal_strlit("加拿大");
        assert(!contains(s, "加拿大"@));
        reveal_strlit("澳大利亚");
        assert(!contains(s, "澳大利亚"@));
        reveal_strlit("印度");
        assert(!contains(s, "印度"@));
        reveal_strlit("荷兰");
        assert(!contains(s, "荷兰"@));
        reveal_strlit("俄罗斯");
        assert(!contains(s, "俄罗斯"@));
        reveal_strlit("土耳其");
        assert(!contains(s, "土耳其"@));
        reveal_strlit("阿根廷");
        assert(!contains(s, "阿根廷"@));
        reveal_strlit("巴西");
        assert(!contains(s, "巴西"@));
        reveal_strlit("菲律宾");
        assert(!contains(s, "菲律宾"@));
    } else if c == "泰国"@ {
        reveal_strlit("泰国");
        reveal_strlit("香港");
        assert(!contains(s, "香港"@));
        reveal_strlit("台湾");
        assert(!contains(s, "台湾"@));
        reveal_strlit("澳门");
        assert(!contains(s, "澳门"@));
        reveal_strlit("美国");
        assert(!contains(s, "美国"@));
        reveal_strlit("日本");
        assert(!contains(s, "日本"@));
        reveal_strlit("韩国");
        assert(!contains(s, "韩国"@));
        reveal_strlit("新加坡");
        assert(!contains(s, "新加坡"@));
        reveal_strlit("英国");
        assert(!contains(s, "英国"@));
        reveal_strlit("德国");
        assert(!contains(s, "德国"@));
        reveal_strlit("法国");
        assert(!contains(s, "法国"@));
        reveal_strlit("加拿大");
        assert(!contains(s, "加拿大"@));
        reveal_strlit("澳大利亚");
        assert(!contains(s, "澳大利亚"@));
        reveal_strlit("印度");
        assert(!contains(s, "印度"@));
        reveal_strlit("荷兰");
        assert(!contains(s, "荷兰"@));
        reveal_strlit("俄罗斯");
        assert(!contains(s, "俄罗斯"@));
        reveal_strlit("土耳其");
        assert(!contains(s, "土耳其"@));
        reveal_strlit("阿根廷");
        assert(!contains(s, "阿根廷"@));
        reveal_strlit("巴西");
        assert(!contains(s, "巴西"@));
        reveal_strlit("菲律宾");
        assert(!contains(s, "菲律宾"@));
        reveal_strlit("马来西亚");
        assert(!contains(s, "马来西亚"@));
    } else if c == "越南"@ {
        reveal_strlit("越南");
        reveal_strlit("香港");
        assert(!contains(s, "香港"@));
        reveal_strlit("台湾");
        assert(!contains(s, "台湾"@));
        reveal_strlit("澳门");
        assert(!contains(s, "澳门"@));
        reveal_strlit("美国");
        assert(!contains(s, "美国"@));
        reveal_strlit("日本");
        assert(!contains(s, "日本"@));
        reveal_strlit("韩国");
        assert(!contains(s, "韩国"@));
        reveal_strlit("新加坡");
        assert(!contains(s, "新加坡"@));
        reveal_strlit("英国");
        assert(!contains(s, "英国"@));
        reveal_strlit("德国");
        assert(!contains(s, "德国"@));
        reveal_strlit("法国");
        assert(!contains(s, "法国"@));
        reveal_strlit("加拿大");
        assert(!contains(s, "加拿大"@));
        reveal_strlit("澳大利亚");
        assert(!contains(s, "澳大利亚"@));
        reveal_strlit("印度");
        assert(!contains(s, "印度"@));
        reveal_strlit("荷兰");
        assert(!contains(s, "荷兰"@));
        reveal_strlit("俄罗斯");
        assert(!contains(s, "俄罗斯"@));
        reveal_strlit("土耳其");
        assert(!contains(s, "土耳其"@));
        reveal_strlit("阿根廷");
        assert(!contains(s, "阿根廷"@));
        reveal_strlit("巴西");
        assert(!contains(s, "巴西"@));
        reveal_strlit("菲律宾");
        assert(!contains(s, "菲律宾"@));
        reveal_strlit("马来西亚");
        assert(!contains(s, "马来西亚"@));
        reveal_strlit("泰国");
        assert(!contains(s, "泰国"@));
    } else if c == "印尼"@ {
        reveal_strlit("印尼");
        reveal_strlit("香港");
        assert(!contains(s, "香港"@));
        reveal_strlit("台湾");
        assert(!contains(s, "台湾"@));
        reveal_strlit("澳门");
        assert(!contains(s, "澳门"@));
        reveal_strlit("美国");
        assert(!contains(s, "美国"@));
        reveal_strlit("日本");
        assert(!contains(s, "日本"@));
        reveal_strlit("韩国");
        assert(!contains(s, "韩国"@));
        reveal_strlit("新加坡");
        assert(!contains(s, "新加坡"@));
        reveal_strlit("英国");
        assert(!contains(s, "英国"@));
        reveal_strlit("德国");
        assert(!contains(s, "德国"@));
        reveal_strlit("法国");
        assert(!contains(s, "法国"@));
        reveal_strlit("加拿大");
        assert(!contains(s, "加拿大"@));
        reveal_strlit("澳大利亚");
        assert(!contains(s, "澳大利亚"@));
        reveal_strlit("印度");
        assert(!contains(s, "印度"@));
        reveal_strlit("荷兰");
        assert(!contains(s, "荷兰"@));
        reveal_strlit("俄罗斯");
        assert(!contains(s, "俄罗斯"@));
        reveal_strlit("土耳其");
        assert(!contains(s, "土耳其"@));
        reveal_strlit("阿根廷");
        assert(!contains(s, "阿根廷"@));
        reveal_strlit("巴西");
        assert(!contains(s, "巴西"@));
        reveal_strlit("菲律宾");
        assert(!contains(s, "菲律宾"@));
        reveal_strlit("马来西亚");
        assert(!contains(s, "马来西亚"@));
        reveal_strlit("泰国");
        assert(!contains(s, "泰国"@));
        reveal_strlit("越南");
        assert(!contains(s, "越南"@));
    }
}

} // verus!
