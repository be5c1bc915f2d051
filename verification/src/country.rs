//! Guessing a node's country or region from its name or host.
use vstd::prelude::*;
use crate::foreign::{ascii_lower, is_ascii_text, lower_text, to_lowercase};
use crate::text::{contains, contains_str, copy_range, equals_str, push_all, to_chars};

verus! {

/// The first rule, in order, of which some keyword occurs in `s`.
pub open spec fn keyword_country(s: Seq<char>) -> Option<Seq<char>> {
    if contains(s, "香港"@) || contains(s, "hong kong"@) || contains(s, "hongkong"@) || contains(s, "🇭🇰"@) || contains(s, "hkg"@) || contains(s, "hk节点"@) || contains(s, "hk-"@) {
        Some("香港"@)
    } else if contains(s, "台湾"@) || contains(s, "taiwan"@) || contains(s, "tw省"@) || contains(s, "🇹🇼"@) || contains(s, "twn"@) || contains(s, "tw-"@) {
        Some("台湾"@)
    } else if contains(s, "澳门"@) || contains(s, "macau"@) || contains(s, "macao"@) || contains(s, "🇲🇴"@) {
        Some("澳门"@)
    } else if contains(s, "美国"@) || contains(s, "united states"@) || contains(s, "usa"@) || contains(s, "🇺🇸"@) || contains(s, "us节点"@) || contains(s, "america"@) {
        Some("美国"@)
    } else if contains(s, "日本"@) || contains(s, "japan"@) || contains(s, "tokyo"@) || contains(s, "osaka"@) || contains(s, "🇯🇵"@) || contains(s, "jp节点"@) {
        Some("日本"@)
    } else if contains(s, "韩国"@) || contains(s, "korea"@) || contains(s, "seoul"@) || contains(s, "🇰🇷"@) || contains(s, "kr节点"@) {
        Some("韩国"@)
    } else if contains(s, "新加坡"@) || contains(s, "singapore"@) || contains(s, "🇸🇬"@) || contains(s, "sg节点"@) {
        Some("新加坡"@)
    } else if contains(s, "英国"@) || contains(s, "united kingdom"@) || contains(s, "london"@) || contains(s, "🇬🇧"@) || contains(s, "uk节点"@) {
        Some("英国"@)
    } else if contains(s, "德国"@) || contains(s, "germany"@) || contains(s, "frankfurt"@) || contains(s, "🇩🇪"@) || contains(s, "de节点"@) {
        Some("德国"@)
    } else if contains(s, "法国"@) || contains(s, "france"@) || contains(s, "paris"@) || contains(s, "🇫🇷"@) || contains(s, "fr节点"@) {
        Some("法国"@)
    } else if contains(s, "加拿大"@) || contains(s, "canada"@) || contains(s, "toronto"@) || contains(s, "🇨🇦"@) || contains(s, "ca节点"@) {
        Some("加拿大"@)
    } else if contains(s, "澳大利亚"@) || contains(s, "australia"@) || contains(s, "sydney"@) || contains(s, "🇦🇺"@) || contains(s, "au节点"@) {
        Some("澳大利亚"@)
    } else if contains(s, "印度"@) || contains(s, "india"@) || contains(s, "mumbai"@) || contains(s, "🇮🇳"@) || contains(s, "in节点"@) {
        Some("印度"@)
    } else if contains(s, "荷兰"@) || contains(s, "netherlands"@) || contains(s, "amsterdam"@) || contains(s, "🇳🇱"@) || contains(s, "nl节点"@) {
        Some("荷兰"@)
    } else if contains(s, "俄罗斯"@) || contains(s, "russia"@) || contains(s, "moscow"@) || contains(s, "🇷🇺"@) || contains(s, "ru节点"@) {
        Some("俄罗斯"@)
    } else if contains(s, "土耳其"@) || contains(s, "turkey"@) || contains(s, "istanbul"@) || contains(s, "🇹🇷"@) || contains(s, "tr节点"@) {
        Some("土耳其"@)
    } else if contains(s, "阿根廷"@) || contains(s, "argentina"@) || contains(s, "🇦🇷"@) {
        Some("阿根廷"@)
    } else if contains(s, "巴西"@) || contains(s, "brazil"@) || contains(s, "🇧🇷"@) {
        Some("巴西"@)
    } else if contains(s, "菲律宾"@) || contains(s, "philippines"@) || contains(s, "manila"@) || contains(s, "🇵🇭"@) {
        Some("菲律宾"@)
    } else if contains(s, "马来西亚"@) || contains(s, "malaysia"@) || contains(s, "kuala"@) || contains(s, "🇲🇾"@) {
        Some("马来西亚"@)
    } else if contains(s, "泰国"@) || contains(s, "thailand"@) || contains(s, "bangkok"@) || contains(s, "🇹🇭"@) {
        Some("泰国"@)
    } else if contains(s, "越南"@) || contains(s, "vietnam"@) || contains(s, "hanoi"@) || contains(s, "🇻🇳"@) {
        Some("越南"@)
    } else if contains(s, "印尼"@) || contains(s, "indonesia"@) || contains(s, "jakarta"@) || contains(s, "🇮🇩"@) {
        Some("印尼"@)
    } else {
        None
    }
}

/// The first host pattern, in order, that occurs in `s`.
pub open spec fn host_code_country(s: Seq<char>) -> Option<Seq<char>> {
    if contains(s, "-hk-"@) {
        Some("香港"@)
    } else if contains(s, ".hk."@) {
        Some("香港"@)
    } else if contains(s, "hk."@) {
        Some("香港"@)
    } else if contains(s, "-tw-"@) {
        Some("台湾"@)
    } else if contains(s, ".tw."@) {
        Some("台湾"@)
    } else if contains(s, "-us-"@) {
        Some("美国"@)
    } else if contains(s, ".us."@) {
        Some("美国"@)
    } else if contains(s, "us."@) {
        Some("美国"@)
    } else if contains(s, "-jp-"@) {
        Some("日本"@)
    } else if contains(s, ".jp."@) {
        Some("日本"@)
    } else if contains(s, "jp."@) {
        Some("日本"@)
    } else if contains(s, "-sg-"@) {
        Some("新加坡"@)
    } else if contains(s, ".sg."@) {
        Some("新加坡"@)
    } else if contains(s, "-kr-"@) {
        Some("韩国"@)
    } else if contains(s, ".kr."@) {
        Some("韩国"@)
    } else if contains(s, "-uk-"@) {
        Some("英国"@)
    } else if contains(s, ".uk."@) {
        Some("英国"@)
    } else if contains(s, "-de-"@) {
        Some("德国"@)
    } else if contains(s, ".de."@) {
        Some("德国"@)
    } else if contains(s, "-fr-"@) {
        Some("法国"@)
    } else if contains(s, ".fr."@) {
        Some("法国"@)
    } else if contains(s, "-ca-"@) {
        Some("加拿大"@)
    } else if contains(s, ".ca."@) {
        Some("加拿大"@)
    } else if contains(s, "-au-"@) {
        Some("澳大利亚"@)
    } else if contains(s, ".au."@) {
        Some("澳大利亚"@)
    } else if contains(s, "-nl-"@) {
        Some("荷兰"@)
    } else if contains(s, ".nl."@) {
        Some("荷兰"@)
    } else if contains(s, "-ru-"@) {
        Some("俄罗斯"@)
    } else if contains(s, ".ru."@) {
        Some("俄罗斯"@)
    } else {
        None
    }
}

/// The first space-delimited country code, in order, that occurs in `s`.
pub open spec fn iso_token_country(s: Seq<char>) -> Option<Seq<char>> {
    if contains(s, " hk "@) {
        Some("香港"@)
    } else if contains(s, " us "@) {
        Some("美国"@)
    } else if contains(s, " jp "@) {
        Some("日本"@)
    } else if contains(s, " sg "@) {
        Some("新加坡"@)
    } else if contains(s, " kr "@) {
        Some("韩国"@)
    } else if contains(s, " tw "@) {
        Some("台湾"@)
    } else if contains(s, " uk "@) {
        Some("英国"@)
    } else if contains(s, " de "@) {
        Some("德国"@)
    } else if contains(s, " fr "@) {
        Some("法国"@)
    } else {
        None
    }
}

/// The country that a whole token names, if any.
pub open spec fn token_country(s: Seq<char>) -> Option<Seq<char>> {
    if s == "hk"@ || s == "hkg"@ {
        Some("香港"@)
    } else if s == "tw"@ || s == "twn"@ {
        Some("台湾"@)
    } else if s == "us"@ || s == "usa"@ {
        Some("美国"@)
    } else if s == "jp"@ || s == "jpn"@ {
        Some("日本"@)
    } else if s == "sg"@ || s == "sgp"@ {
        Some("新加坡"@)
    } else if s == "kr"@ || s == "kor"@ {
        Some("韩国"@)
    } else if s == "uk"@ || s == "gb"@ {
        Some("英国"@)
    } else if s == "de"@ || s == "deu"@ {
        Some("德国"@)
    } else if s == "fr"@ || s == "fra"@ {
        Some("法国"@)
    } else if s == "ca"@ || s == "can"@ {
        Some("加拿大"@)
    } else if s == "au"@ || s == "aus"@ {
        Some("澳大利亚"@)
    } else if s == "nl"@ || s == "nld"@ {
        Some("荷兰"@)
    } else if s == "ru"@ || s == "rus"@ {
        Some("俄罗斯"@)
    } else {
        None
    }
}

fn keyword_country_of(s: &[char]) -> (r: Option<&'static str>)
    ensures
        match r {
            Some(l) => keyword_country(s@) == Some(l@),
            None => keyword_country(s@) is None,
        },
{
    if contains_str(s, "香港") || contains_str(s, "hong kong") || contains_str(s, "hongkong") || contains_str(s, "🇭🇰") || contains_str(s, "hkg") || contains_str(s, "hk节点") || contains_str(s, "hk-") {
        return Some("香港");
    }
    if contains_str(s, "台湾") || contains_str(s, "taiwan") || contains_str(s, "tw省") || contains_str(s, "🇹🇼") || contains_str(s, "twn") || contains_str(s, "tw-") {
        return Some("台湾");
    }
    if contains_str(s, "澳门") || contains_str(s, "macau") || contains_str(s, "macao") || contains_str(s, "🇲🇴") {
        return Some("澳门");
    }
    if contains_str(s, "美国") || contains_str(s, "united states") || contains_str(s, "usa") || contains_str(s, "🇺🇸") || contains_str(s, "us节点") || contains_str(s, "america") {
        return Some("美国");
    }
    if contains_str(s, "日本") || contains_str(s, "japan") || contains_str(s, "tokyo") || contains_str(s, "osaka") || contains_str(s, "🇯🇵") || contains_str(s, "jp节点") {
        return Some("日本");
    }
    if contains_str(s, "韩国") || contains_str(s, "korea") || contains_str(s, "seoul") || contains_str(s, "🇰🇷") || contains_str(s, "kr节点") {
        return Some("韩国");
    }
    if contains_str(s, "新加坡") || contains_str(s, "singapore") || contains_str(s, "🇸🇬") || contains_str(s, "sg节点") {
        return Some("新加坡");
    }
    if contains_str(s, "英国") || contains_str(s, "united kingdom") || contains_str(s, "london") || contains_str(s, "🇬🇧") || contains_str(s, "uk节点") {
        return Some("英国");
    }
    if contains_str(s, "德国") || contains_str(s, "germany") || contains_str(s, "frankfurt") || contains_str(s, "🇩🇪") || contains_str(s, "de节点") {
        return Some("德国");
    }
    if contains_str(s, "法国") || contains_str(s, "france") || contains_str(s, "paris") || contains_str(s, "🇫🇷") || contains_str(s, "fr节点") {
        return Some("法国");
    }
    if contains_str(s, "加拿大") || contains_str(s, "canada") || contains_str(s, "toronto") || contains_str(s, "🇨🇦") || contains_str(s, "ca节点") {
        return Some("加拿大");
    }
    if contains_str(s, "澳大利亚") || contains_str(s, "australia") || contains_str(s, "sydney") || contains_str(s, "🇦🇺") || contains_str(s, "au节点") {
        return Some("澳大利亚");
    }
    if contains_str(s, "印度") || contains_str(s, "india") || contains_str(s, "mumbai") || contains_str(s, "🇮🇳") || contains_str(s, "in节点") {
        return Some("印度");
    }
    if contains_str(s, "荷兰") || contains_str(s, "netherlands") || contains_str(s, "amsterdam") || contains_str(s, "🇳🇱") || contains_str(s, "nl节点") {
        return Some("荷兰");
    }
    if contains_str(s, "俄罗斯") || contains_str(s, "russia") || contains_str(s, "moscow") || contains_str(s, "🇷🇺") || contains_str(s, "ru节点") {
        return Some("俄罗斯");
    }
    if contains_str(s, "土耳其") || contains_str(s, "turkey") || contains_str(s, "istanbul") || contains_str(s, "🇹🇷") || contains_str(s, "tr节点") {
        return Some("土耳其");
    }
    if contains_str(s, "阿根廷") || contains_str(s, "argentina") || contains_str(s, "🇦🇷") {
        return Some("阿根廷");
    }
    if contains_str(s, "巴西") || contains_str(s, "brazil") || contains_str(s, "🇧🇷") {
        return Some("巴西");
    }
    if contains_str(s, "菲律宾") || contains_str(s, "philippines") || contains_str(s, "manila") || contains_str(s, "🇵🇭") {
        return Some("菲律宾");
    }
    if contains_str(s, "马来西亚") || contains_str(s, "malaysia") || contains_str(s, "kuala") || contains_str(s, "🇲🇾") {
        return Some("马来西亚");
    }
    if contains_str(s, "泰国") || contains_str(s, "thailand") || contains_str(s, "bangkok") || contains_str(s, "🇹🇭") {
        return Some("泰国");
    }
    if contains_str(s, "越南") || contains_str(s, "vietnam") || contains_str(s, "hanoi") || contains_str(s, "🇻🇳") {
        return Some("越南");
    }
    if contains_str(s, "印尼") || contains_str(s, "indonesia") || contains_str(s, "jakarta") || contains_str(s, "🇮🇩") {
        return Some("印尼");
    }
    None
}

fn host_code_country_of(s: &[char]) -> (r: Option<&'static str>)
    ensures
        match r {
            Some(l) => host_code_country(s@) == Some(l@),
            None => host_code_country(s@) is None,
        },
{
    if contains_str(s, "-hk-") {
        return Some("香港");
    }
    if contains_str(s, ".hk.") {
        return Some("香港");
    }
    if contains_str(s, "hk.") {
        return Some("香港");
    }
    if contains_str(s, "-tw-") {
        return Some("台湾");
    }
    if contains_str(s, ".tw.") {
        return Some("台湾");
    }
    if contains_str(s, "-us-") {
        return Some("美国");
    }
    if contains_str(s, ".us.") {
        return Some("美国");
    }
    if contains_str(s, "us.") {
        return Some("美国");
    }
    if contains_str(s, "-jp-") {
        return Some("日本");
    }
    if contains_str(s, ".jp.") {
        return Some("日本");
    }
    if contains_str(s, "jp.") {
        return Some("日本");
    }
    if contains_str(s, "-sg-") {
        return Some("新加坡");
    }
    if contains_str(s, ".sg.") {
        return Some("新加坡");
    }
    if contains_str(s, "-kr-") {
        return Some("韩国");
    }
    if contains_str(s, ".kr.") {
        return Some("韩国");
    }
    if contains_str(s, "-uk-") {
        return Some("英国");
    }
    if contains_str(s, ".uk.") {
        return Some("英国");
    }
    if contains_str(s, "-de-") {
        return Some("德国");
    }
    if contains_str(s, ".de.") {
        return Some("德国");
    }
    if contains_str(s, "-fr-") {
        return Some("法国");
    }
    if contains_str(s, ".fr.") {
        return Some("法国");
    }
    if contains_str(s, "-ca-") {
        return Some("加拿大");
    }
    if contains_str(s, ".ca.") {
        return Some("加拿大");
    }
    if contains_str(s, "-au-") {
        return Some("澳大利亚");
    }
    if contains_str(s, ".au.") {
        return Some("澳大利亚");
    }
    if contains_str(s, "-nl-") {
        return Some("荷兰");
    }
    if contains_str(s, ".nl.") {
        return Some("荷兰");
    }
    if contains_str(s, "-ru-") {
        return Some("俄罗斯");
    }
    if contains_str(s, ".ru.") {
        return Some("俄罗斯");
    }
    None
}

fn iso_token_country_of(s: &[char]) -> (r: Option<&'static str>)
    ensures
        match r {
            Some(l) => iso_token_country(s@) == Some(l@),
            None => iso_token_country(s@) is None,
        },
{
    if contains_str(s, " hk ") {
        return Some("香港");
    }
    if contains_str(s, " us ") {
        return Some("美国");
    }
    if contains_str(s, " jp ") {
        return Some("日本");
    }
    if contains_str(s, " sg ") {
        return Some("新加坡");
    }
    if contains_str(s, " kr ") {
        return Some("韩国");
    }
    if contains_str(s, " tw ") {
        return Some("台湾");
    }
    if contains_str(s, " uk ") {
        return Some("英国");
    }
    if contains_str(s, " de ") {
        return Some("德国");
    }
    if contains_str(s, " fr ") {
        return Some("法国");
    }
    None
}

fn token_country_of(s: &[char]) -> (r: Option<&'static str>)
    ensures
        match r {
            Some(l) => token_country(s@) == Some(l@),
            None => token_country(s@) is None,
        },
{
    if equals_str(s, "hk") || equals_str(s, "hkg") {
        return Some("香港");
    }
    if equals_str(s, "tw") || equals_str(s, "twn") {
        return Some("台湾");
    }
    if equals_str(s, "us") || equals_str(s, "usa") {
        return Some("美国");
    }
    if equals_str(s, "jp") || equals_str(s, "jpn") {
        return Some("日本");
    }
    if equals_str(s, "sg") || equals_str(s, "sgp") {
        return Some("新加坡");
    }
    if equals_str(s, "kr") || equals_str(s, "kor") {
        return Some("韩国");
    }
    if equals_str(s, "uk") || equals_str(s, "gb") {
        return Some("英国");
    }
    if equals_str(s, "de") || equals_str(s, "deu") {
        return Some("德国");
    }
    if equals_str(s, "fr") || equals_str(s, "fra") {
        return Some("法国");
    }
    if equals_str(s, "ca") || equals_str(s, "can") {
        return Some("加拿大");
    }
    if equals_str(s, "au") || equals_str(s, "aus") {
        return Some("澳大利亚");
    }
    if equals_str(s, "nl") || equals_str(s, "nld") {
        return Some("荷兰");
    }
    if equals_str(s, "ru") || equals_str(s, "rus") {
        return Some("俄罗斯");
    }
    None
}


/// An ASCII letter or digit.
pub open spec fn is_ascii_alnum(c: char) -> bool {
    let u = c as u32;
    (48 <= u <= 57) || (65 <= u <= 90) || (97 <= u <= 122)
}

fn is_ascii_alnum_char(c: char) -> (b: bool)
    ensures
        b == is_ascii_alnum(c),
{
    let u = c as u32;
    (48 <= u && u <= 57) || (65 <= u && u <= 90) || (97 <= u && u <= 122)
}

/// The position of the first character at or after `i` that is no ASCII
/// letter or digit, or `s.len()`.
pub open spec fn first_sep_from(s: Seq<char>, i: int) -> int
    decreases s.len() - i,
{
    if i >= s.len() {
        s.len() as int
    } else if i >= 0 && !is_ascii_alnum(s[i]) {
        i
    } else {
        first_sep_from(s, i + 1)
    }
}

pub proof fn lemma_first_sep_from(s: Seq<char>, i: int)
    requires
        0 <= i <= s.len(),
    ensures
        i <= first_sep_from(s, i) <= s.len(),
    decreases s.len() - i,
{
    if i < s.len() && is_ascii_alnum(s[i]) {
        lemma_first_sep_from(s, i + 1);
    }
}

/// The pieces of `s` between characters that are no ASCII letter or digit,
/// empty pieces included (`s.split(|c: char| !c.is_ascii_alphanumeric())`).
pub open spec fn alnum_pieces(s: Seq<char>) -> Seq<Seq<char>>
    decreases s.len(),
{
    let k = first_sep_from(s, 0);
    if k >= s.len() {
        seq![s]
    } else {
        proof {
            lemma_first_sep_from(s, 0);
        }
        seq![s.take(k)] + alnum_pieces(s.skip(k + 1))
    }
}

/// The country named by the first piece, in order, that names one.
pub open spec fn first_piece_country(pieces: Seq<Seq<char>>) -> Option<Seq<char>>
    decreases pieces.len(),
{
    if pieces.len() == 0 {
        None
    } else {
        match token_country(pieces[0]) {
            Some(c) => Some(c),
            None => first_piece_country(pieces.drop_first()),
        }
    }
}

/// The country that a text names, tried in this order on its lower case:
/// keywords, host patterns, space-delimited codes, then whole tokens.
pub open spec fn country_of_text(text: Seq<char>) -> Option<Seq<char>> {
    country_of_lower(lower_text(text))
}

/// The country that a lower-case text names (see [`country_of_text`]).
pub open spec fn country_of_lower(lower: Seq<char>) -> Option<Seq<char>> {
    if keyword_country(lower) is Some {
        keyword_country(lower)
    } else if host_code_country(lower) is Some {
        host_code_country(lower)
    } else if iso_token_country(seq![' '] + lower + seq![' ']) is Some {
        iso_token_country(seq![' '] + lower + seq![' '])
    } else {
        first_piece_country(alnum_pieces(lower))
    }
}

/// A label of the country rules.
pub open spec fn is_country_label(c: Seq<char>) -> bool {
    ||| c == "香港"@
    ||| c == "台湾"@
    ||| c == "澳门"@
    ||| c == "美国"@
    ||| c == "日本"@
    ||| c == "韩国"@
    ||| c == "新加坡"@
    ||| c == "英国"@
    ||| c == "德国"@
    ||| c == "法国"@
    ||| c == "加拿大"@
    ||| c == "澳大利亚"@
    ||| c == "印度"@
    ||| c == "荷兰"@
    ||| c == "俄罗斯"@
    ||| c == "土耳其"@
    ||| c == "阿根廷"@
    ||| c == "巴西"@
    ||| c == "菲律宾"@
    ||| c == "马来西亚"@
    ||| c == "泰国"@
    ||| c == "越南"@
    ||| c == "印尼"@
}

proof fn lemma_first_piece_label(pieces: Seq<Seq<char>>)
    ensures
        first_piece_country(pieces) matches Some(c) ==> is_country_label(c),
    decreases pieces.len(),
{
    if pieces.len() > 0 {
        lemma_first_piece_label(pieces.drop_first());
    }
}

proof fn lemma_label_not_unknown(c: Seq<char>)
    requires
        is_country_label(c),
    ensures
        c != "未知"@,
{
    reveal_strlit("香港");
    reveal_strlit("台湾");
    reveal_strlit("澳门");
    reveal_strlit("美国");
    reveal_strlit("日本");
    reveal_strlit("韩国");
    reveal_strlit("新加坡");
    reveal_strlit("英国");
    reveal_strlit("德国");
    reveal_strlit("法国");
    reveal_strlit("加拿大");
    reveal_strlit("澳大利亚");
    reveal_strlit("印度");
    reveal_strlit("荷兰");
    reveal_strlit("俄罗斯");
    reveal_strlit("土耳其");
    reveal_strlit("阿根廷");
    reveal_strlit("巴西");
    reveal_strlit("菲律宾");
    reveal_strlit("马来西亚");
    reveal_strlit("泰国");
    reveal_strlit("越南");
    reveal_strlit("印尼");
    reveal_strlit("未知");
    if c == "未知"@ {
        assert(c[0] == '未');
    }
}

proof fn lemma_ascii_lower(t: Seq<char>)
    requires
        is_ascii_text(t),
    ensures
        is_ascii_text(ascii_lower(t)),
        ascii_lower(ascii_lower(t)) == ascii_lower(t),
{
    assert forall|i: int| 0 <= i < ascii_lower(t).len() implies (#[trigger] ascii_lower(t)[i] as u32) < 128 by {
        assert((t[i] as u32) < 128);
    }
    assert(ascii_lower(ascii_lower(t)) =~= ascii_lower(t));
}

/// A text names a country only by one of the rules' labels, never `未知`;
/// and on ASCII text, lower-casing it first changes nothing.
pub proof fn law_country_of_text(text: Seq<char>)
    ensures
        country_of_text(text) matches Some(c) ==> is_country_label(c) && c != "未知"@,
        is_ascii_text(text) ==> country_of_text(lower_text(text)) == country_of_text(text),
{
    let lower = lower_text(text);
    lemma_first_piece_label(alnum_pieces(lower));
    if let Some(c) = country_of_text(text) {
        assert(is_country_label(c));
        lemma_label_not_unknown(c);
    }
    if is_ascii_text(text) {
        lemma_ascii_lower(text);
    }
}

fn first_sep_index(s: &[char]) -> (k: usize)
    ensures
        k == first_sep_from(s@, 0),
        k <= s.len(),
{
    let mut i: usize = 0;
    while i < s.len() && is_ascii_alnum_char(s[i])
        invariant
            i <= s.len(),
            first_sep_from(s@, i as int) == first_sep_from(s@, 0),
        decreases s.len() - i,
    {
        i = i + 1;
    }
    i
}

fn piece_country_of(s: &[char]) -> (r: Option<&'static str>)
    ensures
        match r {
            Some(l) => first_piece_country(alnum_pieces(s@)) == Some(l@),
            None => first_piece_country(alnum_pieces(s@)) is None,
        },
{
    let mut t = copy_range(s, 0, s.len());
    assert(t@ == s@);
    loop
        invariant
            first_piece_country(alnum_pieces(t@)) == first_piece_country(alnum_pieces(s@)),
        decreases t@.len(),
    {
        let k = first_sep_index(t.as_slice());
        let piece = copy_range(t.as_slice(), 0, k);
        let found = token_country_of(piece.as_slice());
        if k >= t.len() {
            assert(piece@ == t@);
            assert(alnum_pieces(t@) == seq![t@]);
            assert(alnum_pieces(t@).drop_first() == Seq::<Seq<char>>::empty());
            assert(first_piece_country(Seq::<Seq<char>>::empty()) is None);
            return found;
        }
        proof {
            lemma_first_sep_from(t@, 0);
        }
        assert(alnum_pieces(t@)[0] == piece@);
        assert(alnum_pieces(t@).drop_first() == alnum_pieces(t@.skip(k + 1)));
        if found.is_some() {
            return found;
        }
        t = copy_range(t.as_slice(), k + 1, t.len());
    }
}

/// Whether the characters equal `" " + s + " "`.
fn padded(s: &[char]) -> (r: Vec<char>)
    ensures
        r@ == seq![' '] + s@ + seq![' '],
{
    let mut r: Vec<char> = Vec::new();
    r.push(' ');
    push_all(&mut r, s);
    r.push(' ');
    r
}

/// The country that a text names (see [`country_of_text`]).
fn match_country_text(text: &str) -> (r: Option<&'static str>)
    ensures
        match r {
            Some(l) => country_of_text(text@) == Some(l@),
            None => country_of_text(text@) is None,
        },
{
    let lower_s = to_lowercase(text);
    let lower = to_chars(lower_s.as_str());
    country_of_lower_chars(lower.as_slice())
}

fn country_of_lower_chars(lower: &[char]) -> (r: Option<&'static str>)
    ensures
        match r {
            Some(l) => country_of_lower(lower@) == Some(l@),
            None => country_of_lower(lower@) is None,
        },
{
    if let Some(c) = keyword_country_of(lower) {
        return Some(c);
    }
    if let Some(c) = host_code_country_of(lower) {
        return Some(c);
    }
    let p = padded(lower);
    if let Some(c) = iso_token_country_of(p.as_slice()) {
        return Some(c);
    }
    piece_country_of(lower)
}

/// The country or region that an already lower-cased text names (see
/// [`country_of_lower`]).
pub fn country_in_lowercase(lower: &str) -> (r: Option<String>)
    ensures
        match r {
            Some(l) => country_of_lower(lower@) == Some(l@),
            None => country_of_lower(lower@) is None,
        },
{
    let c = to_chars(lower);
    match country_of_lower_chars(c.as_slice()) {
        Some(l) => Some(l.to_owned()),
        None => None,
    }
}

/// The country label chosen for a host and an optional name hint: the
/// hint's country when it names one, else the host's, else `未知`.
pub open spec fn country_label(host: Seq<char>, hint: Option<Seq<char>>) -> Seq<char> {
    if hint is Some && country_of_text(hint->0) is Some {
        country_of_text(hint->0)->0
    } else if country_of_text(host) is Some {
        country_of_text(host)->0
    } else {
        "未知"@
    }
}

/// Guesses the country or region (a short Chinese name) of a node from the
/// hint (the name it came with) and then its host.
pub fn detect_country(host: &str, hint: Option<&str>) -> (r: String)
    ensures
        r@ == country_label(host@, match hint {
            Some(h) => Some(h@),
            None => None,
        }),
{
    if let Some(h) = hint {
        if let Some(c) = match_country_text(h) {
            return c.to_owned();
        }
    }
    if let Some(c) = match_country_text(host) {
        return c.to_owned();
    }
    "未知".to_owned()
}

} // verus!
