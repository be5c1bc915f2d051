//! Display names of nodes: reading the name a node came with, building a new one
//! from a template, keeping names unique, and writing them back.
use vstd::prelude::*;
use crate::country::{country_label, detect_country};
use crate::tag::{
    chunk_views, lemma_chunk_views_push, lemma_tag_views_push, tag_views, TagView, TaggedChunk,
    TaggedNode,
};
use crate::foreign::{
    base64_encode, base64_encoded, json_member, json_member_of, json_with_member,
    json_with_member_of, utf8_lossy, lossy_text, is_base64_char, is_utf8, JsonField, JsonScalar,
};
use crate::probe::{
    clash_endpoint, clash_endpoint_of, decoded_text, decoded_text_of, unquote, v2ray_endpoint,
    v2ray_endpoint_of, vmess_endpoint, ProbeCache, ProbeResult,
};
use crate::text::{
    before_first, contains, copy_range, dec, dec_chars, dec_padded, dec_padded_chars, digit_char,
    digits_value, from_chars, has_char, has_prefix_str, hex_pair,
    hex_pair_value, hex_upper, hex_upper_char, hex_val, join, join_chars, lines, lines_of, push_all, push_str, replace_all, replace_chars, second_piece,
    second_piece_chars, starts_with, to_chars, trim, trim_chars, trim_char_chars, trim_start,
    trim_start_index, utf8_bytes, utf8_of, utf8_of_char, views, contains_char, drop_ws, first_of,
    is_ws,
};

verus! {

// ---------------------------------------------------------------------
// Percent-encoding of URI fragments
// ---------------------------------------------------------------------

/// Characters that stand for themselves in a fragment: ASCII letters,
/// digits, `-`, `_`, `.`, `~`.
pub open spec fn is_unreserved(c: char) -> bool {
    let u = c as u32;
    (48 <= u <= 57) || (65 <= u <= 90) || (97 <= u <= 122) || c == '-' || c == '_' || c == '.'
        || c == '~'
}

/// `%XY` for each byte, upper-case hexadecimal.
pub open spec fn pct_bytes(bs: Seq<u8>) -> Seq<char>
    decreases bs.len(),
{
    if bs.len() == 0 {
        seq![]
    } else {
        seq!['%', hex_upper((bs[0] / 16) as int), hex_upper((bs[0] % 16) as int)] + pct_bytes(
            bs.drop_first(),
        )
    }
}

/// How one character appears in a fragment.
pub open spec fn pct_char(c: char) -> Seq<char> {
    if is_unreserved(c) {
        seq![c]
    } else {
        pct_bytes(utf8_of(c))
    }
}

/// A name percent-encoded for a URI fragment: unreserved characters as
/// they are, every other character as `%XY` for each byte of its UTF-8 form.
pub open spec fn fragment_of(s: Seq<char>) -> Seq<char>
    decreases s.len(),
{
    if s.len() == 0 {
        seq![]
    } else {
        pct_char(s[0]) + fragment_of(s.drop_first())
    }
}

/// The bytes that a fragment stands for: `%XY` (two hexadecimal digits, or
/// `+` and one) for that byte, any other character for its UTF-8 bytes; a
/// `%` without a valid pair stands for itself, and the (at most two)
/// characters after it for themselves.
pub open spec fn fragment_bytes(s: Seq<char>) -> Seq<u8>
    decreases s.len(),
{
    if s.len() == 0 {
        seq![]
    } else if s[0] == '%' {
        if s.len() >= 3 && hex_pair(s[1], s[2]) is Some {
            seq![hex_pair(s[1], s[2])->0] + fragment_bytes(s.skip(3))
        } else if s.len() >= 3 {
            utf8_of('%') + utf8_of(s[1]) + utf8_of(s[2]) + fragment_bytes(s.skip(3))
        } else if s.len() == 2 {
            utf8_of('%') + utf8_of(s[1])
        } else {
            utf8_of('%')
        }
    } else {
        utf8_of(s[0]) + fragment_bytes(s.drop_first())
    }
}

/// A fragment decoded: its bytes read as UTF-8, invalid sequences replaced.
pub open spec fn fragment_text(s: Seq<char>) -> Seq<char> {
    lossy_text(fragment_bytes(s))
}

proof fn lemma_encode_push(s: Seq<char>, c: char)
    ensures
        fragment_of(s.push(c)) == fragment_of(s) + pct_char(c),
    decreases s.len(),
{
    if s.len() == 0 {
        assert(s.push(c).drop_first() =~= Seq::<char>::empty());
        assert(fragment_of(Seq::<char>::empty()) == Seq::<char>::empty());
        assert(s.push(c)[0] == c);
        assert(fragment_of(s.push(c)) =~= pct_char(c));
    } else {
        assert(s.push(c).drop_first() =~= s.drop_first().push(c));
        lemma_encode_push(s.drop_first(), c);
        assert(fragment_of(s.push(c)) =~= fragment_of(s) + pct_char(c));
    }
}

proof fn lemma_pct_bytes_push(bs: Seq<u8>, b: u8)
    ensures
        pct_bytes(bs.push(b)) == pct_bytes(bs) + seq!['%', hex_upper((b / 16) as int), hex_upper((b % 16) as int)],
    decreases bs.len(),
{
    if bs.len() == 0 {
        assert(bs.push(b).drop_first() =~= Seq::<u8>::empty());
        assert(pct_bytes(Seq::<u8>::empty()) == Seq::<char>::empty());
        assert(bs.push(b)[0] == b);
        assert(pct_bytes(bs.push(b)) =~= seq!['%', hex_upper((b / 16) as int), hex_upper((b % 16) as int)]);
    } else {
        assert(bs.push(b).drop_first() =~= bs.drop_first().push(b));
        lemma_pct_bytes_push(bs.drop_first(), b);
        assert(pct_bytes(bs.push(b)) =~= pct_bytes(bs) + seq!['%', hex_upper((b / 16) as int), hex_upper((b % 16) as int)]);
    }
}

fn is_unreserved_char(c: char) -> (r: bool)
    ensures
        r == is_unreserved(c),
{
    let u = c as u32;
    (48 <= u && u <= 57) || (65 <= u && u <= 90) || (97 <= u && u <= 122) || c == '-' || c == '_'
        || c == '.' || c == '~'
}

/// Appends how `c` appears in a fragment.
fn push_pct_char(out: &mut Vec<char>, c: char)
    ensures
        final(out)@ == old(out)@ + pct_char(c),
{
    if is_unreserved_char(c) {
        out.push(c);
    } else {
        let bytes = utf8_of_char(c);
        let ghost start = out@;
        let mut k: usize = 0;
        while k < bytes.len()
            invariant
                k <= bytes.len(),
                out@ == start + pct_bytes(bytes@.take(k as int)),
            decreases bytes.len() - k,
        {
            let b = bytes[k];
            proof {
                assert(bytes@.take(k + 1) == bytes@.take(k as int).push(b));
                lemma_pct_bytes_push(bytes@.take(k as int), b);
            }
            out.push('%');
            out.push(hex_upper_char(b / 16));
            out.push(hex_upper_char(b % 16));
            k = k + 1;
        }
        assert(bytes@.take(bytes.len() as int) == bytes@);
    }
}

/// Percent-encodes a name for a URI fragment (see [`fragment_of`]).
fn encode_fragment_chars(name: &[char]) -> (r: Vec<char>)
    ensures
        r@ == fragment_of(name@),
{
    let mut out: Vec<char> = Vec::new();
    let mut i: usize = 0;
    while i < name.len()
        invariant
            i <= name.len(),
            out@ == fragment_of(name@.take(i as int)),
        decreases name.len() - i,
    {
        proof {
            assert(name@.take(i + 1) == name@.take(i as int).push(name@[i as int]));
            lemma_encode_push(name@.take(i as int), name@[i as int]);
        }
        push_pct_char(&mut out, name[i]);
        i = i + 1;
    }
    assert(name@.take(name.len() as int) == name@);
    out
}

/// Appends the UTF-8 bytes of `c`.
fn push_utf8(out: &mut Vec<u8>, c: char)
    ensures
        final(out)@ == old(out)@ + utf8_of(c),
{
    let b = utf8_of_char(c);
    let ghost start = out@;
    let mut k: usize = 0;
    while k < b.len()
        invariant
            k <= b.len(),
            out@ == start + b@.take(k as int),
        decreases b.len() - k,
    {
        out.push(b[k]);
        assert(b@.take(k + 1) == b@.take(k as int).push(b@[k as int]));
        k = k + 1;
    }
    assert(b@.take(b.len() as int) == b@);
}

/// The bytes a fragment stands for (see [`fragment_bytes`]).
fn fragment_bytes_of(s: &[char]) -> (r: Vec<u8>)
    ensures
        r@ == fragment_bytes(s@),
{
    let mut out: Vec<u8> = Vec::new();
    let mut i: usize = 0;
    assert(s@.skip(0) == s@);
    while i < s.len()
        invariant
            i <= s.len(),
            out@ + fragment_bytes(s@.skip(i as int)) == fragment_bytes(s@),
        decreases s.len() - i,
    {
        let ghost t = s@.skip(i as int);
        let ghost before = out@;
        if s[i] == '%' {
            if s.len() - i > 2 {
                assert(t[1] == s@[i + 1] && t[2] == s@[i + 2]);
                assert(t.skip(3) == s@.skip(i + 3));
                match hex_pair_value(s[i + 1], s[i + 2]) {
                    Some(b) => {
                        out.push(b);
                        assert(out@ == before + seq![b]);
                    },
                    None => {
                        push_utf8(&mut out, '%');
                        push_utf8(&mut out, s[i + 1]);
                        push_utf8(&mut out, s[i + 2]);
                    },
                }
                assert(out@ + fragment_bytes(s@.skip(i + 3)) == before + fragment_bytes(t));
                i = i + 3;
            } else {
                push_utf8(&mut out, '%');
                if s.len() - i > 1 {
                    assert(t[1] == s@[i + 1]);
                    push_utf8(&mut out, s[i + 1]);
                }
                assert(out@ == before + fragment_bytes(t));
                assert(s@.skip(s.len() as int) == Seq::<char>::empty());
                i = s.len();
            }
        } else {
            push_utf8(&mut out, s[i]);
            assert(t.drop_first() == s@.skip(i + 1));
            i = i + 1;
        }
    }
    assert(s@.skip(s.len() as int) == Seq::<char>::empty());
    out
}

/// Decodes a percent-encoded fragment (see [`fragment_text`]).
pub fn decode_fragment(input: &str) -> (r: String)
    ensures
        r@ == fragment_text(input@),
        forall|cs: Seq<char>| #[trigger] utf8_bytes(cs) == fragment_bytes(input@) ==> r@ == cs,
{
    let c = to_chars(input);
    let d = decode_fragment_chars(c.as_slice());
    from_chars(d.as_slice())
}

/// Percent-encodes a name for a URI fragment (see [`fragment_of`]).
pub fn encode_fragment(name: &str) -> (r: String)
    ensures
        r@ == fragment_of(name@),
{
    let c = to_chars(name);
    let e = encode_fragment_chars(c.as_slice());
    from_chars(e.as_slice())
}

/// Decodes a percent-encoded fragment (see [`fragment_text`]); a
/// fragment that stands for the UTF-8 bytes of some characters decodes to
/// exactly those characters.
pub fn decode_fragment_chars(s: &[char]) -> (r: Vec<char>)
    ensures
        r@ == fragment_text(s@),
        forall|cs: Seq<char>| #[trigger] utf8_bytes(cs) == fragment_bytes(s@) ==> r@ == cs,
{
    let bytes = fragment_bytes_of(s);
    let text = utf8_lossy(bytes.as_slice());
    to_chars(text.as_str())
}


proof fn lemma_hex_digit(d: int)
    requires
        0 <= d < 16,
    ensures
        hex_val(hex_upper(d)) == Some(d as nat),
        hex_upper(d) != '+',
{
}

proof fn lemma_hex_roundtrip(b: u8)
    ensures
        hex_pair(hex_upper((b / 16) as int), hex_upper((b % 16) as int)) == Some(b),
{
    lemma_hex_digit((b / 16) as int);
    lemma_hex_digit((b % 16) as int);
}

proof fn lemma_fragment_pct(bs: Seq<u8>, rest: Seq<char>)
    ensures
        fragment_bytes(pct_bytes(bs) + rest) == bs + fragment_bytes(rest),
    decreases bs.len(),
{
    if bs.len() == 0 {
        assert(pct_bytes(bs) + rest =~= rest);
        assert(bs + fragment_bytes(rest) =~= fragment_bytes(rest));
    } else {
        let b = bs[0];
        let s = pct_bytes(bs) + rest;
        lemma_hex_roundtrip(b);
        lemma_fragment_pct(bs.drop_first(), rest);
        assert(s[0] == '%');
        assert(s[1] == hex_upper((b / 16) as int));
        assert(s[2] == hex_upper((b % 16) as int));
        assert(s.skip(3) =~= pct_bytes(bs.drop_first()) + rest);
        assert(bs =~= seq![b] + bs.drop_first());
        assert(fragment_bytes(s) == seq![b] + fragment_bytes(s.skip(3)));
        assert(fragment_bytes(s) =~= bs + fragment_bytes(rest));
    }
}

proof fn lemma_fragment_char(c: char, rest: Seq<char>)
    ensures
        fragment_bytes(pct_char(c) + rest) == utf8_of(c) + fragment_bytes(rest),
{
    if is_unreserved(c) {
        let s = pct_char(c) + rest;
        assert(s[0] == c);
        assert(s.drop_first() =~= rest);
    } else {
        lemma_fragment_pct(utf8_of(c), rest);
    }
}

proof fn lemma_utf8_bytes_front(s: Seq<char>)
    requires
        s.len() > 0,
    ensures
        utf8_bytes(s) == utf8_of(s[0]) + utf8_bytes(s.drop_first()),
    decreases s.len(),
{
    if s.len() == 1 {
        assert(s.drop_last() =~= Seq::<char>::empty());
        assert(s.drop_first() =~= Seq::<char>::empty());
        assert(utf8_bytes(Seq::<char>::empty()) == Seq::<u8>::empty());
        assert(utf8_bytes(s) =~= utf8_of(s[0]) + utf8_bytes(s.drop_first()));
    } else {
        lemma_utf8_bytes_front(s.drop_last());
        assert(s.drop_last().drop_first() =~= s.drop_first().drop_last());
        assert(s.drop_first().last() == s.last());
        assert(utf8_bytes(s) =~= utf8_of(s[0]) + utf8_bytes(s.drop_first()));
    }
}

/// Encoding a name for a fragment keeps its bytes: the encoded fragment
/// stands for exactly the UTF-8 bytes of the name, so decoding it gives the
/// name back.
pub proof fn law_fragment_roundtrip(s: Seq<char>)
    ensures
        fragment_bytes(fragment_of(s)) == utf8_bytes(s),
    decreases s.len(),
{
    if s.len() == 0 {
        assert(fragment_bytes(Seq::<char>::empty()) == Seq::<u8>::empty());
    } else {
        law_fragment_roundtrip(s.drop_first());
        lemma_fragment_char(s[0], fragment_of(s.drop_first()));
        lemma_utf8_bytes_front(s);
    }
}


// ---------------------------------------------------------------------
// Reading a node's name and protocol
// ---------------------------------------------------------------------

/// The value of the first line that, trimmed, starts with `- name:` or
/// `name:`, unquoted.
pub open spec fn name_line_value(ls: Seq<Seq<char>>) -> Option<Seq<char>>
    decreases ls.len(),
{
    if ls.len() == 0 {
        None
    } else {
        let l = trim(ls[0]);
        if starts_with(l, "- name:"@) {
            Some(unquote(l.skip(7)))
        } else if starts_with(l, "name:"@) {
            Some(unquote(l.skip(5)))
        } else {
            name_line_value(ls.drop_first())
        }
    }
}

/// The name a node came with: the `ps` member of a vmess document; else a
/// non-empty decoded URI fragment; else the first `name:` line of a block.
pub open spec fn given_name(node: Seq<char>) -> Option<Seq<char>> {
    let t = trim(node);
    if starts_with(t, "vmess://"@) {
        match decoded_text(before_first(t.skip(8), '#')) {
            Some(json) => match json_member_of(json, "ps"@) {
                JsonScalar::Text(s) => Some(s),
                _ => None,
            },
            None => None,
        }
    } else if second_piece(t, '#') is Some && fragment_text(second_piece(t, '#')->0).len() > 0 {
        Some(fragment_text(second_piece(t, '#')->0))
    } else {
        name_line_value(lines(t))
    }
}

/// The value of the first line that, trimmed, starts with `type:`, unquoted.
pub open spec fn type_line_value(ls: Seq<Seq<char>>) -> Option<Seq<char>>
    decreases ls.len(),
{
    if ls.len() == 0 {
        None
    } else if starts_with(trim(ls[0]), "type:"@) {
        Some(unquote(trim(ls[0]).skip(5)))
    } else {
        type_line_value(ls.drop_first())
    }
}

/// The protocol shown in a node's name: from its scheme, else from a
/// `type:` line, else `unknown`.
pub open spec fn naming_protocol(node: Seq<char>) -> Seq<char> {
    let t = trim(node);
    if starts_with(t, "ss://"@) {
        "ss"@
    } else if starts_with(t, "ssr://"@) {
        "ssr"@
    } else if starts_with(t, "vmess://"@) {
        "vmess"@
    } else if starts_with(t, "vless://"@) {
        "vless"@
    } else if starts_with(t, "trojan://"@) {
        "trojan"@
    } else if starts_with(t, "hysteria2://"@) {
        "hysteria2"@
    } else if starts_with(t, "hy2://"@) {
        "hy2"@
    } else if starts_with(t, "hysteria://"@) {
        "hysteria"@
    } else if starts_with(t, "tuic://"@) {
        "tuic"@
    } else {
        match type_line_value(lines(node)) {
            Some(v) => v,
            None => "unknown"@,
        }
    }
}

fn unquote_chars(v: &[char]) -> (r: Vec<char>)
    ensures
        r@ == unquote(v@),
{
    let t = trim_chars(v);
    let a = trim_char_chars(t.as_slice(), '"');
    trim_char_chars(a.as_slice(), '\'')
}

fn name_line_value_of(ls: &Vec<Vec<char>>) -> (r: Option<Vec<char>>)
    ensures
        match r {
            Some(v) => name_line_value(views(ls@)) == Some(v@),
            None => name_line_value(views(ls@)) is None,
        },
{
    let ghost lv = views(ls@);
    let mut i: usize = 0;
    assert(lv.skip(0) == lv);
    while i < ls.len()
        invariant
            i <= ls.len(),
            lv == views(ls@),
            name_line_value(lv.skip(i as int)) == name_line_value(lv),
        decreases ls.len() - i,
    {
        assert(lv.skip(i as int)[0] == ls[i as int]@);
        assert(lv.skip(i as int).drop_first() == lv.skip(i + 1));
        let l = trim_chars(ls[i].as_slice());
        if has_prefix_str(l.as_slice(), "- name:") {
            proof {
                reveal_strlit("- name:");
            }
            let v = copy_range(l.as_slice(), 7, l.len());
            return Some(unquote_chars(v.as_slice()));
        }
        if has_prefix_str(l.as_slice(), "name:") {
            proof {
                reveal_strlit("name:");
            }
            let v = copy_range(l.as_slice(), 5, l.len());
            return Some(unquote_chars(v.as_slice()));
        }
        i = i + 1;
    }
    assert(lv.skip(ls.len() as int) == Seq::<Seq<char>>::empty());
    None
}

/// The name a node came with (see [`given_name`]).
fn given_name_of(node: &[char]) -> (r: Option<Vec<char>>)
    ensures
        match r {
            Some(v) => given_name(node@) == Some(v@),
            None => given_name(node@) is None,
        },
{
    let t = trim_chars(node);
    if has_prefix_str(t.as_slice(), "vmess://") {
        proof {
            reveal_strlit("vmess://");
        }
        let rest = copy_range(t.as_slice(), 8, t.len());
        let body = crate::text::before_first_chars(rest.as_slice(), '#');
        return match decoded_text_of(body.as_slice()) {
            Some(json) => {
                let js = from_chars(json.as_slice());
                match json_member(js.as_str(), "ps") {
                    JsonField::Text(s) => Some(to_chars(s.as_str())),
                    _ => None,
                }
            },
            None => None,
        };
    }
    if let Some(fragment) = second_piece_chars(t.as_slice(), '#') {
        let name = decode_fragment_chars(fragment.as_slice());
        if name.len() > 0 {
            return Some(name);
        }
    }
    let ls = lines_of(t.as_slice());
    name_line_value_of(&ls)
}

fn type_line_value_of(ls: &Vec<Vec<char>>) -> (r: Option<Vec<char>>)
    ensures
        match r {
            Some(v) => type_line_value(views(ls@)) == Some(v@),
            None => type_line_value(views(ls@)) is None,
        },
{
    let ghost lv = views(ls@);
    let mut i: usize = 0;
    assert(lv.skip(0) == lv);
    while i < ls.len()
        invariant
            i <= ls.len(),
            lv == views(ls@),
            type_line_value(lv.skip(i as int)) == type_line_value(lv),
        decreases ls.len() - i,
    {
        assert(lv.skip(i as int)[0] == ls[i as int]@);
        assert(lv.skip(i as int).drop_first() == lv.skip(i + 1));
        let l = trim_chars(ls[i].as_slice());
        if has_prefix_str(l.as_slice(), "type:") {
            proof {
                reveal_strlit("type:");
            }
            let v = copy_range(l.as_slice(), 5, l.len());
            return Some(unquote_chars(v.as_slice()));
        }
        i = i + 1;
    }
    assert(lv.skip(ls.len() as int) == Seq::<Seq<char>>::empty());
    None
}

/// The protocol shown in a node's name (see [`naming_protocol`]).
fn node_protocol(node: &[char]) -> (r: Vec<char>)
    ensures
        r@ == naming_protocol(node@),
{
    let t = trim_chars(node);
    let ts = t.as_slice();
    if has_prefix_str(ts, "ss://") {
        to_chars("ss")
    } else if has_prefix_str(ts, "ssr://") {
        to_chars("ssr")
    } else if has_prefix_str(ts, "vmess://") {
        to_chars("vmess")
    } else if has_prefix_str(ts, "vless://") {
        to_chars("vless")
    } else if has_prefix_str(ts, "trojan://") {
        to_chars("trojan")
    } else if has_prefix_str(ts, "hysteria2://") {
        to_chars("hysteria2")
    } else if has_prefix_str(ts, "hy2://") {
        to_chars("hy2")
    } else if has_prefix_str(ts, "hysteria://") {
        to_chars("hysteria")
    } else if has_prefix_str(ts, "tuic://") {
        to_chars("tuic")
    } else {
        let ls = lines_of(node);
        match type_line_value_of(&ls) {
            Some(v) => v,
            None => to_chars("unknown"),
        }
    }
}

// ---------------------------------------------------------------------
// Writing a name back
// ---------------------------------------------------------------------

/// A name as a YAML scalar: quoted, with `\` and `"` escaped, when it holds
/// `:`, `#` or `"`.
pub open spec fn clash_name_value(name: Seq<char>) -> Seq<char> {
    if has_char(name, ':') || has_char(name, '#') || has_char(name, '"') {
        seq!['"'] + replace_all(replace_all(name, seq!['\\'], seq!['\\', '\\']), seq!['"'], seq!['\\', '"'])
            + seq!['"']
    } else {
        name
    }
}

fn clash_name_value_of(name: &[char]) -> (r: Vec<char>)
    ensures
        r@ == clash_name_value(name@),
{
    if contains_char(name, ':') || contains_char(name, '#') || contains_char(name, '"') {
        let bs: Vec<char> = vec!['\\'];
        let bs2: Vec<char> = vec!['\\', '\\'];
        let q: Vec<char> = vec!['"'];
        let q2: Vec<char> = vec!['\\', '"'];
        assert(bs@ == seq!['\\'] && bs2@ == seq!['\\', '\\'] && q@ == seq!['"'] && q2@ == seq!['\\', '"']);
        let a = replace_chars(name, bs.as_slice(), bs2.as_slice());
        let b = replace_chars(a.as_slice(), q.as_slice(), q2.as_slice());
        let mut out: Vec<char> = Vec::new();
        out.push('"');
        push_all(&mut out, b.as_slice());
        out.push('"');
        out
    } else {
        copy_range(name, 0, name.len())
    }
}

/// The number of bytes of `line`'s leading whitespace.
pub open spec fn indent_width(line: Seq<char>) -> nat {
    utf8_bytes(line.take(line.len() - trim_start(line).len())).len()
}

/// `n` spaces.
pub open spec fn spaces(n: nat) -> Seq<char> {
    Seq::new(n, |i: int| ' ')
}

/// A block line with its name replaced: a `- name:` or `name:` line (once
/// trimmed) becomes that key and the new value, indented by as many spaces
/// as its leading whitespace had bytes; other lines stay.
pub open spec fn renamed_line(line: Seq<char>, name: Seq<char>) -> Seq<char> {
    let t = trim(line);
    if starts_with(t, "- name:"@) {
        spaces(indent_width(line)) + "- name: "@ + clash_name_value(name)
    } else if starts_with(t, "name:"@) {
        spaces(indent_width(line)) + "name: "@ + clash_name_value(name)
    } else {
        line
    }
}

/// A Clash block with its name lines set to `name`, lines joined by `\n`.
pub open spec fn set_clash_name(block: Seq<char>, name: Seq<char>) -> Seq<char> {
    join(lines(block).map_values(|l: Seq<char>| renamed_line(l, name)), "\n"@)
}

fn indent_of(line: &[char]) -> (r: Vec<char>)
    ensures
        r@ == spaces(indent_width(line@)),
{
    let k = trim_start_index(line);
    assert(line@.len() - trim_start(line@).len() == k);
    let mut out: Vec<char> = Vec::new();
    let mut i: usize = 0;
    assert(line@.take(0) =~= Seq::<char>::empty());
    assert(out@ =~= spaces(0));
    while i < k
        invariant
            i <= k <= line.len(),
            out@ == spaces(utf8_bytes(line@.take(i as int)).len()),
        decreases k - i,
    {
        let b = utf8_of_char(line[i]);
        let ghost before = out@;
        let mut j: usize = 0;
        while j < b.len()
            invariant
                j <= b.len(),
                out@ == before + spaces(j as nat),
            decreases b.len() - j,
        {
            out.push(' ');
            assert(out@ =~= before + spaces((j + 1) as nat));
            j = j + 1;
        }
        assert(line@.take(i + 1).drop_last() == line@.take(i as int));
        assert(line@.take(i + 1).last() == line@[i as int]);
        assert(out@ =~= spaces(utf8_bytes(line@.take(i + 1)).len()));
        i = i + 1;
    }
    out
}

fn renamed_line_of(line: &[char], name: &[char]) -> (r: Vec<char>)
    ensures
        r@ == renamed_line(line@, name@),
{
    let t = trim_chars(line);
    if has_prefix_str(t.as_slice(), "- name:") {
        let mut out = indent_of(line);
        push_str(&mut out, "- name: ");
        let v = clash_name_value_of(name);
        push_all(&mut out, v.as_slice());
        out
    } else if has_prefix_str(t.as_slice(), "name:") {
        let mut out = indent_of(line);
        push_str(&mut out, "name: ");
        let v = clash_name_value_of(name);
        push_all(&mut out, v.as_slice());
        out
    } else {
        copy_range(line, 0, line.len())
    }
}

/// A Clash block with its name lines set to `name` (see [`set_clash_name`]).
fn set_clash_display_name(block: &[char], name: &[char]) -> (r: Vec<char>)
    ensures
        r@ == set_clash_name(block@, name@),
{
    let ls = lines_of(block);
    let ghost lv = views(ls@);
    let mut parts: Vec<Vec<char>> = Vec::new();
    let mut i: usize = 0;
    while i < ls.len()
        invariant
            i <= ls.len(),
            lv == views(ls@),
            views(parts@) == lv.take(i as int).map_values(|l: Seq<char>| renamed_line(l, name@)),
        decreases ls.len() - i,
    {
        let p = renamed_line_of(ls[i].as_slice(), name);
        proof {
            crate::text::lemma_views_push(parts@, p);
            crate::text::lemma_map_take_push(lv, |l: Seq<char>| renamed_line(l, name@), i as int);
        }
        parts.push(p);
        i = i + 1;
    }
    assert(lv.take(ls.len() as int) == lv);
    let sep = to_chars("\n");
    join_chars(&parts, sep.as_slice())
}


/// A vmess link with the `ps` member of its document set to `name`,
/// re-encoded; the link unchanged when its body does not decode or parse
/// (and when the new document would be too long to encode).
pub open spec fn set_vmess_name(url: Seq<char>, name: Seq<char>) -> Seq<char> {
    match decoded_text(before_first(url.skip(8), '#')) {
        None => url,
        Some(json) => match json_with_member_of(json, "ps"@, name) {
            None => url,
            Some(updated) => {
                let text = match updated {
                    Some(u) => u,
                    None => json,
                };
                if text.len() <= usize::MAX / 8 {
                    "vmess://"@ + base64_encoded(text)
                } else {
                    url
                }
            },
        },
    }
}

/// A v2ray link with its display name set: for vmess, in the document;
/// otherwise as the percent-encoded fragment, replacing any old one.
pub open spec fn set_v2ray_name(node: Seq<char>, name: Seq<char>) -> Seq<char> {
    let t = trim(node);
    if starts_with(t, "vmess://"@) {
        set_vmess_name(t, name)
    } else {
        before_first(t, '#') + "#"@ + fragment_of(name)
    }
}

/// The document of a vmess link, when its body decodes.
pub open spec fn vmess_doc(url: Seq<char>) -> Option<Seq<char>> {
    decoded_text(before_first(url.skip(8), '#'))
}

/// The document of a vmess link is an object with some member.
pub open spec fn vmess_doc_has_member(url: Seq<char>) -> bool {
    match vmess_doc(url) {
        Some(j) => exists|k: Seq<char>| #[trigger] json_member_of(j, k) != JsonScalar::Missing,
        None => false,
    }
}

/// The renamed document of a vmess link would be too long to encode.
pub open spec fn vmess_rename_too_long(url: Seq<char>, name: Seq<char>) -> bool {
    match vmess_doc(url) {
        Some(j) => match json_with_member_of(j, "ps"@, name) {
            Some(Some(u)) => u.len() > usize::MAX / 8,
            _ => false,
        },
        None => false,
    }
}

/// Whether a name set on a link can be read back from it: any link but a
/// vmess link, and a vmess link whose document is an object with some
/// member and whose renamed document can still be encoded.
pub open spec fn name_settable(node: Seq<char>, name: Seq<char>) -> bool {
    let t = trim(node);
    !starts_with(t, "vmess://"@) || (vmess_doc_has_member(t) && !vmess_rename_too_long(t, name))
}

/// Setting `name` on `node` keeps its endpoint (unless it is an `ssr://`
/// link, whose base64 body would take in the fragment), and a non-empty
/// name that can be set reads back as the node's name.
pub open spec fn rename_faithful(node: Seq<char>, name: Seq<char>) -> bool {
    &&& !starts_with(trim(node), "ssr://"@) ==> v2ray_endpoint(set_v2ray_name(node, name))
        == v2ray_endpoint(node)
    &&& name.len() > 0 && name_settable(node, name) ==> given_name(set_v2ray_name(node, name))
        == Some(name)
}

proof fn lemma_no_hash_in_base64(enc: Seq<char>)
    requires
        forall|i: int| 0 <= i < enc.len() ==> is_base64_char(#[trigger] enc[i]),
    ensures
        before_first(enc, '#') == enc,
        drop_ws(enc) == enc,
{
    crate::text::lemma_first_of(enc, '#');
    if first_of(enc, '#') < enc.len() {
        assert(is_base64_char(enc[first_of(enc, '#')]));
    }
    assert(enc.take(enc.len() as int) =~= enc);
    let keep = |c: char| !is_ws(c);
    assert forall|i: int| 0 <= i < enc.len() implies #[trigger] keep(enc[i]) by {
        assert(is_base64_char(enc[i]));
    }
    crate::parser_laws::lemma_filter_all(enc, keep);
}

/// A trimmed vmess link is read as vmess.
proof fn lemma_vmess_read(url: Seq<char>)
    requires
        starts_with(url, "vmess://"@),
        trim(url) == url,
    ensures
        v2ray_endpoint(url) == vmess_endpoint(url),
        given_name(url) == match vmess_doc(url) {
            Some(json) => match json_member_of(json, "ps"@) {
                JsonScalar::Text(s) => Some(s),
                _ => None,
            },
            None => None,
        },
{
    reveal_strlit("vmess://");
    reveal_strlit("ss://");
    assert(url[1] == url.take(8)[1]);
    assert(!starts_with(url, "ss://"@)) by {
        if starts_with(url, "ss://"@) {
            assert(url[1] == url.take(5)[1]);
        }
    }
}

/// The link itself, copied.
fn unchanged_link(url: &[char]) -> (r: Vec<char>)
    ensures
        r@ == url@,
{
    let r = copy_range(url, 0, url.len());
    assert(r@ =~= url@);
    r
}

fn set_vmess_display_name(url: &[char], name: &[char]) -> (r: Vec<char>)
    requires
        starts_with(url@, "vmess://"@),
        trim(url@) == url@,
    ensures
        r@ == set_vmess_name(url@, name@),
        v2ray_endpoint(r@) == v2ray_endpoint(url@),
        name@.len() > 0 && vmess_doc_has_member(url@) && !vmess_rename_too_long(url@, name@)
            ==> given_name(r@) == Some(name@),
{
    proof {
        reveal_strlit("vmess://");
    }
    let rest = copy_range(url, 8, url.len());
    let body = crate::text::before_first_chars(rest.as_slice(), '#');
    let json = match decoded_text_of(body.as_slice()) {
        Some(j) => j,
        None => return unchanged_link(url),
    };
    let js = from_chars(json.as_slice());
    let ns = from_chars(name);
    let updated = match json_with_member(js.as_str(), "ps", ns.as_str()) {
        Some(u) => u,
        None => return unchanged_link(url),
    };
    let text: String = match updated {
        Some(u) => u,
        None => js,
    };
    let tc = to_chars(text.as_str());
    if tc.len() > usize::MAX / 8 {
        return unchanged_link(url);
    }
    let encoded = base64_encode(text.as_str());
    let mut out = to_chars("vmess://");
    push_str(&mut out, encoded.as_str());
    proof {
        let enc = encoded@;
        let r = out@;
        let json_v = json@;
        let t = text@;
        assert(r == "vmess://"@ + enc);
        assert(r.take(8) =~= "vmess://"@);
        assert(r.skip(8) =~= enc);
        lemma_no_hash_in_base64(enc);
        // the new document decodes back
        assert(is_utf8(utf8_bytes(t)));
        let cs = choose|cs: Seq<char>| #[trigger] utf8_bytes(cs) == utf8_bytes(t);
        crate::text::lemma_utf8_injective(cs, t);
        assert(lossy_text(utf8_bytes(t)) == t);
        assert(vmess_doc(r) == Some(t));
        // the new link is trimmed
        if enc.len() > 0 {
            assert(is_base64_char(enc[enc.len() - 1]));
            assert(r.last() == enc.last());
        }
        crate::naming_laws::lemma_trim_plain(r);
        lemma_vmess_read(r);
        lemma_vmess_read(url@);
        assert(vmess_doc(url@) == Some(json_v));
        reveal_strlit("add");
        reveal_strlit("port");
        reveal_strlit("ps");
        assert("add"@.len() == 3 && "ps"@.len() == 2 && "port"@.len() == 4);
        assert("add"@ != "ps"@);
        assert("port"@ != "ps"@);
        assert(json_member_of(t, "add"@) == json_member_of(json_v, "add"@));
        assert(json_member_of(t, "port"@) == json_member_of(json_v, "port"@));
        if vmess_doc_has_member(url@) {
            let k = choose|k: Seq<char>| #[trigger] json_member_of(json_v, k) != JsonScalar::Missing;
            assert(json_member_of(t, "ps"@) == JsonScalar::Text(name@));
        }
    }
    out
}

/// Sets a v2ray link's display name (see [`set_v2ray_name`]).
fn set_v2ray_display_name_of(node: &[char], name: &[char]) -> (r: Vec<char>)
    ensures
        r@ == set_v2ray_name(node@, name@),
        rename_faithful(node@, name@),
{
    let t = trim_chars(node);
    proof {
        crate::naming_laws::lemma_trim_shape(node@);
        if t@.len() > 0 {
            crate::naming_laws::lemma_trim_plain(t@);
        }
    }
    if has_prefix_str(t.as_slice(), "vmess://") {
        proof {
            reveal_strlit("vmess://");
            reveal_strlit("ssr://");
            assert(t@[1] == t@.take(8)[1]);
            if starts_with(t@, "ssr://"@) {
                assert(t@[1] == t@.take(6)[1]);
            }
        }
        let r = set_vmess_display_name(t.as_slice(), name);
        proof {
            assert(v2ray_endpoint(node@) == v2ray_endpoint(t@));
        }
        return r;
    }
    let mut out = crate::text::before_first_chars(t.as_slice(), '#');
    push_str(&mut out, "#");
    let e = encode_fragment_chars(name);
    push_all(&mut out, e.as_slice());
    proof {
        if !starts_with(t@, "ssr://"@) {
            crate::naming_laws::law_set_name_keeps_endpoint(node@, name@);
        }
        if name@.len() > 0 {
            crate::naming_laws::law_set_name_reads_back(node@, name@);
        }
    }
    out
}

/// Sets a v2ray link's display name (see [`set_v2ray_name`]): a vmess link
/// gets it as the `ps` member of its document, any other link as its
/// percent-encoded fragment. The link keeps its endpoint (unless it is an
/// `ssr://` link), and a non-empty name that can be set reads back with
/// [`extract_original_display_name`] (see [`rename_faithful`]).
pub fn set_v2ray_display_name(node: &str, display_name: &str) -> (r: String)
    ensures
        r@ == set_v2ray_name(node@, display_name@),
        rename_faithful(node@, display_name@),
{
    let n = to_chars(node);
    let d = to_chars(display_name);
    let r = set_v2ray_display_name_of(n.as_slice(), d.as_slice());
    from_chars(r.as_slice())
}

/// The display name a node came with (see [`given_name`]): the `ps` member
/// of a vmess document, else a non-empty decoded URI fragment, else the
/// first `name:` line of a Clash block.
pub fn extract_original_display_name(node: &str) -> (r: Option<String>)
    ensures
        match r {
            Some(v) => given_name(node@) == Some(v@),
            None => given_name(node@) is None,
        },
{
    let n = to_chars(node);
    match given_name_of(n.as_slice()) {
        Some(v) => Some(from_chars(v.as_slice())),
        None => None,
    }
}

// ---------------------------------------------------------------------
// Building a name
// ---------------------------------------------------------------------

/// How to name nodes.
#[derive(Debug, Clone)]
pub struct NamingConfig {
    pub enabled: bool,
    pub template: String,
    pub first_name: String,
}

/// A latency as shown in a name: `{ms}ms`, or `-` when unknown.
pub open spec fn latency_text(r: Option<ProbeResult>) -> Seq<char> {
    match r {
        Some(p) => match p.latency_ms {
            Some(ms) => dec(ms as nat) + "ms"@,
            None => "-"@,
        },
        None => "-"@,
    }
}

fn format_latency(r: Option<ProbeResult>) -> (s: Vec<char>)
    ensures
        s@ == latency_text(r),
{
    match r {
        Some(p) => match p.latency_ms {
            Some(ms) => {
                let mut out = dec_chars(ms as u128);
                push_str(&mut out, "ms");
                out
            },
            None => to_chars("-"),
        },
        None => to_chars("-"),
    }
}

/// `{key}` for a template variable.
pub open spec fn placeholder(key: Seq<char>) -> Seq<char> {
    seq!['{'] + key + seq!['}']
}

/// A template with each `{key}` replaced by its value, variable by
/// variable in order.
pub open spec fn apply_vars(template: Seq<char>, vars: Seq<(Seq<char>, Seq<char>)>) -> Seq<char>
    decreases vars.len(),
{
    if vars.len() == 0 {
        template
    } else {
        replace_all(apply_vars(template, vars.drop_last()), placeholder(vars.last().0), vars.last().1)
    }
}

fn apply_template(template: &[char], vars: &Vec<(Vec<char>, Vec<char>)>) -> (r: Vec<char>)
    ensures
        r@ == apply_vars(template@, vars@.map_values(|v: (Vec<char>, Vec<char>)| (v.0@, v.1@))),
{
    let ghost vv = vars@.map_values(|v: (Vec<char>, Vec<char>)| (v.0@, v.1@));
    let mut out = copy_range(template, 0, template.len());
    let mut i: usize = 0;
    assert(vv.take(0) =~= Seq::<(Seq<char>, Seq<char>)>::empty());
    while i < vars.len()
        invariant
            i <= vars.len(),
            vv == vars@.map_values(|v: (Vec<char>, Vec<char>)| (v.0@, v.1@)),
            out@ == apply_vars(template@, vv.take(i as int)),
        decreases vars.len() - i,
    {
        assert(vv.take(i + 1).drop_last() == vv.take(i as int));
        assert(vv.take(i + 1).last() == (vars[i as int].0@, vars[i as int].1@));
        let mut key: Vec<char> = Vec::new();
        key.push('{');
        push_all(&mut key, vars[i].0.as_slice());
        key.push('}');
        assert(key@ =~= placeholder(vars[i as int].0@));
        out = replace_chars(out.as_slice(), key.as_slice(), vars[i].1.as_slice());
        i = i + 1;
    }
    assert(vv.take(vars.len() as int) == vv);
    out
}

/// The endpoint used in a name: the node's endpoint, else `?` and port 0.
pub open spec fn name_endpoint(node: Seq<char>) -> (Seq<char>, u16) {
    match v2ray_endpoint(node) {
        Some(e) => e,
        None => match clash_endpoint(node) {
            Some(e) => e,
            None => ("?"@, 0),
        },
    }
}

/// The name built for a node from a template with the variables
/// `{country}`, `{latency}`, `{proto}`, `{host}`, `{port}` and `{index}`
/// (three digits at least).
pub open spec fn built_name(
    template: Seq<char>,
    node: Seq<char>,
    index: nat,
    cache: Map<(Seq<char>, u16), ProbeResult>,
) -> Seq<char> {
    let (host, port) = name_endpoint(node);
    let probe = if cache.contains_key((host, port)) {
        Some(cache[(host, port)])
    } else {
        None
    };
    apply_vars(
        template,
        seq![
            ("country"@, country_label(host, given_name(node))),
            ("latency"@, latency_text(probe)),
            ("proto"@, naming_protocol(node)),
            ("host"@, host),
            (
                "port"@,
                if port > 0 {
                    dec(port as nat)
                } else {
                    "?"@
                },
            ),
            ("index"@, dec_padded(index, 3)),
        ],
    )
}

/// A name with `{source}` replaced by the source its node came from, when
/// the node is tagged with one.
pub open spec fn with_source(name: Seq<char>, source: Option<Seq<char>>) -> Seq<char> {
    match source {
        Some(src) => replace_all(name, "{source}"@, src),
        None => name,
    }
}

/// The source of the `i`-th item, when the items are tagged.
pub open spec fn tag_at(tags: Option<Seq<Seq<char>>>, i: int) -> Option<Seq<char>> {
    match tags {
        Some(t) => Some(t[i]),
        None => None,
    }
}

/// Sources of a slice of strings, when there are any.
pub open spec fn tags_view(sources: Option<&[String]>) -> Option<Seq<Seq<char>>> {
    match sources {
        Some(v) => Some(crate::text::string_views(v@)),
        None => None,
    }
}

fn with_source_of(name: Vec<char>, source: Option<&[char]>) -> (r: Vec<char>)
    ensures
        r@ == with_source(
            name@,
            match source {
                Some(x) => Some(x@),
                None => None,
            },
        ),
{
    match source {
        Some(src) => {
            let key = to_chars("{source}");
            proof {
                reveal_strlit("{source}");
            }
            replace_chars(name.as_slice(), key.as_slice(), src)
        },
        None => name,
    }
}

fn build_name(template: &[char], node: &[char], index: usize, cache: &ProbeCache) -> (r: Vec<char>)
    ensures
        r@ == built_name(template@, node@, index as nat, cache@),
{
    let hint = given_name_of(node);
    let (host, port) = match v2ray_endpoint_of(node) {
        Some(e) => e,
        None => match clash_endpoint_of(node) {
            Some(e) => e,
            None => (to_chars("?"), 0u16),
        },
    };
    let hs = from_chars(host.as_slice());
    let country_s = match hint {
        Some(h) => {
            let hint_s = from_chars(h.as_slice());
            detect_country(hs.as_str(), Some(hint_s.as_str()))
        },
        None => detect_country(hs.as_str(), None),
    };
    let country = to_chars(country_s.as_str());
    let latency = format_latency(cache.lookup(host.as_slice(), port));
    let proto = node_protocol(node);
    let port_str = if port > 0 {
        dec_chars(port as u128)
    } else {
        to_chars("?")
    };
    let index_str = dec_padded_chars(index as u128, 3);
    let mut vars: Vec<(Vec<char>, Vec<char>)> = Vec::new();
    vars.push((to_chars("country"), country));
    vars.push((to_chars("latency"), latency));
    vars.push((to_chars("proto"), proto));
    vars.push((to_chars("host"), host));
    vars.push((to_chars("port"), port_str));
    vars.push((to_chars("index"), index_str));
    let r = apply_template(template, &vars);
    assert(vars@.map_values(|v: (Vec<char>, Vec<char>)| (v.0@, v.1@)) =~= seq![
        ("country"@, vars@[0].1@),
        ("latency"@, vars@[1].1@),
        ("proto"@, vars@[2].1@),
        ("host"@, vars@[3].1@),
        ("port"@, vars@[4].1@),
        ("index"@, vars@[5].1@),
    ]);
    r
}


// ---------------------------------------------------------------------
// Unique names
// ---------------------------------------------------------------------

/// `base-n`.
pub open spec fn candidate(base: Seq<char>, n: nat) -> Seq<char> {
    base + seq!['-'] + dec(n)
}

/// `n` is the least number from 2 on for which `base-n` is not yet used.
pub open spec fn is_first_free(used: Seq<Seq<char>>, base: Seq<char>, n: nat) -> bool {
    &&& n >= 2
    &&& !used.contains(candidate(base, n))
    &&& forall|m: nat| 2 <= m < n ==> used.contains(#[trigger] candidate(base, m))
}

/// `base` when it is not used yet, else `base-n` for the least `n >= 2`
/// that gives an unused name.
pub open spec fn unique_name(used: Seq<Seq<char>>, base: Seq<char>) -> Seq<char> {
    if !used.contains(base) {
        base
    } else {
        candidate(base, choose|n: nat| is_first_free(used, base, n))
    }
}

pub proof fn lemma_digit_value(d: int)
    requires
        0 <= d < 10,
    ensures
        (digit_char(d) as u32) - 48 == d,
        48 <= (digit_char(d) as u32) <= 57,
{
}

pub proof fn lemma_dec_value(n: nat)
    ensures
        digits_value(dec(n)) == n,
    decreases n,
{
    if n < 10 {
        lemma_digit_value(n as int);
        assert(dec(n).drop_last() =~= Seq::<char>::empty());
        assert(digits_value(Seq::<char>::empty()) == 0);
        assert(dec(n).last() == digit_char(n as int));
    } else {
        lemma_dec_value(n / 10);
        lemma_digit_value((n % 10) as int);
        let s = dec(n / 10);
        assert(dec(n).drop_last() =~= s);
        assert(dec(n).last() == digit_char((n % 10) as int));
        assert(digits_value(dec(n)) == digits_value(s) * 10 + ((dec(n).last() as u32) - 48) as nat);
        assert((n / 10) * 10 + n % 10 == n);
    }
}

proof fn lemma_candidate_injective(base: Seq<char>, m1: nat, m2: nat)
    requires
        candidate(base, m1) == candidate(base, m2),
    ensures
        m1 == m2,
{
    assert(candidate(base, m1).skip(base.len() + 1int) =~= dec(m1));
    assert(candidate(base, m2).skip(base.len() + 1int) =~= dec(m2));
    lemma_dec_value(m1);
    lemma_dec_value(m2);
}

proof fn lemma_candidates_bound(used: Seq<Seq<char>>, base: Seq<char>, n: nat)
    requires
        n >= 2,
        forall|m: nat| 2 <= m < n ==> used.contains(#[trigger] candidate(base, m)),
    ensures
        n - 2 <= used.len(),
{
    let cs = Seq::new((n - 2) as nat, |j: int| candidate(base, (j + 2) as nat));
    assert forall|i: int, j: int| 0 <= i < cs.len() && 0 <= j < cs.len() && i != j implies cs[i]
        != cs[j] by {
        if cs[i] == cs[j] {
            lemma_candidate_injective(base, (i + 2) as nat, (j + 2) as nat);
        }
    }
    assert(cs.no_duplicates());
    cs.unique_seq_to_set();
    assert forall|x: Seq<char>| cs.to_set().contains(x) implies used.to_set().contains(x) by {
        assert(cs.contains(x));
        let j = choose|j: int| 0 <= j < cs.len() && cs[j] == x;
        assert(used.contains(candidate(base, (j + 2) as nat)));
    }
    vstd::seq_lib::seq_to_set_is_finite(used);
    vstd::set_lib::lemma_len_subset(cs.to_set(), used.to_set());
    used.lemma_cardinality_of_set();
}

proof fn lemma_first_free_unique(used: Seq<Seq<char>>, base: Seq<char>, n: nat)
    requires
        is_first_free(used, base, n),
    ensures
        (choose|k: nat| is_first_free(used, base, k)) == n,
{
    let k = choose|k: nat| is_first_free(used, base, k);
    assert(is_first_free(used, base, k));
    if k < n {
        assert(used.contains(candidate(base, k)));
    } else if k > n {
        assert(used.contains(candidate(base, n)));
    }
}

proof fn lemma_first_free_from(used: Seq<Seq<char>>, base: Seq<char>, n: nat)
    requires
        n >= 2,
        forall|m: nat| 2 <= m < n ==> used.contains(#[trigger] candidate(base, m)),
    ensures
        exists|k: nat| is_first_free(used, base, k),
    decreases used.len() + 3 - n,
{
    lemma_candidates_bound(used, base, n);
    if !used.contains(candidate(base, n)) {
        assert(is_first_free(used, base, n));
    } else {
        assert forall|m: nat| 2 <= m < n + 1 implies used.contains(#[trigger] candidate(base, m)) by {
            if m < n {
                assert(used.contains(candidate(base, m)));
            }
        }
        lemma_candidates_bound(used, base, n + 1);
        lemma_first_free_from(used, base, n + 1);
    }
}

/// A unique name is not among the names already used.
pub proof fn law_unique_name_is_new(used: Seq<Seq<char>>, base: Seq<char>)
    ensures
        !used.contains(unique_name(used, base)),
{
    if used.contains(base) {
        lemma_first_free_from(used, base, 2);
        let n = choose|n: nat| is_first_free(used, base, n);
        assert(is_first_free(used, base, n));
    }
}

/// Picks a name not used yet (see [`unique_name`]) and records it as used.
fn unique_name_of(used: &mut Vec<Vec<char>>, base: Vec<char>) -> (r: Vec<char>)
    ensures
        r@ == unique_name(views(old(used)@), base@),
        views(final(used)@) == views(old(used)@).push(r@),
{
    let ghost uv = views(used@);
    if !crate::text::contains_line(used, base.as_slice()) {
        let c = copy_range(base.as_slice(), 0, base.len());
        assert(c@ =~= base@);
        proof {
            crate::text::lemma_views_push(used@, c);
        }
        used.push(c);
        return base;
    }
    let ulen = used.len();
    let mut n: u128 = 2;
    loop
        invariant
            uv.len() == ulen,
            views(used@) == uv,
            uv == views(old(used)@),
            uv.contains(base@),
            2 <= n,
            n - 2 <= uv.len(),
            forall|m: nat| 2 <= m < n ==> uv.contains(#[trigger] candidate(base@, m)),
        decreases uv.len() + 2 - n,
    {
        let mut cand = copy_range(base.as_slice(), 0, base.len());
        assert(cand@ =~= base@);
        cand.push('-');
        crate::text::push_dec(&mut cand, n);
        assert(cand@ =~= candidate(base@, n as nat));
        if !crate::text::contains_line(used, cand.as_slice()) {
            proof {
                assert(is_first_free(uv, base@, n as nat));
                lemma_first_free_unique(uv, base@, n as nat);
            }
            let c = copy_range(cand.as_slice(), 0, cand.len());
            assert(c@ =~= cand@);
            proof {
                crate::text::lemma_views_push(used@, c);
            }
            used.push(c);
            return cand;
        }
        proof {
            assert forall|m: nat| 2 <= m < n + 1 implies uv.contains(#[trigger] candidate(base@, m)) by {
                if m == n {
                } else {
                    assert(uv.contains(candidate(base@, m)));
                }
            }
            lemma_candidates_bound(uv, base@, (n + 1) as nat);
        }
        n = n + 1;
    }
}


// ---------------------------------------------------------------------
// Renaming node lists
// ---------------------------------------------------------------------

/// Unique names for the given bases, in order, none of them among `used`
/// or among the names given before it.
pub open spec fn assign_names(used: Seq<Seq<char>>, bases: Seq<Seq<char>>) -> Seq<Seq<char>>
    decreases bases.len(),
{
    if bases.len() == 0 {
        seq![]
    } else {
        let prev = assign_names(used, bases.drop_last());
        prev.push(unique_name(used + prev, bases.last()))
    }
}

pub proof fn lemma_assign_names_len(used: Seq<Seq<char>>, bases: Seq<Seq<char>>)
    ensures
        assign_names(used, bases).len() == bases.len(),
    decreases bases.len(),
{
    if bases.len() > 0 {
        lemma_assign_names_len(used, bases.drop_last());
    }
}

/// Names are given once: the assigned names are pairwise distinct, and none
/// of them was used before.
pub proof fn law_assign_names_unique(used: Seq<Seq<char>>, bases: Seq<Seq<char>>)
    ensures
        assign_names(used, bases).no_duplicates(),
        forall|k: int|
            0 <= k < assign_names(used, bases).len() ==> !used.contains(
                #[trigger] assign_names(used, bases)[k],
            ),
    decreases bases.len(),
{
    if bases.len() > 0 {
        let prev = assign_names(used, bases.drop_last());
        let x = unique_name(used + prev, bases.last());
        law_assign_names_unique(used, bases.drop_last());
        law_unique_name_is_new(used + prev, bases.last());
        let names = prev.push(x);
        assert(assign_names(used, bases) == names);
        assert forall|k: int| 0 <= k < prev.len() implies #[trigger] prev[k] != x by {
            assert((used + prev)[used.len() + k] == prev[k]);
        }
        assert forall|k: int| 0 <= k < names.len() implies !used.contains(#[trigger] names[k]) by {
            if k == prev.len() {
                if used.contains(x) {
                    let m = choose|m: int| 0 <= m < used.len() && used[m] == x;
                    assert((used + prev)[m] == x);
                }
            } else {
                assert(names[k] == prev[k]);
            }
        }
        assert forall|i: int, j: int| 0 <= i < names.len() && 0 <= j < names.len() && i != j implies names[i]
            != names[j] by {
            if i < prev.len() && j < prev.len() {
                assert(names[i] == prev[i] && names[j] == prev[j]);
            } else if i < prev.len() {
                assert(names[i] == prev[i]);
            } else {
                assert(names[j] == prev[j]);
            }
        }
    }
}

/// Across all Clash documents, every proxy gets a name of its own: the
/// names given while renaming are pairwise distinct.
pub proof fn law_clash_names_unique(
    chunks: Seq<Seq<char>>,
    tags: Option<Seq<Seq<char>>>,
    cfg: NamingConfig,
    cache: Map<(Seq<char>, u16), ProbeResult>,
)
    ensures
        clash_rename(chunks, tags, cfg, cache).0.no_duplicates(),
    decreases chunks.len(),
{
    if chunks.len() > 0 {
        law_clash_names_unique(chunks.drop_last(), tags_drop_last(tags), cfg, cache);
        let used = clash_rename(chunks.drop_last(), tags_drop_last(tags), cfg, cache).0;
        let src = tag_at(tags, chunks.len() - 1);
        match crate::parser::clash_proxy_blocks(chunks.last()) {
            None => {},
            Some(bs) => {
                let names = assign_names(used, block_bases(bs, src, cfg, cache));
                law_assign_names_unique(used, block_bases(bs, src, cfg, cache));
                let all = used + names;
                assert forall|i: int, j: int| 0 <= i < all.len() && 0 <= j < all.len() && i != j implies all[i]
                    != all[j] by {
                    if i < used.len() && j < used.len() {
                    } else if i >= used.len() && j >= used.len() {
                        assert(all[i] == names[i - used.len()] && all[j] == names[j - used.len()]);
                    } else if i < used.len() {
                        assert(all[j] == names[j - used.len()]);
                        assert(!used.contains(names[j - used.len()]));
                        assert(used[i] == all[i]);
                    } else {
                        assert(all[i] == names[i - used.len()]);
                        assert(!used.contains(names[i - used.len()]));
                        assert(used[j] == all[j]);
                    }
                }
            },
        }
    }
}

/// The base name of the `i`-th v2ray node: the configured first name for
/// the first node, else the template's name with index `i + 1` (and, for
/// tagged nodes, `{source}` filled in).
pub open spec fn v2ray_base(
    nodes: Seq<Seq<char>>,
    tags: Option<Seq<Seq<char>>>,
    i: int,
    cfg: NamingConfig,
    cache: Map<(Seq<char>, u16), ProbeResult>,
) -> Seq<char> {
    if i == 0 {
        cfg.first_name@
    } else {
        with_source(built_name(cfg.template@, nodes[i], (i + 1) as nat, cache), tag_at(tags, i))
    }
}

/// The renamed v2ray nodes: each with a unique name built from its base.
pub open spec fn renamed_v2ray(
    nodes: Seq<Seq<char>>,
    tags: Option<Seq<Seq<char>>>,
    cfg: NamingConfig,
    cache: Map<(Seq<char>, u16), ProbeResult>,
) -> Seq<Seq<char>> {
    if !cfg.enabled {
        nodes
    } else {
        let names = v2ray_names(nodes, tags, cfg, cache);
        Seq::new(nodes.len(), |i: int| set_v2ray_name(nodes[i], names[i]))
    }
}

/// The names given to v2ray nodes, in order.
pub open spec fn v2ray_names(
    nodes: Seq<Seq<char>>,
    tags: Option<Seq<Seq<char>>>,
    cfg: NamingConfig,
    cache: Map<(Seq<char>, u16), ProbeResult>,
) -> Seq<Seq<char>> {
    assign_names(seq![], Seq::new(nodes.len(), |i: int| v2ray_base(nodes, tags, i, cfg, cache)))
}

/// Every v2ray node gets a name of its own: the names are pairwise distinct,
/// one per node.
pub proof fn law_v2ray_names_unique(
    nodes: Seq<Seq<char>>,
    tags: Option<Seq<Seq<char>>>,
    cfg: NamingConfig,
    cache: Map<(Seq<char>, u16), ProbeResult>,
)
    ensures
        v2ray_names(nodes, tags, cfg, cache).no_duplicates(),
        v2ray_names(nodes, tags, cfg, cache).len() == nodes.len(),
{
    let bases = Seq::new(nodes.len(), |i: int| v2ray_base(nodes, tags, i, cfg, cache));
    law_assign_names_unique(seq![], bases);
    lemma_assign_names_len(seq![], bases);
}

/// Renames v2ray nodes, each tagged with `sources[i]` when given.
fn rename_v2ray_with(
    nodes: &[String],
    sources: Option<&[String]>,
    cfg: &NamingConfig,
    probe_cache: &ProbeCache,
) -> (r: Vec<String>)
    requires
        sources matches Some(v) ==> v.len() == nodes.len(),
    ensures
        r.deep_view() == renamed_v2ray(
            crate::text::string_views(nodes@),
            tags_view(sources),
            *cfg,
            probe_cache@,
        ),
        cfg.enabled ==> forall|k: int|
            0 <= k < nodes@.len() ==> #[trigger] rename_faithful(
                nodes@[k]@,
                v2ray_names(crate::text::string_views(nodes@), tags_view(sources), *cfg, probe_cache@)[k],
            ),
{
    let ghost nv = crate::text::string_views(nodes@);
    let ghost tags = tags_view(sources);
    let ghost bases = Seq::new(nv.len(), |i: int| v2ray_base(nv, tags, i, *cfg, probe_cache@));
    if !cfg.enabled {
        let mut out: Vec<String> = Vec::new();
        let mut i: usize = 0;
        while i < nodes.len()
            invariant
                i <= nodes.len(),
                nv == crate::text::string_views(nodes@),
                crate::text::string_views(out@) == nv.take(i as int),
            decreases nodes.len() - i,
        {
            let x = nodes[i].clone();
            proof {
                crate::text::lemma_string_views_push(out@, x);
                assert(nv.take(i + 1) == nv.take(i as int).push(x@));
            }
            out.push(x);
            i = i + 1;
        }
        assert(nv.take(nodes.len() as int) == nv);
        proof {
            crate::text::lemma_string_views(out);
        }
        return out;
    }
    let template = to_chars(cfg.template.as_str());
    let first = to_chars(cfg.first_name.as_str());
    let mut used: Vec<Vec<char>> = Vec::new();
    let mut out: Vec<String> = Vec::new();
    let mut i: usize = 0;
    assert(bases.take(0) =~= Seq::<Seq<char>>::empty());
    assert(views(used@) =~= Seq::<Seq<char>>::empty());
    while i < nodes.len()
        invariant
            i <= nodes.len(),
            cfg.enabled,
            nv == crate::text::string_views(nodes@),
            tags == tags_view(sources),
            sources matches Some(v) ==> v.len() == nodes.len(),
            bases == Seq::new(nv.len(), |k: int| v2ray_base(nv, tags, k, *cfg, probe_cache@)),
            template@ == cfg.template@,
            first@ == cfg.first_name@,
            views(used@) == assign_names(seq![], bases.take(i as int)),
            crate::text::string_views(out@) == Seq::new(
                i as nat,
                |k: int| set_v2ray_name(nv[k], assign_names(seq![], bases.take(i as int))[k]),
            ),
            forall|k: int|
                0 <= k < i ==> #[trigger] rename_faithful(
                    nv[k],
                    assign_names(seq![], bases.take(i as int))[k],
                ),
        decreases nodes.len() - i,
    {
        let node = to_chars(nodes[i].as_str());
        let base = if i == 0 {
            copy_range(first.as_slice(), 0, first.len())
        } else {
            let built = build_name(template.as_slice(), node.as_slice(), i + 1, probe_cache);
            match sources {
                Some(v) => {
                    let src = to_chars(v[i].as_str());
                    with_source_of(built, Some(src.as_slice()))
                },
                None => with_source_of(built, None),
            }
        };
        assert(base@ =~= bases[i as int]);
        let ghost prev = assign_names(seq![], bases.take(i as int));
        proof {
            assert(bases.take(i + 1).drop_last() == bases.take(i as int));
            assert(Seq::<Seq<char>>::empty() + prev =~= prev);
            lemma_assign_names_len(seq![], bases.take(i as int));
        }
        let name = unique_name_of(&mut used, base);
        let renamed = set_v2ray_display_name_of(node.as_slice(), name.as_slice());
        let x = from_chars(renamed.as_slice());
        proof {
            crate::text::lemma_string_views_push(out@, x);
            let next = assign_names(seq![], bases.take(i + 1));
            assert(next == prev.push(name@));
            assert(node@ == nv[i as int]);
            assert forall|k: int| 0 <= k < i + 1 implies #[trigger] rename_faithful(nv[k], next[k]) by {
                if k < i {
                    assert(next[k] == prev[k]);
                }
            }
            assert(crate::text::string_views(out@.push(x)) =~= Seq::new(
                (i + 1) as nat,
                |k: int| set_v2ray_name(nv[k], next[k]),
            ));
        }
        out.push(x);
        i = i + 1;
    }
    assert(bases.take(nodes.len() as int) == bases);
    proof {
        crate::text::lemma_string_views(out);
        assert(crate::text::string_views(out@) =~= renamed_v2ray(nv, tags, *cfg, probe_cache@));
        assert(v2ray_names(nv, tags, *cfg, probe_cache@) == assign_names(seq![], bases));
        assert forall|k: int| 0 <= k < nodes@.len() implies #[trigger] rename_faithful(
            nodes@[k]@,
            v2ray_names(nv, tags, *cfg, probe_cache@)[k],
        ) by {
            assert(nodes@[k]@ == nv[k]);
        }
    }
    out
}

/// Renames v2ray nodes: the first gets the configured first name, the
/// others a name from the template; names are made unique with `-2`,
/// `-3`, ... suffixes. Nothing changes when naming is disabled. Untagged
/// nodes have no source, so `{source}` stays as written. Each renamed node
/// keeps its endpoint and reads back its new name (see
/// [`rename_faithful`]).
pub fn rename_v2ray_nodes(nodes: &[String], cfg: &NamingConfig, probe_cache: &ProbeCache) -> (r: Vec<
    String,
>)
    ensures
        r.deep_view() == renamed_v2ray(crate::text::string_views(nodes@), None, *cfg, probe_cache@),
        cfg.enabled ==> forall|k: int|
            0 <= k < nodes@.len() ==> #[trigger] rename_faithful(
                nodes@[k]@,
                v2ray_names(crate::text::string_views(nodes@), None, *cfg, probe_cache@)[k],
            ),
{
    rename_v2ray_with(nodes, None, cfg, probe_cache)
}

/// Renames tagged v2ray nodes like [`rename_v2ray_nodes`], with `{source}`
/// in the template filled with each node's source; each node keeps its
/// source.
pub fn rename_v2ray_tagged(nodes: &[TaggedNode], cfg: &NamingConfig, probe_cache: &ProbeCache) -> (r:
    Vec<TaggedNode>)
    ensures
        ({
            let tv = tag_views(nodes@);
            let links = tv.map_values(|t: TagView| t.0);
            let srcs = tv.map_values(|t: TagView| t.1);
            let renamed = renamed_v2ray(links, Some(srcs), *cfg, probe_cache@);
            &&& tag_views(r@) == Seq::new(tv.len(), |i: int| (renamed[i], srcs[i]))
            &&& cfg.enabled ==> forall|k: int|
                0 <= k < tv.len() ==> #[trigger] rename_faithful(
                    links[k],
                    v2ray_names(links, Some(srcs), *cfg, probe_cache@)[k],
                )
        }),
{
    let ghost tv = tag_views(nodes@);
    let mut links: Vec<String> = Vec::new();
    let mut srcs: Vec<String> = Vec::new();
    let mut i: usize = 0;
    while i < nodes.len()
        invariant
            i <= nodes.len(),
            tv == tag_views(nodes@),
            crate::text::string_views(links@) == tv.take(i as int).map_values(|t: TagView| t.0),
            crate::text::string_views(srcs@) == tv.take(i as int).map_values(|t: TagView| t.1),
        decreases nodes.len() - i,
    {
        let x = nodes[i].duplicate();
        proof {
            crate::text::lemma_string_views_push(links@, x.node);
            crate::text::lemma_string_views_push(srcs@, x.source);
            crate::text::lemma_map_take_push(tv, |t: TagView| t.0, i as int);
            crate::text::lemma_map_take_push(tv, |t: TagView| t.1, i as int);
        }
        links.push(x.node);
        srcs.push(x.source);
        i = i + 1;
    }
    assert(tv.take(nodes.len() as int) == tv);
    let ghost lv = tv.map_values(|t: TagView| t.0);
    let ghost sv = tv.map_values(|t: TagView| t.1);
    let renamed = rename_v2ray_with(links.as_slice(), Some(srcs.as_slice()), cfg, probe_cache);
    proof {
        crate::text::lemma_string_views(renamed);
    }
    let ghost rv = renamed_v2ray(lv, Some(sv), *cfg, probe_cache@);
    assert(rv.len() == tv.len());
    let mut out: Vec<TaggedNode> = Vec::new();
    let mut j: usize = 0;
    while j < renamed.len()
        invariant
            j <= renamed.len(),
            renamed.len() == nodes.len(),
            srcs.len() == nodes.len(),
            crate::text::string_views(renamed@) == rv,
            crate::text::string_views(srcs@) == sv,
            tv.len() == nodes.len(),
            tag_views(out@) == Seq::new(j as nat, |k: int| (rv[k], sv[k])),
        decreases renamed.len() - j,
    {
        let x = TaggedNode::new(renamed[j].clone(), srcs[j].as_str());
        proof {
            lemma_tag_views_push(out@, x);
            assert(x@ == (rv[j as int], sv[j as int]));
            assert(tag_views(out@).push(x@) =~= Seq::new((j + 1) as nat, |k: int| (rv[k], sv[k])));
        }
        out.push(x);
        j = j + 1;
    }
    out
}


/// The base names of a chunk's blocks: the template's name with the
/// block's index (from 1) within its chunk.
pub open spec fn block_bases(
    bs: Seq<Seq<char>>,
    source: Option<Seq<char>>,
    cfg: NamingConfig,
    cache: Map<(Seq<char>, u16), ProbeResult>,
) -> Seq<Seq<char>> {
    Seq::new(
        bs.len(),
        |j: int| with_source(built_name(cfg.template@, bs[j], (j + 1) as nat, cache), source),
    )
}

/// The sources of all items but the last, when the items are tagged.
pub open spec fn tags_drop_last(tags: Option<Seq<Seq<char>>>) -> Option<Seq<Seq<char>>> {
    match tags {
        Some(t) => Some(t.drop_last()),
        None => None,
    }
}

/// Renaming Clash chunks in order: the names used so far and the chunks
/// produced. A chunk without proxy blocks stays; otherwise each block gets
/// a unique name (unique across all chunks) and the chunk becomes a
/// document listing the renamed blocks.
pub open spec fn clash_rename(
    chunks: Seq<Seq<char>>,
    tags: Option<Seq<Seq<char>>>,
    cfg: NamingConfig,
    cache: Map<(Seq<char>, u16), ProbeResult>,
) -> (Seq<Seq<char>>, Seq<Seq<char>>)
    decreases chunks.len(),
{
    if chunks.len() == 0 {
        (seq![], seq![])
    } else {
        let (used, out) = clash_rename(chunks.drop_last(), tags_drop_last(tags), cfg, cache);
        let c = chunks.last();
        match crate::parser::clash_proxy_blocks(c) {
            None => (used, out.push(c)),
            Some(bs) => {
                let names = assign_names(used, block_bases(bs, tag_at(tags, chunks.len() - 1), cfg, cache));
                (
                    used + names,
                    out.push(
                        crate::parser::proxies_yaml(
                            Seq::new(bs.len(), |j: int| set_clash_name(bs[j], names[j])),
                        ),
                    ),
                )
            },
        }
    }
}

/// The renamed Clash chunks (see [`clash_rename`]); unchanged when naming
/// is disabled.
pub open spec fn renamed_clash(
    chunks: Seq<Seq<char>>,
    tags: Option<Seq<Seq<char>>>,
    cfg: NamingConfig,
    cache: Map<(Seq<char>, u16), ProbeResult>,
) -> Seq<Seq<char>> {
    if !cfg.enabled {
        chunks
    } else {
        clash_rename(chunks, tags, cfg, cache).1
    }
}

/// Renames the proxy blocks of a chunk, recording the names as used.
#[verifier::rlimit(40)]
fn rename_blocks(
    used: &mut Vec<Vec<char>>,
    bs: &Vec<Vec<char>>,
    source: Option<&[char]>,
    template: &[char],
    cfg: &NamingConfig,
    probe_cache: &ProbeCache,
) -> (r: Vec<Vec<char>>)
    requires
        template@ == cfg.template@,
    ensures
        ({
            let names = assign_names(
                views(old(used)@),
                block_bases(
                    views(bs@),
                    match source {
                        Some(x) => Some(x@),
                        None => None,
                    },
                    *cfg,
                    probe_cache@,
                ),
            );
            &&& views(final(used)@) == views(old(used)@) + names
            &&& views(r@) == Seq::new(bs@.len(), |j: int| set_clash_name(views(bs@)[j], names[j]))
        }),
{
    let ghost u0 = views(used@);
    let ghost bv = views(bs@);
    let ghost sv = match source {
        Some(x) => Some(x@),
        None => None,
    };
    let ghost bases = block_bases(bv, sv, *cfg, probe_cache@);
    let mut out: Vec<Vec<char>> = Vec::new();
    let mut j: usize = 0;
    assert(bases.take(0) =~= Seq::<Seq<char>>::empty());
    assert(u0 + assign_names(u0, bases.take(0)) =~= u0);
    assert(views(out@) =~= Seq::<Seq<char>>::empty());
    while j < bs.len()
        invariant
            j <= bs.len(),
            u0 == views(old(used)@),
            bv == views(bs@),
            sv == match source {
                Some(x) => Some(x@),
                None => None,
            },
            bases == block_bases(bv, sv, *cfg, probe_cache@),
            template@ == cfg.template@,
            views(used@) == u0 + assign_names(u0, bases.take(j as int)),
            views(out@) == Seq::new(
                j as nat,
                |k: int| set_clash_name(bv[k], assign_names(u0, bases.take(j as int))[k]),
            ),
        decreases bs.len() - j,
    {
        let built = build_name(template, bs[j].as_slice(), j + 1, probe_cache);
        let base = with_source_of(built, source);
        let ghost prev = assign_names(u0, bases.take(j as int));
        proof {
            assert(base@ == bases[j as int]);
            assert(bases.take(j + 1).drop_last() == bases.take(j as int));
            lemma_assign_names_len(u0, bases.take(j as int));
        }
        let name = unique_name_of(used, base);
        let renamed = set_clash_display_name(bs[j].as_slice(), name.as_slice());
        proof {
            crate::text::lemma_views_push(out@, renamed);
            let next = assign_names(u0, bases.take(j + 1));
            assert(next == prev.push(name@));
            assert(views(used@) =~= u0 + next);
            assert(views(out@.push(renamed)) =~= Seq::new(
                (j + 1) as nat,
                |k: int| set_clash_name(bv[k], next[k]),
            ));
        }
        out.push(renamed);
        j = j + 1;
    }
    assert(bases.take(bs.len() as int) == bases);
    out
}

/// Renames the proxy blocks of Clash documents, each tagged with
/// `sources[i]` when given.
fn rename_clash_with(
    chunks: &[String],
    sources: Option<&[String]>,
    cfg: &NamingConfig,
    probe_cache: &ProbeCache,
) -> (r: Vec<String>)
    requires
        sources matches Some(v) ==> v.len() == chunks.len(),
    ensures
        r.deep_view() == renamed_clash(
            crate::text::string_views(chunks@),
            tags_view(sources),
            *cfg,
            probe_cache@,
        ),
{
    let ghost cv = crate::text::string_views(chunks@);
    let ghost tags = tags_view(sources);
    let mut out: Vec<String> = Vec::new();
    if !cfg.enabled {
        let mut i: usize = 0;
        while i < chunks.len()
            invariant
                i <= chunks.len(),
                cv == crate::text::string_views(chunks@),
                crate::text::string_views(out@) == cv.take(i as int),
            decreases chunks.len() - i,
        {
            let x = chunks[i].clone();
            proof {
                crate::text::lemma_string_views_push(out@, x);
                assert(cv.take(i + 1) == cv.take(i as int).push(x@));
            }
            out.push(x);
            i = i + 1;
        }
        assert(cv.take(chunks.len() as int) == cv);
        proof {
            crate::text::lemma_string_views(out);
        }
        return out;
    }
    let template = to_chars(cfg.template.as_str());
    let mut used: Vec<Vec<char>> = Vec::new();
    let mut i: usize = 0;
    assert(cv.take(0) =~= Seq::<Seq<char>>::empty());
    assert(views(used@) =~= Seq::<Seq<char>>::empty());
    assert(crate::text::string_views(out@) =~= Seq::<Seq<char>>::empty());
    while i < chunks.len()
        invariant
            i <= chunks.len(),
            cfg.enabled,
            cv == crate::text::string_views(chunks@),
            tags == tags_view(sources),
            sources matches Some(v) ==> v.len() == chunks.len(),
            template@ == cfg.template@,
            views(used@) == clash_rename(cv.take(i as int), tags_take(tags, i as int), *cfg, probe_cache@).0,
            crate::text::string_views(out@) == clash_rename(
                cv.take(i as int),
                tags_take(tags, i as int),
                *cfg,
                probe_cache@,
            ).1,
        decreases chunks.len() - i,
    {
        proof {
            assert(cv.take(i + 1).drop_last() == cv.take(i as int));
            assert(cv.take(i + 1).last() == chunks[i as int]@);
            match tags {
                Some(t) => {
                    assert(t.take(i + 1).drop_last() == t.take(i as int));
                    assert(t.take(i + 1)[i as int] == t[i as int]);
                },
                None => {},
            }
            assert(tags_drop_last(tags_take(tags, i + 1)) == tags_take(tags, i as int));
            assert(tag_at(tags_take(tags, i + 1), i as int) == tag_at(tags, i as int));
        }
        let x = match crate::parser::extract_clash_proxy_blocks(chunks[i].as_str()) {
            None => chunks[i].clone(),
            Some(blocks) => {
                proof {
                    crate::text::lemma_string_views(blocks);
                }
                let bs = crate::parser::to_char_vecs(blocks.as_slice());
                let renamed = match sources {
                    Some(v) => {
                        let src = to_chars(v[i].as_str());
                        rename_blocks(&mut used, &bs, Some(src.as_slice()), template.as_slice(), cfg, probe_cache)
                    },
                    None => rename_blocks(&mut used, &bs, None, template.as_slice(), cfg, probe_cache),
                };
                let rs = crate::parser::to_strings(&renamed);
                proof {
                    crate::text::lemma_string_views(rs);
                }
                crate::parser::build_clash_proxies(rs.as_slice())
            },
        };
        proof {
            crate::text::lemma_string_views_push(out@, x);
        }
        out.push(x);
        i = i + 1;
    }
    assert(cv.take(chunks.len() as int) == cv);
    proof {
        match tags {
            Some(t) => {
                assert(t.take(chunks.len() as int) == t);
            },
            None => {},
        }
        crate::text::lemma_string_views(out);
    }
    out
}

/// The sources of the first `n` items, when the items are tagged.
pub open spec fn tags_take(tags: Option<Seq<Seq<char>>>, n: int) -> Option<Seq<Seq<char>>> {
    match tags {
        Some(t) => Some(t.take(n)),
        None => None,
    }
}

/// Renames the proxy blocks of Clash documents (see [`renamed_clash`]):
/// each block's name comes from the template with its index within its
/// chunk, made unique across all chunks. Untagged documents have no source,
/// so `{source}` stays as written.
pub fn rename_clash_chunks(chunks: &[String], cfg: &NamingConfig, probe_cache: &ProbeCache) -> (r: Vec<
    String,
>)
    ensures
        r.deep_view() == renamed_clash(crate::text::string_views(chunks@), None, *cfg, probe_cache@),
{
    rename_clash_with(chunks, None, cfg, probe_cache)
}

/// Renames the proxy blocks of tagged Clash documents like
/// [`rename_clash_chunks`], with `{source}` in the template filled with each
/// document's source; each document keeps its source.
pub fn rename_clash_tagged(chunks: &[TaggedChunk], cfg: &NamingConfig, probe_cache: &ProbeCache) -> (r:
    Vec<TaggedChunk>)
    ensures
        ({
            let cv = chunk_views(chunks@);
            let bodies = cv.map_values(|t: TagView| t.0);
            let srcs = cv.map_values(|t: TagView| t.1);
            let renamed = renamed_clash(bodies, Some(srcs), *cfg, probe_cache@);
            &&& renamed.len() == cv.len()
            &&& chunk_views(r@) == Seq::new(cv.len(), |i: int| (renamed[i], srcs[i]))
        }),
{
    let ghost cv = chunk_views(chunks@);
    let mut bodies: Vec<String> = Vec::new();
    let mut srcs: Vec<String> = Vec::new();
    let mut i: usize = 0;
    while i < chunks.len()
        invariant
            i <= chunks.len(),
            cv == chunk_views(chunks@),
            crate::text::string_views(bodies@) == cv.take(i as int).map_values(|t: TagView| t.0),
            crate::text::string_views(srcs@) == cv.take(i as int).map_values(|t: TagView| t.1),
        decreases chunks.len() - i,
    {
        let x = chunks[i].duplicate();
        proof {
            crate::text::lemma_string_views_push(bodies@, x.body);
            crate::text::lemma_string_views_push(srcs@, x.source);
            crate::text::lemma_map_take_push(cv, |t: TagView| t.0, i as int);
            crate::text::lemma_map_take_push(cv, |t: TagView| t.1, i as int);
        }
        bodies.push(x.body);
        srcs.push(x.source);
        i = i + 1;
    }
    assert(cv.take(chunks.len() as int) == cv);
    let ghost bv = cv.map_values(|t: TagView| t.0);
    let ghost sv = cv.map_values(|t: TagView| t.1);
    let renamed = rename_clash_with(bodies.as_slice(), Some(srcs.as_slice()), cfg, probe_cache);
    proof {
        crate::text::lemma_string_views(renamed);
        lemma_clash_rename_len(bv, Some(sv), *cfg, probe_cache@);
    }
    let ghost rv = renamed_clash(bv, Some(sv), *cfg, probe_cache@);
    let mut out: Vec<TaggedChunk> = Vec::new();
    let mut j: usize = 0;
    while j < renamed.len()
        invariant
            j <= renamed.len(),
            renamed.len() == chunks.len(),
            srcs.len() == chunks.len(),
            crate::text::string_views(renamed@) == rv,
            crate::text::string_views(srcs@) == sv,
            cv.len() == chunks.len(),
            chunk_views(out@) == Seq::new(j as nat, |k: int| (rv[k], sv[k])),
        decreases renamed.len() - j,
    {
        let x = TaggedChunk::new(renamed[j].clone(), srcs[j].as_str());
        proof {
            lemma_chunk_views_push(out@, x);
            assert(x@ == (rv[j as int], sv[j as int]));
            assert(chunk_views(out@).push(x@) =~= Seq::new((j + 1) as nat, |k: int| (rv[k], sv[k])));
        }
        out.push(x);
        j = j + 1;
    }
    out
}

/// Renaming keeps the number of documents.
pub proof fn lemma_clash_rename_len(
    chunks: Seq<Seq<char>>,
    tags: Option<Seq<Seq<char>>>,
    cfg: NamingConfig,
    cache: Map<(Seq<char>, u16), ProbeResult>,
)
    ensures
        clash_rename(chunks, tags, cfg, cache).1.len() == chunks.len(),
        renamed_clash(chunks, tags, cfg, cache).len() == chunks.len(),
    decreases chunks.len(),
{
    if chunks.len() > 0 {
        lemma_clash_rename_len(chunks.drop_last(), tags_drop_last(tags), cfg, cache);
    }
}

} // verus!
