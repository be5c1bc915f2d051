//! What setting a display name on a share link keeps and gives back.
use vstd::prelude::*;
use crate::foreign::{is_utf8, lossy_text};
use crate::naming::{
    latency_text,
    fragment_of, fragment_text, given_name, is_unreserved, law_fragment_roundtrip, pct_bytes,
    pct_char, set_v2ray_name,
};
use crate::probe::{v2ray_endpoint, ProbeResult};
use crate::text::{
    before_first, dec, digit_char, first_of, has_char, hex_upper, is_ws, lemma_first_of,
    lemma_utf8_injective, second_piece, starts_with, trim, trim_end, trim_start, utf8_bytes,
};

verus! {

/// A character that can stand in an encoded fragment.
pub open spec fn fragment_char(c: char) -> bool {
    is_unreserved(c) || c == '%'
}

proof fn lemma_hex_upper(d: int)
    requires
        0 <= d < 16,
    ensures
        is_unreserved(hex_upper(d)),
{
    if d < 10 {
        assert(48 <= digit_char(d) as u32 <= 57);
    }
}

proof fn lemma_pct_bytes_chars(bs: Seq<u8>)
    ensures
        forall|k: int| 0 <= k < pct_bytes(bs).len() ==> fragment_char(#[trigger] pct_bytes(bs)[k]),
    decreases bs.len(),
{
    if bs.len() > 0 {
        lemma_pct_bytes_chars(bs.drop_first());
        lemma_hex_upper((bs[0] / 16) as int);
        lemma_hex_upper((bs[0] % 16) as int);
        let head = seq!['%', hex_upper((bs[0] / 16) as int), hex_upper((bs[0] % 16) as int)];
        let rest = pct_bytes(bs.drop_first());
        assert(pct_bytes(bs) == head + rest);
        assert forall|k: int| 0 <= k < pct_bytes(bs).len() implies fragment_char(
            #[trigger] pct_bytes(bs)[k],
        ) by {
            if k >= 3 {
                assert(pct_bytes(bs)[k] == rest[k - 3]);
            }
        }
    }
}

/// An encoded fragment consists of fragment characters only.
proof fn lemma_fragment_chars(s: Seq<char>)
    ensures
        forall|k: int| 0 <= k < fragment_of(s).len() ==> fragment_char(#[trigger] fragment_of(s)[k]),
    decreases s.len(),
{
    if s.len() > 0 {
        lemma_fragment_chars(s.drop_first());
        let head = pct_char(s[0]);
        let rest = fragment_of(s.drop_first());
        assert(fragment_of(s) == head + rest);
        if !is_unreserved(s[0]) {
            lemma_pct_bytes_chars(crate::text::utf8_of(s[0]));
        }
        assert forall|k: int| 0 <= k < fragment_of(s).len() implies fragment_char(
            #[trigger] fragment_of(s)[k],
        ) by {
            if k < head.len() {
                assert(fragment_of(s)[k] == head[k]);
            } else {
                assert(fragment_of(s)[k] == rest[k - head.len()]);
            }
        }
    }
}

proof fn lemma_trim_start_shape(s: Seq<char>)
    ensures
        trim_start(s).len() <= s.len(),
        trim_start(s) == s.skip(s.len() - trim_start(s).len()),
        trim_start(s).len() > 0 ==> !is_ws(trim_start(s)[0]),
    decreases s.len(),
{
    if s.len() > 0 && is_ws(s[0]) {
        lemma_trim_start_shape(s.drop_first());
        assert(s.drop_first().skip(s.drop_first().len() - trim_start(s.drop_first()).len()) =~= s.skip(
            s.len() - trim_start(s).len(),
        ));
    } else {
        assert(s.skip(0) =~= s);
    }
}

proof fn lemma_trim_end_shape(s: Seq<char>)
    ensures
        trim_end(s).len() <= s.len(),
        trim_end(s) == s.take(trim_end(s).len() as int),
        trim_end(s).len() > 0 ==> !is_ws(trim_end(s).last()),
    decreases s.len(),
{
    if s.len() > 0 && is_ws(s.last()) {
        lemma_trim_end_shape(s.drop_last());
        assert(s.drop_last().take(trim_end(s.drop_last()).len() as int) =~= s.take(
            trim_end(s).len() as int,
        ));
    } else {
        assert(s.take(s.len() as int) =~= s);
    }
}

/// A trimmed text is empty or starts and ends with no whitespace.
pub proof fn lemma_trim_shape(s: Seq<char>)
    ensures
        trim(s).len() > 0 ==> !is_ws(trim(s)[0]) && !is_ws(trim(s).last()),
{
    lemma_trim_start_shape(s);
    lemma_trim_end_shape(trim_start(s));
    if trim(s).len() > 0 {
        assert(trim(s)[0] == trim_start(s)[0]);
    }
}

pub proof fn lemma_trim_plain(s: Seq<char>)
    requires
        s.len() == 0 || (!is_ws(s[0]) && !is_ws(s.last())),
    ensures
        trim(s) == s,
{
    assert(trim_start(s) == s);
    assert(trim_end(s) == s);
}

/// Text before the first `#` of `x + z`, when `x` has no `#` and `z` is
/// empty or starts with `#`.
proof fn lemma_before_hash(x: Seq<char>, z: Seq<char>)
    requires
        !has_char(x, '#'),
        z.len() == 0 || z[0] == '#',
    ensures
        before_first(x + z, '#') == x,
        first_of(x + z, '#') == x.len(),
{
    let s = x + z;
    lemma_first_of(s, '#');
    let f = first_of(s, '#');
    if f < x.len() {
        assert(s[f] == x[f]);
        assert(has_char(x, '#'));
    }
    if f > x.len() {
        assert(s[x.len() as int] == z[0]);
    }
    assert(s.take(f) =~= x);
}

/// The parts of a link after a name is set on it (not vmess): the text
/// before its first `#`, then `#` and the encoded name.
proof fn lemma_named_link(t: Seq<char>, name: Seq<char>)
    requires
        t == trim(t),
    ensures
        ({
            let f = first_of(t, '#');
            let b = before_first(t, '#');
            let fr = fragment_of(name);
            let u = b + "#"@ + fr;
            &&& 0 <= f <= t.len()
            &&& b.len() == f
            &&& !has_char(b, '#')
            &&& !has_char(fr, '#')
            &&& trim(u) == u
            &&& first_of(u, '#') == f
            &&& second_piece(u, '#') == Some(fr)
            &&& forall|k: int| 0 <= k < f ==> #[trigger] u[k] == t[k]
            &&& u[f] == '#'
            &&& (f < t.len() ==> t[f] == '#')
        }),
{
    reveal_strlit("#");
    let f = first_of(t, '#');
    let b = before_first(t, '#');
    let fr = fragment_of(name);
    let u = b + "#"@ + fr;
    lemma_first_of(t, '#');
    lemma_fragment_chars(name);
    assert(!has_char(b, '#')) by {
        if has_char(b, '#') {
            let k = choose|k: int| 0 <= k < b.len() && b[k] == '#';
            assert(t[k] == b[k]);
        }
    }
    assert(!has_char(fr, '#')) by {
        if has_char(fr, '#') {
            let k = choose|k: int| 0 <= k < fr.len() && fr[k] == '#';
            assert(fragment_char(fr[k]));
        }
    }
    lemma_before_hash(b, "#"@ + fr);
    assert(u =~= b + ("#"@ + fr));
    // u starts and ends with no whitespace
    lemma_trim_shape(t);
    if f > 0 {
        assert(u[0] == t[0]);
    }
    if fr.len() > 0 {
        assert(u.last() == fr.last());
        assert(fragment_char(fr[fr.len() - 1]));
    }
    lemma_trim_plain(u);
    assert(u.skip(f + 1) =~= fr);
    lemma_before_hash(fr, Seq::<char>::empty());
    assert(fr + Seq::<char>::empty() =~= fr);
    assert forall|k: int| 0 <= k < f implies #[trigger] u[k] == t[k] by {
        assert(u[k] == b[k]);
    }
}

/// A prefix with no `#` starts the named link exactly when it starts the
/// link.
proof fn lemma_named_prefix(t: Seq<char>, name: Seq<char>, p: Seq<char>)
    requires
        t == trim(t),
        !has_char(p, '#'),
    ensures
        starts_with(before_first(t, '#') + "#"@ + fragment_of(name), p) == starts_with(t, p),
{
    lemma_named_link(t, name);
    let f = first_of(t, '#');
    let u = before_first(t, '#') + "#"@ + fragment_of(name);
    if p.len() <= f {
        assert(u.take(p.len() as int) =~= t.take(p.len() as int));
    } else {
        if starts_with(u, p) {
            assert(p[f] == u.take(p.len() as int)[f]);
            assert(has_char(p, '#'));
        }
        if starts_with(t, p) {
            assert(f < t.len());
            assert(p[f] == t.take(p.len() as int)[f]);
            assert(has_char(p, '#'));
        }
    }
}

/// After a prefix of `n` characters with no `#`, the named link and the
/// link agree up to their first `#`.
proof fn lemma_named_rest(t: Seq<char>, name: Seq<char>, p: Seq<char>)
    requires
        t == trim(t),
        !has_char(p, '#'),
        starts_with(t, p),
    ensures
        before_first((before_first(t, '#') + "#"@ + fragment_of(name)).skip(p.len() as int), '#')
            == before_first(t.skip(p.len() as int), '#'),
{
    lemma_named_link(t, name);
    let f = first_of(t, '#');
    let b = before_first(t, '#');
    let u = b + "#"@ + fragment_of(name);
    let n = p.len() as int;
    if f < n {
        assert(t[f] == t.take(n)[f]);
        assert(has_char(p, '#'));
    }
    assert(!has_char(b.skip(n), '#')) by {
        if has_char(b.skip(n), '#') {
            let k = choose|k: int| 0 <= k < b.skip(n).len() && b.skip(n)[k] == '#';
            assert(b[k + n] == '#');
        }
    }
    assert(u.skip(n) =~= b.skip(n) + u.skip(f));
    lemma_before_hash(b.skip(n), u.skip(f));
    assert(t.skip(n) =~= b.skip(n) + t.skip(f));
    lemma_before_hash(b.skip(n), t.skip(f));
}

/// Setting a display name on a link other than `vmess://` and `ssr://`
/// keeps its endpoint: the name goes into the fragment, which no endpoint
/// reads. (For `vmess://` links the same is stated by
/// [`crate::naming::set_v2ray_display_name`], whose proof needs the base64
/// and JSON facts that hold at its calls.)
pub proof fn law_set_name_keeps_endpoint(node: Seq<char>, name: Seq<char>)
    requires
        !starts_with(trim(node), "vmess://"@),
        !starts_with(trim(node), "ssr://"@),
    ensures
        v2ray_endpoint(set_v2ray_name(node, name)) == v2ray_endpoint(node),
{
    reveal_strlit("ss://");
    reveal_strlit("ssr://");
    reveal_strlit("vmess://");
    reveal_strlit("vless://");
    reveal_strlit("trojan://");
    reveal_strlit("hysteria2://");
    reveal_strlit("hy2://");
    reveal_strlit("hysteria://");
    reveal_strlit("tuic://");
    let t = trim(node);
    lemma_trim_shape(node);
    if t.len() > 0 {
        lemma_trim_plain(t);
    }
    assert(t == trim(t));
    let u = before_first(t, '#') + "#"@ + fragment_of(name);
    assert(set_v2ray_name(node, name) == u);
    lemma_named_link(t, name);
    assert(trim(u) == u);
    let ps = seq![
        "ss://"@,
        "vmess://"@,
        "vless://"@,
        "trojan://"@,
        "hysteria2://"@,
        "hy2://"@,
        "hysteria://"@,
        "tuic://"@,
        "ssr://"@,
    ];
    assert forall|i: int| 0 <= i < ps.len() implies !has_char(#[trigger] ps[i], '#') by {
        let p = ps[i];
        if has_char(p, '#') {
            let k = choose|k: int| 0 <= k < p.len() && p[k] == '#';
        }
    }
    assert forall|i: int| 0 <= i < ps.len() implies starts_with(u, #[trigger] ps[i]) == starts_with(
        t,
        ps[i],
    ) by {
        lemma_named_prefix(t, name, ps[i]);
    }
    assert(starts_with(u, ps[0]) == starts_with(t, ps[0]));
    assert(starts_with(u, ps[1]) == starts_with(t, ps[1]));
    assert(starts_with(u, ps[2]) == starts_with(t, ps[2]));
    assert(starts_with(u, ps[3]) == starts_with(t, ps[3]));
    assert(starts_with(u, ps[4]) == starts_with(t, ps[4]));
    assert(starts_with(u, ps[5]) == starts_with(t, ps[5]));
    assert(starts_with(u, ps[6]) == starts_with(t, ps[6]));
    assert(starts_with(u, ps[7]) == starts_with(t, ps[7]));
    assert(starts_with(u, ps[8]) == starts_with(t, ps[8]));
    if starts_with(t, ps[0]) {
        assert(!has_char(ps[0], '#'));
        lemma_named_rest(t, name, ps[0]);
    } else if starts_with(t, ps[2]) {
        assert(!has_char(ps[2], '#'));
        lemma_named_rest(t, name, ps[2]);
    } else if starts_with(t, ps[3]) {
        assert(!has_char(ps[3], '#'));
        lemma_named_rest(t, name, ps[3]);
    } else if starts_with(t, ps[4]) {
        assert(!has_char(ps[4], '#'));
        lemma_named_rest(t, name, ps[4]);
    } else if starts_with(t, ps[5]) {
        assert(!has_char(ps[5], '#'));
        lemma_named_rest(t, name, ps[5]);
    } else if starts_with(t, ps[6]) {
        assert(!has_char(ps[6], '#'));
        lemma_named_rest(t, name, ps[6]);
    } else if starts_with(t, ps[7]) {
        assert(!has_char(ps[7], '#'));
        lemma_named_rest(t, name, ps[7]);
    }
}

/// A display name set on a link other than `vmess://` reads back: the name
/// the renamed link comes with is the name that was set (when it is not
/// empty). (For `vmess://` links see
/// [`crate::naming::set_v2ray_display_name`].)
pub proof fn law_set_name_reads_back(node: Seq<char>, name: Seq<char>)
    requires
        !starts_with(trim(node), "vmess://"@),
        name.len() > 0,
    ensures
        given_name(set_v2ray_name(node, name)) == Some(name),
{
    reveal_strlit("vmess://");
    let t = trim(node);
    lemma_trim_shape(node);
    if t.len() > 0 {
        lemma_trim_plain(t);
    }
    let u = before_first(t, '#') + "#"@ + fragment_of(name);
    assert(set_v2ray_name(node, name) == u);
    lemma_named_link(t, name);
    assert(!has_char("vmess://"@, '#')) by {
        if has_char("vmess://"@, '#') {
            let k = choose|k: int| 0 <= k < "vmess://"@.len() && "vmess://"@[k] == '#';
        }
    }
    lemma_named_prefix(t, name, "vmess://"@);
    law_fragment_roundtrip(name);
    assert(is_utf8(utf8_bytes(name)));
    let cs = choose|cs: Seq<char>| #[trigger] utf8_bytes(cs) == utf8_bytes(name);
    lemma_utf8_injective(cs, name);
    assert(lossy_text(utf8_bytes(name)) == name);
    assert(fragment_text(fragment_of(name)) == name);
}


/// The latency shown in a name: `{ms}ms` when the endpoint was probed and a
/// latency recorded, and `-` exactly when there is no latency (not probed,
/// or probed without one).
pub proof fn law_latency_text(r: Option<ProbeResult>)
    ensures
        latency_text(None) == "-"@,
        (latency_text(r) == "-"@) <==> (match r {
            Some(p) => p.latency_ms is None,
            None => true,
        }),
        (match r {
            Some(p) => match p.latency_ms {
                Some(ms) => latency_text(r) == dec(ms as nat) + "ms"@,
                None => true,
            },
            None => true,
        }),
{
    reveal_strlit("-");
    reveal_strlit("ms");
    if let Some(p) = r {
        if let Some(ms) = p.latency_ms {
            crate::text::lemma_dec_len(ms as nat);
            assert((dec(ms as nat) + "ms"@).len() >= 3);
        }
    }
}

} // verus!
