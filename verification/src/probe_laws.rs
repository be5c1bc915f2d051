//! What reading a share link's endpoint guarantees.
use vstd::prelude::*;
use crate::naming::{lemma_dec_value, lemma_digit_value};
use crate::probe::{host_port, ssr_body_endpoint, uri_authority, userinfo_host_port, v2ray_endpoint};
use crate::text::{
    after_last, all_digits, before_first, dec, first_of, has_char, is_digit, is_ws, last_of,
    lemma_dec_len, lemma_first_of, lemma_last_of_before, parse_u16, second_piece, starts_with, trim,
    trim_end, trim_start,
};

verus! {

/// `scheme` + `userinfo@host:port`, the port in decimal.
pub open spec fn uri_link(scheme: Seq<char>, userinfo: Seq<char>, host: Seq<char>, port: u16) -> Seq<char> {
    scheme + userinfo + "@"@ + host + ":"@ + dec(port as nat)
}

/// A host as it stands in a URI: not empty, no `@`, `#`, `?` or `:`, not
/// bracketed, and no whitespace at either end.
pub open spec fn plain_host(h: Seq<char>) -> bool {
    &&& h.len() > 0
    &&& !has_char(h, '@')
    &&& !has_char(h, '#')
    &&& !has_char(h, '?')
    &&& !has_char(h, ':')
    &&& h[0] != '['
    &&& !is_ws(h[0])
    &&& !is_ws(h.last())
}

proof fn lemma_dec_digits(n: nat)
    ensures
        all_digits(dec(n)),
        dec(n).len() >= 1,
    decreases n,
{
    lemma_dec_len(n);
    if n < 10 {
        lemma_digit_value(n as int);
    } else {
        lemma_dec_digits(n / 10);
        lemma_digit_value((n % 10) as int);
        assert forall|i: int| 0 <= i < dec(n).len() implies is_digit(#[trigger] dec(n)[i]) by {
            if i < dec(n / 10).len() {
                assert(dec(n)[i] == dec(n / 10)[i]);
            }
        }
    }
}

/// A port written in decimal parses back.
proof fn lemma_parse_dec(p: u16)
    ensures
        parse_u16(dec(p as nat)) == Some(p),
{
    lemma_dec_digits(p as nat);
    lemma_dec_value(p as nat);
    assert(is_digit(dec(p as nat)[0]));
}

proof fn lemma_before_first_none(x: Seq<char>, c: char)
    requires
        !has_char(x, c),
    ensures
        before_first(x, c) == x,
{
    lemma_first_of(x, c);
    assert(x.take(x.len() as int) =~= x);
}

proof fn lemma_no_char_concat(a: Seq<char>, b: Seq<char>, c: char)
    requires
        !has_char(a, c),
        !has_char(b, c),
    ensures
        !has_char(a + b, c),
{
    if has_char(a + b, c) {
        let k = choose|k: int| 0 <= k < (a + b).len() && (a + b)[k] == c;
        if k < a.len() {
            assert(a[k] == c);
        } else {
            assert(b[k - a.len()] == c);
        }
    }
}

proof fn lemma_digits_no(d: Seq<char>, c: char)
    requires
        all_digits(d),
        !is_digit(c),
    ensures
        !has_char(d, c),
{
    if has_char(d, c) {
        let k = choose|k: int| 0 <= k < d.len() && d[k] == c;
        assert(is_digit(d[k]));
    }
}

/// The text after the last `c` of `x + [c] + y`, when `y` has no `c`.
proof fn lemma_after_last_sep(x: Seq<char>, c: char, y: Seq<char>)
    requires
        !has_char(y, c),
    ensures
        after_last(x + seq![c] + y, c) == y,
        last_of(x + seq![c] + y, c) == x.len(),
{
    let s = x + seq![c] + y;
    lemma_last_of_before(s, c, s.len() as int);
    let l = last_of(s, c);
    assert(s[x.len() as int] == c);
    if l > x.len() {
        assert(y[l - x.len() - 1] == c);
    }
    if l < x.len() {
        assert(l < x.len() < s.len());
    }
    assert(l == x.len());
    assert(s.skip(l + 1) =~= y);
}

/// The endpoint of `userinfo@host:port`, with nothing after the port.
proof fn lemma_authority(u: Seq<char>, h: Seq<char>, p: u16)
    requires
        !has_char(u, '@'),
        !has_char(u, '#'),
        !has_char(u, '?'),
        plain_host(h),
    ensures
        uri_authority(u + "@"@ + h + ":"@ + dec(p as nat)) == Some((h, p)),
{
    reveal_strlit("@");
    reveal_strlit(":");
    let d = dec(p as nat);
    lemma_dec_digits(p as nat);
    let hd = h + ":"@ + d;
    let r = u + "@"@ + hd;
    assert(r =~= u + "@"@ + h + ":"@ + d);
    lemma_digits_no(d, '#');
    lemma_digits_no(d, '?');
    lemma_digits_no(d, '@');
    lemma_digits_no(d, ':');
    assert(!has_char(":"@, '#') && !has_char(":"@, '?') && !has_char(":"@, '@'));
    assert(!has_char("@"@, '#') && !has_char("@"@, '?'));
    lemma_no_char_concat(h, ":"@, '#');
    lemma_no_char_concat(h + ":"@, d, '#');
    lemma_no_char_concat(h, ":"@, '?');
    lemma_no_char_concat(h + ":"@, d, '?');
    lemma_no_char_concat(h, ":"@, '@');
    lemma_no_char_concat(h + ":"@, d, '@');
    assert(h + ":"@ + d =~= hd);
    lemma_no_char_concat(u, "@"@, '#');
    lemma_no_char_concat(u + "@"@, hd, '#');
    lemma_no_char_concat(u, "@"@, '?');
    lemma_no_char_concat(u + "@"@, hd, '?');
    assert(u + "@"@ + hd =~= r);
    lemma_before_first_none(r, '#');
    lemma_before_first_none(r, '?');
    assert(u + seq!['@'] + hd =~= r);
    lemma_after_last_sep(u, '@', hd);
    // host_port(hd)
    assert(trim_start(hd) == hd);
    assert(hd.last() == d.last());
    assert(is_digit(d[d.len() - 1]));
    assert(trim_end(hd) == hd);
    assert(trim(hd) == hd);
    assert(h + seq![':'] + d =~= hd);
    lemma_after_last_sep(h, ':', d);
    assert(hd.take(h.len() as int) =~= h);
    assert(trim_start(h) == h);
    assert(trim_end(h) == h);
    assert(hd.skip((h.len() + 1) as int) =~= d);
    assert(trim_start(d) == d);
    assert(trim_end(d) == d);
    lemma_parse_dec(p);
    assert(hd[0] == h[0]);
    assert(host_port(hd) == Some((h, p)));
}

/// `scheme + rest` is already trimmed when the scheme starts without
/// whitespace and `rest` ends in a digit.
proof fn lemma_link_trimmed(scheme: Seq<char>, rest: Seq<char>)
    requires
        scheme.len() > 0,
        !is_ws(scheme[0]),
        rest.len() > 0,
        is_digit(rest.last()),
    ensures
        trim(scheme + rest) == scheme + rest,
        (scheme + rest).skip(scheme.len() as int) == rest,
        (scheme + rest).take(scheme.len() as int) == scheme,
{
    let l = scheme + rest;
    assert(l[0] == scheme[0]);
    assert(l.last() == rest.last());
    assert(trim_start(l) == l);
    assert(trim_end(l) == l);
    assert(l.skip(scheme.len() as int) =~= rest);
    assert(l.take(scheme.len() as int) =~= scheme);
}

/// The text after the scheme: `userinfo@host:port`, with no fragment or
/// query to cut, names the host and the port.
proof fn lemma_rest_endpoint(u: Seq<char>, h: Seq<char>, p: u16)
    requires
        !has_char(u, '@'),
        !has_char(u, '#'),
        !has_char(u, '?'),
        plain_host(h),
    ensures
        ({
            let rest = u + "@"@ + h + ":"@ + dec(p as nat);
            &&& before_first(before_first(rest, '#'), '?') == rest
            &&& uri_authority(rest) == Some((h, p))
            &&& userinfo_host_port(rest) == Some((h, p))
            &&& has_char(rest, '@')
            &&& rest.len() > 0
            &&& is_digit(rest.last())
        }),
{
    reveal_strlit("@");
    reveal_strlit(":");
    let d = dec(p as nat);
    lemma_dec_digits(p as nat);
    let rest = u + "@"@ + h + ":"@ + d;
    lemma_authority(u, h, p);
    lemma_digits_no(d, '#');
    lemma_digits_no(d, '?');
    assert(!has_char(":"@, '#') && !has_char(":"@, '?'));
    assert(!has_char("@"@, '#') && !has_char("@"@, '?'));
    lemma_no_char_concat(u, "@"@, '#');
    lemma_no_char_concat(u + "@"@, h, '#');
    lemma_no_char_concat(u + "@"@ + h, ":"@, '#');
    lemma_no_char_concat(u + "@"@ + h + ":"@, d, '#');
    lemma_no_char_concat(u, "@"@, '?');
    lemma_no_char_concat(u + "@"@, h, '?');
    lemma_no_char_concat(u + "@"@ + h, ":"@, '?');
    lemma_no_char_concat(u + "@"@ + h + ":"@, d, '?');
    lemma_before_first_none(rest, '#');
    lemma_before_first_none(rest, '?');
    assert(rest[u.len() as int] == '@');
    assert(rest.last() == d.last());
    assert(is_digit(d[d.len() - 1]));
}

/// A link that starts with `vless://` is read by that scheme's rule.
proof fn lemma_scheme_vless(l: Seq<char>)
    requires
        starts_with(l, "vless://"@),
    ensures
        !starts_with(l, "ss://"@),
        !starts_with(l, "vmess://"@),
{
    reveal_strlit("vless://");
    reveal_strlit("ss://");
    reveal_strlit("vmess://");
    assert(!starts_with(l, "ss://"@)) by {
        if starts_with(l, "ss://"@) {
            assert(l.take(5)[0] == l[0]);
            assert(l.take(8)[0] == l[0]);
        }
    }
    assert(!starts_with(l, "vmess://"@)) by {
        if starts_with(l, "vmess://"@) {
            assert(l.take(8)[1] == l[1]);
            assert(l.take(8)[1] == l[1]);
        }
    }
}

/// A link that starts with `trojan://` is read by that scheme's rule.
proof fn lemma_scheme_trojan(l: Seq<char>)
    requires
        starts_with(l, "trojan://"@),
    ensures
        !starts_with(l, "ss://"@),
        !starts_with(l, "vmess://"@),
        !starts_with(l, "vless://"@),
{
    reveal_strlit("trojan://");
    reveal_strlit("ss://");
    reveal_strlit("vmess://");
    reveal_strlit("vless://");
    assert(!starts_with(l, "ss://"@)) by {
        if starts_with(l, "ss://"@) {
            assert(l.take(5)[0] == l[0]);
            assert(l.take(9)[0] == l[0]);
        }
    }
    assert(!starts_with(l, "vmess://"@)) by {
        if starts_with(l, "vmess://"@) {
            assert(l.take(8)[0] == l[0]);
            assert(l.take(9)[0] == l[0]);
        }
    }
    assert(!starts_with(l, "vless://"@)) by {
        if starts_with(l, "vless://"@) {
            assert(l.take(8)[0] == l[0]);
            assert(l.take(9)[0] == l[0]);
        }
    }
}

/// A link that starts with `tuic://` is read by that scheme's rule.
proof fn lemma_scheme_tuic(l: Seq<char>)
    requires
        starts_with(l, "tuic://"@),
    ensures
        !starts_with(l, "ss://"@),
        !starts_with(l, "vmess://"@),
        !starts_with(l, "vless://"@),
        !starts_with(l, "trojan://"@),
        !starts_with(l, "hysteria2://"@),
        !starts_with(l, "hy2://"@),
        !starts_with(l, "hysteria://"@),
{
    reveal_strlit("tuic://");
    reveal_strlit("ss://");
    reveal_strlit("vmess://");
    reveal_strlit("vless://");
    reveal_strlit("trojan://");
    reveal_strlit("hysteria2://");
    reveal_strlit("hy2://");
    reveal_strlit("hysteria://");
    assert(!starts_with(l, "ss://"@)) by {
        if starts_with(l, "ss://"@) {
            assert(l.take(5)[0] == l[0]);
            assert(l.take(7)[0] == l[0]);
        }
    }
    assert(!starts_with(l, "vmess://"@)) by {
        if starts_with(l, "vmess://"@) {
            assert(l.take(8)[0] == l[0]);
            assert(l.take(7)[0] == l[0]);
        }
    }
    assert(!starts_with(l, "vless://"@)) by {
        if starts_with(l, "vless://"@) {
            assert(l.take(8)[0] == l[0]);
            assert(l.take(7)[0] == l[0]);
        }
    }
    assert(!starts_with(l, "trojan://"@)) by {
        if starts_with(l, "trojan://"@) {
            assert(l.take(9)[1] == l[1]);
            assert(l.take(7)[1] == l[1]);
        }
    }
    assert(!starts_with(l, "hysteria2://"@)) by {
        if starts_with(l, "hysteria2://"@) {
            assert(l.take(12)[0] == l[0]);
            assert(l.take(7)[0] == l[0]);
        }
    }
    assert(!starts_with(l, "hy2://"@)) by {
        if starts_with(l, "hy2://"@) {
            assert(l.take(6)[0] == l[0]);
            assert(l.take(7)[0] == l[0]);
        }
    }
    assert(!starts_with(l, "hysteria://"@)) by {
        if starts_with(l, "hysteria://"@) {
            assert(l.take(11)[0] == l[0]);
            assert(l.take(7)[0] == l[0]);
        }
    }
}

/// A link that starts with `hysteria2://` is read by that scheme's rule.
proof fn lemma_scheme_hysteria2(l: Seq<char>)
    requires
        starts_with(l, "hysteria2://"@),
    ensures
        !starts_with(l, "ss://"@),
        !starts_with(l, "vmess://"@),
        !starts_with(l, "vless://"@),
        !starts_with(l, "trojan://"@),
{
    reveal_strlit("hysteria2://");
    reveal_strlit("ss://");
    reveal_strlit("vmess://");
    reveal_strlit("vless://");
    reveal_strlit("trojan://");
    assert(!starts_with(l, "ss://"@)) by {
        if starts_with(l, "ss://"@) {
            assert(l.take(5)[0] == l[0]);
            assert(l.take(12)[0] == l[0]);
        }
    }
    assert(!starts_with(l, "vmess://"@)) by {
        if starts_with(l, "vmess://"@) {
            assert(l.take(8)[0] == l[0]);
            assert(l.take(12)[0] == l[0]);
        }
    }
    assert(!starts_with(l, "vless://"@)) by {
        if starts_with(l, "vless://"@) {
            assert(l.take(8)[0] == l[0]);
            assert(l.take(12)[0] == l[0]);
        }
    }
    assert(!starts_with(l, "trojan://"@)) by {
        if starts_with(l, "trojan://"@) {
            assert(l.take(9)[0] == l[0]);
            assert(l.take(12)[0] == l[0]);
        }
    }
}

/// A link that starts with `hy2://` is read by that scheme's rule.
proof fn lemma_scheme_hy2(l: Seq<char>)
    requires
        starts_with(l, "hy2://"@),
    ensures
        !starts_with(l, "ss://"@),
        !starts_with(l, "vmess://"@),
        !starts_with(l, "vless://"@),
        !starts_with(l, "trojan://"@),
        !starts_with(l, "hysteria2://"@),
{
    reveal_strlit("hy2://");
    reveal_strlit("ss://");
    reveal_strlit("vmess://");
    reveal_strlit("vless://");
    reveal_strlit("trojan://");
    reveal_strlit("hysteria2://");
    assert(!starts_with(l, "ss://"@)) by {
        if starts_with(l, "ss://"@) {
            assert(l.take(5)[0] == l[0]);
            assert(l.take(6)[0] == l[0]);
        }
    }
    assert(!starts_with(l, "vmess://"@)) by {
        if starts_with(l, "vmess://"@) {
            assert(l.take(8)[0] == l[0]);
            assert(l.take(6)[0] == l[0]);
        }
    }
    assert(!starts_with(l, "vless://"@)) by {
        if starts_with(l, "vless://"@) {
            assert(l.take(8)[0] == l[0]);
            assert(l.take(6)[0] == l[0]);
        }
    }
    assert(!starts_with(l, "trojan://"@)) by {
        if starts_with(l, "trojan://"@) {
            assert(l.take(9)[0] == l[0]);
            assert(l.take(6)[0] == l[0]);
        }
    }
    assert(!starts_with(l, "hysteria2://"@)) by {
        if starts_with(l, "hysteria2://"@) {
            assert(l.take(12)[2] == l[2]);
            assert(l.take(6)[2] == l[2]);
        }
    }
}

/// A link that starts with `hysteria://` is read by that scheme's rule.
proof fn lemma_scheme_hysteria(l: Seq<char>)
    requires
        starts_with(l, "hysteria://"@),
    ensures
        !starts_with(l, "ss://"@),
        !starts_with(l, "vmess://"@),
        !starts_with(l, "vless://"@),
        !starts_with(l, "trojan://"@),
        !starts_with(l, "hysteria2://"@),
        !starts_with(l, "hy2://"@),
{
    reveal_strlit("hysteria://");
    reveal_strlit("ss://");
    reveal_strlit("vmess://");
    reveal_strlit("vless://");
    reveal_strlit("trojan://");
    reveal_strlit("hysteria2://");
    reveal_strlit("hy2://");
    assert(!starts_with(l, "ss://"@)) by {
        if starts_with(l, "ss://"@) {
            assert(l.take(5)[0] == l[0]);
            assert(l.take(11)[0] == l[0]);
        }
    }
    assert(!starts_with(l, "vmess://"@)) by {
        if starts_with(l, "vmess://"@) {
            assert(l.take(8)[0] == l[0]);
            assert(l.take(11)[0] == l[0]);
        }
    }
    assert(!starts_with(l, "vless://"@)) by {
        if starts_with(l, "vless://"@) {
            assert(l.take(8)[0] == l[0]);
            assert(l.take(11)[0] == l[0]);
        }
    }
    assert(!starts_with(l, "trojan://"@)) by {
        if starts_with(l, "trojan://"@) {
            assert(l.take(9)[0] == l[0]);
            assert(l.take(11)[0] == l[0]);
        }
    }
    assert(!starts_with(l, "hysteria2://"@)) by {
        if starts_with(l, "hysteria2://"@) {
            assert(l.take(12)[8] == l[8]);
            assert(l.take(11)[8] == l[8]);
        }
    }
    assert(!starts_with(l, "hy2://"@)) by {
        if starts_with(l, "hy2://"@) {
            assert(l.take(6)[2] == l[2]);
            assert(l.take(11)[2] == l[2]);
        }
    }
}

/// For a link `scheme://userinfo@host:port` of a scheme that carries its
/// endpoint in plain text (`ss` with plain user info, `vless`, `trojan`,
/// `hysteria2`, `hy2`, `hysteria`, `tuic`), the endpoint is the host and the
/// port: the user info is dropped.
pub proof fn law_uri_endpoint_drops_userinfo(scheme: Seq<char>, userinfo: Seq<char>, host: Seq<char>, port: u16)
    requires
        scheme == "ss://"@ || scheme == "vless://"@ || scheme == "trojan://"@ || scheme
            == "hysteria2://"@ || scheme == "hy2://"@ || scheme == "hysteria://"@ || scheme
            == "tuic://"@,
        !has_char(userinfo, '@'),
        !has_char(userinfo, '#'),
        !has_char(userinfo, '?'),
        plain_host(host),
    ensures
        v2ray_endpoint(uri_link(scheme, userinfo, host, port)) == Some((host, port)),
{
    let rest = userinfo + "@"@ + host + ":"@ + dec(port as nat);
    let l = uri_link(scheme, userinfo, host, port);
    assert(l =~= scheme + rest);
    lemma_rest_endpoint(userinfo, host, port);
    if scheme == "ss://"@ {
        reveal_strlit("ss://");
        lemma_link_trimmed(scheme, rest);
        assert(starts_with(l, "ss://"@));
    } else if scheme == "hysteria://"@ {
        reveal_strlit("hysteria://");
        lemma_link_trimmed(scheme, rest);
        assert(starts_with(l, "hysteria://"@));
        lemma_scheme_hysteria(l);
    } else if scheme == "vless://"@ {
        reveal_strlit("vless://");
        lemma_link_trimmed(scheme, rest);
        assert(starts_with(l, "vless://"@));
        lemma_scheme_vless(l);
    } else if scheme == "trojan://"@ {
        reveal_strlit("trojan://");
        lemma_link_trimmed(scheme, rest);
        assert(starts_with(l, "trojan://"@));
        lemma_scheme_trojan(l);
    } else if scheme == "tuic://"@ {
        reveal_strlit("tuic://");
        lemma_link_trimmed(scheme, rest);
        assert(starts_with(l, "tuic://"@));
        lemma_scheme_tuic(l);
    } else if scheme == "hysteria2://"@ {
        reveal_strlit("hysteria2://");
        lemma_link_trimmed(scheme, rest);
        assert(starts_with(l, "hysteria2://"@));
        lemma_scheme_hysteria2(l);
    } else {
        reveal_strlit("hy2://");
        lemma_link_trimmed(scheme, rest);
        assert(starts_with(l, "hy2://"@));
        lemma_scheme_hy2(l);
    }
}

/// The first `c` of `s` stands at `j` when none comes before it and `j` is
/// either the end of `s` or holds `c`.
proof fn lemma_first_at(s: Seq<char>, c: char, j: int)
    requires
        0 <= j <= s.len(),
        forall|k: int| 0 <= k < j ==> s[k] != c,
        j < s.len() ==> s[j] == c,
    ensures
        first_of(s, c) == j,
{
    lemma_first_of(s, c);
    let f = first_of(s, c);
    if f < j {
        assert(s[f] != c);
    }
    if f > j {
        assert(s[j] == c);
    }
}

/// A decoded `ssr://` body `host:port`, followed by nothing, by more
/// `:`-separated fields or by a `/` and parameters, names that host and
/// port.
pub proof fn law_ssr_body_endpoint(host: Seq<char>, port: u16, tail: Seq<char>)
    requires
        host.len() > 0,
        !has_char(host, ':'),
        !has_char(host, '/'),
        tail.len() == 0 || tail[0] == ':' || tail[0] == '/',
    ensures
        ssr_body_endpoint(host + ":"@ + dec(port as nat) + tail) == Some((host, port)),
{
    reveal_strlit(":");
    let q = dec(port as nat);
    lemma_dec_digits(port as nat);
    let d = host + ":"@ + q + tail;
    let n = host.len() as int;
    // the first `/`
    lemma_first_of(tail, '/');
    let ft = first_of(tail, '/');
    let j = n + 1 + q.len() + ft;
    assert forall|k: int| 0 <= k < j implies d[k] != '/' by {
        if k < n {
            assert(d[k] == host[k]);
        } else if k == n {
            assert(d[k] == ':');
        } else if k < n + 1 + q.len() {
            assert(d[k] == q[k - n - 1]);
            assert(is_digit(q[k - n - 1]));
        } else {
            assert(d[k] == tail[k - n - 1 - q.len()]);
        }
    }
    if j < d.len() {
        assert(d[j] == tail[ft]);
    }
    lemma_first_at(d, '/', j);
    let t1 = tail.take(ft);
    let main = d.take(j);
    assert(main =~= host + seq![':'] + q + t1);
    // the first `:` of the main part ends the host
    assert forall|k: int| 0 <= k < n implies main[k] != ':' by {
        assert(main[k] == host[k]);
    }
    lemma_first_at(main, ':', n);
    assert(main.take(n) =~= host);
    // the second piece is the port
    let after = main.skip(n + 1);
    assert(after =~= q + t1);
    assert forall|k: int| 0 <= k < q.len() implies after[k] != ':' by {
        assert(after[k] == q[k]);
        assert(is_digit(q[k]));
    }
    if q.len() < after.len() {
        assert(t1.len() > 0);
        assert(ft > 0);
        assert(tail[0] != '/');
        assert(after[q.len() as int] == tail[0]);
    }
    lemma_first_at(after, ':', q.len() as int);
    assert(after.take(q.len() as int) =~= q);
    assert(second_piece(main, ':') == Some(q));
    lemma_parse_dec(port);
}

/// A bracketed endpoint `[host]:port` (an IPv6 address, say) names the host
/// inside the brackets and the port.
pub proof fn law_bracketed_host_port(host: Seq<char>, port: u16)
    requires
        !has_char(host, ']'),
    ensures
        host_port("["@ + host + "]:"@ + dec(port as nat)) == Some((host, port)),
{
    reveal_strlit("[");
    reveal_strlit("]:");
    let q = dec(port as nat);
    lemma_dec_digits(port as nat);
    let t = "["@ + host + "]:"@ + q;
    let n = host.len() as int;
    assert(t[0] == '[');
    assert(t.last() == q.last());
    assert(is_digit(q[q.len() - 1]));
    assert(trim_start(t) == t);
    assert(trim_end(t) == t);
    assert forall|k: int| 0 <= k < n + 1 implies t[k] != ']' by {
        if k > 0 {
            assert(t[k] == host[k - 1]);
        }
    }
    assert(t[n + 1] == ']');
    lemma_first_at(t, ']', n + 1);
    assert(t[n + 2] == ':');
    assert(t.skip(n + 3) =~= q);
    assert(t.subrange(1, n + 1) =~= host);
    lemma_parse_dec(port);
}

} // verus!
