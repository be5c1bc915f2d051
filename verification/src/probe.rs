//! Node endpoints, probe results, and what a probe run keeps.
use vstd::prelude::*;
use crate::foreign::{
    base64_decode, base64_decoded, json_member, json_member_of, utf8_lossy, lossy_text,
    JsonField, JsonScalar,
};
use crate::text::{
    after_last, after_last_chars, before_first, before_first_chars, copy_range, drop_ws,
    drop_ws_chars, find_char, first_of, from_chars, has_char, has_prefix_str, last_of,
    lemma_first_of, lines, lines_of, parse_u16, parse_u16_chars, rfind_char,
    second_piece, second_piece_chars, starts_with, to_chars, trim, trim_char, trim_char_chars,
    trim_chars, contains_char, views, string_views, lemma_string_views, lemma_string_views_push,
};
use crate::parser::{build_clash_proxies, clash_proxy_blocks, extract_clash_proxy_blocks, proxies_yaml};

verus! {

/// The outcome of probing one endpoint.
#[derive(Debug, Clone, Copy)]
pub struct ProbeResult {
    pub reachable: bool,
    pub latency_ms: Option<u32>,
}

/// What a TCP probe of one endpoint does next.
#[derive(Debug)]
pub enum ProbeStep {
    /// Try the next resolved address.
    TryNext,
    /// The probe is over, with this result.
    Done(ProbeResult),
}

/// A latency in milliseconds as recorded: capped at `u32::MAX`.
pub open spec fn capped_ms(elapsed_ms: u128) -> u32 {
    if elapsed_ms > u32::MAX as u128 {
        u32::MAX
    } else {
        elapsed_ms as u32
    }
}

/// The decision after one connection attempt of a TCP probe: a connection
/// within the timeout ends the probe as reachable, with the time since the
/// probe began (capped) as latency; a failed attempt moves on to the next
/// resolved address, and when none is left the endpoint is unreachable. A
/// failed lookup counts as a failed attempt with no address left.
pub fn probe_step(connected: bool, elapsed_ms: u128, addrs_left: usize) -> (r: ProbeStep)
    ensures
        connected ==> r == ProbeStep::Done(
            ProbeResult { reachable: true, latency_ms: Some(capped_ms(elapsed_ms)) },
        ),
        !connected && addrs_left > 0 ==> r == ProbeStep::TryNext,
        !connected && addrs_left == 0 ==> r == ProbeStep::Done(
            ProbeResult { reachable: false, latency_ms: None },
        ),
{
    if connected {
        let ms: u32 = if elapsed_ms > u32::MAX as u128 {
            u32::MAX
        } else {
            elapsed_ms as u32
        };
        ProbeStep::Done(ProbeResult { reachable: true, latency_ms: Some(ms) })
    } else if addrs_left > 0 {
        ProbeStep::TryNext
    } else {
        ProbeStep::Done(ProbeResult { reachable: false, latency_ms: None })
    }
}

/// How endpoints are probed.
#[derive(Debug, Clone)]
pub struct ProbeConfig {
    pub enabled: bool,
    pub timeout_secs: u64,
    pub concurrency: usize,
}

/// What a probe run kept and found.
#[derive(Debug, Clone, Copy)]
pub struct ProbeStats {
    pub before: usize,
    pub after: usize,
    pub reachable: usize,
    pub unreachable: usize,
    pub unparsed: usize,
}

impl ProbeStats {
    /// All counts zero.
    pub open spec fn zero_spec() -> ProbeStats {
        ProbeStats { before: 0, after: 0, reachable: 0, unreachable: 0, unparsed: 0 }
    }

    /// All counts zero.
    pub fn zero() -> (r: ProbeStats)
        ensures
            r == ProbeStats::zero_spec(),
    {
        ProbeStats { before: 0, after: 0, reachable: 0, unreachable: 0, unparsed: 0 }
    }
}

impl Default for ProbeStats {
    fn default() -> (r: ProbeStats)
        ensures
            r == (ProbeStats { before: 0, after: 0, reachable: 0, unreachable: 0, unparsed: 0 }),
    {
        ProbeStats::zero()
    }
}

/// Probe results by endpoint (host and port); a later insert for the same
/// endpoint replaces the earlier one.
pub struct ProbeCache {
    entries: Vec<(Vec<char>, u16, ProbeResult)>,
}

/// The map that a list of insertions leaves, later ones winning.
pub open spec fn entries_map(s: Seq<(Vec<char>, u16, ProbeResult)>) -> Map<(Seq<char>, u16), ProbeResult>
    decreases s.len(),
{
    if s.len() == 0 {
        Map::empty()
    } else {
        entries_map(s.drop_last()).insert((s.last().0@, s.last().1), s.last().2)
    }
}

proof fn lemma_entries_map_lookup(s: Seq<(Vec<char>, u16, ProbeResult)>, k: (Seq<char>, u16), j: int)
    requires
        -1 <= j < s.len(),
        forall|m: int| j < m < s.len() ==> (s[m].0@, s[m].1) != k,
        j >= 0 ==> (s[j].0@, s[j].1) == k,
    ensures
        j >= 0 ==> entries_map(s).contains_key(k) && entries_map(s)[k] == s[j].2,
        j < 0 ==> !entries_map(s).contains_key(k),
    decreases s.len(),
{
    if s.len() > 0 && j < s.len() - 1 {
        lemma_entries_map_lookup(s.drop_last(), k, j);
    }
}

impl View for ProbeCache {
    type V = Map<(Seq<char>, u16), ProbeResult>;

    closed spec fn view(&self) -> Map<(Seq<char>, u16), ProbeResult> {
        entries_map(self.entries@)
    }
}

impl ProbeCache {
    /// An empty cache.
    pub fn new() -> (r: ProbeCache)
        ensures
            r@ == Map::<(Seq<char>, u16), ProbeResult>::empty(),
    {
        ProbeCache { entries: Vec::new() }
    }

    /// Records the result for an endpoint, replacing an earlier one.
    pub fn insert(&mut self, key: (String, u16), value: ProbeResult)
        ensures
            final(self)@ == old(self)@.insert((key.0@, key.1), value),
    {
        let host = to_chars(key.0.as_str());
        self.entries.push((host, key.1, value));
        assert(self.entries@.drop_last() == old(self).entries@);
    }

    /// Adds every result of `other`, replacing earlier ones for the same endpoints.
    pub fn extend(&mut self, other: ProbeCache)
        ensures
            final(self)@ == old(self)@.union_prefer_right(other@),
    {
        let mut i: usize = 0;
        while i < other.entries.len()
            invariant
                i <= other.entries.len(),
                self@ == old(self)@.union_prefer_right(entries_map(other.entries@.take(i as int))),
            decreases other.entries.len() - i,
        {
            let e = &other.entries[i];
            let ghost before = self.entries@;
            self.entries.push((e.0.clone(), e.1, e.2));
            assert(self.entries@.drop_last() == before);
            assert(other.entries@.take(i + 1).drop_last() == other.entries@.take(i as int));
            assert(self@ =~= old(self)@.union_prefer_right(entries_map(other.entries@.take(i + 1))));
            i = i + 1;
        }
        assert(other.entries@.take(other.entries.len() as int) == other.entries@);
    }

    /// The result recorded for the endpoint `host`:`port`.
    pub fn lookup(&self, host: &[char], port: u16) -> (r: Option<ProbeResult>)
        ensures
            match r {
                Some(v) => self@.contains_key((host@, port)) && self@[(host@, port)] == v,
                None => !self@.contains_key((host@, port)),
            },
    {
        let mut j: usize = self.entries.len();
        while j > 0
            invariant
                j <= self.entries.len(),
                forall|m: int|
                    j <= m < self.entries@.len() ==> (self.entries@[m].0@, self.entries@[m].1) != (
                    host@, port),
            decreases j,
        {
            let e = &self.entries[j - 1];
            if e.1 == port && crate::text::same_chars(e.0.as_slice(), host) {
                proof {
                    lemma_entries_map_lookup(self.entries@, (host@, port), j - 1);
                }
                return Some(e.2);
            }
            j = j - 1;
        }
        proof {
            lemma_entries_map_lookup(self.entries@, (host@, port), -1);
        }
        None
    }

    /// The result recorded for an endpoint.
    pub fn get(&self, key: &(String, u16)) -> (r: Option<ProbeResult>)
        ensures
            match r {
                Some(v) => self@.contains_key((key.0@, key.1)) && self@[(key.0@, key.1)] == v,
                None => !self@.contains_key((key.0@, key.1)),
            },
    {
        let host = to_chars(key.0.as_str());
        self.lookup(host.as_slice(), key.1)
    }
}


// ---------------------------------------------------------------------
// Endpoints
// ---------------------------------------------------------------------

/// Host and port out of `host:port` or `[host]:port` (surrounding
/// whitespace ignored). In the bracketed form the character after `]` is
/// skipped (it must be a one-byte character) and the host may be empty; in
/// the plain form the last `:` splits, both parts are trimmed, and the host
/// must not be empty.
pub open spec fn host_port(text: Seq<char>) -> Option<(Seq<char>, u16)> {
    let hp = trim(text);
    if hp.len() > 0 && hp[0] == '[' {
        let end = first_of(hp, ']');
        if end + 1 < hp.len() && (hp[end + 1] as u32) < 128 {
            match parse_u16(hp.skip(end + 2)) {
                Some(p) => Some((hp.subrange(1, end), p)),
                None => None,
            }
        } else {
            None
        }
    } else {
        let idx = last_of(hp, ':');
        if idx < 0 {
            None
        } else {
            let host = trim(hp.take(idx));
            match parse_u16(trim(hp.skip(idx + 1))) {
                Some(p) => if host.len() > 0 {
                    Some((host, p))
                } else {
                    None
                },
                None => None,
            }
        }
    }
}

/// The endpoint after the last `@`.
pub open spec fn userinfo_host_port(text: Seq<char>) -> Option<(Seq<char>, u16)> {
    host_port(after_last(text, '@'))
}

/// The endpoint of a URI's authority: fragment and query cut off, user info dropped.
pub open spec fn uri_authority(rest: Seq<char>) -> Option<(Seq<char>, u16)> {
    host_port(after_last(before_first(before_first(rest, '#'), '?'), '@'))
}

/// The endpoint of `scheme://userinfo@host:port?query#fragment`, for a
/// scheme prefix of `n` characters.
pub open spec fn uri_endpoint(url: Seq<char>, n: int) -> Option<(Seq<char>, u16)> {
    uri_authority(before_first(before_first(url.skip(n), '#'), '?'))
}

/// Text decoded from standard base64 after dropping whitespace, read as
/// UTF-8 with invalid sequences replaced.
pub open spec fn decoded_text(t: Seq<char>) -> Option<Seq<char>> {
    match base64_decoded(drop_ws(t)) {
        Some(b) => Some(lossy_text(b)),
        None => None,
    }
}

/// `ss://` links: the user info is plain (`method:pass@host:port`) or the
/// whole body is base64.
pub open spec fn ss_endpoint(url: Seq<char>) -> Option<(Seq<char>, u16)> {
    let body = before_first(before_first(url.skip(5), '#'), '?');
    if has_char(body, '@') {
        userinfo_host_port(body)
    } else {
        match decoded_text(body) {
            Some(d) => userinfo_host_port(d),
            None => None,
        }
    }
}

/// The port of a vmess document: an unsigned number (cut to 16 bits) or a
/// string holding a port.
pub open spec fn vmess_port(v: JsonScalar) -> Option<u16> {
    match v {
        JsonScalar::Unsigned(n) => Some((n % 65536) as u16),
        JsonScalar::Text(t) => parse_u16(t),
        _ => None,
    }
}

/// The endpoint of a vmess document from its `add` and `port` members: the
/// host must be a string.
pub open spec fn vmess_fields_endpoint(add: JsonScalar, port: JsonScalar) -> Option<(Seq<char>, u16)> {
    match add {
        JsonScalar::Text(host) => match vmess_port(port) {
            Some(p) => Some((host, p)),
            None => None,
        },
        _ => None,
    }
}

/// `vmess://` links: a base64 JSON document with `add` and `port`.
pub open spec fn vmess_endpoint(url: Seq<char>) -> Option<(Seq<char>, u16)> {
    match decoded_text(before_first(url.skip(8), '#')) {
        Some(json) => vmess_fields_endpoint(json_member_of(json, "add"@), json_member_of(json, "port"@)),
        None => None,
    }
}

/// `hysteria://` links.
pub open spec fn hysteria_endpoint(url: Seq<char>) -> Option<(Seq<char>, u16)> {
    let rest = before_first(before_first(url.skip(11), '#'), '?');
    if has_char(rest, '@') {
        userinfo_host_port(rest)
    } else {
        host_port(rest)
    }
}

/// The endpoint in a decoded `ssr://` body `host:port:...`, up to the
/// first `/`: the first two `:`-separated fields; the host must not be
/// empty.
pub open spec fn ssr_body_endpoint(decoded: Seq<char>) -> Option<(Seq<char>, u16)> {
    let main = before_first(decoded, '/');
    let host = before_first(main, ':');
    match second_piece(main, ':') {
        Some(port_text) => match parse_u16(port_text) {
            Some(p) => if host.len() > 0 {
                Some((host, p))
            } else {
                None
            },
            None => None,
        },
        None => None,
    }
}

/// `ssr://` links: base64 of `host:port:...` up to the first `/`.
pub open spec fn ssr_endpoint(url: Seq<char>) -> Option<(Seq<char>, u16)> {
    match decoded_text(before_first(url.skip(6), '/')) {
        Some(decoded) => ssr_body_endpoint(decoded),
        None => None,
    }
}

/// The endpoint of a v2ray share link, chosen by its scheme.
pub open spec fn v2ray_endpoint(node: Seq<char>) -> Option<(Seq<char>, u16)> {
    let t = trim(node);
    if starts_with(t, "ss://"@) {
        ss_endpoint(t)
    } else if starts_with(t, "vmess://"@) {
        vmess_endpoint(t)
    } else if starts_with(t, "vless://"@) {
        uri_endpoint(t, 8)
    } else if starts_with(t, "trojan://"@) {
        uri_endpoint(t, 9)
    } else if starts_with(t, "hysteria2://"@) {
        uri_authority(t.skip(12))
    } else if starts_with(t, "hy2://"@) {
        uri_authority(t.skip(6))
    } else if starts_with(t, "hysteria://"@) {
        hysteria_endpoint(t)
    } else if starts_with(t, "tuic://"@) {
        uri_endpoint(t, 7)
    } else if starts_with(t, "ssr://"@) {
        ssr_endpoint(t)
    } else {
        None
    }
}

fn host_port_of(text: &[char]) -> (r: Option<(Vec<char>, u16)>)
    ensures
        match r {
            Some((h, p)) => host_port(text@) == Some((h@, p)),
            None => host_port(text@) is None,
        },
{
    let hp = trim_chars(text);
    if hp.len() > 0 && hp[0] == '[' {
        let end = find_char(hp.as_slice(), ']');
        proof {
            lemma_first_of(hp@, ']');
        }
        if end < hp.len() && end + 1 < hp.len() && (hp[end + 1] as u32) < 128 {
            let port_text = copy_range(hp.as_slice(), end + 2, hp.len());
            assert(port_text@ == hp@.skip(end + 2));
            match parse_u16_chars(port_text.as_slice()) {
                Some(p) => Some((copy_range(hp.as_slice(), 1, end), p)),
                None => None,
            }
        } else {
            None
        }
    } else {
        match rfind_char(hp.as_slice(), ':') {
            None => None,
            Some(idx) => {
                let host = trim_chars(copy_range(hp.as_slice(), 0, idx).as_slice());
                let port_part = copy_range(hp.as_slice(), idx + 1, hp.len());
                assert(port_part@ == hp@.skip(idx + 1));
                let port_text = trim_chars(port_part.as_slice());
                match parse_u16_chars(port_text.as_slice()) {
                    Some(p) => if host.len() > 0 {
                        Some((host, p))
                    } else {
                        None
                    },
                    None => None,
                }
            },
        }
    }
}

fn userinfo_host_port_of(text: &[char]) -> (r: Option<(Vec<char>, u16)>)
    ensures
        match r {
            Some((h, p)) => userinfo_host_port(text@) == Some((h@, p)),
            None => userinfo_host_port(text@) is None,
        },
{
    let hp = after_last_chars(text, '@');
    host_port_of(hp.as_slice())
}

fn uri_authority_of(rest: &[char]) -> (r: Option<(Vec<char>, u16)>)
    ensures
        match r {
            Some((h, p)) => uri_authority(rest@) == Some((h@, p)),
            None => uri_authority(rest@) is None,
        },
{
    let a = before_first_chars(rest, '#');
    let b = before_first_chars(a.as_slice(), '?');
    userinfo_host_port_of(b.as_slice())
}

/// `t` from position `n` on.
fn skip_chars(t: &[char], n: usize) -> (r: Vec<char>)
    requires
        n <= t.len(),
    ensures
        r@ == t@.skip(n as int),
{
    copy_range(t, n, t.len())
}

fn uri_endpoint_of(url: &[char], n: usize) -> (r: Option<(Vec<char>, u16)>)
    requires
        n <= url.len(),
    ensures
        match r {
            Some((h, p)) => uri_endpoint(url@, n as int) == Some((h@, p)),
            None => uri_endpoint(url@, n as int) is None,
        },
{
    let rest = skip_chars(url, n);
    let a = before_first_chars(rest.as_slice(), '#');
    let b = before_first_chars(a.as_slice(), '?');
    uri_authority_of(b.as_slice())
}

/// Decodes standard base64 (whitespace dropped) and reads the bytes as UTF-8.
pub fn decoded_text_of(t: &[char]) -> (r: Option<Vec<char>>)
    ensures
        match r {
            Some(d) => decoded_text(t@) == Some(d@),
            None => decoded_text(t@) is None,
        },
{
    let cleaned = drop_ws_chars(t);
    let s = from_chars(cleaned.as_slice());
    match base64_decode(s.as_str()) {
        Some(bytes) => {
            let text = utf8_lossy(bytes.as_slice());
            Some(to_chars(text.as_str()))
        },
        None => None,
    }
}

fn ss_endpoint_of(url: &[char]) -> (r: Option<(Vec<char>, u16)>)
    requires
        url.len() >= 5,
    ensures
        match r {
            Some((h, p)) => ss_endpoint(url@) == Some((h@, p)),
            None => ss_endpoint(url@) is None,
        },
{
    let rest = skip_chars(url, 5);
    let a = before_first_chars(rest.as_slice(), '#');
    let body = before_first_chars(a.as_slice(), '?');
    if contains_char(body.as_slice(), '@') {
        userinfo_host_port_of(body.as_slice())
    } else {
        match decoded_text_of(body.as_slice()) {
            Some(d) => userinfo_host_port_of(d.as_slice()),
            None => None,
        }
    }
}

fn vmess_port_of(v: JsonField) -> (r: Option<u16>)
    ensures
        r == vmess_port(v@),
{
    match v {
        JsonField::Unsigned(n) => Some((n % 65536) as u16),
        JsonField::Text(t) => {
            let c = to_chars(t.as_str());
            parse_u16_chars(c.as_slice())
        },
        _ => None,
    }
}

fn vmess_endpoint_of(url: &[char]) -> (r: Option<(Vec<char>, u16)>)
    requires
        url.len() >= 8,
    ensures
        match r {
            Some((h, p)) => vmess_endpoint(url@) == Some((h@, p)),
            None => vmess_endpoint(url@) is None,
        },
{
    let rest = skip_chars(url, 8);
    let body = before_first_chars(rest.as_slice(), '#');
    match decoded_text_of(body.as_slice()) {
        Some(json) => {
            let js = from_chars(json.as_slice());
            let add = json_member(js.as_str(), "add");
            let port = json_member(js.as_str(), "port");
            match vmess_endpoint_in(add, port) {
                Some((h, p)) => Some((to_chars(h.as_str()), p)),
                None => None,
            }
        },
        None => None,
    }
}

/// The endpoint of a vmess document from its `add` and `port` members (see
/// [`vmess_fields_endpoint`]).
pub fn vmess_endpoint_in(add: JsonField, port: JsonField) -> (r: Option<(String, u16)>)
    ensures
        match r {
            Some((h, p)) => vmess_fields_endpoint(add@, port@) == Some((h@, p)),
            None => vmess_fields_endpoint(add@, port@) is None,
        },
{
    match add {
        JsonField::Text(host) => match vmess_port_of(port) {
            Some(p) => Some((host, p)),
            None => None,
        },
        _ => None,
    }
}

fn hysteria_endpoint_of(url: &[char]) -> (r: Option<(Vec<char>, u16)>)
    requires
        url.len() >= 11,
    ensures
        match r {
            Some((h, p)) => hysteria_endpoint(url@) == Some((h@, p)),
            None => hysteria_endpoint(url@) is None,
        },
{
    let rest0 = skip_chars(url, 11);
    let a = before_first_chars(rest0.as_slice(), '#');
    let rest = before_first_chars(a.as_slice(), '?');
    if contains_char(rest.as_slice(), '@') {
        userinfo_host_port_of(rest.as_slice())
    } else {
        host_port_of(rest.as_slice())
    }
}

fn ssr_endpoint_of(url: &[char]) -> (r: Option<(Vec<char>, u16)>)
    requires
        url.len() >= 6,
    ensures
        match r {
            Some((h, p)) => ssr_endpoint(url@) == Some((h@, p)),
            None => ssr_endpoint(url@) is None,
        },
{
    let rest = skip_chars(url, 6);
    let body = before_first_chars(rest.as_slice(), '/');
    match decoded_text_of(body.as_slice()) {
        Some(decoded) => ssr_body_endpoint_of(decoded.as_slice()),
        None => None,
    }
}

fn ssr_body_endpoint_of(decoded: &[char]) -> (r: Option<(Vec<char>, u16)>)
    ensures
        match r {
            Some((h, p)) => ssr_body_endpoint(decoded@) == Some((h@, p)),
            None => ssr_body_endpoint(decoded@) is None,
        },
{
    let main = before_first_chars(decoded, '/');
    let host = before_first_chars(main.as_slice(), ':');
    match second_piece_chars(main.as_slice(), ':') {
        Some(port_text) => match parse_u16_chars(port_text.as_slice()) {
            Some(p) => if host.len() > 0 {
                Some((host, p))
            } else {
                None
            },
            None => None,
        },
        None => None,
    }
}

/// The endpoint in a decoded `ssr://` body (see [`ssr_body_endpoint`]).
pub fn ssr_endpoint_in(decoded: &str) -> (r: Option<(String, u16)>)
    ensures
        match r {
            Some((h, p)) => ssr_body_endpoint(decoded@) == Some((h@, p)),
            None => ssr_body_endpoint(decoded@) is None,
        },
{
    let d = to_chars(decoded);
    match ssr_body_endpoint_of(d.as_slice()) {
        Some((h, p)) => Some((from_chars(h.as_slice()), p)),
        None => None,
    }
}

/// The endpoint of a v2ray share link given as characters.
pub fn v2ray_endpoint_of(node: &[char]) -> (r: Option<(Vec<char>, u16)>)
    ensures
        match r {
            Some((h, p)) => v2ray_endpoint(node@) == Some((h@, p)),
            None => v2ray_endpoint(node@) is None,
        },
{
    let t = trim_chars(node);
    let ts = t.as_slice();
    if has_prefix_str(ts, "ss://") {
        proof { reveal_strlit("ss://"); }
        ss_endpoint_of(ts)
    } else if has_prefix_str(ts, "vmess://") {
        proof { reveal_strlit("vmess://"); }
        vmess_endpoint_of(ts)
    } else if has_prefix_str(ts, "vless://") {
        proof { reveal_strlit("vless://"); }
        uri_endpoint_of(ts, 8)
    } else if has_prefix_str(ts, "trojan://") {
        proof { reveal_strlit("trojan://"); }
        uri_endpoint_of(ts, 9)
    } else if has_prefix_str(ts, "hysteria2://") {
        proof { reveal_strlit("hysteria2://"); }
        let rest = skip_chars(ts, 12);
        uri_authority_of(rest.as_slice())
    } else if has_prefix_str(ts, "hy2://") {
        proof { reveal_strlit("hy2://"); }
        let rest = skip_chars(ts, 6);
        uri_authority_of(rest.as_slice())
    } else if has_prefix_str(ts, "hysteria://") {
        proof { reveal_strlit("hysteria://"); }
        hysteria_endpoint_of(ts)
    } else if has_prefix_str(ts, "tuic://") {
        proof { reveal_strlit("tuic://"); }
        uri_endpoint_of(ts, 7)
    } else if has_prefix_str(ts, "ssr://") {
        proof { reveal_strlit("ssr://"); }
        ssr_endpoint_of(ts)
    } else {
        None
    }
}

/// The host and port of a v2ray share link (`ss`, `ssr`, `vmess`, `vless`,
/// `trojan`, `hysteria`, `hysteria2`/`hy2`, `tuic`), if it can be read.
pub fn extract_v2ray_endpoint(node: &str) -> (r: Option<(String, u16)>)
    ensures
        match r {
            Some((h, p)) => v2ray_endpoint(node@) == Some((h@, p)),
            None => v2ray_endpoint(node@) is None,
        },
{
    let c = to_chars(node);
    match v2ray_endpoint_of(c.as_slice()) {
        Some((h, p)) => Some((from_chars(h.as_slice()), p)),
        None => None,
    }
}


/// The rest of the last line that, trimmed, starts with `key`.
pub open spec fn last_keyed(ls: Seq<Seq<char>>, key: Seq<char>) -> Option<Seq<char>>
    decreases ls.len(),
{
    if ls.len() == 0 {
        None
    } else if starts_with(trim(ls.last()), key) {
        Some(trim(ls.last()).skip(key.len() as int))
    } else {
        last_keyed(ls.drop_last(), key)
    }
}

/// A YAML scalar as the library reads it: trimmed, then `"` and then `'`
/// stripped from both ends.
pub open spec fn unquote(v: Seq<char>) -> Seq<char> {
    trim_char(trim_char(trim(v), '"'), '\'')
}

/// The endpoint of a Clash proxy block: the last `server:` line and the last
/// `port:` line decide; the host must not be empty and the port must be
/// non-zero.
pub open spec fn clash_endpoint(block: Seq<char>) -> Option<(Seq<char>, u16)> {
    let ls = lines(block);
    match (last_keyed(ls, "server:"@), last_keyed(ls, "port:"@)) {
        (Some(sv), Some(pv)) => match parse_u16(trim(pv)) {
            Some(p) => if unquote(sv).len() > 0 && p > 0 {
                Some((unquote(sv), p))
            } else {
                None
            },
            None => None,
        },
        _ => None,
    }
}

pub fn clash_endpoint_of(block: &[char]) -> (r: Option<(Vec<char>, u16)>)
    ensures
        match r {
            Some((h, p)) => clash_endpoint(block@) == Some((h@, p)),
            None => clash_endpoint(block@) is None,
        },
{
    let ls = lines_of(block);
    let ghost lv = views(ls@);
    let mut server: Option<Vec<char>> = None;
    let mut port: Option<u16> = None;
    let mut i: usize = 0;
    proof {
        reveal_strlit("server:");
        reveal_strlit("port:");
    }
    while i < ls.len()
        invariant
            i <= ls.len(),
            lv == views(ls@),
            match server {
                Some(sv) => last_keyed(lv.take(i as int), "server:"@) matches Some(x) && unquote(
                    x,
                ) == sv@,
                None => last_keyed(lv.take(i as int), "server:"@) is None,
            },
            port == match last_keyed(lv.take(i as int), "port:"@) {
                Some(pv) => parse_u16(trim(pv)),
                None => None,
            },
            last_keyed(lv.take(i as int), "port:"@) is Some || port is None,
            "server:"@.len() == 7,
            "port:"@.len() == 5,
        decreases ls.len() - i,
    {
        assert(lv.take(i + 1).drop_last() == lv.take(i as int));
        assert(lv.take(i + 1).last() == ls[i as int]@);
        let line = trim_chars(ls[i].as_slice());
        if has_prefix_str(line.as_slice(), "server:") {
            assert(line@[0] == line@.take(7)[0]);
            assert(!starts_with(line@, "port:"@)) by {
                reveal_strlit("server:");
                reveal_strlit("port:");
                if starts_with(line@, "port:"@) {
                    assert(line@[0] == line@.take(5)[0]);
                }
            }
            let v = copy_range(line.as_slice(), 7, line.len());
            let t = trim_chars(v.as_slice());
            let a = trim_char_chars(t.as_slice(), '"');
            server = Some(trim_char_chars(a.as_slice(), '\''));
        } else if has_prefix_str(line.as_slice(), "port:") {
            let v = copy_range(line.as_slice(), 5, line.len());
            let t = trim_chars(v.as_slice());
            port = parse_u16_chars(t.as_slice());
        }
        i = i + 1;
    }
    assert(lv.take(ls.len() as int) == lv);
    match (server, port) {
        (Some(h), Some(p)) => if h.len() > 0 && p > 0 {
            Some((h, p))
        } else {
            None
        },
        _ => None,
    }
}

/// The host and port of a Clash proxy block (its `server:` and `port:`
/// lines), if both can be read.
pub fn extract_clash_endpoint(block: &str) -> (r: Option<(String, u16)>)
    ensures
        match r {
            Some((h, p)) => clash_endpoint(block@) == Some((h@, p)),
            None => clash_endpoint(block@) is None,
        },
{
    let c = to_chars(block);
    match clash_endpoint_of(c.as_slice()) {
        Some((h, p)) => Some((from_chars(h.as_slice()), p)),
        None => None,
    }
}

// ---------------------------------------------------------------------
// What a probe run keeps
// ---------------------------------------------------------------------

/// An endpoint as a host and a port.
pub open spec fn endpoint_views(eps: Seq<(String, u16)>) -> Seq<(Seq<char>, u16)> {
    eps.map_values(|e: (String, u16)| (e.0@, e.1))
}

/// The endpoint of an item: of a Clash proxy block when `clash`, else of a
/// v2ray share link.
pub open spec fn item_endpoint(item: Seq<char>, clash: bool) -> Option<(Seq<char>, u16)> {
    if clash {
        clash_endpoint(item)
    } else {
        v2ray_endpoint(item)
    }
}

/// Whether the probe results report the endpoint reachable.
pub open spec fn reached(cache: Map<(Seq<char>, u16), ProbeResult>, ep: (Seq<char>, u16)) -> bool {
    cache.contains_key(ep) && cache[ep].reachable
}

/// The endpoints of the items that have one, in order.
pub open spec fn endpoints_of(items: Seq<Seq<char>>, clash: bool) -> Seq<(Seq<char>, u16)>
    decreases items.len(),
{
    if items.len() == 0 {
        seq![]
    } else {
        let prev = endpoints_of(items.drop_last(), clash);
        match item_endpoint(items.last(), clash) {
            Some(ep) => prev.push(ep),
            None => prev,
        }
    }
}

/// The endpoints of the proxy blocks of Clash documents, in order.
pub open spec fn clash_endpoints(chunks: Seq<Seq<char>>) -> Seq<(Seq<char>, u16)>
    decreases chunks.len(),
{
    if chunks.len() == 0 {
        seq![]
    } else {
        clash_endpoints(chunks.drop_last()) + match clash_proxy_blocks(chunks.last()) {
            Some(bs) => endpoints_of(bs, true),
            None => seq![],
        }
    }
}

/// Each endpoint once, in order of first appearance.
pub open spec fn distinct_eps(s: Seq<(Seq<char>, u16)>) -> Seq<(Seq<char>, u16)>
    decreases s.len(),
{
    if s.len() == 0 {
        s
    } else {
        let d = distinct_eps(s.drop_last());
        if d.contains(s.last()) {
            d
        } else {
            d.push(s.last())
        }
    }
}

/// One pass of a probe run over items: the items kept (those whose endpoint
/// was reached, and those without an endpoint), then the numbers of items
/// reached, not reached, and without an endpoint.
pub open spec fn probe_pass(
    items: Seq<Seq<char>>,
    cache: Map<(Seq<char>, u16), ProbeResult>,
    clash: bool,
) -> (Seq<Seq<char>>, nat, nat, nat)
    decreases items.len(),
{
    if items.len() == 0 {
        (seq![], 0, 0, 0)
    } else {
        let prev = probe_pass(items.drop_last(), cache, clash);
        let x = items.last();
        match item_endpoint(x, clash) {
            Some(ep) => if reached(cache, ep) {
                (prev.0.push(x), prev.1 + 1, prev.2, prev.3)
            } else {
                (prev.0, prev.1, prev.2 + 1, prev.3)
            },
            None => (prev.0.push(x), prev.1, prev.2, prev.3 + 1),
        }
    }
}

/// `a + b`, or `usize::MAX` when that does not fit.
pub open spec fn sat(a: usize, b: nat) -> usize {
    if a + b > usize::MAX {
        usize::MAX
    } else {
        (a + b) as usize
    }
}

/// The Clash documents a probe run keeps, and its counts: a document
/// without proxy blocks stays as it is; otherwise its blocks pass through
/// [`probe_pass`] and, when some remain, the document becomes one listing
/// them. The counts are (saturating) sums over the documents with blocks.
pub open spec fn probed_chunks(chunks: Seq<Seq<char>>, cache: Map<(Seq<char>, u16), ProbeResult>) -> (
    Seq<Seq<char>>,
    ProbeStats,
)
    decreases chunks.len(),
{
    if chunks.len() == 0 {
        (seq![], ProbeStats { before: 0, after: 0, reachable: 0, unreachable: 0, unparsed: 0 })
    } else {
        let prev = probed_chunks(chunks.drop_last(), cache);
        let c = chunks.last();
        match clash_proxy_blocks(c) {
            None => (prev.0.push(c), prev.1),
            Some(bs) => {
                let pp = probe_pass(bs, cache, true);
                let st = ProbeStats {
                    before: sat(prev.1.before, bs.len()),
                    after: sat(prev.1.after, pp.0.len()),
                    reachable: sat(prev.1.reachable, pp.1),
                    unreachable: sat(prev.1.unreachable, pp.2),
                    unparsed: sat(prev.1.unparsed, pp.3),
                };
                (if pp.0.len() > 0 {
                    prev.0.push(proxies_yaml(pp.0))
                } else {
                    prev.0
                }, st)
            },
        }
    }
}

/// Whether a probe run keeps an item: its endpoint was reached, or it has none.
pub open spec fn probe_keeps(x: Seq<char>, cache: Map<(Seq<char>, u16), ProbeResult>, clash: bool) -> bool {
    match item_endpoint(x, clash) {
        Some(ep) => reached(cache, ep),
        None => true,
    }
}

/// A probe pass keeps, in order, exactly the items whose endpoint was
/// reached and those without an endpoint; it counts each item once, as
/// reached, not reached, or without an endpoint.
pub proof fn law_probe_pass(items: Seq<Seq<char>>, cache: Map<(Seq<char>, u16), ProbeResult>, clash: bool)
    ensures
        probe_pass(items, cache, clash).0 == items.filter(|x: Seq<char>| probe_keeps(x, cache, clash)),
        probe_pass(items, cache, clash).1 + probe_pass(items, cache, clash).2 + probe_pass(
            items,
            cache,
            clash,
        ).3 == items.len(),
        probe_pass(items, cache, clash).0.len() == probe_pass(items, cache, clash).1 + probe_pass(
            items,
            cache,
            clash,
        ).3,
    decreases items.len(),
{
    reveal_with_fuel(Seq::filter, 1);
    if items.len() > 0 {
        law_probe_pass(items.drop_last(), cache, clash);
    }
}

/// The number of proxy blocks over all Clash documents.
pub open spec fn total_blocks(chunks: Seq<Seq<char>>) -> nat
    decreases chunks.len(),
{
    if chunks.len() == 0 {
        0
    } else {
        total_blocks(chunks.drop_last()) + match clash_proxy_blocks(chunks.last()) {
            Some(bs) => bs.len(),
            None => 0,
        }
    }
}

/// The counts of a Clash probe run add up: every proxy block is counted
/// once, as reached, not reached, or without an endpoint, and the kept ones
/// are the reached and those without an endpoint (while the numbers fit in
/// a `usize`).
pub proof fn law_probed_chunks_counts(chunks: Seq<Seq<char>>, cache: Map<(Seq<char>, u16), ProbeResult>)
    requires
        total_blocks(chunks) <= usize::MAX,
    ensures
        probed_chunks(chunks, cache).1.before == total_blocks(chunks),
        probed_chunks(chunks, cache).1.before == probed_chunks(chunks, cache).1.reachable
            + probed_chunks(chunks, cache).1.unreachable + probed_chunks(chunks, cache).1.unparsed,
        probed_chunks(chunks, cache).1.after == probed_chunks(chunks, cache).1.reachable
            + probed_chunks(chunks, cache).1.unparsed,
    decreases chunks.len(),
{
    if chunks.len() > 0 {
        law_probed_chunks_counts(chunks.drop_last(), cache);
        match clash_proxy_blocks(chunks.last()) {
            Some(bs) => {
                law_probe_pass(bs, cache, true);
            },
            None => {},
        }
    }
}

/// The endpoint of an item, by kind.
fn item_endpoint_of(item: &String, clash: bool) -> (r: Option<(String, u16)>)
    ensures
        match r {
            Some((h, p)) => item_endpoint(item@, clash) == Some((h@, p)),
            None => item_endpoint(item@, clash) is None,
        },
{
    if clash {
        extract_clash_endpoint(item.as_str())
    } else {
        extract_v2ray_endpoint(item.as_str())
    }
}

/// Whether `cache` reports the endpoint reachable.
fn reached_in(cache: &ProbeCache, ep: &(String, u16)) -> (b: bool)
    ensures
        b == reached(cache@, (ep.0@, ep.1)),
{
    match cache.get(ep) {
        Some(r) => r.reachable,
        None => false,
    }
}

/// The endpoints of the items that have one.
fn endpoints_of_items(items: &[String], clash: bool) -> (r: Vec<(String, u16)>)
    ensures
        endpoint_views(r@) == endpoints_of(string_views(items@), clash),
{
    let ghost sv = string_views(items@);
    let mut r: Vec<(String, u16)> = Vec::new();
    let mut i: usize = 0;
    while i < items.len()
        invariant
            i <= items.len(),
            sv == string_views(items@),
            endpoint_views(r@) == endpoints_of(sv.take(i as int), clash),
        decreases items.len() - i,
    {
        assert(sv.take(i + 1).drop_last() == sv.take(i as int));
        match item_endpoint_of(&items[i], clash) {
            Some(ep) => {
                let ghost before = r@;
                r.push(ep);
                assert(endpoint_views(r@) =~= endpoint_views(before).push((r@.last().0@, r@.last().1)));
            },
            None => {},
        }
        i = i + 1;
    }
    assert(sv.take(items.len() as int) == sv);
    r
}

/// The endpoints of the v2ray nodes that have one, in order: the endpoints a
/// probe run connects to.
pub fn collect_v2ray_endpoints(nodes: &[String]) -> (r: Vec<(String, u16)>)
    ensures
        endpoint_views(r@) == endpoints_of(string_views(nodes@), false),
{
    endpoints_of_items(nodes, false)
}

/// The endpoints of the proxy blocks of Clash documents, in order: the
/// endpoints a probe run connects to.
pub fn collect_clash_endpoints(chunks: &[String]) -> (r: Vec<(String, u16)>)
    ensures
        endpoint_views(r@) == clash_endpoints(string_views(chunks@)),
{
    let ghost sv = string_views(chunks@);
    let mut r: Vec<(String, u16)> = Vec::new();
    let mut i: usize = 0;
    while i < chunks.len()
        invariant
            i <= chunks.len(),
            sv == string_views(chunks@),
            endpoint_views(r@) == clash_endpoints(sv.take(i as int)),
        decreases chunks.len() - i,
    {
        assert(sv.take(i + 1).drop_last() == sv.take(i as int));
        match extract_clash_proxy_blocks(chunks[i].as_str()) {
            Some(blocks) => {
                proof {
                    lemma_string_views(blocks);
                }
                let mut eps = endpoints_of_items(blocks.as_slice(), true);
                let ghost before = r@;
                let ghost ev = eps@;
                r.append(&mut eps);
                assert(endpoint_views(r@) =~= endpoint_views(before) + endpoint_views(ev));
            },
            None => {
                assert(clash_endpoints(sv.take(i + 1)) =~= clash_endpoints(sv.take(i as int)));
            },
        }
        i = i + 1;
    }
    assert(sv.take(chunks.len() as int) == sv);
    r
}


/// Whether `eps` lists the endpoint.
fn lists_endpoint(eps: &Vec<(String, u16)>, ep: &(String, u16)) -> (b: bool)
    ensures
        b == endpoint_views(eps@).contains((ep.0@, ep.1)),
{
    let host = to_chars(ep.0.as_str());
    let mut i: usize = 0;
    while i < eps.len()
        invariant
            i <= eps.len(),
            host@ == ep.0@,
            forall|k: int| 0 <= k < i ==> endpoint_views(eps@)[k] != (ep.0@, ep.1),
        decreases eps.len() - i,
    {
        let h = to_chars(eps[i].0.as_str());
        if eps[i].1 == ep.1 && crate::text::same_chars(h.as_slice(), host.as_slice()) {
            assert(endpoint_views(eps@)[i as int] == (ep.0@, ep.1));
            return true;
        }
        i = i + 1;
    }
    false
}

/// Each endpoint once, in order of first appearance: the endpoints a probe
/// run connects to, each a single time.
pub fn distinct_endpoints(eps: &[(String, u16)]) -> (r: Vec<(String, u16)>)
    ensures
        endpoint_views(r@) == distinct_eps(endpoint_views(eps@)),
{
    let ghost ev = endpoint_views(eps@);
    let mut r: Vec<(String, u16)> = Vec::new();
    let mut i: usize = 0;
    while i < eps.len()
        invariant
            i <= eps.len(),
            ev == endpoint_views(eps@),
            endpoint_views(r@) == distinct_eps(ev.take(i as int)),
        decreases eps.len() - i,
    {
        assert(ev.take(i + 1).drop_last() == ev.take(i as int));
        let ep = (eps[i].0.clone(), eps[i].1);
        if !lists_endpoint(&r, &ep) {
            let ghost before = r@;
            r.push(ep);
            assert(endpoint_views(r@) =~= endpoint_views(before).push((ep.0@, ep.1)));
        }
        i = i + 1;
    }
    assert(ev.take(eps.len() as int) == ev);
    r
}

/// Each endpoint is probed once: [`distinct_eps`] lists every endpoint of
/// its input, nothing else, and none twice.
pub proof fn law_distinct_endpoints(s: Seq<(Seq<char>, u16)>)
    ensures
        distinct_eps(s).no_duplicates(),
        forall|e: (Seq<char>, u16)| #[trigger] distinct_eps(s).contains(e) <==> s.contains(e),
    decreases s.len(),
{
    if s.len() > 0 {
        law_distinct_endpoints(s.drop_last());
        let d = distinct_eps(s.drop_last());
        assert forall|e: (Seq<char>, u16)| #[trigger] distinct_eps(s).contains(e) <==> s.contains(e) by {
            if s.contains(e) && !s.drop_last().contains(e) {
                let k = choose|k: int| 0 <= k < s.len() && s[k] == e;
                if k < s.len() - 1 {
                    assert(s.drop_last()[k] == e);
                }
            }
            if s.drop_last().contains(e) {
                let k = choose|k: int| 0 <= k < s.len() - 1 && s.drop_last()[k] == e;
                assert(s[k] == e);
            }
            if !d.contains(s.last()) {
                assert(d.push(s.last()).contains(e) <==> (d.contains(e) || e == s.last())) by {
                    if d.push(s.last()).contains(e) && e != s.last() {
                        let k = choose|k: int| 0 <= k < d.len() + 1 && d.push(s.last())[k] == e;
                        assert(d[k] == e);
                    }
                    if e == s.last() {
                        assert(d.push(s.last())[d.len() as int] == e);
                    }
                    if d.contains(e) {
                        let k = choose|k: int| 0 <= k < d.len() && d[k] == e;
                        assert(d.push(s.last())[k] == e);
                    }
                }
            }
            if e == s.last() {
                assert(s[s.len() - 1] == e);
            }
        }
    }
}

/// One probe pass over items, with the results in `cache`.
fn probe_pass_of(items: &[String], cache: &ProbeCache, clash: bool) -> (r: (
    Vec<String>,
    usize,
    usize,
    usize,
))
    ensures
        ({
            let pp = probe_pass(string_views(items@), cache@, clash);
            &&& string_views(r.0@) == pp.0
            &&& r.1 == pp.1
            &&& r.2 == pp.2
            &&& r.3 == pp.3
        }),
{
    let ghost sv = string_views(items@);
    let mut kept: Vec<String> = Vec::new();
    let mut ok: usize = 0;
    let mut bad: usize = 0;
    let mut none: usize = 0;
    let mut i: usize = 0;
    while i < items.len()
        invariant
            i <= items.len(),
            sv == string_views(items@),
            string_views(kept@) == probe_pass(sv.take(i as int), cache@, clash).0,
            ok == probe_pass(sv.take(i as int), cache@, clash).1,
            bad == probe_pass(sv.take(i as int), cache@, clash).2,
            none == probe_pass(sv.take(i as int), cache@, clash).3,
        decreases items.len() - i,
    {
        assert(sv.take(i + 1).drop_last() == sv.take(i as int));
        proof {
            law_probe_pass(sv.take(i as int), cache@, clash);
        }
        let item = &items[i];
        match item_endpoint_of(item, clash) {
            Some(ep) => {
                if reached_in(cache, &ep) {
                    proof {
                        lemma_string_views_push(kept@, *item);
                    }
                    kept.push(item.clone());
                    ok = ok + 1;
                } else {
                    bad = bad + 1;
                }
            },
            None => {
                proof {
                    lemma_string_views_push(kept@, *item);
                }
                kept.push(item.clone());
                none = none + 1;
            },
        }
        i = i + 1;
    }
    assert(sv.take(items.len() as int) == sv);
    (kept, ok, bad, none)
}

/// Keeps the v2ray nodes whose endpoint `probed` reports reachable, and
/// those whose endpoint cannot be read; `probed` holds the results of
/// probing [`collect_v2ray_endpoints`] of the nodes. When probing is off or
/// there are no nodes, every node is kept, no result is recorded, and
/// `probed` is not consulted.
pub fn filter_v2ray_nodes(nodes: &[String], cfg: &ProbeConfig, probed: ProbeCache) -> (r: (
    Vec<String>,
    ProbeStats,
    ProbeCache,
))
    ensures
        !cfg.enabled || nodes.len() == 0 ==> {
            &&& r.0.deep_view() == string_views(nodes@)
            &&& r.1 == (ProbeStats {
                before: nodes.len(),
                after: nodes.len(),
                reachable: 0,
                unreachable: 0,
                unparsed: 0,
            })
            &&& r.2@ == Map::<(Seq<char>, u16), ProbeResult>::empty()
        },
        cfg.enabled && nodes.len() > 0 ==> {
            let pp = probe_pass(string_views(nodes@), probed@, false);
            &&& r.0.deep_view() == pp.0
            &&& r.1 == (ProbeStats {
                before: nodes.len(),
                after: pp.0.len() as usize,
                reachable: pp.1 as usize,
                unreachable: pp.2 as usize,
                unparsed: pp.3 as usize,
            })
            &&& r.2@ == probed@
        },
{
    if !cfg.enabled || nodes.len() == 0 {
        let mut all: Vec<String> = Vec::new();
        let mut i: usize = 0;
        while i < nodes.len()
            invariant
                i <= nodes.len(),
                string_views(all@) == string_views(nodes@).take(i as int),
            decreases nodes.len() - i,
        {
            proof {
                lemma_string_views_push(all@, nodes@[i as int]);
            }
            all.push(nodes[i].clone());
            i = i + 1;
        }
        assert(string_views(nodes@).take(nodes.len() as int) == string_views(nodes@));
        proof {
            lemma_string_views(all);
        }
        let stats = ProbeStats {
            before: nodes.len(),
            after: nodes.len(),
            reachable: 0,
            unreachable: 0,
            unparsed: 0,
        };
        return (all, stats, ProbeCache::new());
    }
    let (kept, ok, bad, none) = probe_pass_of(nodes, &probed, false);
    proof {
        lemma_string_views(kept);
    }
    let stats = ProbeStats {
        before: nodes.len(),
        after: kept.len(),
        reachable: ok,
        unreachable: bad,
        unparsed: none,
    };
    (kept, stats, probed)
}

/// Keeps, in each Clash document, the proxy blocks whose endpoint `probed`
/// reports reachable and those whose endpoint cannot be read (see
/// [`probed_chunks`]); `probed` holds the results of probing
/// [`collect_clash_endpoints`] of the documents. When probing is off or
/// there are no documents, every document is kept with zero counts and no
/// result recorded.
pub fn filter_clash_chunks(chunks: &[String], cfg: &ProbeConfig, probed: ProbeCache) -> (r: (
    Vec<String>,
    ProbeStats,
    ProbeCache,
))
    ensures
        !cfg.enabled || chunks.len() == 0 ==> {
            &&& r.0.deep_view() == string_views(chunks@)
            &&& r.1 == ProbeStats::zero_spec()
            &&& r.2@ == Map::<(Seq<char>, u16), ProbeResult>::empty()
        },
        cfg.enabled && chunks.len() > 0 ==> {
            &&& r.0.deep_view() == probed_chunks(string_views(chunks@), probed@).0
            &&& r.1 == probed_chunks(string_views(chunks@), probed@).1
            &&& r.2@ == probed@
        },
{
    let ghost sv = string_views(chunks@);
    if !cfg.enabled || chunks.len() == 0 {
        let mut all: Vec<String> = Vec::new();
        let mut i: usize = 0;
        while i < chunks.len()
            invariant
                i <= chunks.len(),
                string_views(all@) == string_views(chunks@).take(i as int),
            decreases chunks.len() - i,
        {
            proof {
                lemma_string_views_push(all@, chunks@[i as int]);
            }
            all.push(chunks[i].clone());
            i = i + 1;
        }
        assert(string_views(chunks@).take(chunks.len() as int) == string_views(chunks@));
        proof {
            lemma_string_views(all);
        }
        return (all, ProbeStats::zero(), ProbeCache::new());
    }
    let mut out: Vec<String> = Vec::new();
    let mut stats = ProbeStats::zero();
    let mut i: usize = 0;
    while i < chunks.len()
        invariant
            i <= chunks.len(),
            sv == string_views(chunks@),
            string_views(out@) == probed_chunks(sv.take(i as int), probed@).0,
            stats == probed_chunks(sv.take(i as int), probed@).1,
        decreases chunks.len() - i,
    {
        assert(sv.take(i + 1).drop_last() == sv.take(i as int));
        let chunk = &chunks[i];
        match extract_clash_proxy_blocks(chunk.as_str()) {
            None => {
                proof {
                    lemma_string_views_push(out@, *chunk);
                }
                out.push(chunk.clone());
            },
            Some(blocks) => {
                proof {
                    lemma_string_views(blocks);
                }
                let (kept, ok, bad, none) = probe_pass_of(blocks.as_slice(), &probed, true);
                stats.before = stats.before.saturating_add(blocks.len());
                stats.after = stats.after.saturating_add(kept.len());
                stats.reachable = stats.reachable.saturating_add(ok);
                stats.unreachable = stats.unreachable.saturating_add(bad);
                stats.unparsed = stats.unparsed.saturating_add(none);
                if kept.len() > 0 {
                    let doc = build_clash_proxies(kept.as_slice());
                    proof {
                        lemma_string_views_push(out@, doc);
                    }
                    out.push(doc);
                }
            },
        }
        i = i + 1;
    }
    assert(sv.take(chunks.len() as int) == sv);
    proof {
        lemma_string_views(out);
    }
    (out, stats, probed)
}

} // verus!
