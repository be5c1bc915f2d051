//! Reading v2ray subscriptions and Clash YAML.
use vstd::prelude::*;
use crate::foreign::{base64_encode, base64_encoded, lower_text, to_lowercase};
use crate::probe::{decoded_text, decoded_text_of};
use crate::text::{
    contains_line, lemma_map_take_push, lemma_string_views, lemma_string_views_push, lemma_views_push,
    string_views,
    contains, contains_str, copy_range, from_chars, has_prefix_str, join, join_chars, lines,
    lines_of, push_all, push_str, starts_with, to_chars, trim, trim_chars, trim_end,
    trim_end_chars, utf8_bytes, utf8_of_char, views,
};

verus! {

/// A subscription's nodes, each once, and how many use each protocol.
pub struct NodeStats {
    pub nodes: Vec<String>,
    pub protocols: Vec<(String, usize)>,
}

/// A line is a node when it starts with a known share-link scheme.
pub open spec fn looks_like_node(line: Seq<char>) -> bool {
    ||| starts_with(line, "ss://"@)
    ||| starts_with(line, "ssr://"@)
    ||| starts_with(line, "vmess://"@)
    ||| starts_with(line, "vless://"@)
    ||| starts_with(line, "trojan://"@)
    ||| starts_with(line, "hysteria://"@)
    ||| starts_with(line, "hysteria2://"@)
    ||| starts_with(line, "tuic://"@)
    ||| starts_with(line, "hy2://"@)
}

fn looks_like_node_of(line: &[char]) -> (b: bool)
    ensures
        b == looks_like_node(line@),
{
    has_prefix_str(line, "ss://") || has_prefix_str(line, "ssr://") || has_prefix_str(
        line,
        "vmess://",
    ) || has_prefix_str(line, "vless://") || has_prefix_str(line, "trojan://")
        || has_prefix_str(line, "hysteria://") || has_prefix_str(line, "hysteria2://")
        || has_prefix_str(line, "tuic://") || has_prefix_str(line, "hy2://")
}

/// The protocol of a node: the first scheme, in the order of
/// [`looks_like_node`], that it starts with, without `://`; else `unknown`.
pub open spec fn protocol_of(node: Seq<char>) -> Seq<char> {
    if starts_with(node, "ss://"@) {
        "ss"@
    } else if starts_with(node, "ssr://"@) {
        "ssr"@
    } else if starts_with(node, "vmess://"@) {
        "vmess"@
    } else if starts_with(node, "vless://"@) {
        "vless"@
    } else if starts_with(node, "trojan://"@) {
        "trojan"@
    } else if starts_with(node, "hysteria://"@) {
        "hysteria"@
    } else if starts_with(node, "hysteria2://"@) {
        "hysteria2"@
    } else if starts_with(node, "tuic://"@) {
        "tuic"@
    } else if starts_with(node, "hy2://"@) {
        "hy2"@
    } else {
        "unknown"@
    }
}

/// Index of [`protocol_of`] in [`protocol_names`].
pub open spec fn protocol_index(node: Seq<char>) -> int {
    if starts_with(node, "ss://"@) {
        3
    } else if starts_with(node, "ssr://"@) {
        4
    } else if starts_with(node, "vmess://"@) {
        9
    } else if starts_with(node, "vless://"@) {
        8
    } else if starts_with(node, "trojan://"@) {
        5
    } else if starts_with(node, "hysteria://"@) {
        1
    } else if starts_with(node, "hysteria2://"@) {
        2
    } else if starts_with(node, "tuic://"@) {
        6
    } else if starts_with(node, "hy2://"@) {
        0
    } else {
        7
    }
}

/// Every protocol name, in ascending (byte-wise) order.
pub open spec fn protocol_names() -> Seq<Seq<char>> {
    seq![
        "hy2"@,
        "hysteria"@,
        "hysteria2"@,
        "ss"@,
        "ssr"@,
        "trojan"@,
        "tuic"@,
        "unknown"@,
        "vless"@,
        "vmess"@,
    ]
}

pub proof fn lemma_protocol_index(node: Seq<char>)
    ensures
        0 <= protocol_index(node) < 10,
        protocol_names()[protocol_index(node)] == protocol_of(node),
{
}

pub proof fn lemma_protocol_names_distinct(i: int, j: int)
    requires
        0 <= i < 10,
        0 <= j < 10,
    ensures
        protocol_names()[i] == protocol_names()[j] <==> i == j,
{
    reveal_strlit("hy2");
    reveal_strlit("hysteria");
    reveal_strlit("hysteria2");
    reveal_strlit("ss");
    reveal_strlit("ssr");
    reveal_strlit("trojan");
    reveal_strlit("tuic");
    reveal_strlit("unknown");
    reveal_strlit("vless");
    reveal_strlit("vmess");
    let n = protocol_names();
    assert(n[0].len() == 3 && n[1].len() == 8 && n[2].len() == 9 && n[3].len() == 2 && n[4].len()
        == 3 && n[5].len() == 6 && n[6].len() == 4 && n[7].len() == 7 && n[8].len() == 5
        && n[9].len() == 5);
    assert(n[0][0] != n[4][0]);
    assert(n[8][1] != n[9][1]);
}

fn protocol_index_of(node: &[char]) -> (k: usize)
    ensures
        k == protocol_index(node@),
        k < 10,
{
    if has_prefix_str(node, "ss://") {
        3
    } else if has_prefix_str(node, "ssr://") {
        4
    } else if has_prefix_str(node, "vmess://") {
        9
    } else if has_prefix_str(node, "vless://") {
        8
    } else if has_prefix_str(node, "trojan://") {
        5
    } else if has_prefix_str(node, "hysteria://") {
        1
    } else if has_prefix_str(node, "hysteria2://") {
        2
    } else if has_prefix_str(node, "tuic://") {
        6
    } else if has_prefix_str(node, "hy2://") {
        0
    } else {
        7
    }
}

fn protocol_name(k: usize) -> (r: &'static str)
    requires
        k < 10,
    ensures
        r@ == protocol_names()[k as int],
{
    if k == 0 {
        "hy2"
    } else if k == 1 {
        "hysteria"
    } else if k == 2 {
        "hysteria2"
    } else if k == 3 {
        "ss"
    } else if k == 4 {
        "ssr"
    } else if k == 5 {
        "trojan"
    } else if k == 6 {
        "tuic"
    } else if k == 7 {
        "unknown"
    } else if k == 8 {
        "vless"
    } else {
        "vmess"
    }
}

/// How many nodes have protocol `name`.
pub open spec fn protocol_count(nodes: Seq<Seq<char>>, name: Seq<char>) -> nat {
    nodes.filter(|n: Seq<char>| protocol_of(n) == name).len()
}

/// The protocols that occur among the nodes, in ascending order of name,
/// each with its number of nodes.
pub open spec fn protocol_counts(nodes: Seq<Seq<char>>) -> Seq<(Seq<char>, nat)> {
    protocol_names().filter(|name: Seq<char>| protocol_count(nodes, name) > 0).map_values(
        |name: Seq<char>| (name, protocol_count(nodes, name)),
    )
}

/// The view of a list of (name, count) pairs.
pub open spec fn counts_view(v: Seq<(String, usize)>) -> Seq<(Seq<char>, nat)> {
    v.map_values(|p: (String, usize)| (p.0@, p.1 as nat))
}

/// Counts the nodes of each protocol; the protocols come in ascending
/// order of name, and only those that occur.
pub fn count_protocols(nodes: &[String]) -> (r: Vec<(String, usize)>)
    ensures
        counts_view(r@) == protocol_counts(nodes@.map_values(|n: String| n@)),
{
    let ghost nv = nodes@.map_values(|n: String| n@);
    let mut counts: Vec<usize> = Vec::new();
    let mut j: usize = 0;
    while j < 10
        invariant
            j <= 10,
            counts@.len() == j,
            forall|k: int| 0 <= k < j ==> counts@[k] == 0,
        decreases 10 - j,
    {
        counts.push(0);
        j = j + 1;
    }
    let mut i: usize = 0;
    while i < nodes.len()
        invariant
            i <= nodes.len(),
            nv == nodes@.map_values(|n: String| n@),
            counts@.len() == 10,
            forall|k: int|
                0 <= k < 10 ==> #[trigger] counts@[k] == protocol_count(
                    nv.take(i as int),
                    protocol_names()[k],
                ),
            forall|k: int| 0 <= k < 10 ==> #[trigger] counts@[k] <= i,
        decreases nodes.len() - i,
    {
        let c = to_chars(nodes[i].as_str());
        let k = protocol_index_of(c.as_slice());
        proof {
            lemma_protocol_index(c@);
        }
        let ghost before = counts@;
        counts.set(k, counts[k] + 1);
        proof {
            reveal_with_fuel(Seq::filter, 1);
            assert(nv.take(i + 1).drop_last() == nv.take(i as int));
            assert(nv.take(i + 1).last() == c@);
            assert forall|m: int| 0 <= m < 10 implies #[trigger] counts@[m] == protocol_count(
                nv.take(i + 1),
                protocol_names()[m],
            ) by {
                lemma_protocol_names_distinct(m, k as int);
            }
        }
        i = i + 1;
    }
    assert(nv.take(nodes.len() as int) == nv);
    let mut r: Vec<(String, usize)> = Vec::new();
    let mut k: usize = 0;
    while k < 10
        invariant
            k <= 10,
            counts@.len() == 10,
            forall|m: int|
                0 <= m < 10 ==> #[trigger] counts@[m] == protocol_count(nv, protocol_names()[m]),
            counts_view(r@) == protocol_names().take(k as int).filter(
                |name: Seq<char>| protocol_count(nv, name) > 0,
            ).map_values(|name: Seq<char>| (name, protocol_count(nv, name))),
        decreases 10 - k,
    {
        proof {
            reveal_with_fuel(Seq::filter, 1);
            assert(protocol_names().take(k + 1).drop_last() == protocol_names().take(k as int));
        }
        if counts[k] > 0 {
            let name = protocol_name(k);
            let ghost before = r@;
            r.push((name.to_owned(), counts[k]));
            assert(counts_view(r@) == counts_view(before).push((name@, counts@[k as int] as nat)));
        }
        k = k + 1;
    }
    assert(protocol_names().take(10) == protocol_names());
    r
}


/// Each line of `s`, trimmed.
pub open spec fn trimmed_lines(s: Seq<char>) -> Seq<Seq<char>> {
    lines(s).map_values(|l: Seq<char>| trim(l))
}

/// The candidate node lines of a subscription body: when the trimmed body
/// decodes from base64 to text with some node line, the lines of that
/// (trimmed) text; otherwise the lines of the body; each line trimmed.
pub open spec fn node_lines(raw: Seq<char>) -> Seq<Seq<char>> {
    let t = trim(raw);
    match decoded_text(t) {
        Some(d) => if has_node_line(lines(trim(d))) {
            trimmed_lines(trim(d))
        } else {
            trimmed_lines(t)
        },
        None => trimmed_lines(t),
    }
}

/// Some line, trimmed, is a node.
pub open spec fn has_node_line(ls: Seq<Seq<char>>) -> bool {
    exists|k: int| 0 <= k < ls.len() && #[trigger] looks_like_node(trim(ls[k]))
}

/// The first occurrence of each element, in order.
pub open spec fn dedup(s: Seq<Seq<char>>) -> Seq<Seq<char>>
    decreases s.len(),
{
    if s.len() == 0 {
        s
    } else {
        let d = dedup(s.drop_last());
        if d.contains(s.last()) {
            d
        } else {
            d.push(s.last())
        }
    }
}

/// The nodes of a subscription body: its node lines, trimmed, each once,
/// in order of first appearance.
pub open spec fn subscription_nodes(raw: Seq<char>) -> Seq<Seq<char>> {
    dedup(node_lines(raw).map_values(|l: Seq<char>| trim(l)).filter(|l: Seq<char>| looks_like_node(l)))
}

fn trim_each(ls: Vec<Vec<char>>) -> (r: Vec<Vec<char>>)
    ensures
        views(r@) == views(ls@).map_values(|l: Seq<char>| trim(l)),
{
    let mut r: Vec<Vec<char>> = Vec::new();
    let mut i: usize = 0;
    while i < ls.len()
        invariant
            i <= ls.len(),
            views(r@) == views(ls@).take(i as int).map_values(|l: Seq<char>| trim(l)),
        decreases ls.len() - i,
    {
        let t = trim_chars(ls[i].as_slice());
        proof {
            lemma_views_push(r@, t);
            lemma_map_take_push(views(ls@), |l: Seq<char>| trim(l), i as int);
        }
        r.push(t);
        i = i + 1;
    }
    assert(views(ls@).take(ls.len() as int) == views(ls@));
    r
}

fn any_node_line(ls: &Vec<Vec<char>>) -> (b: bool)
    ensures
        b == has_node_line(views(ls@)),
{
    let mut i: usize = 0;
    while i < ls.len()
        invariant
            i <= ls.len(),
            forall|k: int| 0 <= k < i ==> !#[trigger] looks_like_node(trim(views(ls@)[k])),
        decreases ls.len() - i,
    {
        let t = trim_chars(ls[i].as_slice());
        if looks_like_node_of(t.as_slice()) {
            assert(looks_like_node(trim(views(ls@)[i as int])));
            return true;
        }
        i = i + 1;
    }
    false
}

fn extract_node_lines(raw: &[char]) -> (r: Vec<Vec<char>>)
    ensures
        views(r@) == node_lines(raw@),
{
    let t = trim_chars(raw);
    match decoded_text_of(t.as_slice()) {
        Some(d) => {
            let dt = trim_chars(d.as_slice());
            let ls = lines_of(dt.as_slice());
            if any_node_line(&ls) {
                let r = trim_each(ls);
                assert(views(r@) =~= trimmed_lines(dt@));
                return r;
            }
        },
        None => {},
    }
    let r = trim_each(lines_of(t.as_slice()));
    assert(views(r@) =~= trimmed_lines(t@));
    r
}

/// Strings holding the given character vectors.
pub fn to_strings(v: &Vec<Vec<char>>) -> (r: Vec<String>)
    ensures
        r.deep_view() == views(v@),
{
    let mut r: Vec<String> = Vec::new();
    let mut i: usize = 0;
    while i < v.len()
        invariant
            i <= v.len(),
            r.deep_view() == views(v@).take(i as int),
        decreases v.len() - i,
    {
        let x = from_chars(v[i].as_slice());
        proof {
            lemma_string_views(r);
            lemma_string_views_push(r@, x);
            lemma_map_take_push(v@, |y: Vec<char>| y@, i as int);
        }
        r.push(x);
        proof {
            lemma_string_views(r);
        }
        i = i + 1;
    }
    assert(views(v@).take(v.len() as int) == views(v@));
    r
}

/// Character vectors holding the given strings.
pub fn to_char_vecs(v: &[String]) -> (r: Vec<Vec<char>>)
    ensures
        views(r@) == v@.map_values(|s: String| s@),
{
    let mut r: Vec<Vec<char>> = Vec::new();
    let mut i: usize = 0;
    while i < v.len()
        invariant
            i <= v.len(),
            views(r@) == v@.take(i as int).map_values(|s: String| s@),
        decreases v.len() - i,
    {
        let x = to_chars(v[i].as_str());
        proof {
            lemma_views_push(r@, x);
            lemma_map_take_push(v@, |s: String| s@, i as int);
        }
        r.push(x);
        i = i + 1;
    }
    assert(v@.take(v.len() as int) == v@);
    r
}

/// Reads a v2ray subscription body, plain or base64, into its distinct
/// node links (in order of first appearance) and the count per protocol.
pub fn parse_v2ray_content(raw: &str) -> (r: NodeStats)
    ensures
        r.nodes.deep_view() == subscription_nodes(raw@),
        counts_view(r.protocols@) == protocol_counts(subscription_nodes(raw@)),
{
    let rc = to_chars(raw);
    let ls = extract_node_lines(rc.as_slice());
    let ghost cand = node_lines(raw@).map_values(|l: Seq<char>| trim(l)).filter(
        |l: Seq<char>| looks_like_node(l),
    );
    let mut nodes: Vec<Vec<char>> = Vec::new();
    let mut i: usize = 0;
    while i < ls.len()
        invariant
            i <= ls.len(),
            views(ls@) == node_lines(raw@),
            cand == node_lines(raw@).map_values(|l: Seq<char>| trim(l)).filter(
                |l: Seq<char>| looks_like_node(l),
            ),
            views(nodes@) == dedup(
                views(ls@).take(i as int).map_values(|l: Seq<char>| trim(l)).filter(
                    |l: Seq<char>| looks_like_node(l),
                ),
            ),
        decreases ls.len() - i,
    {
        let ghost lv = views(ls@);
        let t = trim_chars(ls[i].as_slice());
        proof {
            reveal_with_fuel(Seq::filter, 1);
            assert(lv.take(i + 1).map_values(|l: Seq<char>| trim(l)).drop_last() == lv.take(
                i as int,
            ).map_values(|l: Seq<char>| trim(l)));
            assert(lv.take(i + 1).map_values(|l: Seq<char>| trim(l)).last() == t@);
        }
        let ghost prev = lv.take(i as int).map_values(|l: Seq<char>| trim(l)).filter(
            |l: Seq<char>| looks_like_node(l),
        );
        let ghost next = lv.take(i + 1).map_values(|l: Seq<char>| trim(l)).filter(
            |l: Seq<char>| looks_like_node(l),
        );
        proof {
            if looks_like_node(t@) {
                assert(next == prev.push(t@));
                assert(next.drop_last() == prev);
            } else {
                assert(next == prev);
            }
        }
        if looks_like_node_of(t.as_slice()) {
            if !contains_line(&nodes, t.as_slice()) {
                proof {
                    lemma_views_push(nodes@, t);
                }
                nodes.push(t);
            }
        }
        i = i + 1;
    }
    assert(views(ls@).take(ls.len() as int) == views(ls@));
    let out = to_strings(&nodes);
    let protocols = count_protocols(out.as_slice());
    assert(out@.map_values(|n: String| n@) =~= out.deep_view());
    NodeStats { nodes: out, protocols }
}

/// The nodes, one per line, encoded as standard base64 (the merged v2ray
/// subscription). When each node is a plain share link (see
/// [`crate::parser_laws::plain_node`]), the subscription reads back as
/// those nodes, each once.
pub fn merge_v2ray_nodes(all_nodes: &[String]) -> (r: String)
    requires
        join(all_nodes@.map_values(|n: String| n@), "\n"@).len() <= usize::MAX / 8,
    ensures
        r@ == base64_encoded(join(all_nodes@.map_values(|n: String| n@), "\n"@)),
        (forall|i: int|
            0 <= i < all_nodes@.len() ==> crate::parser_laws::plain_node(#[trigger] all_nodes@[i]@))
            ==> subscription_nodes(r@) == dedup(all_nodes@.map_values(|n: String| n@)),
{
    let ghost nv = all_nodes@.map_values(|n: String| n@);
    let parts = to_char_vecs(all_nodes);
    let sep = to_chars("\n");
    let body = join_chars(&parts, sep.as_slice());
    let s = from_chars(body.as_slice());
    proof {
        reveal_strlit("\n");
    }
    let r = base64_encode(s.as_str());
    proof {
        if forall|i: int|
            0 <= i < all_nodes@.len() ==> crate::parser_laws::plain_node(#[trigger] all_nodes@[i]@) {
            assert forall|i: int| 0 <= i < nv.len() implies crate::parser_laws::plain_node(#[trigger] nv[i]) by {
                assert(nv[i] == all_nodes@[i]@);
            }
            crate::parser_laws::lemma_subscription_round_trip(nv, r@);
        }
    }
    r
}


// ---------------------------------------------------------------------
// Clash YAML
// ---------------------------------------------------------------------

/// Where a scan of a Clash document's lines stands.
#[verifier::ext_equal]
pub ghost struct ScanState {
    pub in_proxies: bool,
    pub current: Seq<char>,
    pub blocks: Seq<Seq<char>>,
    pub stopped: bool,
}

/// One line of the scan for proxy blocks: a `proxies:` line opens the list;
/// inside it, a `  - ` line closes the block under way, lines indented by two
/// spaces join the current block, and any other line that is neither blank
/// nor a `#` comment ends the scan.
pub open spec fn scan_line(st: ScanState, line: Seq<char>) -> ScanState {
    if st.stopped {
        st
    } else if starts_with(line, "proxies:"@) {
        ScanState { in_proxies: true, ..st }
    } else if st.in_proxies {
        let flush = starts_with(line, "  - "@) && st.current.len() > 0;
        let cur = if flush {
            Seq::<char>::empty()
        } else {
            st.current
        };
        let blocks = if flush {
            st.blocks.push(trim_end(st.current))
        } else {
            st.blocks
        };
        if starts_with(line, "  "@) {
            ScanState { in_proxies: true, current: cur + line + seq!['\n'], blocks, stopped: false }
        } else if trim(line).len() > 0 && !starts_with(line, "#"@) {
            ScanState { in_proxies: true, current: cur, blocks, stopped: true }
        } else {
            ScanState { in_proxies: true, current: cur, blocks, stopped: false }
        }
    } else {
        st
    }
}

/// The scan after the given lines.
pub open spec fn scan_lines(ls: Seq<Seq<char>>) -> ScanState
    decreases ls.len(),
{
    if ls.len() == 0 {
        ScanState { in_proxies: false, current: seq![], blocks: seq![], stopped: false }
    } else {
        scan_line(scan_lines(ls.drop_last()), ls.last())
    }
}

/// The proxy blocks of a Clash document: `None` unless its lower case
/// contains `proxies:` and the scan of its lines finds some block; each block
/// without trailing whitespace.
pub open spec fn clash_proxy_blocks(yaml: Seq<char>) -> Option<Seq<Seq<char>>> {
    if !contains(lower_text(yaml), "proxies:"@) {
        None
    } else {
        let st = scan_lines(lines(yaml));
        let blocks = if st.current.len() > 0 {
            st.blocks.push(trim_end(st.current))
        } else {
            st.blocks
        };
        if blocks.len() == 0 {
            None
        } else {
            Some(blocks)
        }
    }
}

proof fn lemma_scan_stopped(ls: Seq<Seq<char>>, i: int)
    requires
        0 <= i <= ls.len(),
        scan_lines(ls.take(i)).stopped,
    ensures
        scan_lines(ls) == scan_lines(ls.take(i)),
    decreases ls.len() - i,
{
    if i < ls.len() {
        assert(ls.take(i + 1).drop_last() == ls.take(i));
        lemma_scan_stopped(ls, i + 1);
    } else {
        assert(ls.take(i) == ls);
    }
}

fn extract_clash_proxies(yaml: &[char]) -> (r: Option<Vec<Vec<char>>>)
    ensures
        match r {
            Some(b) => clash_proxy_blocks(yaml@) == Some(views(b@)),
            None => clash_proxy_blocks(yaml@) is None,
        },
{
    let ys = from_chars(yaml);
    let lower_s = to_lowercase(ys.as_str());
    let lower = to_chars(lower_s.as_str());
    if !contains_str(lower.as_slice(), "proxies:") {
        return None;
    }
    let ls = lines_of(yaml);
    let ghost lv = views(ls@);
    let mut blocks: Vec<Vec<char>> = Vec::new();
    let mut in_proxies = false;
    let mut current: Vec<char> = Vec::new();
    let mut stopped = false;
    let mut i: usize = 0;
    assert(lv.take(0) =~= Seq::<Seq<char>>::empty());
    assert(scan_lines(lv.take(0)) =~= (ScanState {
        in_proxies,
        current: current@,
        blocks: views(blocks@),
        stopped,
    }));
    while i < ls.len() && !stopped
        invariant
            i <= ls.len(),
            lv == views(ls@),
            scan_lines(lv.take(i as int)) == (ScanState {
                in_proxies,
                current: current@,
                blocks: views(blocks@),
                stopped,
            }),
        decreases ls.len() - i,
    {
        let line = ls[i].as_slice();
        let ghost st = scan_lines(lv.take(i as int));
        assert(lv.take(i + 1).drop_last() == lv.take(i as int));
        assert(lv.take(i + 1).last() == line@);
        let ghost next = scan_line(st, line@);
        if has_prefix_str(line, "proxies:") {
            in_proxies = true;
        } else if in_proxies {
            if has_prefix_str(line, "  - ") && current.len() > 0 {
                let b = trim_end_chars(current.as_slice());
                proof {
                    lemma_views_push(blocks@, b);
                }
                blocks.push(b);
                current = Vec::new();
            }
            assert(current@ =~= (if starts_with(line@, "  - "@) && st.current.len() > 0 {
                Seq::<char>::empty()
            } else {
                st.current
            }));
            if has_prefix_str(line, "  ") {
                push_all(&mut current, line);
                current.push('\n');
            } else {
                let t = trim_chars(line);
                if t.len() > 0 && !has_prefix_str(line, "#") {
                    stopped = true;
                }
            }
        }
        assert(next =~= (ScanState {
            in_proxies,
            current: current@,
            blocks: views(blocks@),
            stopped,
        }));
        i = i + 1;
    }
    proof {
        if stopped {
            lemma_scan_stopped(lv, i as int);
        } else {
            assert(lv.take(ls.len() as int) == lv);
        }
    }
    if current.len() > 0 {
        let b = trim_end_chars(current.as_slice());
        proof {
            lemma_views_push(blocks@, b);
        }
        blocks.push(b);
    }
    if blocks.len() == 0 {
        None
    } else {
        Some(blocks)
    }
}

/// The proxy blocks of a Clash YAML document, if it has any.
pub fn extract_clash_proxy_blocks(yaml: &str) -> (r: Option<Vec<String>>)
    ensures
        match r {
            Some(b) => clash_proxy_blocks(yaml@) == Some(b.deep_view()),
            None => clash_proxy_blocks(yaml@) is None,
        },
{
    let y = to_chars(yaml);
    match extract_clash_proxies(y.as_slice()) {
        Some(b) => Some(to_strings(&b)),
        None => None,
    }
}

/// Each line indented by two spaces and ended by a newline.
pub open spec fn indented(ls: Seq<Seq<char>>) -> Seq<char>
    decreases ls.len(),
{
    if ls.len() == 0 {
        seq![]
    } else {
        indented(ls.drop_last()) + "  "@ + ls.last() + seq!['\n']
    }
}

/// The lines of every block, in order, each indented by two spaces.
pub open spec fn indented_blocks(bs: Seq<Seq<char>>) -> Seq<char>
    decreases bs.len(),
{
    if bs.len() == 0 {
        seq![]
    } else {
        indented_blocks(bs.drop_last()) + indented(lines(bs.last()))
    }
}

/// A Clash document listing the given proxy blocks.
pub open spec fn proxies_yaml(bs: Seq<Seq<char>>) -> Seq<char> {
    "proxies:\n"@ + indented_blocks(bs)
}

fn push_indented_block(out: &mut Vec<char>, block: &[char])
    ensures
        final(out)@ == old(out)@ + indented(lines(block@)),
{
    let ls = lines_of(block);
    let ghost lv = views(ls@);
    let ghost start = out@;
    let mut i: usize = 0;
    while i < ls.len()
        invariant
            i <= ls.len(),
            lv == views(ls@),
            lv == lines(block@),
            out@ == start + indented(lv.take(i as int)),
        decreases ls.len() - i,
    {
        assert(lv.take(i + 1).drop_last() == lv.take(i as int));
        assert(lv.take(i + 1).last() == ls[i as int]@);
        push_str(out, "  ");
        push_all(out, ls[i].as_slice());
        out.push('\n');
        assert(out@ == start + indented(lv.take(i + 1)));
        i = i + 1;
    }
    assert(lv.take(ls.len() as int) == lv);
}

fn render_proxies(blocks: &Vec<Vec<char>>) -> (r: Vec<char>)
    ensures
        r@ == proxies_yaml(views(blocks@)),
{
    let mut out = to_chars("proxies:\n");
    let ghost bv = views(blocks@);
    let mut i: usize = 0;
    while i < blocks.len()
        invariant
            i <= blocks.len(),
            bv == views(blocks@),
            out@ == "proxies:\n"@ + indented_blocks(bv.take(i as int)),
        decreases blocks.len() - i,
    {
        assert(bv.take(i + 1).drop_last() == bv.take(i as int));
        assert(bv.take(i + 1).last() == blocks[i as int]@);
        push_indented_block(&mut out, blocks[i].as_slice());
        i = i + 1;
    }
    assert(bv.take(blocks.len() as int) == bv);
    out
}

/// A Clash document listing the given proxy blocks under `proxies:`.
pub fn build_clash_proxies(blocks: &[String]) -> (r: String)
    ensures
        r@ == proxies_yaml(string_views(blocks@)),
{
    let bs = to_char_vecs(blocks);
    let out = render_proxies(&bs);
    from_chars(out.as_slice())
}

/// The key by which a block is told apart: its first line, or nothing.
pub open spec fn block_key(b: Seq<char>) -> Seq<char> {
    if lines(b).len() > 0 {
        lines(b)[0]
    } else {
        seq![]
    }
}

/// The keys of the blocks, in order.
pub open spec fn block_keys(bs: Seq<Seq<char>>) -> Seq<Seq<char>> {
    bs.map_values(|b: Seq<char>| block_key(b))
}

proof fn lemma_block_keys_push(bs: Seq<Seq<char>>, b: Seq<char>)
    ensures
        block_keys(bs.push(b)) == block_keys(bs).push(block_key(b)),
{
    assert(block_keys(bs.push(b)) =~= block_keys(bs).push(block_key(b)));
}

/// The proxy blocks of all chunks, in order.
pub open spec fn all_proxy_blocks(chunks: Seq<Seq<char>>) -> Seq<Seq<char>>
    decreases chunks.len(),
{
    if chunks.len() == 0 {
        seq![]
    } else {
        all_proxy_blocks(chunks.drop_last()) + match clash_proxy_blocks(chunks.last()) {
            Some(b) => b,
            None => seq![],
        }
    }
}

/// The first block of each key, in order.
pub open spec fn dedup_blocks(bs: Seq<Seq<char>>) -> Seq<Seq<char>>
    decreases bs.len(),
{
    if bs.len() == 0 {
        bs
    } else {
        let d = dedup_blocks(bs.drop_last());
        if block_keys(d).contains(block_key(bs.last())) {
            d
        } else {
            d.push(bs.last())
        }
    }
}

/// The merged Clash document: every chunk's proxy blocks, the first of each
/// key kept; empty when there are none.
pub open spec fn merged_clash(chunks: Seq<Seq<char>>) -> Seq<char> {
    let kept = dedup_blocks(all_proxy_blocks(chunks));
    if kept.len() == 0 {
        seq![]
    } else {
        proxies_yaml(kept)
    }
}

fn block_key_of(b: &[char]) -> (r: Vec<char>)
    ensures
        r@ == block_key(b@),
{
    let ls = lines_of(b);
    if ls.len() > 0 {
        copy_range(ls[0].as_slice(), 0, ls[0].len())
    } else {
        Vec::new()
    }
}

/// Merges the proxy blocks of several Clash documents into one document,
/// keeping the first block of each key (its first line).
pub fn merge_clash_yaml(chunks: &[String]) -> (r: String)
    ensures
        r@ == merged_clash(string_views(chunks@)),
{
    let ghost cv = string_views(chunks@);
    let mut kept: Vec<Vec<char>> = Vec::new();
    let mut keys: Vec<Vec<char>> = Vec::new();
    let mut i: usize = 0;
    while i < chunks.len()
        invariant
            i <= chunks.len(),
            cv == string_views(chunks@),
            views(kept@) == dedup_blocks(all_proxy_blocks(cv.take(i as int))),
            views(keys@) == block_keys(views(kept@)),
        decreases chunks.len() - i,
    {
        assert(cv.take(i + 1).drop_last() == cv.take(i as int));
        assert(cv.take(i + 1).last() == chunks[i as int]@);
        let ghost before = all_proxy_blocks(cv.take(i as int));
        let c = to_chars(chunks[i].as_str());
        let found = extract_clash_proxies(c.as_slice());
        let blocks: Vec<Vec<char>> = match found {
            Some(b) => b,
            None => Vec::new(),
        };
        assert(all_proxy_blocks(cv.take(i + 1)) == before + views(blocks@));
        let mut j: usize = 0;
        while j < blocks.len()
            invariant
                j <= blocks.len(),
                views(kept@) == dedup_blocks(before + views(blocks@).take(j as int)),
                views(keys@) == block_keys(views(kept@)),
            decreases blocks.len() - j,
        {
            let ghost seen = before + views(blocks@).take(j as int);
            assert((before + views(blocks@).take(j + 1)).drop_last() == seen);
            assert(before + views(blocks@).take(j + 1) == seen.push(blocks[j as int]@));
            assert((before + views(blocks@).take(j + 1)).last() == blocks[j as int]@);
            let key = block_key_of(blocks[j].as_slice());
            if !contains_line(&keys, key.as_slice()) {
                let b = copy_range(blocks[j].as_slice(), 0, blocks[j].len());
                proof {
                    lemma_views_push(kept@, b);
                    lemma_views_push(keys@, key);
                    lemma_block_keys_push(views(kept@), b@);
                }
                let ghost kv = views(kept@);
                kept.push(b);
                keys.push(key);
                assert(views(kept@) == kv.push(b@));
                assert(b@ == blocks[j as int]@);
                assert(key@ == block_key(b@));
                assert(views(keys@) == block_keys(views(kept@)));
                assert(!block_keys(dedup_blocks(seen)).contains(block_key(blocks[j as int]@)));
                assert(dedup_blocks(seen.push(blocks[j as int]@)) == dedup_blocks(seen).push(blocks[j as int]@));
            } else {
                assert(block_keys(dedup_blocks(seen)).contains(block_key(blocks[j as int]@)));
                assert(dedup_blocks(seen.push(blocks[j as int]@)) == dedup_blocks(seen));
            }
            j = j + 1;
        }
        assert(views(blocks@).take(blocks.len() as int) == views(blocks@));
        i = i + 1;
    }
    assert(cv.take(chunks.len() as int) == cv);
    if kept.len() == 0 {
        return String::new();
    }
    let out = render_proxies(&kept);
    from_chars(out.as_slice())
}

/// The number of bytes in the UTF-8 encoding of `s` is above `n`.
fn utf8_len_above(s: &[char], n: usize) -> (r: bool)
    requires
        n <= 1000,
    ensures
        r == (utf8_bytes(s@).len() > n),
{
    let mut total: usize = 0;
    let mut i: usize = 0;
    while i < s.len()
        invariant
            i <= s.len(),
            total == utf8_bytes(s@.take(i as int)).len(),
            total <= n,
            n <= 1000,
        decreases s.len() - i,
    {
        assert(s@.take(i + 1).drop_last() == s@.take(i as int));
        let b = utf8_of_char(s[i]);
        total = total + b.len();
        if total > n {
            proof {
                lemma_utf8_len_mono(s@, i + 1);
            }
            return true;
        }
        i = i + 1;
    }
    assert(s@.take(s.len() as int) == s@);
    false
}

proof fn lemma_utf8_len_mono(s: Seq<char>, k: int)
    requires
        0 <= k <= s.len(),
    ensures
        utf8_bytes(s.take(k)).len() <= utf8_bytes(s).len(),
    decreases s.len() - k,
{
    if k < s.len() {
        lemma_utf8_len_mono(s, k + 1);
        assert(s.take(k + 1).drop_last() == s.take(k));
    } else {
        assert(s.take(k) == s);
    }
}

/// A Clash body is accepted when it is longer than 50 bytes and its lower
/// case contains `proxies:`.
pub open spec fn clash_valid(raw: Seq<char>) -> bool {
    utf8_bytes(raw).len() > 50 && contains(lower_text(raw), "proxies:"@)
}

/// Whether a fetched body looks like a Clash document.
pub fn validate_clash(raw: &str) -> (r: bool)
    ensures
        r == clash_valid(raw@),
{
    let c = to_chars(raw);
    if !utf8_len_above(c.as_slice(), 50) {
        return false;
    }
    let lower_s = to_lowercase(raw);
    let lower = to_chars(lower_s.as_str());
    contains_str(lower.as_slice(), "proxies:")
}

} // verus!
