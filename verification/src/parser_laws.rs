//! What parsing and merging guarantee, whatever the input.
use vstd::prelude::*;
use crate::parser::{
    block_key, block_keys, dedup, dedup_blocks, lemma_protocol_index, lemma_protocol_names_distinct,
    looks_like_node, node_lines, protocol_count, protocol_counts, protocol_index, protocol_names,
    protocol_of, subscription_nodes,
};
use crate::foreign::{base64_decoded, is_base64_char, is_utf8, lossy_text};
use crate::parser::{has_node_line, trimmed_lines};
use crate::probe::decoded_text;
use crate::text::{
    drop_ws, first_of, has_char, is_ws, join, lemma_first_of, lemma_utf8_injective, lines, starts_with,
    strip_cr, trim, trim_end, trim_start, utf8_bytes,
};

verus! {

/// Deduplication keeps one copy of each line and nothing else.
proof fn lemma_dedup(s: Seq<Seq<char>>)
    ensures
        dedup(s).no_duplicates(),
        forall|x: Seq<char>| #[trigger] dedup(s).contains(x) <==> s.contains(x),
    decreases s.len(),
{
    if s.len() > 0 {
        lemma_dedup(s.drop_last());
        let d = dedup(s.drop_last());
        assert forall|x: Seq<char>| #[trigger] dedup(s).contains(x) <==> s.contains(x) by {
            if s.contains(x) && !s.drop_last().contains(x) {
                let k = choose|k: int| 0 <= k < s.len() && s[k] == x;
                if k < s.len() - 1 {
                    assert(s.drop_last()[k] == x);
                }
            }
            if s.drop_last().contains(x) {
                let k = choose|k: int| 0 <= k < s.len() - 1 && s.drop_last()[k] == x;
                assert(s[k] == x);
            }
            if !d.contains(s.last()) {
                if d.push(s.last()).contains(x) && x != s.last() {
                    let k = choose|k: int| 0 <= k < d.len() + 1 && d.push(s.last())[k] == x;
                    assert(d[k] == x);
                }
                if x == s.last() {
                    assert(d.push(s.last())[d.len() as int] == x);
                }
                if d.contains(x) {
                    let k = choose|k: int| 0 <= k < d.len() && d[k] == x;
                    assert(d.push(s.last())[k] == x);
                }
            }
            if x == s.last() {
                assert(s[s.len() - 1] == x);
            }
        }
    }
}

/// The nodes of a subscription are distinct, each a trimmed line of the
/// body that starts with a known share-link scheme.
pub proof fn law_subscription_nodes(raw: Seq<char>)
    ensures
        subscription_nodes(raw).no_duplicates(),
        forall|k: int|
            0 <= k < subscription_nodes(raw).len() ==> looks_like_node(
                #[trigger] subscription_nodes(raw)[k],
            ),
        forall|k: int|
            0 <= k < subscription_nodes(raw).len() ==> node_lines(raw).map_values(
                |l: Seq<char>| trim(l),
            ).contains(#[trigger] subscription_nodes(raw)[k]),
        forall|l: Seq<char>|
            node_lines(raw).map_values(|l: Seq<char>| trim(l)).contains(l) && #[trigger] looks_like_node(l)
                ==> subscription_nodes(raw).contains(l),
{
    broadcast use vstd::seq_lib::group_filter_ensures;

    let t = node_lines(raw).map_values(|l: Seq<char>| trim(l));
    let c = t.filter(|l: Seq<char>| looks_like_node(l));
    lemma_dedup(c);
    assert forall|k: int| 0 <= k < subscription_nodes(raw).len() implies looks_like_node(
        #[trigger] subscription_nodes(raw)[k],
    ) && t.contains(subscription_nodes(raw)[k]) by {
        let x = subscription_nodes(raw)[k];
        assert(dedup(c).contains(x));
        let m = choose|m: int| 0 <= m < c.len() && c[m] == x;
        assert(looks_like_node(c[m]));
        t.lemma_filter_contains_rev(|l: Seq<char>| looks_like_node(l), x);
    }
    assert forall|l: Seq<char>| t.contains(l) && #[trigger] looks_like_node(l) implies subscription_nodes(
        raw,
    ).contains(l) by {
        let m = choose|m: int| 0 <= m < t.len() && t[m] == l;
        t.lemma_filter_contains(|l: Seq<char>| looks_like_node(l), m);
    }
}

/// The merged Clash document lists at most one proxy block per key (its
/// first line), and each listed block is one of the input blocks.
pub proof fn law_merged_blocks_distinct(bs: Seq<Seq<char>>)
    ensures
        forall|i: int, j: int|
            0 <= i < dedup_blocks(bs).len() && 0 <= j < dedup_blocks(bs).len() && i != j
                ==> block_key(#[trigger] dedup_blocks(bs)[i]) != block_key(
                #[trigger] dedup_blocks(bs)[j],
            ),
        forall|k: int| 0 <= k < dedup_blocks(bs).len() ==> bs.contains(#[trigger] dedup_blocks(bs)[k]),
        forall|k: int| 0 <= k < bs.len() ==> block_keys(dedup_blocks(bs)).contains(block_key(#[trigger] bs[k])),
    decreases bs.len(),
{
    if bs.len() > 0 {
        law_merged_blocks_distinct(bs.drop_last());
        let d = dedup_blocks(bs.drop_last());
        let x = bs.last();
        assert forall|k: int| 0 <= k < d.len() implies bs.contains(#[trigger] d[k]) by {
            let m = choose|m: int| 0 <= m < bs.len() - 1 && bs.drop_last()[m] == d[k];
            assert(bs[m] == d[k]);
        }
        assert forall|k: int| 0 <= k < bs.len() implies block_keys(dedup_blocks(bs)).contains(
            block_key(#[trigger] bs[k]),
        ) by {
            let u = dedup_blocks(bs);
            if k < bs.len() - 1 {
                assert(bs.drop_last()[k] == bs[k]);
                assert(block_keys(d).contains(block_key(bs[k])));
                let m = choose|m: int| 0 <= m < block_keys(d).len() && block_keys(d)[m] == block_key(bs[k]);
                if u != d {
                    assert(u == d.push(x));
                    assert(block_keys(u)[m] == block_key(u[m]));
                    assert(u[m] == d[m]);
                }
            } else {
                if u == d {
                } else {
                    assert(u == d.push(x));
                    assert(block_keys(u)[d.len() as int] == block_key(x));
                }
            }
        }
        if !block_keys(d).contains(block_key(x)) {
            let u = d.push(x);
            assert forall|k: int| 0 <= k < d.len() implies #[trigger] block_key(d[k]) != block_key(x) by {
                assert(block_keys(d)[k] == block_key(d[k]));
            }
            assert forall|i: int, j: int| 0 <= i < u.len() && 0 <= j < u.len() && i != j implies block_key(
                #[trigger] u[i],
            ) != block_key(#[trigger] u[j]) by {
                if i < d.len() && j < d.len() {
                    assert(u[i] == d[i] && u[j] == d[j]);
                } else if i < d.len() {
                    assert(u[i] == d[i]);
                } else {
                    assert(u[j] == d[j]);
                }
            }
            assert forall|k: int| 0 <= k < u.len() implies bs.contains(#[trigger] u[k]) by {
                if k == d.len() {
                    assert(bs[bs.len() - 1] == x);
                } else {
                    assert(u[k] == d[k]);
                }
            }
        }
    }
}

/// The sum of the counts of a list of (name, count) pairs.
pub open spec fn counts_total(cs: Seq<(Seq<char>, nat)>) -> nat
    decreases cs.len(),
{
    if cs.len() == 0 {
        0
    } else {
        counts_total(cs.drop_last()) + cs.last().1
    }
}

/// The sum of the counts of the given protocol names among the nodes.
pub open spec fn names_total(names: Seq<Seq<char>>, nodes: Seq<Seq<char>>) -> nat
    decreases names.len(),
{
    if names.len() == 0 {
        0
    } else {
        names_total(names.drop_last(), nodes) + protocol_count(nodes, names.last())
    }
}

proof fn lemma_names_total_push(names: Seq<Seq<char>>, nodes: Seq<Seq<char>>, x: Seq<char>)
    requires
        names.no_duplicates(),
    ensures
        names_total(names, nodes.push(x)) == names_total(names, nodes) + (if names.contains(
            protocol_of(x),
        ) {
            1int
        } else {
            0int
        }),
    decreases names.len(),
{
    reveal_with_fuel(Seq::filter, 1);
    if names.len() > 0 {
        let n = names.last();
        let d = names.drop_last();
        assert(d.no_duplicates()) by {
            assert forall|i: int, j: int| 0 <= i < d.len() && 0 <= j < d.len() && i != j implies d[i]
                != d[j] by {
                assert(names[i] == d[i] && names[j] == d[j]);
            }
        }
        lemma_names_total_push(d, nodes, x);
        assert(nodes.push(x).drop_last() == nodes);
        assert(names.contains(protocol_of(x)) <==> (d.contains(protocol_of(x)) || n == protocol_of(x))) by {
            if names.contains(protocol_of(x)) {
                let k = choose|k: int| 0 <= k < names.len() && names[k] == protocol_of(x);
                if k < names.len() - 1 {
                    assert(d[k] == protocol_of(x));
                }
            }
            if d.contains(protocol_of(x)) {
                let k = choose|k: int| 0 <= k < d.len() && d[k] == protocol_of(x);
                assert(names[k] == protocol_of(x));
            }
            if n == protocol_of(x) {
                assert(names[names.len() - 1] == n);
            }
        }
        if n == protocol_of(x) {
            assert(!d.contains(n)) by {
                if d.contains(n) {
                    let k = choose|k: int| 0 <= k < d.len() && d[k] == n;
                    assert(names[k] == names[names.len() - 1]);
                }
            }
        }
    }
}

proof fn lemma_names_total_all(nodes: Seq<Seq<char>>)
    ensures
        names_total(protocol_names(), nodes) == nodes.len(),
    decreases nodes.len(),
{
    let names = protocol_names();
    assert(names.no_duplicates()) by {
        assert forall|i: int, j: int| 0 <= i < names.len() && 0 <= j < names.len() && i != j implies names[i]
            != names[j] by {
            lemma_protocol_names_distinct(i, j);
        }
    }
    if nodes.len() == 0 {
        reveal_with_fuel(names_total, 11);
        reveal_with_fuel(Seq::filter, 1);
        assert forall|k: int| 0 <= k < names.len() implies protocol_count(nodes, #[trigger] names[k]) == 0 by {}
        assert(names.drop_last().drop_last().drop_last().drop_last().drop_last().drop_last()
            .drop_last().drop_last().drop_last().drop_last().len() == 0);
    } else {
        let x = nodes.last();
        lemma_names_total_all(nodes.drop_last());
        lemma_names_total_push(names, nodes.drop_last(), x);
        lemma_protocol_index(x);
        assert(names[protocol_index(x)] == protocol_of(x));
        assert(nodes.drop_last().push(x) == nodes);
    }
}

proof fn lemma_filtered_total(names: Seq<Seq<char>>, nodes: Seq<Seq<char>>)
    ensures
        counts_total(
            names.filter(|name: Seq<char>| protocol_count(nodes, name) > 0).map_values(
                |name: Seq<char>| (name, protocol_count(nodes, name)),
            ),
        ) == names_total(names, nodes),
    decreases names.len(),
{
    reveal_with_fuel(Seq::filter, 1);
    let p = |name: Seq<char>| protocol_count(nodes, name) > 0;
    let f = |name: Seq<char>| (name, protocol_count(nodes, name));
    if names.len() > 0 {
        lemma_filtered_total(names.drop_last(), nodes);
        let prev = names.drop_last().filter(p);
        if p(names.last()) {
            assert(names.filter(p).map_values(f) =~= prev.map_values(f).push(f(names.last())));
            assert(names.filter(p).map_values(f).drop_last() =~= prev.map_values(f));
        }
    }
}

/// The per-protocol counts of a node list add up to its number of nodes.
pub proof fn law_protocol_counts_total(nodes: Seq<Seq<char>>)
    ensures
        counts_total(protocol_counts(nodes)) == nodes.len(),
{
    lemma_names_total_all(nodes);
    lemma_filtered_total(protocol_names(), nodes);
}


/// A node as a subscription lists it, one per line: a share link with no
/// line break and no whitespace at its end.
pub open spec fn plain_node(n: Seq<char>) -> bool {
    looks_like_node(n) && !is_ws(n.last()) && !has_char(n, '\n')
}

proof fn lemma_node_start(n: Seq<char>)
    requires
        looks_like_node(n),
    ensures
        n.len() >= 5,
        !is_ws(n[0]),
{
    reveal_strlit("ss://");
    reveal_strlit("ssr://");
    reveal_strlit("vmess://");
    reveal_strlit("vless://");
    reveal_strlit("trojan://");
    reveal_strlit("hysteria://");
    reveal_strlit("hysteria2://");
    reveal_strlit("tuic://");
    reveal_strlit("hy2://");
    assert(n[0] == n.take(5)[0]);
}

proof fn lemma_trim_plain(s: Seq<char>)
    requires
        s.len() == 0 || (!is_ws(s[0]) && !is_ws(s.last())),
    ensures
        trim(s) == s,
{
    assert(trim_start(s) == s);
    assert(trim_end(s) == s);
}

pub proof fn lemma_filter_all<A>(s: Seq<A>, p: spec_fn(A) -> bool)
    requires
        forall|i: int| 0 <= i < s.len() ==> #[trigger] p(s[i]),
    ensures
        s.filter(p) == s,
    decreases s.len(),
{
    reveal_with_fuel(Seq::filter, 1);
    if s.len() > 0 {
        assert forall|i: int| 0 <= i < s.drop_last().len() implies #[trigger] p(s.drop_last()[i]) by {
            assert(s.drop_last()[i] == s[i]);
        }
        lemma_filter_all(s.drop_last(), p);
        assert(p(s[s.len() - 1]));
        assert(s.drop_last().push(s.last()) =~= s);
    }
}

proof fn lemma_join_front(ns: Seq<Seq<char>>)
    requires
        ns.len() >= 2,
    ensures
        join(ns, "\n"@) == ns[0] + "\n"@ + join(ns.drop_first(), "\n"@),
    decreases ns.len(),
{
    let sep = "\n"@;
    if ns.len() > 2 {
        let d = ns.drop_last();
        let t = ns.drop_first();
        lemma_join_front(d);
        assert(d.drop_first() =~= t.drop_last());
        assert(d[0] == ns[0]);
        assert(t.last() == ns.last());
        assert(join(ns, sep) == join(d, sep) + sep + ns.last());
        assert(join(t, sep) == join(t.drop_last(), sep) + sep + t.last());
        assert(join(d, sep) == ns[0] + sep + join(t.drop_last(), sep));
        assert(join(ns, sep) =~= ns[0] + sep + (join(t.drop_last(), sep) + sep + ns.last()));
        assert(join(ns, sep) =~= ns[0] + sep + join(t, sep));
    } else {
        assert(ns.drop_first().len() == 1);
        assert(ns.drop_first()[0] == ns[1]);
        assert(join(ns.drop_first(), sep) == ns[1]);
        assert(ns.drop_last().len() == 1);
        assert(ns.drop_last()[0] == ns[0]);
        assert(join(ns.drop_last(), sep) == ns[0]);
        assert(join(ns, sep) == join(ns.drop_last(), sep) + sep + ns.last());
        assert(join(ns, sep) =~= ns[0] + sep + join(ns.drop_first(), sep));
    }
}

proof fn lemma_join_ends(ns: Seq<Seq<char>>)
    requires
        ns.len() >= 1,
        forall|i: int| 0 <= i < ns.len() ==> (#[trigger] ns[i]).len() > 0,
    ensures
        join(ns, "\n"@).len() > 0,
        join(ns, "\n"@)[0] == ns[0][0],
        join(ns, "\n"@).last() == ns.last().last(),
    decreases ns.len(),
{
    if ns.len() >= 2 {
        lemma_join_ends(ns.drop_last());
        assert(ns.drop_last()[0] == ns[0]);
        let j = join(ns.drop_last(), "\n"@) + "\n"@ + ns.last();
        assert(j[0] == join(ns.drop_last(), "\n"@)[0]);
        assert(j.last() == ns.last()[ns.last().len() - 1]);
    }
}

proof fn lemma_lines_of_join(ns: Seq<Seq<char>>)
    requires
        ns.len() >= 1,
        forall|i: int| 0 <= i < ns.len() ==> plain_node(#[trigger] ns[i]),
    ensures
        lines(join(ns, "\n"@)) == ns,
    decreases ns.len(),
{
    reveal_strlit("\n");
    let n = ns[0];
    assert(plain_node(n));
    lemma_node_start(n);
    assert(n.last() != '\r');
    if ns.len() == 1 {
        lemma_first_of(n, '\n');
        assert(lines(n) == seq![n]);
        assert(seq![n] =~= ns);
    } else {
        let rest = join(ns.drop_first(), "\n"@);
        lemma_join_front(ns);
        let s = n + "\n"@ + rest;
        assert forall|i: int| 0 <= i < ns.drop_first().len() implies plain_node(#[trigger] ns.drop_first()[i]) by {
            assert(ns.drop_first()[i] == ns[i + 1]);
        }
        lemma_lines_of_join(ns.drop_first());
        lemma_first_of(s, '\n');
        assert(s[n.len() as int] == '\n');
        assert forall|k: int| 0 <= k < n.len() implies s[k] != '\n' by {
            assert(s[k] == n[k]);
            if n[k] == '\n' {
                assert(has_char(n, '\n'));
            }
        }
        let f = first_of(s, '\n');
        if f < n.len() {
            assert(s[f] == '\n');
        }
        assert(f == n.len());
        assert(s.take(f) =~= n);
        assert(strip_cr(n) == n);
        assert(s.skip(f + 1) =~= rest);
        assert(lines(s) == seq![n] + lines(rest));
        assert(seq![n] + ns.drop_first() =~= ns);
    }
}

/// Reading back a merged subscription: when `encoded` is base64 text (no
/// whitespace) that decodes to the UTF-8 bytes of the nodes, one per line,
/// and is empty exactly for no nodes, the subscription's nodes are the
/// nodes, each once.
pub proof fn lemma_subscription_round_trip(ns: Seq<Seq<char>>, encoded: Seq<char>)
    requires
        forall|i: int| 0 <= i < ns.len() ==> plain_node(#[trigger] ns[i]),
        base64_decoded(encoded) == Some(utf8_bytes(join(ns, "\n"@))),
        forall|i: int| 0 <= i < encoded.len() ==> is_base64_char(#[trigger] encoded[i]),
        join(ns, "\n"@).len() == 0 ==> encoded.len() == 0,
    ensures
        subscription_nodes(encoded) == dedup(ns),
{
    let j = join(ns, "\n"@);
    // the base64 text has no whitespace
    assert forall|i: int| 0 <= i < encoded.len() implies !is_ws(#[trigger] encoded[i]) by {
        assert(is_base64_char(encoded[i]));
    }
    if encoded.len() > 0 {
        lemma_trim_plain(encoded);
    }
    assert(trim(encoded) == encoded);
    lemma_filter_all(encoded, |c: char| !is_ws(c));
    assert(drop_ws(encoded) == encoded);
    // the decoded text is the joined nodes
    assert(utf8_bytes(j) == utf8_bytes(j));
    assert(is_utf8(utf8_bytes(j)));
    let cs = choose|cs: Seq<char>| #[trigger] utf8_bytes(cs) == utf8_bytes(j);
    lemma_utf8_injective(cs, j);
    assert(lossy_text(utf8_bytes(j)) == j);
    assert(decoded_text(encoded) == Some(j));
    let looks = |l: Seq<char>| looks_like_node(l);
    if ns.len() == 0 {
        assert(j.len() == 0);
        assert(encoded.len() == 0);
        assert(j =~= Seq::<char>::empty());
        assert(lines(trim(j)) =~= Seq::<Seq<char>>::empty());
        assert(!has_node_line(lines(trim(j))));
        assert(node_lines(encoded) =~= Seq::<Seq<char>>::empty());
        reveal_with_fuel(Seq::filter, 1);
        assert(node_lines(encoded).map_values(|l: Seq<char>| trim(l)).filter(looks) =~= Seq::<
            Seq<char>,
        >::empty());
        assert(ns =~= Seq::<Seq<char>>::empty());
    } else {
        assert forall|i: int| 0 <= i < ns.len() implies (#[trigger] ns[i]).len() > 0 by {
            assert(plain_node(ns[i]));
            lemma_node_start(ns[i]);
        }
        lemma_join_ends(ns);
        assert(plain_node(ns[0]));
        lemma_node_start(ns[0]);
        assert(plain_node(ns[ns.len() - 1]));
        lemma_trim_plain(j);
        lemma_lines_of_join(ns);
        assert(lines(trim(j)) == ns);
        assert forall|i: int| 0 <= i < ns.len() implies trim(#[trigger] ns[i]) == ns[i] by {
            assert(plain_node(ns[i]));
            lemma_node_start(ns[i]);
            lemma_trim_plain(ns[i]);
        }
        assert(looks_like_node(trim(ns[0])));
        assert(has_node_line(ns));
        assert(trimmed_lines(j) =~= ns);
        assert(node_lines(encoded) == ns);
        assert(ns.map_values(|l: Seq<char>| trim(l)) =~= ns);
        assert forall|i: int| 0 <= i < ns.len() implies #[trigger] looks(ns[i]) by {
            assert(plain_node(ns[i]));
        }
        lemma_filter_all(ns, looks);
    }
}


/// Every listed scheme makes a line a node, and a node is exactly a line
/// whose protocol is known.
pub proof fn law_listed_schemes_are_nodes(l: Seq<char>)
    ensures
        starts_with(l, "ss://"@) ==> looks_like_node(l),
        starts_with(l, "ssr://"@) ==> looks_like_node(l),
        starts_with(l, "vmess://"@) ==> looks_like_node(l),
        starts_with(l, "vless://"@) ==> looks_like_node(l),
        starts_with(l, "trojan://"@) ==> looks_like_node(l),
        starts_with(l, "hysteria://"@) ==> looks_like_node(l),
        starts_with(l, "hysteria2://"@) ==> looks_like_node(l),
        starts_with(l, "tuic://"@) ==> looks_like_node(l),
        starts_with(l, "hy2://"@) ==> looks_like_node(l),
        looks_like_node(l) <==> protocol_of(l) != "unknown"@,
        starts_with(l, "ssr://"@) ==> protocol_of(l) == "ssr"@,
{
    reveal_strlit("ss://");
    reveal_strlit("ssr://");
    lemma_protocol_index(l);
    assert(protocol_names()[7] == "unknown"@);
    if looks_like_node(l) {
        assert(protocol_index(l) != 7);
        lemma_protocol_names_distinct(protocol_index(l), 7);
    }
    if starts_with(l, "ssr://"@) {
        assert(l[2] == l.take(6)[2]);
        if starts_with(l, "ss://"@) {
            assert(l[2] == l.take(5)[2]);
        }
    }
}

} // verus!
