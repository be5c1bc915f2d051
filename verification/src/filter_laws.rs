//! What a refinement guarantees, whatever the nodes and probe results.
use vstd::prelude::*;
use crate::filter::{
    best_per_endpoint, best_step, deduped, endpoint_slot, fast_enough, first_above, has_endpoint,
    lemma_first_above, node_endpoint, rank, refine_stats, refined, sort_by_rank, stage_fast,
    stage_parsed, stage_sorted, stage_unique, FilterConfig,
};
use crate::probe::ProbeResult;
use crate::tag::TagView;

verus! {

/// No two nodes that have an endpoint share it.
pub open spec fn endpoints_distinct(s: Seq<TagView>) -> bool {
    forall|i: int, j: int|
        #![trigger s[i], s[j]]
        0 <= i < s.len() && 0 <= j < s.len() && i != j && node_endpoint(s[i].0) is Some
            ==> node_endpoint(s[i].0) != node_endpoint(s[j].0)
}

/// The nodes come in order of rank (latency, unknown last).
pub open spec fn rank_sorted(s: Seq<TagView>, cache: Map<(Seq<char>, u16), ProbeResult>) -> bool {
    forall|i: int, j: int|
        #![trigger s[i], s[j]]
        0 <= i < j < s.len() ==> rank(s[i].0, cache) <= rank(s[j].0, cache)
}

/// Every node of `a` is a node of `b`.
pub open spec fn within(a: Seq<TagView>, b: Seq<TagView>) -> bool {
    forall|k: int| 0 <= k < a.len() ==> b.contains(#[trigger] a[k])
}

proof fn lemma_first_above_bounds(
    s: Seq<TagView>,
    r: u32,
    cache: Map<(Seq<char>, u16), ProbeResult>,
    i: int,
)
    requires
        0 <= i <= s.len(),
    ensures
        forall|k: int| i <= k < first_above(s, r, cache, i) ==> rank(#[trigger] s[k].0, cache) <= r,
        first_above(s, r, cache, i) < s.len() ==> rank(s[first_above(s, r, cache, i)].0, cache) > r,
    decreases s.len() - i,
{
    lemma_first_above(s, r, cache, i);
    if i < s.len() && rank(s[i].0, cache) <= r {
        lemma_first_above_bounds(s, r, cache, i + 1);
    }
}

proof fn lemma_within_trans(a: Seq<TagView>, b: Seq<TagView>, c: Seq<TagView>)
    requires
        within(a, b),
        within(b, c),
    ensures
        within(a, c),
{
    assert forall|k: int| 0 <= k < a.len() implies c.contains(#[trigger] a[k]) by {
        let m = choose|m: int| 0 <= m < b.len() && b[m] == a[k];
        assert(c.contains(b[m]));
    }
}

proof fn lemma_filter_within(s: Seq<TagView>, p: spec_fn(TagView) -> bool)
    ensures
        within(s.filter(p), s),
        forall|k: int| 0 <= k < s.filter(p).len() ==> p(#[trigger] s.filter(p)[k]),
{
    broadcast use vstd::seq_lib::group_filter_ensures;

    assert forall|k: int| 0 <= k < s.filter(p).len() implies s.contains(#[trigger] s.filter(p)[k]) by {
        s.lemma_filter_contains_rev(p, s.filter(p)[k]);
    }
}

proof fn lemma_take_within(s: Seq<TagView>, n: int)
    requires
        0 <= n <= s.len(),
    ensures
        within(s.take(n), s),
{
    assert forall|k: int| 0 <= k < s.take(n).len() implies s.contains(#[trigger] s.take(n)[k]) by {
        assert(s[k] == s.take(n)[k]);
    }
}

proof fn lemma_insert_sorted(
    t: Seq<TagView>,
    p: int,
    x: TagView,
    cache: Map<(Seq<char>, u16), ProbeResult>,
)
    requires
        rank_sorted(t, cache),
        0 <= p <= t.len(),
        forall|k: int| 0 <= k < p ==> rank(#[trigger] t[k].0, cache) <= rank(x.0, cache),
        p < t.len() ==> rank(t[p].0, cache) > rank(x.0, cache),
    ensures
        rank_sorted(t.insert(p, x), cache),
{
    let u = t.insert(p, x);
    t.insert_ensures(p, x);
    assert forall|i: int, j: int| 0 <= i < j < u.len() implies rank(#[trigger] u[i].0, cache) <= rank(
        #[trigger] u[j].0,
        cache,
    ) by {
        if i < p && j < p {
            assert(u[i] == t[i] && u[j] == t[j]);
        } else if i < p && j == p {
            assert(u[i] == t[i]);
        } else if i < p {
            assert(u[i] == t[i] && u[j] == t[j - 1]);
        } else if i == p {
            assert(u[j] == t[j - 1]);
            assert(t[p] == t[p]);
        } else {
            assert(u[i] == t[i - 1] && u[j] == t[j - 1]);
        }
    }
}

proof fn lemma_insert_distinct(t: Seq<TagView>, p: int, x: TagView)
    requires
        endpoints_distinct(t),
        0 <= p <= t.len(),
        forall|k: int|
            0 <= k < t.len() && node_endpoint(x.0) is Some ==> node_endpoint(x.0) != node_endpoint(
                #[trigger] t[k].0,
            ),
        forall|k: int|
            0 <= k < t.len() && node_endpoint(t[k].0) is Some ==> node_endpoint(#[trigger] t[k].0)
                != node_endpoint(x.0),
    ensures
        endpoints_distinct(t.insert(p, x)),
{
    let u = t.insert(p, x);
    t.insert_ensures(p, x);
    assert forall|i: int, j: int|
        0 <= i < u.len() && 0 <= j < u.len() && i != j && node_endpoint(#[trigger] u[i].0) is Some
        implies node_endpoint(u[i].0) != node_endpoint(#[trigger] u[j].0) by {
        let ti = if i < p {
            i
        } else {
            i - 1
        };
        let tj = if j < p {
            j
        } else {
            j - 1
        };
        if i == p {
            assert(u[j] == t[tj]);
        } else if j == p {
            assert(u[i] == t[ti]);
        } else {
            assert(u[i] == t[ti] && u[j] == t[tj]);
        }
    }
}

proof fn lemma_insert_members(s: Seq<TagView>, t: Seq<TagView>, p: int)
    requires
        s.len() > 0,
        0 <= p <= t.len(),
        within(t, s.drop_last()),
        within(s.drop_last(), t),
    ensures
        within(t.insert(p, s.last()), s),
        within(s, t.insert(p, s.last())),
{
    let d = s.drop_last();
    let x = s.last();
    let u = t.insert(p, x);
    t.insert_ensures(p, x);
    assert forall|k: int| 0 <= k < u.len() implies s.contains(#[trigger] u[k]) by {
        if k == p {
            assert(s[s.len() - 1] == x);
        } else {
            let tk = if k < p {
                k
            } else {
                k - 1
            };
            assert(u[k] == t[tk]);
            assert(d.contains(t[tk]));
            let m = choose|m: int| 0 <= m < d.len() && d[m] == t[tk];
            assert(s[m] == d[m]);
        }
    }
    assert forall|k: int| 0 <= k < s.len() implies u.contains(#[trigger] s[k]) by {
        if k == s.len() - 1 {
            assert(u[p] == x);
        } else {
            assert(s[k] == d[k]);
            assert(t.contains(d[k]));
            let m = choose|m: int| 0 <= m < t.len() && t[m] == d[k];
            if m < p {
                assert(u[m] == t[m]);
            } else {
                assert(u[m + 1] == t[m]);
            }
        }
    }
}

/// Sorting by rank keeps the nodes, orders them, and keeps endpoints apart.
proof fn lemma_sort(s: Seq<TagView>, cache: Map<(Seq<char>, u16), ProbeResult>)
    ensures
        sort_by_rank(s, cache).len() == s.len(),
        within(sort_by_rank(s, cache), s),
        within(s, sort_by_rank(s, cache)),
        rank_sorted(sort_by_rank(s, cache), cache),
        endpoints_distinct(s) ==> endpoints_distinct(sort_by_rank(s, cache)),
    decreases s.len(),
{
    if s.len() > 0 {
        let d = s.drop_last();
        let x = s.last();
        let t = sort_by_rank(d, cache);
        let r = rank(x.0, cache);
        lemma_sort(d, cache);
        let p = first_above(t, r, cache, 0);
        lemma_first_above(t, r, cache, 0);
        lemma_first_above_bounds(t, r, cache, 0);
        t.insert_ensures(p, x);
        assert(sort_by_rank(s, cache) == t.insert(p, x));
        lemma_insert_members(s, t, p);
        lemma_insert_sorted(t, p, x, cache);
        if endpoints_distinct(s) {
            assert(endpoints_distinct(d)) by {
                assert forall|i: int, j: int|
                    0 <= i < d.len() && 0 <= j < d.len() && i != j && node_endpoint(
                        #[trigger] d[i].0,
                    ) is Some implies node_endpoint(d[i].0) != node_endpoint(#[trigger] d[j].0) by {
                    assert(s[i] == d[i] && s[j] == d[j]);
                }
            }
            assert forall|k: int| 0 <= k < t.len() && node_endpoint(x.0) is Some implies node_endpoint(
                x.0,
            ) != node_endpoint(#[trigger] t[k].0) by {
                assert(d.contains(t[k]));
                let m = choose|m: int| 0 <= m < d.len() && d[m] == t[k];
                assert(s[m] == d[m] && s[s.len() - 1] == x);
            }
            assert forall|k: int| 0 <= k < t.len() && node_endpoint(t[k].0) is Some implies node_endpoint(
                #[trigger] t[k].0,
            ) != node_endpoint(x.0) by {
                assert(d.contains(t[k]));
                let m = choose|m: int| 0 <= m < d.len() && d[m] == t[k];
                assert(s[m] == d[m] && s[s.len() - 1] == x);
            }
            lemma_insert_distinct(t, p, x);
        }
    }
}

proof fn lemma_endpoint_slot_before(s: Seq<TagView>, ep: (Seq<char>, u16), i: int)
    requires
        0 <= i <= s.len(),
    ensures
        i <= endpoint_slot(s, ep, i) <= s.len(),
        endpoint_slot(s, ep, i) < s.len() ==> node_endpoint(s[endpoint_slot(s, ep, i)].0) == Some(ep),
        forall|k: int| i <= k < endpoint_slot(s, ep, i) ==> node_endpoint(#[trigger] s[k].0) != Some(ep),
    decreases s.len() - i,
{
    if i < s.len() && node_endpoint(s[i].0) != Some(ep) {
        lemma_endpoint_slot_before(s, ep, i + 1);
    }
}

/// The best node per endpoint has distinct endpoints, comes from the input,
/// and has no more nodes than the input has nodes with an endpoint.
proof fn lemma_best(s: Seq<TagView>, cache: Map<(Seq<char>, u16), ProbeResult>)
    ensures
        endpoints_distinct(best_per_endpoint(s, cache)),
        within(best_per_endpoint(s, cache), s),
        forall|k: int|
            0 <= k < best_per_endpoint(s, cache).len() ==> has_endpoint(
                #[trigger] best_per_endpoint(s, cache)[k],
            ),
        best_per_endpoint(s, cache).len() + s.filter(|t: TagView| !has_endpoint(t)).len()
            <= s.len(),
    decreases s.len(),
{
    reveal_with_fuel(Seq::filter, 1);
    if s.len() > 0 {
        let d = s.drop_last();
        let x = s.last();
        let b = best_per_endpoint(d, cache);
        lemma_best(d, cache);
        assert(best_per_endpoint(s, cache) == best_step(b, x, cache));
        assert(within(b, s)) by {
            assert forall|k: int| 0 <= k < b.len() implies s.contains(#[trigger] b[k]) by {
                let m = choose|m: int| 0 <= m < d.len() && d[m] == b[k];
                assert(s[m] == d[m]);
            }
        }
        match node_endpoint(x.0) {
            None => {},
            Some(ep) => {
                let k = endpoint_slot(b, ep, 0);
                lemma_endpoint_slot_before(b, ep, 0);
                if k < b.len() {
                    if rank(b[k].0, cache) > rank(x.0, cache) {
                        let u = b.update(k, x);
                        assert forall|m: int| 0 <= m < u.len() implies s.contains(#[trigger] u[m]) by {
                            if m == k {
                                assert(s[s.len() - 1] == x);
                            } else {
                                assert(u[m] == b[m]);
                            }
                        }
                        assert forall|i: int, j: int|
                            0 <= i < u.len() && 0 <= j < u.len() && i != j && node_endpoint(
                                #[trigger] u[i].0,
                            ) is Some implies node_endpoint(u[i].0) != node_endpoint(#[trigger] u[j].0) by {
                            assert(node_endpoint(b[k].0) == Some(ep));
                            if i == k {
                                assert(u[j] == b[j]);
                                assert(b[k] == b[k] && b[j] == b[j]);
                            } else if j == k {
                                assert(u[i] == b[i]);
                            } else {
                                assert(u[i] == b[i] && u[j] == b[j]);
                            }
                        }
                        assert forall|m: int| 0 <= m < u.len() implies has_endpoint(#[trigger] u[m]) by {
                            if m != k {
                                assert(u[m] == b[m]);
                            }
                        }
                    }
                } else {
                    let u = b.push(x);
                    assert forall|m: int| 0 <= m < u.len() implies s.contains(#[trigger] u[m]) by {
                        if m == b.len() {
                            assert(s[s.len() - 1] == x);
                        } else {
                            assert(u[m] == b[m]);
                        }
                    }
                    assert forall|m: int| 0 <= m < b.len() implies node_endpoint(#[trigger] b[m].0)
                        != Some(ep) by {}
                    assert forall|i: int, j: int|
                        0 <= i < u.len() && 0 <= j < u.len() && i != j && node_endpoint(
                            #[trigger] u[i].0,
                        ) is Some implies node_endpoint(u[i].0) != node_endpoint(#[trigger] u[j].0) by {
                        if i == b.len() {
                            assert(u[j] == b[j]);
                        } else if j == b.len() {
                            assert(u[i] == b[i]);
                        } else {
                            assert(u[i] == b[i] && u[j] == b[j]);
                        }
                    }
                    assert forall|m: int| 0 <= m < u.len() implies has_endpoint(#[trigger] u[m]) by {
                        if m < b.len() {
                            assert(u[m] == b[m]);
                        }
                    }
                }
            },
        }
    }
}

/// Deduplication keeps nodes of its input, keeps endpoints apart, and does
/// not grow the list.
proof fn lemma_deduped(s: Seq<TagView>, cache: Map<(Seq<char>, u16), ProbeResult>)
    ensures
        within(deduped(s, cache), s),
        endpoints_distinct(deduped(s, cache)),
        deduped(s, cache).len() <= s.len(),
{
    let f = s.filter(|t: TagView| !has_endpoint(t));
    let b = best_per_endpoint(s, cache);
    let o = sort_by_rank(b, cache);
    lemma_best(s, cache);
    lemma_sort(b, cache);
    lemma_filter_within(s, |t: TagView| !has_endpoint(t));
    lemma_within_trans(o, b, s);
    let u = f + o;
    assert(deduped(s, cache) == u);
    assert forall|k: int| 0 <= k < u.len() implies s.contains(#[trigger] u[k]) by {
        if k < f.len() {
            assert(u[k] == f[k]);
        } else {
            assert(u[k] == o[k - f.len()]);
        }
    }
    assert forall|k: int| 0 <= k < o.len() implies has_endpoint(#[trigger] o[k]) by {
        let m = choose|m: int| 0 <= m < b.len() && b[m] == o[k];
        assert(has_endpoint(b[m]));
    }
    assert forall|i: int, j: int|
        0 <= i < u.len() && 0 <= j < u.len() && i != j && node_endpoint(#[trigger] u[i].0) is Some
        implies node_endpoint(u[i].0) != node_endpoint(#[trigger] u[j].0) by {
        if i < f.len() {
            assert(u[i] == f[i]);
            assert(!has_endpoint(f[i]));
        } else if j < f.len() {
            assert(u[j] == f[j]);
            assert(!has_endpoint(f[j]));
            assert(u[i] == o[i - f.len()]);
        } else {
            assert(u[i] == o[i - f.len()] && u[j] == o[j - f.len()]);
        }
    }
}

proof fn lemma_stages(s: Seq<TagView>, cache: Map<(Seq<char>, u16), ProbeResult>, cfg: FilterConfig)
    ensures
        within(stage_parsed(s, cfg), s),
        within(stage_fast(s, cache, cfg), stage_parsed(s, cfg)),
        within(stage_unique(s, cache, cfg), stage_fast(s, cache, cfg)),
        within(stage_sorted(s, cache, cfg), stage_unique(s, cache, cfg)),
        within(refined(s, cache, cfg), stage_sorted(s, cache, cfg)),
        within(refined(s, cache, cfg), s),
        stage_parsed(s, cfg).len() <= s.len(),
        stage_fast(s, cache, cfg).len() <= stage_parsed(s, cfg).len(),
        stage_unique(s, cache, cfg).len() <= stage_fast(s, cache, cfg).len(),
        stage_sorted(s, cache, cfg).len() == stage_unique(s, cache, cfg).len(),
        refined(s, cache, cfg).len() <= stage_sorted(s, cache, cfg).len(),
        rank_sorted(stage_sorted(s, cache, cfg), cache),
        cfg.dedupe_endpoint ==> endpoints_distinct(stage_sorted(s, cache, cfg)),
{
    broadcast use vstd::seq_lib::group_filter_ensures;

    let sp = stage_parsed(s, cfg);
    let sf = stage_fast(s, cache, cfg);
    let su = stage_unique(s, cache, cfg);
    let ss = stage_sorted(s, cache, cfg);
    if cfg.drop_unparsed {
        lemma_filter_within(s, |t: TagView| has_endpoint(t));
    } else {
        assert forall|k: int| 0 <= k < sp.len() implies s.contains(#[trigger] sp[k]) by {
            assert(s[k] == sp[k]);
        }
    }
    match cfg.max_latency_ms {
        Some(max) => {
            lemma_filter_within(sp, |t: TagView| fast_enough(t, cache, max));
        },
        None => {
            assert forall|k: int| 0 <= k < sf.len() implies sp.contains(#[trigger] sf[k]) by {
                assert(sp[k] == sf[k]);
            }
        },
    }
    if cfg.dedupe_endpoint {
        lemma_deduped(sf, cache);
    } else {
        assert forall|k: int| 0 <= k < su.len() implies sf.contains(#[trigger] su[k]) by {
            assert(sf[k] == su[k]);
        }
    }
    lemma_sort(su, cache);
    let r = refined(s, cache, cfg);
    match cfg.max_nodes {
        Some(m) => if ss.len() > m {
            lemma_take_within(ss, m as int);
        } else {
            lemma_take_within(ss, ss.len() as int);
            assert(ss.take(ss.len() as int) == ss);
        },
        None => {
            lemma_take_within(ss, ss.len() as int);
            assert(ss.take(ss.len() as int) == ss);
        },
    }
    lemma_within_trans(r, ss, su);
    lemma_within_trans(r, su, sf);
    lemma_within_trans(r, sf, sp);
    lemma_within_trans(r, sp, s);
}

/// A refinement invents nothing: every node it keeps, with its source, is a
/// node of its input.
pub proof fn law_refined_from_input(
    s: Seq<TagView>,
    cache: Map<(Seq<char>, u16), ProbeResult>,
    cfg: FilterConfig,
)
    ensures
        within(refined(s, cache, cfg), s),
        refined(s, cache, cfg).len() <= s.len(),
{
    lemma_stages(s, cache, cfg);
}

/// With deduplication on, no two kept nodes share a host and port.
pub proof fn law_refined_unique_endpoints(
    s: Seq<TagView>,
    cache: Map<(Seq<char>, u16), ProbeResult>,
    cfg: FilterConfig,
)
    requires
        cfg.dedupe_endpoint,
    ensures
        endpoints_distinct(refined(s, cache, cfg)),
{
    lemma_stages(s, cache, cfg);
    let ss = stage_sorted(s, cache, cfg);
    let r = refined(s, cache, cfg);
    assert forall|i: int, j: int|
        0 <= i < r.len() && 0 <= j < r.len() && i != j && node_endpoint(#[trigger] r[i].0) is Some
        implies node_endpoint(r[i].0) != node_endpoint(#[trigger] r[j].0) by {
        assert(r[i] == ss[i] && r[j] == ss[j]);
    }
}

/// The kept nodes come in order of latency, nodes of unknown latency last.
pub proof fn law_refined_ordered(
    s: Seq<TagView>,
    cache: Map<(Seq<char>, u16), ProbeResult>,
    cfg: FilterConfig,
)
    ensures
        rank_sorted(refined(s, cache, cfg), cache),
{
    lemma_stages(s, cache, cfg);
    let ss = stage_sorted(s, cache, cfg);
    let r = refined(s, cache, cfg);
    assert forall|i: int, j: int| 0 <= i < j < r.len() implies rank(#[trigger] r[i].0, cache) <= rank(
        #[trigger] r[j].0,
        cache,
    ) by {
        assert(r[i] == ss[i] && r[j] == ss[j]);
    }
}

/// With a latency limit, every kept node passes it; with unreadable nodes
/// dropped, every kept node has a readable endpoint; with a cap, no more
/// nodes than the cap are kept.
pub proof fn law_refined_limits(
    s: Seq<TagView>,
    cache: Map<(Seq<char>, u16), ProbeResult>,
    cfg: FilterConfig,
)
    ensures
        cfg.max_latency_ms matches Some(max) ==> forall|k: int|
            0 <= k < refined(s, cache, cfg).len() ==> fast_enough(
                #[trigger] refined(s, cache, cfg)[k],
                cache,
                max,
            ),
        cfg.drop_unparsed ==> forall|k: int|
            0 <= k < refined(s, cache, cfg).len() ==> has_endpoint(
                #[trigger] refined(s, cache, cfg)[k],
            ),
        cfg.max_nodes matches Some(m) ==> refined(s, cache, cfg).len() <= m,
{
    broadcast use vstd::seq_lib::group_filter_ensures;

    lemma_stages(s, cache, cfg);
    let r = refined(s, cache, cfg);
    let sp = stage_parsed(s, cfg);
    let sf = stage_fast(s, cache, cfg);
    lemma_within_trans(r, stage_sorted(s, cache, cfg), stage_unique(s, cache, cfg));
    lemma_within_trans(r, stage_unique(s, cache, cfg), sf);
    lemma_within_trans(r, sf, sp);
    if let Some(max) = cfg.max_latency_ms {
        lemma_filter_within(sp, |t: TagView| fast_enough(t, cache, max));
        assert forall|k: int| 0 <= k < r.len() implies fast_enough(#[trigger] r[k], cache, max) by {
            let m = choose|m: int| 0 <= m < sf.len() && sf[m] == r[k];
            assert(fast_enough(sf[m], cache, max));
        }
    }
    if cfg.drop_unparsed {
        lemma_filter_within(s, |t: TagView| has_endpoint(t));
        assert forall|k: int| 0 <= k < r.len() implies has_endpoint(#[trigger] r[k]) by {
            let m = choose|m: int| 0 <= m < sp.len() && sp[m] == r[k];
            assert(has_endpoint(sp[m]));
        }
    }
}

/// The counts of a refinement add up: every input node is kept, or removed
/// by exactly one stage.
pub proof fn law_refine_stats_add_up(
    s: Seq<TagView>,
    cache: Map<(Seq<char>, u16), ProbeResult>,
    cfg: FilterConfig,
)
    requires
        s.len() <= usize::MAX,
    ensures
        refine_stats(s, cache, cfg).before == refine_stats(s, cache, cfg).after + refine_stats(
            s,
            cache,
            cfg,
        ).deduped + refine_stats(s, cache, cfg).slow_dropped + refine_stats(
            s,
            cache,
            cfg,
        ).unparsed_dropped + refine_stats(s, cache, cfg).capped,
{
    lemma_stages(s, cache, cfg);
}


/// The latency limit drops a node only on a probe result: a node without a
/// readable endpoint, or whose endpoint was not probed, passes; a probed
/// endpoint passes when its latency is within the limit, or when it was
/// reached but no latency was recorded, and fails otherwise.
pub proof fn law_latency_limit(t: TagView, cache: Map<(Seq<char>, u16), ProbeResult>, max: u32)
    ensures
        node_endpoint(t.0) is None ==> fast_enough(t, cache, max),
        (match node_endpoint(t.0) {
            Some(ep) => !cache.contains_key(ep),
            None => false,
        }) ==> fast_enough(t, cache, max),
        (match node_endpoint(t.0) {
            Some(ep) => cache.contains_key(ep) ==> (fast_enough(t, cache, max) <==> match cache[ep].latency_ms {
                Some(ms) => ms <= max,
                None => cache[ep].reachable,
            }),
            None => true,
        }),
{
}

/// With only a latency limit set and nothing probed, every node is kept.
pub proof fn law_unprobed_nodes_kept(s: Seq<TagView>, max: u32)
    ensures
        refined(
            s,
            Map::<(Seq<char>, u16), ProbeResult>::empty(),
            (FilterConfig {
                dedupe_endpoint: false,
                max_latency_ms: Some(max),
                max_nodes: None,
                drop_unparsed: false,
            }),
        ).len() == s.len(),
{
    let cache = Map::<(Seq<char>, u16), ProbeResult>::empty();
    let cfg = FilterConfig { dedupe_endpoint: false, max_latency_ms: Some(max), max_nodes: None, drop_unparsed: false };
    let keep = |t: TagView| fast_enough(t, cache, max);
    assert forall|i: int| 0 <= i < s.len() implies #[trigger] keep(s[i]) by {
        law_latency_limit(s[i], cache, max);
    }
    crate::parser_laws::lemma_filter_all(s, keep);
    assert(stage_fast(s, cache, cfg) == s);
    crate::filter::lemma_sort_len(s, cache);
}

} // verus!
