//! Refining node lists: dropping unreadable or slow nodes, one node per
//! endpoint, ordering by latency, and a cap.
use vstd::prelude::*;
use crate::parser::{
    clash_proxy_blocks, extract_clash_proxy_blocks, proxies_yaml, build_clash_proxies,
};
use crate::probe::{
    clash_endpoint, clash_endpoint_of, v2ray_endpoint, v2ray_endpoint_of, ProbeCache, ProbeResult,
};
use crate::tag::{
    chunk_views, lemma_chunk_views_push, lemma_tag_views_insert, lemma_tag_views_push,
    lemma_tag_views_update, tag_views, TagView, TaggedChunk,
    TaggedNode,
};
use crate::text::{
    lemma_map_take_push, lemma_string_views, lemma_string_views_push, same_chars, string_views,
    to_chars,
};

verus! {

/// How node lists are refined.
#[derive(Debug, Clone)]
pub struct FilterConfig {
    pub dedupe_endpoint: bool,
    pub max_latency_ms: Option<u32>,
    pub max_nodes: Option<usize>,
    pub drop_unparsed: bool,
}

impl FilterConfig {
    /// Whether any refinement is asked for.
    pub fn enabled(&self) -> (r: bool)
        ensures
            r == (self.dedupe_endpoint || self.max_latency_ms is Some || self.max_nodes is Some
                || self.drop_unparsed),
    {
        self.dedupe_endpoint || self.max_latency_ms.is_some() || self.max_nodes.is_some()
            || self.drop_unparsed
    }
}

/// What a refinement did.
#[derive(Debug, Clone)]
pub struct FilterStats {
    pub before: usize,
    pub after: usize,
    pub deduped: usize,
    pub slow_dropped: usize,
    pub unparsed_dropped: usize,
    pub capped: usize,
}

impl FilterStats {
    /// All counts zero.
    pub fn zero() -> (r: FilterStats)
        ensures
            r.before == 0 && r.after == 0 && r.deduped == 0 && r.slow_dropped == 0
                && r.unparsed_dropped == 0 && r.capped == 0,
    {
        FilterStats { before: 0, after: 0, deduped: 0, slow_dropped: 0, unparsed_dropped: 0, capped: 0 }
    }
}

impl Default for FilterStats {
    fn default() -> (r: FilterStats)
        ensures
            r.before == 0 && r.after == 0 && r.deduped == 0 && r.slow_dropped == 0
                && r.unparsed_dropped == 0 && r.capped == 0,
    {
        FilterStats::zero()
    }
}

/// The endpoint of a node: as a v2ray link, else as a Clash block.
pub open spec fn node_endpoint(node: Seq<char>) -> Option<(Seq<char>, u16)> {
    match v2ray_endpoint(node) {
        Some(e) => Some(e),
        None => clash_endpoint(node),
    }
}

/// The probed latency of a node's endpoint, if any.
pub open spec fn endpoint_latency(
    node: Seq<char>,
    cache: Map<(Seq<char>, u16), ProbeResult>,
) -> Option<u32> {
    match node_endpoint(node) {
        Some(ep) => if cache.contains_key(ep) {
            cache[ep].latency_ms
        } else {
            None
        },
        None => None,
    }
}

/// The key by which nodes are ordered: the latency, or `u32::MAX` when unknown.
pub open spec fn rank(node: Seq<char>, cache: Map<(Seq<char>, u16), ProbeResult>) -> u32 {
    match endpoint_latency(node, cache) {
        Some(ms) => ms,
        None => u32::MAX,
    }
}

/// A node whose endpoint can be read.
pub open spec fn has_endpoint(t: TagView) -> bool {
    node_endpoint(t.0) is Some
}

/// A node is kept by the latency limit unless its endpoint was probed and
/// the probe shows neither a latency within `max` nor a reachable endpoint
/// without latency.
pub open spec fn fast_enough(t: TagView, cache: Map<(Seq<char>, u16), ProbeResult>, max: u32) -> bool {
    match node_endpoint(t.0) {
        None => true,
        Some(ep) => if cache.contains_key(ep) {
            let r = cache[ep];
            (r.latency_ms matches Some(ms) && ms <= max) || (r.reachable && r.latency_ms is None)
        } else {
            true
        },
    }
}

/// The first position at or after `i` of a node with endpoint `ep`, or `s.len()`.
pub open spec fn endpoint_slot(s: Seq<TagView>, ep: (Seq<char>, u16), i: int) -> int
    decreases s.len() - i,
{
    if i >= s.len() {
        s.len() as int
    } else if i >= 0 && node_endpoint(s[i].0) == Some(ep) {
        i
    } else {
        endpoint_slot(s, ep, i + 1)
    }
}

/// Adding node `x` to the best nodes `b` found so far: a node without
/// endpoint changes nothing; a new endpoint is appended; for a known one,
/// `x` takes the place of the kept node only when its rank is lower.
pub open spec fn best_step(b: Seq<TagView>, x: TagView, cache: Map<(Seq<char>, u16), ProbeResult>) -> Seq<TagView> {
    match node_endpoint(x.0) {
        None => b,
        Some(ep) => {
            let k = endpoint_slot(b, ep, 0);
            if k < b.len() {
                if rank(b[k].0, cache) <= rank(x.0, cache) {
                    b
                } else {
                    b.update(k, x)
                }
            } else {
                b.push(x)
            }
        },
    }
}

/// One node per endpoint, in order of the endpoints' first appearance:
/// the first node of least rank among those with that endpoint.
pub open spec fn best_per_endpoint(s: Seq<TagView>, cache: Map<(Seq<char>, u16), ProbeResult>) -> Seq<TagView>
    decreases s.len(),
{
    if s.len() == 0 {
        s
    } else {
        best_step(best_per_endpoint(s.drop_last(), cache), s.last(), cache)
    }
}

/// The first position at or after `i` of a node ranked above `r`, or `s.len()`.
pub open spec fn first_above(s: Seq<TagView>, r: u32, cache: Map<(Seq<char>, u16), ProbeResult>, i: int) -> int
    decreases s.len() - i,
{
    if i >= s.len() {
        s.len() as int
    } else if i >= 0 && rank(s[i].0, cache) > r {
        i
    } else {
        first_above(s, r, cache, i + 1)
    }
}

/// Stable sort by rank: each node, in order, goes after every node already
/// placed whose rank is not above its own.
pub open spec fn sort_by_rank(s: Seq<TagView>, cache: Map<(Seq<char>, u16), ProbeResult>) -> Seq<TagView>
    decreases s.len(),
{
    if s.len() == 0 {
        s
    } else {
        let sorted = sort_by_rank(s.drop_last(), cache);
        sorted.insert(first_above(sorted, rank(s.last().0, cache), cache, 0), s.last())
    }
}

/// Deduplication by endpoint: the nodes without endpoint first, then the
/// best node of each endpoint, by rank.
pub open spec fn deduped(s: Seq<TagView>, cache: Map<(Seq<char>, u16), ProbeResult>) -> Seq<TagView> {
    s.filter(|t: TagView| !has_endpoint(t)) + sort_by_rank(best_per_endpoint(s, cache), cache)
}

/// After dropping unreadable nodes (when asked).
pub open spec fn stage_parsed(s: Seq<TagView>, cfg: FilterConfig) -> Seq<TagView> {
    if cfg.drop_unparsed {
        s.filter(|t: TagView| has_endpoint(t))
    } else {
        s
    }
}

/// After the latency limit (when set).
pub open spec fn stage_fast(s: Seq<TagView>, cache: Map<(Seq<char>, u16), ProbeResult>, cfg: FilterConfig) -> Seq<TagView> {
    match cfg.max_latency_ms {
        Some(max) => stage_parsed(s, cfg).filter(|t: TagView| fast_enough(t, cache, max)),
        None => stage_parsed(s, cfg),
    }
}

/// After deduplication by endpoint (when asked).
pub open spec fn stage_unique(s: Seq<TagView>, cache: Map<(Seq<char>, u16), ProbeResult>, cfg: FilterConfig) -> Seq<TagView> {
    if cfg.dedupe_endpoint {
        deduped(stage_fast(s, cache, cfg), cache)
    } else {
        stage_fast(s, cache, cfg)
    }
}

/// After ordering by rank.
pub open spec fn stage_sorted(s: Seq<TagView>, cache: Map<(Seq<char>, u16), ProbeResult>, cfg: FilterConfig) -> Seq<TagView> {
    sort_by_rank(stage_unique(s, cache, cfg), cache)
}

/// The refined node list: readable (when asked), fast enough (when a limit
/// is set), one per endpoint (when asked), ordered by latency, and at most
/// `max_nodes` long (when set).
pub open spec fn refined(s: Seq<TagView>, cache: Map<(Seq<char>, u16), ProbeResult>, cfg: FilterConfig) -> Seq<TagView> {
    let sorted = stage_sorted(s, cache, cfg);
    match cfg.max_nodes {
        Some(m) => if sorted.len() > m {
            sorted.take(m as int)
        } else {
            sorted
        },
        None => sorted,
    }
}

/// The counts of a refinement: the sizes before and after, and how many
/// nodes each stage removed.
pub open spec fn refine_stats(
    s: Seq<TagView>,
    cache: Map<(Seq<char>, u16), ProbeResult>,
    cfg: FilterConfig,
) -> FilterStats {
    FilterStats {
        before: s.len() as usize,
        after: refined(s, cache, cfg).len() as usize,
        deduped: (stage_fast(s, cache, cfg).len() - stage_unique(s, cache, cfg).len()) as usize,
        slow_dropped: (stage_parsed(s, cfg).len() - stage_fast(s, cache, cfg).len()) as usize,
        unparsed_dropped: (s.len() - stage_parsed(s, cfg).len()) as usize,
        capped: (stage_sorted(s, cache, cfg).len() - refined(s, cache, cfg).len()) as usize,
    }
}

/// `a + b`, or `usize::MAX` when that does not fit.
pub open spec fn sat_add(a: usize, b: usize) -> usize {
    if a + b > usize::MAX {
        usize::MAX
    } else {
        (a + b) as usize
    }
}

/// The field-wise (saturating) sum of two counts.
pub open spec fn add_stats(total: FilterStats, part: FilterStats) -> FilterStats {
    FilterStats {
        before: sat_add(total.before, part.before),
        after: sat_add(total.after, part.after),
        deduped: sat_add(total.deduped, part.deduped),
        slow_dropped: sat_add(total.slow_dropped, part.slow_dropped),
        unparsed_dropped: sat_add(total.unparsed_dropped, part.unparsed_dropped),
        capped: sat_add(total.capped, part.capped),
    }
}

/// Blocks of a chunk, each tagged with the chunk's source.
pub open spec fn tag_blocks(bs: Seq<Seq<char>>, source: Seq<char>) -> Seq<TagView> {
    bs.map_values(|b: Seq<char>| (b, source))
}

/// The refined Clash chunks: a chunk without proxy blocks stays as it is;
/// otherwise its blocks are refined like nodes and, when some remain, the
/// chunk becomes a document listing them, with the same source.
pub open spec fn refined_chunks(
    chunks: Seq<TagView>,
    cache: Map<(Seq<char>, u16), ProbeResult>,
    cfg: FilterConfig,
) -> Seq<TagView>
    decreases chunks.len(),
{
    if chunks.len() == 0 {
        chunks
    } else {
        let prev = refined_chunks(chunks.drop_last(), cache, cfg);
        let c = chunks.last();
        match clash_proxy_blocks(c.0) {
            None => prev.push(c),
            Some(bs) => {
                let r = refined(tag_blocks(bs, c.1), cache, cfg);
                if r.len() > 0 {
                    prev.push((proxies_yaml(r.map_values(|t: TagView| t.0)), c.1))
                } else {
                    prev
                }
            },
        }
    }
}

/// The counts of refining Clash chunks: the (saturating) sum over the chunks
/// with proxy blocks of the counts of refining their blocks.
pub open spec fn refined_chunks_stats(
    chunks: Seq<TagView>,
    cache: Map<(Seq<char>, u16), ProbeResult>,
    cfg: FilterConfig,
) -> FilterStats
    decreases chunks.len(),
{
    if chunks.len() == 0 {
        FilterStats { before: 0, after: 0, deduped: 0, slow_dropped: 0, unparsed_dropped: 0, capped: 0 }
    } else {
        let prev = refined_chunks_stats(chunks.drop_last(), cache, cfg);
        let c = chunks.last();
        match clash_proxy_blocks(c.0) {
            None => prev,
            Some(bs) => add_stats(prev, refine_stats(tag_blocks(bs, c.1), cache, cfg)),
        }
    }
}

/// The endpoint of a node given as characters.
fn node_endpoint_of(node: &[char]) -> (r: Option<(Vec<char>, u16)>)
    ensures
        match r {
            Some((h, p)) => node_endpoint(node@) == Some((h@, p)),
            None => node_endpoint(node@) is None,
        },
{
    match v2ray_endpoint_of(node) {
        Some(e) => Some(e),
        None => clash_endpoint_of(node),
    }
}

/// The probed latency of a node's endpoint, if any.
fn endpoint_latency_of(node: &[char], cache: &ProbeCache) -> (r: Option<u32>)
    ensures
        r == endpoint_latency(node@, cache@),
{
    match node_endpoint_of(node) {
        Some((h, p)) => match cache.lookup(h.as_slice(), p) {
            Some(res) => res.latency_ms,
            None => None,
        },
        None => None,
    }
}

fn rank_of(node: &str, cache: &ProbeCache) -> (r: u32)
    ensures
        r == rank(node@, cache@),
{
    let c = to_chars(node);
    match endpoint_latency_of(c.as_slice(), cache) {
        Some(ms) => ms,
        None => u32::MAX,
    }
}

fn has_endpoint_of(t: &TaggedNode) -> (r: bool)
    ensures
        r == has_endpoint(t@),
{
    let c = to_chars(t.node.as_str());
    node_endpoint_of(c.as_slice()).is_some()
}

fn fast_enough_of(t: &TaggedNode, cache: &ProbeCache, max: u32) -> (r: bool)
    ensures
        r == fast_enough(t@, cache@, max),
{
    let c = to_chars(t.node.as_str());
    match node_endpoint_of(c.as_slice()) {
        None => true,
        Some((h, p)) => match cache.lookup(h.as_slice(), p) {
            Some(res) => match res.latency_ms {
                Some(ms) => ms <= max || (res.reachable && res.latency_ms.is_none()),
                None => res.reachable,
            },
            None => true,
        },
    }
}

/// The nodes whose endpoint can be read.
fn keep_parsed(v: &Vec<TaggedNode>) -> (r: Vec<TaggedNode>)
    ensures
        tag_views(r@) == tag_views(v@).filter(|t: TagView| has_endpoint(t)),
{
    let mut r: Vec<TaggedNode> = Vec::new();
    let mut i: usize = 0;
    while i < v.len()
        invariant
            i <= v.len(),
            tag_views(r@) == tag_views(v@).take(i as int).filter(|t: TagView| has_endpoint(t)),
        decreases v.len() - i,
    {
        proof {
            reveal_with_fuel(Seq::filter, 1);
            lemma_map_take_push(v@, |t: TaggedNode| t@, i as int);
            assert(tag_views(v@).take(i + 1) == tag_views(v@.take(i + 1)));
            assert(tag_views(v@).take(i + 1).drop_last() == tag_views(v@).take(i as int));
        }
        if has_endpoint_of(&v[i]) {
            let x = v[i].duplicate();
            proof {
                lemma_tag_views_push(r@, x);
            }
            r.push(x);
        }
        i = i + 1;
    }
    assert(tag_views(v@).take(v.len() as int) == tag_views(v@));
    r
}

/// The nodes that the latency limit keeps.
fn keep_fast(v: &Vec<TaggedNode>, cache: &ProbeCache, max: u32) -> (r: Vec<TaggedNode>)
    ensures
        tag_views(r@) == tag_views(v@).filter(|t: TagView| fast_enough(t, cache@, max)),
{
    let mut r: Vec<TaggedNode> = Vec::new();
    let mut i: usize = 0;
    while i < v.len()
        invariant
            i <= v.len(),
            tag_views(r@) == tag_views(v@).take(i as int).filter(
                |t: TagView| fast_enough(t, cache@, max),
            ),
        decreases v.len() - i,
    {
        proof {
            reveal_with_fuel(Seq::filter, 1);
            assert(tag_views(v@).take(i + 1).drop_last() == tag_views(v@).take(i as int));
            assert(tag_views(v@).take(i + 1).last() == v[i as int]@);
        }
        if fast_enough_of(&v[i], cache, max) {
            let x = v[i].duplicate();
            proof {
                lemma_tag_views_push(r@, x);
            }
            r.push(x);
        }
        i = i + 1;
    }
    assert(tag_views(v@).take(v.len() as int) == tag_views(v@));
    r
}


/// Position at which a node of rank `r` goes into `sorted`.
fn insertion_point(ranks: &Vec<u32>, r: u32, Ghost(sv): Ghost<Seq<TagView>>, cache: &ProbeCache) -> (p: usize)
    requires
        ranks@.len() == sv.len(),
        forall|k: int| 0 <= k < sv.len() ==> #[trigger] ranks@[k] == rank(sv[k].0, cache@),
    ensures
        p == first_above(sv, r, cache@, 0),
        p <= sv.len(),
{
    let mut k: usize = 0;
    while k < ranks.len() && ranks[k] <= r
        invariant
            k <= ranks@.len(),
            ranks@.len() == sv.len(),
            forall|m: int| 0 <= m < sv.len() ==> #[trigger] ranks@[m] == rank(sv[m].0, cache@),
            first_above(sv, r, cache@, k as int) == first_above(sv, r, cache@, 0),
        decreases ranks.len() - k,
    {
        k = k + 1;
    }
    k
}

/// Stable sort by rank.
fn sort_tagged_by_rank(v: &Vec<TaggedNode>, cache: &ProbeCache) -> (r: Vec<TaggedNode>)
    ensures
        tag_views(r@) == sort_by_rank(tag_views(v@), cache@),
{
    let mut sorted: Vec<TaggedNode> = Vec::new();
    let mut ranks: Vec<u32> = Vec::new();
    let mut i: usize = 0;
    assert(tag_views(v@).take(0) =~= Seq::<TagView>::empty());
    assert(tag_views(sorted@) =~= Seq::<TagView>::empty());
    while i < v.len()
        invariant
            i <= v.len(),
            tag_views(sorted@) == sort_by_rank(tag_views(v@).take(i as int), cache@),
            ranks@.len() == sorted@.len(),
            forall|k: int|
                0 <= k < sorted@.len() ==> #[trigger] ranks@[k] == rank(
                    tag_views(sorted@)[k].0,
                    cache@,
                ),
        decreases v.len() - i,
    {
        let x = v[i].duplicate();
        let r = rank_of(x.node.as_str(), cache);
        let ghost sv = tag_views(sorted@);
        let p = insertion_point(&ranks, r, Ghost(sv), cache);
        proof {
            assert(tag_views(v@).take(i + 1).drop_last() == tag_views(v@).take(i as int));
            assert(tag_views(v@).take(i + 1).last() == x@);
            lemma_tag_views_insert(sorted@, p as int, x);
            ranks@.insert_ensures(p as int, r);
            sv.insert_ensures(p as int, x@);
        }
        let ghost old_ranks = ranks@;
        sorted.insert(p, x);
        ranks.insert(p, r);
        proof {
            assert forall|k: int|
                0 <= k < sorted@.len() implies #[trigger] ranks@[k] == rank(
                tag_views(sorted@)[k].0,
                cache@,
            ) by {
                if k > p {
                    assert(ranks@[(k - 1) + 1] == old_ranks[k - 1]);
                    assert(tag_views(sorted@)[(k - 1) + 1] == sv[k - 1]);
                }
            }
        }
        i = i + 1;
    }
    assert(tag_views(v@).take(v.len() as int) == tag_views(v@));
    sorted
}


pub proof fn lemma_sort_len(s: Seq<TagView>, cache: Map<(Seq<char>, u16), ProbeResult>)
    ensures
        sort_by_rank(s, cache).len() == s.len(),
    decreases s.len(),
{
    if s.len() > 0 {
        lemma_sort_len(s.drop_last(), cache);
        lemma_first_above(sort_by_rank(s.drop_last(), cache), rank(s.last().0, cache), cache, 0);
    }
}

pub proof fn lemma_first_above(s: Seq<TagView>, r: u32, cache: Map<(Seq<char>, u16), ProbeResult>, i: int)
    requires
        0 <= i <= s.len(),
    ensures
        i <= first_above(s, r, cache, i) <= s.len(),
    decreases s.len() - i,
{
    if i < s.len() && rank(s[i].0, cache) <= r {
        lemma_first_above(s, r, cache, i + 1);
    }
}

proof fn lemma_endpoint_slot(s: Seq<TagView>, ep: (Seq<char>, u16), i: int)
    requires
        0 <= i <= s.len(),
    ensures
        i <= endpoint_slot(s, ep, i) <= s.len(),
        endpoint_slot(s, ep, i) < s.len() ==> node_endpoint(s[endpoint_slot(s, ep, i)].0) == Some(ep),
    decreases s.len() - i,
{
    if i < s.len() && node_endpoint(s[i].0) != Some(ep) {
        lemma_endpoint_slot(s, ep, i + 1);
    }
}

/// The position of the endpoint `h`:`p` among `eps`, or `eps.len()`.
fn find_endpoint(eps: &Vec<(Vec<char>, u16)>, h: &[char], p: u16) -> (k: usize)
    ensures
        k <= eps@.len(),
        k < eps@.len() ==> (eps@[k as int].0@, eps@[k as int].1) == (h@, p),
        forall|m: int| 0 <= m < k ==> (#[trigger] eps@[m].0@, eps@[m].1) != (h@, p),
{
    let mut k: usize = 0;
    while k < eps.len()
        invariant
            k <= eps@.len(),
            forall|m: int| 0 <= m < k ==> (#[trigger] eps@[m].0@, eps@[m].1) != (h@, p),
        decreases eps.len() - k,
    {
        if eps[k].1 == p && same_chars(eps[k].0.as_slice(), h) {
            return k;
        }
        k = k + 1;
    }
    k
}

proof fn lemma_slot_from_endpoints(bv: Seq<TagView>, eps: Seq<(Seq<char>, u16)>, ep: (Seq<char>, u16), k: int)
    requires
        eps.len() == bv.len(),
        0 <= k <= bv.len(),
        forall|m: int| 0 <= m < bv.len() ==> node_endpoint(#[trigger] bv[m].0) == Some(eps[m]),
        forall|m: int| 0 <= m < k ==> #[trigger] eps[m] != ep,
        k < bv.len() ==> eps[k] == ep,
    ensures
        endpoint_slot(bv, ep, 0) == k,
{
    assert forall|i: int| 0 <= i <= k implies endpoint_slot(bv, ep, i) == k by {
        lemma_slot_down(bv, eps, ep, k, i);
    }
}

proof fn lemma_slot_down(bv: Seq<TagView>, eps: Seq<(Seq<char>, u16)>, ep: (Seq<char>, u16), k: int, i: int)
    requires
        eps.len() == bv.len(),
        0 <= i <= k <= bv.len(),
        forall|m: int| 0 <= m < bv.len() ==> node_endpoint(#[trigger] bv[m].0) == Some(eps[m]),
        forall|m: int| 0 <= m < k ==> #[trigger] eps[m] != ep,
        k < bv.len() ==> eps[k] == ep,
    ensures
        endpoint_slot(bv, ep, i) == k,
    decreases k - i,
{
    if i < k {
        assert(eps[i] != ep);
        assert(node_endpoint(bv[i].0) == Some(eps[i]));
        lemma_slot_down(bv, eps, ep, k, i + 1);
    } else if k < bv.len() {
        assert(node_endpoint(bv[k].0) == Some(eps[k]));
    }
}

/// The best nodes per endpoint, with each one's endpoint and rank.
pub open spec fn best_table_ok(
    best: Seq<TaggedNode>,
    eps: Seq<(Vec<char>, u16)>,
    ranks: Seq<u32>,
    cache: Map<(Seq<char>, u16), ProbeResult>,
) -> bool {
    &&& eps.len() == best.len()
    &&& ranks.len() == best.len()
    &&& forall|k: int|
        0 <= k < best.len() ==> node_endpoint(#[trigger] tag_views(best)[k].0) == Some(
            (eps[k].0@, eps[k].1),
        )
    &&& forall|k: int| 0 <= k < best.len() ==> #[trigger] ranks[k] == rank(tag_views(best)[k].0, cache)
}

/// Adds node `x` (with endpoint `h`:`p`) to the best nodes per endpoint;
/// true when its endpoint was known already.
fn place_best(
    best: &mut Vec<TaggedNode>,
    eps: &mut Vec<(Vec<char>, u16)>,
    ranks: &mut Vec<u32>,
    x: TaggedNode,
    h: Vec<char>,
    p: u16,
    cache: &ProbeCache,
) -> (dup: bool)
    requires
        best_table_ok(old(best)@, old(eps)@, old(ranks)@, cache@),
        node_endpoint(x@.0) == Some((h@, p)),
    ensures
        best_table_ok(final(best)@, final(eps)@, final(ranks)@, cache@),
        tag_views(final(best)@) == best_step(tag_views(old(best)@), x@, cache@),
        dup ==> final(best)@.len() == old(best)@.len(),
        !dup ==> final(best)@.len() == old(best)@.len() + 1,
{
    let ghost bv = tag_views(best@);
    let ghost ev = eps@.map_values(|e: (Vec<char>, u16)| (e.0@, e.1));
    let k = find_endpoint(eps, h.as_slice(), p);
    proof {
        assert forall|m: int| 0 <= m < bv.len() implies node_endpoint(#[trigger] bv[m].0) == Some(
            ev[m],
        ) by {
            assert(node_endpoint(tag_views(best@)[m].0) == Some((eps@[m].0@, eps@[m].1)));
        }
        assert forall|m: int| 0 <= m < k implies #[trigger] ev[m] != (h@, p) by {
            assert((eps@[m].0@, eps@[m].1) != (h@, p));
        }
        lemma_slot_from_endpoints(bv, ev, (h@, p), k as int);
    }
    let r = rank_of(x.node.as_str(), cache);
    if k < eps.len() {
        if ranks[k] > r {
            proof {
                lemma_tag_views_update(best@, k as int, x);
            }
            best.set(k, x);
            ranks.set(k, r);
        }
        true
    } else {
        proof {
            lemma_tag_views_push(best@, x);
        }
        best.push(x);
        eps.push((h, p));
        ranks.push(r);
        false
    }
}

/// One node per endpoint (see [`deduped`]), and how many nodes were dropped.
fn dedupe_tagged_by_endpoint(nodes: &Vec<TaggedNode>, cache: &ProbeCache) -> (r: (Vec<TaggedNode>, usize))
    ensures
        tag_views(r.0@) == deduped(tag_views(nodes@), cache@),
        r.1 + r.0@.len() == nodes@.len(),
{
    let ghost tv = tag_views(nodes@);
    let mut unparsed: Vec<TaggedNode> = Vec::new();
    let mut best: Vec<TaggedNode> = Vec::new();
    let mut eps: Vec<(Vec<char>, u16)> = Vec::new();
    let mut ranks: Vec<u32> = Vec::new();
    let mut count: usize = 0;
    let mut i: usize = 0;
    assert(tv.take(0) =~= Seq::<TagView>::empty());
    assert(tag_views(best@) =~= Seq::<TagView>::empty());
    assert(tag_views(unparsed@) =~= Seq::<TagView>::empty());
    while i < nodes.len()
        invariant
            i <= nodes.len(),
            tv == tag_views(nodes@),
            tag_views(unparsed@) == tv.take(i as int).filter(|t: TagView| !has_endpoint(t)),
            tag_views(best@) == best_per_endpoint(tv.take(i as int), cache@),
            best_table_ok(best@, eps@, ranks@, cache@),
            count + best@.len() + unparsed@.len() == i,
        decreases nodes.len() - i,
    {
        let x = nodes[i].duplicate();
        let c = to_chars(x.node.as_str());
        proof {
            reveal_with_fuel(Seq::filter, 1);
            assert(tv.take(i + 1).drop_last() == tv.take(i as int));
            assert(tv.take(i + 1).last() == x@);
        }
        match node_endpoint_of(c.as_slice()) {
            None => {
                proof {
                    lemma_tag_views_push(unparsed@, x);
                }
                unparsed.push(x);
            },
            Some((h, p)) => {
                if place_best(&mut best, &mut eps, &mut ranks, x, h, p, cache) {
                    count = count + 1;
                }
            },
        }
        i = i + 1;
    }
    assert(tv.take(nodes.len() as int) == tv);
    let sorted = sort_tagged_by_rank(&best, cache);
    proof {
        lemma_sort_len(tag_views(best@), cache@);
    }
    let mut out = unparsed;
    let mut j: usize = 0;
    let ghost base = tag_views(out@);
    while j < sorted.len()
        invariant
            j <= sorted.len(),
            tag_views(out@) == base + tag_views(sorted@).take(j as int),
            out@.len() == base.len() + j,
        decreases sorted.len() - j,
    {
        let y = sorted[j].duplicate();
        proof {
            lemma_tag_views_push(out@, y);
            assert(tag_views(sorted@).take(j + 1) == tag_views(sorted@).take(j as int).push(y@));
        }
        out.push(y);
        j = j + 1;
    }
    assert(tag_views(sorted@).take(sorted.len() as int) == tag_views(sorted@));
    (out, count)
}


/// The nodes, each tagged with an empty source.
fn tag_all(nodes: &[String]) -> (r: Vec<TaggedNode>)
    ensures
        tag_views(r@) == string_views(nodes@).map_values(|n: Seq<char>| (n, Seq::<char>::empty())),
{
    let mut r: Vec<TaggedNode> = Vec::new();
    let mut i: usize = 0;
    while i < nodes.len()
        invariant
            i <= nodes.len(),
            tag_views(r@) == string_views(nodes@).take(i as int).map_values(
                |n: Seq<char>| (n, Seq::<char>::empty()),
            ),
        decreases nodes.len() - i,
    {
        let x = TaggedNode::new(nodes[i].clone(), "");
        proof {
            reveal_strlit("");
            assert(""@ =~= Seq::<char>::empty());
            assert(x@ == (string_views(nodes@)[i as int], Seq::<char>::empty()));
            lemma_tag_views_push(r@, x);
            lemma_map_take_push(
                string_views(nodes@),
                |n: Seq<char>| (n, Seq::<char>::empty()),
                i as int,
            );
        }
        r.push(x);
        i = i + 1;
    }
    assert(string_views(nodes@).take(nodes.len() as int) == string_views(nodes@));
    r
}

/// Refines tagged nodes: drops nodes without readable endpoint (when
/// asked), nodes that the probe found too slow (when a limit is set), keeps
/// one node per endpoint (when asked), orders them by latency (unknown
/// last, ties in order), and keeps at most `max_nodes` (when set).
pub fn refine_v2ray_tagged(
    nodes: &[TaggedNode],
    probe_cache: &ProbeCache,
    cfg: &FilterConfig,
) -> (r: (Vec<TaggedNode>, FilterStats))
    ensures
        tag_views(r.0@) == refined(tag_views(nodes@), probe_cache@, *cfg),
        r.1 == refine_stats(tag_views(nodes@), probe_cache@, *cfg),
{
    let ghost s = tag_views(nodes@);
    let mut stats = FilterStats::zero();
    stats.before = nodes.len();
    let mut kept: Vec<TaggedNode> = Vec::new();
    let mut i: usize = 0;
    while i < nodes.len()
        invariant
            i <= nodes.len(),
            tag_views(kept@) == tag_views(nodes@).take(i as int),
        decreases nodes.len() - i,
    {
        let x = nodes[i].duplicate();
        proof {
            lemma_tag_views_push(kept@, x);
            lemma_map_take_push(nodes@, |t: TaggedNode| t@, i as int);
            assert(tag_views(nodes@).take(i + 1) == tag_views(nodes@.take(i + 1)));
            assert(tag_views(nodes@).take(i as int) == tag_views(nodes@.take(i as int)));
        }
        kept.push(x);
        i = i + 1;
    }
    assert(s.take(nodes.len() as int) == s);
    proof {
        s.lemma_filter_len(|t: TagView| has_endpoint(t));
    }
    if cfg.drop_unparsed {
        let k = keep_parsed(&kept);
        stats.unparsed_dropped = kept.len() - k.len();
        kept = k;
    }
    assert(tag_views(kept@) == stage_parsed(s, *cfg));
    if let Some(max) = cfg.max_latency_ms {
        proof {
            stage_parsed(s, *cfg).lemma_filter_len(|t: TagView| fast_enough(t, probe_cache@, max));
        }
        let k = keep_fast(&kept, probe_cache, max);
        stats.slow_dropped = kept.len() - k.len();
        kept = k;
    }
    assert(tag_views(kept@) == stage_fast(s, probe_cache@, *cfg));
    if cfg.dedupe_endpoint {
        let (k, n) = dedupe_tagged_by_endpoint(&kept, probe_cache);
        stats.deduped = n;
        kept = k;
    }
    assert(tag_views(kept@) == stage_unique(s, probe_cache@, *cfg));
    let mut sorted = sort_tagged_by_rank(&kept, probe_cache);
    proof {
        lemma_sort_len(tag_views(kept@), probe_cache@);
    }
    if let Some(max) = cfg.max_nodes {
        if sorted.len() > max {
            stats.capped = sorted.len() - max;
            sorted.truncate(max);
            assert(tag_views(sorted@) == stage_sorted(s, probe_cache@, *cfg).take(max as int));
        }
    }
    stats.after = sorted.len();
    (sorted, stats)
}

/// Refines plain node links (see [`refine_v2ray_tagged`]).
pub fn refine_v2ray_nodes(
    nodes: &[String],
    probe_cache: &ProbeCache,
    cfg: &FilterConfig,
) -> (r: (Vec<String>, FilterStats))
    ensures
        ({
            let s = string_views(nodes@).map_values(|n: Seq<char>| (n, Seq::<char>::empty()));
            &&& r.0.deep_view() == refined(s, probe_cache@, *cfg).map_values(|t: TagView| t.0)
            &&& r.1 == refine_stats(s, probe_cache@, *cfg)
        }),
{
    let tagged = tag_all(nodes);
    let (out, stats) = refine_v2ray_tagged(tagged.as_slice(), probe_cache, cfg);
    (crate::tag::nodes_only(out.as_slice()), stats)
}

/// The total of the removal counts of `part` added into `total`.
fn merge_filter_stats(total: &mut FilterStats, part: &FilterStats)
    ensures
        final(total).before == old(total).before,
        final(total).after == old(total).after,
        final(total).deduped == old(total).deduped.saturating_add(part.deduped),
        final(total).slow_dropped == old(total).slow_dropped.saturating_add(part.slow_dropped),
        final(total).unparsed_dropped == old(total).unparsed_dropped.saturating_add(
            part.unparsed_dropped,
        ),
        final(total).capped == old(total).capped.saturating_add(part.capped),
{
    total.deduped = total.deduped.saturating_add(part.deduped);
    total.slow_dropped = total.slow_dropped.saturating_add(part.slow_dropped);
    total.unparsed_dropped = total.unparsed_dropped.saturating_add(part.unparsed_dropped);
    total.capped = total.capped.saturating_add(part.capped);
}


/// Blocks tagged with `source`.
fn tag_blocks_of(blocks: Vec<String>, source: &String) -> (r: Vec<TaggedNode>)
    ensures
        tag_views(r@) == tag_blocks(string_views(blocks@), source@),
{
    let mut r: Vec<TaggedNode> = Vec::new();
    let mut i: usize = 0;
    while i < blocks.len()
        invariant
            i <= blocks.len(),
            tag_views(r@) == tag_blocks(string_views(blocks@).take(i as int), source@),
        decreases blocks.len() - i,
    {
        let x = TaggedNode::new(blocks[i].clone(), source.as_str());
        proof {
            lemma_tag_views_push(r@, x);
            assert(tag_blocks(string_views(blocks@).take(i + 1), source@) =~= tag_blocks(
                string_views(blocks@).take(i as int),
                source@,
            ).push(x@));
        }
        r.push(x);
        i = i + 1;
    }
    assert(string_views(blocks@).take(blocks.len() as int) == string_views(blocks@));
    r
}

/// Refines the proxy blocks of each Clash chunk like nodes (see
/// [`refine_v2ray_tagged`]); chunks without blocks pass unchanged, chunks
/// whose blocks all go are dropped.
pub fn refine_clash_tagged(
    chunks: &[TaggedChunk],
    probe_cache: &ProbeCache,
    cfg: &FilterConfig,
) -> (r: (Vec<TaggedChunk>, FilterStats))
    ensures
        chunk_views(r.0@) == refined_chunks(chunk_views(chunks@), probe_cache@, *cfg),
        r.1 == refined_chunks_stats(chunk_views(chunks@), probe_cache@, *cfg),
{
    let ghost cv = chunk_views(chunks@);
    let mut stats = FilterStats::zero();
    let mut out: Vec<TaggedChunk> = Vec::new();
    let mut i: usize = 0;
    assert(cv.take(0) =~= Seq::<TagView>::empty());
    assert(chunk_views(out@) =~= Seq::<TagView>::empty());
    while i < chunks.len()
        invariant
            i <= chunks.len(),
            cv == chunk_views(chunks@),
            chunk_views(out@) == refined_chunks(cv.take(i as int), probe_cache@, *cfg),
            stats == refined_chunks_stats(cv.take(i as int), probe_cache@, *cfg),
        decreases chunks.len() - i,
    {
        let chunk = &chunks[i];
        proof {
            assert(cv.take(i + 1).drop_last() == cv.take(i as int));
            assert(cv.take(i + 1).last() == chunk@);
        }
        match extract_clash_proxy_blocks(chunk.body.as_str()) {
            None => {
                let c = chunk.duplicate();
                proof {
                    lemma_chunk_views_push(out@, c);
                }
                out.push(c);
            },
            Some(blocks) => {
                proof {
                    lemma_string_views(blocks);
                }
                let tagged = tag_blocks_of(blocks, &chunk.source);
                let (refined_blocks, part) = refine_v2ray_tagged(tagged.as_slice(), probe_cache, cfg);
                merge_filter_stats(&mut stats, &part);
                stats.before = stats.before.saturating_add(part.before);
                stats.after = stats.after.saturating_add(refined_blocks.len());
                if refined_blocks.len() > 0 {
                    let bodies = crate::tag::nodes_only(refined_blocks.as_slice());
                    proof {
                        lemma_string_views(bodies);
                    }
                    let doc = build_clash_proxies(bodies.as_slice());
                    let c = TaggedChunk::new(doc, chunk.source.as_str());
                    proof {
                        lemma_chunk_views_push(out@, c);
                    }
                    out.push(c);
                }
            },
        }
        i = i + 1;
    }
    assert(cv.take(chunks.len() as int) == cv);
    (out, stats)
}

/// Refines the proxy blocks of Clash documents (see [`refine_clash_tagged`]).
pub fn refine_clash_chunks(
    chunks: &[String],
    probe_cache: &ProbeCache,
    cfg: &FilterConfig,
) -> (r: (Vec<String>, FilterStats))
    ensures
        ({
            let s = string_views(chunks@).map_values(|n: Seq<char>| (n, Seq::<char>::empty()));
            &&& r.0.deep_view() == refined_chunks(s, probe_cache@, *cfg).map_values(|t: TagView| t.0)
            &&& r.1 == refined_chunks_stats(s, probe_cache@, *cfg)
        }),
{
    let mut tagged: Vec<TaggedChunk> = Vec::new();
    let mut i: usize = 0;
    while i < chunks.len()
        invariant
            i <= chunks.len(),
            chunk_views(tagged@) == string_views(chunks@).take(i as int).map_values(
                |n: Seq<char>| (n, Seq::<char>::empty()),
            ),
        decreases chunks.len() - i,
    {
        let x = TaggedChunk::new(chunks[i].clone(), "");
        proof {
            reveal_strlit("");
            assert(""@ =~= Seq::<char>::empty());
            assert(x@ == (string_views(chunks@)[i as int], Seq::<char>::empty()));
            lemma_chunk_views_push(tagged@, x);
            lemma_map_take_push(
                string_views(chunks@),
                |n: Seq<char>| (n, Seq::<char>::empty()),
                i as int,
            );
        }
        tagged.push(x);
        i = i + 1;
    }
    assert(string_views(chunks@).take(chunks.len() as int) == string_views(chunks@));
    let (out, stats) = refine_clash_tagged(tagged.as_slice(), probe_cache, cfg);
    let mut bodies: Vec<String> = Vec::new();
    let mut j: usize = 0;
    while j < out.len()
        invariant
            j <= out.len(),
            string_views(bodies@) == chunk_views(out@).take(j as int).map_values(|t: TagView| t.0),
        decreases out.len() - j,
    {
        let b = out[j].body.clone();
        proof {
            lemma_string_views_push(bodies@, b);
            lemma_map_take_push(chunk_views(out@), |t: TagView| t.0, j as int);
        }
        bodies.push(b);
        j = j + 1;
    }
    assert(chunk_views(out@).take(out.len() as int) == chunk_views(out@));
    proof {
        lemma_string_views(bodies);
    }
    (bodies, stats)
}

} // verus!
