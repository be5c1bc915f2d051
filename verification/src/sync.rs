//! What syncing one source yields, once its URL and body are known, and
//! how the outcomes of all sources add up.
use vstd::prelude::*;
use crate::config::Source;
use crate::foreign::base64_encoded;
use crate::parser::{
    clash_valid, counts_view, merge_clash_yaml, merge_v2ray_nodes, merged_clash,
    parse_v2ray_content, protocol_counts, subscription_nodes, to_char_vecs, validate_clash,
};
use crate::text::{
    count_matches, count_matches_chars, eq_ignore_ascii_case, from_chars, join, join_chars,
    lemma_string_views, push_str, string_views, to_chars, views,
};
use crate::writer::SourceReport;

verus! {

/// What syncing one source yields: its report, and, when it succeeded, its
/// v2ray nodes or its Clash document.
#[derive(Debug)]
pub struct SyncOutcome {
    pub report: SourceReport,
    pub v2ray_nodes: Vec<String>,
    pub clash_body: Option<String>,
}

/// The model of a [`SourceReport`].
pub ghost struct ReportModel {
    pub name: Seq<char>,
    pub kind: Seq<char>,
    pub format: Seq<char>,
    pub resolved_url: Seq<char>,
    pub ok: bool,
    pub node_count: nat,
    pub protocols: Seq<(Seq<char>, nat)>,
    pub error: Option<Seq<char>>,
    pub fetched_at: Seq<char>,
}

/// A report by its model.
pub open spec fn report_model(r: SourceReport) -> ReportModel {
    ReportModel {
        name: r.name@,
        kind: r.kind@,
        format: r.format@,
        resolved_url: r.resolved_url@,
        ok: r.ok,
        node_count: r.node_count as nat,
        protocols: counts_view(r.protocols@),
        error: match r.error {
            Some(e) => Some(e@),
            None => None,
        },
        fetched_at: r.fetched_at@,
    }
}

/// The report of a source that failed with `error`.
pub open spec fn failed_report(s: Source, url: Seq<char>, error: Seq<char>, at: Seq<char>) -> ReportModel {
    ReportModel {
        name: s.name@,
        kind: s.kind@,
        format: s.format@,
        resolved_url: url,
        ok: false,
        node_count: 0,
        protocols: seq![],
        error: Some(error),
        fetched_at: at,
    }
}

/// The marker that starts each proxy entry of a Clash document.
pub open spec fn entry_marker() -> Seq<char> {
    "\n  - "@
}

/// Whether the source's format is `v2ray` (see [`Source::is_v2ray`]).
pub open spec fn v2ray_format(s: Source) -> bool {
    eq_ignore_ascii_case(s.format@, "v2ray"@)
}

/// Whether the source's format is `clash` (see [`Source::is_clash`]).
pub open spec fn clash_format(s: Source) -> bool {
    eq_ignore_ascii_case(s.format@, "clash"@)
}

/// The report of a source whose body was fetched from `url`: a v2ray body
/// succeeds with its nodes and their protocols when it has any; a Clash body
/// succeeds with its number of proxy entries when it looks like a Clash
/// document; any other format fails.
pub open spec fn body_report(s: Source, url: Seq<char>, body: Seq<char>, at: Seq<char>) -> ReportModel {
    if v2ray_format(s) {
        let nodes = subscription_nodes(body);
        if nodes.len() == 0 {
            failed_report(s, url, "no valid nodes found"@, at)
        } else {
            ReportModel {
                ok: true,
                node_count: nodes.len(),
                protocols: protocol_counts(nodes),
                error: None,
                ..failed_report(s, url, seq![], at)
            }
        }
    } else if clash_format(s) {
        if clash_valid(body) {
            ReportModel {
                ok: true,
                node_count: count_matches(body, entry_marker()),
                error: None,
                ..failed_report(s, url, seq![], at)
            }
        } else {
            failed_report(s, url, "invalid clash yaml"@, at)
        }
    } else {
        failed_report(s, url, "unknown format '"@ + s.format@ + "'"@, at)
    }
}

/// The v2ray nodes a fetched body contributes.
pub open spec fn body_nodes(s: Source, body: Seq<char>) -> Seq<Seq<char>> {
    if v2ray_format(s) {
        subscription_nodes(body)
    } else {
        seq![]
    }
}

/// Whether a fetched body contributes itself as a Clash document.
pub open spec fn body_is_clash(s: Source, body: Seq<char>) -> bool {
    !v2ray_format(s) && clash_format(s) && clash_valid(body)
}

/// The number of proxy entries of a Clash document: the times a line
/// starting with `  - ` follows a line break.
pub fn count_proxy_entries(yaml: &str) -> (n: usize)
    ensures
        n == count_matches(yaml@, entry_marker()),
{
    let y = to_chars(yaml);
    let m = to_chars("\n  - ");
    proof {
        reveal_strlit("\n  - ");
    }
    count_matches_chars(y.as_slice(), m.as_slice())
}

/// The report of a source that failed with `error`.
fn failed(source: &Source, resolved_url: String, error: String, fetched_at: String) -> (r: SourceReport)
    ensures
        report_model(r) == failed_report(*source, resolved_url@, error@, fetched_at@),
{
    let r = SourceReport {
        name: source.name.clone(),
        kind: source.kind.clone(),
        format: source.format.clone(),
        resolved_url,
        ok: false,
        node_count: 0,
        protocols: Vec::new(),
        error: Some(error),
        fetched_at,
    };
    assert(counts_view(r.protocols@) =~= Seq::<(Seq<char>, nat)>::empty());
    r
}

/// The outcome of a source whose URL could not be resolved: it failed with
/// `error`, and its `url`, if any, is reported.
pub fn unresolved_outcome(source: &Source, error: String, fetched_at: String) -> (r: SyncOutcome)
    ensures
        report_model(r.report) == failed_report(
            *source,
            match source.url {
                Some(u) => u@,
                None => Seq::<char>::empty(),
            },
            error@,
            fetched_at@,
        ),
        r.v2ray_nodes@.len() == 0,
        r.clash_body is None,
{
    let url = match &source.url {
        Some(u) => u.clone(),
        None => String::new(),
    };
    SyncOutcome { report: failed(source, url, error, fetched_at), v2ray_nodes: Vec::new(), clash_body: None }
}

/// The outcome of a source whose body could not be fetched from
/// `resolved_url`: it failed with `error`.
pub fn fetch_failed_outcome(
    source: &Source,
    resolved_url: String,
    error: String,
    fetched_at: String,
) -> (r: SyncOutcome)
    ensures
        report_model(r.report) == failed_report(*source, resolved_url@, error@, fetched_at@),
        r.v2ray_nodes@.len() == 0,
        r.clash_body is None,
{
    SyncOutcome {
        report: failed(source, resolved_url, error, fetched_at),
        v2ray_nodes: Vec::new(),
        clash_body: None,
    }
}

/// The outcome of a source whose body was fetched from `resolved_url` (see
/// [`body_report`]); a v2ray source hands on its nodes, a Clash source its
/// body when it looks like a Clash document.
pub fn body_outcome(source: &Source, resolved_url: String, body: String, fetched_at: String) -> (r:
    SyncOutcome)
    ensures
        report_model(r.report) == body_report(*source, resolved_url@, body@, fetched_at@),
        r.v2ray_nodes.deep_view() == body_nodes(*source, body@),
        r.clash_body is Some <==> body_is_clash(*source, body@),
        r.clash_body matches Some(c) ==> c@ == body@,
{
    proof {
        reveal_strlit("no valid nodes found");
        reveal_strlit("invalid clash yaml");
    }
    if source.is_v2ray() {
        let stats = parse_v2ray_content(body.as_str());
        if stats.nodes.len() == 0 {
            let report = failed(source, resolved_url, "no valid nodes found".to_owned(), fetched_at);
            let nodes: Vec<String> = Vec::new();
            proof {
                lemma_string_views(nodes);
                assert(string_views(nodes@) =~= subscription_nodes(body@));
            }
            return SyncOutcome { report, v2ray_nodes: nodes, clash_body: None };
        }
        let report = SourceReport {
            name: source.name.clone(),
            kind: source.kind.clone(),
            format: source.format.clone(),
            resolved_url,
            ok: true,
            node_count: stats.nodes.len(),
            protocols: stats.protocols,
            error: None,
            fetched_at,
        };
        return SyncOutcome { report, v2ray_nodes: stats.nodes, clash_body: None };
    }
    let empty: Vec<String> = Vec::new();
    proof {
        lemma_string_views(empty);
        assert(string_views(empty@) =~= Seq::<Seq<char>>::empty());
    }
    if source.is_clash() {
        if validate_clash(body.as_str()) {
            let n = count_proxy_entries(body.as_str());
            let report = SourceReport {
                name: source.name.clone(),
                kind: source.kind.clone(),
                format: source.format.clone(),
                resolved_url,
                ok: true,
                node_count: n,
                protocols: Vec::new(),
                error: None,
                fetched_at,
            };
            assert(counts_view(report.protocols@) =~= Seq::<(Seq<char>, nat)>::empty());
            return SyncOutcome { report, v2ray_nodes: empty, clash_body: Some(body) };
        }
        let report = failed(source, resolved_url, "invalid clash yaml".to_owned(), fetched_at);
        return SyncOutcome { report, v2ray_nodes: empty, clash_body: None };
    }
    let mut msg: Vec<char> = Vec::new();
    push_str(&mut msg, "unknown format '");
    push_str(&mut msg, source.format.as_str());
    push_str(&mut msg, "'");
    let report = failed(source, resolved_url, from_chars(msg.as_slice()), fetched_at);
    SyncOutcome { report, v2ray_nodes: empty, clash_body: None }
}

/// Adds a finished source to the run: when it succeeded, its nodes go after
/// `nodes` and its Clash document, if any, after `chunks`; a failed source
/// adds nothing. Its report is handed back.
pub fn absorb(nodes: &mut Vec<String>, chunks: &mut Vec<String>, outcome: SyncOutcome) -> (r:
    SourceReport)
    ensures
        r == outcome.report,
        outcome.report.ok ==> string_views(final(nodes)@) == string_views(old(nodes)@)
            + outcome.v2ray_nodes.deep_view(),
        outcome.report.ok ==> string_views(final(chunks)@) == string_views(old(chunks)@)
            + match outcome.clash_body {
            Some(c) => seq![c@],
            None => Seq::<Seq<char>>::empty(),
        },
        !outcome.report.ok ==> final(nodes)@ == old(nodes)@ && final(chunks)@ == old(chunks)@,
{
    let SyncOutcome { report, v2ray_nodes, clash_body } = outcome;
    if report.ok {
        let mut more = v2ray_nodes;
        proof {
            lemma_string_views(more);
        }
        let ghost before = nodes@;
        let ghost added = more@;
        nodes.append(&mut more);
        assert(string_views(nodes@) =~= string_views(before) + string_views(added));
        match clash_body {
            Some(c) => {
                let ghost cb = chunks@;
                chunks.push(c);
                assert(string_views(chunks@) =~= string_views(cb) + seq![c@]);
            },
            None => {
                assert(string_views(chunks@) =~= string_views(chunks@) + Seq::<Seq<char>>::empty());
            },
        }
    }
    report
}

/// The totals of a sync run.
#[derive(Debug)]
pub struct SyncTotals {
    /// The number of distinct v2ray nodes over all sources.
    pub v2ray_total_nodes: usize,
    /// The v2ray subscription, base64; empty when there are no nodes.
    pub v2ray_b64: String,
    /// The merged Clash document; empty when there are no proxies.
    pub clash_yaml: String,
    /// The number of proxy entries of the merged Clash document.
    pub clash_proxy_count: usize,
}

/// The v2ray nodes of a run: the nodes of all sources, one per line, read
/// again as one subscription (so each node once).
pub open spec fn run_nodes(nodes: Seq<Seq<char>>) -> Seq<Seq<char>> {
    subscription_nodes(join(nodes, "\n"@))
}

/// Whether the base64 text of a run's nodes fits in memory.
pub open spec fn run_fits(nodes: Seq<Seq<char>>) -> bool {
    join(run_nodes(nodes), "\n"@).len() <= usize::MAX / 8
}

/// What the totals of a run are, given the nodes and Clash documents of the
/// sources that succeeded: the number of distinct nodes, their base64
/// subscription (empty when there are none), the merged Clash document and
/// its number of proxy entries (zero when it is empty).
pub open spec fn totals_of_run(r: SyncTotals, nodes: Seq<Seq<char>>, chunks: Seq<Seq<char>>) -> bool {
    &&& r.v2ray_total_nodes == run_nodes(nodes).len()
    &&& r.v2ray_b64@ == if run_nodes(nodes).len() == 0 {
        Seq::<char>::empty()
    } else {
        base64_encoded(join(run_nodes(nodes), "\n"@))
    }
    &&& r.clash_yaml@ == merged_clash(chunks)
    &&& r.clash_proxy_count == if merged_clash(chunks).len() == 0 {
        0
    } else {
        count_matches(merged_clash(chunks), entry_marker())
    }
}

/// The nodes of a run (see [`run_nodes`]).
fn run_nodes_of(v2ray_nodes: &[String]) -> (r: Vec<String>)
    ensures
        string_views(r@) == run_nodes(string_views(v2ray_nodes@)),
{
    let parts = to_char_vecs(v2ray_nodes);
    let sep = to_chars("\n");
    let joined = from_chars(join_chars(&parts, sep.as_slice()).as_slice());
    proof {
        reveal_strlit("\n");
        assert(views(parts@) == string_views(v2ray_nodes@));
    }
    let merged = parse_v2ray_content(joined.as_str());
    proof {
        lemma_string_views(merged.nodes);
    }
    merged.nodes
}

/// The totals of a run whose nodes are `merged`.
fn totals_from(merged: Vec<String>, clash_chunks: &[String], Ghost(nodes): Ghost<Seq<Seq<char>>>) -> (r:
    SyncTotals)
    requires
        string_views(merged@) == run_nodes(nodes),
        run_fits(nodes),
    ensures
        totals_of_run(r, nodes, string_views(clash_chunks@)),
{
    assert(merged@.map_values(|n: String| n@) == string_views(merged@));
    let v2ray_b64 = if merged.len() == 0 {
        String::new()
    } else {
        merge_v2ray_nodes(merged.as_slice())
    };
    let clash_yaml = merge_clash_yaml(clash_chunks);
    let clash_proxy_count = if clash_yaml.as_str().unicode_len() == 0 {
        0
    } else {
        count_proxy_entries(clash_yaml.as_str())
    };
    SyncTotals { v2ray_total_nodes: merged.len(), v2ray_b64, clash_yaml, clash_proxy_count }
}

/// The totals of a run from the nodes and Clash documents of the sources
/// that succeeded (see [`totals_of_run`]); the base64 text of the nodes must
/// fit in memory.
pub fn sync_totals(v2ray_nodes: &[String], clash_chunks: &[String]) -> (r: SyncTotals)
    requires
        run_fits(string_views(v2ray_nodes@)),
    ensures
        totals_of_run(r, string_views(v2ray_nodes@), string_views(clash_chunks@)),
{
    let merged = run_nodes_of(v2ray_nodes);
    totals_from(merged, clash_chunks, Ghost(string_views(v2ray_nodes@)))
}

/// The totals of a run (see [`sync_totals`]), or `None` when the base64 text
/// of its nodes would not fit in memory.
pub fn checked_sync_totals(v2ray_nodes: &[String], clash_chunks: &[String]) -> (r: Option<SyncTotals>)
    ensures
        r is None <==> !run_fits(string_views(v2ray_nodes@)),
        r matches Some(t) ==> totals_of_run(t, string_views(v2ray_nodes@), string_views(clash_chunks@)),
{
    let merged = run_nodes_of(v2ray_nodes);
    let parts = to_char_vecs(merged.as_slice());
    let sep = to_chars("\n");
    let body = join_chars(&parts, sep.as_slice());
    proof {
        reveal_strlit("\n");
        assert(views(parts@) == string_views(merged@));
    }
    if body.len() > usize::MAX / 8 {
        return None;
    }
    Some(totals_from(merged, clash_chunks, Ghost(string_views(v2ray_nodes@))))
}

} // verus!
