//! The sync report and the Markdown summary written beside the outputs.
use vstd::prelude::*;
use crate::probe::ProbeStats;
use crate::text::{dec, from_chars, push_dec, push_str, to_chars};

verus! {

/// Probe counts for one kind of output.
#[derive(Debug)]
pub struct ProbeKindReport {
    pub before: usize,
    pub after: usize,
    pub reachable: usize,
    pub unreachable: usize,
    pub unparsed: usize,
}

impl From<ProbeStats> for ProbeKindReport {
    fn from(stats: ProbeStats) -> (r: ProbeKindReport) {
        ProbeKindReport {
            before: stats.before,
            after: stats.after,
            reachable: stats.reachable,
            unreachable: stats.unreachable,
            unparsed: stats.unparsed,
        }
    }
}

impl vstd::std_specs::convert::FromSpecImpl<ProbeStats> for ProbeKindReport {
    open spec fn obeys_from_spec() -> bool {
        true
    }

    open spec fn from_spec(stats: ProbeStats) -> ProbeKindReport {
        ProbeKindReport {
            before: stats.before,
            after: stats.after,
            reachable: stats.reachable,
            unreachable: stats.unreachable,
            unparsed: stats.unparsed,
        }
    }
}

/// The probe settings and counts.
#[derive(Debug)]
pub struct ProbeReport {
    pub enabled: bool,
    pub timeout_secs: u64,
    pub concurrency: usize,
    pub v2ray: ProbeKindReport,
    pub clash: ProbeKindReport,
}

/// How one source fared.
#[derive(Debug)]
pub struct SourceReport {
    pub name: String,
    pub kind: String,
    pub format: String,
    pub resolved_url: String,
    pub ok: bool,
    pub node_count: usize,
    pub protocols: Vec<(String, usize)>,
    pub error: Option<String>,
    pub fetched_at: String,
}

/// The naming settings.
#[derive(Debug)]
pub struct NamingReport {
    pub enabled: bool,
    pub template: String,
    pub first_name: String,
    pub tag_source: bool,
}

/// The filter settings.
#[derive(Debug)]
pub struct FilterReport {
    pub dedupe_endpoint: bool,
    pub max_latency_ms: Option<u32>,
    pub max_nodes: Option<usize>,
    pub drop_unparsed: bool,
}

/// The report of a sync run.
#[derive(Debug)]
pub struct SyncReport {
    pub synced_at: String,
    pub v2ray_total_nodes: usize,
    pub clash_proxy_count: usize,
    pub probe: Option<ProbeReport>,
    pub filter: Option<FilterReport>,
    pub naming: Option<NamingReport>,
    pub sources: Vec<SourceReport>,
}

/// Writes the outputs into a directory.
pub struct Writer {
    pub output_dir: String,
}

impl Writer {
    /// A writer for `output_dir`.
    pub fn new(output_dir: &str) -> (r: Writer)
        ensures
            r.output_dir@ == output_dir@,
    {
        Writer { output_dir: output_dir.to_owned() }
    }
}

/// The directory the outputs go to.
pub fn output_path() -> (r: String)
    ensures
        r@ == "output"@,
{
    "output".to_owned()
}


// ---------------------------------------------------------------------
// The Markdown summary
// ---------------------------------------------------------------------

/// An optional text, or `-`.
pub open spec fn text_or_dash(e: Option<String>) -> Seq<char> {
    match e {
        Some(s) => s@,
        None => "-"@,
    }
}

/// The title, notice, sync time and totals.
pub open spec fn readme_header(r: SyncReport) -> Seq<char> {
    "# VPN Subscription Output\n\n"@ + "> 公益节点聚合，仅供学习测试；不保证可用性与安全性；请遵守当地法律。\n\n"@
        + "**上次同步：** "@ + r.synced_at@ + "\n\n"@ + "**v2ray 节点总数：** "@ + dec(
        r.v2ray_total_nodes as nat,
    ) + " | **Clash 代理数：** "@ + dec(r.clash_proxy_count as nat) + "\n\n"@
}

/// The subscription links, for the outputs that are not empty.
pub open spec fn readme_links(v2ray: Seq<char>, clash: Seq<char>) -> Seq<char> {
    "## 订阅链接\n\n"@ + (if v2ray.len() > 0 {
        "- v2rayN / v2rayNG：\n"@ + "  `https://raw.githubusercontent.com/kongdf/vpn-sub-sync/main/output/v2ray.txt`\n\n"@
    } else {
        seq![]
    }) + (if clash.len() > 0 {
        "- Clash / Clash Verge：\n"@ + "  `https://raw.githubusercontent.com/kongdf/vpn-sub-sync/main/output/clash.yaml`\n\n"@
    } else {
        seq![]
    })
}

/// The naming section, when naming or source tags are on.
pub open spec fn readme_naming(n: Option<NamingReport>) -> Seq<char> {
    match n {
        Some(n) => if n.enabled || n.tag_source {
            "## 节点命名\n\n"@ + if n.enabled {
                "首个节点：`{MM-DD}-"@ + n.first_name@ + "`（如 `06-30-"@ + n.first_name@ + "`）\n\n"@
                    + "其余节点：`"@ + n.template@ + "`（如 `xrayvip-韩国-2ms`）\n\n"@
            } else {
                "按订阅源前缀标记节点名称。\n\n"@
            }
        } else {
            seq![]
        },
        None => seq![],
    }
}

/// The latency line of the filter section.
pub open spec fn latency_line(max_latency_ms: Option<u32>) -> Seq<char> {
    match max_latency_ms {
        Some(ms) => "- 延迟超过 "@ + dec(ms as nat) + "ms 剔除\n"@,
        None => seq![],
    }
}

/// The node-limit line of the filter section.
pub open spec fn limit_line(max_nodes: Option<usize>) -> Seq<char> {
    match max_nodes {
        Some(m) => "- 最多保留 "@ + dec(m as nat) + " 个节点\n"@,
        None => seq![],
    }
}

/// The lines of the filter section, one per filter that is on.
pub open spec fn filter_lines(f: FilterReport) -> Seq<char> {
    (if f.dedupe_endpoint {
        "- 同 host:port 去重\n"@
    } else {
        seq![]
    }) + latency_line(f.max_latency_ms) + (if f.drop_unparsed {
        "- 无法解析端点的节点剔除\n"@
    } else {
        seq![]
    }) + limit_line(f.max_nodes)
}

/// The filter section, when some filter is on.
pub open spec fn readme_filter(f: Option<FilterReport>) -> Seq<char> {
    match f {
        Some(f) => if f.dedupe_endpoint || f.max_latency_ms is Some || f.max_nodes is Some
            || f.drop_unparsed {
            "## 筛选\n\n"@ + filter_lines(f) + "\n"@
        } else {
            seq![]
        },
        None => seq![],
    }
}

/// The counts of one probe table row, after its label.
pub open spec fn probe_cells(k: ProbeKindReport) -> Seq<char> {
    dec(k.before as nat) + " | "@ + dec(k.after as nat) + " | "@ + dec(k.reachable as nat) + " | "@
        + dec(k.unreachable as nat) + " | "@ + dec(k.unparsed as nat)
}

/// The probe section, when probing ran.
pub open spec fn readme_probe(p: Option<ProbeReport>, f: Option<FilterReport>) -> Seq<char> {
    match p {
        Some(p) => "## TCP 探测\n\n"@ + "超时 "@ + dec(p.timeout_secs as nat) + "s，并发 "@ + dec(
            p.concurrency as nat,
        ) + "。不可达节点已剔除；无法解析端点的节点"@ + (if f is Some && f->0.drop_unparsed {
            "剔除"@
        } else {
            "保留"@
        }) + "。\n\n"@ + "| 类型 | 探测前 | 保留 | 可达 | 不可达 | 未解析 |\n"@ + "|---|---|---|---|---|---|\n"@
            + "| v2ray | "@ + probe_cells(p.v2ray) + " |\n"@ + "| clash | "@ + probe_cells(p.clash)
            + " |\n\n"@,
        None => seq![],
    }
}

/// One row of the source table.
pub open spec fn source_row(s: SourceReport) -> Seq<char> {
    "| "@ + s.name@ + " | "@ + (if s.ok {
        "✅"@
    } else {
        "❌"@
    }) + " | "@ + dec(s.node_count as nat) + " | "@ + text_or_dash(s.error) + " |\n"@
}

/// The rows of the source table, in order.
pub open spec fn source_rows(ss: Seq<SourceReport>) -> Seq<char>
    decreases ss.len(),
{
    if ss.len() == 0 {
        seq![]
    } else {
        source_rows(ss.drop_last()) + source_row(ss.last())
    }
}

/// The Markdown summary of a sync run.
pub open spec fn readme(r: SyncReport, v2ray: Seq<char>, clash: Seq<char>) -> Seq<char> {
    readme_header(r) + readme_links(v2ray, clash) + readme_naming(r.naming) + readme_filter(r.filter)
        + readme_probe(r.probe, r.filter) + "## 各源状态\n\n"@ + "| 源 | 状态 | 节点数 | 说明 |\n"@
        + "|---|---|---|---|\n"@ + source_rows(r.sources@)
}

fn push_header(out: &mut Vec<char>, r: &SyncReport)
    ensures
        final(out)@ == old(out)@ + readme_header(*r),
{
    push_str(out, "# VPN Subscription Output\n\n");
    push_str(out, "> 公益节点聚合，仅供学习测试；不保证可用性与安全性；请遵守当地法律。\n\n");
    push_str(out, "**上次同步：** ");
    push_str(out, r.synced_at.as_str());
    push_str(out, "\n\n");
    push_str(out, "**v2ray 节点总数：** ");
    push_dec(out, r.v2ray_total_nodes as u128);
    push_str(out, " | **Clash 代理数：** ");
    push_dec(out, r.clash_proxy_count as u128);
    push_str(out, "\n\n");
    assert(out@ =~= old(out)@ + readme_header(*r));
}

fn push_links(out: &mut Vec<char>, v2ray: &str, clash: &str)
    ensures
        final(out)@ == old(out)@ + readme_links(v2ray@, clash@),
{
    let ghost start = out@;
    push_str(out, "## 订阅链接\n\n");
    let vc = to_chars(v2ray);
    if vc.len() > 0 {
        push_str(out, "- v2rayN / v2rayNG：\n");
        push_str(out, "  `https://raw.githubusercontent.com/kongdf/vpn-sub-sync/main/output/v2ray.txt`\n\n");
    }
    let ghost mid = out@;
    assert(mid =~= start + "## 订阅链接\n\n"@ + (if v2ray@.len() > 0 {
        "- v2rayN / v2rayNG：\n"@ + "  `https://raw.githubusercontent.com/kongdf/vpn-sub-sync/main/output/v2ray.txt`\n\n"@
    } else {
        seq![]
    }));
    let cc = to_chars(clash);
    if cc.len() > 0 {
        push_str(out, "- Clash / Clash Verge：\n");
        push_str(out, "  `https://raw.githubusercontent.com/kongdf/vpn-sub-sync/main/output/clash.yaml`\n\n");
    }
    assert(out@ =~= old(out)@ + readme_links(v2ray@, clash@));
}

fn push_naming(out: &mut Vec<char>, n: &Option<NamingReport>)
    ensures
        final(out)@ == old(out)@ + readme_naming(*n),
{
    if let Some(n) = n {
        if n.enabled || n.tag_source {
            push_str(out, "## 节点命名\n\n");
            if n.enabled {
                push_str(out, "首个节点：`{MM-DD}-");
                push_str(out, n.first_name.as_str());
                push_str(out, "`（如 `06-30-");
                push_str(out, n.first_name.as_str());
                push_str(out, "`）\n\n");
                push_str(out, "其余节点：`");
                push_str(out, n.template.as_str());
                push_str(out, "`（如 `xrayvip-韩国-2ms`）\n\n");
            } else {
                push_str(out, "按订阅源前缀标记节点名称。\n\n");
            }
        }
    }
    assert(out@ =~= old(out)@ + readme_naming(*n));
}

fn push_latency_line(out: &mut Vec<char>, max_latency_ms: Option<u32>)
    ensures
        final(out)@ == old(out)@ + latency_line(max_latency_ms),
{
    if let Some(ms) = max_latency_ms {
        push_str(out, "- 延迟超过 ");
        push_dec(out, ms as u128);
        push_str(out, "ms 剔除\n");
    }
    assert(out@ =~= old(out)@ + latency_line(max_latency_ms));
}

fn push_limit_line(out: &mut Vec<char>, max_nodes: Option<usize>)
    ensures
        final(out)@ == old(out)@ + limit_line(max_nodes),
{
    if let Some(m) = max_nodes {
        push_str(out, "- 最多保留 ");
        push_dec(out, m as u128);
        push_str(out, " 个节点\n");
    }
    assert(out@ =~= old(out)@ + limit_line(max_nodes));
}

fn push_filter_lines(out: &mut Vec<char>, f: &FilterReport)
    ensures
        final(out)@ == old(out)@ + filter_lines(*f),
{
    if f.dedupe_endpoint {
        push_str(out, "- 同 host:port 去重\n");
    }
    push_latency_line(out, f.max_latency_ms);
    if f.drop_unparsed {
        push_str(out, "- 无法解析端点的节点剔除\n");
    }
    push_limit_line(out, f.max_nodes);
    assert(out@ =~= old(out)@ + filter_lines(*f));
}

fn push_filter(out: &mut Vec<char>, f: &Option<FilterReport>)
    ensures
        final(out)@ == old(out)@ + readme_filter(*f),
{
    if let Some(f) = f {
        if f.dedupe_endpoint || f.max_latency_ms.is_some() || f.max_nodes.is_some()
            || f.drop_unparsed {
            push_str(out, "## 筛选\n\n");
            push_filter_lines(out, f);
            push_str(out, "\n");
        }
    }
    assert(out@ =~= old(out)@ + readme_filter(*f));
}

fn push_probe_cells(out: &mut Vec<char>, k: &ProbeKindReport)
    ensures
        final(out)@ == old(out)@ + probe_cells(*k),
{
    push_dec(out, k.before as u128);
    push_str(out, " | ");
    push_dec(out, k.after as u128);
    push_str(out, " | ");
    push_dec(out, k.reachable as u128);
    push_str(out, " | ");
    push_dec(out, k.unreachable as u128);
    push_str(out, " | ");
    push_dec(out, k.unparsed as u128);
    assert(out@ =~= old(out)@ + probe_cells(*k));
}

fn push_probe(out: &mut Vec<char>, p: &Option<ProbeReport>, f: &Option<FilterReport>)
    ensures
        final(out)@ == old(out)@ + readme_probe(*p, *f),
{
    if let Some(p) = p {
        push_str(out, "## TCP 探测\n\n");
        push_str(out, "超时 ");
        push_dec(out, p.timeout_secs as u128);
        push_str(out, "s，并发 ");
        push_dec(out, p.concurrency as u128);
        push_str(out, "。不可达节点已剔除；无法解析端点的节点");
        let drop = match f {
            Some(fr) => fr.drop_unparsed,
            None => false,
        };
        if drop {
            push_str(out, "剔除");
        } else {
            push_str(out, "保留");
        }
        push_str(out, "。\n\n");
        push_str(out, "| 类型 | 探测前 | 保留 | 可达 | 不可达 | 未解析 |\n");
        push_str(out, "|---|---|---|---|---|---|\n");
        push_str(out, "| v2ray | ");
        push_probe_cells(out, &p.v2ray);
        push_str(out, " |\n");
        push_str(out, "| clash | ");
        push_probe_cells(out, &p.clash);
        push_str(out, " |\n\n");
    }
    assert(out@ =~= old(out)@ + readme_probe(*p, *f));
}

fn push_source_row(out: &mut Vec<char>, s: &SourceReport)
    ensures
        final(out)@ == old(out)@ + source_row(*s),
{
    push_str(out, "| ");
    push_str(out, s.name.as_str());
    push_str(out, " | ");
    if s.ok {
        push_str(out, "✅");
    } else {
        push_str(out, "❌");
    }
    push_str(out, " | ");
    push_dec(out, s.node_count as u128);
    push_str(out, " | ");
    match &s.error {
        Some(e) => push_str(out, e.as_str()),
        None => push_str(out, "-"),
    }
    push_str(out, " |\n");
    assert(out@ =~= old(out)@ + source_row(*s));
}

/// The Markdown summary of a sync run (see [`readme`]).
pub fn render_readme(report: &SyncReport, v2ray_b64: &str, clash_yaml: &str) -> (r: String)
    ensures
        r@ == readme(*report, v2ray_b64@, clash_yaml@),
{
    let mut out: Vec<char> = Vec::new();
    push_header(&mut out, report);
    push_links(&mut out, v2ray_b64, clash_yaml);
    push_naming(&mut out, &report.naming);
    push_filter(&mut out, &report.filter);
    push_probe(&mut out, &report.probe, &report.filter);
    push_str(&mut out, "## 各源状态\n\n");
    push_str(&mut out, "| 源 | 状态 | 节点数 | 说明 |\n");
    push_str(&mut out, "|---|---|---|---|\n");
    let ghost start = out@;
    let mut i: usize = 0;
    assert(report.sources@.take(0) =~= Seq::<SourceReport>::empty());
    assert(out@ =~= start + source_rows(report.sources@.take(0)));
    while i < report.sources.len()
        invariant
            i <= report.sources.len(),
            out@ == start + source_rows(report.sources@.take(i as int)),
        decreases report.sources.len() - i,
    {
        assert(report.sources@.take(i + 1).drop_last() == report.sources@.take(i as int));
        assert(report.sources@.take(i + 1).last() == report.sources@[i as int]);
        push_source_row(&mut out, &report.sources[i]);
        assert(out@ =~= start + source_rows(report.sources@.take(i + 1)));
        i = i + 1;
    }
    assert(report.sources@.take(report.sources.len() as int) == report.sources@);
    assert(out@ =~= readme(*report, v2ray_b64@, clash_yaml@));
    from_chars(out.as_slice())
}

} // verus!
