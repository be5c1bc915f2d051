use vpn_sub_sync::probe::ProbeStats;
use vpn_sub_sync::writer::{
    output_path, render_readme, FilterReport, NamingReport, ProbeKindReport, ProbeReport,
    SourceReport, SyncReport, Writer,
};

fn source(name: &str, ok: bool, count: usize, error: Option<&str>) -> SourceReport {
    SourceReport {
        name: name.into(),
        kind: "direct".into(),
        format: "v2ray".into(),
        resolved_url: "https://example.com/sub".into(),
        ok,
        node_count: count,
        protocols: vec![],
        error: error.map(String::from),
        fetched_at: "2026-07-10 14:05:26 北京时间".into(),
    }
}

fn kind(before: usize, after: usize, reachable: usize, unreachable: usize, unparsed: usize) -> ProbeKindReport {
    ProbeKindReport::from(ProbeStats { before, after, reachable, unreachable, unparsed })
}

#[test]
fn readme_with_every_section() {
    let report = SyncReport {
        synced_at: "2026-07-10 14:05:26 北京时间".into(),
        v2ray_total_nodes: 240,
        clash_proxy_count: 0,
        probe: Some(ProbeReport {
            enabled: true,
            timeout_secs: 3,
            concurrency: 50,
            v2ray: kind(788, 300, 299, 488, 1),
            clash: kind(0, 0, 0, 0, 0),
        }),
        filter: Some(FilterReport {
            dedupe_endpoint: true,
            max_latency_ms: Some(3000),
            max_nodes: None,
            drop_unparsed: true,
        }),
        naming: Some(NamingReport {
            enabled: true,
            template: "{source}-{country}-{latency}".into(),
            first_name: "孔大夫".into(),
            tag_source: true,
        }),
        sources: vec![source("xrayvip", true, 9, None), source("broken", false, 0, Some("HTTP 404"))],
    };
    let md = render_readme(&report, "abc", "");
    let expected = "# VPN Subscription Output\n\n\
> 公益节点聚合，仅供学习测试；不保证可用性与安全性；请遵守当地法律。\n\n\
**上次同步：** 2026-07-10 14:05:26 北京时间\n\n\
**v2ray 节点总数：** 240 | **Clash 代理数：** 0\n\n\
## 订阅链接\n\n\
- v2rayN / v2rayNG：\n\x20 `https://raw.githubusercontent.com/kongdf/vpn-sub-sync/main/output/v2ray.txt`\n\n\
## 节点命名\n\n\
首个节点：`{MM-DD}-孔大夫`（如 `06-30-孔大夫`）\n\n\
其余节点：`{source}-{country}-{latency}`（如 `xrayvip-韩国-2ms`）\n\n\
## 筛选\n\n\
- 同 host:port 去重\n\
- 延迟超过 3000ms 剔除\n\
- 无法解析端点的节点剔除\n\
\n\
## TCP 探测\n\n\
超时 3s，并发 50。不可达节点已剔除；无法解析端点的节点剔除。\n\n\
| 类型 | 探测前 | 保留 | 可达 | 不可达 | 未解析 |\n\
|---|---|---|---|---|---|\n\
| v2ray | 788 | 300 | 299 | 488 | 1 |\n\
| clash | 0 | 0 | 0 | 0 | 0 |\n\n\
## 各源状态\n\n\
| 源 | 状态 | 节点数 | 说明 |\n\
|---|---|---|---|\n\
| xrayvip | ✅ | 9 | - |\n\
| broken | ❌ | 0 | HTTP 404 |\n";
    assert_eq!(md, expected);
}

#[test]
fn readme_without_optional_sections() {
    let report = SyncReport {
        synced_at: "t".into(),
        v2ray_total_nodes: 0,
        clash_proxy_count: 12,
        probe: None,
        filter: Some(FilterReport {
            dedupe_endpoint: false,
            max_latency_ms: None,
            max_nodes: None,
            drop_unparsed: false,
        }),
        naming: Some(NamingReport {
            enabled: false,
            template: "x".into(),
            first_name: "y".into(),
            tag_source: true,
        }),
        sources: vec![],
    };
    let md = render_readme(&report, "", "proxies:\n");
    let expected = "# VPN Subscription Output\n\n\
> 公益节点聚合，仅供学习测试；不保证可用性与安全性；请遵守当地法律。\n\n\
**上次同步：** t\n\n\
**v2ray 节点总数：** 0 | **Clash 代理数：** 12\n\n\
## 订阅链接\n\n\
- Clash / Clash Verge：\n\x20 `https://raw.githubusercontent.com/kongdf/vpn-sub-sync/main/output/clash.yaml`\n\n\
## 节点命名\n\n\
按订阅源前缀标记节点名称。\n\n\
## 各源状态\n\n\
| 源 | 状态 | 节点数 | 说明 |\n\
|---|---|---|---|\n";
    assert_eq!(md, expected);
}

#[test]
fn probe_section_keeps_unparsed_without_filter() {
    let report = SyncReport {
        synced_at: "t".into(),
        v2ray_total_nodes: 1,
        clash_proxy_count: 0,
        probe: Some(ProbeReport {
            enabled: true,
            timeout_secs: 1,
            concurrency: 2,
            v2ray: kind(1, 1, 1, 0, 0),
            clash: kind(0, 0, 0, 0, 0),
        }),
        filter: Some(FilterReport {
            dedupe_endpoint: false,
            max_latency_ms: None,
            max_nodes: Some(5),
            drop_unparsed: false,
        }),
        naming: None,
        sources: vec![],
    };
    let md = render_readme(&report, "", "");
    assert!(md.contains("## 筛选\n\n- 最多保留 5 个节点\n\n"));
    assert!(md.contains("无法解析端点的节点保留。"));
    assert!(md.contains("| v2ray | 1 | 1 | 1 | 0 | 0 |\n"));
    assert!(md.contains("## 订阅链接\n\n## 筛选"));
}

#[test]
fn writer_and_output_dir() {
    assert_eq!(Writer::new("out/dir").output_dir, "out/dir");
    assert_eq!(output_path(), "output");
}

#[test]
fn probe_kind_report_copies_the_counts() {
    let k = kind(5, 4, 3, 1, 1);
    assert_eq!((k.before, k.after, k.reachable, k.unreachable, k.unparsed), (5, 4, 3, 1, 1));
}
