use scan_report::classify::{classify_entry, EntryKind};
use scan_report::errors::{ExtractError, RunError};
use scan_report::index::RunState;
use scan_report::model::{
    Category, Child, DataUnit, ScanResult, VulItem, Vul, Vuln, VulnDistribution, VulnsInfo,
    OtherInfo,
};
use scan_report::payload::extract_payload;

fn empty_unit() -> DataUnit {
    DataUnit { vulns_info: None, vul_items: None, target: None, other_info_data: None }
}

fn host_doc(ip: &str, items: Vec<VulItem>, blocks: Option<Vec<OtherInfo>>) -> ScanResult {
    let mut categories = vec![
        Category {
            title: "主机概况".to_string(),
            children: None,
            data: Some(DataUnit { target: Some(ip.to_string()), ..empty_unit() }),
        },
        Category {
            title: "漏洞信息".to_string(),
            children: Some(vec![Child {
                data: DataUnit { vul_items: Some(items), ..empty_unit() },
            }]),
            data: None,
        },
    ];
    if let Some(blocks) = blocks {
        categories.push(Category {
            title: "其它信息".to_string(),
            children: None,
            data: Some(DataUnit { other_info_data: Some(blocks), ..empty_unit() }),
        });
    }
    ScanResult { categories, task_type: 0, create_time: String::new() }
}

fn summary_doc(vulns: Vec<Vuln>) -> ScanResult {
    ScanResult {
        categories: vec![Category {
            title: "漏洞信息".to_string(),
            children: Some(vec![Child {
                data: DataUnit {
                    vulns_info: Some(VulnsInfo {
                        vuln_distribution: VulnDistribution { vuln_list: vulns, hosts_count: 1 },
                    }),
                    ..empty_unit()
                },
            }]),
            data: None,
        }],
        task_type: 0,
        create_time: String::new(),
    }
}

fn summary_vuln(vul_id: u32, target: &str) -> Vuln {
    Vuln::from_raw(
        vul_id,
        "CVE-2020-0001".to_string(),
        "name".to_string(),
        vec!["desc".to_string()],
        vec!["fix".to_string()],
        "2024-01-01".to_string(),
        "2024-01-02".to_string(),
        target.to_string(),
        "middle".to_string(),
    )
}

#[test]
fn two_document_archive_joins_to_one_record() {
    let mut state = RunState::new();
    let item = VulItem {
        port: Some(443),
        service: "https".to_string(),
        protocol: "tcp".to_string(),
        vuls: vec![Vul { vul_id: 7 }],
    };
    state.process_host_document(&host_doc("10.0.0.5", vec![item], None));
    state.process_summary_document(&summary_doc(vec![summary_vuln(7, "10.0.0.5")])).unwrap();
    let records = state.join_records("the system").unwrap();
    assert_eq!(records.len(), 1);
    assert_eq!(records[0].ip, "10.0.0.5");
    assert_eq!(records[0].system_name, "the system");
    assert_eq!(records[0].port, Some(443));
    assert_eq!(records[0].protocol, "tcp");
    assert_eq!(records[0].service, "https");
    assert_eq!(records[0].i18n_name, "name");
    assert_eq!(records[0].vuln_level, "中");
    assert_eq!(records[0].cve_id, "CVE-2020-0001");
}

#[test]
fn missing_host_document_fails_the_join() {
    let mut state = RunState::new();
    state.process_summary_document(&summary_doc(vec![summary_vuln(7, "10.0.0.9")])).unwrap();
    let err = state.join_records("sys").unwrap_err();
    assert_eq!(err, RunError::ExposureMissing);
}

#[test]
fn multi_target_vulnerability_fans_out_in_order() {
    let mut state = RunState::new();
    let item_a = VulItem {
        port: Some(80),
        service: "http".to_string(),
        protocol: "tcp".to_string(),
        vuls: vec![Vul { vul_id: 3 }],
    };
    let item_b = VulItem {
        port: None,
        service: "-".to_string(),
        protocol: "udp".to_string(),
        vuls: vec![Vul { vul_id: 3 }],
    };
    state.process_host_document(&host_doc("10.0.0.1", vec![item_a], None));
    state.process_host_document(&host_doc("10.0.0.2", vec![item_b], None));
    state.process_summary_document(&summary_doc(vec![summary_vuln(3, "10.0.0.1; 10.0.0.2")]))
        .unwrap();
    let records = state.join_records("sys").unwrap();
    assert_eq!(records.len(), 2);
    assert_eq!(records[0].ip, "10.0.0.1");
    assert_eq!(records[0].port, Some(80));
    assert_eq!(records[1].ip, "10.0.0.2");
    assert_eq!(records[1].port, None);
    assert_eq!(records[1].protocol, "udp");
}

#[test]
fn later_exposure_entry_wins_for_same_id() {
    let mut state = RunState::new();
    let first = VulItem {
        port: Some(21),
        service: "ftp".to_string(),
        protocol: "tcp".to_string(),
        vuls: vec![Vul { vul_id: 9 }],
    };
    let second = VulItem {
        port: Some(22),
        service: "ssh".to_string(),
        protocol: "tcp".to_string(),
        vuls: vec![Vul { vul_id: 9 }],
    };
    state.process_host_document(&host_doc("10.0.0.3", vec![first, second], None));
    state.process_summary_document(&summary_doc(vec![summary_vuln(9, "10.0.0.3")])).unwrap();
    let records = state.join_records("sys").unwrap();
    assert_eq!(records.len(), 1);
    assert_eq!(records[0].port, Some(22));
    assert_eq!(records[0].service, "ssh");
}

#[test]
fn host_without_overview_contributes_nothing() {
    let mut state = RunState::new();
    let doc = ScanResult {
        categories: vec![Category { title: "别的".to_string(), children: None, data: None }],
        task_type: 0,
        create_time: String::new(),
    };
    state.process_host_document(&doc);
    state.process_summary_document(&summary_doc(Vec::new())).unwrap();
    assert_eq!(state.join_records("sys").unwrap().len(), 0);
}

#[test]
fn port_inventory_rows_are_tagged_with_ip() {
    let mut state = RunState::new();
    let block = OtherInfo {
        info_name: "远程端口信息".to_string(),
        column_names: vec!["端口".to_string(), "协议".to_string()],
        content: vec![vec!["443".to_string(), "tcp".to_string()]],
    };
    state.process_host_document(&host_doc("10.0.0.8", Vec::new(), Some(vec![block])));
    assert_eq!(state.ports.len(), 1);
    assert_eq!(state.ports[0].get("IP").unwrap(), "10.0.0.8");
    assert_eq!(state.ports[0].get("端口").unwrap(), "443");
    assert_eq!(state.ports[0].get("协议").unwrap(), "tcp");
}

#[test]
fn summary_without_section_is_fatal() {
    let mut state = RunState::new();
    let doc = ScanResult { categories: Vec::new(), task_type: 0, create_time: String::new() };
    assert_eq!(state.process_summary_document(&doc).unwrap_err(), RunError::SummarySectionMissing);
}

#[test]
fn summary_without_statistics_field_is_fatal() {
    let mut state = RunState::new();
    let doc = ScanResult {
        categories: vec![Category {
            title: "漏洞信息".to_string(),
            children: Some(vec![Child { data: empty_unit() }]),
            data: None,
        }],
        task_type: 0,
        create_time: String::new(),
    };
    assert_eq!(state.process_summary_document(&doc).unwrap_err(), RunError::SummaryFieldMissing);
}

#[test]
fn payload_extracted_from_script_element() {
    let page = "<html><body><script>window.data = {\"categories\":[]};</script></body></html>";
    assert_eq!(extract_payload(page).unwrap(), "{\"categories\":[]}");
}

#[test]
fn page_without_script_has_no_payload() {
    let page = "<html><body><p>nothing</p></body></html>";
    assert_eq!(extract_payload(page).unwrap_err(), ExtractError::NoPayload);
}

#[test]
fn script_without_assignment_prefix_is_malformed() {
    let page = "<script>var x = 1;</script>";
    assert_eq!(extract_payload(page).unwrap_err(), ExtractError::BadWrapper);
}

#[test]
fn script_without_terminator_is_malformed() {
    let page = "<script>window.data = {}</script>";
    assert_eq!(extract_payload(page).unwrap_err(), ExtractError::BadWrapper);
}

#[test]
fn entry_paths_classify_by_convention() {
    assert_eq!(classify_entry("report/host/10.0.0.5.html"), EntryKind::HostDetail);
    assert_eq!(classify_entry("host/index.html"), EntryKind::HostDetail);
    assert_eq!(classify_entry("report/index.html"), EntryKind::Summary);
    assert_eq!(classify_entry("index.html"), EntryKind::Summary);
    assert_eq!(classify_entry("report/host/notes.txt"), EntryKind::Ignored);
    assert_eq!(classify_entry("report/style.css"), EntryKind::Ignored);
    assert_eq!(classify_entry("report/other/page.html"), EntryKind::Ignored);
}

#[test]
fn empty_target_fails_the_join_lookup() {
    let mut state = RunState::new();
    let item = VulItem {
        port: Some(80),
        service: "http".to_string(),
        protocol: "tcp".to_string(),
        vuls: vec![Vul { vul_id: 1 }],
    };
    state.process_host_document(&host_doc("10.0.0.1", vec![item], None));
    state.process_summary_document(&summary_doc(vec![summary_vuln(1, "")])).unwrap();
    assert_eq!(state.join_records("sys").unwrap_err(), RunError::ExposureMissing);
}

#[test]
fn reprocessed_host_replaces_its_exposure_map() {
    let mut state = RunState::new();
    let item = VulItem {
        port: Some(80),
        service: "http".to_string(),
        protocol: "tcp".to_string(),
        vuls: vec![Vul { vul_id: 5 }],
    };
    state.process_host_document(&host_doc("10.0.0.4", vec![item], None));
    state.process_host_document(&host_doc("10.0.0.4", Vec::new(), None));
    state.process_summary_document(&summary_doc(vec![summary_vuln(5, "10.0.0.4")])).unwrap();
    assert_eq!(state.join_records("sys").unwrap_err(), RunError::ExposureMissing);
}
