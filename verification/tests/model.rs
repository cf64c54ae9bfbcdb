use scan_report::model::{Category, OtherInfo, ScanResult};
use scan_report::strmap::StringMap;

fn empty_category(title: &str) -> Category {
    Category { title: title.to_string(), children: None, data: None }
}

fn doc_with(categories: Vec<Category>) -> ScanResult {
    ScanResult { categories, task_type: 0, create_time: String::new() }
}

#[test]
fn category_lookup_finds_unique_title() {
    let doc = doc_with(vec![empty_category("one"), empty_category("two")]);
    let found = doc.get_category_by_name("two");
    assert!(found.is_some());
    assert_eq!(found.unwrap().title, "two");
}

#[test]
fn category_lookup_misses_absent_title() {
    let doc = doc_with(vec![empty_category("one")]);
    assert!(doc.get_category_by_name("three").is_none());
}

#[test]
fn category_lookup_rejects_duplicate_titles() {
    let doc = doc_with(vec![empty_category("dup"), empty_category("dup")]);
    assert!(doc.get_category_by_name("dup").is_none());
}

#[test]
fn category_lookup_on_empty_document() {
    let doc = doc_with(Vec::new());
    assert!(doc.get_category_by_name("anything").is_none());
}

#[test]
fn short_row_aligns_at_trailing_columns() {
    let info = OtherInfo {
        info_name: "block".to_string(),
        column_names: vec!["A".to_string(), "B".to_string(), "C".to_string()],
        content: vec![vec!["x".to_string(), "y".to_string()]],
    };
    let maps = info.calculate_content_maps();
    assert_eq!(maps.len(), 1);
    assert_eq!(maps[0].get("C").unwrap(), "y");
    assert_eq!(maps[0].get("B").unwrap(), "x");
    assert_eq!(maps[0].get("A").unwrap(), "Parse Error!");
}

#[test]
fn full_row_maps_every_column() {
    let info = OtherInfo {
        info_name: "block".to_string(),
        column_names: vec!["port".to_string(), "proto".to_string()],
        content: vec![
            vec!["22".to_string(), "tcp".to_string()],
            vec!["53".to_string(), "udp".to_string()],
        ],
    };
    let maps = info.calculate_content_maps();
    assert_eq!(maps.len(), 2);
    assert_eq!(maps[0].get("port").unwrap(), "22");
    assert_eq!(maps[0].get("proto").unwrap(), "tcp");
    assert_eq!(maps[1].get("port").unwrap(), "53");
    assert_eq!(maps[1].get("proto").unwrap(), "udp");
}

#[test]
fn empty_table_yields_no_maps() {
    let info = OtherInfo {
        info_name: "block".to_string(),
        column_names: vec!["A".to_string()],
        content: Vec::new(),
    };
    assert!(info.calculate_content_maps().is_empty());
}

#[test]
fn string_map_insert_shadows_older_binding() {
    let mut m = StringMap::new();
    m.insert("k".to_string(), "old".to_string());
    m.insert("k".to_string(), "new".to_string());
    assert_eq!(m.get("k").unwrap(), "new");
    assert!(m.get("missing").is_none());
}
