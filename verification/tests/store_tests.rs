use smartkey::store::{chart_file_name, checked_file_name, order_by_title, safe_name, sanitize, ChartMeta, StoreError};

fn meta(title: &str, file: &str) -> ChartMeta {
    ChartMeta { id: file.into(), title: title.into(), character: None, tags: vec![], file: file.into() }
}

#[test]
fn sanitizing_names() {
    assert_eq!(sanitize("abc-XYZ_09"), "abc-XYZ_09");
    assert_eq!(sanitize("../a b/c"), "___a_b_c");
    assert_eq!(sanitize("测试"), "__");
    assert_eq!(sanitize(""), "");
}

#[test]
fn chart_file_names() {
    assert_eq!(chart_file_name("test-1"), "test-1.json");
    assert_eq!(chart_file_name("a/b"), "a_b.json");
}

#[test]
fn file_name_guard() {
    assert_eq!(checked_file_name(Some("x.json".to_string())), Ok("x.json".to_string()));
    assert_eq!(checked_file_name(None), Err(StoreError::InvalidName));
    assert_eq!(safe_name("../../etc/x.json"), Ok("x.json".to_string()));
    assert_eq!(safe_name("x.json"), Ok("x.json".to_string()));
    assert_eq!(safe_name(".."), Err(StoreError::InvalidName));
    assert_eq!(safe_name(""), Err(StoreError::InvalidName));
}

#[test]
fn file_name_guard_parent_and_plain() {
    assert_eq!(safe_name("charts/.."), Err(StoreError::InvalidName));
    assert_eq!(safe_name("combo_1-a.json"), Ok("combo_1-a.json".to_string()));
    assert_eq!(safe_name("nested/dir/combo.json"), Ok("combo.json".to_string()));
    let id = chart_file_name("my chart");
    assert_eq!(safe_name(&id), Ok(id.clone()));
}

#[test]
fn listing_is_ordered_by_title() {
    let list = vec![meta("b", "1"), meta("a", "2"), meta("b", "3"), meta("", "4"), meta("ab", "5")];
    let files: Vec<String> = order_by_title(list).into_iter().map(|m| m.file).collect();
    assert_eq!(files, vec!["4", "2", "5", "1", "3"]);
}

#[test]
fn file_name_guard_keeps_any_final_component() {
    assert_eq!(safe_name("dir/x y.json"), Ok("x y.json".to_string()));
    assert_eq!(safe_name("库/测试.json"), Ok("测试.json".to_string()));
    assert_eq!(safe_name("../../etc/passwd"), Ok("passwd".to_string()));
    assert_eq!(safe_name("C:/charts/a.json"), Ok("a.json".to_string()));
    assert_eq!(safe_name("a/./"), Ok("a".to_string()));
}
