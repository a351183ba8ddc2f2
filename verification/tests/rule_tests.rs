use rkazumi_core::executor::{extract_bangumi, extract_video_sources};
use rkazumi_core::rule::{parse_rule, selector_type, validate_rule};

#[test]
fn test_parse_rule() {
    let json = r#"{"name":"test","searchList":"//div"}"#;
    let result = parse_rule(json);
    assert!(result.is_ok());
}

#[test]
fn test_validate_rule() {
    let json = parse_rule(r#"{"name":"test","searchList":"//div"}"#).unwrap();
    assert!(validate_rule(&json).is_ok());
}

#[test]
fn test_selector_type() {
    let json = parse_rule(r#"{"searchList":"//div","searchUrl":""}"#).unwrap();
    assert_eq!(selector_type(&json), "xpath");
}

#[test]
fn test_rule_not_found() {
    let result = extract_bangumi("<div></div>", "nonexistent", "[]");
    assert!(result.is_err());
}

#[test]
fn test_extract_bangumi_list() {
    let html = r#"<div class="list"><a href="/1">AA</a></div>"#;
    let rules = r#"[{"name":"test","searchList":"//div[@class='list']","searchName":".","searchResult":".//a"}]"#;
    let result = extract_bangumi(html, "test", rules);
    assert!(result.is_ok());
}

#[test]
fn parse_rule_reports_bad_json() {
    let err = parse_rule("{").unwrap_err();
    assert!(err.starts_with("规则 JSON 解析失败: "));
}

#[test]
fn validate_rule_errors() {
    let no_name = parse_rule(r#"{"searchList":"//div"}"#).unwrap();
    assert_eq!(validate_rule(&no_name).unwrap_err(), "规则缺少 'name' 字段");
    let no_search = parse_rule(r#"{"name":"x"}"#).unwrap();
    assert_eq!(validate_rule(&no_search).unwrap_err(), "规则缺少搜索相关字段");
    let url_only = parse_rule(r#"{"name":"x","searchUrl":5}"#).unwrap();
    assert!(validate_rule(&url_only).is_ok());
    let not_object = parse_rule("[1,2]").unwrap();
    assert!(validate_rule(&not_object).is_ok());
}

#[test]
fn selector_kinds() {
    assert_eq!(selector_type(&parse_rule(r#"{"searchList":"","searchUrl":"http://x"}"#).unwrap()), "api");
    assert_eq!(selector_type(&parse_rule(r#"{"searchList":1}"#).unwrap()), "unknown");
    assert_eq!(selector_type(&parse_rule("3").unwrap()), "unknown");
}

#[test]
fn extract_bangumi_output() {
    let html = r#"<div class="list"><a href="/1">AA</a></div>"#;
    let rules = r#"[{"name":"other"},{"name":"test","searchList":"//div[@class='list']","searchName":".","searchResult":".//a"}]"#;
    let result = extract_bangumi(html, "test", rules).unwrap();
    assert_eq!(result, r#"{"items":[{"html":"<a href=\"/1\">AA</a>","name":"AA","src":"/1"}]}"#);
}

#[test]
fn extract_errors() {
    let err = extract_bangumi("<div></div>", "nonexistent", "[]").unwrap_err();
    assert_eq!(err, "规则 'nonexistent' 未找到");
    let err = extract_bangumi("<div></div>", "x", "{}").unwrap_err();
    assert!(err.starts_with("规则 JSON 解析失败: "));
    let err = extract_video_sources("<div></div>", "x", "not json").unwrap_err();
    assert!(err.starts_with("规则 JSON 解析失败: "));
}

#[test]
fn extract_video_sources_output() {
    let html = r#"<ul class="road"><li><a href="/ep/1">第1集</a></li><li><a>none</a></li><li><a href="/ep/2">第2集</a></li></ul><ul class="road"><li>x</li></ul>"#;
    let rules = r#"[{"name":"s","chapterRoads":"//ul[@class='road']","chapterResult":"//a"}]"#;
    let result = extract_video_sources(html, "s", rules).unwrap();
    assert_eq!(result, r#"{"roads":[{"data":["/ep/1","/ep/2"],"name":"播放线路","names":["第1集","第2集"]}]}"#);
    let none = extract_video_sources(html, "s", r#"[{"name":"s"}]"#).unwrap();
    assert_eq!(none, r#"{"roads":[]}"#);
}
