use rkazumi_core::danmaku::DanmakuParser;

#[test]
fn test_parse_bilibili_xml() {
    let xml = r#"<?xml version="1.0" encoding="utf-8"?><i><d p="0.5,1,25,16777215,1234567890,0,12345,67890">测试弹幕</d></i>"#;
    let result = DanmakuParser::parse_bilibili_xml(xml).unwrap();
    assert_eq!(result.items.len(), 1);
    assert_eq!(result.items[0].text, "测试弹幕");
    assert_eq!(result.items[0].time.parse::<f64>().unwrap_or(0.0) * 1000.0, 500.0);
}

#[test]
fn fields_and_defaults() {
    let xml = r#"<i><d p="1.25,5,x,-3,99,p,u,+7">a</d><d p="1,2,3">short</d><e p="0,1,2,3,4,5,6,7">not d</e><d p="2,,,,,,,"/></i>"#;
    let result = DanmakuParser::parse_bilibili_xml(xml).unwrap();
    assert_eq!(result.items.len(), 2);
    let a = &result.items[0];
    assert_eq!(a.time, "1.25");
    assert_eq!(a.danmaku_type, 5);
    assert_eq!(a.font_size, 25);
    assert_eq!(a.color, -3);
    assert_eq!(a.timestamp, 99);
    assert_eq!(a.uid, 0);
    assert_eq!(a.danmaku_id, 7);
    let b = &result.items[1];
    assert_eq!(b.danmaku_type, 1);
    assert_eq!(b.color, 16777215);
    assert_eq!(b.text, "");
}

#[test]
fn bad_xml_is_reported() {
    let err = DanmakuParser::parse_bilibili_xml("<i><d>").unwrap_err();
    assert!(err.starts_with("弹幕 XML 解析失败: "));
}
