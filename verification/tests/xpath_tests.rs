use rkazumi_core::xpath::{evaluate, parse_predicate, parse_single_step, parse_xpath_steps, Axis, XPathValue};
use rkazumi_core::xpath_json::{evaluate_batch_to_json, evaluate_to_json};

#[test]
fn test_simple_tag() {
    let html = "<div><p>hello</p></div>";
    let result = evaluate(html, "//p").unwrap();
    match result {
        XPathValue::Nodes(nodes) => {
            assert_eq!(nodes.len(), 1);
            assert_eq!(nodes[0].text, "hello");
        }
        _ => panic!("Expected nodes"),
    }
}

#[test]
fn test_class_predicate() {
    let html = "<div><p class='a'>one</p><p class='b'>two</p></div>";
    let result = evaluate(html, "//p[@class='a']").unwrap();
    match result {
        XPathValue::Nodes(nodes) => {
            assert_eq!(nodes.len(), 1);
            assert_eq!(nodes[0].text, "one");
        }
        _ => panic!("Expected nodes"),
    }
}

#[test]
fn test_contains() {
    let html = "<div><p class='playlist-item'>x</p><p class='other'>y</p></div>";
    let result = evaluate(html, "//p[contains(@class,'playlist')]").unwrap();
    match result {
        XPathValue::Nodes(nodes) => {
            assert_eq!(nodes.len(), 1);
            assert_eq!(nodes[0].text, "x");
        }
        _ => panic!("Expected nodes"),
    }
}

#[test]
fn test_wildcard() {
    let html = "<div><p>a</p><span>b</span></div>";
    let result = evaluate(html, "//*").unwrap();
    match result {
        XPathValue::Nodes(nodes) => {
            assert!(nodes.len() >= 2);
        }
        _ => panic!("Expected nodes"),
    }
}

#[test]
fn test_position() {
    let html = "<ul><li>a</li><li>b</li><li>c</li></ul>";
    let result = evaluate(html, "//li[2]").unwrap();
    match result {
        XPathValue::Nodes(nodes) => {
            assert_eq!(nodes.len(), 1);
            assert_eq!(nodes[0].text, "b");
        }
        _ => panic!("Expected nodes"),
    }
}

#[test]
fn test_last() {
    let html = "<ul><li>a</li><li>b</li><li>c</li></ul>";
    let result = evaluate(html, "//li[last()]").unwrap();
    match result {
        XPathValue::Nodes(nodes) => {
            assert_eq!(nodes.len(), 1);
            assert_eq!(nodes[0].text, "c");
        }
        _ => panic!("Expected nodes"),
    }
}

#[test]
fn test_not_predicate() {
    let html = "<div><p class='a'>x</p><p class='b'>y</p></div>";
    let result = evaluate(html, "//p[not(@class='a')]").unwrap();
    match result {
        XPathValue::Nodes(nodes) => {
            assert_eq!(nodes.len(), 1);
            assert_eq!(nodes[0].text, "y");
        }
        _ => panic!("Expected nodes"),
    }
}

#[test]
fn test_union() {
    let html = "<div><p>a</p><span>b</span></div>";
    let result = evaluate(html, "//p | //span").unwrap();
    match result {
        XPathValue::Nodes(nodes) => {
            assert_eq!(nodes.len(), 2);
        }
        _ => panic!("Expected nodes"),
    }
}

#[test]
fn test_text_extraction() {
    let html = "<a href='/ep/1'>第1话</a>";
    let result = evaluate(html, "//a").unwrap();
    match result {
        XPathValue::Nodes(nodes) => {
            assert_eq!(nodes.len(), 1);
            assert_eq!(nodes[0].text, "第1话");
            assert_eq!(nodes[0].attributes.get("href").unwrap(), "/ep/1");
        }
        _ => panic!("Expected nodes"),
    }
}

#[test]
fn test_href_extraction() {
    let html = "<div><a href='/ep/1'>第1话</a></div>";
    let result = evaluate(html, "//a/@href").unwrap();
    match result {
        XPathValue::String(s) => {
            assert_eq!(s, "/ep/1");
        }
        _ => panic!("Expected string"),
    }
}

#[test]
fn test_contains_full() {
    let html = "<div class='playlist-container'><p>content</p></div>";
    let result = evaluate(html, "//div[contains(@class,'playlist')]").unwrap();
    match result {
        XPathValue::Nodes(nodes) => {
            assert_eq!(nodes.len(), 1);
        }
        _ => panic!("Expected nodes"),
    }
}

#[test]
fn test_complex_rule() {
    let html = "<html><body><div class='list'><ul><li><a href='/1'>AA</a></li><li><a href='/2'>BB</a></li></ul></div></body></html>";
    let result = evaluate(html, "//div[@class='list']//a").unwrap();
    match result {
        XPathValue::Nodes(nodes) => {
            assert_eq!(nodes.len(), 2);
            assert_eq!(nodes[0].attributes.get("href").unwrap(), "/1");
            assert_eq!(nodes[1].attributes.get("href").unwrap(), "/2");
        }
        _ => panic!("Expected nodes"),
    }
}

#[test]
fn empty_expression_selects_nothing() {
    match evaluate("<p>x</p>", "").unwrap() {
        XPathValue::Nodes(nodes) => assert_eq!(nodes.len(), 0),
        _ => panic!("Expected nodes"),
    }
}

#[test]
fn steps_of_a_path() {
    let steps = parse_xpath_steps("//div[@class='x'][2]/a");
    assert_eq!(steps.len(), 3);
    assert_eq!(steps[0].axis, Axis::DescendantOrSelf);
    assert_eq!(steps[1].axis, Axis::Child);
    assert_eq!(steps[1].predicates, vec!["@class='x'".to_string(), "2".to_string()]);
    assert_eq!(steps[2].axis, Axis::Child);
    let steps = parse_xpath_steps(".//a/@href");
    assert_eq!(steps[0].axis, Axis::Self_);
    assert_eq!(steps[1].axis, Axis::DescendantOrSelf);
    assert_eq!(steps[3].axis, Axis::Attribute);
}

#[test]
fn node_result_fields() {
    let html = "<div id='d' class='c'>one <b>two</b></div>";
    match evaluate(html, "//div").unwrap() {
        XPathValue::Nodes(nodes) => {
            assert_eq!(nodes.len(), 1);
            let n = &nodes[0];
            assert_eq!(n.name, "div");
            assert_eq!(n.text, "one  two");
            assert_eq!(n.html, "one <b>two</b>");
            assert_eq!(n.outer_html, "<div class=\"c\" id=\"d\">one <b>two</b></div>");
            assert_eq!(n.attributes.len(), 2);
        }
        _ => panic!("Expected nodes"),
    }
}

#[test]
fn position_function_and_attribute_presence() {
    let html = "<ul><li>a</li><li data-x='1'>b</li><li>c</li></ul>";
    match evaluate(html, "//li[position()=3]").unwrap() {
        XPathValue::Nodes(nodes) => assert_eq!(nodes[0].text, "c"),
        _ => panic!("Expected nodes"),
    }
    match evaluate(html, "//li[@data-x]").unwrap() {
        XPathValue::Nodes(nodes) => {
            assert_eq!(nodes.len(), 1);
            assert_eq!(nodes[0].text, "b");
        }
        _ => panic!("Expected nodes"),
    }
}

#[test]
fn missing_attribute_gives_empty_string() {
    match evaluate("<a>x</a>", "//a/@href").unwrap() {
        XPathValue::String(s) => assert_eq!(s, ""),
        _ => panic!("Expected string"),
    }
}

#[test]
fn json_answers() {
    let j = evaluate_to_json("<p class='k'>t</p>", "//p");
    assert_eq!(
        j,
        "{\"count\":1,\"nodes\":[{\"attributes\":{\"class\":\"k\"},\"html\":\"t\",\"name\":\"p\",\"outer_html\":\"<p class=\\\"k\\\">t</p>\",\"text\":\"t\"}],\"success\":true,\"type\":\"nodes\"}"
    );
    let s = evaluate_to_json("<a href='/x'>t</a>", "//a/@href");
    assert_eq!(s, "{\"success\":true,\"type\":\"string\",\"value\":\"/x\"}");
    let b = evaluate_batch_to_json(
        "<a href='/x'>t</a>",
        vec![("z".to_string(), "//a/@href".to_string()), ("a".to_string(), "//b".to_string())],
    );
    assert_eq!(b, "{\"a\":{\"items\":[],\"type\":\"nodes\"},\"z\":{\"type\":\"string\",\"value\":\"/x\"}}");
}

#[test]
fn root_element_is_selectable() {
    match evaluate("<p>x</p>", "//html").unwrap() {
        XPathValue::Nodes(nodes) => {
            assert_eq!(nodes.len(), 1);
            assert_eq!(nodes[0].name, "html");
        }
        _ => panic!("Expected nodes"),
    }
    match evaluate("<p>x</p>", "/html/body/p").unwrap() {
        XPathValue::Nodes(nodes) => {
            assert_eq!(nodes.len(), 1);
            assert_eq!(nodes[0].text, "x");
        }
        _ => panic!("Expected nodes"),
    }
}

#[test]
fn matches_come_in_document_order() {
    let html = "<div id='1'><div id='2'></div></div><div id='3'></div>";
    match evaluate(html, "//div").unwrap() {
        XPathValue::Nodes(nodes) => {
            let ids: Vec<&str> = nodes.iter().map(|n| n.attributes.get("id").unwrap().as_str()).collect();
            assert_eq!(ids, vec!["1", "2", "3"]);
        }
        _ => panic!("Expected nodes"),
    }
}

#[test]
fn each_match_is_listed_once() {
    let html = "<div><div><a href='/x'>x</a></div></div>";
    match evaluate(html, "//div//a").unwrap() {
        XPathValue::Nodes(nodes) => assert_eq!(nodes.len(), 1),
        _ => panic!("Expected nodes"),
    }
    match evaluate(html, "//*").unwrap() {
        XPathValue::Nodes(nodes) => {
            let names: Vec<&str> = nodes.iter().map(|n| n.name.as_str()).collect();
            assert_eq!(names, vec!["html", "head", "body", "div", "div", "a"]);
        }
        _ => panic!("Expected nodes"),
    }
}

#[test]
fn predicate_offsets_are_bytes() {
    assert_eq!(parse_predicate("[@class='a']x"), ("@class='a'".to_string(), 12));
    assert_eq!(parse_predicate("[a[1]]b"), ("a[1]".to_string(), 6));
    assert_eq!(parse_predicate("[é]"), ("é".to_string(), 4));
    let s = "p[é]/a";
    let (step, n) = parse_single_step(s);
    assert_eq!(step.predicates, vec!["é".to_string()]);
    assert_eq!(&s[n..], "/a");
}

#[test]
fn union_lists_both_sides_in_document_order() {
    match evaluate("<div><p>a</p><span>b</span><p>c</p></div>", "//span | //p").unwrap() {
        XPathValue::Nodes(nodes) => {
            let texts: Vec<&str> = nodes.iter().map(|n| n.text.as_str()).collect();
            assert_eq!(texts, vec!["a", "b", "c"]);
        }
        _ => panic!("Expected nodes"),
    }
}

#[test]
fn json_strings_are_escaped() {
    let s = evaluate_to_json("<a title='say \"hi\" \\ now'>t</a>", "//a/@title");
    assert_eq!(s, "{\"success\":true,\"type\":\"string\",\"value\":\"say \\\"hi\\\" \\\\ now\"}");
    let t = evaluate_to_json("<a title='x&#9;y&#1;z'>t</a>", "//a/@title");
    assert_eq!(t, "{\"success\":true,\"type\":\"string\",\"value\":\"x\\ty\\u0001z\"}");
}

#[test]
fn relative_paths_start_at_the_root_element() {
    let html = "<div>a</div><div>b</div>";
    match evaluate(html, "body/div").unwrap() {
        XPathValue::Nodes(nodes) => assert_eq!(nodes.len(), 2),
        _ => panic!("Expected nodes"),
    }
    match evaluate(html, "/body/div").unwrap() {
        XPathValue::Nodes(nodes) => assert_eq!(nodes.len(), 0),
        _ => panic!("Expected nodes"),
    }
}

#[test]
fn parent_step_selects_the_parent() {
    let html = "<div id='a'><p>x</p><p>y</p></div><span><p>z</p></span>";
    match evaluate(html, "//p/..").unwrap() {
        XPathValue::Nodes(nodes) => {
            let names: Vec<&str> = nodes.iter().map(|n| n.name.as_str()).collect();
            assert_eq!(names, vec!["div", "span"]);
        }
        _ => panic!("Expected nodes"),
    }
    match evaluate(html, "//span/p/../..").unwrap() {
        XPathValue::Nodes(nodes) => {
            assert_eq!(nodes.len(), 1);
            assert_eq!(nodes[0].name, "body");
        }
        _ => panic!("Expected nodes"),
    }
}
