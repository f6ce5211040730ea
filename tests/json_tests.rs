use xtv::json::{JsonLinesParser, JsonParser};

#[test]
fn test_parse_simple_json() {
    let json = r#"{"name": "test", "count": 42}"#;
    let parser = JsonParser;
    let tree = parser.parse(json).unwrap();

    assert!(tree.node_count() > 0);
    let root = tree.get_node(tree.root_id()).unwrap();
    assert_eq!(root.label, "root");
}

#[test]
fn test_parse_nested_json() {
    let json = r#"{"user": {"name": "Alice", "age": 30}}"#;
    let parser = JsonParser;
    let tree = parser.parse(json).unwrap();

    assert!(tree.node_count() > 3);
}

#[test]
fn test_parse_simple_jsonlines() {
    let jsonl = r#"{"name": "Alice", "age": 30}
{"name": "Bob", "age": 25}
{"name": "Charlie", "age": 35}"#;
    let parser = JsonLinesParser;
    let tree = parser.parse(jsonl).unwrap();

    assert!(tree.node_count() > 0);
    let root = tree.get_node(tree.root_id()).unwrap();
    assert_eq!(root.label, "root");
    assert_eq!(root.children.len(), 3);
}

#[test]
fn test_parse_jsonlines_with_empty_lines() {
    let jsonl = r#"{"name": "Alice"}

{"name": "Bob"}
"#;
    let parser = JsonLinesParser;
    let tree = parser.parse(jsonl).unwrap();

    let root = tree.get_node(tree.root_id()).unwrap();
    assert_eq!(root.children.len(), 2);
}

#[test]
fn test_parse_jsonlines_different_types() {
    let jsonl = r#"{"type": "object"}
["array", "values"]
"just a string"
42
true
null"#;
    let parser = JsonLinesParser;
    let tree = parser.parse(jsonl).unwrap();

    let root = tree.get_node(tree.root_id()).unwrap();
    assert_eq!(root.children.len(), 6);
}

#[test]
fn test_jsonlines_line_numbers() {
    let jsonl = r#"{"id": 1}
{"id": 2}
{"id": 3}"#;
    let parser = JsonLinesParser;
    let tree = parser.parse(jsonl).unwrap();

    let root = tree.get_node(tree.root_id()).unwrap();

    let first_child = tree.get_node(root.children[0]).unwrap();
    assert_eq!(first_child.label, "[1]");

    let second_child = tree.get_node(root.children[1]).unwrap();
    assert_eq!(second_child.label, "[2]");

    let third_child = tree.get_node(root.children[2]).unwrap();
    assert_eq!(third_child.label, "[3]");
}

#[test]
fn test_parse_nested_jsonlines() {
    let jsonl = r#"{"user": {"name": "Alice", "age": 30}, "active": true}
{"user": {"name": "Bob", "age": 25}, "active": false}"#;
    let parser = JsonLinesParser;
    let tree = parser.parse(jsonl).unwrap();

    assert!(tree.node_count() > 10);
}

#[test]
fn test_jsonlines_line_numbering() {
    let content = "{\"id\": 1}\n{\"id\": 2}\n{\"id\": 3}";
    let parser = JsonLinesParser;
    let tree = parser.parse(content).unwrap();

    let root = tree.get_node(tree.root_id()).unwrap();
    assert_eq!(root.children.len(), 3);

    let first_line = tree.get_node(root.children[0]).unwrap();
    assert_eq!(first_line.label, "[1]");

    let second_line = tree.get_node(root.children[1]).unwrap();
    assert_eq!(second_line.label, "[2]");

    let third_line = tree.get_node(root.children[2]).unwrap();
    assert_eq!(third_line.label, "[3]");
}

#[test]
fn json_node_shapes() {
    let tree = JsonParser.parse(r#"{"a": [1, "x", null], "b": false}"#).unwrap();
    let root = tree.get_node(0).unwrap();
    assert_eq!(root.children.len(), 2);
    let a = tree.get_node(root.children[0]).unwrap();
    assert_eq!(a.label, "a");
    assert_eq!(a.node_type, "array");
    assert_eq!(a.attributes[0].key, "size");
    assert_eq!(a.attributes[0].value, "3 items");
    let labels: Vec<String> = a.children.iter().map(|&i| tree.get_node(i).unwrap().label.clone()).collect();
    assert_eq!(labels, vec!["[0]", "[1]", "[2]"]);
    let values: Vec<String> = a.children.iter().map(|&i| tree.get_node(i).unwrap().attributes[0].value.clone()).collect();
    assert_eq!(values, vec!["1", "x", "null"]);
    let b = tree.get_node(root.children[1]).unwrap();
    assert_eq!(b.node_type, "attribute");
    assert_eq!(b.attributes[0].value, "false");
    let scalar = JsonParser.parse("42").unwrap();
    assert_eq!(scalar.get_node(1).unwrap().label, "value");
    assert!(JsonParser.parse("{oops").is_err());
    assert!(JsonLinesParser.parse("{}\nnot json\n").is_err());
}

#[test]
fn json_can_parse() {
    assert!(JsonParser.can_parse("a.json"));
    assert!(JsonParser.can_parse("a.JSON"));
    assert!(!JsonParser.can_parse("a.jsonl"));
}
