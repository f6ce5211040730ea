use base64::Engine;
use xtv::error::XtvError;
use xtv::facade::TreeVariant;
use xtv::index::{IndexEntry, LdifIndex, NodeType};
use xtv::ldif::{build_index, tree_from_index, LdifParser};
use xtv::node::TreeNode;
use xtv::streaming::StreamingTree;
use xtv::values::{hex_preview, parse_attribute_line};

fn same(a: &TreeNode, b: &TreeNode) -> bool {
    a.label == b.label
        && a.node_type == b.node_type
        && a.children == b.children
        && a.parent_id == b.parent_id
        && a.attributes.len() == b.attributes.len()
        && a.attributes.iter().zip(b.attributes.iter()).all(|(x, y)| x.key == y.key && x.value == y.value)
}

fn value_of(node: &TreeNode) -> String {
    node.attributes[0].value.clone()
}

#[test]
fn two_records_scenario() {
    let input = "dn: cn=A,dc=x\ncn: A\n\ndn: cn=B,cn=A,dc=x\ncn: B\n";
    let tree = LdifParser.parse(input).unwrap();
    let root = tree.get_node(0).unwrap();
    assert_eq!(root.children.len(), 1);
    let a = tree.get_node(root.children[0]).unwrap();
    assert_eq!(a.label, "cn=A,dc=x");
    assert_eq!(a.children.len(), 2);
    let container = tree.get_node(a.children[0]).unwrap();
    assert_eq!(container.node_type, "@attributes");
    let b = tree.get_node(a.children[1]).unwrap();
    assert_eq!(b.label, "cn=B");
    assert_eq!(b.node_type, "entry");
    assert_eq!(tree.get_parent(a.children[1]), Some(root.children[0]));
}

#[test]
fn base64_value_decodes_to_text() {
    let (k, v) = parse_attribute_line("description:: VGVzdA==").unwrap();
    assert_eq!(k, "description");
    assert_eq!(v, "Test");
    let tree = LdifParser.parse("dn: cn=T\ndescription:: VGVzdA==\n").unwrap();
    let entry = tree.get_node(1).unwrap();
    let container = tree.get_node(entry.children[0]).unwrap();
    let desc = tree.get_node(container.children[0]).unwrap();
    assert_eq!(desc.label, "description");
    assert_eq!(value_of(desc), "Test");
}

#[test]
fn empty_input_gives_lone_root() {
    let tree = LdifParser.parse("").unwrap();
    assert_eq!(tree.node_count(), 1);
    assert!(tree.get_children(0).is_empty());
    let index = build_index("").unwrap();
    let mut st = StreamingTree::new(index);
    assert_eq!(st.node_count(), 1);
    assert!(st.get_children(0).is_empty());
    assert_eq!(st.get_node(0).unwrap().label, "root");
}

#[test]
fn child_before_parent_attaches_to_root() {
    let input = "dn: cn=B,cn=A,dc=x\ncn: B\n\ndn: cn=A,dc=x\ncn: A\n";
    let tree = LdifParser.parse(input).unwrap();
    let root = tree.get_node(0).unwrap();
    assert_eq!(root.children.len(), 2);
    assert_eq!(tree.get_node(root.children[0]).unwrap().label, "cn=B,cn=A,dc=x");
    assert_eq!(tree.get_node(root.children[1]).unwrap().label, "cn=A,dc=x");
    let a = tree.get_node(root.children[1]).unwrap();
    assert_eq!(a.children.len(), 1);
}

#[test]
fn node_count_matches_records_and_values() {
    let input = "dn: cn=A\nobjectClass: top\nobjectClass: person\nmail: a@x\n\ndn: cn=B,cn=A\n";
    let tree = LdifParser.parse(input).unwrap();
    assert_eq!(tree.node_count(), 1 + (2 + 4) + (2 + 1));
}

#[test]
fn attribute_keys_sorted_and_indexed() {
    let input = "dn: cn=A\nsn: S\nmail: m1\ncn: C\nmail: m2\n";
    let tree = LdifParser.parse(input).unwrap();
    let entry = tree.get_node(1).unwrap();
    let container = tree.get_node(entry.children[0]).unwrap();
    let labels: Vec<String> = container.children.iter().map(|&id| tree.get_node(id).unwrap().label.clone()).collect();
    assert_eq!(labels, vec!["cn", "dn", "mail [0]", "mail [1]", "sn"]);
    let values: Vec<String> = container.children.iter().map(|&id| value_of(tree.get_node(id).unwrap())).collect();
    assert_eq!(values, vec!["C", "cn=A", "m1", "m2", "S"]);
}

#[test]
fn streaming_matches_in_memory_cold_and_warm() {
    let input = "version: 1\n\ndn: dc=x\ndc: x\n\ndn: ou=P,dc=x\nou: P\nobjectClass: a\nobjectClass: b\n\ndn: cn=J,ou=P,dc=x\ncn: J\n";
    let tree = LdifParser.parse(input).unwrap();
    let mut st = StreamingTree::new(build_index(input).unwrap());
    assert_eq!(st.node_count(), tree.node_count());
    for id in 0..tree.node_count() {
        let cold = st.get_node(id).unwrap();
        let warm = st.get_node(id).unwrap();
        assert!(same(&cold, &warm));
        assert!(same(&cold, tree.get_node(id).unwrap()));
        assert_eq!(st.get_children(id), tree.get_children(id));
        assert_eq!(st.get_parent(id), tree.get_parent(id));
    }
    assert!(st.get_node(tree.node_count()).is_none());
}

#[test]
fn eviction_keeps_results() {
    let mut input = String::new();
    for i in 0..600 {
        input.push_str(&format!("dn: cn=n{},dc=x\ncn: n{}\n\n", i, i));
    }
    let mut st = StreamingTree::new(build_index(&input).unwrap());
    assert!(st.node_count() > 1000);
    let first = st.get_node(1).unwrap();
    for id in 0..st.node_count() {
        st.get_node(id).unwrap();
    }
    let again = st.get_node(1).unwrap();
    assert!(same(&first, &again));
    assert_eq!(again.label, "cn=n0,dc=x");
}

#[test]
fn facade_over_both_variants() {
    let input = "dn: cn=A\ncn: A\n";
    let mut a = TreeVariant::from_tree(LdifParser.parse(input).unwrap());
    let mut b = TreeVariant::from_streaming(StreamingTree::new(build_index(input).unwrap()));
    assert_eq!(a.root_id(), 0);
    assert_eq!(b.root_id(), 0);
    assert_eq!(a.node_count(), b.node_count());
    for id in 0..a.node_count() + 1 {
        let x = a.get_node(id);
        let y = b.get_node(id);
        assert_eq!(x.is_some(), y.is_some());
        if let (Some(x), Some(y)) = (x, y) {
            assert!(same(&x, &y));
        }
        assert_eq!(a.get_children(id), b.get_children(id));
        assert_eq!(a.get_parent(id), b.get_parent(id));
    }
}

#[test]
fn key_line_error_names_line() {
    match LdifParser.parse("version: 1\n\nnotadn: invalid\n") {
        Err(XtvError::LdifParse { line, .. }) => assert_eq!(line, 3),
        _ => panic!("expected a parse error"),
    }
    match build_index("dn: a\n\n# note\n cont\n") {
        Err(XtvError::LdifParse { line, .. }) => assert_eq!(line, 4),
        _ => panic!("expected a parse error"),
    }
}

#[test]
fn folding_comments_and_line_ends() {
    let input = "dn: cn=Long\r\n  Name,dc=x\r\ndescription: one\r\n  two\r\n# note\r\nmail: m\r\n";
    let tree = LdifParser.parse(input).unwrap();
    let entry = tree.get_node(1).unwrap();
    assert_eq!(entry.label, "cn=Long Name,dc=x");
    let container = tree.get_node(entry.children[0]).unwrap();
    let desc = tree.get_node(container.children[0]).unwrap();
    assert_eq!(desc.label, "description");
    assert_eq!(value_of(desc), "one two");
    assert_eq!(container.children.len(), 3);
}

#[test]
fn attribute_value_forms() {
    assert_eq!(
        parse_attribute_line("photo:< file:///tmp/p.jpg"),
        Some(("photo".to_string(), "<URL reference: file:///tmp/p.jpg>".to_string()))
    );
    assert_eq!(parse_attribute_line("cn:  Test  "), Some(("cn".to_string(), "Test".to_string())));
    assert_eq!(parse_attribute_line("no separator"), None);
    assert_eq!(parse_attribute_line("bin:: /wA="), Some(("bin".to_string(), "<binary: ff 00>".to_string())));
    let big = base64::engine::general_purpose::STANDARD.encode(vec![0xffu8; 65]);
    let line = format!("blob:: {}", big);
    assert_eq!(parse_attribute_line(&line).unwrap().1, "<binary data, 65 bytes>");
    assert_eq!(
        parse_attribute_line("bad:: !!!"),
        Some(("bad".to_string(), "<invalid base64: !!!>".to_string()))
    );
}

#[test]
fn hex_preview_takes_first_32_bytes() {
    assert_eq!(hex_preview(&[0x0a, 0xb1]), "0a b1");
    assert_eq!(hex_preview(&[]), "");
    let long: Vec<u8> = (0u8..40).collect();
    let text = hex_preview(&long);
    assert_eq!(text.split(' ').count(), 32);
    assert!(text.ends_with("1f"));
}

#[test]
fn index_api() {
    let mut index = LdifIndex::new(0);
    assert!(index.is_empty());
    let root = index.add_entry(IndexEntry::new(0, None, NodeType::Root));
    let child = index.add_entry(IndexEntry::new(5, Some(root), NodeType::VirtualAttributes));
    index.add_child(root, child);
    index.add_child(77, child);
    assert_eq!(index.len(), 2);
    assert_eq!(index.root_id(), 0);
    assert_eq!(index.get_entry(root).unwrap().children, vec![child]);
    assert_eq!(index.get_entry(child).unwrap().offset, 5);
    assert!(index.get_entry(2).is_none());
    index.get_entry_mut(child).unwrap().offset = 9;
    assert_eq!(index.get_entry(child).unwrap().offset, 9);
    let tree = tree_from_index(&index);
    assert_eq!(tree.get_node(1).unwrap().label, "@attributes");
}

#[test]
fn record_offsets_are_byte_positions() {
    let input = "version: 1\ndn: cn=A\ncn: A\n\ndn: cn=B\n";
    let index = build_index(input).unwrap();
    let a = index.get_entry(1).unwrap();
    assert_eq!(a.offset, 11);
    let b_id = index.get_entry(0).unwrap().children[1];
    assert_eq!(index.get_entry(b_id).unwrap().offset, 27);
}

#[test]
fn relative_key_needs_comma_right_before_parent() {
    let input = "dn: dc=x\n\ndn: cn=A,dc=x\n\ndn: cn=B, dc=x\n";
    let tree = LdifParser.parse(input).unwrap();
    let x = tree.get_node(1).unwrap();
    let labels: Vec<String> = x
        .children
        .iter()
        .map(|&id| tree.get_node(id).unwrap())
        .filter(|n| n.node_type == "entry")
        .map(|n| n.label.clone())
        .collect();
    assert_eq!(labels, vec!["cn=A", "cn=B, dc=x"]);
}

#[test]
fn duplicate_key_resolves_to_latest_record() {
    let input = "dn: dc=x\n\ndn: dc=x\n\ndn: cn=A,dc=x\n";
    let tree = LdifParser.parse(input).unwrap();
    let root = tree.get_node(0).unwrap();
    assert_eq!(root.children.len(), 2);
    let second = tree.get_node(root.children[1]).unwrap();
    assert_eq!(second.children.len(), 2);
    assert_eq!(tree.get_node(second.children[1]).unwrap().label, "cn=A");
}
