use xtv::dn::{compute_rdn, get_parent_dn};
use xtv::ldif::LdifParser;

#[test]
fn test_parse_simple_ldif() {
    let ldif = "version: 1\n\ndn: cn=Test,dc=example,dc=com\ncn: Test\nsn: User\n";
    let parser = LdifParser;
    let tree = parser.parse(ldif).unwrap();
    assert!(tree.node_count() > 0);

    let root = tree.get_node(0).unwrap();
    assert!(root.has_children());
}

#[test]
fn test_parse_multiple_entries() {
    let ldif = r#"version: 1

dn: cn=First,dc=example,dc=com
cn: First

dn: cn=Second,dc=example,dc=com
cn: Second
"#;
    let parser = LdifParser;
    let tree = parser.parse(ldif).unwrap();

    let root = tree.get_node(0).unwrap();
    assert_eq!(root.children.len(), 2);

    let first_entry = tree.get_node(root.children[0]).unwrap();
    assert_eq!(first_entry.label, "cn=First,dc=example,dc=com");

    let second_entry = tree.get_node(root.children[1]).unwrap();
    assert_eq!(second_entry.label, "cn=Second,dc=example,dc=com");
}

#[test]
fn test_line_folding() {
    let ldif = "version: 1\n\ndn: cn=Test,dc=example,dc=com\ndescription: This is a long\n description that continues\n  on multiple lines\n";
    let parser = LdifParser;
    let tree = parser.parse(ldif).unwrap();

    assert!(tree.node_count() > 0);
}

#[test]
fn test_multi_valued_attributes() {
    let ldif = r#"version: 1

dn: cn=Test,dc=example,dc=com
objectClass: top
objectClass: person
objectClass: organizationalPerson
"#;
    let parser = LdifParser;
    let tree = parser.parse(ldif).unwrap();

    let root = tree.get_node(0).unwrap();
    let entry = tree.get_node(root.children[0]).unwrap();
    assert_eq!(entry.label, "cn=Test,dc=example,dc=com");

    let attrs = tree.get_node(entry.children[0]).unwrap();
    assert_eq!(attrs.node_type, "@attributes");

    assert!(attrs.children.len() >= 4);

    let mut found_indexed = false;
    for child_id in &attrs.children {
        let child = tree.get_node(*child_id).unwrap();
        if child.label.contains("objectClass [") {
            found_indexed = true;
            break;
        }
    }
    assert!(found_indexed);
}

#[test]
fn test_base64_decoding() {
    let ldif = "version: 1\n\ndn: cn=Test,dc=example,dc=com\ndescription:: VGVzdA==\n";
    let parser = LdifParser;
    let tree = parser.parse(ldif).unwrap();

    assert!(tree.node_count() > 0);
}

#[test]
fn test_url_reference() {
    let ldif = "version: 1\n\ndn: cn=Test,dc=example,dc=com\nphoto:< file:///tmp/photo.jpg\n";
    let parser = LdifParser;
    let tree = parser.parse(ldif).unwrap();

    assert!(tree.node_count() > 0);
}

#[test]
fn test_comments() {
    let ldif = r#"version: 1

# This is a comment
dn: cn=Test,dc=example,dc=com
# Another comment
cn: Test
"#;
    let parser = LdifParser;
    let tree = parser.parse(ldif).unwrap();

    let root = tree.get_node(0).unwrap();
    assert_eq!(root.children.len(), 1);
}

#[test]
fn test_version_line() {
    let ldif = "version: 1\n\ndn: cn=Test,dc=example,dc=com\ncn: Test\n";
    let parser = LdifParser;
    let result = parser.parse(ldif);
    assert!(result.is_ok());
}

#[test]
fn test_virtual_attributes_node() {
    let ldif = "version: 1\n\ndn: cn=Test,dc=example,dc=com\ncn: Test\n";
    let parser = LdifParser;
    let tree = parser.parse(ldif).unwrap();

    let root = tree.get_node(0).unwrap();
    let entry = tree.get_node(root.children[0]).unwrap();
    assert_eq!(entry.node_type, "entry");
    assert_eq!(entry.label, "cn=Test,dc=example,dc=com");

    let attrs = tree.get_node(entry.children[0]).unwrap();
    assert_eq!(attrs.node_type, "@attributes");
}

#[test]
fn test_can_parse_ldif_extension() {
    let parser = LdifParser;
    assert!(parser.can_parse("test.ldif"));
    assert!(parser.can_parse("test.LDIF"));
    assert!(!parser.can_parse("test.xml"));
}

#[test]
fn test_empty_ldif() {
    let ldif = "";
    let parser = LdifParser;
    let tree = parser.parse(ldif).unwrap();

    let root = tree.get_node(0).unwrap();
    assert_eq!(root.children.len(), 0);
}

#[test]
fn test_malformed_entry() {
    let ldif = "version: 1\n\nnotadn: invalid\n";
    let parser = LdifParser;
    let result = parser.parse(ldif);
    assert!(result.is_err());
}

#[test]
fn test_whitespace_in_values() {
    let ldif = "version: 1\n\ndn: cn=Test,dc=example,dc=com\ncn:  Test  \n";
    let parser = LdifParser;
    let tree = parser.parse(ldif).unwrap();
    assert!(tree.node_count() > 0);
}

#[test]
fn test_no_version_line() {
    let ldif = "dn: cn=Test,dc=example,dc=com\ncn: Test\n";
    let parser = LdifParser;
    let result = parser.parse(ldif);
    assert!(result.is_ok());
}

#[test]
fn test_hierarchical_structure() {
    let ldif = r#"version: 1

dn: dc=example,dc=com
objectClass: top
dc: example

dn: ou=People,dc=example,dc=com
objectClass: organizationalUnit
ou: People

dn: cn=John Doe,ou=People,dc=example,dc=com
objectClass: person
cn: John Doe
"#;
    let parser = LdifParser;
    let tree = parser.parse(ldif).unwrap();

    let root = tree.get_node(0).unwrap();

    assert_eq!(root.children.len(), 1);
    let dc_node = tree.get_node(root.children[0]).unwrap();
    assert_eq!(dc_node.label, "dc=example,dc=com");

    let ou_node = dc_node
        .children
        .iter()
        .map(|&id| tree.get_node(id).unwrap())
        .find(|n| n.node_type == "entry")
        .expect("Should have ou=People entry");
    assert_eq!(ou_node.label, "ou=People");

    let cn_node = ou_node
        .children
        .iter()
        .map(|&id| tree.get_node(id).unwrap())
        .find(|n| n.node_type == "entry")
        .expect("Should have cn=John Doe entry");
    assert_eq!(cn_node.label, "cn=John Doe");
}

#[test]
fn test_dn_parsing() {
    assert_eq!(
        get_parent_dn("cn=John Doe,ou=People,dc=example,dc=com"),
        Some("ou=People,dc=example,dc=com".to_string())
    );
    assert_eq!(get_parent_dn("dc=com"), None);
    assert_eq!(
        get_parent_dn("cn=Doe\\, John,ou=People"),
        Some("ou=People".to_string())
    );

    assert_eq!(
        compute_rdn(
            "cn=John Doe,ou=People,dc=example,dc=com",
            Some("ou=People,dc=example,dc=com")
        ),
        "cn=John Doe"
    );
    assert_eq!(
        compute_rdn("ou=People,dc=example,dc=com", Some("dc=example,dc=com")),
        "ou=People"
    );
    assert_eq!(compute_rdn("dc=example,dc=com", None), "dc=example,dc=com");
}

#[test]
fn test_ldif_entry_structure() {
    let ldif = "version: 1\n\ndn: cn=Test,dc=example,dc=com\ncn: Test\nsn: User\n";
    let parser = LdifParser;
    let tree = parser.parse(ldif).unwrap();

    let root = tree.get_node(0).unwrap();
    assert!(root.has_children());

    let entry = tree.get_node(root.children[0]).unwrap();
    assert_eq!(entry.node_type, "entry");
    assert_eq!(entry.label, "cn=Test,dc=example,dc=com");

    let attrs = tree.get_node(entry.children[0]).unwrap();
    assert_eq!(attrs.node_type, "@attributes");
    assert!(attrs.has_children());
}

#[test]
fn test_ldif_multi_valued_attributes() {
    let ldif = r#"version: 1

dn: cn=Test,dc=example,dc=com
objectClass: top
objectClass: person
mail: first@example.com
mail: second@example.com
"#;
    let parser = LdifParser;
    let tree = parser.parse(ldif).unwrap();

    let root = tree.get_node(0).unwrap();
    let entry = tree.get_node(root.children[0]).unwrap();
    assert_eq!(entry.label, "cn=Test,dc=example,dc=com");

    let attrs = tree.get_node(entry.children[0]).unwrap();

    let mut found_indexed = false;
    for child_id in &attrs.children {
        let child = tree.get_node(*child_id).unwrap();
        if child.label.contains("[0]") || child.label.contains("[1]") {
            found_indexed = true;
            break;
        }
    }
    assert!(found_indexed);
}

#[test]
fn parent_key_quoting_and_trailing_separator() {
    assert_eq!(get_parent_dn("cn=\"a,b\",dc=x"), Some("dc=x".to_string()));
    assert_eq!(get_parent_dn("cn=a,"), None);
    assert_eq!(get_parent_dn("cn=a, dc=x "), Some("dc=x".to_string()));
    assert_eq!(compute_rdn("cn=a,dc=x", Some("dc=y")), "cn=a,dc=x");
    assert_eq!(compute_rdn("dc=x", Some("dc=x")), "dc=x");
}
