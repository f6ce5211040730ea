use xtv::error::XtvError;
use xtv::formats::{
    detect_parser, detect_parser_from_content, get_parser_from_format, Format, HtmlParser, TomlParser, YamlParser,
};
use xtv::json::JsonLinesParser;

#[test]
fn test_can_parse_html_extension() {
    let parser = HtmlParser;
    assert!(parser.can_parse("test.html"));
    assert!(parser.can_parse("test.HTML"));
    assert!(parser.can_parse("test.htm"));
    assert!(!parser.can_parse("test.xml"));
}

#[test]
fn test_can_parse_jsonl_extension() {
    let parser = JsonLinesParser;
    assert!(parser.can_parse("test.jsonl"));
    assert!(parser.can_parse("test.JSONL"));
    assert!(!parser.can_parse("test.json"));
    assert!(!parser.can_parse("test.txt"));
}

#[test]
fn test_can_parse_toml_extension() {
    let parser = TomlParser;
    assert!(parser.can_parse("config.toml"));
    assert!(parser.can_parse("settings.TOML"));
    assert!(!parser.can_parse("data.json"));
}

#[test]
fn test_can_parse_yaml_extensions() {
    let parser = YamlParser;
    assert!(parser.can_parse("test.yaml"));
    assert!(parser.can_parse("test.yml"));
    assert!(parser.can_parse("test.YAML"));
    assert!(parser.can_parse("test.YML"));
    assert!(!parser.can_parse("test.json"));
    assert!(!parser.can_parse("test.xml"));
}

#[test]
fn test_unsupported_format() {
    let result = detect_parser("test.unsupported");
    assert!(result.is_err());
}

#[test]
fn detect_by_extension() {
    assert_eq!(detect_parser("dir/data.LDIF").unwrap(), Format::Ldif);
    assert_eq!(detect_parser("a.yml").unwrap(), Format::Yaml);
    assert_eq!(detect_parser("x.htm").unwrap(), Format::Html);
    assert!(matches!(detect_parser("noext"), Err(XtvError::UnsupportedFormat(_))));
    assert!(matches!(detect_parser("dir.d/.hidden"), Err(XtvError::UnsupportedFormat(_))));
}

#[test]
fn format_names() {
    assert_eq!(get_parser_from_format("JsonLines").unwrap(), Format::JsonLines);
    assert_eq!(get_parser_from_format("jsonl").unwrap(), Format::JsonLines);
    assert_eq!(get_parser_from_format("TOML").unwrap(), Format::Toml);
    assert!(get_parser_from_format("csv").is_err());
}

#[test]
fn detect_by_content() {
    assert_eq!(detect_parser_from_content("  <?xml version=\"1.0\"?><a/>").unwrap(), Format::Xml);
    assert_eq!(detect_parser_from_content("<!DOCTYPE html><html></html>").unwrap(), Format::Html);
    assert_eq!(detect_parser_from_content("\n[1, 2]").unwrap(), Format::Json);
    assert_eq!(detect_parser_from_content("dn: cn=a").unwrap(), Format::Ldif);
    assert_eq!(detect_parser_from_content("---\na: 1").unwrap(), Format::Yaml);
    assert_eq!(detect_parser_from_content("key: value").unwrap(), Format::Yaml);
    assert!(detect_parser_from_content("a::b").is_err());
    assert!(detect_parser_from_content("plain text").is_err());
}
