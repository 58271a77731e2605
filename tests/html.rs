use minihtml::dom::{comment, elem, text, AttrMap, Node, NodeType};
use minihtml::html::{is_whitespace, parse, CharClass, ParseError, Parser};

fn tag_of(node: &Node) -> String {
    match &node.node_type {
        NodeType::Element(data) => data.tag_name.clone(),
        _ => panic!("not an element"),
    }
}

fn text_of(node: &Node) -> String {
    match &node.node_type {
        NodeType::Text(s) => s.clone(),
        _ => panic!("not a text node"),
    }
}

#[test]
fn html_test_parse() {
    let source = "<html><body id=\"name\">Hello World</body></html>".to_string();
    let nodes = parse(source).unwrap();
    match nodes.node_type {
        NodeType::Element(data) => {
            assert_eq!(data.tag_name, "html".to_string());
            assert_eq!(data.attributes.len(), 0);
        }
        _ => panic!("error"),
    }
    for node in nodes.children {
        match node.node_type {
            NodeType::Element(data) => {
                assert_eq!(data.tag_name, "body".to_string());
                assert_eq!(data.attributes.contains_key("id"), true);
                assert_eq!(data.attributes.get("id").unwrap(), "name");
                println!("tag_name:{}", data.tag_name);
                let (key, value) = data.attributes.get_key_value("id").unwrap();
                println!("attribute:key={},value={}", key, value);
            }
            _ => panic!("error"),
        }
    }
}

#[test]
fn test_parse_with_comment() {
    let source = "<html><!-- 这是一行注释! --><body id=\"name\">Hello World</body></html>".to_string();
    let nodes = parse(source).unwrap();
    match nodes.node_type {
        NodeType::Element(data) => {
            assert_eq!(data.tag_name, "html".to_string());
            assert_eq!(data.attributes.len(), 0);
        }
        _ => panic!("error"),
    }
    println!("{}", nodes.children.len());
    for node in nodes.children {
        match node.node_type {
            NodeType::Element(data) => {
                assert_eq!(data.tag_name, "body".to_string());
                assert_eq!(data.attributes.contains_key("id"), true);
                assert_eq!(data.attributes.get("id").unwrap(), "name");
                println!("tag_name:{}", data.tag_name);
                let (key, value) = data.attributes.get_key_value("id").unwrap();
                println!("attribute:key={},value={}", key, value);
            }
            NodeType::Comment(data) => {
                assert_eq!(data, " 这是一行注释! ")
            }
            _ => panic!("error"),
        }
    }
}

#[test]
fn test_next_two_char() {
    let node = Parser::new(0, "abc".to_string());
    assert_eq!(node.next_two_char(), Ok(('a', 'b')));
    match node.next_two_char() {
        Ok(('a', 'b')) => assert!(true),
        Ok(('a', _)) => panic!("error"),
        _ => panic!("error"),
    }
}

#[test]
fn body_holds_one_text_child() {
    let root = parse("<html><body id=\"name\">Hello World</body></html>".to_string()).unwrap();
    assert_eq!(tag_of(&root), "html");
    assert_eq!(root.children.len(), 1);
    let body = &root.children[0];
    assert_eq!(tag_of(body), "body");
    assert_eq!(body.children.len(), 1);
    assert_eq!(text_of(&body.children[0]), "Hello World");
    assert!(body.children[0].children.is_empty());
}

#[test]
fn comment_content_is_raw() {
    let root = parse("<html><!-- note --><body>x</body></html>".to_string()).unwrap();
    assert_eq!(tag_of(&root), "html");
    assert_eq!(root.children.len(), 2);
    match &root.children[0].node_type {
        NodeType::Comment(c) => assert_eq!(c, " note "),
        _ => panic!("expected a comment"),
    }
    assert_eq!(tag_of(&root.children[1]), "body");
    assert_eq!(text_of(&root.children[1].children[0]), "x");
}

#[test]
fn single_top_level_node_is_the_root() {
    let root = parse("<a></a>".to_string()).unwrap();
    assert_eq!(tag_of(&root), "a");
    assert!(root.children.is_empty());
}

#[test]
fn siblings_get_a_synthetic_root() {
    let root = parse("<a></a><b></b>".to_string()).unwrap();
    assert_eq!(tag_of(&root), "html");
    match &root.node_type {
        NodeType::Element(data) => assert_eq!(data.attributes.len(), 0),
        _ => panic!("expected an element"),
    }
    assert_eq!(root.children.len(), 2);
    assert_eq!(tag_of(&root.children[0]), "a");
    assert_eq!(tag_of(&root.children[1]), "b");
}

#[test]
fn empty_document_gives_empty_html_root() {
    let root = parse("  \n ".to_string()).unwrap();
    assert_eq!(tag_of(&root), "html");
    assert!(root.children.is_empty());
}

#[test]
fn mismatched_closing_tag_fails() {
    let r = parse("<a></b>".to_string());
    assert_eq!(
        r.err(),
        Some(ParseError::MismatchedClosingTag {
            opened: "a".to_string(),
            closed: "b".to_string(),
            position: 5,
        })
    );
}

#[test]
fn duplicate_attribute_keeps_last_value() {
    let root = parse("<a x=\"1\" x=\"2\"></a>".to_string()).unwrap();
    match &root.node_type {
        NodeType::Element(data) => {
            assert_eq!(data.attributes.len(), 1);
            assert_eq!(data.attributes.get("x").unwrap(), "2");
        }
        _ => panic!("expected an element"),
    }
}

#[test]
fn single_quotes_and_several_attributes() {
    let root = parse("<p a='1'  b=\"two words\"\n></p>".to_string()).unwrap();
    match &root.node_type {
        NodeType::Element(data) => {
            assert_eq!(data.attributes.len(), 2);
            assert_eq!(data.attributes.get("a").unwrap(), "1");
            assert_eq!(data.attributes.get("b").unwrap(), "two words");
            assert!(data.attributes.get("c").is_none());
            assert!(!data.attributes.contains_key("c"));
        }
        _ => panic!("expected an element"),
    }
}

#[test]
fn whitespace_between_tags_is_dropped_and_kept_inside_text() {
    let source = "<div>\n  <p> héllo  wörld 你好 </p>\n  <p>x</p>\n</div>";
    let root = parse(source.to_string()).unwrap();
    assert_eq!(tag_of(&root), "div");
    assert_eq!(root.children.len(), 2);
    for child in &root.children {
        assert_eq!(tag_of(child), "p");
    }
    let inner = text_of(&root.children[0].children[0]);
    let start = source.find("<p>").unwrap() + 3;
    let end = source.find("</p>").unwrap();
    // Leading whitespace is skipped before a node; the rest is kept as is.
    assert_eq!(inner, source[start..end].trim_start());
    assert_eq!(inner, "héllo  wörld 你好 ");
}

#[test]
fn comment_with_hyphen_is_rejected() {
    let r = parse("<!-- a-b -->".to_string());
    assert_eq!(
        r.err(),
        Some(ParseError::UnexpectedCharacter { expected: '-', found: 'b', position: 7 })
    );
}

#[test]
fn unterminated_comment() {
    let r = parse("<a><!-- open</a>".to_string());
    assert_eq!(r.err(), Some(ParseError::UnterminatedComment { position: 3 }));
}

#[test]
fn unterminated_attribute_value() {
    let r = parse("<a x=\"1></a>".to_string());
    assert_eq!(r.err(), Some(ParseError::UnterminatedAttributeValue { position: 5 }));
}

#[test]
fn unquoted_attribute_value() {
    let r = parse("<a x=1></a>".to_string());
    assert_eq!(
        r.err(),
        Some(ParseError::UnexpectedCharacter { expected: '"', found: '1', position: 5 })
    );
}

#[test]
fn missing_equals_sign() {
    let r = parse("<a x></a>".to_string());
    assert_eq!(
        r.err(),
        Some(ParseError::UnexpectedCharacter { expected: '=', found: '>', position: 4 })
    );
}

#[test]
fn unclosed_element_hits_end_of_input() {
    assert_eq!(parse("<a>".to_string()).err(), Some(ParseError::UnexpectedEndOfInput));
    assert_eq!(parse("<a".to_string()).err(), Some(ParseError::UnexpectedEndOfInput));
}

#[test]
fn lone_trailing_character_hits_end_of_input() {
    assert_eq!(parse("x".to_string()).err(), Some(ParseError::UnexpectedEndOfInput));
    let root = parse("xy".to_string()).unwrap();
    assert_eq!(text_of(&root), "xy");
}

#[test]
fn next_two_char_at_end() {
    let p = Parser::new(2, "abc".to_string());
    assert_eq!(p.next_two_char(), Err(ParseError::UnexpectedEndOfInput));
    assert_eq!(p.next_char(), Ok('c'));
    assert!(!p.eof());
    assert!(Parser::new(3, "abc".to_string()).eof());
}

#[test]
fn cursor_moves_over_multibyte_characters() {
    let mut p = Parser::new(0, "é你<x".to_string());
    assert!(!p.starts_with("<"));
    assert_eq!(p.consume_char(), Ok('é'));
    assert_eq!(p.consume_while(CharClass::Not('<')), "你");
    assert!(p.starts_with("<x"));
    assert!(!p.starts_with("<xy"));
    assert_eq!(p.parse_tag_name(), "");
    assert_eq!(p.consume_char(), Ok('<'));
    assert_eq!(p.parse_tag_name(), "x");
    assert_eq!(p.consume_char(), Err(ParseError::UnexpectedEndOfInput));
}

#[test]
fn whitespace_matches_std() {
    for u in 0u32..0x11_0000 {
        if let Some(c) = char::from_u32(u) {
            assert_eq!(is_whitespace(c), c.is_whitespace(), "{:x}", u);
        }
    }
    let mut p = Parser::new(0, " \t\u{3000}\nz".to_string());
    p.consume_whitespace();
    assert_eq!(p.next_char(), Ok('z'));
}

#[test]
fn constructors_build_the_three_kinds() {
    let t = text("hi".to_string());
    assert!(matches!(&t.node_type, NodeType::Text(s) if s == "hi"));
    let c = comment("c".to_string());
    assert!(matches!(&c.node_type, NodeType::Comment(s) if s == "c"));
    let mut attrs = AttrMap::new();
    attrs.insert("k".to_string(), "v".to_string());
    attrs.insert("k".to_string(), "w".to_string());
    attrs.insert("j".to_string(), "v".to_string());
    let e = elem("div".to_string(), attrs, vec![t, c]);
    assert_eq!(e.children.len(), 2);
    match &e.node_type {
        NodeType::Element(d) => {
            assert_eq!(d.tag_name, "div");
            assert_eq!(d.attributes.len(), 2);
            assert_eq!(d.attributes.get("k").unwrap(), "w");
            assert_eq!(d.attributes.get_key_value("j"), Some((&"j".to_string(), &"v".to_string())));
        }
        _ => panic!("expected an element"),
    }
}
