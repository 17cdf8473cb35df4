use toy_browser::dom::{Node, NodeType};
use toy_browser::html::{parse, try_parse};

#[test]
fn test_parse_text() {
    let node = parse("Hello".to_string());
    assert!(matches!(node.node_type, NodeType::Text(ref s) if s == "Hello"));
}

#[test]
fn test_parse_element() {
    let node = parse("<p>Hello</p>".to_string());
    assert!(matches!(
        node.node_type,
        NodeType::Element(ref e) if e.tag_name == "p"
    ));
    assert_eq!(node.children.len(), 1);
}

#[test]
fn test_parse_nested() {
    let node = parse("<html><body><p>Hello</p></body></html>".to_string());
    assert!(matches!(
        node.node_type,
        NodeType::Element(ref e) if e.tag_name == "html"
    ));
    assert_eq!(node.children.len(), 1);
}

#[test]
fn test_parse_attrs() {
    let node = parse("<p class=\"foo\">text</p>".to_string());
    if let NodeType::Element(ref e) = node.node_type {
        assert_eq!(e.attrs.get("class").unwrap(), "foo");
    } else {
        panic!("Element expected");
    }
}

fn text_of(node: &Node) -> &str {
    match node.node_type {
        NodeType::Text(ref s) => s.as_str(),
        _ => panic!("text expected"),
    }
}

#[test]
fn parse_skips_whitespace_between_children() {
    let node = parse("<div>\n  <p>a</p>\n  <p>b</p>\n</div>".to_string());
    assert_eq!(node.children.len(), 2);
    assert_eq!(text_of(&node.children[0].children[0]), "a");
    assert_eq!(text_of(&node.children[1].children[0]), "b");
}

#[test]
fn parse_keeps_leading_whitespace_of_the_document() {
    let node = parse("  Hello".to_string());
    assert_eq!(text_of(&node), "  Hello");
}

#[test]
fn parse_text_keeps_trailing_whitespace() {
    let node = parse("<p>Hello world </p>".to_string());
    assert_eq!(text_of(&node.children[0]), "Hello world ");
}

#[test]
fn parse_later_attribute_replaces_earlier() {
    let node = parse("<p id=\"a\" class=\"x\" id=\"b\"></p>".to_string());
    match node.node_type {
        NodeType::Element(ref e) => {
            assert_eq!(e.attrs.len(), 2);
            assert_eq!(e.attrs.get("id").unwrap(), "b");
            assert_eq!(e.attrs.get("class").unwrap(), "x");
            assert!(e.attrs.get("style").is_none());
        }
        _ => panic!("Element expected"),
    }
    assert_eq!(node.children.len(), 0);
}

#[test]
fn parse_hyphenated_names() {
    let node = parse("<my-tag data-x=\"1\">t</my-tag>".to_string());
    match node.node_type {
        NodeType::Element(ref e) => {
            assert_eq!(e.tag_name, "my-tag");
            assert_eq!(e.attrs.get("data-x").unwrap(), "1");
        }
        _ => panic!("Element expected"),
    }
}

#[test]
fn parse_comment() {
    let node = parse("<div><!-- note --><p>x</p></div>".to_string());
    assert_eq!(node.children.len(), 2);
    assert!(matches!(node.children[0].node_type, NodeType::Comment(ref s) if s == " note "));
    let root = parse("<!--a-b-->".to_string());
    assert!(matches!(root.node_type, NodeType::Comment(ref s) if s == "a-b"));
}

#[test]
fn parse_reads_only_the_first_node() {
    let node = parse("<p>a</p><p>b</p>".to_string());
    assert_eq!(node.children.len(), 1);
    assert_eq!(text_of(&node.children[0]), "a");
}

#[test]
fn parse_closing_tag_name_is_not_checked() {
    let node = parse("<p>a</div>".to_string());
    assert!(matches!(node.node_type, NodeType::Element(ref e) if e.tag_name == "p"));
}

#[test]
fn parse_non_ascii_text() {
    let node = parse("<p>こんにちは</p>".to_string());
    assert_eq!(text_of(&node.children[0]), "こんにちは");
}

#[test]
fn try_parse_rejects_malformed_input() {
    assert!(try_parse(String::new()).is_none());
    assert!(try_parse("<p>".to_string()).is_none());
    assert!(try_parse("<p>a".to_string()).is_none());
    assert!(try_parse("<p class=foo>a</p>".to_string()).is_none());
    assert!(try_parse("<p class=\"foo>a</p>".to_string()).is_none());
    assert!(try_parse("<p class=\"foo\" >a</p>".to_string()).is_none());
    assert!(try_parse("<p>a</p".to_string()).is_none());
    assert!(try_parse("<!-- open".to_string()).is_none());
    assert!(try_parse("<p>a<".to_string()).is_none());
}

#[test]
fn try_parse_accepts_well_formed_input() {
    let node = try_parse("<p>Hello</p>".to_string()).unwrap();
    assert_eq!(node.children.len(), 1);
}

#[test]
fn tag_names_are_alphanumeric_or_hyphen() {
    let node = parse("<h1>t</h1>".to_string());
    assert!(matches!(node.node_type, NodeType::Element(ref e) if e.tag_name == "h1"));
    let node = parse("<é>t</é>".to_string());
    assert!(matches!(node.node_type, NodeType::Element(ref e) if e.tag_name == "é"));
    // the name stops at a character that is neither alphanumeric nor '-'
    assert!(try_parse("<p.x>a</p>".to_string()).is_none());
}

#[test]
fn plain_text_document_is_one_text_node() {
    let node = parse("no tags here, just text & more".to_string());
    assert_eq!(text_of(&node), "no tags here, just text & more");
    assert_eq!(node.children.len(), 0);
}

fn check_shape(node: &Node, is_child: bool) {
    match node.node_type {
        NodeType::Text(ref t) => {
            assert!(!t.is_empty());
            assert!(!t.contains('<'));
            if is_child {
                assert!(!t.chars().next().unwrap().is_whitespace());
            }
            assert_eq!(node.children.len(), 0);
        }
        NodeType::Comment(_) => assert_eq!(node.children.len(), 0),
        NodeType::Element(ref e) => {
            assert!(e.tag_name.chars().all(|c| c.is_alphanumeric() || c == '-'));
            for c in &node.children {
                check_shape(c, true);
            }
        }
    }
}

#[test]
fn parsed_trees_have_the_parsed_shape() {
    for src in [
        "<html>\n <body>\n  <h1 class=\"t\">Title</h1>\n  <p>one <b>two</b> three</p>\n  <!-- c -->\n </body>\n</html>",
        "  text",
        "<ul><li>a</li>\t<li>b</li></ul>",
    ] {
        check_shape(&parse(src.to_string()), false);
    }
}

#[test]
fn written_tree_reads_back() {
    // <div id="a" class="" data-k="v v"><p>x</p>y<br></br></div>
    let src = "<div id=\"a\" class=\"\" data-k=\"v v\"><p>x</p>y<br></br></div>";
    let node = parse(src.to_string());
    match node.node_type {
        NodeType::Element(ref e) => {
            assert_eq!(e.tag_name, "div");
            assert_eq!(e.attrs.len(), 3);
            assert_eq!(e.attrs.get("id").unwrap(), "a");
            assert_eq!(e.attrs.get("class").unwrap(), "");
            assert_eq!(e.attrs.get("data-k").unwrap(), "v v");
        }
        _ => panic!("Element expected"),
    }
    assert_eq!(node.children.len(), 3);
    assert!(matches!(node.children[0].node_type, NodeType::Element(ref e) if e.tag_name == "p"));
    assert_eq!(text_of(&node.children[0].children[0]), "x");
    assert_eq!(text_of(&node.children[1]), "y");
    assert!(matches!(node.children[2].node_type, NodeType::Element(ref e) if e.tag_name == "br" && e.attrs.len() == 0));
    assert_eq!(node.children[2].children.len(), 0);
}
