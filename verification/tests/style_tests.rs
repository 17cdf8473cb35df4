use toy_browser::css::{Color, Declaration, Rule, Selector, SimpleSelector, Stylesheet, Unit, Value};
use toy_browser::dom::NodeType;
use toy_browser::html::parse;
use toy_browser::layout::{layout_tree, try_layout_tree, BoxType};
use toy_browser::style::{matches_simple_selector, style_tree, Display};

fn selector(tag: Option<&str>, id: Option<&str>, class: &[&str]) -> SimpleSelector {
    SimpleSelector {
        tag_name: tag.map(|s| s.to_string()),
        id: id.map(|s| s.to_string()),
        class: class.iter().map(|s| s.to_string()).collect(),
    }
}

fn keyword(name: &str, value: &str) -> Declaration {
    Declaration { name: name.to_string(), value: Value::Keyword(value.to_string()) }
}

fn rule(selectors: Vec<SimpleSelector>, declarations: Vec<Declaration>) -> Rule {
    Rule { selectors: selectors.into_iter().map(Selector::Simple).collect(), declarations }
}

fn element_of(html: &str) -> toy_browser::dom::ElementData {
    match parse(html.to_string()).node_type {
        NodeType::Element(e) => e,
        _ => panic!("Element expected"),
    }
}

fn keyword_of(v: Option<&Value>) -> Option<String> {
    match v {
        Some(Value::Keyword(k)) => Some(k.clone()),
        _ => None,
    }
}

#[test]
fn selector_by_tag() {
    let e = element_of("<p></p>");
    assert!(matches_simple_selector(&e, &selector(Some("p"), None, &[])));
    assert!(!matches_simple_selector(&e, &selector(Some("div"), None, &[])));
}

#[test]
fn universal_selector_matches_every_element() {
    let e = element_of("<section id=\"x\" class=\"a b\"></section>");
    assert!(matches_simple_selector(&e, &selector(None, None, &[])));
    let f = element_of("<p></p>");
    assert!(matches_simple_selector(&f, &selector(None, None, &[])));
}

#[test]
fn selector_by_id() {
    let e = element_of("<p id=\"main\"></p>");
    assert!(matches_simple_selector(&e, &selector(None, Some("main"), &[])));
    assert!(!matches_simple_selector(&e, &selector(None, Some("side"), &[])));
    let f = element_of("<p></p>");
    assert!(!matches_simple_selector(&f, &selector(None, Some("main"), &[])));
}

#[test]
fn selector_by_classes() {
    let e = element_of("<p class=\"  foo\tbar  baz\"></p>");
    assert!(matches_simple_selector(&e, &selector(None, None, &["foo"])));
    assert!(matches_simple_selector(&e, &selector(None, None, &["baz", "bar"])));
    assert!(matches_simple_selector(&e, &selector(Some("p"), None, &["bar"])));
    assert!(!matches_simple_selector(&e, &selector(None, None, &["fo"])));
    assert!(!matches_simple_selector(&e, &selector(None, None, &["foo", "qux"])));
    assert!(!matches_simple_selector(&e, &selector(Some("div"), None, &["foo"])));
}

#[test]
fn selector_with_empty_or_spaced_class_matches_nothing() {
    let e = element_of("<p class=\"foo bar\"></p>");
    assert!(!matches_simple_selector(&e, &selector(None, None, &[""])));
    assert!(!matches_simple_selector(&e, &selector(None, None, &["foo bar"])));
    let f = element_of("<p></p>");
    assert!(!matches_simple_selector(&f, &selector(None, None, &["foo"])));
}

#[test]
fn class_words_split_on_unicode_whitespace() {
    let e = element_of("<p class=\"a\u{3000}b\"></p>");
    assert!(matches_simple_selector(&e, &selector(None, None, &["a"])));
    assert!(matches_simple_selector(&e, &selector(None, None, &["b"])));
}

#[test]
fn later_rule_wins() {
    let node = parse("<p class=\"x\">hi</p>".to_string());
    let sheet = Stylesheet {
        rules: vec![
            rule(vec![selector(Some("p"), None, &[])], vec![keyword("display", "block"), keyword("color", "red")]),
            rule(vec![selector(None, None, &["x"])], vec![keyword("color", "blue")]),
            rule(vec![selector(Some("div"), None, &[])], vec![keyword("color", "green")]),
        ],
    };
    let styled = style_tree(&node, &sheet);
    assert_eq!(keyword_of(styled.properties.get("color")).unwrap(), "blue");
    assert_eq!(keyword_of(styled.properties.get("display")).unwrap(), "block");
    assert_eq!(styled.properties.len(), 2);
    assert_eq!(styled.display(), Display::Block);
}

#[test]
fn last_declaration_of_a_rule_wins() {
    let node = parse("<p>hi</p>".to_string());
    let sheet = Stylesheet {
        rules: vec![rule(
            vec![selector(Some("p"), None, &[])],
            vec![keyword("color", "red"), keyword("color", "teal")],
        )],
    };
    let styled = style_tree(&node, &sheet);
    assert_eq!(keyword_of(styled.properties.get("color")).unwrap(), "teal");
}

#[test]
fn style_tree_mirrors_dom() {
    let node = parse("<div><p>a</p><p>b<span>c</span></p></div>".to_string());
    let sheet = Stylesheet {
        rules: vec![Rule {
            selectors: vec![Selector::Simple(selector(None, None, &[]))],
            declarations: vec![
                Declaration { name: "height".to_string(), value: Value::Length(16.0f32.to_bits(), Unit::Px) },
                Declaration { name: "background-color".to_string(), value: Value::Color(Color { r: 1, g: 2, b: 3 }) },
            ],
        }],
    };
    let styled = style_tree(&node, &sheet);
    assert_eq!(styled.children.len(), 2);
    assert_eq!(styled.children[1].children.len(), 2);
    assert!(std::ptr::eq(styled.node, &node));
    // every element gets the properties; text nodes none
    assert_eq!(styled.properties.len(), 2);
    assert!(matches!(styled.properties.get("height"), Some(Value::Length(b, Unit::Px)) if f32::from_bits(*b) == 16.0));
    assert!(matches!(styled.properties.get("background-color"), Some(Value::Color(c)) if *c == Color { r: 1, g: 2, b: 3 }));
    assert_eq!(styled.children[0].children[0].properties.len(), 0);
    assert_eq!(styled.children[1].children[1].properties.len(), 2);
}

#[test]
fn no_rules_no_properties() {
    let node = parse("<p id=\"a\">x</p>".to_string());
    let sheet = Stylesheet { rules: vec![] };
    let styled = style_tree(&node, &sheet);
    assert_eq!(styled.properties.len(), 0);
    assert_eq!(styled.display(), Display::Inline);
}

#[test]
fn display_values() {
    let node = parse("<div><p>a</p><span>b</span><em>c</em></div>".to_string());
    let sheet = Stylesheet {
        rules: vec![
            rule(vec![selector(Some("div"), None, &[])], vec![keyword("display", "block")]),
            rule(vec![selector(Some("p"), None, &[])], vec![keyword("display", "none")]),
            rule(vec![selector(Some("span"), None, &[])], vec![keyword("display", "inline-block")]),
            rule(
                vec![selector(Some("em"), None, &[])],
                vec![Declaration { name: "display".to_string(), value: Value::Length(0, Unit::Px) }],
            ),
        ],
    };
    let styled = style_tree(&node, &sheet);
    assert_eq!(styled.display(), Display::Block);
    assert_eq!(styled.children[0].display(), Display::DisplayNone);
    assert_eq!(styled.children[1].display(), Display::Inline);
    assert_eq!(styled.children[2].display(), Display::Inline);
}

#[test]
fn layout_tree_mirrors_styled_tree() {
    let node = parse("<div><p>a</p><span>b</span></div>".to_string());
    let sheet = Stylesheet {
        rules: vec![rule(vec![selector(Some("div"), None, &[]), selector(Some("p"), None, &[])], vec![keyword("display", "block")])],
    };
    let styled = style_tree(&node, &sheet);
    let boxes = layout_tree(&styled);
    assert_eq!(boxes.box_type, BoxType::Block);
    assert_eq!(boxes.children.len(), 2);
    assert_eq!(boxes.children[0].box_type, BoxType::Block);
    assert_eq!(boxes.children[1].box_type, BoxType::Inline);
    assert_eq!(boxes.children[0].children[0].box_type, BoxType::Inline);
    assert!(std::ptr::eq(boxes.styled, &styled));
}

#[test]
fn layout_tree_refuses_display_none() {
    let node = parse("<div><p>a</p></div>".to_string());
    let sheet = Stylesheet {
        rules: vec![rule(vec![selector(Some("p"), None, &[])], vec![keyword("display", "none")])],
    };
    let styled = style_tree(&node, &sheet);
    assert!(try_layout_tree(&styled).is_none());
    assert!(try_layout_tree(&styled.children[0].children[0]).is_some());
}
