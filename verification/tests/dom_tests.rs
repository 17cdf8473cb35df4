use toy_browser::dom::{AttrMap, Node, NodeType};
use toy_browser::strmap::StrMap;

#[test]
fn create_text_node() {
    let n = Node::create_text("hi".to_string());
    assert!(matches!(n.node_type, NodeType::Text(ref s) if s == "hi"));
    assert!(n.children.is_empty());
}

#[test]
fn create_element_node() {
    let mut attrs: AttrMap = StrMap::new();
    attrs.insert("class".to_string(), "a".to_string());
    attrs.insert("id".to_string(), "x".to_string());
    attrs.insert("class".to_string(), "b".to_string());
    let child = Node::create_text("t".to_string());
    let n = Node::create_element("div".to_string(), attrs, vec![child]);
    match n.node_type {
        NodeType::Element(ref e) => {
            assert_eq!(e.tag_name, "div");
            assert_eq!(e.attrs.len(), 2);
            assert_eq!(e.attrs.get("class").unwrap(), "b");
            assert_eq!(e.attrs.get("id").unwrap(), "x");
            assert!(e.attrs.get("ID").is_none());
        }
        _ => panic!("Element expected"),
    }
    assert_eq!(n.children.len(), 1);
}

#[test]
fn empty_map() {
    let m: StrMap<String> = StrMap::new();
    assert_eq!(m.len(), 0);
    assert!(m.get("").is_none());
}
