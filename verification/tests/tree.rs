use html_dom::arena::MAX_NODES;
use html_dom::dom::handles_without;
use html_dom::{Arena, Attribute, Doctype, Dom, DomError, Element, Node, NodeHandle, NodeOrText, QualName};
use html_tags::AttributeValueOwned;

fn qual(local: &str) -> QualName {
    QualName { prefix: None, ns: "http://www.w3.org/1999/xhtml".to_string(), local: local.to_string() }
}

fn attr(name: &str, value: &str) -> Attribute {
    Attribute { name: QualName { prefix: None, ns: String::new(), local: name.to_string() }, value: value.to_string() }
}

fn text_of(value: Option<&AttributeValueOwned>) -> Option<String> {
    match value {
        Some(AttributeValueOwned::Str(s)) => Some(format!("{}", &**s)),
        _ => None,
    }
}

fn children_of(dom: &Dom, h: NodeHandle) -> Vec<NodeHandle> {
    match dom.get(h) {
        Ok(Node::Element { children, .. }) => children.clone(),
        _ => panic!("not an element"),
    }
}

fn element_under(dom: &mut Dom, local: &str, parent: NodeHandle) -> NodeHandle {
    dom.map.insert(Node::Element {
        elem: Element::from_tag(local),
        qualified_name: qual(local),
        parent,
        children: Vec::new(),
    })
}

#[test]
fn new_tree_is_empty() {
    let dom = Dom::new();
    assert_eq!(dom.map.len(), 0);
    assert!(dom.document.is_none());
    let dom = Dom::default();
    assert_eq!(dom.map.len(), 0);
    assert!(dom.document.is_none());
}

#[test]
fn get_document_is_created_once() {
    let mut dom = Dom::new();
    let first = dom.get_document();
    assert_eq!(dom.map.len(), 1);
    for _ in 0..5 {
        assert_eq!(dom.get_document(), first);
    }
    assert_eq!(dom.map.len(), 1);
    assert_eq!(dom.document, Some(first));
    assert!(matches!(dom.get(first), Ok(Node::Document(None))));
}

#[test]
fn doctype_is_set_and_replaced() {
    let mut dom = Dom::new();
    dom.append_doctype_to_document("html".to_string(), String::new(), String::new());
    let doc = dom.get_document();
    match dom.get(doc) {
        Ok(Node::Document(Some(Doctype { name, public_id, system_id }))) => {
            assert_eq!(name, "html");
            assert_eq!(public_id, "");
            assert_eq!(system_id, "");
        }
        _ => panic!("no doctype"),
    }
    dom.append_doctype_to_document("svg".to_string(), "pub".to_string(), "sys".to_string());
    assert_eq!(dom.get_document(), doc);
    assert_eq!(dom.map.len(), 1);
    match dom.get(doc) {
        Ok(Node::Document(Some(Doctype { name, public_id, system_id }))) => {
            assert_eq!(name, "svg");
            assert_eq!(public_id, "pub");
            assert_eq!(system_id, "sys");
        }
        _ => panic!("no doctype"),
    }
}

#[test]
fn create_element_records_name_parent_and_no_children() {
    let mut dom = Dom::new();
    let div = dom.create_element(qual("div"), Vec::new());
    let doc = dom.get_document();
    assert_eq!(dom.map.len(), 2);
    assert_ne!(div, doc);
    match dom.get(div) {
        Ok(Node::Element { elem, qualified_name, parent, children }) => {
            assert_eq!(elem.value().tag(), "div");
            assert_eq!(elem.tag(), "div");
            assert_eq!(qualified_name.local, "div");
            assert_eq!(qualified_name.ns, "http://www.w3.org/1999/xhtml");
            assert_eq!(*parent, doc);
            assert!(children.is_empty());
        }
        _ => panic!("not an element"),
    }
    assert_eq!(dom.elem_name(div).map(|q| q.local.clone()), Ok("div".to_string()));
}

#[test]
fn last_attribute_wins_at_creation_and_missing_only_afterwards() {
    let mut dom = Dom::new();
    let div = dom.create_element(qual("div"), vec![attr("class", "a"), attr("class", "b")]);
    match dom.get(div) {
        Ok(Node::Element { elem, .. }) => assert_eq!(text_of(elem.value().class()), Some("b".to_string())),
        _ => panic!("not an element"),
    }
    assert_eq!(dom.add_attrs_if_missing(div, vec![attr("class", "c")]), Ok(()));
    match dom.get(div) {
        Ok(Node::Element { elem, .. }) => {
            assert_eq!(text_of(elem.value().class()), Some("b".to_string()));
            assert!(elem.has_attr("class"));
            assert!(!elem.has_attr("id"));
        }
        _ => panic!("not an element"),
    }
}

#[test]
fn missing_attributes_are_added_first_value_first() {
    let mut dom = Dom::new();
    let div = dom.create_element(qual("div"), vec![attr("id", "main")]);
    let more = vec![attr("id", "other"), attr("lang", "en"), attr("lang", "fr"), attr("x-y", "1")];
    assert_eq!(dom.add_attrs_if_missing(div, more), Ok(()));
    match dom.get(div) {
        Ok(Node::Element { elem, .. }) => {
            assert_eq!(text_of(elem.value().id()), Some("main".to_string()));
            assert_eq!(text_of(elem.value().lang()), Some("en".to_string()));
            assert_eq!(text_of(elem.value().extra().get("x-y")), Some("1".to_string()));
            assert_eq!(text_of(elem.value().class()), None);
        }
        _ => panic!("not an element"),
    }
}

#[test]
fn add_attrs_is_refused_off_elements() {
    let mut dom = Dom::new();
    let c = dom.create_comment("c".to_string());
    assert_eq!(dom.add_attrs_if_missing(c, vec![attr("id", "x")]), Err(DomError::NotAnElement));
    assert_eq!(dom.add_attrs_if_missing(NodeHandle { id: 0 }, Vec::new()), Err(DomError::InvalidHandle));
    assert_eq!(dom.map.len(), 1);
}

#[test]
fn element_value_sets_and_keeps_attributes() {
    let mut e = Element::from_tag("a");
    assert_eq!(e.value().tag(), "a");
    assert!(!e.has_attr("title"));
    e.set_attr("title", "one".to_string());
    assert!(e.has_attr("title"));
    assert_eq!(text_of(e.value().title()), Some("one".to_string()));
    e.set_attr("title", "two".to_string());
    assert_eq!(text_of(e.value().title()), Some("two".to_string()));
    e.set_attr_if_missing("title", "three".to_string());
    assert_eq!(text_of(e.value().title()), Some("two".to_string()));
    e.set_attr_if_missing("role", "link".to_string());
    assert_eq!(text_of(e.value().role()), Some("link".to_string()));
    assert_eq!(e.tag(), "a");
    let unknown = Element::from_tag("no-such-tag");
    assert_eq!(unknown.value().tag(), "unknown");
    assert_eq!(unknown.tag(), "unknown");
    assert_eq!(Element::from_tag("table").tag(), "table");
}

#[test]
fn element_value_takes_attribute_lists() {
    let mut e = Element::from_tag("p");
    e.set_attrs(&vec![attr("id", "1"), attr("dir", "ltr"), attr("id", "2")]);
    assert_eq!(text_of(e.value().id()), Some("2".to_string()));
    assert_eq!(text_of(e.value().dir()), Some("ltr".to_string()));
    e.add_attrs_if_missing(&vec![attr("id", "3"), attr("slot", "s")]);
    assert_eq!(text_of(e.value().id()), Some("2".to_string()));
    assert_eq!(text_of(e.value().slot()), Some("s".to_string()));
}

#[test]
fn append_text_adds_one_text_child() {
    let mut dom = Dom::new();
    let p = dom.create_element(qual("p"), Vec::new());
    let before = children_of(&dom, p).len();
    let nodes = dom.map.len();
    assert_eq!(dom.append(p, NodeOrText::AppendText("hi".to_string())), Ok(()));
    let kids = children_of(&dom, p);
    assert_eq!(kids.len(), before + 1);
    assert_eq!(dom.map.len(), nodes + 1);
    match dom.get(kids[kids.len() - 1]) {
        Ok(Node::Text { contents }) => assert_eq!(contents, "hi"),
        _ => panic!("not a text node"),
    }
}

#[test]
fn append_node_adds_the_child_to_the_target() {
    let mut dom = Dom::new();
    let ul = dom.create_element(qual("ul"), Vec::new());
    let li = dom.create_element(qual("li"), Vec::new());
    let c = dom.create_comment("note".to_string());
    assert_eq!(dom.append(ul, NodeOrText::AppendNode(li)), Ok(()));
    assert_eq!(dom.append_based_on_parent_node(ul, li, NodeOrText::AppendNode(c)), Ok(()));
    assert_eq!(children_of(&dom, ul), vec![li, c]);
    assert!(children_of(&dom, li).is_empty());
    assert_eq!(dom.map.len(), 4);
}

#[test]
fn append_to_a_text_node_is_refused_and_changes_nothing() {
    let mut dom = Dom::new();
    let p = dom.create_element(qual("p"), Vec::new());
    let other = dom.create_element(qual("b"), Vec::new());
    assert_eq!(dom.append(p, NodeOrText::AppendText("t".to_string())), Ok(()));
    let text = children_of(&dom, p)[0];
    let nodes = dom.map.len();
    assert_eq!(dom.append(text, NodeOrText::AppendNode(other)), Err(DomError::NotAnElement));
    assert_eq!(dom.append(text, NodeOrText::AppendText("u".to_string())), Err(DomError::NotAnElement));
    assert_eq!(dom.map.len(), nodes);
    assert_eq!(children_of(&dom, p), vec![text]);
    assert!(children_of(&dom, other).is_empty());
    assert!(matches!(dom.get(text), Ok(Node::Text { .. })));
}

#[test]
fn append_is_refused_for_unknown_handles() {
    let mut dom = Dom::new();
    let p = dom.create_element(qual("p"), Vec::new());
    let mut elsewhere = Dom::new();
    elsewhere.create_comment("1".to_string());
    elsewhere.create_comment("2".to_string());
    let stranger = elsewhere.create_comment("3".to_string());
    assert_eq!(dom.append(stranger, NodeOrText::AppendNode(p)), Err(DomError::InvalidHandle));
    assert_eq!(dom.append(p, NodeOrText::AppendNode(stranger)), Err(DomError::InvalidHandle));
    assert_eq!(dom.append(NodeHandle { id: 7 }, NodeOrText::AppendText("x".to_string())), Err(DomError::InvalidHandle));
    assert!(children_of(&dom, p).is_empty());
    assert_eq!(dom.map.len(), 2);
}

#[test]
fn remove_from_parent_detaches_and_keeps_the_node() {
    let mut dom = Dom::new();
    let ul = dom.create_element(qual("ul"), Vec::new());
    let li = element_under(&mut dom, "li", ul);
    let other = element_under(&mut dom, "li", ul);
    assert_eq!(dom.append(ul, NodeOrText::AppendNode(li)), Ok(()));
    assert_eq!(dom.append(ul, NodeOrText::AppendNode(other)), Ok(()));
    assert_eq!(dom.append(ul, NodeOrText::AppendNode(li)), Ok(()));
    assert!(dom.same_node(li, li));
    let nodes = dom.map.len();
    assert_eq!(dom.remove_from_parent(li), Ok(()));
    assert_eq!(children_of(&dom, ul), vec![other]);
    assert!(dom.same_node(li, li));
    assert!(matches!(dom.get(li), Ok(Node::Element { .. })));
    assert_eq!(dom.map.len(), nodes);
    assert_eq!(dom.remove_from_parent(li), Ok(()));
    assert_eq!(children_of(&dom, ul), vec![other]);
}

#[test]
fn remove_from_parent_is_refused_without_an_element_parent() {
    let mut dom = Dom::new();
    let div = dom.create_element(qual("div"), Vec::new());
    let c = dom.create_comment("c".to_string());
    assert_eq!(dom.remove_from_parent(div), Err(DomError::NotAnElement));
    assert_eq!(dom.remove_from_parent(c), Err(DomError::NotAnElement));
    assert_eq!(dom.remove_from_parent(NodeHandle { id: 1 << 40 }), Err(DomError::InvalidHandle));
    let orphan = element_under(&mut dom, "p", NodeHandle { id: (1 << 32) | 99 });
    assert_eq!(dom.remove_from_parent(orphan), Err(DomError::InvalidHandle));
    assert_eq!(dom.map.len(), 4);
}

#[test]
fn same_node_is_handle_identity() {
    let mut dom = Dom::new();
    let a = dom.create_comment("same".to_string());
    let b = dom.create_comment("same".to_string());
    assert!(dom.same_node(a, a));
    assert!(dom.same_node(b, b));
    assert!(!dom.same_node(a, b));
    assert_ne!(a, b);
    match (dom.get(a), dom.get(b)) {
        (Ok(Node::Comment { contents: x }), Ok(Node::Comment { contents: y })) => assert_eq!(x, y),
        _ => panic!("not comments"),
    }
}

#[test]
fn handles_stay_valid_as_the_arena_grows() {
    let mut dom = Dom::new();
    let first = dom.create_comment("first".to_string());
    let mut all = vec![first];
    for i in 0..100 {
        all.push(dom.create_pi(format!("t{}", i), format!("c{}", i)));
    }
    assert_eq!(dom.map.len(), 101);
    match dom.get(first) {
        Ok(Node::Comment { contents }) => assert_eq!(contents, "first"),
        _ => panic!("not a comment"),
    }
    for (i, h) in all.iter().enumerate().skip(1) {
        match dom.get(*h) {
            Ok(Node::ProcessingInstruction { target, contents }) => {
                assert_eq!(*target, format!("t{}", i - 1));
                assert_eq!(*contents, format!("c{}", i - 1));
            }
            _ => panic!("not a processing instruction"),
        }
        for other in all.iter().skip(i + 1) {
            assert_ne!(h, other);
        }
    }
}

#[test]
fn elem_name_is_refused_off_elements() {
    let mut dom = Dom::new();
    let doc = dom.get_document();
    let c = dom.create_comment("c".to_string());
    assert_eq!(dom.elem_name(doc).err(), Some(DomError::NotAnElement));
    assert_eq!(dom.elem_name(c).err(), Some(DomError::NotAnElement));
    assert_eq!(dom.elem_name(NodeHandle { id: (1 << 32) | 50 }).err(), Some(DomError::InvalidHandle));
}

#[test]
fn unsupported_operations_say_so() {
    let mut dom = Dom::new();
    let div = dom.create_element(qual("template"), Vec::new());
    let p = dom.create_element(qual("p"), Vec::new());
    assert_eq!(dom.get_template_contents(div), Err(DomError::Unimplemented));
    assert_eq!(dom.append_before_sibling(p, NodeOrText::AppendNode(div)), Err(DomError::Unimplemented));
    assert_eq!(dom.reparent_children(div, p), Err(DomError::Unimplemented));
    assert_eq!(dom.map.len(), 3);
    assert!(children_of(&dom, p).is_empty());
}

#[test]
fn arena_stores_and_resolves() {
    let mut arena = Arena::new();
    assert_eq!(arena.len(), 0);
    assert!(arena.has_room());
    let a = arena.insert(Node::Text { contents: "a".to_string() });
    let b = arena.insert(Node::Text { contents: "b".to_string() });
    assert_ne!(a, b);
    assert!(a.is_well_formed());
    assert!(b.is_well_formed());
    assert_eq!(arena.len(), 2);
    assert!(arena.contains(a));
    assert!(arena.contains(b));
    assert!(matches!(arena.get(b), Some(Node::Text { contents }) if contents == "b"));
    match arena.get_mut(a) {
        Some(node) => *node = Node::Comment { contents: "z".to_string() },
        None => panic!("lost"),
    }
    assert!(matches!(arena.get(a), Some(Node::Comment { contents }) if contents == "z"));
    assert!(matches!(arena.get(b), Some(Node::Text { contents }) if contents == "b"));
    assert_eq!(arena.len(), 2);
    assert!((arena.len() as u64) < MAX_NODES);
    assert_eq!(MAX_NODES, 4294967294);
}

#[test]
fn arena_refuses_handles_it_did_not_issue() {
    let mut arena = Arena::new();
    let a = arena.insert(Node::Document(None));
    let even_version = NodeHandle { id: a.id & 0xffff_ffff };
    assert!(!even_version.is_well_formed());
    assert!(!arena.contains(even_version));
    assert!(arena.get(even_version).is_none());
    assert!(arena.get_mut(even_version).is_none());
    let later_version = NodeHandle { id: a.id + (2 << 32) };
    assert!(later_version.is_well_formed());
    assert!(arena.get(later_version).is_none());
    let other_slot = NodeHandle { id: a.id + 1 };
    assert!(!arena.contains(other_slot));
    assert_eq!(Dom::new().get(a).err(), Some(DomError::InvalidHandle));
}

#[test]
fn handles_without_keeps_order() {
    let h = |id: u64| NodeHandle { id };
    assert_eq!(handles_without(&vec![h(1), h(2), h(1), h(3)], h(1)), vec![h(2), h(3)]);
    assert_eq!(handles_without(&vec![h(1), h(2)], h(5)), vec![h(1), h(2)]);
    assert_eq!(handles_without(&Vec::new(), h(5)), Vec::new());
    assert_eq!(handles_without(&vec![h(4), h(4)], h(4)), Vec::new());
}
