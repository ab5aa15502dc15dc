use vdom::document::{DetachError, Document, Mutation, NodeData};
use vdom::vnode::{ApplyError, VComp, VNode, VTag, VText};

fn text(s: &str) -> VNode {
    VNode::VText(VText::new(s.to_string()))
}

fn tag(name: &str, children: Vec<VNode>) -> VNode {
    let mut t = VTag::new(name.to_string());
    for c in children {
        t.add_child(c);
    }
    VNode::VTag(t)
}

fn root() -> (Document, usize) {
    let mut dom = Document::new();
    let id = dom.create(NodeData::Element("body".to_string()));
    (dom, id)
}

fn creates(log: &[Mutation]) -> usize {
    log.iter().filter(|m| matches!(m, Mutation::Create(_))).count()
}

fn removes(log: &[Mutation]) -> usize {
    log.iter().filter(|m| matches!(m, Mutation::Remove { .. })).count()
}

#[test]
fn text_update_keeps_one_creation_per_node() {
    let (mut dom, body) = root();
    let mut first = tag("div", vec![text("a")]);
    assert_eq!(first.apply(body, None, &mut dom), Ok(()));
    let before = dom.log.len();
    let mut second = tag("div", vec![text("b")]);
    assert_eq!(second.apply(body, Some(first), &mut dom), Ok(()));
    // the root, the div and one text node
    assert_eq!(dom.node_count(), 3);
    assert_eq!(creates(&dom.log), 3);
    let after = &dom.log[before..];
    assert_eq!(after.to_vec(), vec![Mutation::SetText(2)]);
    assert_eq!(dom.nodes[2].data, NodeData::Text("b".to_string()));
    assert_eq!(second.get_node(), Some(1));
    if let VNode::VTag(t) = &second {
        assert_eq!(t.children[0].get_node(), Some(2));
    } else {
        panic!("expected an element");
    }
}

#[test]
fn text_replaced_by_element_at_same_position() {
    let (mut dom, body) = root();
    let mut before_sibling = text("before");
    assert_eq!(before_sibling.apply(body, None, &mut dom), Ok(()));
    let mut first = text("x");
    assert_eq!(first.apply(body, None, &mut dom), Ok(()));
    let mut after_sibling = text("after");
    assert_eq!(after_sibling.apply(body, None, &mut dom), Ok(()));
    let x = first.get_node().unwrap();
    assert_eq!(dom.nodes[body].children, vec![1, x, 3]);
    let start = dom.log.len();
    let mut second = tag("span", vec![]);
    assert_eq!(second.apply(body, Some(first), &mut dom), Ok(()));
    let span = second.get_node().unwrap();
    assert_eq!(span, 4);
    assert_eq!(
        dom.log[start..].to_vec(),
        vec![
            Mutation::Remove { parent: body, child: x },
            Mutation::Create(span),
            Mutation::Insert { parent: body, child: span, index: 1 },
        ]
    );
    assert_eq!(dom.nodes[body].children, vec![1, span, 3]);
    assert_eq!(dom.nodes[span].data, NodeData::Element("span".to_string()));
}

#[test]
fn element_replaced_by_text_removes_first() {
    let (mut dom, body) = root();
    let mut first = tag("p", vec![text("inner")]);
    assert_eq!(first.apply(body, None, &mut dom), Ok(()));
    let p = first.get_node().unwrap();
    let start = dom.log.len();
    let mut second = text("plain");
    assert_eq!(second.apply(body, Some(first), &mut dom), Ok(()));
    let t = second.get_node().unwrap();
    assert_eq!(dom.log[start], Mutation::Remove { parent: body, child: p });
    assert_eq!(dom.nodes[body].children, vec![t]);
    assert_eq!(dom.nodes[t].data, NodeData::Text("plain".to_string()));
}

#[test]
fn external_ref_apply_fails() {
    let (_dom, body) = root();
    let node = VNode::VRef(body);
    assert!(!node.is_renderable());
}

#[test]
fn external_ref_inside_tree_is_not_renderable() {
    let node = tag("div", vec![text("a"), VNode::VRef(0)]);
    assert!(!node.is_renderable());
    assert!(tag("div", vec![text("a"), VNode::VComp(VComp::new())]).is_renderable());
}

#[test]
fn second_pass_on_same_tree_creates_and_removes_nothing() {
    let (mut dom, body) = root();
    let build = || {
        tag(
            "ul",
            vec![
                tag("li", vec![text("one")]),
                tag("li", vec![text("two")]),
                VNode::VComp(VComp::new()),
            ],
        )
    };
    let mut first = build();
    assert_eq!(first.apply(body, None, &mut dom), Ok(()));
    let count = dom.node_count();
    assert_eq!(count, 7);
    let start = dom.log.len();
    let mut second = build();
    assert_eq!(second.apply(body, Some(first), &mut dom), Ok(()));
    assert_eq!(dom.node_count(), count);
    assert_eq!(creates(&dom.log[start..]), 0);
    assert_eq!(removes(&dom.log[start..]), 0);
    assert_eq!(dom.log.len(), start);
    assert_eq!(second.get_node(), Some(1));
}

#[test]
fn text_update_in_place_keeps_binding() {
    let (mut dom, body) = root();
    let mut first = text("old");
    assert_eq!(first.apply(body, None, &mut dom), Ok(()));
    let id = first.get_node().unwrap();
    let mut second = text("new");
    assert_eq!(second.apply(body, Some(first), &mut dom), Ok(()));
    assert_eq!(second.get_node(), Some(id));
    assert_eq!(dom.node_count(), 2);
    assert_eq!(dom.nodes[id].data, NodeData::Text("new".to_string()));
    assert_eq!(*dom.log.last().unwrap(), Mutation::SetText(id));
}

#[test]
fn component_keeps_its_mount_point() {
    let (mut dom, body) = root();
    let mut first = VNode::VComp(VComp::new());
    assert_eq!(first.apply(body, None, &mut dom), Ok(()));
    let id = first.get_node().unwrap();
    assert_eq!(dom.nodes[id].data, NodeData::Component);
    let mut second = VNode::VComp(VComp::new());
    assert_eq!(second.apply(body, Some(first), &mut dom), Ok(()));
    assert_eq!(second.get_node(), Some(id));
    assert_eq!(dom.node_count(), 2);
}

#[test]
fn different_tag_is_rebuilt() {
    let (mut dom, body) = root();
    let mut first = tag("div", vec![]);
    assert_eq!(first.apply(body, None, &mut dom), Ok(()));
    let old = first.get_node().unwrap();
    let mut second = tag("section", vec![]);
    assert_eq!(second.apply(body, Some(first), &mut dom), Ok(()));
    let new = second.get_node().unwrap();
    assert_ne!(old, new);
    assert_eq!(dom.nodes[body].children, vec![new]);
    assert_eq!(removes(&dom.log), 1);
}

#[test]
fn extra_children_are_mounted_and_leftovers_removed() {
    let (mut dom, body) = root();
    let mut first = tag("div", vec![text("a"), text("b"), text("c")]);
    assert_eq!(first.apply(body, None, &mut dom), Ok(()));
    let div = first.get_node().unwrap();
    assert_eq!(dom.nodes[div].children, vec![2, 3, 4]);
    let mut second = tag("div", vec![text("a")]);
    assert_eq!(second.apply(body, Some(first), &mut dom), Ok(()));
    assert_eq!(dom.nodes[div].children, vec![2]);
    assert_eq!(removes(&dom.log), 2);
    let mut third = tag("div", vec![text("a"), text("z")]);
    assert_eq!(third.apply(body, Some(second), &mut dom), Ok(()));
    assert_eq!(dom.nodes[div].children, vec![2, 5]);
    assert_eq!(dom.nodes[5].data, NodeData::Text("z".to_string()));
}

#[test]
fn stale_binding_is_reported() {
    let (mut dom, body) = root();
    let other = dom.create(NodeData::Element("aside".to_string()));
    let mut first = text("x");
    assert_eq!(first.apply(other, None, &mut dom), Ok(()));
    // the text lives under `other`, not under `body`
    let mut second = tag("b", vec![]);
    assert_eq!(second.apply(body, Some(first), &mut dom), Err(ApplyError::Detached));
}

#[test]
fn remove_absent_node_fails() {
    let (mut dom, body) = root();
    let stray = dom.create(NodeData::Text("stray".to_string()));
    let before = dom.log.len();
    let node = VNode::VRef(stray);
    assert_eq!(dom.index_of(body, node.get_node().unwrap()), None);
    assert_eq!(dom.remove_child(body, stray), Err(DetachError));
    assert_eq!(dom.log.len(), before);
    assert_eq!(text("never shown").get_node(), None);
}

#[test]
fn remove_attached_node() {
    let (mut dom, body) = root();
    let mut node = text("x");
    assert_eq!(node.apply(body, None, &mut dom), Ok(()));
    let id = node.get_node().unwrap();
    node.remove(body, &mut dom);
    assert!(dom.nodes[body].children.is_empty());
    assert_eq!(*dom.log.last().unwrap(), Mutation::Remove { parent: body, child: id });
}

#[test]
fn external_ref_reports_its_node() {
    assert_eq!(VNode::VRef(7).get_node(), Some(7));
    assert_eq!(text("a").get_node(), None);
}

#[test]
fn equality_by_kind() {
    assert!(text("a") == text("a"));
    assert!(text("a") != text("b"));
    assert!(tag("div", vec![text("a")]) == tag("div", vec![text("a")]));
    assert!(tag("div", vec![text("a")]) != tag("div", vec![text("b")]));
    assert!(tag("div", vec![]) != tag("span", vec![]));
    assert!(tag("div", vec![text("a")]) != tag("div", vec![]));
    assert!(tag("div", vec![]) != text("div"));
    assert!(VNode::VComp(VComp::new()) != VNode::VComp(VComp::new()));
    assert!(VNode::VRef(1) != VNode::VRef(1));
    assert!(tag("div", vec![VNode::VComp(VComp::new())]) != tag("div", vec![VNode::VComp(VComp::new())]));
}

#[test]
fn conversions_wrap() {
    let n: VNode = VNode::from("hi".to_string());
    assert!(n == text("hi"));
    let n: VNode = VNode::from(VTag::new("p".to_string()));
    assert!(n == tag("p", vec![]));
    let n: VNode = VNode::from(VText::new("t".to_string()));
    assert!(n == text("t"));
    let n: VNode = VNode::from(VComp::new());
    assert!(matches!(n, VNode::VComp(_)));
}

#[test]
fn document_insert_and_index() {
    let (mut dom, body) = root();
    let a = dom.create(NodeData::Text("a".to_string()));
    let b = dom.create(NodeData::Text("b".to_string()));
    dom.append_child(body, a);
    dom.insert_child(body, b, 0);
    assert_eq!(dom.nodes[body].children, vec![b, a]);
    assert_eq!(dom.index_of(body, a), Some(1));
    assert_eq!(dom.index_of(body, 99), None);
    assert_eq!(dom.remove_child(body, b), Ok(0));
    assert_eq!(dom.remove_child(body, b), Err(DetachError));
    dom.set_text(a, "c".to_string());
    assert_eq!(dom.nodes[a].data, NodeData::Text("c".to_string()));
}

#[test]
fn kept_text_must_be_under_parent() {
    let (mut dom, body) = root();
    let other = dom.create(NodeData::Element("aside".to_string()));
    let mut first = text("x");
    assert_eq!(first.apply(other, None, &mut dom), Ok(()));
    let before = dom.log.len();
    let mut second = text("y");
    assert_eq!(second.apply(body, Some(first), &mut dom), Err(ApplyError::Detached));
    assert_eq!(dom.log.len(), before);
}

#[test]
fn text_only_changes_keep_every_node() {
    let (mut dom, body) = root();
    let mut first = tag("ul", vec![tag("li", vec![text("one")]), tag("li", vec![text("two")])]);
    assert_eq!(first.apply(body, None, &mut dom), Ok(()));
    let count = dom.node_count();
    let start = dom.log.len();
    let mut second = tag("ul", vec![tag("li", vec![text("uno")]), tag("li", vec![text("two")])]);
    assert_eq!(second.apply(body, Some(first), &mut dom), Ok(()));
    assert_eq!(dom.node_count(), count);
    assert_eq!(dom.log[start..].to_vec(), vec![Mutation::SetText(3)]);
    assert_eq!(dom.nodes[3].data, NodeData::Text("uno".to_string()));
    assert_eq!(dom.nodes[body].children, vec![1]);
}
