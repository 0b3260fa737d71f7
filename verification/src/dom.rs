//! The tree mutation sink: the operations through which a tree-construction
//! algorithm builds a document in an arena.

use vstd::prelude::*;
use crate::arena::{Arena, MAX_NODES};
use crate::element::{no_attrs, Element};
use crate::handle::NodeHandle;
use crate::name::{fill_missing, set_all, Attribute, QualName};
use crate::node::{Doctype, Node};

verus! {

/// Why an operation on the tree was refused.
#[derive(Clone, Copy, Debug, PartialEq, Eq, Structural)]
pub enum DomError {
    /// The handle was not issued by this tree's arena.
    InvalidHandle,
    /// The node cannot take part in the operation: it is not an element.
    NotAnElement,
    /// The tree does not support the operation.
    Unimplemented,
}

/// What `append` attaches: a node that exists, or text for a new node.
#[derive(Debug)]
pub enum NodeOrText {
    AppendNode(NodeHandle),
    AppendText(String),
}

/// A document tree under construction.
#[derive(Debug)]
pub struct Dom {
    pub map: Arena,
    pub document: Option<NodeHandle>,
}

/// Which handles `h` is not.
pub open spec fn other_than(h: NodeHandle) -> spec_fn(NodeHandle) -> bool {
    |x: NodeHandle| x != h
}

/// The handles of `s` in their order, without `h`.
pub open spec fn without(s: Seq<NodeHandle>, h: NodeHandle) -> Seq<NodeHandle> {
    s.filter(other_than(h))
}

/// Every handle that resolves in `before` resolves in `after`.
pub open spec fn keeps_handles(before: Map<u64, Node>, after: Map<u64, Node>) -> bool {
    forall|id: u64| #[trigger] before.contains_key(id) ==> after.contains_key(id)
}

/// `after` holds the nodes of `before` and nothing else, and only the node
/// under `id` may differ.
pub open spec fn changed_only_at(before: Map<u64, Node>, after: Map<u64, Node>, id: u64) -> bool {
    &&& after.dom() == before.dom()
    &&& forall|k: u64| #[trigger] before.contains_key(k) && k != id ==> after[k] == before[k]
}

/// `after` holds the nodes of `before` unchanged, and `node` under the new
/// key `id`.
pub open spec fn grown_by(before: Map<u64, Node>, after: Map<u64, Node>, id: u64, node: Node) -> bool {
    &&& !before.contains_key(id)
    &&& after == before.insert(id, node)
}

/// No handle dangles: the parent that an element records and each of its
/// children resolve.
pub open spec fn links_resolve(nodes: Map<u64, Node>) -> bool {
    forall|id: u64| #[trigger]
        nodes.contains_key(id) && nodes[id] is Element ==> {
            &&& nodes.contains_key(nodes[id]->parent@)
            &&& forall|i: int|
                0 <= i < nodes[id]->children@.len() ==> nodes.contains_key(
                    (#[trigger] nodes[id]->children@[i])@,
                )
        }
}

/// Whether `child` stands in the child list of the element under `parent`.
pub open spec fn is_child(nodes: Map<u64, Node>, parent: u64, child: NodeHandle) -> bool {
    &&& nodes.contains_key(parent)
    &&& nodes[parent] is Element
    &&& nodes[parent]->children@.contains(child)
}

/// No node stands in the child lists of two elements.
pub open spec fn single_parent(nodes: Map<u64, Node>) -> bool {
    forall|a: u64, b: u64, c: NodeHandle|
        #![trigger is_child(nodes, a, c), is_child(nodes, b, c)]
        is_child(nodes, a, c) && is_child(nodes, b, c) ==> a == b
}

/// `child` stands in no child list, except perhaps that of `target`.
pub open spec fn attached_at_most_to(nodes: Map<u64, Node>, target: NodeHandle, child: NodeHandle) -> bool {
    forall|a: u64| #[trigger] is_child(nodes, a, child) ==> a == target@
}

/// `child` stands in no child list at all.
pub open spec fn detached(nodes: Map<u64, Node>, child: NodeHandle) -> bool {
    forall|a: u64| !#[trigger] is_child(nodes, a, child)
}

/// Why `append` refuses to attach `child` to `target`, if it does: `target`
/// must be an element, and a node to attach must be in the arena.
pub open spec fn append_refusal(nodes: Map<u64, Node>, target: NodeHandle, child: NodeOrText) -> Option<
    DomError,
> {
    if element_refusal(nodes, target) is Some {
        element_refusal(nodes, target)
    } else if child is AppendNode && !nodes.contains_key(child->AppendNode_0@) {
        Some(DomError::InvalidHandle)
    } else {
        None
    }
}

/// The node `child` was attached as the last child of the element `target`,
/// and nothing else changed.
pub open spec fn node_attached(
    before: Map<u64, Node>,
    after: Map<u64, Node>,
    target: NodeHandle,
    child: NodeHandle,
) -> bool {
    &&& changed_only_at(before, after, target@)
    &&& after[target@].same_but_children(before[target@], before[target@]->children@.push(child))
}

/// A new text node that holds `contents` was stored and attached as the last
/// child of the element `target`, and nothing else changed.
pub open spec fn text_attached(
    before: Map<u64, Node>,
    after: Map<u64, Node>,
    target: NodeHandle,
    contents: String,
) -> bool {
    let text = after[target@]->children@.last();
    &&& !before.contains_key(text@)
    &&& after.dom() == before.dom().insert(text@)
    &&& after[text@] == (Node::Text { contents })
    &&& forall|k: u64| #[trigger] before.contains_key(k) && k != target@ ==> after[k] == before[k]
    &&& after[target@].same_but_children(before[target@], before[target@]->children@.push(text))
}

/// What `append` does to the nodes and what it returns: a refused call
/// changes nothing; an accepted one attaches the node, or the new text node,
/// as the last child of `target`.
pub open spec fn appended(
    before: Map<u64, Node>,
    after: Map<u64, Node>,
    target: NodeHandle,
    child: NodeOrText,
    r: Result<(), DomError>,
) -> bool {
    match r {
        Err(e) => append_refusal(before, target, child) == Some(e) && after == before,
        Ok(()) => {
            &&& append_refusal(before, target, child) is None
            &&& match child {
                NodeOrText::AppendNode(node) => node_attached(before, after, target, node),
                NodeOrText::AppendText(contents) => text_attached(before, after, target, contents),
            }
        },
    }
}

/// Why an operation on the element `target` is refused, if it is: the handle
/// must resolve, and to an element.
pub open spec fn element_refusal(nodes: Map<u64, Node>, target: NodeHandle) -> Option<DomError> {
    if !nodes.contains_key(target@) {
        Some(DomError::InvalidHandle)
    } else if !(nodes[target@] is Element) {
        Some(DomError::NotAnElement)
    } else {
        None
    }
}

/// Why `remove_from_parent` refuses `target`, if it does: `target` and the
/// parent recorded in it must both be elements of the arena.
pub open spec fn remove_refusal(nodes: Map<u64, Node>, target: NodeHandle) -> Option<DomError> {
    if element_refusal(nodes, target) is Some {
        element_refusal(nodes, target)
    } else {
        element_refusal(nodes, nodes[target@]->parent)
    }
}

/// A handle that an arena does not hold differs from every handle that it
/// holds: two creation calls never return the same handle.
pub proof fn lemma_fresh_handle_differs(nodes: Map<u64, Node>, earlier: NodeHandle, later: NodeHandle)
    requires
        nodes.contains_key(earlier@),
        !nodes.contains_key(later@),
    ensures
        earlier != later,
{
}

/// Handles stay resolvable over any number of steps that each keep them.
pub proof fn lemma_keeps_handles_chain(a: Map<u64, Node>, b: Map<u64, Node>, c: Map<u64, Node>)
    requires
        keeps_handles(a, b),
        keeps_handles(b, c),
    ensures
        keeps_handles(a, c),
        keeps_handles(a, a),
{
}

/// A step after which every child stood under the same parent before keeps
/// every node under at most one parent.
pub proof fn lemma_no_new_children(before: Map<u64, Node>, after: Map<u64, Node>)
    requires
        single_parent(before),
        forall|a: u64, c: NodeHandle| #[trigger] is_child(after, a, c) ==> is_child(before, a, c),
    ensures
        single_parent(after),
{
    assert forall|a: u64, b: u64, c: NodeHandle|
        #![trigger is_child(after, a, c), is_child(after, b, c)]
        is_child(after, a, c) && is_child(after, b, c) implies a == b by {
        assert(is_child(before, a, c) && is_child(before, b, c));
    }
}

/// A step that adds `child` to the child list of `target`, where `child`
/// stood in no other list, keeps every node under at most one parent.
pub proof fn lemma_one_new_child(
    before: Map<u64, Node>,
    after: Map<u64, Node>,
    target: NodeHandle,
    child: NodeHandle,
)
    requires
        single_parent(before),
        attached_at_most_to(before, target, child),
        forall|a: u64, c: NodeHandle| #[trigger]
            is_child(after, a, c) ==> is_child(before, a, c) || (a == target@ && c == child),
    ensures
        single_parent(after),
{
    assert forall|a: u64, b: u64, c: NodeHandle|
        #![trigger is_child(after, a, c), is_child(after, b, c)]
        is_child(after, a, c) && is_child(after, b, c) implies a == b by {
        if is_child(before, a, c) && is_child(before, b, c) {
        } else if is_child(before, a, c) {
            assert(is_child(before, a, child));
        } else if is_child(before, b, c) {
            assert(is_child(before, b, child));
        }
    }
}

/// What is left of a child list after a handle was removed from it does not
/// hold that handle, and holds every other handle of the list.
pub proof fn lemma_without(s: Seq<NodeHandle>, h: NodeHandle)
    ensures
        !without(s, h).contains(h),
        forall|i: int| 0 <= i < s.len() && s[i] != h ==> without(s, h).contains(#[trigger] s[i]),
        forall|i: int| 0 <= i < without(s, h).len() ==> s.contains(#[trigger] without(s, h)[i]),
        without(s, h).len() <= s.len(),
{
    let pred = other_than(h);
    s.lemma_filter_len(pred);
    assert forall|i: int| 0 <= i < without(s, h).len() implies s.contains(
        #[trigger] without(s, h)[i],
    ) by {
        assert(without(s, h).contains(without(s, h)[i]));
        s.lemma_filter_contains_rev(pred, without(s, h)[i]);
    }
    if without(s, h).contains(h) {
        let i = choose|i: int| 0 <= i < without(s, h).len() && without(s, h)[i] == h;
        s.lemma_filter_pred(pred, i);
    }
    assert forall|i: int| 0 <= i < s.len() && s[i] != h implies without(s, h).contains(
        #[trigger] s[i],
    ) by {
        s.lemma_filter_contains(pred, i);
    }
}

impl Dom {
    /// The arena is well formed, every element value in it is well formed,
    /// and the arena holds a document node exactly where `document` says.
    pub open spec fn wf(&self) -> bool {
        &&& self.map.wf()
        &&& forall|id: u64| #[trigger] self.map@.contains_key(id) ==> self.map@[id].wf()
        &&& forall|id: u64| #[trigger]
            self.map@.contains_key(id) && self.map@[id] is Document ==> self.document == Some(
                NodeHandle { id },
            )
        &&& self.document is Some ==> {
            &&& self.map@.contains_key(self.document->0@)
            &&& self.map@[self.document->0@] is Document
        }
    }

    /// Whether `n` more nodes fit into the arena.
    pub open spec fn has_room(&self, n: nat) -> bool {
        self.map@.len() + n <= MAX_NODES
    }

    /// The number of nodes that `get_document` adds: one if there is no
    /// document yet.
    pub open spec fn document_cost(&self) -> nat {
        if self.document is Some {
            0
        } else {
            1
        }
    }

    /// A tree without nodes.
    pub fn new() -> (d: Dom)
        ensures
            d.wf(),
            d.map@ == Map::<u64, Node>::empty(),
            d.document is None,
            links_resolve(d.map@),
            single_parent(d.map@),
    {
        Dom { map: Arena::new(), document: None }
    }

    /// The node that a handle resolves to.
    pub fn get(&self, target: NodeHandle) -> (r: Result<&Node, DomError>)
        requires
            self.wf(),
        ensures
            match r {
                Ok(n) => self.map@.contains_key(target@) && *n == self.map@[target@],
                Err(e) => !self.map@.contains_key(target@) && e == DomError::InvalidHandle,
            },
    {
        match self.map.get(target) {
            Some(n) => Ok(n),
            None => Err(DomError::InvalidHandle),
        }
    }

    /// The document node's handle. The first call creates the node, without a
    /// doctype; every later call returns the same handle and changes nothing.
    pub fn get_document(&mut self) -> (doc: NodeHandle)
        requires
            old(self).wf(),
            old(self).has_room(old(self).document_cost()),
        ensures
            final(self).wf(),
            final(self).document == Some(doc),
            final(self).map@.contains_key(doc@),
            keeps_handles(old(self).map@, final(self).map@),
            links_resolve(old(self).map@) ==> links_resolve(final(self).map@),
            single_parent(old(self).map@) ==> single_parent(final(self).map@),
            old(self).document is Some ==> old(self).document == Some(doc) && final(self).map@ == old(self).map@,
            old(self).document is None ==> grown_by(
                old(self).map@,
                final(self).map@,
                doc@,
                Node::Document(None),
            ),
            final(self).map@.len() == old(self).map@.len() + old(self).document_cost(),
    {
        if let Some(doc) = self.document {
            doc
        } else {
            let doc = self.map.insert(Node::Document(None));
            self.document = Some(doc);
            proof {
                if single_parent(old(self).map@) {
                    lemma_no_new_children(old(self).map@, self.map@);
                }
            }
            doc
        }
    }

    /// The qualified name that the element was created with.
    pub fn elem_name(&self, target: NodeHandle) -> (r: Result<&QualName, DomError>)
        requires
            self.wf(),
        ensures
            match r {
                Ok(q) => element_refusal(self.map@, target) is None && *q == self.map@[target@]->qualified_name,
                Err(e) => element_refusal(self.map@, target) == Some(e),
            },
    {
        match self.map.get(target) {
            Some(Node::Element { qualified_name, .. }) => Ok(qualified_name),
            Some(_) => Err(DomError::NotAnElement),
            None => Err(DomError::InvalidHandle),
        }
    }

    /// Creates an element named `name` with the attributes `attrs`, of which a
    /// later one replaces an earlier one of the same name. Its recorded parent
    /// is the document, which is created if there is none yet; it has no
    /// children.
    pub fn create_element(&mut self, name: QualName, attrs: Vec<Attribute>) -> (h: NodeHandle)
        requires
            old(self).wf(),
            old(self).has_room(old(self).document_cost() + 1),
        ensures
            final(self).wf(),
            !old(self).map@.contains_key(h@),
            keeps_handles(old(self).map@, final(self).map@),
            links_resolve(old(self).map@) ==> links_resolve(final(self).map@),
            single_parent(old(self).map@) ==> single_parent(final(self).map@),
            final(self).document is Some,
            old(self).document is Some ==> final(self).document == old(self).document,
            old(self).document is None ==> !old(self).map@.contains_key(final(self).document->0@),
            final(self).document->0 != h,
            final(self).map@.dom() == old(self).map@.dom().insert(final(self).document->0@).insert(h@),
            forall|id: u64| #[trigger]
                old(self).map@.contains_key(id) ==> final(self).map@[id] == old(self).map@[id],
            old(self).document is None ==> final(self).map@[final(self).document->0@]
                == Node::Document(None),
            final(self).map@[h@] is Element,
            final(self).map@[h@]->elem.attrs() == set_all(no_attrs(), attrs@),
            final(self).map@[h@]->elem.tag_name() == name.local@ || final(
                self).map@[h@]->elem.tag_name() == "unknown"@,
            final(self).map@[h@]->qualified_name == name,
            final(self).map@[h@]->parent == final(self).document->0,
            final(self).map@[h@]->children@ == Seq::<NodeHandle>::empty(),
    {
        let mut elem = Element::from_tag(name.local.as_str());
        elem.set_attrs(&attrs);
        let parent = self.get_document();
        let ghost mid = self.map@;
        let h = self.map.insert(
            Node::Element { elem, qualified_name: name, parent, children: Vec::new() },
        );
        proof {
            if single_parent(mid) {
                lemma_no_new_children(mid, self.map@);
            }
        }
        h
    }

    /// Creates a comment node.
    pub fn create_comment(&mut self, contents: String) -> (h: NodeHandle)
        requires
            old(self).wf(),
            old(self).has_room(1),
        ensures
            final(self).wf(),
            final(self).document == old(self).document,
            keeps_handles(old(self).map@, final(self).map@),
            links_resolve(old(self).map@) ==> links_resolve(final(self).map@),
            single_parent(old(self).map@) ==> single_parent(final(self).map@),
            grown_by(old(self).map@, final(self).map@, h@, (Node::Comment { contents })),
    {
        let h = self.map.insert(Node::Comment { contents });
        proof {
            if single_parent(old(self).map@) {
                lemma_no_new_children(old(self).map@, self.map@);
            }
        }
        h
    }

    /// Creates a processing instruction node.
    pub fn create_pi(&mut self, target: String, contents: String) -> (h: NodeHandle)
        requires
            old(self).wf(),
            old(self).has_room(1),
        ensures
            final(self).wf(),
            final(self).document == old(self).document,
            keeps_handles(old(self).map@, final(self).map@),
            links_resolve(old(self).map@) ==> links_resolve(final(self).map@),
            single_parent(old(self).map@) ==> single_parent(final(self).map@),
            grown_by(
                old(self).map@,
                final(self).map@,
                h@,
                (Node::ProcessingInstruction { target, contents }),
            ),
    {
        let h = self.map.insert(Node::ProcessingInstruction { target, contents });
        proof {
            if single_parent(old(self).map@) {
                lemma_no_new_children(old(self).map@, self.map@);
            }
        }
        h
    }

    /// Appends `child` as the last child of the element `target`: an existing
    /// node by its handle, or a new text node made from the given text.
    /// A refused call changes nothing.
    pub fn append(&mut self, target: NodeHandle, child: NodeOrText) -> (r: Result<(), DomError>)
        requires
            old(self).wf(),
            child is AppendText ==> old(self).has_room(1),
        ensures
            final(self).wf(),
            final(self).document == old(self).document,
            keeps_handles(old(self).map@, final(self).map@),
            links_resolve(old(self).map@) ==> links_resolve(final(self).map@),
            links_resolve(old(self).map@) && single_parent(old(self).map@) && (child is AppendNode
                ==> attached_at_most_to(old(self).map@, target, child->AppendNode_0))
                ==> single_parent(final(self).map@),
            appended(old(self).map@, final(self).map@, target, child, r),
    {
        match self.elem_name(target) {
            Err(e) => {
                return Err(e);
            },
            Ok(_) => {},
        }
        let node = match child {
            NodeOrText::AppendNode(node) => {
                if !self.map.contains(node) {
                    return Err(DomError::InvalidHandle);
                }
                node
            },
            NodeOrText::AppendText(contents) => self.map.insert(Node::Text { contents }),
        };
        match self.map.get_mut(target) {
            Some(Node::Element { children, .. }) => {
                children.push(node);
            },
            _ => {},
        }
        proof {
            assert(self.map@.dom() =~= old(self).map@.dom().insert(node@));
            if old(self).map@.contains_key(node@) {
                assert(self.map@.dom() =~= old(self).map@.dom());
            }
            let before = old(self).map@;
            if links_resolve(before) && single_parent(before) && (before.contains_key(node@)
                ==> attached_at_most_to(before, target, node)) {
                assert forall|a: u64| #[trigger] is_child(before, a, node) implies a == target@ by {
                    if !before.contains_key(node@) {
                        let kids = before[a]->children@;
                        let i = choose|i: int| 0 <= i < kids.len() && kids[i] == node;
                        assert(before.contains_key(kids[i]@));
                    }
                }
                assert forall|a: u64, c: NodeHandle| #[trigger]
                    is_child(self.map@, a, c) implies is_child(before, a, c) || (a == target@ && c
                    == node) by {
                    if a == target@ {
                        let kids = self.map@[a]->children@;
                        let i = choose|i: int| 0 <= i < kids.len() && kids[i] == c;
                        if i < kids.len() - 1 {
                            assert(before[a]->children@[i] == c);
                        }
                    }
                }
                lemma_one_new_child(before, self.map@, target, node);
            }
        }
        Ok(())
    }

    /// Appends `child` to `element`, as `append` does. The previous element is
    /// not looked at.
    pub fn append_based_on_parent_node(
        &mut self,
        element: NodeHandle,
        prev_element: NodeHandle,
        child: NodeOrText,
    ) -> (r: Result<(), DomError>)
        requires
            old(self).wf(),
            child is AppendText ==> old(self).has_room(1),
        ensures
            final(self).wf(),
            final(self).document == old(self).document,
            keeps_handles(old(self).map@, final(self).map@),
            links_resolve(old(self).map@) ==> links_resolve(final(self).map@),
            links_resolve(old(self).map@) && single_parent(old(self).map@) && (child is AppendNode
                ==> attached_at_most_to(old(self).map@, element, child->AppendNode_0))
                ==> single_parent(final(self).map@),
            appended(old(self).map@, final(self).map@, element, child, r),
    {
        self.append(element, child)
    }

    /// Sets the document's doctype, replacing an earlier one. The document is
    /// created if there is none yet.
    pub fn append_doctype_to_document(&mut self, name: String, public_id: String, system_id: String)
        requires
            old(self).wf(),
            old(self).has_room(old(self).document_cost()),
        ensures
            final(self).wf(),
            final(self).document is Some,
            old(self).document is Some ==> final(self).document == old(self).document,
            old(self).document is None ==> !old(self).map@.contains_key(final(self).document->0@),
            keeps_handles(old(self).map@, final(self).map@),
            links_resolve(old(self).map@) ==> links_resolve(final(self).map@),
            single_parent(old(self).map@) ==> single_parent(final(self).map@),
            final(self).map@ == old(self).map@.insert(
                final(self).document->0@,
                Node::Document(Some((Doctype { name, public_id, system_id }))),
            ),
    {
        let doc = self.get_document();
        match self.map.get_mut(doc) {
            Some(node) => {
                *node = Node::Document(Some(Doctype { name, public_id, system_id }));
            },
            None => {},
        }
        proof {
            if single_parent(old(self).map@) {
                lemma_no_new_children(old(self).map@, self.map@);
            }
        }
    }

    /// Template contents are not supported: the call is refused and changes
    /// nothing.
    pub fn get_template_contents(&self, target: NodeHandle) -> (r: Result<NodeHandle, DomError>)
        ensures
            r == Err::<NodeHandle, DomError>(DomError::Unimplemented),
    {
        Err(DomError::Unimplemented)
    }

    /// Whether two handles name the same node.
    pub fn same_node(&self, x: NodeHandle, y: NodeHandle) -> (same: bool)
        ensures
            same == (x == y),
            same == (x@ == y@),
    {
        x == y
    }

    /// Insertion before a sibling is not supported: the call is refused and
    /// changes nothing.
    pub fn append_before_sibling(&self, sibling: NodeHandle, new_node: NodeOrText) -> (r: Result<
        (),
        DomError,
    >)
        ensures
            r == Err::<(), DomError>(DomError::Unimplemented),
    {
        Err(DomError::Unimplemented)
    }

    /// Adds each attribute of the list, in turn, to the element `target`
    /// unless an attribute of that name is already set. A refused call changes
    /// nothing.
    pub fn add_attrs_if_missing(&mut self, target: NodeHandle, attrs: Vec<Attribute>) -> (r: Result<
        (),
        DomError,
    >)
        requires
            old(self).wf(),
        ensures
            final(self).wf(),
            final(self).document == old(self).document,
            keeps_handles(old(self).map@, final(self).map@),
            links_resolve(old(self).map@) ==> links_resolve(final(self).map@),
            single_parent(old(self).map@) ==> single_parent(final(self).map@),
            match r {
                Err(e) => element_refusal(old(self).map@, target) == Some(e) && final(self).map@
                    == old(self).map@,
                Ok(()) => {
                    &&& element_refusal(old(self).map@, target) is None
                    &&& changed_only_at(old(self).map@, final(self).map@, target@)
                    &&& final(self).map@[target@].same_but_attrs(
                        old(self).map@[target@],
                        fill_missing(old(self).map@[target@]->elem.attrs(), attrs@),
                    )
                },
            },
    {
        match self.elem_name(target) {
            Err(e) => {
                return Err(e);
            },
            Ok(_) => {},
        }
        match self.map.get_mut(target) {
            Some(Node::Element { elem, .. }) => {
                elem.add_attrs_if_missing(&attrs);
            },
            _ => {},
        }
        proof {
            assert(self.map@.dom() =~= old(self).map@.dom());
            if single_parent(old(self).map@) {
                lemma_no_new_children(old(self).map@, self.map@);
            }
        }
        Ok(())
    }

    /// Removes every occurrence of `target` from the child list of the parent
    /// that `target` records. Both must be elements. The node itself stays in
    /// the arena, and its handle stays valid; where it stood in no other child
    /// list, it then stands in none. A refused call changes nothing.
    pub fn remove_from_parent(&mut self, target: NodeHandle) -> (r: Result<(), DomError>)
        requires
            old(self).wf(),
        ensures
            final(self).wf(),
            final(self).document == old(self).document,
            keeps_handles(old(self).map@, final(self).map@),
            links_resolve(old(self).map@) ==> links_resolve(final(self).map@),
            single_parent(old(self).map@) ==> single_parent(final(self).map@),
            r is Ok && attached_at_most_to(
                old(self).map@,
                old(self).map@[target@]->parent,
                target,
            ) ==> detached(final(self).map@, target),
            match r {
                Err(e) => remove_refusal(old(self).map@, target) == Some(e) && final(self).map@
                    == old(self).map@,
                Ok(()) => {
                    let parent = old(self).map@[target@]->parent;
                    &&& remove_refusal(old(self).map@, target) is None
                    &&& changed_only_at(old(self).map@, final(self).map@, parent@)
                    &&& final(self).map@[parent@].same_but_children(
                        old(self).map@[parent@],
                        without(old(self).map@[parent@]->children@, target),
                    )
                    &&& !final(self).map@[parent@]->children@.contains(target)
                },
            },
    {
        let parent = match self.map.get(target) {
            Some(Node::Element { parent, .. }) => *parent,
            Some(_) => {
                return Err(DomError::NotAnElement);
            },
            None => {
                return Err(DomError::InvalidHandle);
            },
        };
        let kept = match self.map.get(parent) {
            Some(Node::Element { children, .. }) => handles_without(children, target),
            Some(_) => {
                return Err(DomError::NotAnElement);
            },
            None => {
                return Err(DomError::InvalidHandle);
            },
        };
        match self.map.get_mut(parent) {
            Some(Node::Element { children, .. }) => {
                *children = kept;
            },
            _ => {},
        }
        proof {
            assert(self.map@.dom() =~= old(self).map@.dom());
            let before = old(self).map@[parent@]->children@;
            lemma_without(before, target);
            if links_resolve(old(self).map@) {
                assert forall|i: int| 0 <= i < without(before, target).len() implies old(
                    self).map@.contains_key((#[trigger] without(before, target)[i])@) by {
                    let c = without(before, target)[i];
                    let j = choose|j: int| 0 <= j < before.len() && before[j] == c;
                    assert(old(self).map@.contains_key(before[j]@));
                }
            }
            if single_parent(old(self).map@) {
                assert forall|a: u64, c: NodeHandle| #[trigger]
                    is_child(self.map@, a, c) implies is_child(old(self).map@, a, c) by {
                    if a == parent@ {
                        let kids = self.map@[a]->children@;
                        let i = choose|i: int| 0 <= i < kids.len() && kids[i] == c;
                        assert(before.contains(without(before, target)[i]));
                    }
                }
                lemma_no_new_children(old(self).map@, self.map@);
            }
            if attached_at_most_to(old(self).map@, parent, target) {
                assert forall|a: u64| !#[trigger] is_child(self.map@, a, target) by {
                    if is_child(self.map@, a, target) && a != parent@ {
                        assert(is_child(old(self).map@, a, target));
                    }
                }
            }
        }
        Ok(())
    }

    /// Moving the children of one node to another is not supported: the call
    /// is refused and changes nothing.
    pub fn reparent_children(&self, node: NodeHandle, new_parent: NodeHandle) -> (r: Result<
        (),
        DomError,
    >)
        ensures
            r == Err::<(), DomError>(DomError::Unimplemented),
    {
        Err(DomError::Unimplemented)
    }
}

impl Default for Dom {
    /// A tree without nodes.
    fn default() -> (d: Dom)
        ensures
            d.wf(),
            d.map@ == Map::<u64, Node>::empty(),
            d.document is None,
            links_resolve(d.map@),
            single_parent(d.map@),
    {
        Dom::new()
    }
}

/// The handles of `list` in their order, without `h`.
pub fn handles_without(list: &Vec<NodeHandle>, h: NodeHandle) -> (kept: Vec<NodeHandle>)
    ensures
        kept@ == without(list@, h),
        !kept@.contains(h),
{
    let mut kept: Vec<NodeHandle> = Vec::new();
    let mut i: usize = 0;
    proof {
        reveal(Seq::filter);
    }
    while i < list.len()
        invariant
            i <= list.len(),
            kept@ == without(list@.take(i as int), h),
        decreases list.len() - i,
    {
        proof {
            reveal(Seq::filter);
            assert(list@.take(i + 1).drop_last() == list@.take(i as int));
        }
        if list[i] != h {
            kept.push(list[i]);
        }
        i += 1;
    }
    proof {
        assert(list@.take(i as int) == list@);
        lemma_without(list@, h);
    }
    kept
}

} // verus!
