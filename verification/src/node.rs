//! The nodes of a document tree.

use vstd::prelude::*;
use crate::element::Element;
use crate::handle::NodeHandle;
use crate::name::QualName;

verus! {

/// A `DOCTYPE` with name, public id, and system id.
#[derive(Debug)]
pub struct Doctype {
    pub name: String,
    pub public_id: String,
    pub system_id: String,
}

/// The different kinds of nodes in the DOM.
#[derive(Debug)]
pub enum Node {
    /// The `Document` itself - the root node of a HTML document.
    Document(Option<Doctype>),
    /// A text node.
    Text { contents: String },
    /// A comment.
    Comment { contents: String },
    /// An element with attributes.
    Element { elem: Element, qualified_name: QualName, parent: NodeHandle, children: Vec<NodeHandle> },
    /// A processing instruction.
    ProcessingInstruction { target: String, contents: String },
}

impl Node {
    /// The element value of an element node is well formed.
    pub open spec fn wf(&self) -> bool {
        self is Element ==> self->elem.wf()
    }

    /// An element that differs from `before` at most in its children, which
    /// are `kids`.
    pub open spec fn same_but_children(&self, before: Node, kids: Seq<NodeHandle>) -> bool {
        &&& self is Element
        &&& before is Element
        &&& self->elem == before->elem
        &&& self->qualified_name == before->qualified_name
        &&& self->parent == before->parent
        &&& self->children@ == kids
    }

    /// An element of the kind of `before` that differs from it at most in its
    /// attributes, which are `attrs`.
    pub open spec fn same_but_attrs(&self, before: Node, attrs: Map<Seq<char>, Seq<char>>) -> bool {
        &&& self is Element
        &&& before is Element
        &&& self->elem.wf()
        &&& self->elem.attrs() == attrs
        &&& self->elem.tag_name() == before->elem.tag_name()
        &&& self->qualified_name == before->qualified_name
        &&& self->parent == before->parent
        &&& self->children == before->children
    }
}

} // verus!
