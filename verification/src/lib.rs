//! An arena-backed HTML document tree and the mutation operations that a
//! tree-construction algorithm drives it through.

#![allow(deprecated)]

pub mod handle;
pub mod name;
pub mod element;
pub mod node;
pub mod arena;
pub mod dom;

pub use arena::Arena;
pub use dom::{Dom, DomError, NodeOrText};
pub use element::Element;
pub use handle::NodeHandle;
pub use name::{Attribute, QualName};
pub use node::{Doctype, Node};
