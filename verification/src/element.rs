//! The element value of an element node: a typed HTML element together with
//! the names of the attributes that were set on it.

use vstd::prelude::*;
use crate::name::{fill_missing, set_all, Attribute};

verus! {

#[verifier::external_type_specification]
#[verifier::external_body]
pub struct ExElementOwned(html_tags::ElementOwned);

/// The attributes that a typed element holds, each name with its text: every
/// attribute field that is set, and every entry of its map of extra
/// attributes.
pub uninterp spec fn elem_attrs(e: html_tags::ElementOwned) -> Map<Seq<char>, Seq<char>>;

/// The tag name that a typed element reports for itself.
pub uninterp spec fn elem_tag(e: html_tags::ElementOwned) -> Seq<char>;

/// No attributes at all.
pub open spec fn no_attrs() -> Map<Seq<char>, Seq<char>> {
    Map::empty()
}

/// `html_tags::ElementOwned::from_tag`: the element for a lowercase tag name,
/// which then reports that tag, or the unknown element where the tag has
/// none. It is built with `default`, so no attribute is set on it.
#[verifier::external_body]
fn typed_from_tag(tag: &str) -> (e: html_tags::ElementOwned)
    ensures
        elem_attrs(e) == no_attrs(),
        elem_tag(e) == tag@ || elem_tag(e) == "unknown"@,
{
    html_tags::ElementOwned::from_tag(tag)
}

/// `html_tags::ElementOwned::set_attr`: stores `value` under `name`, in the
/// field of that name where the element has one and among its extra
/// attributes otherwise, replacing what was stored under that name. Nothing
/// else changes; the element stays of its kind.
#[verifier::external_body]
fn typed_set_attr(e: &mut html_tags::ElementOwned, name: &str, value: String)
    ensures
        elem_attrs(*final(e)) == elem_attrs(*old(e)).insert(name@, value@),
        elem_tag(*final(e)) == elem_tag(*old(e)),
{
    e.set_attr(name, value)
}

/// `html_tags::ElementOwned::tag`: the tag name of the element's kind.
#[verifier::external_body]
fn typed_tag(e: &html_tags::ElementOwned) -> (t: &'static str)
    ensures
        t@ == elem_tag(*e),
{
    e.tag()
}

/// Whether one of `names` spells `name`.
pub open spec fn names_hold(names: Seq<String>, name: Seq<char>) -> bool {
    exists|i: int| 0 <= i < names.len() && (#[trigger] names[i])@ == name
}

/// An element value: the typed element and the names set on it so far.
#[derive(Debug)]
pub struct Element {
    value: html_tags::ElementOwned,
    names: Vec<String>,
}

impl Element {
    /// The attributes of the element, by name.
    pub closed spec fn attrs(&self) -> Map<Seq<char>, Seq<char>> {
        elem_attrs(self.value)
    }

    /// The tag name of the element's kind: the tag it was made for, or
    /// `unknown`.
    pub closed spec fn tag_name(&self) -> Seq<char> {
        elem_tag(self.value)
    }

    /// The recorded names are exactly the names of the attributes that are
    /// set.
    pub closed spec fn wf(&self) -> bool {
        forall|n: Seq<char>| #[trigger] self.attrs().contains_key(n) <==> names_hold(self.names@, n)
    }

    /// The element for a lowercase tag name, with no attribute set.
    pub fn from_tag(tag: &str) -> (e: Element)
        ensures
            e.wf(),
            e.attrs() == Map::<Seq<char>, Seq<char>>::empty(),
            e.tag_name() == tag@ || e.tag_name() == "unknown"@,
    {
        Element { value: typed_from_tag(tag), names: Vec::new() }
    }

    /// The typed element.
    pub fn value(&self) -> (v: &html_tags::ElementOwned)
        ensures
            elem_attrs(*v) == self.attrs(),
            elem_tag(*v) == self.tag_name(),
    {
        &self.value
    }

    /// The tag name of the element's kind.
    pub fn tag(&self) -> (t: &'static str)
        ensures
            t@ == self.tag_name(),
    {
        typed_tag(&self.value)
    }

    /// Whether an attribute of that name is set.
    pub fn has_attr(&self, name: &str) -> (b: bool)
        requires
            self.wf(),
        ensures
            b == self.attrs().contains_key(name@),
    {
        let key: String = name.to_owned();
        let mut i: usize = 0;
        while i < self.names.len()
            invariant
                self.wf(),
                i <= self.names.len(),
                key@ == name@,
                forall|j: int| 0 <= j < i ==> (#[trigger] self.names@[j])@ != name@,
            decreases self.names.len() - i,
        {
            if self.names[i] == key {
                assert(self.names@[i as int]@ == name@);
                return true;
            }
            i += 1;
        }
        false
    }

    /// Sets the attribute, replacing an earlier value of that name.
    pub fn set_attr(&mut self, name: &str, value: String)
        requires
            old(self).wf(),
        ensures
            final(self).wf(),
            final(self).attrs() == old(self).attrs().insert(name@, value@),
            final(self).tag_name() == old(self).tag_name(),
    {
        let known = self.has_attr(name);
        typed_set_attr(&mut self.value, name, value);
        if !known {
            self.names.push(name.to_owned());
        }
        proof {
            let before = old(self).names@;
            let after = self.names@;
            assert forall|n: Seq<char>| #[trigger]
                self.attrs().contains_key(n) <==> names_hold(after, n) by {
                assert(old(self).attrs().contains_key(n) <==> names_hold(before, n));
                assert(self.attrs().contains_key(n) <==> (n == name@ || old(self).attrs().contains_key(n)));
                if names_hold(before, n) {
                    let i = choose|i: int| 0 <= i < before.len() && (#[trigger] before[i])@ == n;
                    assert(after[i]@ == n);
                }
                if n == name@ && !known {
                    assert(after[before.len() as int]@ == n);
                }
                if names_hold(after, n) {
                    let i = choose|i: int| 0 <= i < after.len() && (#[trigger] after[i])@ == n;
                    if i < before.len() {
                        assert(before[i]@ == n);
                    }
                }
            }
        }
    }

    /// Sets the attribute unless one of that name is already set.
    pub fn set_attr_if_missing(&mut self, name: &str, value: String)
        requires
            old(self).wf(),
        ensures
            final(self).wf(),
            final(self).attrs() == if old(self).attrs().contains_key(name@) {
                old(self).attrs()
            } else {
                old(self).attrs().insert(name@, value@)
            },
            final(self).tag_name() == old(self).tag_name(),
    {
        if !self.has_attr(name) {
            self.set_attr(name, value);
        }
    }

    /// Sets each attribute of the list in turn: of two values for one name
    /// the later one stays.
    pub fn set_attrs(&mut self, attrs: &Vec<Attribute>)
        requires
            old(self).wf(),
        ensures
            final(self).wf(),
            final(self).attrs() == set_all(old(self).attrs(), attrs@),
            final(self).tag_name() == old(self).tag_name(),
    {
        let mut i: usize = 0;
        while i < attrs.len()
            invariant
                i <= attrs.len(),
                self.wf(),
                self.tag_name() == old(self).tag_name(),
                self.attrs() == set_all(old(self).attrs(), attrs@.take(i as int)),
            decreases attrs.len() - i,
        {
            self.set_attr(attrs[i].name.local.as_str(), attrs[i].value.clone());
            proof {
                assert(attrs@.take(i + 1).drop_last() == attrs@.take(i as int));
            }
            i += 1;
        }
        proof {
            assert(attrs@.take(i as int) == attrs@);
        }
    }

    /// Adds each attribute of the list in turn, unless one of its name is
    /// already set.
    pub fn add_attrs_if_missing(&mut self, attrs: &Vec<Attribute>)
        requires
            old(self).wf(),
        ensures
            final(self).wf(),
            final(self).attrs() == fill_missing(old(self).attrs(), attrs@),
            final(self).tag_name() == old(self).tag_name(),
    {
        let mut i: usize = 0;
        while i < attrs.len()
            invariant
                i <= attrs.len(),
                self.wf(),
                self.tag_name() == old(self).tag_name(),
                self.attrs() == fill_missing(old(self).attrs(), attrs@.take(i as int)),
            decreases attrs.len() - i,
        {
            self.set_attr_if_missing(attrs[i].name.local.as_str(), attrs[i].value.clone());
            proof {
                assert(attrs@.take(i + 1).drop_last() == attrs@.take(i as int));
            }
            i += 1;
        }
        proof {
            assert(attrs@.take(i as int) == attrs@);
        }
    }
}

} // verus!
