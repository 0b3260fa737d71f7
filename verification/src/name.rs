//! Qualified names and attributes, as a tree-construction algorithm hands
//! them over.

use vstd::prelude::*;

verus! {

/// A qualified name: an optional prefix, a namespace and a local name.
#[derive(Debug)]
pub struct QualName {
    pub prefix: Option<String>,
    pub ns: String,
    pub local: String,
}

/// One attribute of a start tag.
#[derive(Debug)]
pub struct Attribute {
    pub name: QualName,
    pub value: String,
}

/// The attributes that result from setting each of `attrs` in turn on an
/// element that holds `base`: a later value replaces an earlier one.
pub open spec fn set_all(base: Map<Seq<char>, Seq<char>>, attrs: Seq<Attribute>) -> Map<
    Seq<char>,
    Seq<char>,
>
    decreases attrs.len(),
{
    if attrs.len() == 0 {
        base
    } else {
        set_all(base, attrs.drop_last()).insert(attrs.last().name.local@, attrs.last().value@)
    }
}

/// The attributes that result from adding each of `attrs` in turn to an
/// element that holds `base`, skipping every name that is already set.
pub open spec fn fill_missing(base: Map<Seq<char>, Seq<char>>, attrs: Seq<Attribute>) -> Map<
    Seq<char>,
    Seq<char>,
>
    decreases attrs.len(),
{
    if attrs.len() == 0 {
        base
    } else {
        let rest = fill_missing(base, attrs.drop_last());
        if rest.contains_key(attrs.last().name.local@) {
            rest
        } else {
            rest.insert(attrs.last().name.local@, attrs.last().value@)
        }
    }
}

/// Setting attributes in turn leaves the last one in the list set to its own
/// value: the last write wins.
pub proof fn lemma_last_write_wins(base: Map<Seq<char>, Seq<char>>, attrs: Seq<Attribute>)
    requires
        attrs.len() > 0,
    ensures
        set_all(base, attrs).contains_key(attrs.last().name.local@),
        set_all(base, attrs)[attrs.last().name.local@] == attrs.last().value@,
{
}

/// Adding missing attributes never changes an attribute that is already set.
pub proof fn lemma_fill_missing_keeps(
    base: Map<Seq<char>, Seq<char>>,
    attrs: Seq<Attribute>,
    name: Seq<char>,
)
    requires
        base.contains_key(name),
    ensures
        fill_missing(base, attrs).contains_key(name),
        fill_missing(base, attrs)[name] == base[name],
    decreases attrs.len(),
{
    if attrs.len() > 0 {
        lemma_fill_missing_keeps(base, attrs.drop_last(), name);
    }
}

/// Adding missing attributes sets a name that was not set to the first value
/// that the list gives for it.
pub proof fn lemma_fill_missing_first(
    base: Map<Seq<char>, Seq<char>>,
    attrs: Seq<Attribute>,
    i: int,
)
    requires
        0 <= i < attrs.len(),
        !base.contains_key(attrs[i].name.local@),
        forall|j: int| 0 <= j < i ==> (#[trigger] attrs[j]).name.local@ != attrs[i].name.local@,
    ensures
        fill_missing(base, attrs).contains_key(attrs[i].name.local@),
        fill_missing(base, attrs)[attrs[i].name.local@] == attrs[i].value@,
    decreases attrs.len(),
{
    let rest = attrs.drop_last();
    if i < attrs.len() - 1 {
        lemma_fill_missing_first(base, rest, i);
        assert(rest[i] == attrs[i]);
    } else {
        lemma_fill_missing_absent(base, rest, attrs[i].name.local@);
    }
}

/// A name that neither the element nor the list holds stays unset.
pub proof fn lemma_fill_missing_absent(
    base: Map<Seq<char>, Seq<char>>,
    attrs: Seq<Attribute>,
    name: Seq<char>,
)
    requires
        !base.contains_key(name),
        forall|j: int| 0 <= j < attrs.len() ==> (#[trigger] attrs[j]).name.local@ != name,
    ensures
        !fill_missing(base, attrs).contains_key(name),
    decreases attrs.len(),
{
    if attrs.len() > 0 {
        let rest = attrs.drop_last();
        assert forall|j: int| 0 <= j < rest.len() implies (#[trigger] rest[j]).name.local@
            != name by {
            assert(rest[j] == attrs[j]);
        }
        lemma_fill_missing_absent(base, rest, name);
        assert(attrs.last() == attrs[attrs.len() - 1]);
    }
}

} // verus!
