//! Finding the elements of a document that was written.

use crate::mlt_read::{by_id, first_named, property_at, property_of};
use crate::xml::{
    attribute, children_before, children_of, is_document, read_attrs, reads, root_at, Elem,
    NodeView,
};
use vstd::prelude::*;

verus! {

// ---------------------------------------------------------------------------
// What stands in an element
// ---------------------------------------------------------------------------

proof fn lemma_children_before(nodes: Seq<NodeView>, parent: int, n: int)
    requires
        0 <= n <= nodes.len(),
    ensures
        forall|k: int|
            0 <= k < children_before(nodes, parent, n).len() ==> {
                let at = #[trigger] children_before(nodes, parent, n)[k];
                0 <= at < n && nodes[at].element && nodes[at].parent == Some(parent as usize)
            },
        forall|i: int, j: int|
            0 <= i < j < children_before(nodes, parent, n).len() ==> #[trigger] children_before(
                nodes,
                parent,
                n,
            )[i] < #[trigger] children_before(nodes, parent, n)[j],
        forall|at: int|
            0 <= at < n && (#[trigger] nodes[at]).element && nodes[at].parent == Some(
                parent as usize,
            ) ==> children_before(nodes, parent, n).contains(at),
    decreases n,
{
    if n > 0 {
        lemma_children_before(nodes, parent, n - 1);
        let before = children_before(nodes, parent, n - 1);
        let after = children_before(nodes, parent, n);
        assert forall|at: int|
            0 <= at < n && (#[trigger] nodes[at]).element && nodes[at].parent == Some(
                parent as usize,
            ) implies after.contains(at) by {
            if at == n - 1 {
                assert(after[after.len() - 1] == at);
            } else {
                let k = choose|k: int| 0 <= k < before.len() && before[k] == at;
                assert(after[k] == at);
            }
        }
    }
}

/// The elements in an element, in order, and all of them.
pub proof fn lemma_children(nodes: Seq<NodeView>, parent: int)
    ensures
        forall|k: int|
            0 <= k < children_of(nodes, parent).len() ==> {
                let at = #[trigger] children_of(nodes, parent)[k];
                0 <= at < nodes.len() && nodes[at].element && nodes[at].parent == Some(
                    parent as usize,
                )
            },
        forall|i: int, j: int|
            0 <= i < j < children_of(nodes, parent).len() ==> #[trigger] children_of(
                nodes,
                parent,
            )[i] < #[trigger] children_of(nodes, parent)[j],
        forall|at: int|
            0 <= at < nodes.len() && (#[trigger] nodes[at]).element && nodes[at].parent == Some(
                parent as usize,
            ) ==> children_of(nodes, parent).contains(at),
{
    lemma_children_before(nodes, parent, nodes.len() as int);
}

// ---------------------------------------------------------------------------
// Identifiers
// ---------------------------------------------------------------------------

/// The identifier of an element, if it has one.
pub open spec fn id_of(e: Elem) -> Option<Seq<char>> {
    attribute(read_attrs(e.attrs), "id"@)
}

/// Whether an identifier is that of an element, or of one in it.
pub open spec fn holds_id(e: Elem, id: Seq<char>) -> bool
    decreases e,
{
    ||| id_of(e) == Some(id)
    ||| exists|k: int| 0 <= k < e.kids.len() && holds_id(#[trigger] e.kids[k], id)
}

/// Whether all identifiers in one element are in another.
pub open spec fn ids_within(inner: Elem, outer: Elem) -> bool {
    forall|id: Seq<char>| #[trigger] holds_id(inner, id) ==> holds_id(outer, id)
}

pub open spec fn comes_from(nodes: Seq<NodeView>, i: int, s: Elem, e: Elem, k: int) -> bool {
    &&& 0 <= k < e.kids.len()
    &&& children_of(nodes, root_at(nodes))[k] <= i
    &&& reads(nodes, i, s)
    &&& ids_within(s, e.kids[k])
}

/// Every element but the root is in one of those that stand in the root.
proof fn lemma_comes_from(nodes: Seq<NodeView>, e: Elem, i: int)
    requires
        nodes.len() <= usize::MAX,
        is_document(nodes, e),
        0 <= i < nodes.len(),
        nodes[i].element,
        i != root_at(nodes),
    ensures
        exists|s: Elem, k: int| comes_from(nodes, i, s, e, k),
    decreases i,
{
    let root = root_at(nodes);
    let p = nodes[i].parent->0 as int;
    lemma_children(nodes, p);
    assert(p as usize == nodes[i].parent->0);
    let kids = children_of(nodes, p);
    assert(kids.contains(i));
    let j = choose|j: int| 0 <= j < kids.len() && kids[j] == i;
    if p == root {
        let s = e.kids[j];
        assert(reads(nodes, i, s));
        assert(comes_from(nodes, i, s, e, j));
    } else {
        lemma_comes_from(nodes, e, p);
        let (sp, k) = choose|sp: Elem, k: int| comes_from(nodes, p, sp, e, k);
        let s = sp.kids[j];
        assert(reads(nodes, i, s));
        assert forall|id: Seq<char>| #[trigger] holds_id(s, id) implies holds_id(
            e.kids[k],
            id,
        ) by {
            assert(holds_id(sp.kids[j], id));
            assert(holds_id(sp, id));
        }
        assert(comes_from(nodes, i, s, e, k));
    }
}

proof fn lemma_by_id(nodes: Seq<NodeView>, id: Seq<char>, at: int)
    requires
        0 <= at < nodes.len(),
        attribute(nodes[at].attrs, "id"@) == Some(id),
        forall|i: int| 0 <= i < at ==> attribute((#[trigger] nodes[i]).attrs, "id"@) != Some(id),
    ensures
        by_id(nodes, id) == at,
    decreases nodes.len(),
{
    let rest = nodes.drop_last();
    if at < rest.len() {
        assert forall|i: int| 0 <= i < at implies attribute((#[trigger] rest[i]).attrs, "id"@)
            != Some(id) by {
            assert(rest[i] == nodes[i]);
        }
        assert(rest[at] == nodes[at]);
        lemma_by_id(rest, id, at);
    } else {
        assert forall|i: int| 0 <= i < rest.len() implies attribute(
            (#[trigger] rest[i]).attrs,
            "id"@,
        ) != Some(id) by {
            assert(rest[i] == nodes[i]);
        }
        lemma_no_id(rest, id);
    }
}

proof fn lemma_no_id(nodes: Seq<NodeView>, id: Seq<char>)
    requires
        forall|i: int|
            0 <= i < nodes.len() ==> attribute((#[trigger] nodes[i]).attrs, "id"@) != Some(id),
    ensures
        by_id(nodes, id) == -1,
    decreases nodes.len(),
{
    if nodes.len() > 0 {
        let rest = nodes.drop_last();
        assert forall|i: int| 0 <= i < rest.len() implies attribute(
            (#[trigger] rest[i]).attrs,
            "id"@,
        ) != Some(id) by {
            assert(rest[i] == nodes[i]);
        }
        lemma_no_id(rest, id);
        assert(attribute(nodes[nodes.len() - 1].attrs, "id"@) != Some(id));
    }
}

/// An element that stands in the root is found by its identifier, where nothing in front of it
/// has that too.
pub proof fn lemma_found_by_id(nodes: Seq<NodeView>, e: Elem, k: int, id: Seq<char>)
    requires
        nodes.len() <= usize::MAX,
        is_document(nodes, e),
        0 <= k < e.kids.len(),
        id_of(e.kids[k]) == Some(id),
        id_of(e) != Some(id),
        forall|j: int| 0 <= j < k ==> !holds_id(#[trigger] e.kids[j], id),
    ensures
        by_id(nodes, id) == children_of(nodes, root_at(nodes))[k],
{
    let root = root_at(nodes);
    let kids = children_of(nodes, root);
    lemma_children(nodes, root);
    let at = kids[k];
    assert(reads(nodes, at, e.kids[k]));
    assert forall|i: int| 0 <= i < at implies attribute((#[trigger] nodes[i]).attrs, "id"@) != Some(
        id,
    ) by {
        if nodes[i].element && i != root {
            lemma_comes_from(nodes, e, i);
            let (s, j) = choose|s: Elem, j: int| comes_from(nodes, i, s, e, j);
            if attribute(nodes[i].attrs, "id"@) == Some(id) {
                assert(id_of(s) == Some(id));
                assert(holds_id(s, id));
                assert(holds_id(e.kids[j], id));
                if j < k {
                    assert(false);
                } else if j > k {
                    assert(kids[k] < kids[j]);
                }
            }
        }
    }
    lemma_by_id(nodes, id, at);
}

/// The first element of a name is the first in the root, where it has that name and the root
/// has not.
pub proof fn lemma_first_named(nodes: Seq<NodeView>, e: Elem, name: Seq<char>)
    requires
        nodes.len() <= usize::MAX,
        is_document(nodes, e),
        e.kids.len() > 0,
        e.name != name,
        e.kids[0].name == name,
    ensures
        first_named(nodes, name) == children_of(nodes, root_at(nodes))[0],
{
    let root = root_at(nodes);
    let kids = children_of(nodes, root);
    lemma_children(nodes, root);
    assert(reads(nodes, kids[0], e.kids[0]));
    assert forall|i: int| 0 <= i < kids[0] implies !(#[trigger] nodes[i]).is(name) by {
        if nodes[i].element && i != root {
            lemma_comes_from(nodes, e, i);
            let (s, j) = choose|s: Elem, j: int| comes_from(nodes, i, s, e, j);
            if j > 0 {
                assert(kids[0] < kids[j]);
            }
        }
    }
    lemma_first(nodes, name, kids[0]);
}

proof fn lemma_first(nodes: Seq<NodeView>, name: Seq<char>, at: int)
    requires
        0 <= at < nodes.len(),
        nodes[at].is(name),
        forall|i: int| 0 <= i < at ==> !(#[trigger] nodes[i]).is(name),
    ensures
        first_named(nodes, name) == at,
    decreases nodes.len(),
{
    let rest = nodes.drop_last();
    assert forall|i: int| 0 <= i < rest.len() && i < at implies !(#[trigger] rest[i]).is(name) by {
        assert(rest[i] == nodes[i]);
    }
    if at < rest.len() {
        assert(rest[at] == nodes[at]);
        lemma_first(rest, name, at);
    } else {
        lemma_not_named(rest, name);
    }
}

proof fn lemma_not_named(nodes: Seq<NodeView>, name: Seq<char>)
    requires
        forall|i: int| 0 <= i < nodes.len() ==> !(#[trigger] nodes[i]).is(name),
    ensures
        first_named(nodes, name) == -1,
    decreases nodes.len(),
{
    if nodes.len() > 0 {
        let rest = nodes.drop_last();
        assert forall|i: int| 0 <= i < rest.len() implies !(#[trigger] rest[i]).is(name) by {
            assert(rest[i] == nodes[i]);
        }
        lemma_not_named(rest, name);
        assert(!nodes[nodes.len() - 1].is(name));
    }
}

// ---------------------------------------------------------------------------
// Properties
// ---------------------------------------------------------------------------

/// Whether an element is a property of that name.
pub open spec fn is_property(e: Elem, name: Seq<char>) -> bool {
    e.name == "property"@ && attribute(read_attrs(e.attrs), "name"@) == Some(name)
}

proof fn lemma_property_at(nodes: Seq<NodeView>, kids: Seq<int>, elems: Seq<Elem>, name: Seq<char>, k: int)
    requires
        kids.len() == elems.len(),
        forall|j: int| 0 <= j < kids.len() ==> reads(nodes, kids[j], #[trigger] elems[j]),
        0 <= k <= kids.len(),
        k < kids.len() ==> is_property(elems[k], name),
        forall|j: int| 0 <= j < k ==> !is_property(#[trigger] elems[j], name),
    ensures
        property_at(nodes, kids, name) == (if k < kids.len() {
            kids[k]
        } else {
            -1
        }),
    decreases k,
{
    if kids.len() > 0 {
        assert(reads(nodes, kids[0], elems[0]));
        if k > 0 {
            assert(!is_property(elems[0], name));
            let rest = kids.skip(1);
            let others = elems.skip(1);
            assert forall|j: int| 0 <= j < rest.len() implies reads(
                nodes,
                rest[j],
                #[trigger] others[j],
            ) by {
                assert(others[j] == elems[j + 1]);
            }
            assert forall|j: int| 0 <= j < k - 1 implies !is_property(
                #[trigger] others[j],
                name,
            ) by {
                assert(others[j] == elems[j + 1]);
            }
            if k < kids.len() {
                assert(others[k - 1] == elems[k]);
            }
            lemma_property_at(nodes, rest, others, name, k - 1);
        }
    }
}

/// A property of an element is read as it was written.
pub proof fn lemma_property(nodes: Seq<NodeView>, at: int, e: Elem, name: Seq<char>, k: int)
    requires
        reads(nodes, at, e),
        0 <= k < e.kids.len(),
        is_property(e.kids[k], name),
        e.kids[k].text is Some,
        forall|j: int| 0 <= j < k ==> !is_property(#[trigger] e.kids[j], name),
    ensures
        property_of(nodes, at, name) == (if e.kids[k].text->0.len() > 0 {
            Some(e.kids[k].text->0)
        } else {
            None
        }),
{
    lemma_property_at(nodes, children_of(nodes, at), e.kids, name, k);
    assert(reads(nodes, children_of(nodes, at)[k], e.kids[k]));
}

/// A property that was not written is not read.
pub proof fn lemma_no_property(nodes: Seq<NodeView>, at: int, e: Elem, name: Seq<char>)
    requires
        reads(nodes, at, e),
        forall|j: int| 0 <= j < e.kids.len() ==> !is_property(#[trigger] e.kids[j], name),
    ensures
        property_of(nodes, at, name) == None::<Seq<char>>,
{
    lemma_property_at(nodes, children_of(nodes, at), e.kids, name, e.kids.len() as int);
}

} // verus!
