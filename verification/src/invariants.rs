//! What holds of every node that parsing returns: names are names, values
//! hold no quote, and text is not empty and holds no `<`.

use vstd::prelude::*;
use crate::ast::NodeModel;
use crate::builder::{attributes_of, element_of, nodes_of, self_closed_of, tag_of};
use crate::grammar::{
    attribute_at, attribute_list_at, attributes_from, element_at, elements_at, item_at,
    items_from, remaining, self_closed_tag_at, tag_head_at, text_at,
};
use crate::laws::{
    gives_node, lemma_attribute_parts, lemma_attributes_kept, lemma_element_parts,
    lemma_items_give_nodes, lemma_tag_parts,
};
use crate::parser::document;
use crate::span::{Rule, SpanTree};
use crate::text::{CharClass, in_class, is_letter, lemma_run_end, run_end};

verus! {

/// A letter, then letters and digits.
pub open spec fn is_name(t: Seq<char>) -> bool {
    &&& t.len() > 0
    &&& is_letter(t[0])
    &&& forall|j: int| 0 <= j < t.len() ==> in_class(CharClass::Alnum, #[trigger] t[j])
}

/// No character of `t` is `c`.
pub open spec fn lacks(t: Seq<char>, c: char) -> bool {
    forall|j: int| 0 <= j < t.len() ==> #[trigger] t[j] != c
}

/// The attributes have names as keys and no quote in their values.
pub open spec fn attributes_well_formed(attributes: Seq<(Seq<char>, Seq<char>)>) -> bool {
    forall|k: int|
        0 <= k < attributes.len() ==> is_name((#[trigger] attributes[k]).0) && lacks(
            attributes[k].1,
            '"',
        )
}

/// A node as the grammar allows it: an element has a name for its tag name,
/// well-formed attributes and well-formed children; a text is not empty and
/// holds no `<`.
pub open spec fn well_formed(n: NodeModel) -> bool
    decreases n,
{
    match n {
        NodeModel::Element(e) => {
            &&& is_name(e.tag_name)
            &&& attributes_well_formed(e.attributes)
            &&& forall|k: int|
                0 <= k < e.children.len() ==> well_formed(#[trigger] e.children[k])
        },
        NodeModel::Text(t) => t.len() > 0 && lacks(t, '<'),
    }
}

/// The node that one span gives.
pub open spec fn node_of(s: Seq<char>, t: SpanTree) -> NodeModel {
    if t.rule == Rule::Element {
        NodeModel::Element(element_of(s, t))
    } else if t.rule == Rule::SelfClosedTag {
        NodeModel::Element(self_closed_of(s, t))
    } else {
        NodeModel::Text(t.text(s))
    }
}

/// Where each of the first `n` children of `t` gives a node, the nodes are
/// those of the children, each at its child's place.
pub proof fn lemma_nodes_in_order(s: Seq<char>, t: SpanTree, n: nat, with_text: bool)
    requires
        n <= t.children.len(),
        forall|k: int| 0 <= k < n ==> gives_node((#[trigger] t.children[k]).rule, with_text),
    ensures
        nodes_of(s, t, n, with_text).len() == n,
        forall|k: int|
            0 <= k < n ==> #[trigger] nodes_of(s, t, n, with_text)[k] == node_of(
                s,
                t.children[k],
            ),
    decreases n,
{
    if n > 0 {
        lemma_nodes_in_order(s, t, (n - 1) as nat, with_text);
    }
}

/// Each item that follows from `i` is what the grammar matches where the
/// item starts, and it starts at or after `i`.
pub proof fn lemma_items_origin(s: Seq<char>, i: int, with_text: bool)
    ensures
        forall|k: int|
            0 <= k < items_from(s, i, with_text).0.len() ==> {
                let c = #[trigger] items_from(s, i, with_text).0[k];
                i <= c.start && item_at(s, c.start, with_text) == Some(c)
            },
    decreases remaining(s, i),
{
    let at = run_end(s, i, CharClass::Whitespace);
    match item_at(s, at, with_text) {
        Some(t) => {
            assert(t.start == at);
            if 0 <= at < t.end <= s.len() {
                lemma_items_origin(s, t.end, with_text);
            }
        },
        None => {},
    }
}

/// Each attribute that follows from `i` is what the grammar matches where
/// the attribute starts.
pub proof fn lemma_attributes_origin(s: Seq<char>, i: int)
    ensures
        forall|k: int|
            0 <= k < attributes_from(s, i).0.len() ==> {
                let c = #[trigger] attributes_from(s, i).0[k];
                attribute_at(s, c.start) == Some(c)
            },
    decreases remaining(s, i),
{
    match attribute_at(s, i) {
        Some(a) => {
            let next = run_end(s, a.end, CharClass::Whitespace);
            if next > a.end {
                lemma_attributes_origin(s, next);
            }
        },
        None => {},
    }
}

/// The attributes of an attribute list that the grammar matched are well
/// formed.
pub proof fn lemma_attribute_list_well_formed(s: Seq<char>, i: int)
    ensures
        attributes_well_formed(
            attributes_of(s, attribute_list_at(s, i), attribute_list_at(s, i).children.len()),
        ),
{
    let list = attribute_list_at(s, i);
    let built = attributes_of(s, list, list.children.len());
    lemma_attributes_kept(s, i);
    lemma_attributes_origin(s, i);
    assert forall|k: int| 0 <= k < built.len() implies is_name((#[trigger] built[k]).0) && lacks(
        built[k].1,
        '"',
    ) by {
        let c = list.children[k];
        assert(c == attributes_from(s, i).0[k]);
        lemma_attribute_parts(s, c.start);
        lemma_run_end(s, c.start + 1, CharClass::Alnum);
    }
}

/// The name and the attributes of a tag that the grammar matched are well
/// formed. `t` is any span over what the head of the tag holds.
pub proof fn lemma_tag_well_formed(s: Seq<char>, i: int, t: SpanTree)
    requires
        tag_head_at(s, i) matches Some(head) && t.children == head.0,
    ensures
        is_name(tag_of(s, t).0),
        attributes_well_formed(tag_of(s, t).1),
{
    let name_end = run_end(s, i + 2, CharClass::Alnum);
    let next = run_end(s, name_end, CharClass::Whitespace);
    lemma_tag_parts(s, i, t);
    lemma_run_end(s, i + 2, CharClass::Alnum);
    if next > name_end {
        lemma_attribute_list_well_formed(s, next);
    }
}

/// The element of an element that the grammar matched is well formed.
pub proof fn lemma_element_well_formed(s: Seq<char>, i: int)
    requires
        element_at(s, i) is Some,
    ensures
        well_formed(NodeModel::Element(element_of(s, element_at(s, i)->0))),
    decreases remaining(s, i), 0int,
{
    let t = element_at(s, i)->0;
    let open = t.children[0];
    let content = t.children[1];
    lemma_element_parts(s, i);
    lemma_tag_well_formed(s, i, open);
    lemma_items_well_formed(s, open.end, true, content);
}

/// The nodes of the items that the grammar matched from `i` are well
/// formed. `t` is any span over those items.
pub proof fn lemma_items_well_formed(s: Seq<char>, i: int, with_text: bool, t: SpanTree)
    requires
        0 <= i,
        t.children == items_from(s, i, with_text).0,
    ensures
        nodes_of(s, t, t.children.len(), with_text).len() == t.children.len(),
        forall|k: int|
            0 <= k < t.children.len() ==> well_formed(
                #[trigger] nodes_of(s, t, t.children.len(), with_text)[k],
            ),
    decreases remaining(s, i), 1int,
{
    let built = nodes_of(s, t, t.children.len(), with_text);
    lemma_items_give_nodes(s, i, with_text);
    lemma_nodes_in_order(s, t, t.children.len(), with_text);
    lemma_items_origin(s, i, with_text);
    assert forall|k: int| 0 <= k < t.children.len() implies well_formed(#[trigger] built[k]) by {
        let c = t.children[k];
        assert(c == items_from(s, i, with_text).0[k]);
        assert(built[k] == node_of(s, c));
        if c.rule == Rule::Element {
            assert(element_at(s, c.start) == Some(c));
            lemma_element_well_formed(s, c.start);
        } else if c.rule == Rule::SelfClosedTag {
            assert(self_closed_tag_at(s, c.start) == Some(c));
            lemma_tag_well_formed(s, c.start, c);
            assert(self_closed_of(s, c).children.len() == 0);
        } else {
            assert(text_at(s, c.start) == Some(c));
            lemma_run_end(s, c.start, CharClass::NotTagStart);
            assert(lacks(c.text(s), '<'));
        }
    }
}

/// Every node of a document is well formed, and so is every node below it.
pub proof fn lemma_document_well_formed(s: Seq<char>)
    ensures
        forall|k: int| 0 <= k < document(s).len() ==> well_formed(#[trigger] document(s)[k]),
{
    let t = elements_at(s, 0);
    lemma_items_well_formed(s, 0, false, t);
}

} // verus!
