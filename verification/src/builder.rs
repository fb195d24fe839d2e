//! The builder: from a span tree and the input it was matched on to elements
//! and text. It reads a tree by the productions of its spans and passes over
//! the spans it has no use for, so it is defined on every tree that lies
//! inside the input.

use vstd::prelude::*;
use crate::ast::{
    Element, ElementModel, Node, NodeModel, lemma_models_push, lemma_pairs_push, models, pairs,
};
use crate::span::{Rule, Span, SpanTree, lemma_children, trees};
use crate::text::string_of;

verus! {

/// Among the first `n` children of `t`, the last one matched by `rule`.
pub open spec fn last_of(t: SpanTree, rule: Rule, n: nat) -> Option<SpanTree>
    decreases n,
{
    if 0 < n <= t.children.len() {
        if t.children[n - 1].rule == rule {
            Some(t.children[n - 1])
        } else {
            last_of(t, rule, (n - 1) as nat)
        }
    } else {
        None
    }
}

/// The characters a span covers, or none where there is no span.
pub open spec fn text_or_empty(s: Seq<char>, t: Option<SpanTree>) -> Seq<char> {
    match t {
        Some(t) => t.text(s),
        None => Seq::empty(),
    }
}

/// The characters between the two quotes of a quoted string, or none where
/// there is no span.
pub open spec fn unquoted_or_empty(s: Seq<char>, t: Option<SpanTree>) -> Seq<char> {
    match t {
        Some(t) => s.subrange(t.start + 1, t.end - 1),
        None => Seq::empty(),
    }
}

/// The key and the value of an `attribute` span: the text of its identifier
/// and the text of its quoted string without the quotes.
pub open spec fn attribute_of(s: Seq<char>, t: SpanTree) -> (Seq<char>, Seq<char>) {
    (
        text_or_empty(s, last_of(t, Rule::Identifier, t.children.len())),
        unquoted_or_empty(s, last_of(t, Rule::QuotedString, t.children.len())),
    )
}

/// The attributes of the first `n` children of an `attribute_list` span, one
/// for each `attribute` among them, in their order.
pub open spec fn attributes_of(s: Seq<char>, t: SpanTree, n: nat) -> Seq<(Seq<char>, Seq<char>)>
    decreases n,
{
    if 0 < n <= t.children.len() {
        let before = attributes_of(s, t, (n - 1) as nat);
        if t.children[n - 1].rule == Rule::Attribute {
            before.push(attribute_of(s, t.children[n - 1]))
        } else {
            before
        }
    } else {
        Seq::empty()
    }
}

/// The attributes of an `attribute_list` span, or none where there is no span.
pub open spec fn attributes_or_empty(s: Seq<char>, t: Option<SpanTree>) -> Seq<
    (Seq<char>, Seq<char>),
> {
    match t {
        Some(t) => attributes_of(s, t, t.children.len()),
        None => Seq::empty(),
    }
}

/// The name and the attributes that a tag span gives: the text of its tag
/// name and the attributes of its attribute list.
pub open spec fn tag_of(s: Seq<char>, t: SpanTree) -> (Seq<char>, Seq<(Seq<char>, Seq<char>)>) {
    (
        text_or_empty(s, last_of(t, Rule::TagName, t.children.len())),
        attributes_or_empty(s, last_of(t, Rule::AttributeList, t.children.len())),
    )
}

/// The name and the attributes of a tag span, or none where there is no span.
pub open spec fn tag_or_empty(s: Seq<char>, t: Option<SpanTree>) -> (
    Seq<char>,
    Seq<(Seq<char>, Seq<char>)>,
) {
    match t {
        Some(t) => tag_of(s, t),
        None => (Seq::empty(), Seq::empty()),
    }
}

/// The element of a `self_closed_tag` span: its name and attributes, and no
/// children.
pub open spec fn self_closed_of(s: Seq<char>, t: SpanTree) -> ElementModel {
    ElementModel {
        tag_name: tag_of(s, t).0,
        attributes: tag_of(s, t).1,
        children: Seq::empty(),
    }
}

/// The element of an `element` span: name and attributes from its opening
/// tag, children from its content.
pub open spec fn element_of(s: Seq<char>, t: SpanTree) -> ElementModel
    decreases t, t.children.len() + 1,
{
    let tag = tag_or_empty(s, last_of(t, Rule::OpeningTag, t.children.len()));
    ElementModel {
        tag_name: tag.0,
        attributes: tag.1,
        children: content_nodes_of(s, t, t.children.len()),
    }
}

/// The nodes of the `content` spans among the first `n` children of `t`.
pub open spec fn content_nodes_of(s: Seq<char>, t: SpanTree, n: nat) -> Seq<NodeModel>
    decreases t, n,
{
    if 0 < n <= t.children.len() {
        let before = content_nodes_of(s, t, (n - 1) as nat);
        let child = t.children[n - 1];
        if child.rule == Rule::Content {
            before + nodes_of(s, child, child.children.len(), true)
        } else {
            before
        }
    } else {
        Seq::empty()
    }
}

/// The nodes of the first `n` children of `t`, in their order: an element for
/// each `element` and `self_closed_tag` span and, where `with_text` says so,
/// a text for each `text` span.
pub open spec fn nodes_of(s: Seq<char>, t: SpanTree, n: nat, with_text: bool) -> Seq<NodeModel>
    decreases t, n,
{
    if 0 < n <= t.children.len() {
        let before = nodes_of(s, t, (n - 1) as nat, with_text);
        let child = t.children[n - 1];
        if child.rule == Rule::Element {
            before.push(NodeModel::Element(element_of(s, child)))
        } else if child.rule == Rule::SelfClosedTag {
            before.push(NodeModel::Element(self_closed_of(s, child)))
        } else if child.rule == Rule::Text && with_text {
            before.push(NodeModel::Text(child.text(s)))
        } else {
            before
        }
    } else {
        Seq::empty()
    }
}

/// The nodes of an `elements` span.
pub open spec fn elements_of(s: Seq<char>, t: SpanTree) -> Seq<NodeModel> {
    nodes_of(s, t, t.children.len(), false)
}

/// The nodes of the `elements` spans among the first `n` children of an
/// `html` span.
pub open spec fn document_of(s: Seq<char>, t: SpanTree, n: nat) -> Seq<NodeModel>
    decreases n,
{
    if 0 < n <= t.children.len() {
        let before = document_of(s, t, (n - 1) as nat);
        if t.children[n - 1].rule == Rule::Elements {
            before + elements_of(s, t.children[n - 1])
        } else {
            before
        }
    } else {
        Seq::empty()
    }
}

/// The key and the value of an `attribute` span.
pub fn process_attribute(chars: &Vec<char>, span: &Span) -> (r: (String, String))
    requires
        span@.fits(chars@.len() as int),
    ensures
        (r.0@, r.1@) == attribute_of(chars@, span@),
{
    let mut key = String::new();
    let mut value = String::new();
    proof {
        lemma_children(*span);
    }
    let mut k: usize = 0;
    while k < span.children.len()
        invariant
            span@.fits(chars@.len() as int),
            span@.children == trees(span.children@),
            k <= span.children@.len(),
            key@ == text_or_empty(chars@, last_of(span@, Rule::Identifier, k as nat)),
            value@ == unquoted_or_empty(chars@, last_of(span@, Rule::QuotedString, k as nat)),
        decreases span.children@.len() - k,
    {
        let inner = &span.children[k];
        assert(inner@ == span@.children[k as int]);
        assert(inner@.fits(chars@.len() as int));
        match inner.rule {
            Rule::Identifier => {
                key = string_of(chars, inner.start, inner.end);
            },
            Rule::QuotedString => {
                value = string_of(chars, inner.start + 1, inner.end - 1);
            },
            _ => {},
        }
        k += 1;
    }
    (key, value)
}

/// The attributes of an `attribute_list` span, in source order.
pub fn process_attributes(chars: &Vec<char>, span: &Span) -> (attributes: Vec<(String, String)>)
    requires
        span@.fits(chars@.len() as int),
    ensures
        pairs(attributes@) == attributes_of(chars@, span@, span@.children.len()),
{
    let mut attributes: Vec<(String, String)> = Vec::new();
    proof {
        lemma_children(*span);
        assert(pairs(attributes@) =~= Seq::empty());
    }
    let mut k: usize = 0;
    while k < span.children.len()
        invariant
            span@.fits(chars@.len() as int),
            span@.children == trees(span.children@),
            k <= span.children@.len(),
            pairs(attributes@) == attributes_of(chars@, span@, k as nat),
        decreases span.children@.len() - k,
    {
        let inner = &span.children[k];
        assert(inner@ == span@.children[k as int]);
        assert(inner@.fits(chars@.len() as int));
        if inner.rule == Rule::Attribute {
            let (key, value) = process_attribute(chars, inner);
            proof {
                lemma_pairs_push(attributes@, key, value);
            }
            attributes.push((key, value));
        }
        k += 1;
    }
    attributes
}

/// The name and the attributes of a tag span.
pub fn process_opening_tag(chars: &Vec<char>, span: &Span) -> (r: (String, Vec<(String, String)>))
    requires
        span@.fits(chars@.len() as int),
    ensures
        (r.0@, pairs(r.1@)) == tag_of(chars@, span@),
{
    let mut tag_name = String::new();
    let mut attributes: Vec<(String, String)> = Vec::new();
    proof {
        lemma_children(*span);
        assert(pairs(attributes@) =~= Seq::empty());
    }
    let mut k: usize = 0;
    while k < span.children.len()
        invariant
            span@.fits(chars@.len() as int),
            span@.children == trees(span.children@),
            k <= span.children@.len(),
            tag_name@ == text_or_empty(chars@, last_of(span@, Rule::TagName, k as nat)),
            pairs(attributes@) == attributes_or_empty(
                chars@,
                last_of(span@, Rule::AttributeList, k as nat),
            ),
        decreases span.children@.len() - k,
    {
        let inner = &span.children[k];
        assert(inner@ == span@.children[k as int]);
        assert(inner@.fits(chars@.len() as int));
        match inner.rule {
            Rule::TagName => {
                tag_name = string_of(chars, inner.start, inner.end);
            },
            Rule::AttributeList => {
                attributes = process_attributes(chars, inner);
            },
            _ => {},
        }
        k += 1;
    }
    (tag_name, attributes)
}

/// The element of a `self_closed_tag` span. It has no children.
pub fn process_self_closed_tag(chars: &Vec<char>, span: &Span) -> (element: Element)
    requires
        span@.fits(chars@.len() as int),
    ensures
        element@ == self_closed_of(chars@, span@),
        element@.children.len() == 0,
{
    let (tag_name, attributes) = process_opening_tag(chars, span);
    let children: Vec<Node> = Vec::new();
    assert(models(children@) =~= Seq::empty());
    Element::new(tag_name, attributes, children)
}

/// The element of an `element` span.
pub fn process_element(chars: &Vec<char>, span: &Span) -> (element: Element)
    requires
        span@.fits(chars@.len() as int),
    ensures
        element@ == element_of(chars@, span@),
    decreases span@, 1int,
{
    let mut tag_name = String::new();
    let mut attributes: Vec<(String, String)> = Vec::new();
    let mut children: Vec<Node> = Vec::new();
    proof {
        lemma_children(*span);
        assert(pairs(attributes@) =~= Seq::empty());
        assert(models(children@) =~= Seq::empty());
    }
    let mut k: usize = 0;
    while k < span.children.len()
        invariant
            span@.fits(chars@.len() as int),
            span@.children == trees(span.children@),
            k <= span.children@.len(),
            (tag_name@, pairs(attributes@)) == tag_or_empty(
                chars@,
                last_of(span@, Rule::OpeningTag, k as nat),
            ),
            models(children@) == content_nodes_of(chars@, span@, k as nat),
        decreases span.children@.len() - k,
    {
        let inner = &span.children[k];
        assert(inner@ == span@.children[k as int]);
        assert(inner@.fits(chars@.len() as int));
        match inner.rule {
            Rule::OpeningTag => {
                let (name, attrs) = process_opening_tag(chars, inner);
                tag_name = name;
                attributes = attrs;
            },
            Rule::Content => {
                collect_nodes(chars, inner, true, &mut children);
            },
            _ => {},
        }
        k += 1;
    }
    Element::new(tag_name, attributes, children)
}

/// Appends to `out` the nodes of the children of `span`.
pub fn collect_nodes(chars: &Vec<char>, span: &Span, with_text: bool, out: &mut Vec<Node>)
    requires
        span@.fits(chars@.len() as int),
    ensures
        models(final(out)@) == models(old(out)@) + nodes_of(
            chars@,
            span@,
            span@.children.len(),
            with_text,
        ),
    decreases span@, 0int,
{
    proof {
        lemma_children(*span);
        assert(models(out@) + Seq::<NodeModel>::empty() =~= models(out@));
    }
    let ghost before = models(out@);
    let mut k: usize = 0;
    while k < span.children.len()
        invariant
            span@.fits(chars@.len() as int),
            span@.children == trees(span.children@),
            k <= span.children@.len(),
            models(out@) == before + nodes_of(chars@, span@, k as nat, with_text),
        decreases span.children@.len() - k,
    {
        let inner = &span.children[k];
        assert(inner@ == span@.children[k as int]);
        assert(inner@.fits(chars@.len() as int));
        let ghost so_far = nodes_of(chars@, span@, k as nat, with_text);
        match inner.rule {
            Rule::Element => {
                let node = Node::Element(process_element(chars, inner));
                proof {
                    lemma_models_push(out@, node);
                    assert((before + so_far).push(node@) =~= before + so_far.push(node@));
                }
                out.push(node);
            },
            Rule::SelfClosedTag => {
                let node = Node::Element(process_self_closed_tag(chars, inner));
                proof {
                    lemma_models_push(out@, node);
                    assert((before + so_far).push(node@) =~= before + so_far.push(node@));
                }
                out.push(node);
            },
            Rule::Text => {
                if with_text {
                    let node = Node::Text(string_of(chars, inner.start, inner.end));
                    proof {
                        lemma_models_push(out@, node);
                        assert((before + so_far).push(node@) =~= before + so_far.push(node@));
                    }
                    out.push(node);
                }
            },
            _ => {},
        }
        k += 1;
    }
}

/// The nodes of an `elements` span, in source order.
pub fn process_elements(chars: &Vec<char>, span: &Span) -> (nodes: Vec<Node>)
    requires
        span@.fits(chars@.len() as int),
    ensures
        models(nodes@) == elements_of(chars@, span@),
{
    let mut nodes: Vec<Node> = Vec::new();
    assert(models(nodes@) =~= Seq::empty());
    collect_nodes(chars, span, false, &mut nodes);
    assert(Seq::<NodeModel>::empty() + elements_of(chars@, span@) =~= elements_of(chars@, span@));
    nodes
}

/// The nodes of an `html` span: those of the `elements` spans in it.
pub fn process_html(chars: &Vec<char>, span: &Span) -> (nodes: Vec<Node>)
    requires
        span@.fits(chars@.len() as int),
    ensures
        models(nodes@) == document_of(chars@, span@, span@.children.len()),
{
    let mut nodes: Vec<Node> = Vec::new();
    proof {
        lemma_children(*span);
        assert(models(nodes@) =~= Seq::empty());
    }
    let mut k: usize = 0;
    while k < span.children.len()
        invariant
            span@.fits(chars@.len() as int),
            span@.children == trees(span.children@),
            k <= span.children@.len(),
            models(nodes@) == document_of(chars@, span@, k as nat),
        decreases span.children@.len() - k,
    {
        let inner = &span.children[k];
        assert(inner@ == span@.children[k as int]);
        assert(inner@.fits(chars@.len() as int));
        if inner.rule == Rule::Elements {
            collect_nodes(chars, inner, false, &mut nodes);
        }
        k += 1;
    }
    nodes
}

} // verus!
