//! The document tree: elements with their attributes and children, and text.

use vstd::prelude::*;

verus! {

/// The mathematical form of an element.
pub struct ElementModel {
    pub tag_name: Seq<char>,
    pub attributes: Seq<(Seq<char>, Seq<char>)>,
    pub children: Seq<NodeModel>,
}

/// The mathematical form of a node.
pub enum NodeModel {
    Element(ElementModel),
    Text(Seq<char>),
}

/// One element: its name, its attributes in source order (a key may occur
/// more than once), and its children in source order.
#[derive(Debug, PartialEq, Eq)]
pub struct Element {
    pub tag_name: String,
    pub attributes: Vec<(String, String)>,
    pub children: Vec<Node>,
}

/// An element, or a run of text kept as it stands in the input.
#[derive(Debug, PartialEq, Eq)]
pub enum Node {
    Element(Element),
    Text(String),
}

/// The attributes as pairs of character sequences.
pub open spec fn pairs(attributes: Seq<(String, String)>) -> Seq<(Seq<char>, Seq<char>)> {
    Seq::new(attributes.len(), |i: int| (attributes[i].0@, attributes[i].1@))
}

/// The model of an element: its name and attributes, over the models of its
/// children.
pub open spec fn element_model(e: Element) -> ElementModel
    decreases e, e.children@.len() + 1,
{
    ElementModel {
        tag_name: e.tag_name@,
        attributes: pairs(e.attributes@),
        children: first_models(e, e.children@.len()),
    }
}

/// The models of the first `n` children of `e`.
pub open spec fn first_models(e: Element, n: nat) -> Seq<NodeModel>
    decreases e, n,
{
    if 0 < n <= e.children@.len() {
        first_models(e, (n - 1) as nat).push(node_model(e.children@[n - 1]))
    } else {
        Seq::empty()
    }
}

/// The model of a node.
pub open spec fn node_model(n: Node) -> NodeModel
    decreases n, 0nat,
{
    match n {
        Node::Element(e) => NodeModel::Element(element_model(e)),
        Node::Text(t) => NodeModel::Text(t@),
    }
}

impl View for Element {
    type V = ElementModel;

    open spec fn view(&self) -> ElementModel {
        element_model(*self)
    }
}

impl View for Node {
    type V = NodeModel;

    open spec fn view(&self) -> NodeModel {
        node_model(*self)
    }
}

/// The models of a sequence of nodes.
pub open spec fn models(nodes: Seq<Node>) -> Seq<NodeModel> {
    Seq::new(nodes.len(), |i: int| nodes[i]@)
}

/// The models of the first `n` children, counted one by one, are the first
/// `n` of the models of the children.
proof fn lemma_first_models(e: Element, n: nat)
    requires
        n <= e.children@.len(),
    ensures
        first_models(e, n) == models(e.children@).take(n as int),
    decreases n,
{
    if n > 0 {
        lemma_first_models(e, (n - 1) as nat);
    }
    assert(first_models(e, n) =~= models(e.children@).take(n as int));
}

/// The children of an element's model are the models of its children.
pub proof fn lemma_element_children(e: Element)
    ensures
        e@.children == models(e.children@),
{
    lemma_first_models(e, e.children@.len());
    assert(models(e.children@).take(e.children@.len() as int) =~= models(e.children@));
}

/// Pushing a node pushes its model.
pub proof fn lemma_models_push(nodes: Seq<Node>, node: Node)
    ensures
        models(nodes.push(node)) == models(nodes).push(node@),
{
    assert(models(nodes.push(node)) =~= models(nodes).push(node@));
}

/// Pushing an attribute pushes its pair.
pub proof fn lemma_pairs_push(attributes: Seq<(String, String)>, key: String, value: String)
    ensures
        pairs(attributes.push((key, value))) == pairs(attributes).push((key@, value@)),
{
    assert(pairs(attributes.push((key, value))) =~= pairs(attributes).push((key@, value@)));
}

impl Element {
    /// An element of the given parts.
    pub fn new(tag_name: String, attributes: Vec<(String, String)>, children: Vec<Node>) -> (e:
        Element)
        ensures
            e@ == (ElementModel {
                tag_name: tag_name@,
                attributes: pairs(attributes@),
                children: models(children@),
            }),
    {
        let e = Element { tag_name, attributes, children };
        proof {
            lemma_element_children(e);
        }
        e
    }
}

} // verus!
