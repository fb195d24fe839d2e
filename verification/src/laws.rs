//! What holds of every parse: statements that relate the grammar, the span
//! tree and the nodes built from it.

use vstd::prelude::*;
use crate::ast::{Node, models};
use crate::builder::{
    attribute_of, attributes_of, content_nodes_of, document_of, element_of, elements_of, last_of,
    nodes_of, self_closed_of, tag_of,
};
use crate::error::ParseError;
use crate::grammar::{
    attribute_at, attribute_list_at, attributes_from, closing_tag_at, content_at, element_at,
    elements_at, html_at, item_at, items_from, opening_tag_at, remaining, tag_head_at,
};
use crate::parser::{
    accepted, document, failure_of, html_outcome, matches_whole, parse_outcome, rule_named,
};
use crate::span::{Rule, Span, SpanTree};
use crate::text::{CharClass, in_class, is_letter, is_whitespace, lemma_run_end, run_end};

verus! {

/// Whether a span of `rule` gives a node: an element or a self-closed tag
/// does, and a text does where `with_text` says so.
pub open spec fn gives_node(rule: Rule, with_text: bool) -> bool {
    rule == Rule::Element || rule == Rule::SelfClosedTag || (rule == Rule::Text && with_text)
}

/// How many of the first `n` children of `t` give a node.
pub open spec fn count_of(t: SpanTree, n: nat, with_text: bool) -> nat
    decreases n,
{
    if 0 < n <= t.children.len() {
        count_of(t, (n - 1) as nat, with_text) + if gives_node(
            t.children[n - 1].rule,
            with_text,
        ) {
            1nat
        } else {
            0nat
        }
    } else {
        0
    }
}

/// The builder makes one node for each span that gives one: none is dropped
/// and none is made twice.
pub proof fn lemma_one_node_per_span(s: Seq<char>, t: SpanTree, n: nat, with_text: bool)
    ensures
        nodes_of(s, t, n, with_text).len() == count_of(t, n, with_text),
    decreases n,
{
    if 0 < n <= t.children.len() {
        lemma_one_node_per_span(s, t, (n - 1) as nat, with_text);
    }
}

/// Every item that the grammar matches gives a node.
pub proof fn lemma_items_give_nodes(s: Seq<char>, i: int, with_text: bool)
    ensures
        forall|k: int|
            0 <= k < items_from(s, i, with_text).0.len() ==> gives_node(
                (#[trigger] items_from(s, i, with_text).0[k]).rule,
                with_text,
            ),
    decreases remaining(s, i),
{
    let at = run_end(s, i, CharClass::Whitespace);
    match item_at(s, at, with_text) {
        Some(t) => {
            assert(gives_node(t.rule, with_text));
            if 0 <= at < t.end <= s.len() {
                lemma_items_give_nodes(s, t.end, with_text);
            }
        },
        None => {},
    }
}

/// Where every one of the first `n` children of `t` gives a node, there are
/// `n` nodes.
pub proof fn lemma_count_all(t: SpanTree, n: nat, with_text: bool)
    requires
        n <= t.children.len(),
        forall|k: int| 0 <= k < n ==> gives_node((#[trigger] t.children[k]).rule, with_text),
    ensures
        count_of(t, n, with_text) == n,
    decreases n,
{
    if n > 0 {
        lemma_count_all(t, (n - 1) as nat, with_text);
    }
}

/// A document has as many top-level nodes as the grammar matched elements
/// and self-closed tags at the top level.
pub proof fn lemma_document_count(s: Seq<char>)
    ensures
        document(s).len() == count_of(
            elements_at(s, 0),
            elements_at(s, 0).children.len(),
            false,
        ),
        document(s).len() == elements_at(s, 0).children.len(),
{
    let t = elements_at(s, 0);
    lemma_one_node_per_span(s, t, t.children.len(), false);
    lemma_items_give_nodes(s, 0, false);
    lemma_count_all(t, t.children.len(), false);
}

/// Parsing is a function of the input: two results of parsing the same
/// characters agree in success, in the nodes and in the failure.
pub proof fn lemma_parse_html_deterministic(
    s: Seq<char>,
    a: Result<Vec<Node>, ParseError>,
    b: Result<Vec<Node>, ParseError>,
)
    requires
        html_outcome(s, a),
        html_outcome(s, b),
    ensures
        a is Ok <==> b is Ok,
        a is Ok ==> models(a->Ok_0@) == models(b->Ok_0@),
        a matches Err(e) ==> exists|position: int, expected: Seq<Rule>|
            e.is_syntax(position, expected) && b->Err_0.is_syntax(position, expected),
{
    if !accepted(s) {
        let position = failure_of(s, Rule::Html).0;
        let expected = failure_of(s, Rule::Html).1;
        assert(a->Err_0.is_syntax(position, expected) && b->Err_0.is_syntax(position, expected));
    }
}

/// Matching is a function of the production's name and the input: two
/// results for the same name and characters agree in success and in the tree.
pub proof fn lemma_parse_deterministic(
    name: Seq<char>,
    s: Seq<char>,
    a: Result<Span, ParseError>,
    b: Result<Span, ParseError>,
)
    requires
        parse_outcome(name, s, a),
        parse_outcome(name, s, b),
    ensures
        a is Ok <==> b is Ok,
        a is Ok ==> a->Ok_0@ == b->Ok_0@,
        rule_named(name) is None ==> a is Err && b is Err,
{
}

/// The element built from a self-closed tag has no children, whatever the
/// span holds.
pub proof fn lemma_self_closed_has_no_children(s: Seq<char>, t: SpanTree)
    ensures
        self_closed_of(s, t).children.len() == 0,
{
}

/// An attribute that the grammar matched gives the characters of its
/// identifier as the key and the characters between the two quotes as the
/// value; the value holds no quote.
pub proof fn lemma_attribute_parts(s: Seq<char>, i: int)
    requires
        attribute_at(s, i) is Some,
    ensures
        ({
            let a = attribute_at(s, i)->0;
            let key_end = run_end(s, i + 1, CharClass::Alnum);
            let pair = attribute_of(s, a);
            &&& a.rule == Rule::Attribute
            &&& i < key_end
            &&& key_end + 2 < a.end <= s.len()
            &&& pair.0 == s.subrange(i, key_end)
            &&& pair.1 == s.subrange(key_end + 2, a.end - 1)
            &&& s[key_end + 1] == '"'
            &&& s[a.end - 1] == '"'
            &&& forall|k: int| 0 <= k < pair.1.len() ==> #[trigger] pair.1[k] != '"'
        }),
{
    let a = attribute_at(s, i)->0;
    let key_end = run_end(s, i + 1, CharClass::Alnum);
    lemma_run_end(s, i + 1, CharClass::Alnum);
    lemma_run_end(s, key_end + 2, CharClass::NotQuote);
    assert(last_of(a, Rule::QuotedString, 2) == Some(a.children[1]));
    assert(last_of(a, Rule::Identifier, 1) == Some(a.children[0]));
    assert(last_of(a, Rule::Identifier, 2) == Some(a.children[0]));
}

/// The attributes that follow one another are all `attribute` spans.
pub proof fn lemma_attributes_are_attributes(s: Seq<char>, i: int)
    ensures
        forall|k: int|
            0 <= k < attributes_from(s, i).0.len() ==> (#[trigger] attributes_from(
                s,
                i,
            ).0[k]).rule == Rule::Attribute,
    decreases remaining(s, i),
{
    match attribute_at(s, i) {
        Some(a) => {
            let next = run_end(s, a.end, CharClass::Whitespace);
            if next > a.end {
                lemma_attributes_are_attributes(s, next);
            }
        },
        None => {},
    }
}

/// Where the first `n` children of `t` are all `attribute` spans, each gives
/// one attribute, at its own place.
pub proof fn lemma_attributes_in_order(s: Seq<char>, t: SpanTree, n: nat)
    requires
        n <= t.children.len(),
        forall|k: int| 0 <= k < n ==> (#[trigger] t.children[k]).rule == Rule::Attribute,
    ensures
        attributes_of(s, t, n).len() == n,
        forall|k: int|
            0 <= k < n ==> #[trigger] attributes_of(s, t, n)[k] == attribute_of(s, t.children[k]),
    decreases n,
{
    if n > 0 {
        lemma_attributes_in_order(s, t, (n - 1) as nat);
    }
}

/// An attribute list keeps every attribute, in source order: the list built
/// from what the grammar matched has one pair for each `attribute` span, at
/// the same place, and two attributes with one key are both kept.
pub proof fn lemma_attributes_kept(s: Seq<char>, i: int)
    ensures
        ({
            let list = attribute_list_at(s, i);
            let built = attributes_of(s, list, list.children.len());
            &&& built.len() == list.children.len()
            &&& forall|k: int|
                0 <= k < built.len() ==> #[trigger] built[k] == attribute_of(s, list.children[k])
        }),
{
    let list = attribute_list_at(s, i);
    lemma_attributes_are_attributes(s, i);
    lemma_attributes_in_order(s, list, list.children.len());
}

/// The empty input is a document, and it has no nodes.
pub proof fn lemma_empty_document()
    ensures
        accepted(Seq::<char>::empty()),
        document(Seq::<char>::empty()).len() == 0,
{
    let s = Seq::<char>::empty();
    assert(item_at(s, 0, false) is None);
    assert(items_from(s, 0, false) == (Seq::<SpanTree>::empty(), 0int));
}

/// A tag that the grammar matched gives the characters of its tag name as
/// the name, which is not empty, and the attributes of its attribute list,
/// or none where no whitespace follows the name. `t` is any span over what
/// the head of the tag holds: an opening tag or a self-closed tag.
pub proof fn lemma_tag_parts(s: Seq<char>, i: int, t: SpanTree)
    requires
        tag_head_at(s, i) matches Some(head) && t.children == head.0,
    ensures
        ({
            let name_end = run_end(s, i + 2, CharClass::Alnum);
            let next = run_end(s, name_end, CharClass::Whitespace);
            &&& i + 1 < name_end <= s.len()
            &&& tag_of(s, t).0 == s.subrange(i + 1, name_end)
            &&& tag_of(s, t).0.len() > 0
            &&& next > name_end ==> tag_of(s, t).1 == attributes_of(
                s,
                attribute_list_at(s, next),
                attribute_list_at(s, next).children.len(),
            )
            &&& next == name_end ==> tag_of(s, t).1.len() == 0
        }),
{
    let name_end = run_end(s, i + 2, CharClass::Alnum);
    let next = run_end(s, name_end, CharClass::Whitespace);
    lemma_run_end(s, i + 2, CharClass::Alnum);
    assert(last_of(t, Rule::TagName, 1) == Some(t.children[0]));
    if next > name_end {
        assert(last_of(t, Rule::TagName, 2) == Some(t.children[0]));
        assert(last_of(t, Rule::AttributeList, 2) == Some(t.children[1]));
    } else {
        assert(last_of(t, Rule::AttributeList, 0) is None);
        assert(last_of(t, Rule::AttributeList, 1) is None);
    }
}

/// An element that the grammar matched is made of its opening tag, its
/// content and its closing tag; the element built from it has the name and
/// the attributes of the opening tag and the nodes of the content, and the
/// closing tag gives it nothing.
pub proof fn lemma_element_parts(s: Seq<char>, i: int)
    requires
        element_at(s, i) is Some,
    ensures
        ({
            let t = element_at(s, i)->0;
            let built = element_of(s, t);
            &&& t.children.len() == 3
            &&& opening_tag_at(s, i) == Some(t.children[0])
            &&& t.children[1] == content_at(s, t.children[0].end)
            &&& closing_tag_at(s, t.children[1].end) == Some(t.children[2])
            &&& built.tag_name == tag_of(s, t.children[0]).0
            &&& built.attributes == tag_of(s, t.children[0]).1
            &&& built.children == nodes_of(
                s,
                t.children[1],
                t.children[1].children.len(),
                true,
            )
        }),
{
    let t = element_at(s, i)->0;
    assert(last_of(t, Rule::OpeningTag, 1) == Some(t.children[0]));
    assert(last_of(t, Rule::OpeningTag, 2) == Some(t.children[0]));
    assert(last_of(t, Rule::OpeningTag, 3) == Some(t.children[0]));
    assert(content_nodes_of(s, t, 0).len() == 0);
    assert(content_nodes_of(s, t, 1).len() == 0);
    let inner = nodes_of(s, t.children[1], t.children[1].children.len(), true);
    assert(content_nodes_of(s, t, 2) =~= inner);
    assert(content_nodes_of(s, t, 3) =~= inner);
}

/// A run that starts at `i` takes the rest of the input exactly when every
/// character from `i` on is of the class.
pub proof fn lemma_run_to_the_end(s: Seq<char>, i: int, k: CharClass)
    requires
        0 <= i <= s.len(),
    ensures
        run_end(s, i, k) == s.len() <==> forall|j: int| i <= j < s.len() ==> in_class(k, s[j]),
{
    lemma_run_end(s, i, k);
}

/// `identifier` and `tag_name` match the whole of `s` exactly when `s`
/// begins with a letter and holds letters and digits only.
pub proof fn lemma_name_accepts(s: Seq<char>, rule: Rule)
    requires
        rule == Rule::Identifier || rule == Rule::TagName,
    ensures
        matches_whole(s, rule) <==> {
            &&& s.len() > 0
            &&& is_letter(s[0])
            &&& forall|j: int| 1 <= j < s.len() ==> in_class(CharClass::Alnum, s[j])
        },
{
    if s.len() > 0 {
        lemma_run_to_the_end(s, 1, CharClass::Alnum);
    }
}

/// `quoted_string` matches the whole of `s` exactly when `s` begins and
/// ends with a quote, the two being apart, and holds no quote between them.
pub proof fn lemma_quoted_string_accepts(s: Seq<char>)
    ensures
        matches_whole(s, Rule::QuotedString) <==> {
            &&& s.len() >= 2
            &&& s[0] == '"'
            &&& s[s.len() - 1] == '"'
            &&& forall|j: int| 1 <= j < s.len() - 1 ==> s[j] != '"'
        },
{
    if s.len() >= 1 {
        lemma_run_end(s, 1, CharClass::NotQuote);
        let close = run_end(s, 1, CharClass::NotQuote);
        if s.len() >= 2 && s[s.len() - 1] == '"' && (forall|j: int|
            1 <= j < s.len() - 1 ==> s[j] != '"') {
            if close < s.len() - 1 {
                assert(in_class(CharClass::NotQuote, s[close]));
            }
        }
    }
}

/// `text` matches the whole of `s` exactly when `s` is not empty and holds
/// no `<`; whitespace does when `s` is not empty and holds whitespace only.
pub proof fn lemma_run_accepts(s: Seq<char>)
    ensures
        matches_whole(s, Rule::Text) <==> s.len() > 0 && forall|j: int|
            0 <= j < s.len() ==> s[j] != '<',
        matches_whole(s, Rule::Whitespace) <==> s.len() > 0 && forall|j: int|
            0 <= j < s.len() ==> is_whitespace(s[j]),
{
    lemma_run_to_the_end(s, 0, CharClass::NotTagStart);
    lemma_run_to_the_end(s, 0, CharClass::Whitespace);
}

/// Parsing a document is matching the production `html` and building the
/// nodes of its tree: the input is a document exactly when `html` matches
/// the whole of it, and the nodes of the document are those of that tree.
pub proof fn lemma_match_then_build(s: Seq<char>)
    ensures
        accepted(s) <==> matches_whole(s, Rule::Html),
        document(s) == document_of(s, html_at(s, 0), html_at(s, 0).children.len()),
{
    let t = html_at(s, 0);
    assert(t.children.len() == 1);
    assert(document_of(s, t, 0) =~= Seq::empty());
    assert(document_of(s, t, 1) =~= elements_of(s, elements_at(s, 0)));
}

/// The attributes that follow from `i` end at or after `i`, inside the
/// input.
pub proof fn lemma_attributes_extent(s: Seq<char>, i: int)
    requires
        0 <= i <= s.len(),
    ensures
        i <= attributes_from(s, i).1 <= s.len(),
    decreases remaining(s, i),
{
    match attribute_at(s, i) {
        Some(a) => {
            lemma_run_end(s, a.end, CharClass::Whitespace);
            let next = run_end(s, a.end, CharClass::Whitespace);
            if next > a.end {
                lemma_attributes_extent(s, next);
            }
        },
        None => {},
    }
}

/// The head of a tag that the grammar matched at `i` ends after `i`, inside
/// the input.
pub proof fn lemma_tag_head_extent(s: Seq<char>, i: int)
    requires
        tag_head_at(s, i) is Some,
    ensures
        tag_head_at(s, i) matches Some(head) && i + 1 < head.1 <= s.len(),
{
    let name_end = run_end(s, i + 2, CharClass::Alnum);
    lemma_run_end(s, i + 2, CharClass::Alnum);
    lemma_run_end(s, name_end, CharClass::Whitespace);
    let next = run_end(s, name_end, CharClass::Whitespace);
    if next > name_end {
        lemma_attributes_extent(s, next);
    }
}

/// An item that the grammar matched at `i` starts at `i`, is not empty and
/// lies inside the input. So the tests in `element_at` and `items_from` that
/// are there to show that the recursion ends never fail.
pub proof fn lemma_item_extent(s: Seq<char>, i: int, with_text: bool)
    requires
        item_at(s, i, with_text) is Some,
    ensures
        item_at(s, i, with_text) matches Some(t) && t.start == i && 0 <= i < t.end <= s.len(),
        opening_tag_at(s, i) matches Some(open) ==> i < open.end <= s.len(),
    decreases remaining(s, i), 0int,
{
    if tag_head_at(s, i) is Some {
        lemma_tag_head_extent(s, i);
    }
    match opening_tag_at(s, i) {
        Some(open) => {
            lemma_items_extent(s, open.end, true);
        },
        None => {},
    }
    lemma_run_end(s, i, CharClass::NotTagStart);
}

/// The items that follow from `i` end at or after `i`, inside the input.
pub proof fn lemma_items_extent(s: Seq<char>, i: int, with_text: bool)
    requires
        0 <= i <= s.len(),
    ensures
        i <= items_from(s, i, with_text).1 <= s.len(),
    decreases remaining(s, i), 1int,
{
    lemma_run_end(s, i, CharClass::Whitespace);
    let at = run_end(s, i, CharClass::Whitespace);
    match item_at(s, at, with_text) {
        Some(t) => {
            lemma_item_extent(s, at, with_text);
            lemma_items_extent(s, t.end, with_text);
        },
        None => {},
    }
}

} // verus!
