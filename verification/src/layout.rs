//! How a span tree lies on the input: every span covers its children, and
//! the children stand in source order without overlap.

use vstd::prelude::*;
use crate::grammar::{
    attribute_at, attributes_from, closing_tag_at, elements_at, item_at, items_from, name_at,
    node, opening_tag_at, production_at, quoted_string_at, remaining, self_closed_tag_at,
    tag_head_at,
};
use crate::laws::{
    lemma_attributes_extent, lemma_item_extent, lemma_items_extent, lemma_tag_head_extent,
};
use crate::span::{Rule, SpanTree};
use crate::text::{CharClass, lemma_run_end, run_end};

verus! {

/// The span does not end before it starts, its children lie inside it, one
/// after the other in their order, and each child is laid out in this way.
pub open spec fn laid_out(t: SpanTree) -> bool
    decreases t,
{
    &&& t.start <= t.end
    &&& forall|k: int|
        0 <= k < t.children.len() ==> t.start <= (#[trigger] t.children[k]).start
            && t.children[k].end <= t.end && laid_out(t.children[k])
    &&& forall|j: int, k: int|
        0 <= j < k < t.children.len() ==> (#[trigger] t.children[j]).end <= (
        #[trigger] t.children[k]).start
}

/// The spans lie between `from` and `to`, one after the other in their
/// order, and each is laid out.
pub open spec fn in_order(ts: Seq<SpanTree>, from: int, to: int) -> bool {
    &&& forall|k: int|
        0 <= k < ts.len() ==> from <= (#[trigger] ts[k]).start && ts[k].end <= to && laid_out(
            ts[k],
        )
    &&& forall|j: int, k: int|
        0 <= j < k < ts.len() ==> (#[trigger] ts[j]).end <= (#[trigger] ts[k]).start
}

/// A span that is laid out, put before spans that are in order behind it,
/// gives spans in order.
pub proof fn lemma_in_order_cons(a: SpanTree, rest: Seq<SpanTree>, from: int, mid: int, to: int)
    requires
        laid_out(a),
        from <= a.start,
        a.end <= mid <= to,
        in_order(rest, mid, to),
    ensures
        in_order(seq![a] + rest, from, to),
{
    let all = seq![a] + rest;
    assert forall|k: int| 0 <= k < all.len() implies from <= (#[trigger] all[k]).start
        && all[k].end <= to && laid_out(all[k]) by {
        if k > 0 {
            assert(all[k] == rest[k - 1]);
        }
    }
    assert forall|j: int, k: int| 0 <= j < k < all.len() implies (#[trigger] all[j]).end <= (
    #[trigger] all[k]).start by {
        assert(all[k] == rest[k - 1]);
        if j > 0 {
            assert(all[j] == rest[j - 1]);
        }
    }
}

/// An attribute that the grammar matched is laid out and starts where it
/// was matched.
pub proof fn lemma_attribute_layout(s: Seq<char>, i: int)
    requires
        attribute_at(s, i) is Some,
    ensures
        attribute_at(s, i) matches Some(a) && laid_out(a) && a.start == i && i < a.end <= s.len(),
{
    let key = name_at(s, i, Rule::Identifier)->0;
    let value = quoted_string_at(s, key.end + 1)->0;
    assert(laid_out(key));
    assert(laid_out(value));
}

/// The attributes that follow from `i` are in order between `i` and the end
/// of the list.
pub proof fn lemma_attributes_layout(s: Seq<char>, i: int)
    requires
        0 <= i <= s.len(),
    ensures
        in_order(attributes_from(s, i).0, i, attributes_from(s, i).1),
    decreases remaining(s, i),
{
    match attribute_at(s, i) {
        Some(a) => {
            lemma_attribute_layout(s, i);
            lemma_run_end(s, a.end, CharClass::Whitespace);
            let next = run_end(s, a.end, CharClass::Whitespace);
            if next > a.end {
                lemma_attributes_layout(s, next);
                lemma_attributes_extent(s, next);
                lemma_in_order_cons(
                    a,
                    attributes_from(s, next).0,
                    i,
                    next,
                    attributes_from(s, next).1,
                );
            } else {
                lemma_in_order_cons(a, Seq::empty(), i, a.end, a.end);
                assert(seq![a] + Seq::<SpanTree>::empty() =~= seq![a]);
            }
        },
        None => {},
    }
}

/// The spans of a tag head that the grammar matched at `i` are in order
/// between `i` and the place of the tag's last token.
pub proof fn lemma_tag_head_layout(s: Seq<char>, i: int)
    requires
        tag_head_at(s, i) is Some,
    ensures
        tag_head_at(s, i) matches Some(head) && in_order(head.0, i, head.1),
{
    let name = name_at(s, i + 1, Rule::TagName)->0;
    lemma_run_end(s, i + 2, CharClass::Alnum);
    lemma_run_end(s, name.end, CharClass::Whitespace);
    let next = run_end(s, name.end, CharClass::Whitespace);
    assert(laid_out(name));
    if next > name.end {
        lemma_attributes_layout(s, next);
        lemma_attributes_extent(s, next);
    }
}

/// An item that the grammar matched is laid out.
pub proof fn lemma_item_layout(s: Seq<char>, i: int, with_text: bool)
    requires
        item_at(s, i, with_text) is Some,
    ensures
        item_at(s, i, with_text) matches Some(t) && laid_out(t),
        opening_tag_at(s, i) matches Some(open) ==> laid_out(open),
        self_closed_tag_at(s, i) matches Some(tag) ==> laid_out(tag),
    decreases remaining(s, i), 0int,
{
    lemma_item_extent(s, i, with_text);
    lemma_run_end(s, i, CharClass::NotTagStart);
    if tag_head_at(s, i) is Some {
        lemma_tag_head_layout(s, i);
        lemma_tag_head_extent(s, i);
    }
    match opening_tag_at(s, i) {
        Some(open) => {
            assert(laid_out(open));
            lemma_items_layout(s, open.end, true);
            lemma_items_extent(s, open.end, true);
            let inner = items_from(s, open.end, true);
            let content = node(Rule::Content, open.end, inner.1, inner.0);
            assert(laid_out(content));
            match closing_tag_at(s, inner.1) {
                Some(close) => {
                    lemma_closing_tag_layout(s, inner.1);
                    let t = node(Rule::Element, i, close.end, seq![open, content, close]);
                    assert(laid_out(t));
                },
                None => {},
            }
        },
        None => {},
    }
    match self_closed_tag_at(s, i) {
        Some(tag) => {
            assert(laid_out(tag));
        },
        None => {},
    }
}

/// A closing tag that the grammar matched is laid out.
pub proof fn lemma_closing_tag_layout(s: Seq<char>, i: int)
    requires
        closing_tag_at(s, i) is Some,
    ensures
        closing_tag_at(s, i) matches Some(t) && laid_out(t) && t.start == i && i < t.end,
{
    let name = name_at(s, i + 2, Rule::TagName)->0;
    assert(laid_out(name));
}

/// The items that follow from `i` are in order between `i` and the place
/// where they end.
pub proof fn lemma_items_layout(s: Seq<char>, i: int, with_text: bool)
    requires
        0 <= i <= s.len(),
    ensures
        in_order(items_from(s, i, with_text).0, i, items_from(s, i, with_text).1),
    decreases remaining(s, i), 1int,
{
    lemma_run_end(s, i, CharClass::Whitespace);
    let at = run_end(s, i, CharClass::Whitespace);
    match item_at(s, at, with_text) {
        Some(t) => {
            lemma_item_extent(s, at, with_text);
            lemma_item_layout(s, at, with_text);
            lemma_items_layout(s, t.end, with_text);
            lemma_items_extent(s, t.end, with_text);
            lemma_in_order_cons(
                t,
                items_from(s, t.end, with_text).0,
                i,
                t.end,
                items_from(s, t.end, with_text).1,
            );
        },
        None => {},
    }
}

/// Whatever a production matches at the start of the input is laid out.
pub proof fn lemma_production_layout(s: Seq<char>, rule: Rule)
    ensures
        production_at(s, 0, rule) matches Some(t) ==> laid_out(t),
{
    match production_at(s, 0, rule) {
        Some(t) => {
            lemma_run_end(s, 0, CharClass::Whitespace);
            lemma_run_end(s, 0, CharClass::NotTagStart);
            match rule {
                Rule::Html | Rule::Elements => {
                    lemma_items_layout(s, 0, false);
                    lemma_items_extent(s, 0, false);
                    assert(laid_out(elements_at(s, 0)));
                },
                Rule::Content => {
                    lemma_items_layout(s, 0, true);
                    lemma_items_extent(s, 0, true);
                },
                Rule::Element => {
                    lemma_item_layout(s, 0, false);
                },
                Rule::OpeningTag => {
                    lemma_tag_head_layout(s, 0);
                },
                Rule::SelfClosedTag => {
                    lemma_tag_head_layout(s, 0);
                },
                Rule::ClosingTag => {
                    lemma_closing_tag_layout(s, 0);
                },
                Rule::AttributeList => {
                    lemma_attributes_layout(s, 0);
                    lemma_attributes_extent(s, 0);
                },
                Rule::Attribute => {
                    lemma_attribute_layout(s, 0);
                },
                _ => {},
            }
        },
        None => {},
    }
}

} // verus!
