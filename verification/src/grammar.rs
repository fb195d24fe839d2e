//! The grammar. Each production is a spec function from an input and a
//! position to the span tree that the production matches there, and an
//! executable matcher that computes exactly that tree.
//!
//! Choices are ordered and repetitions are greedy, so an input has at most
//! one tree. Whitespace separates attributes and may stand before the end of
//! a tag head, between the items of a content and around top-level elements;
//! it is no item of its own. A closing tag's name is not compared with the
//! opening tag's.

use vstd::prelude::*;
use crate::span::{Rule, Span, SpanTree, leaf};
use crate::text::{CharClass, has_char, is_letter, run_end};

verus! {

/// How many characters of `s` stand at and after `i`.
pub open spec fn remaining(s: Seq<char>, i: int) -> nat {
    if 0 <= i <= s.len() {
        (s.len() - i) as nat
    } else {
        0
    }
}

/// A span over `children`.
pub open spec fn node(rule: Rule, start: int, end: int, children: Seq<SpanTree>) -> SpanTree {
    SpanTree { rule, start, end, children }
}

/// `identifier` and `tag_name`: a letter, then letters and digits.
pub open spec fn name_at(s: Seq<char>, i: int, rule: Rule) -> Option<SpanTree> {
    if 0 <= i < s.len() && is_letter(s[i]) {
        Some(leaf(rule, i, run_end(s, i + 1, CharClass::Alnum)))
    } else {
        None
    }
}

/// `quoted_string`: a `"`, any characters but `"`, and a `"`.
pub open spec fn quoted_string_at(s: Seq<char>, i: int) -> Option<SpanTree> {
    let close = run_end(s, i + 1, CharClass::NotQuote);
    if has_char(s, i, '"') && close < s.len() {
        Some(leaf(Rule::QuotedString, i, close + 1))
    } else {
        None
    }
}

/// `attribute`: an identifier, `=`, and a quoted string, with nothing between.
pub open spec fn attribute_at(s: Seq<char>, i: int) -> Option<SpanTree> {
    match name_at(s, i, Rule::Identifier) {
        Some(key) => if has_char(s, key.end, '=') {
            match quoted_string_at(s, key.end + 1) {
                Some(value) => Some(node(Rule::Attribute, i, value.end, seq![key, value])),
                None => None,
            }
        } else {
            None
        },
        None => None,
    }
}

/// The attributes that follow one another from `i`, each parted from the
/// next by whitespace, and where the list ends: behind the whitespace that
/// follows the last attribute.
pub open spec fn attributes_from(s: Seq<char>, i: int) -> (Seq<SpanTree>, int)
    decreases remaining(s, i),
{
    match attribute_at(s, i) {
        Some(a) => {
            let next = run_end(s, a.end, CharClass::Whitespace);
            if next > a.end {
                let rest = attributes_from(s, next);
                (seq![a] + rest.0, rest.1)
            } else {
                (seq![a], a.end)
            }
        },
        None => (Seq::empty(), i),
    }
}

/// `attribute_list`: zero or more attributes; it matches everywhere.
pub open spec fn attribute_list_at(s: Seq<char>, i: int) -> SpanTree {
    node(Rule::AttributeList, i, attributes_from(s, i).1, attributes_from(s, i).0)
}

/// What an opening tag and a self-closed tag share: `<`, the tag name and,
/// behind whitespace, the attribute list. Gives the spans matched and the
/// position at which the tag's last token must stand.
pub open spec fn tag_head_at(s: Seq<char>, i: int) -> Option<(Seq<SpanTree>, int)> {
    if has_char(s, i, '<') {
        match name_at(s, i + 1, Rule::TagName) {
            Some(name) => {
                let next = run_end(s, name.end, CharClass::Whitespace);
                if next > name.end {
                    let list = attribute_list_at(s, next);
                    Some((seq![name, list], list.end))
                } else {
                    Some((seq![name], next))
                }
            },
            None => None,
        }
    } else {
        None
    }
}

/// `opening_tag`: a tag head and `>`.
pub open spec fn opening_tag_at(s: Seq<char>, i: int) -> Option<SpanTree> {
    match tag_head_at(s, i) {
        Some((children, at)) => if has_char(s, at, '>') {
            Some(node(Rule::OpeningTag, i, at + 1, children))
        } else {
            None
        },
        None => None,
    }
}

/// `self_closed_tag`: a tag head and `/>`.
pub open spec fn self_closed_tag_at(s: Seq<char>, i: int) -> Option<SpanTree> {
    match tag_head_at(s, i) {
        Some((children, at)) => if has_char(s, at, '/') && has_char(s, at + 1, '>') {
            Some(node(Rule::SelfClosedTag, i, at + 2, children))
        } else {
            None
        },
        None => None,
    }
}

/// `closing_tag`: `</`, a tag name and `>`, with nothing between.
pub open spec fn closing_tag_at(s: Seq<char>, i: int) -> Option<SpanTree> {
    if has_char(s, i, '<') && has_char(s, i + 1, '/') {
        match name_at(s, i + 2, Rule::TagName) {
            Some(name) => if has_char(s, name.end, '>') {
                Some(node(Rule::ClosingTag, i, name.end + 1, seq![name]))
            } else {
                None
            },
            None => None,
        }
    } else {
        None
    }
}

/// A non-empty run of characters of class `k`, as a leaf of `rule`.
pub open spec fn run_at(s: Seq<char>, i: int, k: CharClass, rule: Rule) -> Option<SpanTree> {
    if 0 <= i && run_end(s, i, k) > i {
        Some(leaf(rule, i, run_end(s, i, k)))
    } else {
        None
    }
}

/// `text`: one or more characters up to the next `<`.
pub open spec fn text_at(s: Seq<char>, i: int) -> Option<SpanTree> {
    run_at(s, i, CharClass::NotTagStart, Rule::Text)
}

/// Whitespace: one or more of space, tab, carriage return and newline.
pub open spec fn whitespace_at(s: Seq<char>, i: int) -> Option<SpanTree> {
    run_at(s, i, CharClass::Whitespace, Rule::Whitespace)
}

/// `element`: an opening tag, a content and a closing tag. (An opening tag
/// is never empty: the test on its end only shows that the recursion ends.)
pub open spec fn element_at(s: Seq<char>, i: int) -> Option<SpanTree>
    decreases remaining(s, i), 0int,
{
    match opening_tag_at(s, i) {
        Some(open) => if i < open.end {
            let inner = items_from(s, open.end, true);
            match closing_tag_at(s, inner.1) {
                Some(close) => Some(
                    node(
                        Rule::Element,
                        i,
                        close.end,
                        seq![open, node(Rule::Content, open.end, inner.1, inner.0), close],
                    ),
                ),
                None => None,
            }
        } else {
            None
        },
        None => None,
    }
}

/// One item at `i`: an element, else a self-closed tag, else, where
/// `with_text` allows it, a text.
pub open spec fn item_at(s: Seq<char>, i: int, with_text: bool) -> Option<SpanTree>
    decreases remaining(s, i), 1int,
{
    match element_at(s, i) {
        Some(e) => Some(e),
        None => match self_closed_tag_at(s, i) {
            Some(t) => Some(t),
            None => if with_text {
                text_at(s, i)
            } else {
                None
            },
        },
    }
}

/// The items that follow one another from `i`, whitespace before each left
/// out, and where they end: behind the whitespace that follows the last.
/// (An item is never empty and never leaves the input: the test on its end
/// only shows that the recursion ends.)
pub open spec fn items_from(s: Seq<char>, i: int, with_text: bool) -> (Seq<SpanTree>, int)
    decreases remaining(s, i), 2int,
{
    let at = run_end(s, i, CharClass::Whitespace);
    match item_at(s, at, with_text) {
        Some(t) => if 0 <= at < t.end <= s.len() {
            let rest = items_from(s, t.end, with_text);
            (seq![t] + rest.0, rest.1)
        } else {
            (seq![t], t.end)
        },
        None => (Seq::empty(), at),
    }
}

/// `content`: elements, self-closed tags and texts; it matches everywhere.
pub open spec fn content_at(s: Seq<char>, i: int) -> SpanTree {
    node(Rule::Content, i, items_from(s, i, true).1, items_from(s, i, true).0)
}

/// `elements`: elements and self-closed tags; it matches everywhere.
pub open spec fn elements_at(s: Seq<char>, i: int) -> SpanTree {
    node(Rule::Elements, i, items_from(s, i, false).1, items_from(s, i, false).0)
}

/// `html`: one `elements`, with the whitespace around it.
pub open spec fn html_at(s: Seq<char>, i: int) -> SpanTree {
    node(Rule::Html, i, elements_at(s, i).end, seq![elements_at(s, i)])
}

/// The tree that production `rule` matches at `i`, if it matches.
pub open spec fn production_at(s: Seq<char>, i: int, rule: Rule) -> Option<SpanTree> {
    match rule {
        Rule::Html => Some(html_at(s, i)),
        Rule::Elements => Some(elements_at(s, i)),
        Rule::Element => element_at(s, i),
        Rule::OpeningTag => opening_tag_at(s, i),
        Rule::ClosingTag => closing_tag_at(s, i),
        Rule::SelfClosedTag => self_closed_tag_at(s, i),
        Rule::TagName => name_at(s, i, Rule::TagName),
        Rule::AttributeList => Some(attribute_list_at(s, i)),
        Rule::Attribute => attribute_at(s, i),
        Rule::Identifier => name_at(s, i, Rule::Identifier),
        Rule::QuotedString => quoted_string_at(s, i),
        Rule::Content => Some(content_at(s, i)),
        Rule::Text => text_at(s, i),
        Rule::Whitespace => whitespace_at(s, i),
        Rule::EndOfInput => if i == s.len() {
            Some(leaf(Rule::EndOfInput, i, i))
        } else {
            None
        },
    }
}

/// What a matcher owes: the span whose tree is `t`, lying inside an input of
/// `len` characters, or no span where `t` is none.
pub open spec fn agrees(r: Option<Span>, t: Option<SpanTree>, len: int) -> bool {
    match r {
        Some(span) => t == Some(span@) && span@.fits(len),
        None => t is None,
    }
}

} // verus!
