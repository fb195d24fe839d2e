//! The matchers: one executable function for each production, proved to
//! return the tree that the grammar gives.

use vstd::prelude::*;
use crate::span::{Rule, Span, SpanTree, all_fit, lemma_trees_push, trees};
use crate::text::{CharClass, char_at_is, letter, scan_run};
use crate::grammar::{
    agrees, attribute_at, attribute_list_at, attributes_from, closing_tag_at, content_at,
    element_at, elements_at, html_at, item_at, items_from, name_at, opening_tag_at,
    production_at, quoted_string_at, remaining, run_at, self_closed_tag_at, tag_head_at,
    text_at, whitespace_at,
};

verus! {

/// Putting `t` behind `done` and before `rest` is putting it before `rest`
/// and all of that behind `done`.
proof fn lemma_move_one(done: Seq<SpanTree>, t: SpanTree, rest: Seq<SpanTree>)
    ensures
        done.push(t) + rest == done + (seq![t] + rest),
        done.push(t) == done + seq![t],
{
    assert(done.push(t) + rest =~= done + (seq![t] + rest));
    assert(done.push(t) =~= done + seq![t]);
}

/// Matching a name of production `rule` at `i`.
fn match_name(chars: &Vec<char>, i: usize, rule: Rule) -> (r: Option<Span>)
    requires
        rule != Rule::QuotedString,
    ensures
        agrees(r, name_at(chars@, i as int, rule), chars@.len() as int),
{
    if i < chars.len() && letter(chars[i]) {
        let end: usize = scan_run(chars, i + 1, CharClass::Alnum);
        Some(Span::new_leaf(rule, i, end))
    } else {
        None
    }
}

/// Matches `identifier` at `i`.
pub fn match_identifier(chars: &Vec<char>, i: usize) -> (r: Option<Span>)
    ensures
        agrees(r, name_at(chars@, i as int, Rule::Identifier), chars@.len() as int),
{
    match_name(chars, i, Rule::Identifier)
}

/// Matches `tag_name` at `i`.
pub fn match_tag_name(chars: &Vec<char>, i: usize) -> (r: Option<Span>)
    ensures
        agrees(r, name_at(chars@, i as int, Rule::TagName), chars@.len() as int),
{
    match_name(chars, i, Rule::TagName)
}

/// Matches `quoted_string` at `i`.
pub fn match_quoted_string(chars: &Vec<char>, i: usize) -> (r: Option<Span>)
    ensures
        agrees(r, quoted_string_at(chars@, i as int), chars@.len() as int),
{
    if char_at_is(chars, i, '"') {
        let close: usize = scan_run(chars, i + 1, CharClass::NotQuote);
        if close < chars.len() {
            return Some(Span::new_leaf(Rule::QuotedString, i, close + 1));
        }
    }
    None
}

/// Matches `attribute` at `i`.
pub fn match_attribute(chars: &Vec<char>, i: usize) -> (r: Option<Span>)
    ensures
        agrees(r, attribute_at(chars@, i as int), chars@.len() as int),
{
    let key = match match_identifier(chars, i) {
        Some(key) => key,
        None => { return None; },
    };
    if !char_at_is(chars, key.end, '=') {
        return None;
    }
    let value = match match_quoted_string(chars, key.end + 1) {
        Some(value) => value,
        None => { return None; },
    };
    let end: usize = value.end;
    let ghost key_tree = key@;
    let ghost value_tree = value@;
    let mut children: Vec<Span> = Vec::new();
    children.push(key);
    children.push(value);
    assert(trees(children@) =~= seq![key_tree, value_tree]);
    Some(Span::new(Rule::Attribute, i, end, children))
}

/// Matches `attribute_list` at `i`.
pub fn match_attribute_list(chars: &Vec<char>, i: usize) -> (span: Span)
    requires
        i <= chars@.len(),
    ensures
        span@ == attribute_list_at(chars@, i as int),
        span@.fits(chars@.len() as int),
{
    let ghost s = chars@;
    let mut children: Vec<Span> = Vec::new();
    let mut pos: usize = i;
    let mut end: usize = i;
    let mut more = true;
    while more
        invariant
            s == chars@,
            i <= pos <= s.len(),
            i <= end <= s.len(),
            all_fit(trees(children@), s.len() as int),
            more ==> attributes_from(s, i as int) == (
                trees(children@) + attributes_from(s, pos as int).0,
                attributes_from(s, pos as int).1,
            ),
            !more ==> attributes_from(s, i as int) == (trees(children@), end as int),
        decreases s.len() - pos, if more { 1int } else { 0int },
    {
        match match_attribute(chars, pos) {
            Some(a) => {
                let a_end: usize = a.end;
                let next: usize = scan_run(chars, a_end, CharClass::Whitespace);
                proof {
                    lemma_trees_push(children@, a);
                    lemma_move_one(
                        trees(children@),
                        a@,
                        attributes_from(s, next as int).0,
                    );
                }
                children.push(a);
                if next > a_end {
                    pos = next;
                } else {
                    end = a_end;
                    more = false;
                }
            },
            None => {
                assert(trees(children@) + Seq::<SpanTree>::empty() =~= trees(children@));
                end = pos;
                more = false;
            },
        }
    }
    Span::new(Rule::AttributeList, i, end, children)
}

/// Matches the head of a tag at `i`: the spans matched, and the position at
/// which the tag's last token must stand.
fn match_tag_head(chars: &Vec<char>, i: usize) -> (r: Option<(Vec<Span>, usize)>)
    ensures
        match r {
            Some((children, at)) => {
                &&& tag_head_at(chars@, i as int) == Some((trees(children@), at as int))
                &&& all_fit(trees(children@), chars@.len() as int)
                &&& i < at <= chars@.len()
            },
            None => tag_head_at(chars@, i as int) is None,
        },
{
    if !char_at_is(chars, i, '<') {
        return None;
    }
    let name = match match_tag_name(chars, i + 1) {
        Some(name) => name,
        None => { return None; },
    };
    let ghost name_tree = name@;
    let name_end: usize = name.end;
    let next: usize = scan_run(chars, name_end, CharClass::Whitespace);
    let mut children: Vec<Span> = Vec::new();
    children.push(name);
    if next > name_end {
        let list = match_attribute_list(chars, next);
        let ghost list_tree = list@;
        let at: usize = list.end;
        children.push(list);
        assert(trees(children@) =~= seq![name_tree, list_tree]);
        Some((children, at))
    } else {
        assert(trees(children@) =~= seq![name_tree]);
        Some((children, next))
    }
}

/// Matches `opening_tag` at `i`.
pub fn match_opening_tag(chars: &Vec<char>, i: usize) -> (r: Option<Span>)
    ensures
        agrees(r, opening_tag_at(chars@, i as int), chars@.len() as int),
        r matches Some(span) ==> i < span.end,
{
    match match_tag_head(chars, i) {
        Some((children, at)) => {
            if char_at_is(chars, at, '>') {
                Some(Span::new(Rule::OpeningTag, i, at + 1, children))
            } else {
                None
            }
        },
        None => None,
    }
}

/// Matches `self_closed_tag` at `i`.
pub fn match_self_closed_tag(chars: &Vec<char>, i: usize) -> (r: Option<Span>)
    ensures
        agrees(r, self_closed_tag_at(chars@, i as int), chars@.len() as int),
{
    match match_tag_head(chars, i) {
        Some((children, at)) => {
            if char_at_is(chars, at, '/') && char_at_is(chars, at + 1, '>') {
                Some(Span::new(Rule::SelfClosedTag, i, at + 2, children))
            } else {
                None
            }
        },
        None => None,
    }
}

/// Matches `closing_tag` at `i`.
pub fn match_closing_tag(chars: &Vec<char>, i: usize) -> (r: Option<Span>)
    ensures
        agrees(r, closing_tag_at(chars@, i as int), chars@.len() as int),
{
    if !(char_at_is(chars, i, '<') && char_at_is(chars, i + 1, '/')) {
        return None;
    }
    let name = match match_tag_name(chars, i + 2) {
        Some(name) => name,
        None => { return None; },
    };
    if !char_at_is(chars, name.end, '>') {
        return None;
    }
    let end: usize = name.end + 1;
    let ghost name_tree = name@;
    let mut children: Vec<Span> = Vec::new();
    children.push(name);
    assert(trees(children@) =~= seq![name_tree]);
    Some(Span::new(Rule::ClosingTag, i, end, children))
}

/// Matches a non-empty run of class `k` at `i`, as a leaf of `rule`.
fn match_run(chars: &Vec<char>, i: usize, k: CharClass, rule: Rule) -> (r: Option<Span>)
    requires
        rule != Rule::QuotedString,
    ensures
        agrees(r, run_at(chars@, i as int, k, rule), chars@.len() as int),
{
    if i >= chars.len() {
        return None;
    }
    let end: usize = scan_run(chars, i, k);
    if end > i {
        Some(Span::new_leaf(rule, i, end))
    } else {
        None
    }
}

/// Matches `text` at `i`.
pub fn match_text(chars: &Vec<char>, i: usize) -> (r: Option<Span>)
    ensures
        agrees(r, text_at(chars@, i as int), chars@.len() as int),
{
    match_run(chars, i, CharClass::NotTagStart, Rule::Text)
}

/// Matches whitespace at `i`.
pub fn match_whitespace(chars: &Vec<char>, i: usize) -> (r: Option<Span>)
    ensures
        agrees(r, whitespace_at(chars@, i as int), chars@.len() as int),
{
    match_run(chars, i, CharClass::Whitespace, Rule::Whitespace)
}

/// Matches `element` at `i`.
pub fn match_element(chars: &Vec<char>, i: usize) -> (r: Option<Span>)
    ensures
        agrees(r, element_at(chars@, i as int), chars@.len() as int),
    decreases remaining(chars@, i as int), 0int,
{
    let open = match match_opening_tag(chars, i) {
        Some(open) => open,
        None => { return None; },
    };
    let open_end: usize = open.end;
    let (items, inner_end) = match_items(chars, open_end, true);
    let close = match match_closing_tag(chars, inner_end) {
        Some(close) => close,
        None => { return None; },
    };
    let end: usize = close.end;
    let content = Span::new(Rule::Content, open_end, inner_end, items);
    assert(content@.fits(chars@.len() as int));
    let ghost open_tree = open@;
    let ghost content_tree = content@;
    let ghost close_tree = close@;
    let mut children: Vec<Span> = Vec::new();
    children.push(open);
    children.push(content);
    children.push(close);
    assert(trees(children@) =~= seq![open_tree, content_tree, close_tree]);
    let span = Span::new(Rule::Element, i, end, children);
    assert(span@.fits(chars@.len() as int));
    assert(element_at(chars@, i as int) == Some(span@));
    Some(span)
}

/// Matches one item at `i`: an element, else a self-closed tag, else, where
/// `with_text` allows it, a text.
pub fn match_item(chars: &Vec<char>, i: usize, with_text: bool) -> (r: Option<Span>)
    ensures
        agrees(r, item_at(chars@, i as int, with_text), chars@.len() as int),
    decreases remaining(chars@, i as int), 1int,
{
    if let Some(e) = match_element(chars, i) {
        return Some(e);
    }
    if let Some(t) = match_self_closed_tag(chars, i) {
        return Some(t);
    }
    if with_text {
        match_text(chars, i)
    } else {
        None
    }
}

/// Matches the items that follow one another from `i`, and says where they
/// end.
pub fn match_items(chars: &Vec<char>, i: usize, with_text: bool) -> (r: (Vec<Span>, usize))
    requires
        i <= chars@.len(),
    ensures
        (trees(r.0@), r.1 as int) == items_from(chars@, i as int, with_text),
        all_fit(trees(r.0@), chars@.len() as int),
        i <= r.1 <= chars@.len(),
    decreases remaining(chars@, i as int), 2int,
{
    let ghost s = chars@;
    let mut items: Vec<Span> = Vec::new();
    let mut pos: usize = i;
    let mut end: usize = i;
    let mut more = true;
    while more
        invariant
            s == chars@,
            i <= pos <= s.len(),
            i <= end <= s.len(),
            all_fit(trees(items@), s.len() as int),
            more ==> items_from(s, i as int, with_text) == (
                trees(items@) + items_from(s, pos as int, with_text).0,
                items_from(s, pos as int, with_text).1,
            ),
            !more ==> items_from(s, i as int, with_text) == (trees(items@), end as int),
        decreases s.len() - pos, if more { 1int } else { 0int },
    {
        let at: usize = scan_run(chars, pos, CharClass::Whitespace);
        match match_item(chars, at, with_text) {
            Some(t) => {
                let t_end: usize = t.end;
                proof {
                    lemma_trees_push(items@, t);
                    lemma_move_one(
                        trees(items@),
                        t@,
                        items_from(s, t_end as int, with_text).0,
                    );
                }
                items.push(t);
                if t_end > at {
                    pos = t_end;
                } else {
                    end = t_end;
                    more = false;
                }
            },
            None => {
                assert(trees(items@) + Seq::<SpanTree>::empty() =~= trees(items@));
                end = at;
                more = false;
            },
        }
    }
    (items, end)
}

/// Matches `content` at `i`.
pub fn match_content(chars: &Vec<char>, i: usize) -> (span: Span)
    requires
        i <= chars@.len(),
    ensures
        span@ == content_at(chars@, i as int),
        span@.fits(chars@.len() as int),
{
    let (items, end) = match_items(chars, i, true);
    Span::new(Rule::Content, i, end, items)
}

/// Matches `elements` at `i`.
pub fn match_elements(chars: &Vec<char>, i: usize) -> (span: Span)
    requires
        i <= chars@.len(),
    ensures
        span@ == elements_at(chars@, i as int),
        span@.fits(chars@.len() as int),
{
    let (items, end) = match_items(chars, i, false);
    Span::new(Rule::Elements, i, end, items)
}

/// Matches `html` at `i`.
pub fn match_html(chars: &Vec<char>, i: usize) -> (span: Span)
    requires
        i <= chars@.len(),
    ensures
        span@ == html_at(chars@, i as int),
        span@.fits(chars@.len() as int),
{
    let elements = match_elements(chars, i);
    let end: usize = elements.end;
    let ghost elements_tree = elements@;
    let mut children: Vec<Span> = Vec::new();
    children.push(elements);
    assert(trees(children@) =~= seq![elements_tree]);
    Span::new(Rule::Html, i, end, children)
}

/// Matches production `rule` at `i`.
pub fn match_production(chars: &Vec<char>, i: usize, rule: Rule) -> (r: Option<Span>)
    requires
        i <= chars@.len(),
    ensures
        agrees(r, production_at(chars@, i as int, rule), chars@.len() as int),
{
    match rule {
        Rule::Html => Some(match_html(chars, i)),
        Rule::Elements => Some(match_elements(chars, i)),
        Rule::Element => match_element(chars, i),
        Rule::OpeningTag => match_opening_tag(chars, i),
        Rule::ClosingTag => match_closing_tag(chars, i),
        Rule::SelfClosedTag => match_self_closed_tag(chars, i),
        Rule::TagName => match_tag_name(chars, i),
        Rule::AttributeList => Some(match_attribute_list(chars, i)),
        Rule::Attribute => match_attribute(chars, i),
        Rule::Identifier => match_identifier(chars, i),
        Rule::QuotedString => match_quoted_string(chars, i),
        Rule::Content => Some(match_content(chars, i)),
        Rule::Text => match_text(chars, i),
        Rule::Whitespace => match_whitespace(chars, i),
        Rule::EndOfInput => {
            if i == chars.len() {
                Some(Span::new_leaf(Rule::EndOfInput, i, i))
            } else {
                None
            }
        },
    }
}

} // verus!
