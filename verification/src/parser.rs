//! The two entry points: matching a whole input against one production, and
//! parsing a whole document into its nodes.

use vstd::prelude::*;
use crate::ast::{Node, NodeModel, models};
use crate::builder::{elements_of, process_html};
use crate::error::ParseError;
use crate::grammar::{
    closing_tag_at, elements_at, items_from, opening_tag_at, production_at, remaining,
};
use crate::invariants::{lemma_document_well_formed, well_formed};
use crate::laws::{lemma_document_count, lemma_match_then_build};
use crate::layout::{laid_out, lemma_production_layout};
use crate::matcher::{match_closing_tag, match_items, match_opening_tag, match_production};
use crate::span::{Rule, Span, rule_name};
use crate::text::to_chars;

verus! {

/// The production of the given name, if there is one.
pub open spec fn rule_named(name: Seq<char>) -> Option<Rule> {
    if name == rule_name(Rule::Html) {
        Some(Rule::Html)
    } else if name == rule_name(Rule::Elements) {
        Some(Rule::Elements)
    } else if name == rule_name(Rule::Element) {
        Some(Rule::Element)
    } else if name == rule_name(Rule::OpeningTag) {
        Some(Rule::OpeningTag)
    } else if name == rule_name(Rule::ClosingTag) {
        Some(Rule::ClosingTag)
    } else if name == rule_name(Rule::SelfClosedTag) {
        Some(Rule::SelfClosedTag)
    } else if name == rule_name(Rule::TagName) {
        Some(Rule::TagName)
    } else if name == rule_name(Rule::AttributeList) {
        Some(Rule::AttributeList)
    } else if name == rule_name(Rule::Attribute) {
        Some(Rule::Attribute)
    } else if name == rule_name(Rule::Identifier) {
        Some(Rule::Identifier)
    } else if name == rule_name(Rule::QuotedString) {
        Some(Rule::QuotedString)
    } else if name == rule_name(Rule::Content) {
        Some(Rule::Content)
    } else if name == rule_name(Rule::Text) {
        Some(Rule::Text)
    } else if name == rule_name(Rule::Whitespace) {
        Some(Rule::Whitespace)
    } else if name == rule_name(Rule::EndOfInput) {
        Some(Rule::EndOfInput)
    } else {
        None
    }
}

/// What may stand where a match of `rule` ended before the end of the input:
/// one more of what the production repeats, or the end of the input.
pub open spec fn expected_after(rule: Rule) -> Seq<Rule> {
    match rule {
        Rule::Html | Rule::Elements => seq![Rule::Element, Rule::SelfClosedTag, Rule::EndOfInput],
        Rule::Content => seq![Rule::Element, Rule::SelfClosedTag, Rule::Text, Rule::EndOfInput],
        Rule::AttributeList => seq![Rule::Attribute, Rule::EndOfInput],
        _ => seq![Rule::EndOfInput],
    }
}

/// What may stand where the items of a content ended and its element was
/// not closed.
pub open spec fn expected_in_content() -> Seq<Rule> {
    seq![Rule::Element, Rule::SelfClosedTag, Rule::Text, Rule::ClosingTag]
}

/// Where matching gave up, seen from a place `i` at which no item matched
/// and `expected` had to begin. Where an opening tag stands at `i`, the
/// element that it opens was not closed: matching gave up where the content
/// of that element ended, or further inside it. Else it gave up at `i`.
pub open spec fn stuck_at(s: Seq<char>, i: int, expected: Seq<Rule>) -> (int, Seq<Rule>)
    decreases remaining(s, i),
{
    match opening_tag_at(s, i) {
        Some(open) => {
            let inner_end = items_from(s, open.end, true).1;
            if i < inner_end && closing_tag_at(s, inner_end) is None {
                stuck_at(s, inner_end, expected_in_content())
            } else {
                (i, expected)
            }
        },
        None => (i, expected),
    }
}

/// Where matching the whole of `s` against `rule` fails, and what had to
/// begin there. A production that repeats items stops where no item
/// matches, and so does an element that is not closed: the failure lies
/// where `stuck_at` finds it. Any other production fails at its end where
/// it matches and the input goes on, and at the start where it does not.
pub open spec fn failure_of(s: Seq<char>, rule: Rule) -> (int, Seq<Rule>) {
    match production_at(s, 0, rule) {
        Some(t) => match rule {
            Rule::Html | Rule::Elements | Rule::Content => stuck_at(
                s,
                t.end,
                expected_after(rule),
            ),
            _ => (t.end, expected_after(rule)),
        },
        None => match rule {
            Rule::Element => stuck_at(s, 0, seq![rule]),
            _ => (0, seq![rule]),
        },
    }
}

/// Whether `rule` matches the whole of `s`.
pub open spec fn matches_whole(s: Seq<char>, rule: Rule) -> bool {
    production_at(s, 0, rule) matches Some(t) && t.end == s.len()
}

/// What matching the whole of `s` against `rule` owes: the tree of the
/// production where it matches all of `s`, and else the syntax failure
/// that `failure_of` describes.
pub open spec fn rule_outcome(s: Seq<char>, rule: Rule, r: Result<Span, ParseError>) -> bool {
    if matches_whole(s, rule) {
        r matches Ok(span) && Some(span@) == production_at(s, 0, rule) && span@.fits(
            s.len() as int,
        )
    } else {
        r matches Err(e) && e.is_syntax(failure_of(s, rule).0, failure_of(s, rule).1)
    }
}

/// What `parse` owes: the outcome of the production that `name` names, or
/// the failure to find one.
pub open spec fn parse_outcome(name: Seq<char>, s: Seq<char>, r: Result<Span, ParseError>) -> bool {
    match rule_named(name) {
        Some(rule) => rule_outcome(s, rule, r),
        None => r matches Err(e) && e.is_unknown_rule(name),
    }
}

/// Whether `s` is a document: the top-level elements, with the whitespace
/// around them, are all of it.
pub open spec fn accepted(s: Seq<char>) -> bool {
    elements_at(s, 0).end == s.len()
}

/// The nodes of the document `s`.
pub open spec fn document(s: Seq<char>) -> Seq<NodeModel> {
    elements_of(s, elements_at(s, 0))
}

/// What `parse_html` owes: the nodes of the document where `s` is one, and
/// else the syntax failure of the production `html`.
pub open spec fn html_outcome(s: Seq<char>, r: Result<Vec<Node>, ParseError>) -> bool {
    if accepted(s) {
        r matches Ok(nodes) && models(nodes@) == document(s)
    } else {
        r matches Err(e) && e.is_syntax(failure_of(s, Rule::Html).0, failure_of(s, Rule::Html).1)
    }
}

/// Whether two vectors hold the same characters.
pub fn same_chars(a: &Vec<char>, b: &Vec<char>) -> (same: bool)
    ensures
        same == (a@ == b@),
{
    if a.len() != b.len() {
        return false;
    }
    let mut k: usize = 0;
    while k < a.len()
        invariant
            a@.len() == b@.len(),
            k <= a@.len(),
            a@.take(k as int) == b@.take(k as int),
        decreases a@.len() - k,
    {
        if a[k] != b[k] {
            return false;
        }
        k += 1;
        assert(a@.take(k as int) =~= a@.take(k - 1).push(a@[k - 1]));
        assert(b@.take(k as int) =~= b@.take(k - 1).push(b@[k - 1]));
    }
    assert(a@ =~= a@.take(k as int));
    assert(b@ =~= b@.take(k as int));
    true
}

/// Whether `name` is the name of `rule`.
fn names(name: &Vec<char>, rule: Rule) -> (r: bool)
    ensures
        r == (name@ == rule_name(rule)),
{
    let other = to_chars(rule.name());
    same_chars(name, &other)
}

/// The production of the given name, if there is one.
pub fn rule_by_name(name: &str) -> (r: Option<Rule>)
    ensures
        r == rule_named(name@),
{
    let n = to_chars(name);
    if names(&n, Rule::Html) {
        Some(Rule::Html)
    } else if names(&n, Rule::Elements) {
        Some(Rule::Elements)
    } else if names(&n, Rule::Element) {
        Some(Rule::Element)
    } else if names(&n, Rule::OpeningTag) {
        Some(Rule::OpeningTag)
    } else if names(&n, Rule::ClosingTag) {
        Some(Rule::ClosingTag)
    } else if names(&n, Rule::SelfClosedTag) {
        Some(Rule::SelfClosedTag)
    } else if names(&n, Rule::TagName) {
        Some(Rule::TagName)
    } else if names(&n, Rule::AttributeList) {
        Some(Rule::AttributeList)
    } else if names(&n, Rule::Attribute) {
        Some(Rule::Attribute)
    } else if names(&n, Rule::Identifier) {
        Some(Rule::Identifier)
    } else if names(&n, Rule::QuotedString) {
        Some(Rule::QuotedString)
    } else if names(&n, Rule::Content) {
        Some(Rule::Content)
    } else if names(&n, Rule::Text) {
        Some(Rule::Text)
    } else if names(&n, Rule::Whitespace) {
        Some(Rule::Whitespace)
    } else if names(&n, Rule::EndOfInput) {
        Some(Rule::EndOfInput)
    } else {
        None
    }
}

/// The productions that may stand behind a match of `rule`.
pub fn rules_expected_after(rule: Rule) -> (rules: Vec<Rule>)
    ensures
        rules@ == expected_after(rule),
{
    match rule {
        Rule::Html | Rule::Elements => vec![Rule::Element, Rule::SelfClosedTag, Rule::EndOfInput],
        Rule::Content => vec![Rule::Element, Rule::SelfClosedTag, Rule::Text, Rule::EndOfInput],
        Rule::AttributeList => vec![Rule::Attribute, Rule::EndOfInput],
        _ => vec![Rule::EndOfInput],
    }
}

/// Finds where matching gave up, from a place `i` at which no item matched
/// and `expected` had to begin.
pub fn find_stuck(chars: &Vec<char>, i: usize, expected: Vec<Rule>) -> (r: (usize, Vec<Rule>))
    requires
        i <= chars@.len(),
    ensures
        (r.0 as int, r.1@) == stuck_at(chars@, i as int, expected@),
{
    let ghost s = chars@;
    let ghost first = expected@;
    let mut pos: usize = i;
    let mut expecting = expected;
    let mut more = true;
    while more
        invariant
            s == chars@,
            pos <= s.len(),
            more ==> stuck_at(s, i as int, first) == stuck_at(s, pos as int, expecting@),
            !more ==> stuck_at(s, i as int, first) == (pos as int, expecting@),
        decreases s.len() - pos, if more { 1int } else { 0int },
    {
        more = false;
        if let Some(open) = match_opening_tag(chars, pos) {
            let (_, inner_end) = match_items(chars, open.end, true);
            if pos < inner_end && match_closing_tag(chars, inner_end).is_none() {
                pos = inner_end;
                expecting = vec![Rule::Element, Rule::SelfClosedTag, Rule::Text, Rule::ClosingTag];
                more = true;
            }
        }
    }
    (pos, expecting)
}

/// Matches the whole of `chars` against production `rule`.
pub fn parse_rule(chars: &Vec<char>, rule: Rule) -> (r: Result<Span, ParseError>)
    ensures
        rule_outcome(chars@, rule, r),
        r matches Ok(span) ==> laid_out(span@),
{
    proof {
        lemma_production_layout(chars@, rule);
    }
    match match_production(chars, 0, rule) {
        Some(span) => {
            if span.end == chars.len() {
                Ok(span)
            } else {
                let after = rules_expected_after(rule);
                let (position, expecting) = match rule {
                    Rule::Html | Rule::Elements | Rule::Content => find_stuck(
                        chars,
                        span.end,
                        after,
                    ),
                    _ => (span.end, after),
                };
                Err(ParseError::Syntax { position, expecting })
            }
        },
        None => {
            let first: Vec<Rule> = vec![rule];
            assert(first@ =~= seq![rule]);
            let (position, expecting) = match rule {
                Rule::Element => find_stuck(chars, 0, first),
                _ => (0, first),
            };
            Err(ParseError::Syntax { position, expecting })
        },
    }
}

/// Matches the whole of `input` against the production named `rule_name` and
/// returns the tree of matched spans. Positions count characters.
pub fn parse(rule_name: &str, input: &str) -> (r: Result<Span, ParseError>)
    ensures
        parse_outcome(rule_name@, input@, r),
        r matches Ok(span) ==> laid_out(span@),
{
    match rule_by_name(rule_name) {
        Some(rule) => {
            let chars = to_chars(input);
            parse_rule(&chars, rule)
        },
        None => Err(ParseError::UnknownRule { name: rule_name.to_owned() }),
    }
}

/// Parses a document into its top-level nodes.
pub fn parse_html(input: &str) -> (r: Result<Vec<Node>, ParseError>)
    ensures
        html_outcome(input@, r),
        r matches Ok(nodes) ==> nodes@.len() == elements_at(input@, 0).children.len(),
        r matches Ok(nodes) ==> forall|k: int|
            0 <= k < nodes@.len() ==> well_formed(#[trigger] nodes@[k]@),
{
    let chars = to_chars(input);
    match parse_rule(&chars, Rule::Html) {
        Ok(span) => {
            let nodes = process_html(&chars, &span);
            proof {
                lemma_match_then_build(chars@);
                lemma_document_count(chars@);
                lemma_document_well_formed(chars@);
                assert forall|k: int| 0 <= k < nodes@.len() implies well_formed(
                    #[trigger] nodes@[k]@,
                ) by {
                    assert(nodes@[k]@ == models(nodes@)[k]);
                }
            }
            Ok(nodes)
        },
        Err(e) => Err(e),
    }
}

} // verus!
