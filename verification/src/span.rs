//! The raw result of matching: a tree of spans, each tagged with the
//! production that matched it.

use vstd::prelude::*;

verus! {

/// The productions of the grammar, and the end of the input.
#[derive(Clone, Copy, Debug, PartialEq, Eq, Structural)]
pub enum Rule {
    Html,
    Elements,
    Element,
    OpeningTag,
    ClosingTag,
    SelfClosedTag,
    TagName,
    AttributeList,
    Attribute,
    Identifier,
    QuotedString,
    Content,
    Text,
    Whitespace,
    EndOfInput,
}

/// The name of each production.
pub open spec fn rule_name(rule: Rule) -> Seq<char> {
    match rule {
        Rule::Html => "html"@,
        Rule::Elements => "elements"@,
        Rule::Element => "element"@,
        Rule::OpeningTag => "opening_tag"@,
        Rule::ClosingTag => "closing_tag"@,
        Rule::SelfClosedTag => "self_closed_tag"@,
        Rule::TagName => "tag_name"@,
        Rule::AttributeList => "attribute_list"@,
        Rule::Attribute => "attribute"@,
        Rule::Identifier => "identifier"@,
        Rule::QuotedString => "quoted_string"@,
        Rule::Content => "content"@,
        Rule::Text => "text"@,
        Rule::Whitespace => "WHITESPACE"@,
        Rule::EndOfInput => "EOI"@,
    }
}

impl Rule {
    /// The name of the production.
    pub fn name(self) -> (name: &'static str)
        ensures
            name@ == rule_name(self),
    {
        match self {
            Rule::Html => "html",
            Rule::Elements => "elements",
            Rule::Element => "element",
            Rule::OpeningTag => "opening_tag",
            Rule::ClosingTag => "closing_tag",
            Rule::SelfClosedTag => "self_closed_tag",
            Rule::TagName => "tag_name",
            Rule::AttributeList => "attribute_list",
            Rule::Attribute => "attribute",
            Rule::Identifier => "identifier",
            Rule::QuotedString => "quoted_string",
            Rule::Content => "content",
            Rule::Text => "text",
            Rule::Whitespace => "WHITESPACE",
            Rule::EndOfInput => "EOI",
        }
    }
}

/// The mathematical form of a span tree. `start` and `end` count characters.
pub struct SpanTree {
    pub rule: Rule,
    pub start: int,
    pub end: int,
    pub children: Seq<SpanTree>,
}

/// One matched span: the production, the half-open range of characters it
/// covers, and the spans matched inside it, in source order.
#[derive(Debug, PartialEq, Eq)]
pub struct Span {
    pub rule: Rule,
    pub start: usize,
    pub end: usize,
    pub children: Vec<Span>,
}

impl View for Span {
    type V = SpanTree;

    open spec fn view(&self) -> SpanTree {
        span_tree(*self)
    }
}

/// The tree of a span: its own fields, over the trees of its children.
pub open spec fn span_tree(span: Span) -> SpanTree
    decreases span, span.children@.len() + 1,
{
    SpanTree {
        rule: span.rule,
        start: span.start as int,
        end: span.end as int,
        children: first_trees(span, span.children@.len()),
    }
}

/// The trees of the first `n` children of `span`.
pub open spec fn first_trees(span: Span, n: nat) -> Seq<SpanTree>
    decreases span, n,
{
    if 0 < n <= span.children@.len() {
        first_trees(span, (n - 1) as nat).push(span_tree(span.children@[n - 1]))
    } else {
        Seq::empty()
    }
}

/// The trees of a sequence of spans.
pub open spec fn trees(spans: Seq<Span>) -> Seq<SpanTree> {
    Seq::new(spans.len(), |i: int| spans[i]@)
}

/// A span with nothing matched inside it.
pub open spec fn leaf(rule: Rule, start: int, end: int) -> SpanTree {
    SpanTree { rule, start, end, children: Seq::empty() }
}

impl SpanTree {
    /// Every span of the tree lies inside an input of `len` characters, and
    /// every quoted string has room for its two quotes.
    pub open spec fn fits(self, len: int) -> bool
        decreases self,
    {
        &&& 0 <= self.start <= self.end <= len
        &&& self.rule == Rule::QuotedString ==> self.start + 2 <= self.end
        &&& forall|i: int|
            0 <= i < self.children.len() ==> (#[trigger] self.children[i]).fits(len)
    }

    /// The characters of `s` that the span covers.
    pub open spec fn text(self, s: Seq<char>) -> Seq<char> {
        s.subrange(self.start, self.end)
    }
}

/// All of `ts` fit an input of `len` characters.
pub open spec fn all_fit(ts: Seq<SpanTree>, len: int) -> bool {
    forall|i: int| 0 <= i < ts.len() ==> (#[trigger] ts[i]).fits(len)
}

impl Span {
    /// A span without children.
    pub fn new_leaf(rule: Rule, start: usize, end: usize) -> (span: Span)
        ensures
            span@ == leaf(rule, start as int, end as int),
    {
        Span { rule, start, end, children: Vec::new() }
    }

    /// A span over `children`.
    pub fn new(rule: Rule, start: usize, end: usize, children: Vec<Span>) -> (span: Span)
        ensures
            span@ == (SpanTree {
                rule,
                start: start as int,
                end: end as int,
                children: trees(children@),
            }),
    {
        let span = Span { rule, start, end, children };
        proof {
            lemma_children(span);
        }
        span
    }
}

/// The trees of the first `n` children, counted one by one, are the first
/// `n` of the trees of the children.
proof fn lemma_first_trees(span: Span, n: nat)
    requires
        n <= span.children@.len(),
    ensures
        first_trees(span, n) == trees(span.children@).take(n as int),
    decreases n,
{
    if n > 0 {
        lemma_first_trees(span, (n - 1) as nat);
    }
    assert(first_trees(span, n) =~= trees(span.children@).take(n as int));
}

/// The children of a span's tree are the trees of its children.
pub proof fn lemma_children(span: Span)
    ensures
        span@.children == trees(span.children@),
{
    lemma_first_trees(span, span.children@.len());
    assert(trees(span.children@).take(span.children@.len() as int) =~= trees(span.children@));
}

/// Pushing a span pushes its tree.
pub proof fn lemma_trees_push(spans: Seq<Span>, span: Span)
    ensures
        trees(spans.push(span)) == trees(spans).push(span@),
{
    assert(trees(spans.push(span)) =~= trees(spans).push(span@));
}

} // verus!
