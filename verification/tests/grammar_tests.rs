use html_parser_tarasenko::matcher::{match_items, match_production};
use html_parser_tarasenko::parser::{
    find_stuck, parse_rule, rule_by_name, rules_expected_after, same_chars,
};
use html_parser_tarasenko::text::{char_in_class, scan_run, string_of, to_chars, CharClass};
use html_parser_tarasenko::{parse, ParseError, Rule, Span};

fn leaf(rule: Rule, start: usize, end: usize) -> Span {
    Span { rule, start, end, children: vec![] }
}

#[test]
fn identifier_boundary() {
    assert!(parse("identifier", "src").is_ok());
    assert!(parse("identifier", "a1b2").is_ok());
    assert!(parse("identifier", "123class").is_err());
    assert!(parse("identifier", "data_attribute").is_err());
    assert!(parse("identifier", "").is_err());
    assert!(parse("tag_name", "my-tag").is_err());
}

#[test]
fn identifier_span_covers_the_name() {
    assert_eq!(parse("identifier", "class").unwrap(), leaf(Rule::Identifier, 0, 5));
    assert_eq!(parse("tag_name", "h1").unwrap(), leaf(Rule::TagName, 0, 2));
}

#[test]
fn quoted_string_edges() {
    assert_eq!(parse("quoted_string", "\"\"").unwrap(), leaf(Rule::QuotedString, 0, 2));
    assert_eq!(parse("quoted_string", "\"a b\"").unwrap(), leaf(Rule::QuotedString, 0, 5));
    assert!(parse("quoted_string", "'a'").is_err());
    assert!(parse("quoted_string", "\"").is_err());
    assert!(parse("quoted_string", "\"a\"b").is_err());
}

#[test]
fn attribute_takes_no_space_around_the_equals_sign() {
    assert!(parse("attribute", "key=\"v\"").is_ok());
    assert!(parse("attribute", "key = \"v\"").is_err());
    assert!(parse("attribute", "key =\"v\"").is_err());
    assert!(parse("attribute", "key= \"v\"").is_err());
    assert!(parse("attribute", "key=value").is_err());
}

#[test]
fn attribute_span_tree() {
    let expected = Span {
        rule: Rule::Attribute,
        start: 0,
        end: 7,
        children: vec![leaf(Rule::Identifier, 0, 3), leaf(Rule::QuotedString, 4, 7)],
    };
    assert_eq!(parse("attribute", "src=\"a\"").unwrap(), expected);
}

#[test]
fn attribute_list_needs_whitespace_between_attributes() {
    let list = parse("attribute_list", "a=\"1\" \t b=\"2\"").unwrap();
    assert_eq!(list.rule, Rule::AttributeList);
    assert_eq!(list.children.len(), 2);
    assert_eq!(list.children[1].start, 8);
    assert!(parse("attribute_list", "").unwrap().children.is_empty());
    assert!(parse("attribute_list", "a=\"1\"b=\"2\"").is_err());
}

#[test]
fn opening_tag_span_tree() {
    let tag = parse("opening_tag", "<a x=\"1\" >").unwrap();
    assert_eq!(tag.rule, Rule::OpeningTag);
    assert_eq!((tag.start, tag.end), (0, 10));
    assert_eq!(tag.children.len(), 2);
    assert_eq!(tag.children[0], leaf(Rule::TagName, 1, 2));
    assert_eq!(tag.children[1].rule, Rule::AttributeList);
    assert_eq!((tag.children[1].start, tag.children[1].end), (3, 9));
    let bare = parse("opening_tag", "<div>").unwrap();
    assert_eq!(bare.children, vec![leaf(Rule::TagName, 1, 4)]);
}

#[test]
fn self_closed_token_is_contiguous() {
    assert!(parse("self_closed_tag", "<br/>").is_ok());
    assert!(parse("self_closed_tag", "<br />").is_ok());
    assert!(parse("self_closed_tag", "<br / >").is_err());
    assert!(parse("self_closed_tag", "<br>").is_err());
    assert!(parse("self_closed_tag", "< br/>").is_err());
}

#[test]
fn closing_tag_is_strict() {
    assert!(parse("closing_tag", "</p>").is_ok());
    assert!(parse("closing_tag", "</p >").is_err());
    assert!(parse("closing_tag", "</ p>").is_err());
    assert!(parse("closing_tag", "</1>").is_err());
}

#[test]
fn text_stops_at_a_tag() {
    assert_eq!(parse("text", "a < b").unwrap_err(), ParseError::Syntax {
        position: 2,
        expecting: vec![Rule::EndOfInput],
    });
    assert_eq!(parse("text", "").unwrap_err(), ParseError::Syntax {
        position: 0,
        expecting: vec![Rule::Text],
    });
    assert_eq!(parse("text", "héllo ✓").unwrap(), leaf(Rule::Text, 0, 7));
}

#[test]
fn whitespace_is_a_run() {
    assert_eq!(parse("WHITESPACE", " \t\r\n").unwrap(), leaf(Rule::Whitespace, 0, 4));
    assert!(parse("WHITESPACE", "").is_err());
    assert!(parse("WHITESPACE", " a").is_err());
}

#[test]
fn element_span_tree() {
    let element = parse("element", "<p>Hi</p>").unwrap();
    assert_eq!(element.rule, Rule::Element);
    assert_eq!((element.start, element.end), (0, 9));
    let rules: Vec<Rule> = element.children.iter().map(|c| c.rule).collect();
    assert_eq!(rules, vec![Rule::OpeningTag, Rule::Content, Rule::ClosingTag]);
    assert_eq!(element.children[1].children, vec![leaf(Rule::Text, 3, 5)]);
}

#[test]
fn closing_name_is_not_compared() {
    assert!(parse("element", "<div></span>").is_ok());
}

#[test]
fn html_takes_whitespace_around_and_between() {
    let html = parse("html", " \n<p>a</p>\n<br/>\n").unwrap();
    assert_eq!(html.rule, Rule::Html);
    assert_eq!(html.children.len(), 1);
    let elements = &html.children[0];
    assert_eq!(elements.rule, Rule::Elements);
    let rules: Vec<Rule> = elements.children.iter().map(|c| c.rule).collect();
    assert_eq!(rules, vec![Rule::Element, Rule::SelfClosedTag]);
}

#[test]
fn html_rejects_text_at_the_top() {
    assert_eq!(parse("html", "<p>a</p> junk").unwrap_err(), ParseError::Syntax {
        position: 9,
        expecting: vec![Rule::Element, Rule::SelfClosedTag, Rule::EndOfInput],
    });
    assert_eq!(parse("content", "a</p>").unwrap_err(), ParseError::Syntax {
        position: 1,
        expecting: vec![Rule::Element, Rule::SelfClosedTag, Rule::Text, Rule::EndOfInput],
    });
}

#[test]
fn unclosed_element_fails_where_its_content_ends() {
    let inside = vec![Rule::Element, Rule::SelfClosedTag, Rule::Text, Rule::ClosingTag];
    assert_eq!(parse("element", "<p>Text").unwrap_err(), ParseError::Syntax {
        position: 7,
        expecting: inside.clone(),
    });
    assert_eq!(parse("element", "<div><span>Nested</div>").unwrap_err(), ParseError::Syntax {
        position: 23,
        expecting: inside.clone(),
    });
    assert_eq!(parse("elements", "<a><b></b>").unwrap_err(), ParseError::Syntax {
        position: 10,
        expecting: inside,
    });
    assert_eq!(parse("element", "x").unwrap_err(), ParseError::Syntax {
        position: 0,
        expecting: vec![Rule::Element],
    });
    assert_eq!(parse("element", "<p></p>x").unwrap_err(), ParseError::Syntax {
        position: 7,
        expecting: vec![Rule::EndOfInput],
    });
    assert_eq!(parse("identifier", "ab<p>x").unwrap_err(), ParseError::Syntax {
        position: 2,
        expecting: vec![Rule::EndOfInput],
    });
    let chars = to_chars("<a><b>");
    assert_eq!(find_stuck(&chars, 0, vec![Rule::Element]), (6, vec![
        Rule::Element,
        Rule::SelfClosedTag,
        Rule::Text,
        Rule::ClosingTag,
    ]));
    assert_eq!(find_stuck(&chars, 6, vec![Rule::Element]), (6, vec![Rule::Element]));
}

#[test]
fn unknown_rule_is_its_own_error() {
    assert_eq!(parse("paragraph", "<p></p>").unwrap_err(), ParseError::UnknownRule {
        name: "paragraph".to_string(),
    });
    assert_eq!(parse("Html", "").unwrap_err(), ParseError::UnknownRule { name: "Html".to_string() });
}

#[test]
fn rule_names_round_trip() {
    let all = vec![
        Rule::Html,
        Rule::Elements,
        Rule::Element,
        Rule::OpeningTag,
        Rule::ClosingTag,
        Rule::SelfClosedTag,
        Rule::TagName,
        Rule::AttributeList,
        Rule::Attribute,
        Rule::Identifier,
        Rule::QuotedString,
        Rule::Content,
        Rule::Text,
        Rule::Whitespace,
        Rule::EndOfInput,
    ];
    for rule in all {
        assert_eq!(rule_by_name(rule.name()), Some(rule));
    }
    assert_eq!(Rule::SelfClosedTag.name(), "self_closed_tag");
    assert_eq!(rule_by_name("WHITESPACE"), Some(Rule::Whitespace));
    assert_eq!(rule_by_name("whitespace"), None);
    assert_eq!(rule_by_name(""), None);
}

#[test]
fn end_of_input_matches_only_at_the_end() {
    assert_eq!(parse("EOI", "").unwrap(), leaf(Rule::EndOfInput, 0, 0));
    assert!(parse("EOI", "a").is_err());
    let chars = to_chars("ab");
    assert_eq!(match_production(&chars, 2, Rule::EndOfInput), Some(leaf(Rule::EndOfInput, 2, 2)));
    assert_eq!(match_production(&chars, 1, Rule::EndOfInput), None);
}

#[test]
fn matching_in_the_middle_of_the_input() {
    let chars = to_chars("xx<b/>yy");
    let tag = match_production(&chars, 2, Rule::SelfClosedTag).unwrap();
    assert_eq!((tag.start, tag.end), (2, 6));
    assert_eq!(match_production(&chars, 0, Rule::SelfClosedTag), None);
    let (items, end) = match_items(&chars, 2, false);
    assert_eq!(items.len(), 1);
    assert_eq!(end, 6);
    let (items, end) = match_items(&chars, 2, true);
    assert_eq!(items.len(), 2);
    assert_eq!(end, 8);
}

#[test]
fn parse_rule_on_characters() {
    let chars = to_chars("<a></a>");
    assert!(parse_rule(&chars, Rule::Element).is_ok());
    assert!(parse_rule(&chars, Rule::OpeningTag).is_err());
    assert_eq!(rules_expected_after(Rule::AttributeList), vec![Rule::Attribute, Rule::EndOfInput]);
    assert_eq!(rules_expected_after(Rule::Text), vec![Rule::EndOfInput]);
}

#[test]
fn runs_and_classes() {
    let chars = to_chars("ab1 \t<\"");
    assert_eq!(chars.len(), 7);
    assert_eq!(scan_run(&chars, 0, CharClass::Alnum), 3);
    assert_eq!(scan_run(&chars, 3, CharClass::Whitespace), 5);
    assert_eq!(scan_run(&chars, 0, CharClass::NotTagStart), 5);
    assert_eq!(scan_run(&chars, 0, CharClass::NotQuote), 6);
    assert_eq!(scan_run(&chars, 5, CharClass::Alnum), 5);
    assert_eq!(scan_run(&chars, 7, CharClass::Alnum), 7);
    assert!(char_in_class(CharClass::Alnum, 'Z'));
    assert!(!char_in_class(CharClass::Alnum, '_'));
    assert!(!char_in_class(CharClass::Alnum, 'é'));
    assert!(!char_in_class(CharClass::Whitespace, '\u{a0}'));
    assert_eq!(string_of(&chars, 1, 4), "b1 ");
    assert_eq!(string_of(&chars, 2, 2), "");
    assert!(same_chars(&to_chars("abc"), &to_chars("abc")));
    assert!(!same_chars(&to_chars("abc"), &to_chars("abd")));
    assert!(!same_chars(&to_chars("abc"), &to_chars("ab")));
}

fn check_layout(span: &Span) {
    assert!(span.start <= span.end);
    let mut at = span.start;
    for child in &span.children {
        assert!(at <= child.start);
        check_layout(child);
        at = child.end;
    }
    assert!(at <= span.end);
}

#[test]
fn spans_cover_their_children_in_source_order() {
    let input = " <a x=\"1\"\ty=\"\" >t <b/> u<c  z=\"2\"></c> </a>\n<d />";
    let html = parse("html", input).unwrap();
    assert_eq!((html.start, html.end), (0, input.chars().count()));
    check_layout(&html);
    check_layout(&parse("content", "a<b></b>c").unwrap());
    check_layout(&parse("attribute_list", "a=\"1\" b=\"2\"  ").unwrap());
}

#[test]
fn whitespace_inside_tags() {
    assert!(parse("opening_tag", "<div >").is_ok());
    assert!(parse("opening_tag", "<a\nb=\"c\"\n>").is_ok());
    assert!(parse("opening_tag", "<a  b=\"c\"   d=\"e\"  >").is_ok());
    assert!(parse("opening_tag", "< a>").is_err());
    assert!(parse("opening_tag", "<a b=\"c\"d=\"e\">").is_err());
    assert!(parse("self_closed_tag", "<a b=\"c\"/>").is_ok());
    assert!(parse("self_closed_tag", "<a b=\"c\" />").is_ok());
    assert!(parse("self_closed_tag", "<a/ >").is_err());
    let bare = parse("opening_tag", "<div >").unwrap();
    assert_eq!(bare.children.len(), 2);
    assert_eq!(bare.children[1].rule, Rule::AttributeList);
    assert!(bare.children[1].children.is_empty());
}
