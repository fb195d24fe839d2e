use html_parser_tarasenko::builder::{
    process_attribute, process_attributes, process_element, process_elements, process_html,
    process_opening_tag, process_self_closed_tag,
};
use html_parser_tarasenko::error::push_decimal;
use html_parser_tarasenko::text::to_chars;
use html_parser_tarasenko::{parse, parse_html, Element, Node, ParseError, Rule, Span};

fn element(tag_name: &str, attributes: Vec<(&str, &str)>, children: Vec<Node>) -> Node {
    Node::Element(Element {
        tag_name: tag_name.to_string(),
        attributes: attributes.iter().map(|(k, v)| (k.to_string(), v.to_string())).collect(),
        children,
    })
}

fn text(t: &str) -> Node {
    Node::Text(t.to_string())
}

#[test]
fn duplicate_attributes_are_kept_in_order() {
    let result = parse_html("<a x=\"1\" x=\"2\"></a>").unwrap();
    assert_eq!(result, vec![element("a", vec![("x", "1"), ("x", "2")], vec![])]);
    let input = "<a x=\"1\" x=\"2\">";
    let tag = parse("opening_tag", input).unwrap();
    let (name, attributes) = process_opening_tag(&to_chars(input), &tag);
    assert_eq!(name, "a");
    assert_eq!(attributes, vec![("x".to_string(), "1".to_string()), ("x".to_string(), "2".to_string())]);
}

#[test]
fn self_closed_element_has_no_children() {
    let result = parse_html("<img src=\"a.png\" />").unwrap();
    assert_eq!(result, vec![element("img", vec![("src", "a.png")], vec![])]);
    let input = "<img src=\"a.png\" />";
    let tag = parse("self_closed_tag", input).unwrap();
    let built = process_self_closed_tag(&to_chars(input), &tag);
    assert!(built.children.is_empty());
    assert_eq!(built.tag_name, "img");
}

#[test]
fn one_node_for_each_top_level_match() {
    let input = "<p>a</p><br/> <div><i>x</i><b>y</b></div>\n<hr />";
    let raw = parse("html", input).unwrap();
    let result = parse_html(input).unwrap();
    assert_eq!(raw.children[0].children.len(), 4);
    assert_eq!(result.len(), 4);
}

#[test]
fn parsing_twice_gives_equal_trees() {
    let input = "<a href=\"x\">one<b>two</b>three</a>";
    assert_eq!(parse_html(input).unwrap(), parse_html(input).unwrap());
    assert_eq!(parse_html("<a").unwrap_err(), parse_html("<a").unwrap_err());
}

#[test]
fn text_and_elements_interleave() {
    let result = parse_html("<a href=\"x\">one<b>two</b>three<br/></a>").unwrap();
    let expected = vec![element(
        "a",
        vec![("href", "x")],
        vec![
            text("one"),
            element("b", vec![], vec![text("two")]),
            text("three"),
            element("br", vec![], vec![]),
        ],
    )];
    assert_eq!(result, expected);
}

#[test]
fn whitespace_between_tags_is_no_text() {
    let result = parse_html("<div>\n  <p>x y </p>\n</div>").unwrap();
    let expected =
        vec![element("div", vec![], vec![element("p", vec![], vec![text("x y ")])])];
    assert_eq!(result, expected);
}

#[test]
fn text_is_kept_as_it_stands() {
    let result = parse_html("<p>a &amp; \"b\" > ü</p>").unwrap();
    assert_eq!(result, vec![element("p", vec![], vec![text("a &amp; \"b\" > ü")])]);
}

#[test]
fn attribute_values_lose_only_their_quotes() {
    let result = parse_html("<a e=\"\" s=\" x y \" q=\"it's <b>\"></a>").unwrap();
    let expected =
        vec![element("a", vec![("e", ""), ("s", " x y "), ("q", "it's <b>")], vec![])];
    assert_eq!(result, expected);
}

#[test]
fn lenient_closing_name() {
    let result = parse_html("<div></span>").unwrap();
    assert_eq!(result, vec![element("div", vec![], vec![])]);
}

#[test]
fn whitespace_only_input_is_an_empty_document() {
    assert_eq!(parse_html(" \n\t").unwrap(), vec![]);
}

#[test]
fn syntax_failure_names_position_and_expectation() {
    let at_top = vec![Rule::Element, Rule::SelfClosedTag, Rule::EndOfInput];
    let inside = vec![Rule::Element, Rule::SelfClosedTag, Rule::Text, Rule::ClosingTag];
    assert_eq!(parse_html("<div><p>Unclosed tag").unwrap_err(), ParseError::Syntax {
        position: 20,
        expecting: inside.clone(),
    });
    assert_eq!(parse_html("<p></p>  <div>").unwrap_err(), ParseError::Syntax {
        position: 14,
        expecting: inside.clone(),
    });
    assert_eq!(parse_html("<div><a x=1></a></div>").unwrap_err(), ParseError::Syntax {
        position: 5,
        expecting: inside.clone(),
    });
    assert_eq!(parse_html("<html><body><p>Hello World!</body></html>").unwrap_err(), ParseError::Syntax {
        position: 41,
        expecting: inside,
    });
    assert_eq!(parse_html("<a></a> <b></b>x").unwrap_err(), ParseError::Syntax {
        position: 15,
        expecting: at_top.clone(),
    });
    assert_eq!(parse_html("hello").unwrap_err(), ParseError::Syntax {
        position: 0,
        expecting: at_top,
    });
}

#[test]
fn malformed_documents_are_rejected() {
    assert!(parse_html("<a x=1></a>").is_err());
    assert!(parse_html("<a x='1'></a>").is_err());
    assert!(parse_html("<a x = \"1\"></a>").is_err());
    assert!(parse_html("<a x=\"1></a>").is_err());
    assert!(parse_html("<br / >").is_err());
    assert!(parse_html("<1a></1a>").is_err());
    assert!(parse_html("<a_b></a_b>").is_err());
    assert!(parse_html("</a>").is_err());
    assert!(parse_html("<a></a>x").is_err());
}

#[test]
fn messages() {
    let syntax = ParseError::Syntax {
        position: 120,
        expecting: vec![Rule::Element, Rule::SelfClosedTag, Rule::EndOfInput],
    };
    assert_eq!(
        syntax.message(),
        "Parsing error: at position 120, expected element or self_closed_tag or EOI"
    );
    let one = ParseError::Syntax { position: 0, expecting: vec![Rule::QuotedString] };
    assert_eq!(one.message(), "Parsing error: at position 0, expected quoted_string");
    let unknown = ParseError::UnknownRule { name: "x".to_string() };
    assert_eq!(unknown.message(), "Unknown rule: x");
    let mismatch =
        ParseError::MismatchedTag { expected: "div".to_string(), found: "span".to_string() };
    assert_eq!(mismatch.message(), "Mismatched tag: expected div, found span");
    let io = ParseError::IOError("no such file".to_string());
    assert_eq!(io.message(), "IO error: no such file");
    assert_eq!(
        parse_html("<p>").unwrap_err().message(),
        "Parsing error: at position 3, expected element or self_closed_tag or text or closing_tag"
    );
}

#[test]
fn decimal_digits() {
    let mut out = String::from("n=");
    push_decimal(0, &mut out);
    assert_eq!(out, "n=0");
    let mut out = String::new();
    push_decimal(9, &mut out);
    push_decimal(10, &mut out);
    push_decimal(4096, &mut out);
    assert_eq!(out, "9104096");
    let mut out = String::new();
    push_decimal(usize::MAX, &mut out);
    assert_eq!(out, usize::MAX.to_string());
}

#[test]
fn builder_reads_any_tree_that_fits() {
    let chars = to_chars("ab\"cd\"");
    let leaf = |rule: Rule, start: usize, end: usize| Span { rule, start, end, children: vec![] };
    let attribute = Span {
        rule: Rule::Attribute,
        start: 0,
        end: 6,
        children: vec![
            leaf(Rule::Identifier, 0, 1),
            leaf(Rule::Identifier, 0, 2),
            leaf(Rule::Text, 0, 6),
            leaf(Rule::QuotedString, 2, 6),
        ],
    };
    assert_eq!(process_attribute(&chars, &attribute), ("ab".to_string(), "cd".to_string()));
    let empty = Span { rule: Rule::Attribute, start: 0, end: 0, children: vec![] };
    assert_eq!(process_attribute(&chars, &empty), (String::new(), String::new()));
    let list = Span {
        rule: Rule::AttributeList,
        start: 0,
        end: 6,
        children: vec![leaf(Rule::Text, 0, 1), empty, attribute],
    };
    assert_eq!(process_attributes(&chars, &list), vec![
        (String::new(), String::new()),
        ("ab".to_string(), "cd".to_string()),
    ]);
    let bare = Span { rule: Rule::Element, start: 0, end: 6, children: vec![leaf(Rule::Text, 0, 2)] };
    assert_eq!(process_element(&chars, &bare), Element {
        tag_name: String::new(),
        attributes: vec![],
        children: vec![],
    });
    let elements = Span { rule: Rule::Elements, start: 0, end: 6, children: vec![leaf(Rule::Text, 0, 2), bare] };
    assert_eq!(process_elements(&chars, &elements).len(), 1);
    let html = Span { rule: Rule::Html, start: 0, end: 6, children: vec![leaf(Rule::Whitespace, 0, 0), elements] };
    assert_eq!(process_html(&chars, &html).len(), 1);
}

fn is_name(t: &str) -> bool {
    let mut chars = t.chars();
    match chars.next() {
        Some(c) => c.is_ascii_alphabetic() && chars.all(|c| c.is_ascii_alphanumeric()),
        None => false,
    }
}

fn check_node(node: &Node) {
    match node {
        Node::Element(e) => {
            assert!(is_name(&e.tag_name));
            for (key, value) in &e.attributes {
                assert!(is_name(key));
                assert!(!value.contains('"'));
            }
            for child in &e.children {
                check_node(child);
            }
        }
        Node::Text(t) => {
            assert!(!t.is_empty());
            assert!(!t.contains('<'));
        }
    }
}

#[test]
fn parsed_nodes_are_well_formed() {
    let input = "\n<html lang=\"en\">\n <body class=\"a b\" id=\"\">\n  <h1>Title</h1>\n  \
                 <p>one <b>two</b> three<br /></p>\n  <img src=\"x.png\" alt=\"it's\"/>\n \
                 </body>\n</html>\n";
    let nodes = parse_html(input).unwrap();
    assert_eq!(nodes.len(), 1);
    for node in &nodes {
        check_node(node);
    }
    match &nodes[0] {
        Node::Element(html) => {
            assert_eq!(html.tag_name, "html");
            assert_eq!(html.children.len(), 1);
        }
        Node::Text(_) => panic!("an element was expected"),
    }
}
