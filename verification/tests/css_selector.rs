use cssparser::{Parser, Token};
use float_pigment::css::parser::WarningKind;
use float_pigment::css::selector::{
    attribute_from_tokens, parse_selector, selector_from_tokens, Attribute, AttributeFlags,
    AttributeOperator, PseudoClasses, PseudoElements, SelTok, Selector, SelectorFragment,
    SelectorRelationType,
};
use float_pigment::css::tokens::{CustomError, ParseError};

fn parse(src: &str) -> (Result<Selector, ParseError>, Vec<WarningKind>) {
    let mut p = Parser::new(src);
    let mut w = Vec::new();
    let r = parse_selector(&mut p, &mut w);
    (r, w)
}

fn tag(name: &str) -> SelectorFragment {
    let mut f = SelectorFragment::new();
    f.set_tag_name(name);
    f
}

fn class(name: &str) -> SelectorFragment {
    let mut f = SelectorFragment::new();
    f.add_class(name);
    f
}

fn ok(frags: Vec<SelectorFragment>) -> Result<Selector, ParseError> {
    Ok(Selector { fragments: frags })
}

fn unsupported() -> Result<Selector, ParseError> {
    Err(ParseError::Custom(CustomError::Unsupported))
}

#[test]
fn selector_tag_class_id() {
    assert_eq!(parse("div"), (ok(vec![tag("div")]), vec![]));
    let mut f = SelectorFragment::new();
    f.set_tag_name("p");
    f.add_class("a");
    f.add_class("b");
    f.set_id("x");
    assert_eq!(parse("p.a.b#x"), (ok(vec![f]), vec![]));
    assert_eq!(parse(".a"), (ok(vec![class("a")]), vec![]));
}

#[test]
fn selector_combinators() {
    let mut b = SelectorFragment::with_relation(SelectorRelationType::DirectParent(tag("a")));
    b.set_tag_name("b");
    assert_eq!(parse("a > b"), (ok(vec![b]), vec![]));
    let mut b = SelectorFragment::with_relation(SelectorRelationType::Ancestor(tag("a")));
    b.set_tag_name("b");
    assert_eq!(parse("a b"), (ok(vec![b]), vec![]));
    let mut b = SelectorFragment::with_relation(SelectorRelationType::NextSibling(tag("a")));
    b.set_tag_name("b");
    assert_eq!(parse("a+b"), (ok(vec![b]), vec![]));
    let mut b = SelectorFragment::with_relation(SelectorRelationType::SubsequentSibling(tag("a")));
    b.set_tag_name("b");
    assert_eq!(parse("a ~ b"), (ok(vec![b]), vec![]));
}

#[test]
fn selector_list() {
    assert_eq!(parse("a, .b"), (ok(vec![tag("a"), class("b")]), vec![]));
    assert_eq!(parse("a, "), (unsupported(), vec![WarningKind::InvalidSelector]));
    assert_eq!(parse(""), (unsupported(), vec![WarningKind::InvalidSelector]));
}

#[test]
fn selector_misplaced_combinators() {
    assert_eq!(parse("> a"), (unsupported(), vec![WarningKind::InvalidSelector]));
    assert_eq!(parse("a >"), (unsupported(), vec![WarningKind::InvalidSelector]));
    assert_eq!(parse("+ a"), (unsupported(), vec![WarningKind::InvalidSelector]));
    // A trailing `+` is dropped.
    assert_eq!(parse("a +"), (ok(vec![tag("a")]), vec![]));
    assert_eq!(parse("a ."), (unsupported(), vec![WarningKind::InvalidSelector]));
    assert_eq!(parse("a@"), (unsupported(), vec![WarningKind::UnsupportedSelector]));
    assert_eq!(parse("#123"), (unsupported(), vec![WarningKind::InvalidSelector]));
}

#[test]
fn selector_universal() {
    assert_eq!(parse("*"), (ok(vec![SelectorFragment::new()]), vec![]));
    let f = SelectorFragment::with_relation(SelectorRelationType::Ancestor(tag("a")));
    assert_eq!(parse("a *"), (ok(vec![f]), vec![]));
    assert_eq!(parse("a*"), (unsupported(), vec![WarningKind::InvalidSelector]));
}

#[test]
fn selector_pseudo_elements() {
    let mut f = tag("a");
    f.set_pseudo_elements(PseudoElements::Before);
    assert_eq!(parse("a::before"), (ok(vec![f]), vec![]));
    let mut f = tag("a");
    f.set_pseudo_elements(PseudoElements::After);
    assert_eq!(parse("a:AFTER"), (ok(vec![f]), vec![WarningKind::InvalidPseudoElement]));
    assert_eq!(parse("a::marker"), (unsupported(), vec![WarningKind::UnsupportedPseudoElement]));
    assert_eq!(
        parse("a::before b"),
        (Err(ParseError::Basic), vec![WarningKind::UnsupportedSelector])
    );
}

#[test]
fn selector_pseudo_classes() {
    let mut f = tag("li");
    f.set_pseudo_classes(PseudoClasses::FirstChild);
    assert_eq!(parse("li:first-child"), (ok(vec![f]), vec![]));
    let mut f = SelectorFragment::new();
    f.set_pseudo_classes(PseudoClasses::Host);
    assert_eq!(parse(":host"), (ok(vec![f]), vec![]));
    assert_eq!(parse("a:host"), (unsupported(), vec![WarningKind::UnsupportedPseudoClass]));
    assert_eq!(parse("a:hover"), (unsupported(), vec![WarningKind::UnsupportedPseudoClass]));
    assert_eq!(parse("a :empty"), (unsupported(), vec![WarningKind::UnsupportedSelector]));
}

#[test]
fn selector_not() {
    let mut f = tag("a");
    f.set_pseudo_classes(PseudoClasses::Not(vec![class("b")]));
    assert_eq!(parse("a:not(.b)"), (ok(vec![f]), vec![]));
    let mut f = tag("a");
    f.set_pseudo_classes(PseudoClasses::Not(vec![class("b"), class("c")]));
    assert_eq!(parse("a:not(.b):not(.c)"), (ok(vec![f]), vec![]));
    assert_eq!(
        parse("a:first-child:not(.b)"),
        (unsupported(), vec![WarningKind::UnsupportedSelector])
    );
    assert_eq!(parse("a:not(> b)"), (unsupported(), vec![WarningKind::InvalidSelector]));
}

#[test]
fn selector_nth() {
    let mut f = tag("li");
    f.set_pseudo_classes(PseudoClasses::NthChild(2, 1, None));
    assert_eq!(parse("li:nth-child(2n+1)"), (ok(vec![f]), vec![]));
    let mut f = tag("li");
    f.set_pseudo_classes(PseudoClasses::NthChild(0, 3, Some(vec![class("a")])));
    assert_eq!(parse("li:nth-child(3 of .a)"), (ok(vec![f]), vec![]));
    let mut f = tag("li");
    f.set_pseudo_classes(PseudoClasses::NthOfType(2, 0));
    assert_eq!(parse("li:nth-of-type(even)"), (ok(vec![f]), vec![]));
    assert_eq!(parse("li:nth-of-type(2 x)"), (unsupported(), vec![]));
    assert_eq!(parse("li:nth-child(x)"), (Err(ParseError::Basic), vec![]));
}

#[test]
fn selector_attributes() {
    let mut f = tag("a");
    f.add_attribute(Attribute {
        operator: AttributeOperator::Present,
        case_insensitive: AttributeFlags::CaseSensitivityDependsOnName,
        never_matches: false,
        name: "href".to_string(),
        value: None,
    });
    assert_eq!(parse("a[href]"), (ok(vec![f]), vec![]));
    let mut f = SelectorFragment::new();
    f.add_attribute(Attribute {
        operator: AttributeOperator::Contain,
        case_insensitive: AttributeFlags::CaseInsensitive,
        never_matches: true,
        name: "title".to_string(),
        value: Some("a b".to_string()),
    });
    assert_eq!(parse("[title~=\"a b\" i]"), (ok(vec![f]), vec![]));
    assert_eq!(parse("[a=b x]"), (Err(ParseError::Basic), vec![]));
    assert_eq!(parse("[a=]"), (Err(ParseError::Basic), vec![]));
    assert_eq!(
        parse("[a=1]"),
        (Err(ParseError::Custom(CustomError::BadValueInAttr)), vec![])
    );
    assert_eq!(
        parse("[a:b]"),
        (Err(ParseError::Custom(CustomError::UnexpectedTokenInAttributeSelector)), vec![])
    );
}

#[test]
fn attribute_operators_from_tokens() {
    let ts = vec![
        SelTok::Ident("lang".to_string()),
        SelTok::Punct("|=".to_string()),
        SelTok::Ident("en".to_string()),
    ];
    let a = attribute_from_tokens(&ts).unwrap();
    assert_eq!(a.operator, AttributeOperator::Hyphen);
    assert!(!a.never_matches);
    let ts = vec![
        SelTok::Ident("x".to_string()),
        SelTok::Punct("^=".to_string()),
        SelTok::QuotedString("".to_string()),
    ];
    let a = attribute_from_tokens(&ts).unwrap();
    assert_eq!(a.operator, AttributeOperator::Begin);
    assert!(a.never_matches);
}

#[test]
fn selector_stops_before_block() {
    let mut p = Parser::new("a { color: red }");
    let mut w = Vec::new();
    assert_eq!(parse_selector(&mut p, &mut w), ok(vec![tag("a")]));
    assert!(matches!(p.next(), Ok(Token::CurlyBracketBlock)));
    let mut w = vec![WarningKind::Unknown];
    let mut p = Parser::new("> a {}");
    assert_eq!(parse_selector(&mut p, &mut w), unsupported());
    assert_eq!(w, vec![WarningKind::Unknown, WarningKind::InvalidSelector]);
    assert!(matches!(p.next(), Ok(Token::CurlyBracketBlock)));
}

#[test]
fn selector_from_token_list() {
    let ts = vec![
        SelTok::Ident("a".to_string()),
        SelTok::Punct(",".to_string()),
        SelTok::Ident("b".to_string()),
        SelTok::CurlyBracket,
    ];
    let (r, w, e) = selector_from_tokens(&ts, 0);
    assert_eq!(r, ok(vec![tag("a"), tag("b")]));
    assert!(w.is_empty());
    assert_eq!(e, 3);
}
