use cssparser::Parser;
use float_pigment::css::parser::str_to_media_type;
use float_pigment::css::tokens::{
    bg_pos_is_end, ends_position, families_from_tokens, family_from_tokens, font_display,
    font_display_from_token, font_family_name, font_family_repr, next_operator,
    radial_gradient_shape,
    try_parse_pos_keyword, CustomError, ParseError, Tok,
};
use float_pigment::css::values::{
    FontDisplay, FontFamilyName, GradientShape, LengthUnit, MediaType, Operator, Pos,
};

#[test]
fn font_display_keywords_ignore_case() {
    let mut p = Parser::new("block");
    assert_eq!(font_display(&mut p), Ok(FontDisplay::Block));
    let mut p = Parser::new("OPTIONAL");
    assert_eq!(font_display(&mut p), Ok(FontDisplay::Optional));
    let mut p = Parser::new("sometimes");
    assert_eq!(
        font_display(&mut p),
        Err(ParseError::Custom(CustomError::Unsupported))
    );
    let mut p = Parser::new("12px");
    assert_eq!(font_display(&mut p), Err(ParseError::Basic));
}

#[test]
fn font_display_from_tokens() {
    assert_eq!(
        font_display_from_token(Some(Tok::Ident("Swap".to_string()))),
        Ok(FontDisplay::Swap)
    );
    assert_eq!(font_display_from_token(None), Err(ParseError::Basic));
}

#[test]
fn position_keywords_reset_on_failure() {
    let mut p = Parser::new("Left top");
    assert_eq!(try_parse_pos_keyword(&mut p), Ok(Pos::Left));
    assert_eq!(try_parse_pos_keyword(&mut p), Ok(Pos::Top));
    let mut p = Parser::new("middle");
    assert_eq!(try_parse_pos_keyword(&mut p), Err(ParseError::Basic));
    assert_eq!(
        font_family_name(&mut p),
        Ok(FontFamilyName::Title("middle".to_string()))
    );
}

#[test]
fn position_directions() {
    assert!(Pos::is_same_direction(Pos::Left, Pos::Right));
    assert!(!Pos::is_same_direction(Pos::Left, Pos::Top));
    assert!(!Pos::is_same_direction(Pos::Center, Pos::Center));
    assert!(Pos::is_valid_direction(Pos::Top, false));
    assert!(!Pos::is_valid_direction(Pos::Top, true));
    assert!(Pos::is_valid_direction(Pos::Center, true));
}

#[test]
fn gradient_shapes_are_case_sensitive() {
    let mut p = Parser::new("circle");
    assert_eq!(radial_gradient_shape(&mut p), Ok(GradientShape::Circle));
    let mut p = Parser::new("ellipse");
    assert_eq!(radial_gradient_shape(&mut p), Ok(GradientShape::Ellipse));
    let mut p = Parser::new("Circle");
    assert_eq!(
        radial_gradient_shape(&mut p),
        Err(ParseError::Custom(CustomError::Unsupported))
    );
    let mut p = Parser::new("");
    assert_eq!(
        radial_gradient_shape(&mut p),
        Err(ParseError::Custom(CustomError::Unsupported))
    );
}

#[test]
fn operators_are_peeked() {
    let mut p = Parser::new("* 2");
    assert_eq!(next_operator(&mut p), Some(Operator::Mul));
    assert_eq!(next_operator(&mut p), Some(Operator::Mul));
    let mut p = Parser::new("/");
    assert_eq!(next_operator(&mut p), Some(Operator::Div));
    let mut p = Parser::new("x");
    assert_eq!(next_operator(&mut p), None);
}

#[test]
fn background_position_ends() {
    assert!(bg_pos_is_end(&mut Parser::new("")));
    assert!(bg_pos_is_end(&mut Parser::new(", 10px")));
    assert!(bg_pos_is_end(&mut Parser::new("; color: red")));
    assert!(bg_pos_is_end(&mut Parser::new("!IMPORTANT")));
    assert!(!bg_pos_is_end(&mut Parser::new("! other")));
    assert!(!bg_pos_is_end(&mut Parser::new("left")));
    let mut p = Parser::new(", x");
    assert!(bg_pos_is_end(&mut p));
    assert!(bg_pos_is_end(&mut p));
    assert_eq!(font_family_name(&mut p), Err(ParseError::Basic));
}

#[test]
fn important_is_peeked() {
    let mut p = Parser::new("serif !important");
    assert_eq!(font_family_repr(&mut p), Ok(vec![FontFamilyName::Serif]));
    assert!(bg_pos_is_end(&mut p));
    let mut p = Parser::new("serif important");
    assert_eq!(
        font_family_repr(&mut p),
        Err(ParseError::Custom(CustomError::Unsupported))
    );
}

#[test]
fn font_family_names() {
    let mut p = Parser::new("Sans-Serif");
    assert_eq!(font_family_name(&mut p), Ok(FontFamilyName::SansSerif));
    let mut p = Parser::new("\"My Font\"");
    assert_eq!(
        font_family_name(&mut p),
        Ok(FontFamilyName::Title("My Font".to_string()))
    );
    let mut p = Parser::new("Times New Roman, serif");
    assert_eq!(
        font_family_name(&mut p),
        Ok(FontFamilyName::Title("Times New Roman".to_string()))
    );
    let mut p = Parser::new("Times 12");
    assert_eq!(font_family_name(&mut p), Err(ParseError::Basic));
}

#[test]
fn font_family_lists() {
    let mut p = Parser::new("Times New Roman, serif !important");
    assert_eq!(
        font_family_repr(&mut p),
        Ok(vec![
            FontFamilyName::Title("Times New Roman".to_string()),
            FontFamilyName::Serif
        ])
    );
    let mut p = Parser::new("a; b");
    assert_eq!(font_family_repr(&mut p), Err(ParseError::Basic));
    let mut p = Parser::new("serif x");
    assert_eq!(
        font_family_repr(&mut p),
        Err(ParseError::Custom(CustomError::Unsupported))
    );
    assert_eq!(font_family_name(&mut p), Ok(FontFamilyName::Serif));
}

#[test]
fn media_types_ignore_case() {
    assert_eq!(str_to_media_type("all"), Some(MediaType::All));
    assert_eq!(str_to_media_type("SCREEN"), Some(MediaType::Screen));
    assert_eq!(str_to_media_type("print"), None);
}

#[test]
fn length_unit_is_specified() {
    assert!(LengthUnit::Px.is_specified_unit());
    assert!(LengthUnit::Vmax.is_specified_unit());
    assert!(LengthUnit::Ratio.is_specified_unit());
    assert!(!LengthUnit::Undefined.is_specified_unit());
    assert!(!LengthUnit::Expr.is_specified_unit());
    assert!(!LengthUnit::Auto.is_specified_unit());
}

#[test]
fn family_title_stops_at_comma() {
    let mut p = Parser::new("Helvetica Neue, serif");
    assert_eq!(
        font_family_name(&mut p),
        Ok(FontFamilyName::Title("Helvetica Neue".to_string()))
    );
    assert_eq!(font_family_name(&mut p), Err(ParseError::Basic));
    let mut p = Parser::new("Helvetica Neue !important");
    assert_eq!(
        font_family_name(&mut p),
        Ok(FontFamilyName::Title("Helvetica Neue".to_string()))
    );
    assert!(bg_pos_is_end(&mut p));
}

#[test]
fn families_from_given_tokens() {
    let id = |s: &str| Tok::Ident(s.to_string());
    let ts = vec![id("a"), id("b"), Tok::Comma, id("Serif"), Tok::Delim('!'), id("IMPORTANT")];
    assert_eq!(
        family_from_tokens(&ts, 0),
        (Ok(FontFamilyName::Title("a b".to_string())), 2)
    );
    assert_eq!(family_from_tokens(&ts, 3), (Ok(FontFamilyName::Serif), 4));
    assert_eq!(family_from_tokens(&ts, 2), (Err(ParseError::Basic), 3));
    assert_eq!(
        families_from_tokens(&ts),
        (Ok(vec![FontFamilyName::Title("a b".to_string()), FontFamilyName::Serif]), 4)
    );
    let bad = vec![id("a"), Tok::Delim('/'), id("b")];
    assert_eq!(family_from_tokens(&bad, 0), (Err(ParseError::Basic), 2));
    let bad = vec![Tok::QuotedString("x y".to_string()), id("b")];
    assert_eq!(
        families_from_tokens(&bad),
        (Err(ParseError::Custom(CustomError::Unsupported)), 2)
    );
}

#[test]
fn position_end_decision() {
    assert!(ends_position(&None, false));
    assert!(ends_position(&Some(Tok::Comma), false));
    assert!(ends_position(&Some(Tok::Delim('!')), true));
    assert!(!ends_position(&Some(Tok::Delim('!')), false));
    assert!(!ends_position(&Some(Tok::Ident("left".to_string())), true));
}
