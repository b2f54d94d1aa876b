//! Keyword values of CSS properties and the keyword tables that name them.

use vstd::prelude::*;

use super::text::chars_eq;

verus! {

/// The `font-display` descriptor of `@font-face`.
#[derive(Debug, Clone, Copy, PartialEq, Eq, Structural)]
pub enum FontDisplay {
    Auto,
    Block,
    Swap,
    Fallback,
    Optional,
}

/// The shape of a radial gradient.
#[derive(Debug, Clone, Copy, PartialEq, Eq, Structural)]
pub enum GradientShape {
    Circle,
    Ellipse,
}

/// A media type of a media query.
#[derive(Debug, Clone, Copy, PartialEq, Eq, Structural)]
pub enum MediaType {
    All,
    Screen,
}

/// A font family name: a generic family or a title.
#[derive(Debug, PartialEq, Eq)]
pub enum FontFamilyName {
    Serif,
    SansSerif,
    Monospace,
    Cursive,
    Fantasy,
    SystemUi,
    Title(String),
}

/// A keyword of `background-position`.
#[derive(Debug, Clone, Copy, PartialEq, Eq, Structural)]
pub enum Pos {
    Center,
    Left,
    Right,
    Bottom,
    Top,
}

/// An operator of a `calc()` expression.
#[derive(Debug, Clone, Copy, PartialEq, Eq, Structural)]
pub enum Operator {
    Plus,
    Sub,
    Mul,
    Div,
}

/// The unit of a length.
#[derive(Debug, Clone, Copy, PartialEq, Eq, Structural)]
pub enum LengthUnit {
    Px,
    Vw,
    Vh,
    Rem,
    Rpx,
    Em,
    Ratio,
    Vmin,
    Vmax,
    Undefined,
    Expr,
    Auto,
}

impl LengthUnit {
    /// Whether the unit belongs to a literal length: not `Undefined`,
    /// `Expr` or `Auto`.
    pub open spec fn spec_is_specified_unit(self) -> bool {
        !(self == LengthUnit::Undefined || self == LengthUnit::Expr || self == LengthUnit::Auto)
    }

    /// Whether the unit belongs to a literal length.
    pub fn is_specified_unit(&self) -> (r: bool)
        ensures
            r == self.spec_is_specified_unit(),
    {
        !matches!(self, LengthUnit::Undefined | LengthUnit::Expr | LengthUnit::Auto)
    }
}

impl Pos {
    /// Whether `a` and `b` lie on the same axis; `center` lies on none.
    pub open spec fn spec_same_direction(a: Pos, b: Pos) -> bool {
        match a {
            Pos::Left | Pos::Right => b == Pos::Left || b == Pos::Right,
            Pos::Top | Pos::Bottom => b == Pos::Top || b == Pos::Bottom,
            Pos::Center => false,
        }
    }

    /// Whether `a` may stand on the given axis; `center` may stand on both.
    pub open spec fn spec_valid_direction(a: Pos, is_horizontal: bool) -> bool {
        match a {
            Pos::Left | Pos::Right => is_horizontal,
            Pos::Top | Pos::Bottom => !is_horizontal,
            Pos::Center => true,
        }
    }

    /// Whether `a` and `b` lie on the same axis.
    pub fn is_same_direction(a: Self, b: Self) -> (r: bool)
        ensures
            r == Self::spec_same_direction(a, b),
    {
        match a {
            Pos::Left => b == Pos::Right || b == Pos::Left,
            Pos::Right => b == Pos::Right || b == Pos::Left,
            Pos::Top => b == Pos::Top || b == Pos::Bottom,
            Pos::Bottom => b == Pos::Top || b == Pos::Bottom,
            Pos::Center => false,
        }
    }

    /// Whether `a` may stand on the given axis.
    pub fn is_valid_direction(a: Self, is_horizontal: bool) -> (r: bool)
        ensures
            r == Self::spec_valid_direction(a, is_horizontal),
    {
        match a {
            Pos::Left | Pos::Right => is_horizontal,
            Pos::Top | Pos::Bottom => !is_horizontal,
            Pos::Center => true,
        }
    }
}

/// The `font-display` keyword named by a lowercase identifier.
pub open spec fn spec_font_display(name: Seq<char>) -> Option<FontDisplay> {
    if name == seq!['a', 'u', 't', 'o'] {
        Some(FontDisplay::Auto)
    } else if name == seq!['b', 'l', 'o', 'c', 'k'] {
        Some(FontDisplay::Block)
    } else if name == seq!['s', 'w', 'a', 'p'] {
        Some(FontDisplay::Swap)
    } else if name == seq!['f', 'a', 'l', 'l', 'b', 'a', 'c', 'k'] {
        Some(FontDisplay::Fallback)
    } else if name == seq!['o', 'p', 't', 'i', 'o', 'n', 'a', 'l'] {
        Some(FontDisplay::Optional)
    } else {
        None
    }
}

/// Looks up a lowercase `font-display` keyword.
pub fn font_display_keyword(name: &[char]) -> (r: Option<FontDisplay>)
    ensures
        r == spec_font_display(name@),
{
    let auto = ['a', 'u', 't', 'o'];
    let block = ['b', 'l', 'o', 'c', 'k'];
    let swap = ['s', 'w', 'a', 'p'];
    let fallback = ['f', 'a', 'l', 'l', 'b', 'a', 'c', 'k'];
    let optional = ['o', 'p', 't', 'i', 'o', 'n', 'a', 'l'];
    assert(auto@ =~= seq!['a', 'u', 't', 'o']);
    assert(block@ =~= seq!['b', 'l', 'o', 'c', 'k']);
    assert(swap@ =~= seq!['s', 'w', 'a', 'p']);
    assert(fallback@ =~= seq!['f', 'a', 'l', 'l', 'b', 'a', 'c', 'k']);
    assert(optional@ =~= seq!['o', 'p', 't', 'i', 'o', 'n', 'a', 'l']);
    if chars_eq(name, auto.as_slice()) {
        Some(FontDisplay::Auto)
    } else if chars_eq(name, block.as_slice()) {
        Some(FontDisplay::Block)
    } else if chars_eq(name, swap.as_slice()) {
        Some(FontDisplay::Swap)
    } else if chars_eq(name, fallback.as_slice()) {
        Some(FontDisplay::Fallback)
    } else if chars_eq(name, optional.as_slice()) {
        Some(FontDisplay::Optional)
    } else {
        None
    }
}

/// The `background-position` keyword named by a lowercase identifier.
pub open spec fn spec_pos_keyword(name: Seq<char>) -> Option<Pos> {
    if name == seq!['c', 'e', 'n', 't', 'e', 'r'] {
        Some(Pos::Center)
    } else if name == seq!['l', 'e', 'f', 't'] {
        Some(Pos::Left)
    } else if name == seq!['r', 'i', 'g', 'h', 't'] {
        Some(Pos::Right)
    } else if name == seq!['b', 'o', 't', 't', 'o', 'm'] {
        Some(Pos::Bottom)
    } else if name == seq!['t', 'o', 'p'] {
        Some(Pos::Top)
    } else {
        None
    }
}

/// Looks up a lowercase `background-position` keyword.
pub fn pos_keyword(name: &[char]) -> (r: Option<Pos>)
    ensures
        r == spec_pos_keyword(name@),
{
    let k0 = ['c', 'e', 'n', 't', 'e', 'r'];
    assert(k0@ =~= seq!['c', 'e', 'n', 't', 'e', 'r']);
    let k1 = ['l', 'e', 'f', 't'];
    assert(k1@ =~= seq!['l', 'e', 'f', 't']);
    let k2 = ['r', 'i', 'g', 'h', 't'];
    assert(k2@ =~= seq!['r', 'i', 'g', 'h', 't']);
    let k3 = ['b', 'o', 't', 't', 'o', 'm'];
    assert(k3@ =~= seq!['b', 'o', 't', 't', 'o', 'm']);
    let k4 = ['t', 'o', 'p'];
    assert(k4@ =~= seq!['t', 'o', 'p']);
    if chars_eq(name, k0.as_slice()) {
        Some(Pos::Center)
    } else if chars_eq(name, k1.as_slice()) {
        Some(Pos::Left)
    } else if chars_eq(name, k2.as_slice()) {
        Some(Pos::Right)
    } else if chars_eq(name, k3.as_slice()) {
        Some(Pos::Bottom)
    } else if chars_eq(name, k4.as_slice()) {
        Some(Pos::Top)
    } else {
        None
    }
}

/// The radial gradient shape named by an identifier (matched exactly).
pub open spec fn spec_gradient_shape(name: Seq<char>) -> Option<GradientShape> {
    if name == seq!['c', 'i', 'r', 'c', 'l', 'e'] {
        Some(GradientShape::Circle)
    } else if name == seq!['e', 'l', 'l', 'i', 'p', 's', 'e'] {
        Some(GradientShape::Ellipse)
    } else {
        None
    }
}

/// Looks up a radial gradient shape keyword.
pub fn gradient_shape_keyword(name: &[char]) -> (r: Option<GradientShape>)
    ensures
        r == spec_gradient_shape(name@),
{
    let k0 = ['c', 'i', 'r', 'c', 'l', 'e'];
    assert(k0@ =~= seq!['c', 'i', 'r', 'c', 'l', 'e']);
    let k1 = ['e', 'l', 'l', 'i', 'p', 's', 'e'];
    assert(k1@ =~= seq!['e', 'l', 'l', 'i', 'p', 's', 'e']);
    if chars_eq(name, k0.as_slice()) {
        Some(GradientShape::Circle)
    } else if chars_eq(name, k1.as_slice()) {
        Some(GradientShape::Ellipse)
    } else {
        None
    }
}

/// The generic font family named by a lowercase identifier.
pub open spec fn spec_generic_family(name: Seq<char>) -> Option<FontFamilyName> {
    if name == seq!['s', 'e', 'r', 'i', 'f'] {
        Some(FontFamilyName::Serif)
    } else if name == seq!['s', 'a', 'n', 's', '-', 's', 'e', 'r', 'i', 'f'] {
        Some(FontFamilyName::SansSerif)
    } else if name == seq!['m', 'o', 'n', 'o', 's', 'p', 'a', 'c', 'e'] {
        Some(FontFamilyName::Monospace)
    } else if name == seq!['c', 'u', 'r', 's', 'i', 'v', 'e'] {
        Some(FontFamilyName::Cursive)
    } else if name == seq!['f', 'a', 'n', 't', 'a', 's', 'y'] {
        Some(FontFamilyName::Fantasy)
    } else if name == seq!['s', 'y', 's', 't', 'e', 'm', '-', 'u', 'i'] {
        Some(FontFamilyName::SystemUi)
    } else {
        None
    }
}

/// Looks up a lowercase generic font family keyword.
pub fn generic_family_keyword(name: &[char]) -> (r: Option<FontFamilyName>)
    ensures
        r == spec_generic_family(name@),
{
    let k0 = ['s', 'e', 'r', 'i', 'f'];
    assert(k0@ =~= seq!['s', 'e', 'r', 'i', 'f']);
    let k1 = ['s', 'a', 'n', 's', '-', 's', 'e', 'r', 'i', 'f'];
    assert(k1@ =~= seq!['s', 'a', 'n', 's', '-', 's', 'e', 'r', 'i', 'f']);
    let k2 = ['m', 'o', 'n', 'o', 's', 'p', 'a', 'c', 'e'];
    assert(k2@ =~= seq!['m', 'o', 'n', 'o', 's', 'p', 'a', 'c', 'e']);
    let k3 = ['c', 'u', 'r', 's', 'i', 'v', 'e'];
    assert(k3@ =~= seq!['c', 'u', 'r', 's', 'i', 'v', 'e']);
    let k4 = ['f', 'a', 'n', 't', 'a', 's', 'y'];
    assert(k4@ =~= seq!['f', 'a', 'n', 't', 'a', 's', 'y']);
    let k5 = ['s', 'y', 's', 't', 'e', 'm', '-', 'u', 'i'];
    assert(k5@ =~= seq!['s', 'y', 's', 't', 'e', 'm', '-', 'u', 'i']);
    if chars_eq(name, k0.as_slice()) {
        Some(FontFamilyName::Serif)
    } else if chars_eq(name, k1.as_slice()) {
        Some(FontFamilyName::SansSerif)
    } else if chars_eq(name, k2.as_slice()) {
        Some(FontFamilyName::Monospace)
    } else if chars_eq(name, k3.as_slice()) {
        Some(FontFamilyName::Cursive)
    } else if chars_eq(name, k4.as_slice()) {
        Some(FontFamilyName::Fantasy)
    } else if chars_eq(name, k5.as_slice()) {
        Some(FontFamilyName::SystemUi)
    } else {
        None
    }
}

/// The media type named by a lowercase identifier.
pub open spec fn spec_media_type(name: Seq<char>) -> Option<MediaType> {
    if name == seq!['a', 'l', 'l'] {
        Some(MediaType::All)
    } else if name == seq!['s', 'c', 'r', 'e', 'e', 'n'] {
        Some(MediaType::Screen)
    } else {
        None
    }
}

/// Looks up a lowercase media type.
pub fn media_type_keyword(name: &[char]) -> (r: Option<MediaType>)
    ensures
        r == spec_media_type(name@),
{
    let k0 = ['a', 'l', 'l'];
    assert(k0@ =~= seq!['a', 'l', 'l']);
    let k1 = ['s', 'c', 'r', 'e', 'e', 'n'];
    assert(k1@ =~= seq!['s', 'c', 'r', 'e', 'e', 'n']);
    if chars_eq(name, k0.as_slice()) {
        Some(MediaType::All)
    } else if chars_eq(name, k1.as_slice()) {
        Some(MediaType::Screen)
    } else {
        None
    }
}

/// The `calc()` operator that a delimiter char stands for.
pub open spec fn spec_operator(c: char) -> Option<Operator> {
    if c == '+' {
        Some(Operator::Plus)
    } else if c == '-' {
        Some(Operator::Sub)
    } else if c == '*' {
        Some(Operator::Mul)
    } else if c == '/' {
        Some(Operator::Div)
    } else {
        None
    }
}

/// The `calc()` operator that a delimiter char stands for.
pub fn operator_for_delim(c: char) -> (r: Option<Operator>)
    ensures
        r == spec_operator(c),
{
    match c {
        '+' => Some(Operator::Plus),
        '-' => Some(Operator::Sub),
        '*' => Some(Operator::Mul),
        '/' => Some(Operator::Div),
        _ => None,
    }
}

/// Each `font-display` keyword names its own value, distinct keywords name
/// distinct values, and no other name is a keyword.
pub proof fn law_font_display_keywords(name: Seq<char>)
    ensures
        spec_font_display(seq!['a', 'u', 't', 'o']) == Some(FontDisplay::Auto),
        spec_font_display(seq!['b', 'l', 'o', 'c', 'k']) == Some(FontDisplay::Block),
        spec_font_display(seq!['s', 'w', 'a', 'p']) == Some(FontDisplay::Swap),
        spec_font_display(seq!['f', 'a', 'l', 'l', 'b', 'a', 'c', 'k']) == Some(FontDisplay::Fallback),
        spec_font_display(seq!['o', 'p', 't', 'i', 'o', 'n', 'a', 'l']) == Some(FontDisplay::Optional),
        spec_font_display(name) is Some <==> (name == seq!['a', 'u', 't', 'o'] || name == seq!['b', 'l', 'o', 'c', 'k'] || name == seq!['s', 'w', 'a', 'p'] || name == seq!['f', 'a', 'l', 'l', 'b', 'a', 'c', 'k'] || name == seq!['o', 'p', 't', 'i', 'o', 'n', 'a', 'l']),
        forall|other: Seq<char>| spec_font_display(name) is Some && #[trigger] spec_font_display(other) == spec_font_display(name) ==> other == name,
{
}

/// Each `background-position` keyword names its own position (`right` the
/// right side, not the left), distinct keywords name distinct positions,
/// and no other name is a keyword.
pub proof fn law_pos_keywords(name: Seq<char>)
    ensures
        spec_pos_keyword(seq!['c', 'e', 'n', 't', 'e', 'r']) == Some(Pos::Center),
        spec_pos_keyword(seq!['l', 'e', 'f', 't']) == Some(Pos::Left),
        spec_pos_keyword(seq!['r', 'i', 'g', 'h', 't']) == Some(Pos::Right),
        spec_pos_keyword(seq!['b', 'o', 't', 't', 'o', 'm']) == Some(Pos::Bottom),
        spec_pos_keyword(seq!['t', 'o', 'p']) == Some(Pos::Top),
        spec_pos_keyword(name) is Some <==> (name == seq!['c', 'e', 'n', 't', 'e', 'r'] || name == seq!['l', 'e', 'f', 't'] || name == seq!['r', 'i', 'g', 'h', 't'] || name == seq!['b', 'o', 't', 't', 'o', 'm'] || name == seq!['t', 'o', 'p']),
        forall|other: Seq<char>| spec_pos_keyword(name) is Some && #[trigger] spec_pos_keyword(other) == spec_pos_keyword(name) ==> other == name,
{
}

/// Each radial gradient shape keyword names its own shape, and no other
/// name is one.
pub proof fn law_gradient_shape_keywords(name: Seq<char>)
    ensures
        spec_gradient_shape(seq!['c', 'i', 'r', 'c', 'l', 'e']) == Some(GradientShape::Circle),
        spec_gradient_shape(seq!['e', 'l', 'l', 'i', 'p', 's', 'e']) == Some(GradientShape::Ellipse),
        spec_gradient_shape(name) is Some <==> (name == seq!['c', 'i', 'r', 'c', 'l', 'e'] || name == seq!['e', 'l', 'l', 'i', 'p', 's', 'e']),
        forall|other: Seq<char>| spec_gradient_shape(name) is Some && #[trigger] spec_gradient_shape(other) == spec_gradient_shape(name) ==> other == name,
{
}

/// Each generic font family keyword names its own family (`monospace` the
/// monospace family), distinct keywords name distinct families, and no
/// other name is a generic family.
pub proof fn law_generic_family_keywords(name: Seq<char>)
    ensures
        spec_generic_family(seq!['s', 'e', 'r', 'i', 'f']) == Some(FontFamilyName::Serif),
        spec_generic_family(seq!['s', 'a', 'n', 's', '-', 's', 'e', 'r', 'i', 'f']) == Some(FontFamilyName::SansSerif),
        spec_generic_family(seq!['m', 'o', 'n', 'o', 's', 'p', 'a', 'c', 'e']) == Some(FontFamilyName::Monospace),
        spec_generic_family(seq!['c', 'u', 'r', 's', 'i', 'v', 'e']) == Some(FontFamilyName::Cursive),
        spec_generic_family(seq!['f', 'a', 'n', 't', 'a', 's', 'y']) == Some(FontFamilyName::Fantasy),
        spec_generic_family(seq!['s', 'y', 's', 't', 'e', 'm', '-', 'u', 'i']) == Some(FontFamilyName::SystemUi),
        spec_generic_family(name) is Some <==> (name == seq!['s', 'e', 'r', 'i', 'f'] || name == seq!['s', 'a', 'n', 's', '-', 's', 'e', 'r', 'i', 'f'] || name == seq!['m', 'o', 'n', 'o', 's', 'p', 'a', 'c', 'e'] || name == seq!['c', 'u', 'r', 's', 'i', 'v', 'e'] || name == seq!['f', 'a', 'n', 't', 'a', 's', 'y'] || name == seq!['s', 'y', 's', 't', 'e', 'm', '-', 'u', 'i']),
        forall|other: Seq<char>| spec_generic_family(name) is Some && #[trigger] spec_generic_family(other) == spec_generic_family(name) ==> other == name,
{
}

/// Each media type keyword names its own media type, and no other name is
/// one.
pub proof fn law_media_type_keywords(name: Seq<char>)
    ensures
        spec_media_type(seq!['a', 'l', 'l']) == Some(MediaType::All),
        spec_media_type(seq!['s', 'c', 'r', 'e', 'e', 'n']) == Some(MediaType::Screen),
        spec_media_type(name) is Some <==> (name == seq!['a', 'l', 'l'] || name == seq!['s', 'c', 'r', 'e', 'e', 'n']),
        forall|other: Seq<char>| spec_media_type(name) is Some && #[trigger] spec_media_type(other) == spec_media_type(name) ==> other == name,
{
}

/// Each `calc()` operator char stands for its own operation (`-` for
/// subtraction, `/` for division), distinct chars for distinct operations,
/// and no other char is an operator.
pub proof fn law_operator_delims(c: char)
    ensures
        spec_operator('+') == Some(Operator::Plus),
        spec_operator('-') == Some(Operator::Sub),
        spec_operator('*') == Some(Operator::Mul),
        spec_operator('/') == Some(Operator::Div),
        spec_operator(c) is Some <==> (c == '+' || c == '-' || c == '*' || c == '/'),
        forall|other: char| spec_operator(c) is Some && #[trigger] spec_operator(other) == spec_operator(c) ==> other == c,
{
}

} // verus!
