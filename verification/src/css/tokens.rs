//! Reading keyword values from a `cssparser` token stream.
//!
//! The parser itself is opaque here; the tokens it hands out from its
//! position on are named `parser_tokens`. Each reading function is split in
//! two: a function that takes the next tokens from the parser, and a
//! decision function with an exact contract that turns those tokens into a
//! value. The reading function's contract ties the two together: which
//! tokens were decided on, and which the parser holds afterwards.

use cssparser::{Parser, ParserState, Token};
use vstd::prelude::*;

use super::text::{push_str, str_chars, string_push};
use super::values::{
    font_display_keyword, generic_family_keyword, gradient_shape_keyword, operator_for_delim,
    pos_keyword, spec_font_display, spec_generic_family, spec_gradient_shape, spec_operator,
    spec_pos_keyword, FontDisplay, FontFamilyName, GradientShape, Operator, Pos,
};

verus! {

/// The `cssparser` parser, opaque to the proofs.
#[verifier::external_type_specification]
#[verifier::external_body]
pub struct ExParser<'i>(Parser<'i>);

/// A saved position of a `cssparser` parser.
#[verifier::external_type_specification]
#[verifier::external_body]
pub struct ExParserState(ParserState);

/// The tokens that the keyword readers tell apart.
#[derive(Debug, PartialEq, Eq)]
pub enum Tok {
    Ident(String),
    QuotedString(String),
    Delim(char),
    Comma,
    Semicolon,
    CurlyBracketBlock,
    /// Any other token.
    Other,
}

/// Errors of the value parsers.
#[derive(Debug, PartialEq, Eq)]
pub enum CustomError {
    Unmatched,
    UnsupportedProperty,
    SkipErrorBlock,
    Unsupported,
    Eop,
    Reason(String),
    VariableCycle(String, bool),
    UnexpectedTokenInAttributeSelector,
    BadValueInAttr,
}

/// A parse error: an unexpected token or end of input, or a custom error.
#[derive(Debug, PartialEq, Eq)]
pub enum ParseError {
    Basic,
    Custom(CustomError),
}

/// The Unicode lowercase form of a string, as `str::to_lowercase` computes it.
pub uninterp spec fn lowercase_of(s: Seq<char>) -> Seq<char>;

/// Lowercases `s`.
///
/// Calls `str::to_lowercase`; the result is named `lowercase_of`, a function
/// of the chars of `s` alone (the Unicode case tables are not restated).
#[verifier::external_body]
pub fn to_lowercase(s: &str) -> (r: String)
    ensures
        r@ == lowercase_of(s@),
{
    s.to_lowercase()
}

/// The tokens that `parser` hands out from its position on, one per call of
/// `Parser::next`, up to its end of input (or the delimiter it stops
/// before): white space and comments left out, a block or function counted
/// as its opening token. What the parser holds, read as a sequence.
pub uninterp spec fn parser_tokens(parser: Parser<'_>) -> Seq<Tok>;

/// The tokens that `parser` hands out once reset to `state`
/// (`Parser::reset`), read as `parser_tokens` reads them.
pub uninterp spec fn tokens_after_reset(parser: Parser<'_>, state: ParserState) -> Seq<Tok>;

/// The first of `ts`, if any.
pub open spec fn first_token(ts: Seq<Tok>) -> Option<Tok> {
    if ts.len() > 0 { Some(ts[0]) } else { None }
}

/// `ts` without its first token (empty stays empty).
pub open spec fn after_first(ts: Seq<Tok>) -> Seq<Tok> {
    if ts.len() > 0 { ts.skip(1) } else { ts }
}

/// Whether a reset of `p` and of `q` to any state gives the same tokens:
/// `p` and `q` read the same input at the same nesting level.
pub open spec fn same_input(p: Parser<'_>, q: Parser<'_>) -> bool {
    forall|s: ParserState| #[trigger] tokens_after_reset(p, s) == tokens_after_reset(q, s)
}

/// Takes the next token that is not whitespace or a comment
/// (`Parser::next`).
///
/// Claims that the token is the first of `parser_tokens`, `None` standing
/// for the error that the end of input gives, that the parser then holds the
/// rest, and that a later reset still reads the same input (`next` moves the
/// tokenizer's position only).
#[verifier::external_body]
pub(crate) fn next_token(parser: &mut Parser<'_>) -> (r: Option<Tok>)
    ensures
        r == first_token(parser_tokens(*old(parser))),
        parser_tokens(*final(parser)) == after_first(parser_tokens(*old(parser))),
        same_input(*final(parser), *old(parser)),
{
    match parser.next() {
        Ok(Token::Ident(s)) => Some(Tok::Ident(s.to_string())),
        Ok(Token::QuotedString(s)) => Some(Tok::QuotedString(s.to_string())),
        Ok(Token::Delim(c)) => Some(Tok::Delim(*c)),
        Ok(Token::Comma) => Some(Tok::Comma),
        Ok(Token::Semicolon) => Some(Tok::Semicolon),
        Ok(Token::CurlyBracketBlock) => Some(Tok::CurlyBracketBlock),
        Ok(_) => Some(Tok::Other),
        Err(_) => None,
    }
}

/// Saves the parser's position (`Parser::state`).
///
/// Claims that a reset to the saved state gives back the tokens that the
/// parser holds now.
#[verifier::external_body]
pub(crate) fn parser_state(parser: &Parser<'_>) -> (r: ParserState)
    ensures
        tokens_after_reset(*parser, r) == parser_tokens(*parser),
{
    parser.state()
}

/// Restores a saved position (`Parser::reset`).
///
/// Claims that the parser then holds the tokens that `tokens_after_reset`
/// names, and still reads the same input. Every caller hands it a state
/// saved on the same parser, as `Parser::reset` asks.
#[verifier::external_body]
pub(crate) fn parser_reset(parser: &mut Parser<'_>, state: &ParserState)
    ensures
        parser_tokens(*final(parser)) == tokens_after_reset(*old(parser), *state),
        same_input(*final(parser), *old(parser)),
{
    parser.reset(state)
}

/// The `font-display` value that a token names.
pub open spec fn spec_font_display_from_token(tok: Option<Tok>) -> Result<FontDisplay, ParseError> {
    match tok {
        Some(Tok::Ident(s)) => match spec_font_display(lowercase_of(s@)) {
            Some(v) => Ok(v),
            None => Err(ParseError::Custom(CustomError::Unsupported)),
        },
        _ => Err(ParseError::Basic),
    }
}

/// The `font-display` value that a token names: an identifier, matched
/// ignoring case.
pub fn font_display_from_token(tok: Option<Tok>) -> (r: Result<FontDisplay, ParseError>)
    ensures
        r == spec_font_display_from_token(tok),
{
    match tok {
        Some(Tok::Ident(s)) => {
            let lower = to_lowercase(s.as_str());
            let name = str_chars(lower.as_str());
            match font_display_keyword(name.as_slice()) {
                Some(v) => Ok(v),
                None => Err(ParseError::Custom(CustomError::Unsupported)),
            }
        },
        _ => Err(ParseError::Basic),
    }
}

/// Parses a `font-display` value from the next token, which it takes.
pub fn font_display(parser: &mut Parser<'_>) -> (r: Result<FontDisplay, ParseError>)
    ensures
        r == spec_font_display_from_token(first_token(parser_tokens(*old(parser)))),
        parser_tokens(*final(parser)) == after_first(parser_tokens(*old(parser))),
        same_input(*final(parser), *old(parser)),
{
    let tok = next_token(parser);
    font_display_from_token(tok)
}

/// The `background-position` keyword that a token names.
pub open spec fn spec_pos_from_token(tok: Option<Tok>) -> Result<Pos, ParseError> {
    match tok {
        Some(Tok::Ident(s)) => match spec_pos_keyword(lowercase_of(s@)) {
            Some(v) => Ok(v),
            None => Err(ParseError::Basic),
        },
        _ => Err(ParseError::Basic),
    }
}

/// The `background-position` keyword that a token names, ignoring case.
pub fn pos_from_token(tok: Option<Tok>) -> (r: Result<Pos, ParseError>)
    ensures
        r == spec_pos_from_token(tok),
{
    match tok {
        Some(Tok::Ident(s)) => {
            let lower = to_lowercase(s.as_str());
            let name = str_chars(lower.as_str());
            match pos_keyword(name.as_slice()) {
                Some(v) => Ok(v),
                None => Err(ParseError::Basic),
            }
        },
        _ => Err(ParseError::Basic),
    }
}

/// Parses a `background-position` keyword from the next token; on success
/// the token is taken, on failure the parser keeps its position.
pub fn try_parse_pos_keyword(parser: &mut Parser<'_>) -> (r: Result<Pos, ParseError>)
    ensures
        r == spec_pos_from_token(first_token(parser_tokens(*old(parser)))),
        parser_tokens(*final(parser)) == (if r is Ok {
            after_first(parser_tokens(*old(parser)))
        } else {
            parser_tokens(*old(parser))
        }),
        same_input(*final(parser), *old(parser)),
{
    let start = parser_state(parser);
    let tok = next_token(parser);
    let r = pos_from_token(tok);
    if r.is_err() {
        parser_reset(parser, &start);
    }
    r
}

/// The radial gradient shape that a token names.
pub open spec fn spec_shape_from_token(tok: Option<Tok>) -> Result<GradientShape, ParseError> {
    match tok {
        Some(Tok::Ident(s)) => match spec_gradient_shape(s@) {
            Some(v) => Ok(v),
            None => Err(ParseError::Custom(CustomError::Unsupported)),
        },
        _ => Err(ParseError::Custom(CustomError::Unsupported)),
    }
}

/// The radial gradient shape that a token names, matched exactly.
pub fn shape_from_token(tok: Option<Tok>) -> (r: Result<GradientShape, ParseError>)
    ensures
        r == spec_shape_from_token(tok),
{
    match tok {
        Some(Tok::Ident(s)) => {
            let name = str_chars(s.as_str());
            match gradient_shape_keyword(name.as_slice()) {
                Some(v) => Ok(v),
                None => Err(ParseError::Custom(CustomError::Unsupported)),
            }
        },
        _ => Err(ParseError::Custom(CustomError::Unsupported)),
    }
}

/// Parses the shape of a radial gradient from the next token; on success
/// the token is taken, on failure the parser keeps its position.
pub fn radial_gradient_shape(parser: &mut Parser<'_>) -> (r: Result<GradientShape, ParseError>)
    ensures
        r == spec_shape_from_token(first_token(parser_tokens(*old(parser)))),
        parser_tokens(*final(parser)) == (if r is Ok {
            after_first(parser_tokens(*old(parser)))
        } else {
            parser_tokens(*old(parser))
        }),
        same_input(*final(parser), *old(parser)),
{
    let start = parser_state(parser);
    let tok = next_token(parser);
    let r = shape_from_token(tok);
    if r.is_err() {
        parser_reset(parser, &start);
    }
    r
}

/// The `calc()` operator that a token stands for.
pub open spec fn spec_operator_from_token(tok: Option<Tok>) -> Option<Operator> {
    match tok {
        Some(Tok::Delim(c)) => spec_operator(c),
        _ => None,
    }
}

/// The `calc()` operator that a token stands for.
pub fn operator_from_token(tok: &Option<Tok>) -> (r: Option<Operator>)
    ensures
        r == spec_operator_from_token(*tok),
{
    match tok {
        Some(Tok::Delim(c)) => operator_for_delim(*c),
        _ => None,
    }
}

/// Looks at the next token for a `calc()` operator without consuming it.
pub fn next_operator(parser: &mut Parser<'_>) -> (r: Option<Operator>)
    ensures
        r == spec_operator_from_token(first_token(parser_tokens(*old(parser)))),
        parser_tokens(*final(parser)) == parser_tokens(*old(parser)),
        same_input(*final(parser), *old(parser)),
{
    let start = parser_state(parser);
    let tok = next_token(parser);
    let r = operator_from_token(&tok);
    parser_reset(parser, &start);
    r
}

/// Whether a token ends a `background-position` value: the end of input, a
/// comma, a semicolon, a `{` block, or a `!` followed by `important`.
pub open spec fn spec_ends_position(tok: Option<Tok>, important_follows: bool) -> bool {
    match tok {
        None => true,
        Some(Tok::Comma) | Some(Tok::Semicolon) | Some(Tok::CurlyBracketBlock) => true,
        Some(Tok::Delim(d)) => d == '!' && important_follows,
        _ => false,
    }
}

/// Whether a token ends a `background-position` value; `important_follows`
/// tells whether `important` follows a `!`.
pub fn ends_position(tok: &Option<Tok>, important_follows: bool) -> (r: bool)
    ensures
        r == spec_ends_position(*tok, important_follows),
{
    match tok {
        None => true,
        Some(Tok::Comma) | Some(Tok::Semicolon) | Some(Tok::CurlyBracketBlock) => true,
        Some(Tok::Delim(d)) => *d == '!' && important_follows,
        _ => false,
    }
}

/// Whether the next tokens end a `background-position` value; the parser
/// keeps its position.
pub fn bg_pos_is_end(parser: &mut Parser<'_>) -> (r: bool)
    ensures
        r == spec_ends_position(
            first_token(parser_tokens(*old(parser))),
            important_at(parser_tokens(*old(parser)), 0),
        ),
        parser_tokens(*final(parser)) == parser_tokens(*old(parser)),
        same_input(*final(parser), *old(parser)),
{
    let ghost ts = parser_tokens(*parser);
    let start = parser_state(parser);
    let tok = next_token(parser);
    let important = match &tok {
        Some(Tok::Delim(d)) => {
            if *d == '!' {
                match next_token(parser) {
                    Some(Tok::Ident(w)) => important_word(w.as_str()),
                    _ => false,
                }
            } else {
                false
            }
        },
        _ => false,
    };
    proof {
        if tok is Some {
            assert(ts.skip(1).len() > 0 ==> ts.skip(1)[0] == ts[1]);
        }
    }
    let r = ends_position(&tok, important);
    parser_reset(parser, &start);
    r
}

/// How single tokens are decided: an identifier is looked up, ignoring
/// case for `font-display` and `background-position` keywords and as
/// written for gradient shapes; an unknown `font-display` or shape name is
/// unsupported, an unknown position keyword or any token that is not an
/// identifier is a plain parse error (a shape then is unsupported too); a
/// delimiter is looked up as a `calc()` operator; and a value ends at the
/// end of input, a comma, a semicolon, a `{` block or `!important`.
pub proof fn law_token_decisions(tok: Option<Tok>, important: bool)
    ensures
        tok matches Some(Tok::Ident(s)) ==> spec_font_display_from_token(tok) == match spec_font_display(
            lowercase_of(s@),
        ) {
            Some(v) => Ok(v),
            None => Err(ParseError::Custom(CustomError::Unsupported)),
        },
        tok matches Some(Tok::Ident(s)) ==> spec_pos_from_token(tok) == match spec_pos_keyword(lowercase_of(s@)) {
            Some(v) => Ok(v),
            None => Err(ParseError::Basic),
        },
        tok matches Some(Tok::Ident(s)) ==> spec_shape_from_token(tok) == match spec_gradient_shape(s@) {
            Some(v) => Ok(v),
            None => Err(ParseError::Custom(CustomError::Unsupported)),
        },
        !(tok matches Some(Tok::Ident(_))) ==> spec_font_display_from_token(tok) == Err::<FontDisplay, ParseError>(
            ParseError::Basic,
        ) && spec_pos_from_token(tok) == Err::<Pos, ParseError>(ParseError::Basic) && spec_shape_from_token(tok)
            == Err::<GradientShape, ParseError>(ParseError::Custom(CustomError::Unsupported)),
        tok matches Some(Tok::Delim(c)) ==> spec_operator_from_token(tok) == spec_operator(c),
        !(tok matches Some(Tok::Delim(_))) ==> spec_operator_from_token(tok) is None,
        spec_ends_position(tok, important) <==> (tok is None || tok == Some(Tok::Comma) || tok == Some(Tok::Semicolon)
            || tok == Some(Tok::CurlyBracketBlock) || (tok == Some(Tok::Delim('!')) && important)),
{
}

/// Whether `!` followed by the identifier `important` (in any ASCII case)
/// starts at token `k`, as `cssparser::parse_important` reads it.
pub open spec fn important_at(ts: Seq<Tok>, k: int) -> bool {
    &&& 0 <= k
    &&& k + 1 < ts.len()
    &&& ts[k] == Tok::Delim('!')
    &&& ts[k + 1] matches Tok::Ident(w) && is_important_word(w@)
}

/// Whether `w` is `important` up to ASCII case.
pub open spec fn is_important_word(w: Seq<char>) -> bool {
    let lower = seq!['i', 'm', 'p', 'o', 'r', 't', 'a', 'n', 't'];
    let upper = seq!['I', 'M', 'P', 'O', 'R', 'T', 'A', 'N', 'T'];
    w.len() == 9 && forall|i: int| 0 <= i < 9 ==> (#[trigger] w[i] == lower[i] || w[i] == upper[i])
}

/// Whether `w` is `important` up to ASCII case.
fn important_word(w: &str) -> (r: bool)
    ensures
        r == is_important_word(w@),
{
    let lower = ['i', 'm', 'p', 'o', 'r', 't', 'a', 'n', 't'];
    let upper = ['I', 'M', 'P', 'O', 'R', 'T', 'A', 'N', 'T'];
    let v = str_chars(w);
    if v.len() != 9 {
        return false;
    }
    let mut i: usize = 0;
    while i < 9
        invariant
            v@ == w@,
            v@.len() == 9,
            i <= 9,
            lower@ == seq!['i', 'm', 'p', 'o', 'r', 't', 'a', 'n', 't'],
            upper@ == seq!['I', 'M', 'P', 'O', 'R', 'T', 'A', 'N', 'T'],
            forall|j: int| 0 <= j < i ==> (#[trigger] w@[j] == lower@[j] || w@[j] == upper@[j]),
        decreases 9 - i,
    {
        if v[i] != lower[i] && v[i] != upper[i] {
            return false;
        }
        i = i + 1;
    }
    true
}

/// Whether `!important` starts at token `k`.
fn important_follows(ts: &Vec<Tok>, k: usize) -> (r: bool)
    ensures
        r == important_at(ts@, k as int),
{
    if k >= ts.len() || ts.len() - k < 2 {
        return false;
    }
    match (&ts[k], &ts[k + 1]) {
        (Tok::Delim(c), Tok::Ident(w)) => *c == '!' && important_word(w.as_str()),
        _ => false,
    }
}

/// Where a family title that continues at token `k` ends: at the end of the
/// tokens, at a comma, or before `!important` (`true` and that index); or at
/// a token that is not an identifier (`false` and the index after it).
pub open spec fn title_end(ts: Seq<Tok>, k: int) -> (bool, int)
    decreases ts.len() - k,
{
    if k < 0 || k >= ts.len() || ts[k] is Comma || important_at(ts, k) {
        (true, k)
    } else if ts[k] is Ident {
        title_end(ts, k + 1)
    } else {
        (false, k + 1)
    }
}

/// The title made of the identifiers from token `i` up to token `e`,
/// separated by single spaces.
pub open spec fn title_text(ts: Seq<Tok>, i: int, e: int) -> Seq<char>
    decreases e - i,
{
    if e <= i + 1 {
        ts[i]->Ident_0@
    } else {
        title_text(ts, i, e - 1) + seq![' '] + ts[e - 1]->Ident_0@
    }
}

/// A font family in terms of chars: a generic family, or a title.
pub enum FamilySpec {
    Name(FontFamilyName),
    Title(Seq<char>),
}

/// Whether `f` is the family `s`.
pub open spec fn family_is(f: FontFamilyName, s: FamilySpec) -> bool {
    match s {
        FamilySpec::Name(n) => f == n,
        FamilySpec::Title(t) => f matches FontFamilyName::Title(x) && x@ == t,
    }
}

/// The font family named from token `i` of `ts` (the tokens that follow,
/// white space left out), and the index of the first token not taken: a
/// generic family keyword (an identifier, ignoring case), a quoted title,
/// or a title of identifiers joined by spaces that runs up to the end, a
/// comma or `!important`; any other token is an error.
pub open spec fn spec_family(ts: Seq<Tok>, i: int) -> (Result<FamilySpec, ParseError>, int) {
    if i < 0 || i >= ts.len() {
        (Err(ParseError::Basic), i)
    } else {
        match ts[i] {
            Tok::Ident(s) => match spec_generic_family(lowercase_of(s@)) {
                Some(v) => (Ok(FamilySpec::Name(v)), i + 1),
                None => {
                    let (ok, e) = title_end(ts, i + 1);
                    if ok {
                        (Ok(FamilySpec::Title(title_text(ts, i, e))), e)
                    } else {
                        (Err(ParseError::Basic), e)
                    }
                },
            },
            Tok::QuotedString(s) => (Ok(FamilySpec::Title(s@)), i + 1),
            _ => (Err(ParseError::Basic), i + 1),
        }
    }
}

/// Whether `r` is the result `spec` describes.
pub open spec fn family_result_is(r: Result<FontFamilyName, ParseError>, spec: Result<FamilySpec, ParseError>) -> bool {
    match spec {
        Ok(fs) => r matches Ok(f) && family_is(f, fs),
        Err(e) => r == Err::<FontFamilyName, ParseError>(e),
    }
}

/// A copy of `s`.
fn copy_text(s: &String) -> (r: String)
    ensures
        r@ == s@,
{
    let mut r = String::new();
    push_str(&mut r, s.as_str());
    r
}

proof fn lemma_title_end_step(ts: Seq<Tok>, k: int)
    requires
        0 <= k < ts.len(),
        !(ts[k] is Comma),
        !important_at(ts, k),
        ts[k] is Ident,
    ensures
        title_end(ts, k) == title_end(ts, k + 1),
{
}

/// The font family named from token `i` of `ts`; see `spec_family`.
pub fn family_from_tokens(ts: &Vec<Tok>, i: usize) -> (r: (Result<FontFamilyName, ParseError>, usize))
    ensures
        family_result_is(r.0, spec_family(ts@, i as int).0),
        r.1 == spec_family(ts@, i as int).1,
{
    if i >= ts.len() {
        return (Err(ParseError::Basic), i);
    }
    match &ts[i] {
        Tok::Ident(s) => {
            let lower = to_lowercase(s.as_str());
            let name = str_chars(lower.as_str());
            match generic_family_keyword(name.as_slice()) {
                Some(v) => (Ok(v), i + 1),
                None => {
                    let mut title = copy_text(s);
                    let mut k = i + 1;
                    while k < ts.len() && !matches!(ts[k], Tok::Comma) && !important_follows(ts, k)
                        invariant
                            i < k <= ts@.len(),
                            ts@[i as int] matches Tok::Ident(x) && x == s,
                            spec_generic_family(lowercase_of(s@)) is None,
                            title_end(ts@, i + 1) == title_end(ts@, k as int),
                            title@ == title_text(ts@, i as int, k as int),
                        decreases ts@.len() - k,
                    {
                        match &ts[k] {
                            Tok::Ident(w) => {
                                proof {
                                    lemma_title_end_step(ts@, k as int);
                                }
                                string_push(&mut title, ' ');
                                push_str(&mut title, w.as_str());
                                k = k + 1;
                            },
                            _ => {
                                assert(title_end(ts@, k as int) == (false, k + 1));
                                return (Err(ParseError::Basic), k + 1);
                            },
                        }
                    }
                    (Ok(FontFamilyName::Title(title)), k)
                },
            }
        },
        Tok::QuotedString(s) => (Ok(FontFamilyName::Title(copy_text(s))), i + 1),
        _ => (Err(ParseError::Basic), i + 1),
    }
}

/// A title never ends before the token it continues at.
proof fn lemma_title_end_ge(ts: Seq<Tok>, k: int)
    ensures
        title_end(ts, k).1 >= k,
    decreases ts.len() - k,
{
    if !(k < 0 || k >= ts.len() || ts[k] is Comma || important_at(ts, k)) && ts[k] is Ident {
        lemma_title_end_ge(ts, k + 1);
    }
}

/// A family that is read takes at least one token.
proof fn lemma_family_takes_a_token(ts: Seq<Tok>, i: int)
    ensures
        spec_family(ts, i).0 is Ok ==> spec_family(ts, i).1 > i,
{
    lemma_title_end_ge(ts, i + 1);
}

/// The comma-separated list of font families from token `i` of `ts`, which
/// ends at the end of the tokens or before `!important`; a family followed
/// by anything else is an `Unsupported` error. With the index of the first
/// token not taken.
pub open spec fn spec_families(ts: Seq<Tok>, i: int) -> (Result<Seq<FamilySpec>, ParseError>, int)
    decreases ts.len() - i,
{
    let (one, e) = spec_family(ts, i);
    match one {
        Err(err) => (Err(err), e),
        Ok(f) => {
            if e >= ts.len() || important_at(ts, e) {
                (Ok(seq![f]), e)
            } else if ts[e] is Comma && i < e {
                let (rest, e2) = spec_families(ts, e + 1);
                match rest {
                    Ok(fs) => (Ok(seq![f] + fs), e2),
                    Err(x) => (Err(x), e2),
                }
            } else {
                (Err(ParseError::Custom(CustomError::Unsupported)), e + 1)
            }
        },
    }
}

/// `r` with the families `acc` read before it.
pub open spec fn after_families(
    acc: Seq<FamilySpec>,
    r: (Result<Seq<FamilySpec>, ParseError>, int),
) -> (Result<Seq<FamilySpec>, ParseError>, int) {
    match r.0 {
        Ok(fs) => (Ok(acc + fs), r.1),
        Err(x) => (Err(x), r.1),
    }
}

/// Whether `r` is the list `spec` describes.
pub open spec fn families_result_is(
    r: Result<Vec<FontFamilyName>, ParseError>,
    spec: Result<Seq<FamilySpec>, ParseError>,
) -> bool {
    match spec {
        Ok(fs) => r matches Ok(v) && v@.len() == fs.len() && forall|k: int|
            0 <= k < fs.len() ==> family_is(#[trigger] v@[k], fs[k]),
        Err(e) => r == Err::<Vec<FontFamilyName>, ParseError>(e),
    }
}

/// The list of font families from the first token of `ts`; see
/// `spec_families`.
pub fn families_from_tokens(ts: &Vec<Tok>) -> (r: (Result<Vec<FontFamilyName>, ParseError>, usize))
    ensures
        families_result_is(r.0, spec_families(ts@, 0).0),
        r.1 == spec_families(ts@, 0).1,
{
    let mut values: Vec<FontFamilyName> = Vec::new();
    let ghost mut acc: Seq<FamilySpec> = Seq::empty();
    let mut i: usize = 0;
    proof {
        let r0 = spec_families(ts@, 0);
        match r0.0 {
            Ok(fs) => assert(Seq::<FamilySpec>::empty() + fs =~= fs),
            Err(_) => {},
        }
    }
    loop
        invariant
            i <= ts@.len(),
            values@.len() == acc.len(),
            forall|k: int| 0 <= k < acc.len() ==> family_is(#[trigger] values@[k], acc[k]),
            spec_families(ts@, 0) == after_families(acc, spec_families(ts@, i as int)),
        decreases ts@.len() - i,
    {
        let (one, e) = family_from_tokens(ts, i);
        proof {
            lemma_family_takes_a_token(ts@, i as int);
        }
        match one {
            Err(x) => {
                return (Err(x), e);
            },
            Ok(f) => {
                let ghost fs = match spec_family(ts@, i as int).0 {
                    Ok(g) => g,
                    Err(_) => acc[0],
                };
                let ghost a0 = acc;
                let ghost i0 = i as int;
                values.push(f);
                proof {
                    acc = acc.push(fs);
                }
                if e >= ts.len() || important_follows(ts, e) {
                    proof {
                        assert(acc =~= (acc.drop_last() + seq![fs]));
                    }
                    return (Ok(values), e);
                }
                if matches!(ts[e], Tok::Comma) {
                    proof {
                        let rest = spec_families(ts@, e + 1);
                        assert(i0 < e);
                        assert(spec_families(ts@, i0) == match rest.0 {
                            Ok(more) => (Ok(seq![fs] + more), rest.1),
                            Err(x) => (Err(x), rest.1),
                        });
                        match rest.0 {
                            Ok(more) => assert(a0 + (seq![fs] + more) =~= acc + more),
                            Err(_) => {},
                        }
                    }
                    i = e + 1;
                } else {
                    return (Err(ParseError::Custom(CustomError::Unsupported)), e + 1);
                }
            },
        }
    }
}

/// Reads every token left in the parser, white space and comments skipped.
fn read_tokens(parser: &mut Parser<'_>) -> (r: Vec<Tok>)
    ensures
        r@ == parser_tokens(*old(parser)),
        parser_tokens(*final(parser)).len() == 0,
        same_input(*final(parser), *old(parser)),
{
    let mut ts: Vec<Tok> = Vec::new();
    loop
        invariant
            ts@ + parser_tokens(*parser) == parser_tokens(*old(parser)),
            same_input(*parser, *old(parser)),
        decreases parser_tokens(*parser).len(),
    {
        let ghost before = parser_tokens(*parser);
        match next_token(parser) {
            Some(t) => {
                proof {
                    assert(ts@.push(t) + before.skip(1) =~= ts@ + before);
                }
                ts.push(t);
            },
            None => {
                proof {
                    assert(ts@ + before =~= ts@);
                }
                return ts;
            },
        }
    }
}

/// Takes `n` tokens from the parser.
fn skip_tokens(parser: &mut Parser<'_>, n: usize)
    requires
        n <= parser_tokens(*old(parser)).len(),
    ensures
        parser_tokens(*final(parser)) == parser_tokens(*old(parser)).skip(n as int),
        same_input(*final(parser), *old(parser)),
{
    let mut k: usize = 0;
    proof {
        assert(parser_tokens(*old(parser)).skip(0) =~= parser_tokens(*old(parser)));
    }
    while k < n
        invariant
            k <= n <= parser_tokens(*old(parser)).len(),
            parser_tokens(*parser) == parser_tokens(*old(parser)).skip(k as int),
            same_input(*parser, *old(parser)),
        decreases n - k,
    {
        let _ = next_token(parser);
        proof {
            assert(parser_tokens(*old(parser)).skip(k as int).skip(1) =~= parser_tokens(*old(parser)).skip(k + 1));
        }
        k = k + 1;
    }
}

/// A title never runs past the end of the tokens.
proof fn lemma_title_end_le(ts: Seq<Tok>, k: int)
    requires
        0 <= k <= ts.len(),
    ensures
        title_end(ts, k).1 <= ts.len(),
    decreases ts.len() - k,
{
    if !(k < 0 || k >= ts.len() || ts[k] is Comma || important_at(ts, k)) && ts[k] is Ident {
        lemma_title_end_le(ts, k + 1);
    }
}

/// A family read from the first token never takes more tokens than there are.
proof fn lemma_family_within(ts: Seq<Tok>)
    ensures
        0 <= spec_family(ts, 0).1 <= ts.len(),
{
    if ts.len() > 0 {
        lemma_title_end_le(ts, 1);
        lemma_title_end_ge(ts, 1);
    }
}

/// The list of families never takes more tokens than there are.
proof fn lemma_families_within(ts: Seq<Tok>, i: int)
    requires
        0 <= i <= ts.len(),
    ensures
        i <= spec_families(ts, i).1 <= ts.len(),
    decreases ts.len() - i,
{
    if i < ts.len() {
        lemma_title_end_le(ts, i + 1);
        lemma_title_end_ge(ts, i + 1);
    }
    let (one, e) = spec_family(ts, i);
    if one is Ok && e < ts.len() && !important_at(ts, e) && ts[e] is Comma && i < e {
        lemma_families_within(ts, e + 1);
    }
}

/// Parses one font family name: a generic family keyword, a quoted title, or
/// a title made of identifiers separated by spaces, up to a comma or
/// `!important`; see `spec_family`. The tokens read are taken.
pub fn font_family_name(parser: &mut Parser<'_>) -> (r: Result<FontFamilyName, ParseError>)
    ensures
        family_result_is(r, spec_family(parser_tokens(*old(parser)), 0).0),
        parser_tokens(*final(parser)) == parser_tokens(*old(parser)).skip(
            spec_family(parser_tokens(*old(parser)), 0).1,
        ),
        same_input(*final(parser), *old(parser)),
{
    let start = parser_state(parser);
    let ts = read_tokens(parser);
    parser_reset(parser, &start);
    let (r, taken) = family_from_tokens(&ts, 0);
    proof {
        lemma_family_within(ts@);
    }
    skip_tokens(parser, taken);
    r
}

/// Parses a comma-separated list of font family names, which ends at the end
/// of input or before `!important`; see `spec_families`. On success the
/// tokens read are taken; on failure the parser keeps its position.
pub fn font_family_repr(parser: &mut Parser<'_>) -> (r: Result<Vec<FontFamilyName>, ParseError>)
    ensures
        families_result_is(r, spec_families(parser_tokens(*old(parser)), 0).0),
        parser_tokens(*final(parser)) == (if r is Ok {
            parser_tokens(*old(parser)).skip(spec_families(parser_tokens(*old(parser)), 0).1)
        } else {
            parser_tokens(*old(parser))
        }),
        same_input(*final(parser), *old(parser)),
{
    let start = parser_state(parser);
    let ts = read_tokens(parser);
    parser_reset(parser, &start);
    let (r, taken) = families_from_tokens(&ts);
    proof {
        lemma_families_within(ts@, 0);
    }
    if r.is_ok() {
        skip_tokens(parser, taken);
    }
    r
}

} // verus!
