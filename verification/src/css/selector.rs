//! Selector parsing: the supported subset of CSS selectors (tags, ids,
//! classes, attributes, the four combinators, a few pseudo-classes and
//! pseudo-elements, `:not()` and the `nth` functions), with a warning for
//! each construct that is not supported.
//!
//! The input is first read into a tree of tokens (`SelTok`); the grammar is
//! then a function on those tokens with an exact contract.

use cssparser::{Delimiter, Parser, ToCss, Token};
use vstd::prelude::*;

use super::parser::WarningKind;
use super::tokens::{
    first_token, lowercase_of, parser_tokens, same_input, to_lowercase, CustomError, ParseError, Tok,
};
use super::text::{chars_eq, str_chars};

verus! {

broadcast use vstd::std_specs::vec::axiom_vec_decreases_to_view;

/// A token of a selector, as `Parser::next_including_whitespace` hands it
/// out (comments skipped); a block comes with its contents.
#[derive(Debug, PartialEq, Eq)]
pub enum SelTok {
    Ident(String),
    /// A hash that is a valid identifier (`#id`).
    IdHash(String),
    /// Any other hash.
    Hash,
    QuotedString(String),
    /// A delimiter, a colon, a comma, `<!--`, `-->` or an attribute
    /// operator (`~=` and the like), by its text.
    Punct(String),
    WhiteSpace,
    /// A function: its name and its contents (`None` where the block nests
    /// too deeply to be opened).
    Function(String, Option<FnBody>),
    /// A `[...]` block and its contents.
    SquareBracket(Option<Vec<SelTok>>),
    /// A `{` block.
    CurlyBracket,
    /// Any other token.
    Other,
}

/// The contents of a function.
#[derive(Debug, PartialEq, Eq)]
pub enum FnBody {
    /// The tokens, for any function but the `nth` ones.
    Tokens(Vec<SelTok>),
    /// For `nth-child` and `nth-of-type`: the `an+b` that
    /// `cssparser::parse_nth` reads at the start, with the tokens after it;
    /// `None` where it reads none.
    Nth(Option<(i32, i32, Vec<SelTok>)>),
}

/// Whether `t` is the punctuation `text`.
pub open spec fn is_punct(t: SelTok, text: Seq<char>) -> bool {
    t matches SelTok::Punct(p) && p@ == text
}

/// A pseudo-element.
#[derive(Debug, Clone, Copy, PartialEq, Eq, Structural)]
pub enum PseudoElements {
    Before,
    After,
}

/// How an attribute selector compares the attribute's value.
#[derive(Debug, Clone, Copy, PartialEq, Eq, Structural)]
pub enum AttributeOperator {
    /// `[name]`: the attribute is present.
    Present,
    /// `[name=value]`
    Exact,
    /// `[name~=value]`
    Contain,
    /// `[name|=value]`
    Hyphen,
    /// `[name^=value]`
    Begin,
    /// `[name$=value]`
    End,
    /// `[name*=value]`
    List,
}

/// The case flag of an attribute selector.
#[derive(Debug, Clone, Copy, PartialEq, Eq, Structural)]
pub enum AttributeFlags {
    CaseSensitivityDependsOnName,
    CaseSensitive,
    CaseInsensitive,
}

/// An attribute selector.
#[derive(Debug, PartialEq, Eq)]
pub struct Attribute {
    pub operator: AttributeOperator,
    pub case_insensitive: AttributeFlags,
    /// Whether no value can match (an empty value where a part of the
    /// value is looked for, or white space in a `~=` value).
    pub never_matches: bool,
    pub name: String,
    pub value: Option<String>,
}

/// A pseudo-class.
#[derive(Debug, PartialEq, Eq)]
pub enum PseudoClasses {
    FirstChild,
    LastChild,
    OnlyChild,
    Empty,
    Host,
    Not(Vec<SelectorFragment>),
    NthChild(i32, i32, Option<Vec<SelectorFragment>>),
    NthOfType(i32, i32),
}

/// How a compound selector stands to the one before it.
#[derive(Debug, PartialEq, Eq)]
pub enum SelectorRelationType {
    Ancestor(SelectorFragment),
    DirectParent(SelectorFragment),
    NextSibling(SelectorFragment),
    SubsequentSibling(SelectorFragment),
}

/// A complex selector, read from its last compound selector backwards:
/// this compound's parts and the relation to the part before it.
#[derive(Debug, PartialEq, Eq)]
pub struct SelectorFragment {
    pub tag_name: String,
    pub id: String,
    pub classes: Vec<String>,
    pub relation: Option<Box<SelectorRelationType>>,
    pub pseudo_classes: Option<Box<PseudoClasses>>,
    pub pseudo_elements: Option<PseudoElements>,
    pub attributes: Vec<Attribute>,
}

/// A selector list.
#[derive(Debug, PartialEq, Eq)]
pub struct Selector {
    pub fragments: Vec<SelectorFragment>,
}

/// An attribute selector in terms of chars.
pub struct AttrV {
    pub operator: AttributeOperator,
    pub flags: AttributeFlags,
    pub never_matches: bool,
    pub name: Seq<char>,
    pub value: Option<Seq<char>>,
}

/// The kind of a relation.
#[derive(PartialEq, Eq, Structural)]
pub enum RelKind {
    Ancestor,
    DirectParent,
    NextSibling,
    SubsequentSibling,
}

/// A pseudo-class in terms of chars.
pub enum PcV {
    FirstChild,
    LastChild,
    OnlyChild,
    Empty,
    Host,
    Not(Seq<FragV>),
    NthChild(i32, i32, Option<Seq<FragV>>),
    NthOfType(i32, i32),
}

/// A selector fragment in terms of chars.
pub struct FragV {
    pub tag: Seq<char>,
    pub id: Seq<char>,
    pub classes: Seq<Seq<char>>,
    pub relation: Option<(RelKind, Box<FragV>)>,
    pub pseudo_class: Option<PcV>,
    pub pseudo_element: Option<PseudoElements>,
    pub attributes: Seq<AttrV>,
}

impl View for Attribute {
    type V = AttrV;

    open spec fn view(&self) -> AttrV {
        AttrV {
            operator: self.operator,
            flags: self.case_insensitive,
            never_matches: self.never_matches,
            name: self.name@,
            value: match self.value {
                Some(v) => Some(v@),
                None => None,
            },
        }
    }
}

/// The chars of each string.
pub open spec fn strings_view(s: Seq<String>) -> Seq<Seq<char>> {
    s.map_values(|x: String| x@)
}

/// Each attribute in terms of chars.
pub open spec fn attrs_view(s: Seq<Attribute>) -> Seq<AttrV> {
    s.map_values(|a: Attribute| a@)
}

/// A fragment in terms of chars.
pub open spec fn frag_view(f: SelectorFragment) -> FragV
    decreases f, 0int,
{
    FragV {
        tag: f.tag_name@,
        id: f.id@,
        classes: strings_view(f.classes@),
        relation: match f.relation {
            Some(b) => match *b {
                SelectorRelationType::Ancestor(g) => Some((RelKind::Ancestor, Box::new(frag_view(g)))),
                SelectorRelationType::DirectParent(g) => Some(
                    (RelKind::DirectParent, Box::new(frag_view(g))),
                ),
                SelectorRelationType::NextSibling(g) => Some(
                    (RelKind::NextSibling, Box::new(frag_view(g))),
                ),
                SelectorRelationType::SubsequentSibling(g) => Some(
                    (RelKind::SubsequentSibling, Box::new(frag_view(g))),
                ),
            },
            None => None,
        },
        pseudo_class: match f.pseudo_classes {
            Some(b) => Some(pc_view(*b)),
            None => None,
        },
        pseudo_element: f.pseudo_elements,
        attributes: attrs_view(f.attributes@),
    }
}

/// A pseudo-class in terms of chars.
pub open spec fn pc_view(p: PseudoClasses) -> PcV
    decreases p, 0int,
{
    match p {
        PseudoClasses::FirstChild => PcV::FirstChild,
        PseudoClasses::LastChild => PcV::LastChild,
        PseudoClasses::OnlyChild => PcV::OnlyChild,
        PseudoClasses::Empty => PcV::Empty,
        PseudoClasses::Host => PcV::Host,
        PseudoClasses::Not(v) => PcV::Not(frags_view(v@)),
        PseudoClasses::NthChild(a, n, o) => PcV::NthChild(
            a,
            n,
            match o {
                Some(v) => Some(frags_view(v@)),
                None => None,
            },
        ),
        PseudoClasses::NthOfType(a, n) => PcV::NthOfType(a, n),
    }
}

/// Fragments in terms of chars.
pub open spec fn frags_view(s: Seq<SelectorFragment>) -> Seq<FragV>
    decreases s, 1int,
{
    if s.len() == 0 {
        Seq::empty()
    } else {
        frags_view(s.subrange(0, s.len() - 1)).push(frag_view(s[s.len() - 1]))
    }
}

impl View for SelectorFragment {
    type V = FragV;

    open spec fn view(&self) -> FragV {
        frag_view(*self)
    }
}

/// What came last in a compound selector, between two tokens.
#[derive(Debug, Clone, Copy, PartialEq, Eq, Structural)]
pub enum PrevSep {
    /// Nothing yet.
    Init,
    /// A simple selector.
    NoSep,
    /// White space: a descendant combinator, unless another follows.
    Space,
    /// `>`
    Child,
    /// `*`
    Universal,
    /// `+`
    NextSibling,
    /// `~`
    SubsequentSibling,
    /// A pseudo-element, or `:host`: nothing may follow.
    End,
    /// `:not()`, which only another `:not()` may follow directly.
    PseudoClassesNot,
}

/// A fragment with nothing in it.
pub open spec fn empty_frag() -> FragV {
    FragV {
        tag: Seq::empty(),
        id: Seq::empty(),
        classes: Seq::empty(),
        relation: None,
        pseudo_class: None,
        pseudo_element: None,
        attributes: Seq::empty(),
    }
}

/// A new fragment that stands in relation `kind` to `f`.
pub open spec fn with_relation(kind: RelKind, f: FragV) -> FragV {
    FragV { relation: Some((kind, Box::new(f))), ..empty_frag() }
}

/// `f` once the combinator that `prev` holds is applied: a new fragment
/// related to `f`, or `f` itself.
pub open spec fn spec_clear(f: FragV, prev: PrevSep) -> FragV {
    match prev {
        PrevSep::Space => with_relation(RelKind::Ancestor, f),
        PrevSep::Child => with_relation(RelKind::DirectParent, f),
        PrevSep::NextSibling => with_relation(RelKind::NextSibling, f),
        PrevSep::SubsequentSibling => with_relation(RelKind::SubsequentSibling, f),
        _ => f,
    }
}

/// `f` with the tag name `t`.
pub open spec fn with_tag(f: FragV, t: Seq<char>) -> FragV {
    FragV { tag: t, ..f }
}

/// `f` with the id `t`.
pub open spec fn with_id(f: FragV, t: Seq<char>) -> FragV {
    FragV { id: t, ..f }
}

/// `f` with the class `t` added.
pub open spec fn with_class(f: FragV, t: Seq<char>) -> FragV {
    FragV { classes: f.classes.push(t), ..f }
}

/// `f` with the attribute selector `a` added.
pub open spec fn with_attribute(f: FragV, a: AttrV) -> FragV {
    FragV { attributes: f.attributes.push(a), ..f }
}

/// `f` with the pseudo-class `p`.
pub open spec fn with_pseudo_class(f: FragV, p: PcV) -> FragV {
    FragV { pseudo_class: Some(p), ..f }
}

/// `f` with the pseudo-element `p`.
pub open spec fn with_pseudo_element(f: FragV, p: PseudoElements) -> FragV {
    FragV { pseudo_element: Some(p), ..f }
}

/// The first index from `i` on, below `e`, that is not white space; `e`
/// where there is none.
pub open spec fn skip_ws(ts: Seq<SelTok>, i: int, e: int) -> int
    decreases e - i,
{
    if i < e && ts[i] is WhiteSpace {
        skip_ws(ts, i + 1, e)
    } else {
        i
    }
}

/// The first index from `i` on that holds a `{` block; the length where
/// there is none.
pub open spec fn first_curly(ts: Seq<SelTok>, i: int) -> int
    decreases ts.len() - i,
{
    if i < ts.len() && !(ts[i] is CurlyBracket) {
        first_curly(ts, i + 1)
    } else {
        i
    }
}

/// The first index from `i` on, below `e`, that holds a comma; `e` where
/// there is none.
pub open spec fn first_comma(ts: Seq<SelTok>, i: int, e: int) -> int
    decreases e - i,
{
    if i < e && !is_punct(ts[i], seq![',']) {
        first_comma(ts, i + 1, e)
    } else {
        i
    }
}

/// The error of a construct that is not supported.
pub open spec fn unsupported() -> ParseError {
    ParseError::Custom(CustomError::Unsupported)
}

/// What one token does to a compound selector: go on with a fragment, a
/// state and the index of the next token, or stop with an error; with the
/// warnings given.
pub enum Step {
    Go(FragV, PrevSep, int, Seq<WarningKind>),
    Stop(ParseError, Seq<WarningKind>),
}

/// The pseudo-classes and pseudo-elements named after a single colon.
#[derive(PartialEq, Eq, Structural)]
pub enum PseudoName {
    FirstChild,
    LastChild,
    OnlyChild,
    Empty,
    Host,
    Before,
    After,
}

/// The pseudo-class or pseudo-element that a lowercase name names.
pub open spec fn spec_pseudo_name(n: Seq<char>) -> Option<PseudoName> {
    if n == seq!['f', 'i', 'r', 's', 't', '-', 'c', 'h', 'i', 'l', 'd'] {
        Some(PseudoName::FirstChild)
    } else if n == seq!['l', 'a', 's', 't', '-', 'c', 'h', 'i', 'l', 'd'] {
        Some(PseudoName::LastChild)
    } else if n == seq!['o', 'n', 'l', 'y', '-', 'c', 'h', 'i', 'l', 'd'] {
        Some(PseudoName::OnlyChild)
    } else if n == seq!['e', 'm', 'p', 't', 'y'] {
        Some(PseudoName::Empty)
    } else if n == seq!['h', 'o', 's', 't'] {
        Some(PseudoName::Host)
    } else if n == seq!['b', 'e', 'f', 'o', 'r', 'e'] {
        Some(PseudoName::Before)
    } else if n == seq!['a', 'f', 't', 'e', 'r'] {
        Some(PseudoName::After)
    } else {
        None
    }
}

/// The functional pseudo-classes.
#[derive(PartialEq, Eq, Structural)]
pub enum FnName {
    Not,
    NthChild,
    NthOfType,
}

/// The functional pseudo-class that a name names, matched exactly.
pub open spec fn spec_fn_name(n: Seq<char>) -> Option<FnName> {
    if n == seq!['n', 'o', 't'] {
        Some(FnName::Not)
    } else if n == seq!['n', 't', 'h', '-', 'c', 'h', 'i', 'l', 'd'] {
        Some(FnName::NthChild)
    } else if n == seq!['n', 't', 'h', '-', 'o', 'f', '-', 't', 'y', 'p', 'e'] {
        Some(FnName::NthOfType)
    } else {
        None
    }
}

/// Whether `w` is the one letter `lower` or `upper`.
pub open spec fn is_letter(w: Seq<char>, lower: char, upper: char) -> bool {
    w.len() == 1 && (w[0] == lower || w[0] == upper)
}

/// Whether `w` is `of` up to ASCII case.
pub open spec fn is_of_word(w: Seq<char>) -> bool {
    w.len() == 2 && (w[0] == 'o' || w[0] == 'O') && (w[1] == 'f' || w[1] == 'F')
}

/// The white space of selectors: space, tab, line feed, carriage return
/// and form feed.
pub open spec fn is_selector_space(c: char) -> bool {
    c == ' ' || c == '\t' || c == '\n' || c == '\r' || c == '\x0C'
}

/// Whether an attribute selector with operator `op` and value `v` can match
/// nothing.
pub open spec fn spec_never_matches(op: AttributeOperator, v: Seq<char>) -> bool {
    match op {
        AttributeOperator::Begin | AttributeOperator::End | AttributeOperator::List => v.len() == 0,
        AttributeOperator::Contain => v.len() == 0 || exists|k: int|
            0 <= k < v.len() && is_selector_space(#[trigger] v[k]),
        _ => false,
    }
}

/// The operator that a token between an attribute's name and value stands
/// for.
pub open spec fn spec_attr_operator(t: SelTok) -> Option<AttributeOperator> {
    if is_punct(t, seq!['=']) {
        Some(AttributeOperator::Exact)
    } else if is_punct(t, seq!['~', '=']) {
        Some(AttributeOperator::Contain)
    } else if is_punct(t, seq!['|', '=']) {
        Some(AttributeOperator::Hyphen)
    } else if is_punct(t, seq!['^', '=']) {
        Some(AttributeOperator::Begin)
    } else if is_punct(t, seq!['$', '=']) {
        Some(AttributeOperator::End)
    } else if is_punct(t, seq!['*', '=']) {
        Some(AttributeOperator::List)
    } else {
        None
    }
}

/// The attribute selector that the contents `cs` of a `[...]` block hold:
/// a name, then an operator and a value (an identifier or a string) and an
/// optional case flag `i` or `s`, white space between them; nothing may
/// follow.
pub open spec fn spec_attribute(cs: Seq<SelTok>) -> Result<AttrV, ParseError> {
    let k0 = skip_ws(cs, 0, cs.len() as int);
    if k0 >= cs.len() {
        Err(ParseError::Basic)
    } else if let SelTok::Ident(name) = cs[k0] {
        let k1 = skip_ws(cs, k0 + 1, cs.len() as int);
        if k1 >= cs.len() {
            Ok(
                AttrV {
                    operator: AttributeOperator::Present,
                    flags: AttributeFlags::CaseSensitivityDependsOnName,
                    never_matches: false,
                    name: name@,
                    value: None,
                },
            )
        } else if let Some(op) = spec_attr_operator(cs[k1]) {
            let k2 = skip_ws(cs, k1 + 1, cs.len() as int);
            if k2 >= cs.len() {
                Err(ParseError::Basic)
            } else {
                let value = match cs[k2] {
                    SelTok::Ident(v) => Some(v@),
                    SelTok::QuotedString(v) => Some(v@),
                    _ => None,
                };
                if let Some(v) = value {
                    let k3 = skip_ws(cs, k2 + 1, cs.len() as int);
                    let flags = if k3 >= cs.len() {
                        Some(AttributeFlags::CaseSensitivityDependsOnName)
                    } else {
                        match cs[k3] {
                            SelTok::Ident(w) => if is_letter(w@, 'i', 'I') {
                                Some(AttributeFlags::CaseInsensitive)
                            } else if is_letter(w@, 's', 'S') {
                                Some(AttributeFlags::CaseSensitive)
                            } else {
                                None
                            },
                            _ => None,
                        }
                    };
                    match flags {
                        None => Err(ParseError::Basic),
                        Some(fl) => if k3 < cs.len() && skip_ws(cs, k3 + 1, cs.len() as int) < cs.len() {
                            Err(ParseError::Basic)
                        } else {
                            Ok(
                                AttrV {
                                    operator: op,
                                    flags: fl,
                                    never_matches: spec_never_matches(op, v),
                                    name: name@,
                                    value: Some(v),
                                },
                            )
                        },
                    }
                } else {
                    Err(ParseError::Custom(CustomError::BadValueInAttr))
                }
            }
        } else {
            Err(ParseError::Custom(CustomError::UnexpectedTokenInAttributeSelector))
        }
    } else {
        Err(ParseError::Basic)
    }
}

/// What the delimiter `d` at index `j` does, in state `prev`: a class
/// (`.` and an identifier, white space allowed between), a combinator, or
/// the universal selector.
pub open spec fn spec_delim(ts: Seq<SelTok>, j: int, c: int, f: FragV, prev: PrevSep, d: char) -> Step {
    if d == '.' {
        let m = skip_ws(ts, j + 1, c);
        if m < c && ts[m] is Ident {
            Step::Go(with_class(spec_clear(f, prev), ts[m]->Ident_0@), PrevSep::NoSep, m + 1, seq![])
        } else {
            Step::Stop(unsupported(), seq![WarningKind::InvalidSelector])
        }
    } else if d == '>' || d == '+' || d == '~' {
        if prev == PrevSep::Init {
            Step::Stop(unsupported(), seq![WarningKind::InvalidSelector])
        } else {
            let next = if d == '>' {
                PrevSep::Child
            } else if d == '+' {
                PrevSep::NextSibling
            } else {
                PrevSep::SubsequentSibling
            };
            Step::Go(f, next, j + 1, seq![])
        }
    } else if d == '*' {
        match prev {
            PrevSep::Space => Step::Go(with_relation(RelKind::Ancestor, f), PrevSep::NoSep, j + 1, seq![]),
            PrevSep::Child => Step::Go(with_relation(RelKind::DirectParent, f), PrevSep::NoSep, j + 1, seq![]),
            PrevSep::NoSep => Step::Stop(unsupported(), seq![WarningKind::InvalidSelector]),
            _ => Step::Go(f, PrevSep::Universal, j + 1, seq![]),
        }
    } else {
        Step::Stop(unsupported(), seq![WarningKind::UnsupportedSelector])
    }
}

/// What a pseudo-class or pseudo-element named `n` (lowercased) after a
/// single colon does; `:host` is taken only at the start.
pub open spec fn spec_pseudo_step(f: FragV, prev: PrevSep, n: Seq<char>, next: int) -> Step {
    match spec_pseudo_name(n) {
        Some(PseudoName::FirstChild) => Step::Go(with_pseudo_class(f, PcV::FirstChild), PrevSep::NoSep, next, seq![]),
        Some(PseudoName::LastChild) => Step::Go(with_pseudo_class(f, PcV::LastChild), PrevSep::NoSep, next, seq![]),
        Some(PseudoName::OnlyChild) => Step::Go(with_pseudo_class(f, PcV::OnlyChild), PrevSep::NoSep, next, seq![]),
        Some(PseudoName::Empty) => Step::Go(with_pseudo_class(f, PcV::Empty), PrevSep::NoSep, next, seq![]),
        Some(PseudoName::Host) => if prev == PrevSep::Init {
            Step::Go(with_pseudo_class(f, PcV::Host), PrevSep::End, next, seq![])
        } else {
            Step::Stop(unsupported(), seq![WarningKind::UnsupportedPseudoClass])
        },
        Some(PseudoName::Before) => Step::Go(
            with_pseudo_element(f, PseudoElements::Before),
            PrevSep::End,
            next,
            seq![WarningKind::InvalidPseudoElement],
        ),
        Some(PseudoName::After) => Step::Go(
            with_pseudo_element(f, PseudoElements::After),
            PrevSep::End,
            next,
            seq![WarningKind::InvalidPseudoElement],
        ),
        None => Step::Stop(unsupported(), seq![WarningKind::UnsupportedPseudoClass]),
    }
}

/// What a pseudo-element named `n` (lowercased) after a double colon does.
pub open spec fn spec_element_step(f: FragV, n: Seq<char>, next: int) -> Step {
    if n == seq!['b', 'e', 'f', 'o', 'r', 'e'] {
        Step::Go(with_pseudo_element(f, PseudoElements::Before), PrevSep::End, next, seq![])
    } else if n == seq!['a', 'f', 't', 'e', 'r'] {
        Step::Go(with_pseudo_element(f, PseudoElements::After), PrevSep::End, next, seq![])
    } else {
        Step::Stop(unsupported(), seq![WarningKind::UnsupportedPseudoElement])
    }
}

/// A selector list read inside a block: the list, then nothing but the
/// end of the block.
pub open spec fn nested_result(
    r: (Result<Seq<FragV>, ParseError>, Seq<WarningKind>, int),
    len: nat,
) -> (Result<Seq<FragV>, ParseError>, Seq<WarningKind>) {
    if r.0 is Ok && r.2 < len {
        (Err(ParseError::Basic), r.1)
    } else {
        (r.0, r.1)
    }
}

/// What `:not()` does with the fragments `frags` read inside it: it takes
/// them into a `:not()` already there, or sets one; another pseudo-class
/// is not supported beside it.
pub open spec fn spec_not_step(
    f: FragV,
    inner: (Result<Seq<FragV>, ParseError>, Seq<WarningKind>),
    next: int,
) -> Step {
    match inner.0 {
        Err(e) => Step::Stop(e, inner.1),
        Ok(frags) => match f.pseudo_class {
            Some(PcV::Not(v)) => Step::Go(with_pseudo_class(f, PcV::Not(v + frags)), PrevSep::PseudoClassesNot, next, inner.1),
            Some(_) => Step::Stop(unsupported(), inner.1.push(WarningKind::UnsupportedSelector)),
            None => Step::Go(with_pseudo_class(f, PcV::Not(frags)), PrevSep::PseudoClassesNot, next, inner.1),
        },
    }
}

/// Whether nothing but white space is left in `ts`.
pub open spec fn only_space(ts: Seq<SelTok>) -> bool {
    skip_ws(ts, 0, ts.len() as int) >= ts.len()
}

/// The index of `of` in the tokens that follow `an+b`, where it comes
/// first (white space aside).
pub open spec fn of_at(rest: Seq<SelTok>) -> Option<int> {
    let k = skip_ws(rest, 0, rest.len() as int);
    if k < rest.len() && rest[k] is Ident && is_of_word(rest[k]->Ident_0@) {
        Some(k)
    } else {
        None
    }
}

/// What `:nth-child(an+b)` (with an optional `of` and a selector list
/// after it) or `:nth-of-type(an+b)` does, `rest` being the tokens after
/// `an+b`.
pub open spec fn spec_nth_step(f: FragV, kind: FnName, a: i32, b: i32, rest: Seq<SelTok>, next: int) -> Step
    decreases rest, rest.len() + 3, 0int,
{
    if kind == FnName::NthOfType {
        if only_space(rest) {
            Step::Go(with_pseudo_class(f, PcV::NthOfType(a, b)), PrevSep::NoSep, next, seq![])
        } else {
            Step::Stop(unsupported(), seq![])
        }
    } else if let Some(k) = of_at(rest) {
        if 0 <= k < rest.len() {
            let inner = nested_result(spec_selector(rest, k + 1), rest.len());
            match inner.0 {
                Ok(frags) => Step::Go(
                    with_pseudo_class(f, PcV::NthChild(a, b, Some(frags))),
                    PrevSep::NoSep,
                    next,
                    inner.1,
                ),
                Err(e) => Step::Stop(e, inner.1),
            }
        } else {
            Step::Stop(ParseError::Basic, seq![])
        }
    } else if only_space(rest) {
        Step::Go(with_pseudo_class(f, PcV::NthChild(a, b, None)), PrevSep::NoSep, next, seq![])
    } else {
        Step::Stop(unsupported(), seq![])
    }
}

/// What the function token at index `m` does after a colon: `:not()`,
/// `:nth-child()` (with an optional `of` and a selector list) or
/// `:nth-of-type()`; after another `:not()` only `:not()` is taken.
pub open spec fn spec_fn_step(ts: Seq<SelTok>, m: int, f: FragV, only_not: bool) -> Step
    decreases ts, 0int, 1int,
{
    if !(0 <= m < ts.len()) {
        Step::Stop(ParseError::Basic, seq![])
    } else if let SelTok::Function(name, body) = ts[m] {
        match spec_fn_name(name@) {
            Some(FnName::Not) => match body {
                Some(FnBody::Tokens(cs)) => spec_not_step(f, nested_result(spec_selector(cs@, 0), cs@.len()), m + 1),
                _ => Step::Stop(ParseError::Basic, seq![]),
            },
            Some(kind) => if only_not {
                Step::Stop(unsupported(), seq![WarningKind::UnsupportedSelector])
            } else {
                match body {
                    Some(FnBody::Nth(Some((a, b, rest)))) => spec_nth_step(f, kind, a, b, rest@, m + 1),
                    _ => Step::Stop(ParseError::Basic, seq![]),
                }
            },
            None => Step::Stop(unsupported(), seq![WarningKind::UnsupportedSelector]),
        }
    } else {
        Step::Stop(unsupported(), seq![WarningKind::UnsupportedSelector])
    }
}

/// What a colon at index `j` does, in state `prev`: a pseudo-class or,
/// after a second colon, a pseudo-element; only at the start or after a
/// simple selector (or, for `:not()`, after another `:not()`).
pub open spec fn spec_colon(ts: Seq<SelTok>, j: int, c: int, f: FragV, prev: PrevSep) -> Step
    decreases ts, c - j, 2int,
{
    if !(0 <= j < c <= ts.len()) {
        Step::Stop(ParseError::Basic, seq![])
    } else if prev == PrevSep::Init || prev == PrevSep::NoSep {
        if j + 1 >= c {
            Step::Stop(ParseError::Basic, seq![])
        } else {
            if is_punct(ts[j + 1], seq![':']) {
                if j + 2 >= c {
                    Step::Stop(ParseError::Basic, seq![])
                } else {
                    match ts[j + 2] {
                        SelTok::Ident(n) => spec_element_step(f, lowercase_of(n@), j + 3),
                        _ => Step::Stop(unsupported(), seq![WarningKind::UnsupportedSelector]),
                    }
                }
            } else {
                match ts[j + 1] {
                    SelTok::Ident(n) => spec_pseudo_step(f, prev, lowercase_of(n@), j + 2),
                    SelTok::Function(_, _) => spec_fn_step(ts, j + 1, f, false),
                    _ => Step::Stop(unsupported(), seq![WarningKind::UnsupportedSelector]),
                }
            }
        }
    } else if prev == PrevSep::PseudoClassesNot {
        if j + 1 >= c {
            Step::Stop(ParseError::Basic, seq![])
        } else {
            spec_fn_step(ts, j + 1, f, true)
        }
    } else {
        Step::Stop(unsupported(), seq![WarningKind::UnsupportedSelector])
    }
}

/// What the token at index `j` does to the fragment `f` in state `prev`.
pub open spec fn spec_token(ts: Seq<SelTok>, j: int, c: int, f: FragV, prev: PrevSep) -> Step
    decreases ts, c - j, 3int,
{
    if !(0 <= j < c <= ts.len()) {
        Step::Stop(ParseError::Basic, seq![])
    } else {
        match ts[j] {
            SelTok::Ident(s) => Step::Go(with_tag(spec_clear(f, prev), s@), PrevSep::NoSep, j + 1, seq![]),
            SelTok::IdHash(s) => Step::Go(with_id(spec_clear(f, prev), s@), PrevSep::NoSep, j + 1, seq![]),
            SelTok::Hash => Step::Stop(unsupported(), seq![WarningKind::InvalidSelector]),
            SelTok::Punct(p) => if p@ == seq![':'] {
                spec_colon(ts, j, c, f, prev)
            } else if p@ == seq!['<', '!', '-', '-'] || p@ == seq!['-', '-', '>'] {
                Step::Go(f, prev, j + 1, seq![])
            } else if p@.len() == 1 {
                spec_delim(ts, j, c, f, prev, p@[0])
            } else {
                Step::Stop(unsupported(), seq![WarningKind::UnsupportedSelector])
            },
            SelTok::WhiteSpace => Step::Go(f, PrevSep::Space, j + 1, seq![]),
            SelTok::SquareBracket(contents) => match contents {
                None => Step::Stop(ParseError::Basic, seq![]),
                Some(cs) => match spec_attribute(cs@) {
                    Ok(a) => Step::Go(with_attribute(spec_clear(f, prev), a), PrevSep::NoSep, j + 1, seq![]),
                    Err(e) => Step::Stop(e, seq![]),
                },
            },
            _ => Step::Stop(unsupported(), seq![WarningKind::UnsupportedSelector]),
        }
    }
}

/// The compound selectors from index `k` up to `c`, from the fragment `f`
/// in state `prev`: the fragment read and the warnings given. White space
/// is a token of its own only right after a simple selector or `:not()`;
/// elsewhere it is skipped. At the end, a `>` with nothing after it is an
/// error; nothing may follow a pseudo-element.
pub open spec fn spec_steps(ts: Seq<SelTok>, k: int, c: int, f: FragV, prev: PrevSep) -> (
    Result<FragV, ParseError>,
    Seq<WarningKind>,
)
    decreases ts, c - k, 4int,
{
    if !(0 <= k <= c <= ts.len()) {
        (Err(ParseError::Basic), seq![])
    } else if skip_ws(ts, k, c) >= c {
        if prev == PrevSep::Child {
            (Err(unsupported()), seq![WarningKind::InvalidSelector])
        } else {
            (Ok(f), seq![])
        }
    } else if prev == PrevSep::End {
        (Err(ParseError::Basic), seq![WarningKind::UnsupportedSelector])
    } else {
        let j = if prev == PrevSep::NoSep || prev == PrevSep::PseudoClassesNot {
            k
        } else {
            skip_ws(ts, k, c)
        };
        if !(k <= j < c) {
            (Err(ParseError::Basic), seq![])
        } else {
            match spec_token(ts, j, c, f, prev) {
                Step::Stop(e, w) => (Err(e), w),
                Step::Go(f2, p2, n, w) => if k < n <= c {
                    let rest = spec_steps(ts, n, c, f2, p2);
                    (rest.0, w + rest.1)
                } else {
                    (Err(ParseError::Basic), w)
                },
            }
        }
    }
}

/// One selector of a list: the tokens from `s` up to `c`, which must hold
/// more than white space.
pub open spec fn spec_item(ts: Seq<SelTok>, s: int, c: int) -> (Result<FragV, ParseError>, Seq<WarningKind>)
    decreases ts, c - s, 5int,
{
    let k = skip_ws(ts, s, c);
    if !(0 <= s <= k <= c <= ts.len()) {
        (Err(ParseError::Basic), seq![])
    } else if k >= c {
        (Err(unsupported()), seq![WarningKind::InvalidSelector])
    } else {
        spec_steps(ts, k, c, empty_frag(), PrevSep::Init)
    }
}

/// The comma-separated selectors from `s` up to `e`.
pub open spec fn spec_items(ts: Seq<SelTok>, s: int, e: int) -> (
    Result<Seq<FragV>, ParseError>,
    Seq<WarningKind>,
)
    decreases ts, e - s, 6int,
{
    let c = first_comma(ts, s, e);
    if !(0 <= s <= c <= e <= ts.len()) {
        (Err(ParseError::Basic), seq![])
    } else {
        let one = spec_item(ts, s, c);
        match one.0 {
            Err(x) => (Err(x), one.1),
            Ok(f) => if c >= e {
                (Ok(seq![f]), one.1)
            } else {
                let rest = spec_items(ts, c + 1, e);
                match rest.0 {
                    Ok(fs) => (Ok(seq![f] + fs), one.1 + rest.1),
                    Err(x) => (Err(x), one.1 + rest.1),
                }
            },
        }
    }
}

/// The selector list that starts at index `i`: it runs up to the first `{`
/// block or the end. The fragments read, the warnings given, and the index
/// where the list ends, which is where reading stops whatever the outcome.
pub open spec fn spec_selector(ts: Seq<SelTok>, i: int) -> (
    Result<Seq<FragV>, ParseError>,
    Seq<WarningKind>,
    int,
)
    decreases ts, ts.len() + 1 - i, 7int,
{
    let e = first_curly(ts, i);
    if !(0 <= i <= e <= ts.len()) {
        (Err(ParseError::Basic), seq![], i)
    } else {
        let r = spec_items(ts, i, e);
        (r.0, r.1, e)
    }
}

/// The view of a concatenation is the concatenation of the views.
proof fn lemma_frags_view_add(a: Seq<SelectorFragment>, b: Seq<SelectorFragment>)
    ensures
        frags_view(a + b) == frags_view(a) + frags_view(b),
    decreases b.len(),
{
    if b.len() == 0 {
        assert(a + b =~= a);
        assert(frags_view(a) + frags_view(b) =~= frags_view(a));
    } else {
        let b0 = b.subrange(0, b.len() - 1);
        lemma_frags_view_add(a, b0);
        assert((a + b).subrange(0, (a + b).len() - 1) =~= a + b0);
        assert((a + b)[(a + b).len() - 1] == b[b.len() - 1]);
        assert(frags_view(a) + frags_view(b) =~= (frags_view(a) + frags_view(b0)).push(
            frag_view(b[b.len() - 1]),
        ));
    }
}

impl SelectorFragment {
    /// A fragment with nothing in it.
    pub fn new() -> (r: Self)
        ensures
            r@ == empty_frag(),
    {
        let r = SelectorFragment {
            tag_name: String::new(),
            id: String::new(),
            classes: Vec::new(),
            relation: None,
            pseudo_classes: None,
            pseudo_elements: None,
            attributes: Vec::new(),
        };
        assert(strings_view(r.classes@) =~= Seq::empty());
        assert(attrs_view(r.attributes@) =~= Seq::empty());
        r
    }

    /// A new fragment that stands in relation `rel` to the fragment it holds.
    pub fn with_relation(rel: SelectorRelationType) -> (r: Self)
        ensures
            r@ == (match rel {
                SelectorRelationType::Ancestor(g) => with_relation(RelKind::Ancestor, g@),
                SelectorRelationType::DirectParent(g) => with_relation(RelKind::DirectParent, g@),
                SelectorRelationType::NextSibling(g) => with_relation(RelKind::NextSibling, g@),
                SelectorRelationType::SubsequentSibling(g) => with_relation(
                    RelKind::SubsequentSibling,
                    g@,
                ),
            }),
    {
        let mut r = SelectorFragment::new();
        r.relation = Some(Box::new(rel));
        r
    }

    /// Sets the tag name.
    pub fn set_tag_name(&mut self, s: &str)
        ensures
            final(self)@ == with_tag(old(self)@, s@),
    {
        self.tag_name = s.to_owned();
    }

    /// Sets the id.
    pub fn set_id(&mut self, s: &str)
        ensures
            final(self)@ == with_id(old(self)@, s@),
    {
        self.id = s.to_owned();
    }

    /// Adds a class.
    pub fn add_class(&mut self, s: &str)
        ensures
            final(self)@ == with_class(old(self)@, s@),
    {
        let ghost before = self.classes@;
        let t = s.to_owned();
        self.classes.push(t);
        assert(strings_view(self.classes@) =~= strings_view(before).push(s@));
    }

    /// Adds an attribute selector.
    pub fn add_attribute(&mut self, a: Attribute)
        ensures
            final(self)@ == with_attribute(old(self)@, a@),
    {
        let ghost before = self.attributes@;
        let ghost av = a@;
        self.attributes.push(a);
        assert(attrs_view(self.attributes@) =~= attrs_view(before).push(av));
    }

    /// Sets the pseudo-class.
    pub fn set_pseudo_classes(&mut self, p: PseudoClasses)
        ensures
            final(self)@ == with_pseudo_class(old(self)@, pc_view(p)),
    {
        self.pseudo_classes = Some(Box::new(p));
    }

    /// Sets the pseudo-element.
    pub fn set_pseudo_elements(&mut self, p: PseudoElements)
        ensures
            final(self)@ == with_pseudo_element(old(self)@, p),
    {
        self.pseudo_elements = Some(p);
    }
}

/// `f` once the combinator that `prev` holds is applied.
fn clear_prev_sep(f: SelectorFragment, prev: PrevSep) -> (r: SelectorFragment)
    ensures
        r@ == spec_clear(f@, prev),
{
    match prev {
        PrevSep::Space => SelectorFragment::with_relation(SelectorRelationType::Ancestor(f)),
        PrevSep::Child => SelectorFragment::with_relation(SelectorRelationType::DirectParent(f)),
        PrevSep::NextSibling => SelectorFragment::with_relation(SelectorRelationType::NextSibling(f)),
        PrevSep::SubsequentSibling => SelectorFragment::with_relation(
            SelectorRelationType::SubsequentSibling(f),
        ),
        _ => f,
    }
}

/// Whether `t` is the punctuation `text`.
fn punct_is(t: &SelTok, text: &[char]) -> (r: bool)
    ensures
        r == is_punct(*t, text@),
{
    match t {
        SelTok::Punct(p) => {
            let v = str_chars(p.as_str());
            let r = chars_eq(v.as_slice(), text);
            assert(r == (p@ == text@));
            r
        },
        _ => false,
    }
}

/// The first index from `i` on, below `e`, that is not white space.
fn skip_space(ts: &Vec<SelTok>, i: usize, e: usize) -> (r: usize)
    requires
        i <= e <= ts@.len(),
    ensures
        r == skip_ws(ts@, i as int, e as int),
        i <= r <= e,
    decreases e - i,
{
    if i < e && matches!(ts[i], SelTok::WhiteSpace) {
        skip_space(ts, i + 1, e)
    } else {
        i
    }
}

/// The first index from `i` on that holds a `{` block, or the length.
fn find_curly(ts: &Vec<SelTok>, i: usize) -> (r: usize)
    requires
        i <= ts@.len(),
    ensures
        r == first_curly(ts@, i as int),
        i <= r <= ts@.len(),
    decreases ts@.len() - i,
{
    if i < ts.len() && !matches!(ts[i], SelTok::CurlyBracket) {
        find_curly(ts, i + 1)
    } else {
        i
    }
}

/// The first index from `i` on, below `e`, that holds a comma, or `e`.
fn find_comma(ts: &Vec<SelTok>, i: usize, e: usize) -> (r: usize)
    requires
        i <= e <= ts@.len(),
    ensures
        r == first_comma(ts@, i as int, e as int),
        i <= r <= e,
    decreases e - i,
{
    let comma = [','];
    assert(comma@ =~= seq![',']);
    if i < e && !punct_is(&ts[i], comma.as_slice()) {
        find_comma(ts, i + 1, e)
    } else {
        i
    }
}

/// The chars of `s`, lowercased.
fn lower_chars(s: &String) -> (r: Vec<char>)
    ensures
        r@ == lowercase_of(s@),
{
    let l = to_lowercase(s.as_str());
    str_chars(l.as_str())
}

/// The pseudo-class or pseudo-element that a lowercase name names.
fn pseudo_name(n: &[char]) -> (r: Option<PseudoName>)
    ensures
        r == spec_pseudo_name(n@),
{
    let first_child = ['f', 'i', 'r', 's', 't', '-', 'c', 'h', 'i', 'l', 'd'];
    let last_child = ['l', 'a', 's', 't', '-', 'c', 'h', 'i', 'l', 'd'];
    let only_child = ['o', 'n', 'l', 'y', '-', 'c', 'h', 'i', 'l', 'd'];
    let empty = ['e', 'm', 'p', 't', 'y'];
    let host = ['h', 'o', 's', 't'];
    let before = ['b', 'e', 'f', 'o', 'r', 'e'];
    let after = ['a', 'f', 't', 'e', 'r'];
    assert(first_child@ =~= seq!['f', 'i', 'r', 's', 't', '-', 'c', 'h', 'i', 'l', 'd']);
    assert(last_child@ =~= seq!['l', 'a', 's', 't', '-', 'c', 'h', 'i', 'l', 'd']);
    assert(only_child@ =~= seq!['o', 'n', 'l', 'y', '-', 'c', 'h', 'i', 'l', 'd']);
    assert(empty@ =~= seq!['e', 'm', 'p', 't', 'y']);
    assert(host@ =~= seq!['h', 'o', 's', 't']);
    assert(before@ =~= seq!['b', 'e', 'f', 'o', 'r', 'e']);
    assert(after@ =~= seq!['a', 'f', 't', 'e', 'r']);
    if chars_eq(n, first_child.as_slice()) {
        Some(PseudoName::FirstChild)
    } else if chars_eq(n, last_child.as_slice()) {
        Some(PseudoName::LastChild)
    } else if chars_eq(n, only_child.as_slice()) {
        Some(PseudoName::OnlyChild)
    } else if chars_eq(n, empty.as_slice()) {
        Some(PseudoName::Empty)
    } else if chars_eq(n, host.as_slice()) {
        Some(PseudoName::Host)
    } else if chars_eq(n, before.as_slice()) {
        Some(PseudoName::Before)
    } else if chars_eq(n, after.as_slice()) {
        Some(PseudoName::After)
    } else {
        None
    }
}

/// The functional pseudo-class that a name names.
fn fn_name(n: &String) -> (r: Option<FnName>)
    ensures
        r == spec_fn_name(n@),
{
    let v = str_chars(n.as_str());
    let not = ['n', 'o', 't'];
    let nth_child = ['n', 't', 'h', '-', 'c', 'h', 'i', 'l', 'd'];
    let nth_of_type = ['n', 't', 'h', '-', 'o', 'f', '-', 't', 'y', 'p', 'e'];
    assert(not@ =~= seq!['n', 'o', 't']);
    assert(nth_child@ =~= seq!['n', 't', 'h', '-', 'c', 'h', 'i', 'l', 'd']);
    assert(nth_of_type@ =~= seq!['n', 't', 'h', '-', 'o', 'f', '-', 't', 'y', 'p', 'e']);
    if chars_eq(v.as_slice(), not.as_slice()) {
        Some(FnName::Not)
    } else if chars_eq(v.as_slice(), nth_child.as_slice()) {
        Some(FnName::NthChild)
    } else if chars_eq(v.as_slice(), nth_of_type.as_slice()) {
        Some(FnName::NthOfType)
    } else {
        None
    }
}

/// Whether `w` is the one letter `lower` or `upper`.
fn letter_is(w: &String, lower: char, upper: char) -> (r: bool)
    ensures
        r == is_letter(w@, lower, upper),
{
    let v = str_chars(w.as_str());
    v.len() == 1 && (v[0] == lower || v[0] == upper)
}

/// Whether `w` is `of` up to ASCII case.
fn of_word(w: &String) -> (r: bool)
    ensures
        r == is_of_word(w@),
{
    let v = str_chars(w.as_str());
    v.len() == 2 && (v[0] == 'o' || v[0] == 'O') && (v[1] == 'f' || v[1] == 'F')
}

/// Whether an attribute selector with operator `op` and value `v` can match
/// nothing.
fn never_matches(op: AttributeOperator, v: &String) -> (r: bool)
    ensures
        r == spec_never_matches(op, v@),
{
    let cs = str_chars(v.as_str());
    match op {
        AttributeOperator::Begin | AttributeOperator::End | AttributeOperator::List => cs.len() == 0,
        AttributeOperator::Contain => {
            let mut k: usize = 0;
            while k < cs.len()
                invariant
                    op == AttributeOperator::Contain,
                    cs@ == v@,
                    k <= cs@.len(),
                    forall|j: int| 0 <= j < k ==> !is_selector_space(#[trigger] v@[j]),
                decreases cs@.len() - k,
            {
                let c = cs[k];
                if c == ' ' || c == '\t' || c == '\n' || c == '\r' || c == '\x0C' {
                    assert(is_selector_space(v@[k as int]));
                    return true;
                }
                k = k + 1;
            }
            cs.len() == 0
        },
        _ => false,
    }
}

/// The operator that a token stands for in an attribute selector.
fn attr_operator(t: &SelTok) -> (r: Option<AttributeOperator>)
    ensures
        r == spec_attr_operator(*t),
{
    let eq = ['='];
    let contain = ['~', '='];
    let hyphen = ['|', '='];
    let begin = ['^', '='];
    let end = ['$', '='];
    let list = ['*', '='];
    assert(eq@ =~= seq!['=']);
    assert(contain@ =~= seq!['~', '=']);
    assert(hyphen@ =~= seq!['|', '=']);
    assert(begin@ =~= seq!['^', '=']);
    assert(end@ =~= seq!['$', '=']);
    assert(list@ =~= seq!['*', '=']);
    if punct_is(t, eq.as_slice()) {
        Some(AttributeOperator::Exact)
    } else if punct_is(t, contain.as_slice()) {
        Some(AttributeOperator::Contain)
    } else if punct_is(t, hyphen.as_slice()) {
        Some(AttributeOperator::Hyphen)
    } else if punct_is(t, begin.as_slice()) {
        Some(AttributeOperator::Begin)
    } else if punct_is(t, end.as_slice()) {
        Some(AttributeOperator::End)
    } else if punct_is(t, list.as_slice()) {
        Some(AttributeOperator::List)
    } else {
        None
    }
}

/// An attribute result in terms of chars.
pub open spec fn attr_result_view(r: Result<Attribute, ParseError>) -> Result<AttrV, ParseError> {
    match r {
        Ok(a) => Ok(a@),
        Err(e) => Err(e),
    }
}

/// The attribute selector that the contents `cs` of a `[...]` block hold;
/// see `spec_attribute`.
pub fn attribute_from_tokens(cs: &Vec<SelTok>) -> (r: Result<Attribute, ParseError>)
    ensures
        attr_result_view(r) == spec_attribute(cs@),
{
    let n = cs.len();
    let k0 = skip_space(cs, 0, n);
    if k0 >= n {
        return Err(ParseError::Basic);
    }
    let name = match &cs[k0] {
        SelTok::Ident(x) => x.clone(),
        _ => {
            return Err(ParseError::Basic);
        },
    };
    let k1 = skip_space(cs, k0 + 1, n);
    if k1 >= n {
        return Ok(
            Attribute {
                operator: AttributeOperator::Present,
                case_insensitive: AttributeFlags::CaseSensitivityDependsOnName,
                never_matches: false,
                name,
                value: None,
            },
        );
    }
    let op = match attr_operator(&cs[k1]) {
        Some(op) => op,
        None => {
            return Err(ParseError::Custom(CustomError::UnexpectedTokenInAttributeSelector));
        },
    };
    let k2 = skip_space(cs, k1 + 1, n);
    if k2 >= n {
        return Err(ParseError::Basic);
    }
    let value = match &cs[k2] {
        SelTok::Ident(v) => v.clone(),
        SelTok::QuotedString(v) => v.clone(),
        _ => {
            return Err(ParseError::Custom(CustomError::BadValueInAttr));
        },
    };
    let k3 = skip_space(cs, k2 + 1, n);
    let flags = if k3 >= n {
        AttributeFlags::CaseSensitivityDependsOnName
    } else {
        match &cs[k3] {
            SelTok::Ident(w) => if letter_is(w, 'i', 'I') {
                AttributeFlags::CaseInsensitive
            } else if letter_is(w, 's', 'S') {
                AttributeFlags::CaseSensitive
            } else {
                return Err(ParseError::Basic);
            },
            _ => {
                return Err(ParseError::Basic);
            },
        }
    };
    if k3 < n && skip_space(cs, k3 + 1, n) < n {
        return Err(ParseError::Basic);
    }
    let nm = never_matches(op, &value);
    Ok(Attribute { operator: op, case_insensitive: flags, never_matches: nm, name, value: Some(value) })
}

/// What one token does to a compound selector (see `Step`).
pub enum StepOut {
    Go(SelectorFragment, PrevSep, usize, Vec<WarningKind>),
    Stop(ParseError, Vec<WarningKind>),
}

/// A step in terms of chars.
pub open spec fn step_view(s: StepOut) -> Step {
    match s {
        StepOut::Go(f, p, n, w) => Step::Go(f@, p, n as int, w@),
        StepOut::Stop(e, w) => Step::Stop(e, w@),
    }
}

/// A fragment result in terms of chars.
pub open spec fn frag_result_view(r: Result<SelectorFragment, ParseError>) -> Result<FragV, ParseError> {
    match r {
        Ok(f) => Ok(f@),
        Err(e) => Err(e),
    }
}

/// A result of fragments in terms of chars.
pub open spec fn frags_result_view(r: Result<Vec<SelectorFragment>, ParseError>) -> Result<
    Seq<FragV>,
    ParseError,
> {
    match r {
        Ok(v) => Ok(frags_view(v@)),
        Err(e) => Err(e),
    }
}

/// A selector result in terms of chars.
pub open spec fn selector_result_view(r: Result<Selector, ParseError>) -> Result<Seq<FragV>, ParseError> {
    match r {
        Ok(s) => Ok(frags_view(s.fragments@)),
        Err(e) => Err(e),
    }
}

/// One fragment's view.
proof fn lemma_frags_view_one(f: SelectorFragment)
    ensures
        frags_view(seq![f]) == seq![frag_view(f)],
{
    assert(seq![f].subrange(0, 0) =~= Seq::<SelectorFragment>::empty());
    assert(frags_view(Seq::<SelectorFragment>::empty()).push(frag_view(f)) =~= seq![frag_view(f)]);
}

/// The error of a construct that is not supported.
fn unsupported_error() -> (r: ParseError)
    ensures
        r == unsupported(),
{
    ParseError::Custom(CustomError::Unsupported)
}

/// A stop with a single warning.
fn stop_with(e: ParseError, w: WarningKind) -> (r: StepOut)
    ensures
        step_view(r) == Step::Stop(e, seq![w]),
{
    let v = vec![w];
    assert(v@ =~= seq![w]);
    StepOut::Stop(e, v)
}

/// A step with no warning.
fn go(f: SelectorFragment, p: PrevSep, n: usize) -> (r: StepOut)
    ensures
        step_view(r) == Step::Go(f@, p, n as int, seq![]),
{
    let v: Vec<WarningKind> = Vec::new();
    assert(v@ =~= Seq::<WarningKind>::empty());
    StepOut::Go(f, p, n, v)
}

/// What a pseudo-element named `n` (lowercased) after a double colon does.
fn element_step(f: SelectorFragment, n: &[char], next: usize) -> (r: StepOut)
    ensures
        step_view(r) == spec_element_step(f@, n@, next as int),
{
    let before = ['b', 'e', 'f', 'o', 'r', 'e'];
    let after = ['a', 'f', 't', 'e', 'r'];
    assert(before@ =~= seq!['b', 'e', 'f', 'o', 'r', 'e']);
    assert(after@ =~= seq!['a', 'f', 't', 'e', 'r']);
    let mut f = f;
    if chars_eq(n, before.as_slice()) {
        f.set_pseudo_elements(PseudoElements::Before);
        go(f, PrevSep::End, next)
    } else if chars_eq(n, after.as_slice()) {
        f.set_pseudo_elements(PseudoElements::After);
        go(f, PrevSep::End, next)
    } else {
        stop_with(unsupported_error(), WarningKind::UnsupportedPseudoElement)
    }
}

/// What a pseudo-class or pseudo-element named `n` (lowercased) after a
/// single colon does.
fn pseudo_step(f: SelectorFragment, prev: PrevSep, n: &[char], next: usize) -> (r: StepOut)
    ensures
        step_view(r) == spec_pseudo_step(f@, prev, n@, next as int),
{
    let mut f = f;
    match pseudo_name(n) {
        Some(PseudoName::FirstChild) => {
            f.set_pseudo_classes(PseudoClasses::FirstChild);
            go(f, PrevSep::NoSep, next)
        },
        Some(PseudoName::LastChild) => {
            f.set_pseudo_classes(PseudoClasses::LastChild);
            go(f, PrevSep::NoSep, next)
        },
        Some(PseudoName::OnlyChild) => {
            f.set_pseudo_classes(PseudoClasses::OnlyChild);
            go(f, PrevSep::NoSep, next)
        },
        Some(PseudoName::Empty) => {
            f.set_pseudo_classes(PseudoClasses::Empty);
            go(f, PrevSep::NoSep, next)
        },
        Some(PseudoName::Host) => {
            if prev == PrevSep::Init {
                f.set_pseudo_classes(PseudoClasses::Host);
                go(f, PrevSep::End, next)
            } else {
                stop_with(unsupported_error(), WarningKind::UnsupportedPseudoClass)
            }
        },
        Some(PseudoName::Before) => {
            f.set_pseudo_elements(PseudoElements::Before);
            let v = vec![WarningKind::InvalidPseudoElement];
            assert(v@ =~= seq![WarningKind::InvalidPseudoElement]);
            StepOut::Go(f, PrevSep::End, next, v)
        },
        Some(PseudoName::After) => {
            f.set_pseudo_elements(PseudoElements::After);
            let v = vec![WarningKind::InvalidPseudoElement];
            assert(v@ =~= seq![WarningKind::InvalidPseudoElement]);
            StepOut::Go(f, PrevSep::End, next, v)
        },
        None => stop_with(unsupported_error(), WarningKind::UnsupportedPseudoClass),
    }
}

/// What the delimiter `d` at index `j` does.
fn delim_step(ts: &Vec<SelTok>, j: usize, c: usize, f: SelectorFragment, prev: PrevSep, d: char) -> (r: StepOut)
    requires
        j < c <= ts@.len(),
    ensures
        step_view(r) == spec_delim(ts@, j as int, c as int, f@, prev, d),
{
    if d == '.' {
        let m = skip_space(ts, j + 1, c);
        if m < c {
            match &ts[m] {
                SelTok::Ident(x) => {
                    let mut g = clear_prev_sep(f, prev);
                    g.add_class(x.as_str());
                    go(g, PrevSep::NoSep, m + 1)
                },
                _ => stop_with(unsupported_error(), WarningKind::InvalidSelector),
            }
        } else {
            stop_with(unsupported_error(), WarningKind::InvalidSelector)
        }
    } else if d == '>' || d == '+' || d == '~' {
        if prev == PrevSep::Init {
            stop_with(unsupported_error(), WarningKind::InvalidSelector)
        } else {
            let next = if d == '>' {
                PrevSep::Child
            } else if d == '+' {
                PrevSep::NextSibling
            } else {
                PrevSep::SubsequentSibling
            };
            go(f, next, j + 1)
        }
    } else if d == '*' {
        match prev {
            PrevSep::Space => go(
                SelectorFragment::with_relation(SelectorRelationType::Ancestor(f)),
                PrevSep::NoSep,
                j + 1,
            ),
            PrevSep::Child => go(
                SelectorFragment::with_relation(SelectorRelationType::DirectParent(f)),
                PrevSep::NoSep,
                j + 1,
            ),
            PrevSep::NoSep => stop_with(unsupported_error(), WarningKind::InvalidSelector),
            _ => go(f, PrevSep::Universal, j + 1),
        }
    } else {
        stop_with(unsupported_error(), WarningKind::UnsupportedSelector)
    }
}

/// What `:not()` does with what was read inside it; see `spec_not_step`.
fn not_step(
    f: SelectorFragment,
    inner: (Result<Vec<SelectorFragment>, ParseError>, Vec<WarningKind>),
    next: usize,
) -> (r: StepOut)
    ensures
        step_view(r) == spec_not_step(f@, (frags_result_view(inner.0), inner.1@), next as int),
{
    let ghost wv = inner.1@;
    let ghost rv = frags_result_view(inner.0);
    let res = inner.0;
    let mut w = inner.1;
    assert(w@ == wv);
    match res {
        Err(e) => {
            assert(rv == Err::<Seq<FragV>, ParseError>(e));
            StepOut::Stop(e, w)
        },
        Ok(frags) => {
            let mut frags = frags;
            let ghost fv = f@;
            let SelectorFragment {
                tag_name,
                id,
                classes,
                relation,
                pseudo_classes,
                pseudo_elements,
                attributes,
            } = f;
            match pseudo_classes {
                Some(b) => {
                    let ghost pb: PseudoClasses = *b;
                    assert(fv.pseudo_class == Some(pc_view(pb)));
                    match *b {
                        PseudoClasses::Not(v) => {
                            assert(pc_view(pb) == PcV::Not(frags_view(v@)));
                            let mut v = v;
                            let ghost v0 = v@;
                            let ghost f0 = frags@;
                            v.append(&mut frags);
                            proof {
                                lemma_frags_view_add(v0, f0);
                            }
                            let g = SelectorFragment {
                                tag_name,
                                id,
                                classes,
                                relation,
                                pseudo_classes: Some(Box::new(PseudoClasses::Not(v))),
                                pseudo_elements,
                                attributes,
                            };
                            assert(pc_view(PseudoClasses::Not(v)) == PcV::Not(frags_view(v@)));
                            assert(g@ == with_pseudo_class(fv, PcV::Not(frags_view(v0) + frags_view(f0))));
                            StepOut::Go(g, PrevSep::PseudoClassesNot, next, w)
                        },
                        _ => {
                            assert(!(pc_view(pb) is Not));
                            w.push(WarningKind::UnsupportedSelector);
                            StepOut::Stop(unsupported_error(), w)
                        },
                    }
                },
                None => {
                    assert(fv.pseudo_class is None);
                    let g = SelectorFragment {
                        tag_name,
                        id,
                        classes,
                        relation,
                        pseudo_classes: Some(Box::new(PseudoClasses::Not(frags))),
                        pseudo_elements,
                        attributes,
                    };
                    assert(pc_view(PseudoClasses::Not(frags)) == PcV::Not(frags_view(frags@)));
                    assert(g@ == with_pseudo_class(fv, PcV::Not(frags_view(frags@))));
                    StepOut::Go(g, PrevSep::PseudoClassesNot, next, w)
                },
            }
        },
    }
}

/// Whether nothing but white space is left in `ts`.
fn only_white_space(ts: &Vec<SelTok>) -> (r: bool)
    ensures
        r == only_space(ts@),
{
    skip_space(ts, 0, ts.len()) >= ts.len()
}

/// A selector list read inside a block from index `i`: the list, then
/// nothing but the end of the block; see `nested_result`.
fn nested_list(cs: &Vec<SelTok>, i: usize) -> (r: (Result<Vec<SelectorFragment>, ParseError>, Vec<WarningKind>))
    requires
        i <= cs@.len(),
    ensures
        (frags_result_view(r.0), r.1@) == nested_result(spec_selector(cs@, i as int), cs@.len()),
    decreases cs@, cs@.len() + 2 - i, 0int,
{
    let (r, w, e) = selector_from_tokens(cs, i);
    match r {
        Ok(sel) => if e < cs.len() {
            (Err(ParseError::Basic), w)
        } else {
            (Ok(sel.fragments), w)
        },
        Err(x) => (Err(x), w),
    }
}

/// What an `nth` function does, `rest` being the tokens after `an+b`; see
/// `spec_nth_step`.
fn nth_step(f: SelectorFragment, kind: FnName, a: i32, b: i32, rest: &Vec<SelTok>, next: usize) -> (r: StepOut)
    ensures
        step_view(r) == spec_nth_step(f@, kind, a, b, rest@, next as int),
    decreases rest@, rest@.len() + 3, 0int,
{
    let mut f = f;
    if kind == FnName::NthOfType {
        if only_white_space(rest) {
            f.set_pseudo_classes(PseudoClasses::NthOfType(a, b));
            go(f, PrevSep::NoSep, next)
        } else {
            StepOut::Stop(unsupported_error(), Vec::new())
        }
    } else {
        let n = rest.len();
        let k = skip_space(rest, 0, n);
        let is_of = k < n && match &rest[k] {
            SelTok::Ident(x) => of_word(x),
            _ => false,
        };
        if is_of {
            let (inner, w) = nested_list(rest, k + 1);
            match inner {
                Ok(frags) => {
                    let ghost fv = frags_view(frags@);
                    assert(pc_view(PseudoClasses::NthChild(a, b, Some(frags))) == PcV::NthChild(a, b, Some(fv)));
                    f.set_pseudo_classes(PseudoClasses::NthChild(a, b, Some(frags)));
                    StepOut::Go(f, PrevSep::NoSep, next, w)
                },
                Err(e) => StepOut::Stop(e, w),
            }
        } else if k >= n {
            f.set_pseudo_classes(PseudoClasses::NthChild(a, b, None));
            go(f, PrevSep::NoSep, next)
        } else {
            StepOut::Stop(unsupported_error(), Vec::new())
        }
    }
}

/// What the function token at index `m` does after a colon; see
/// `spec_fn_step`.
#[verifier::rlimit(40)]
fn fn_step(ts: &Vec<SelTok>, m: usize, f: SelectorFragment, only_not: bool) -> (r: StepOut)
    requires
        m < ts@.len(),
    ensures
        step_view(r) == spec_fn_step(ts@, m as int, f@, only_not),
    decreases ts@, 0int, 1int,
{
    let len = ts.len();
    assert(m + 1 <= len);
    match &ts[m] {
        SelTok::Function(name, body) => {
            match fn_name(name) {
                Some(FnName::Not) => match body {
                    Some(FnBody::Tokens(cs)) => {
                        let inner = nested_list(cs, 0);
                        not_step(f, inner, m + 1)
                    },
                    _ => StepOut::Stop(ParseError::Basic, Vec::new()),
                },
                Some(kind) => {
                    if only_not {
                        return stop_with(unsupported_error(), WarningKind::UnsupportedSelector);
                    }
                    match body {
                        Some(FnBody::Nth(Some((a, b, rest)))) => nth_step(f, kind, *a, *b, rest, m + 1),
                        _ => StepOut::Stop(ParseError::Basic, Vec::new()),
                    }
                },
                None => stop_with(unsupported_error(), WarningKind::UnsupportedSelector),
            }
        },
        _ => stop_with(unsupported_error(), WarningKind::UnsupportedSelector),
    }
}

/// What a colon at index `j` does; see `spec_colon`.
fn colon_step(ts: &Vec<SelTok>, j: usize, c: usize, f: SelectorFragment, prev: PrevSep) -> (r: StepOut)
    requires
        j < c <= ts@.len(),
    ensures
        step_view(r) == spec_colon(ts@, j as int, c as int, f@, prev),
    decreases ts@, c - j, 2int,
{
    if prev == PrevSep::Init || prev == PrevSep::NoSep {
        if j + 1 >= c {
            return StepOut::Stop(ParseError::Basic, Vec::new());
        }
        let colon = [':'];
        assert(colon@ =~= seq![':']);
        if punct_is(&ts[j + 1], colon.as_slice()) {
            if j + 2 >= c {
                return StepOut::Stop(ParseError::Basic, Vec::new());
            }
            match &ts[j + 2] {
                SelTok::Ident(n) => {
                    let l = lower_chars(n);
                    element_step(f, l.as_slice(), j + 3)
                },
                _ => stop_with(unsupported_error(), WarningKind::UnsupportedSelector),
            }
        } else {
            match &ts[j + 1] {
                SelTok::Ident(n) => {
                    let l = lower_chars(n);
                    pseudo_step(f, prev, l.as_slice(), j + 2)
                },
                SelTok::Function(_, _) => fn_step(ts, j + 1, f, false),
                _ => stop_with(unsupported_error(), WarningKind::UnsupportedSelector),
            }
        }
    } else if prev == PrevSep::PseudoClassesNot {
        if j + 1 >= c {
            StepOut::Stop(ParseError::Basic, Vec::new())
        } else {
            fn_step(ts, j + 1, f, true)
        }
    } else {
        stop_with(unsupported_error(), WarningKind::UnsupportedSelector)
    }
}

/// What the token at index `j` does; see `spec_token`.
fn token_step(ts: &Vec<SelTok>, j: usize, c: usize, f: SelectorFragment, prev: PrevSep) -> (r: StepOut)
    requires
        j < c <= ts@.len(),
    ensures
        step_view(r) == spec_token(ts@, j as int, c as int, f@, prev),
    decreases ts@, c - j, 3int,
{
    match &ts[j] {
        SelTok::Ident(s) => {
            let mut g = clear_prev_sep(f, prev);
            g.set_tag_name(s.as_str());
            go(g, PrevSep::NoSep, j + 1)
        },
        SelTok::IdHash(s) => {
            let mut g = clear_prev_sep(f, prev);
            g.set_id(s.as_str());
            go(g, PrevSep::NoSep, j + 1)
        },
        SelTok::Hash => stop_with(unsupported_error(), WarningKind::InvalidSelector),
        SelTok::Punct(p) => {
            let v = str_chars(p.as_str());
            let colon = [':'];
            let cdo = ['<', '!', '-', '-'];
            let cdc = ['-', '-', '>'];
            assert(colon@ =~= seq![':']);
            assert(cdo@ =~= seq!['<', '!', '-', '-']);
            assert(cdc@ =~= seq!['-', '-', '>']);
            if chars_eq(v.as_slice(), colon.as_slice()) {
                colon_step(ts, j, c, f, prev)
            } else if chars_eq(v.as_slice(), cdo.as_slice()) || chars_eq(v.as_slice(), cdc.as_slice()) {
                go(f, prev, j + 1)
            } else if v.len() == 1 {
                delim_step(ts, j, c, f, prev, v[0])
            } else {
                stop_with(unsupported_error(), WarningKind::UnsupportedSelector)
            }
        },
        SelTok::WhiteSpace => go(f, PrevSep::Space, j + 1),
        SelTok::SquareBracket(contents) => match contents {
            None => StepOut::Stop(ParseError::Basic, Vec::new()),
            Some(cs) => match attribute_from_tokens(cs) {
                Ok(a) => {
                    let mut g = clear_prev_sep(f, prev);
                    g.add_attribute(a);
                    go(g, PrevSep::NoSep, j + 1)
                },
                Err(e) => StepOut::Stop(e, Vec::new()),
            },
        },
        _ => stop_with(unsupported_error(), WarningKind::UnsupportedSelector),
    }
}

/// The compound selectors from index `k` up to `c`; see `spec_steps`.
fn steps_from(ts: &Vec<SelTok>, k: usize, c: usize, f: SelectorFragment, prev: PrevSep) -> (r: (
    Result<SelectorFragment, ParseError>,
    Vec<WarningKind>,
))
    requires
        k <= c <= ts@.len(),
    ensures
        (frag_result_view(r.0), r.1@) == spec_steps(ts@, k as int, c as int, f@, prev),
    decreases ts@, c - k, 4int,
{
    let m = skip_space(ts, k, c);
    if m >= c {
        if prev == PrevSep::Child {
            let v = vec![WarningKind::InvalidSelector];
            assert(v@ =~= seq![WarningKind::InvalidSelector]);
            return (Err(unsupported_error()), v);
        } else {
            return (Ok(f), Vec::new());
        }
    }
    if prev == PrevSep::End {
        let v = vec![WarningKind::UnsupportedSelector];
        assert(v@ =~= seq![WarningKind::UnsupportedSelector]);
        return (Err(ParseError::Basic), v);
    }
    let j = if prev == PrevSep::NoSep || prev == PrevSep::PseudoClassesNot {
        k
    } else {
        m
    };
    match token_step(ts, j, c, f, prev) {
        StepOut::Stop(e, w) => (Err(e), w),
        StepOut::Go(f2, p2, n, w) => {
            let mut w = w;
            if k < n && n <= c {
                let (r, w2) = steps_from(ts, n, c, f2, p2);
                let mut w2 = w2;
                w.append(&mut w2);
                (r, w)
            } else {
                (Err(ParseError::Basic), w)
            }
        },
    }
}

/// One selector of a list: the tokens from `s` up to `c`; see `spec_item`.
fn item_from(ts: &Vec<SelTok>, s: usize, c: usize) -> (r: (Result<SelectorFragment, ParseError>, Vec<WarningKind>))
    requires
        s <= c <= ts@.len(),
    ensures
        (frag_result_view(r.0), r.1@) == spec_item(ts@, s as int, c as int),
    decreases ts@, c - s, 5int,
{
    let k = skip_space(ts, s, c);
    if k >= c {
        let v = vec![WarningKind::InvalidSelector];
        assert(v@ =~= seq![WarningKind::InvalidSelector]);
        return (Err(unsupported_error()), v);
    }
    steps_from(ts, k, c, SelectorFragment::new(), PrevSep::Init)
}

/// The comma-separated selectors from `s` up to `e`; see `spec_items`.
fn items_from(ts: &Vec<SelTok>, s: usize, e: usize) -> (r: (Result<Vec<SelectorFragment>, ParseError>, Vec<WarningKind>))
    requires
        s <= e <= ts@.len(),
    ensures
        (frags_result_view(r.0), r.1@) == spec_items(ts@, s as int, e as int),
    decreases ts@, e - s, 6int,
{
    let c = find_comma(ts, s, e);
    let (one, w1) = item_from(ts, s, c);
    match one {
        Err(x) => (Err(x), w1),
        Ok(f) => {
            let ghost fv = f;
            let mut v = vec![f];
            assert(v@ =~= seq![fv]);
            proof {
                lemma_frags_view_one(fv);
            }
            if c >= e {
                (Ok(v), w1)
            } else {
                let (rest, w2) = items_from(ts, c + 1, e);
                let mut w1 = w1;
                let mut w2 = w2;
                w1.append(&mut w2);
                match rest {
                    Ok(fs) => {
                        let mut fs = fs;
                        let ghost f0 = fs@;
                        v.append(&mut fs);
                        proof {
                            lemma_frags_view_add(seq![fv], f0);
                        }
                        (Ok(v), w1)
                    },
                    Err(x) => (Err(x), w1),
                }
            }
        },
    }
}

/// The selector list that starts at index `i` of `ts`, the warnings given,
/// and the index where the list ends: at the first `{` block or the end;
/// see `spec_selector`.
pub fn selector_from_tokens(ts: &Vec<SelTok>, i: usize) -> (r: (Result<Selector, ParseError>, Vec<WarningKind>, usize))
    requires
        i <= ts@.len(),
    ensures
        (selector_result_view(r.0), r.1@, r.2 as int) == spec_selector(ts@, i as int),
    decreases ts@, ts@.len() + 1 - i, 7int,
{
    let e = find_curly(ts, i);
    let (r, w) = items_from(ts, i, e);
    match r {
        Ok(fragments) => (Ok(Selector { fragments }), w, e),
        Err(x) => (Err(x), w, e),
    }
}

/// Each attribute operator token stands for its own comparison: `=` an
/// exact match, `~=` a word of a list, `|=` a hyphen-separated prefix,
/// `^=` a prefix, `$=` a suffix, `*=` a substring; distinct tokens stand
/// for distinct comparisons, and no other token is an operator.
pub proof fn law_attribute_operators(t: SelTok, u: SelTok)
    ensures
        is_punct(t, seq!['=']) ==> spec_attr_operator(t) == Some(AttributeOperator::Exact),
        is_punct(t, seq!['~', '=']) ==> spec_attr_operator(t) == Some(AttributeOperator::Contain),
        is_punct(t, seq!['|', '=']) ==> spec_attr_operator(t) == Some(AttributeOperator::Hyphen),
        is_punct(t, seq!['^', '=']) ==> spec_attr_operator(t) == Some(AttributeOperator::Begin),
        is_punct(t, seq!['$', '=']) ==> spec_attr_operator(t) == Some(AttributeOperator::End),
        is_punct(t, seq!['*', '=']) ==> spec_attr_operator(t) == Some(AttributeOperator::List),
        spec_attr_operator(t) is Some <==> (is_punct(t, seq!['=']) || is_punct(t, seq!['~', '=']) || is_punct(t, seq!['|', '=']) || is_punct(t, seq!['^', '=']) || is_punct(t, seq!['$', '=']) || is_punct(t, seq!['*', '='])),
        spec_attr_operator(t) is Some && spec_attr_operator(u) == spec_attr_operator(t) ==> u == t || (t is Punct && u is Punct && t->Punct_0@ == u->Punct_0@),
        spec_attr_operator(t) != Some(AttributeOperator::Present),
{
}

/// Which attribute selectors can match nothing: an exact or `|=` match can
/// always match; a prefix, suffix or substring match cannot with an empty
/// value; a word match cannot with an empty value or one holding white
/// space.
pub proof fn law_never_matches(v: Seq<char>)
    ensures
        !spec_never_matches(AttributeOperator::Exact, v),
        !spec_never_matches(AttributeOperator::Hyphen, v),
        !spec_never_matches(AttributeOperator::Present, v),
        spec_never_matches(AttributeOperator::Begin, v) <==> v.len() == 0,
        spec_never_matches(AttributeOperator::End, v) <==> v.len() == 0,
        spec_never_matches(AttributeOperator::List, v) <==> v.len() == 0,
        spec_never_matches(AttributeOperator::Contain, v) <==> (v.len() == 0 || exists|k: int|
            0 <= k < v.len() && (#[trigger] v[k] == ' ' || v[k] == '\t' || v[k] == '\n' || v[k] == '\r' || v[k] == '\x0C')),
{
}

/// Each name after a single colon names its own pseudo-class or
/// pseudo-element, distinct names name distinct ones, and no other name is
/// supported.
pub proof fn law_pseudo_names(n: Seq<char>)
    ensures
        spec_pseudo_name(seq!['f', 'i', 'r', 's', 't', '-', 'c', 'h', 'i', 'l', 'd']) == Some(PseudoName::FirstChild),
        spec_pseudo_name(seq!['l', 'a', 's', 't', '-', 'c', 'h', 'i', 'l', 'd']) == Some(PseudoName::LastChild),
        spec_pseudo_name(seq!['o', 'n', 'l', 'y', '-', 'c', 'h', 'i', 'l', 'd']) == Some(PseudoName::OnlyChild),
        spec_pseudo_name(seq!['e', 'm', 'p', 't', 'y']) == Some(PseudoName::Empty),
        spec_pseudo_name(seq!['h', 'o', 's', 't']) == Some(PseudoName::Host),
        spec_pseudo_name(seq!['b', 'e', 'f', 'o', 'r', 'e']) == Some(PseudoName::Before),
        spec_pseudo_name(seq!['a', 'f', 't', 'e', 'r']) == Some(PseudoName::After),
        spec_pseudo_name(n) is Some <==> (n == seq!['f', 'i', 'r', 's', 't', '-', 'c', 'h', 'i', 'l', 'd'] || n == seq!['l', 'a', 's', 't', '-', 'c', 'h', 'i', 'l', 'd'] || n == seq!['o', 'n', 'l', 'y', '-', 'c', 'h', 'i', 'l', 'd'] || n == seq!['e', 'm', 'p', 't', 'y'] || n == seq!['h', 'o', 's', 't'] || n == seq!['b', 'e', 'f', 'o', 'r', 'e'] || n == seq!['a', 'f', 't', 'e', 'r']),
        forall|m: Seq<char>| spec_pseudo_name(n) is Some && #[trigger] spec_pseudo_name(m) == spec_pseudo_name(n) ==> m == n,
{
}

/// Each functional pseudo-class name names its own function, distinct
/// names name distinct functions, and no other function is supported.
pub proof fn law_function_names(n: Seq<char>)
    ensures
        spec_fn_name(seq!['n', 'o', 't']) == Some(FnName::Not),
        spec_fn_name(seq!['n', 't', 'h', '-', 'c', 'h', 'i', 'l', 'd']) == Some(FnName::NthChild),
        spec_fn_name(seq!['n', 't', 'h', '-', 'o', 'f', '-', 't', 'y', 'p', 'e']) == Some(FnName::NthOfType),
        spec_fn_name(n) is Some <==> (n == seq!['n', 'o', 't'] || n == seq!['n', 't', 'h', '-', 'c', 'h', 'i', 'l', 'd'] || n == seq!['n', 't', 'h', '-', 'o', 'f', '-', 't', 'y', 'p', 'e']),
        forall|m: Seq<char>| spec_fn_name(n) is Some && #[trigger] spec_fn_name(m) == spec_fn_name(n) ==> m == n,
{
}

/// What a pseudo-class or pseudo-element does to the fragment: each
/// supported name sets the pseudo-class or pseudo-element it names and
/// nothing else; `::before` and `::after` end the compound selector, and
/// with a single colon they are accepted with a warning.
pub proof fn law_pseudo_steps(f: FragV, prev: PrevSep, next: int)
    ensures
        spec_pseudo_step(f, prev, seq!['f', 'i', 'r', 's', 't', '-', 'c', 'h', 'i', 'l', 'd'], next) == Step::Go(with_pseudo_class(f, PcV::FirstChild), PrevSep::NoSep, next, seq![]),
        spec_pseudo_step(f, prev, seq!['l', 'a', 's', 't', '-', 'c', 'h', 'i', 'l', 'd'], next) == Step::Go(with_pseudo_class(f, PcV::LastChild), PrevSep::NoSep, next, seq![]),
        spec_pseudo_step(f, prev, seq!['o', 'n', 'l', 'y', '-', 'c', 'h', 'i', 'l', 'd'], next) == Step::Go(with_pseudo_class(f, PcV::OnlyChild), PrevSep::NoSep, next, seq![]),
        spec_pseudo_step(f, prev, seq!['e', 'm', 'p', 't', 'y'], next) == Step::Go(with_pseudo_class(f, PcV::Empty), PrevSep::NoSep, next, seq![]),
        prev == PrevSep::Init ==> spec_pseudo_step(f, prev, seq!['h', 'o', 's', 't'], next) == Step::Go(with_pseudo_class(f, PcV::Host), PrevSep::End, next, seq![]),
        prev != PrevSep::Init ==> spec_pseudo_step(f, prev, seq!['h', 'o', 's', 't'], next) == Step::Stop(unsupported(), seq![WarningKind::UnsupportedPseudoClass]),
        spec_pseudo_step(f, prev, seq!['b', 'e', 'f', 'o', 'r', 'e'], next) == Step::Go(with_pseudo_element(f, PseudoElements::Before), PrevSep::End, next, seq![WarningKind::InvalidPseudoElement]),
        spec_pseudo_step(f, prev, seq!['a', 'f', 't', 'e', 'r'], next) == Step::Go(with_pseudo_element(f, PseudoElements::After), PrevSep::End, next, seq![WarningKind::InvalidPseudoElement]),
        spec_element_step(f, seq!['b', 'e', 'f', 'o', 'r', 'e'], next) == Step::Go(with_pseudo_element(f, PseudoElements::Before), PrevSep::End, next, seq![]),
        spec_element_step(f, seq!['a', 'f', 't', 'e', 'r'], next) == Step::Go(with_pseudo_element(f, PseudoElements::After), PrevSep::End, next, seq![]),
        spec_element_step(f, seq!['f', 'i', 'r', 's', 't', '-', 'c', 'h', 'i', 'l', 'd'], next) == Step::Stop(unsupported(), seq![WarningKind::UnsupportedPseudoElement]),
{
}

/// What the combinators do: after something, `>`, `+` and `~` announce a
/// child, a next sibling and a later sibling; the next simple selector then
/// starts a new fragment related to the one before it in that way (white
/// space: as a descendant).
pub proof fn law_combinators(ts: Seq<SelTok>, j: int, c: int, f: FragV, prev: PrevSep)
    ensures
        prev != PrevSep::Init ==> spec_delim(ts, j, c, f, prev, '>') == Step::Go(f, PrevSep::Child, j + 1, seq![]),
        prev != PrevSep::Init ==> spec_delim(ts, j, c, f, prev, '+') == Step::Go(f, PrevSep::NextSibling, j + 1, seq![]),
        prev != PrevSep::Init ==> spec_delim(ts, j, c, f, prev, '~') == Step::Go(f, PrevSep::SubsequentSibling, j + 1, seq![]),
        spec_clear(f, PrevSep::Space) == with_relation(RelKind::Ancestor, f),
        spec_clear(f, PrevSep::Child) == with_relation(RelKind::DirectParent, f),
        spec_clear(f, PrevSep::NextSibling) == with_relation(RelKind::NextSibling, f),
        spec_clear(f, PrevSep::SubsequentSibling) == with_relation(RelKind::SubsequentSibling, f),
        spec_clear(f, PrevSep::NoSep) == f,
        spec_clear(f, PrevSep::Init) == f,
        with_relation(RelKind::Ancestor, f).relation == Some((RelKind::Ancestor, Box::new(f))),
{
}

/// The number of commas from index `s` up to `e`, at the level of `ts`.
pub open spec fn commas(ts: Seq<SelTok>, s: int, e: int) -> nat
    decreases e - s,
{
    if s >= e {
        0
    } else {
        (if is_punct(ts[s], seq![',']) {
            1nat
        } else {
            0nat
        }) + commas(ts, s + 1, e)
    }
}

/// The first comma lies within the range, and none comes before it.
proof fn lemma_first_comma(ts: Seq<SelTok>, s: int, e: int)
    requires
        s <= e,
    ensures
        s <= first_comma(ts, s, e) <= e,
        commas(ts, s, first_comma(ts, s, e)) == 0,
        first_comma(ts, s, e) < e ==> is_punct(ts[first_comma(ts, s, e)], seq![',']),
    decreases e - s,
{
    if s < e && !is_punct(ts[s], seq![',']) {
        lemma_first_comma(ts, s + 1, e);
    }
}

/// Commas over a range are those over its two parts.
proof fn lemma_commas_split(ts: Seq<SelTok>, s: int, m: int, e: int)
    requires
        s <= m <= e,
    ensures
        commas(ts, s, e) == commas(ts, s, m) + commas(ts, m, e),
    decreases m - s,
{
    if s < m {
        lemma_commas_split(ts, s + 1, m, e);
    }
}

/// A list of selectors that is read has one fragment more than it has
/// commas.
proof fn lemma_items_count(ts: Seq<SelTok>, s: int, e: int)
    requires
        0 <= s <= e <= ts.len(),
    ensures
        spec_items(ts, s, e).0 matches Ok(fs) ==> fs.len() == commas(ts, s, e) + 1,
    decreases e - s,
{
    let c = first_comma(ts, s, e);
    lemma_first_comma(ts, s, e);
    lemma_commas_split(ts, s, c, e);
    if c < e {
        lemma_items_count(ts, c + 1, e);
    }
}

/// A selector list that is read gives one fragment for each selector:
/// one more than the commas between them.
pub proof fn law_one_fragment_per_selector(ts: Seq<SelTok>, i: int)
    requires
        0 <= i <= ts.len(),
    ensures
        spec_selector(ts, i).0 matches Ok(fs) ==> fs.len() == commas(ts, i, spec_selector(ts, i).2) + 1,
{
    let e = first_curly(ts, i);
    if 0 <= i <= e <= ts.len() {
        lemma_items_count(ts, i, e);
    }
}

/// Whether every warning in `w` is of a pseudo-element written with a
/// single colon.
pub open spec fn pseudo_element_warnings_only(w: Seq<WarningKind>) -> bool {
    forall|k: int| 0 <= k < w.len() ==> #[trigger] w[k] == WarningKind::InvalidPseudoElement
}

proof fn lemma_warnings_concat(a: Seq<WarningKind>, b: Seq<WarningKind>)
    requires
        pseudo_element_warnings_only(a),
        pseudo_element_warnings_only(b),
    ensures
        pseudo_element_warnings_only(a + b),
{
    assert forall|k: int| 0 <= k < (a + b).len() implies #[trigger] (a + b)[k] == WarningKind::InvalidPseudoElement by {
        if k < a.len() {
            assert((a + b)[k] == a[k]);
        } else {
            assert((a + b)[k] == b[k - a.len()]);
        }
    }
}

/// Whether a step that goes on gives only pseudo-element warnings.
pub open spec fn step_warns_lightly(st: Step) -> bool {
    st matches Step::Go(_, _, _, w) ==> pseudo_element_warnings_only(w)
}

proof fn lemma_nth_warnings(f: FragV, kind: FnName, a: i32, b: i32, rest: Seq<SelTok>, next: int)
    ensures
        step_warns_lightly(spec_nth_step(f, kind, a, b, rest, next)),
    decreases rest, rest.len() + 3, 0int,
{
    if kind != FnName::NthOfType {
        if let Some(k) = of_at(rest) {
            if 0 <= k < rest.len() {
                lemma_selector_warnings(rest, k + 1);
            }
        }
    }
}

proof fn lemma_fn_warnings(ts: Seq<SelTok>, m: int, f: FragV, only_not: bool)
    ensures
        step_warns_lightly(spec_fn_step(ts, m, f, only_not)),
    decreases ts, 0int, 1int,
{
    if 0 <= m < ts.len() {
        if let SelTok::Function(name, body) = ts[m] {
            match spec_fn_name(name@) {
                Some(FnName::Not) => match body {
                    Some(FnBody::Tokens(cs)) => lemma_selector_warnings(cs@, 0),
                    _ => {},
                },
                Some(kind) => match body {
                    Some(FnBody::Nth(Some((a, b, rest)))) => lemma_nth_warnings(f, kind, a, b, rest@, m + 1),
                    _ => {},
                },
                None => {},
            }
        }
    }
}

proof fn lemma_colon_warnings(ts: Seq<SelTok>, j: int, c: int, f: FragV, prev: PrevSep)
    ensures
        step_warns_lightly(spec_colon(ts, j, c, f, prev)),
    decreases ts, c - j, 2int,
{
    if 0 <= j < c <= ts.len() && j + 1 < c {
        lemma_fn_warnings(ts, j + 1, f, false);
        lemma_fn_warnings(ts, j + 1, f, true);
    }
}

proof fn lemma_token_warnings(ts: Seq<SelTok>, j: int, c: int, f: FragV, prev: PrevSep)
    ensures
        step_warns_lightly(spec_token(ts, j, c, f, prev)),
    decreases ts, c - j, 3int,
{
    if 0 <= j < c <= ts.len() {
        lemma_colon_warnings(ts, j, c, f, prev);
    }
}

proof fn lemma_steps_warnings(ts: Seq<SelTok>, k: int, c: int, f: FragV, prev: PrevSep)
    ensures
        spec_steps(ts, k, c, f, prev).0 is Ok ==> pseudo_element_warnings_only(spec_steps(ts, k, c, f, prev).1),
    decreases ts, c - k, 4int,
{
    if 0 <= k <= c <= ts.len() && skip_ws(ts, k, c) < c && prev != PrevSep::End {
        let j = if prev == PrevSep::NoSep || prev == PrevSep::PseudoClassesNot {
            k
        } else {
            skip_ws(ts, k, c)
        };
        if k <= j < c {
            lemma_token_warnings(ts, j, c, f, prev);
            if let Step::Go(f2, p2, n, w) = spec_token(ts, j, c, f, prev) {
                if k < n <= c {
                    lemma_steps_warnings(ts, n, c, f2, p2);
                    let rest = spec_steps(ts, n, c, f2, p2);
                    if rest.0 is Ok {
                        lemma_warnings_concat(w, rest.1);
                    }
                }
            }
        }
    }
}

proof fn lemma_item_warnings(ts: Seq<SelTok>, s: int, c: int)
    ensures
        spec_item(ts, s, c).0 is Ok ==> pseudo_element_warnings_only(spec_item(ts, s, c).1),
    decreases ts, c - s, 5int,
{
    let k = skip_ws(ts, s, c);
    if 0 <= s <= k <= c <= ts.len() && k < c {
        lemma_steps_warnings(ts, k, c, empty_frag(), PrevSep::Init);
    }
}

proof fn lemma_items_warnings(ts: Seq<SelTok>, s: int, e: int)
    ensures
        spec_items(ts, s, e).0 is Ok ==> pseudo_element_warnings_only(spec_items(ts, s, e).1),
    decreases ts, e - s, 6int,
{
    let c = first_comma(ts, s, e);
    if 0 <= s <= c <= e <= ts.len() {
        lemma_item_warnings(ts, s, c);
        if c < e {
            lemma_items_warnings(ts, c + 1, e);
            let one = spec_item(ts, s, c);
            let rest = spec_items(ts, c + 1, e);
            if one.0 is Ok && rest.0 is Ok {
                lemma_warnings_concat(one.1, rest.1);
            }
        }
    }
}

proof fn lemma_selector_warnings(ts: Seq<SelTok>, i: int)
    ensures
        spec_selector(ts, i).0 is Ok ==> pseudo_element_warnings_only(spec_selector(ts, i).1),
    decreases ts, ts.len() + 1 - i, 7int,
{
    let e = first_curly(ts, i);
    if 0 <= i <= e <= ts.len() {
        lemma_items_warnings(ts, i, e);
    }
}

/// A selector list that is accepted warns of nothing but pseudo-elements
/// written with a single colon: every other construct that is not
/// supported makes the list fail.
pub proof fn law_accepted_selector_warnings(ts: Seq<SelTok>, i: int)
    ensures
        spec_selector(ts, i).0 is Ok ==> pseudo_element_warnings_only(spec_selector(ts, i).1),
{
    lemma_selector_warnings(ts, i);
}

/// A `cssparser` token, opaque to the proofs.
#[verifier::external_type_specification]
#[verifier::external_body]
pub struct ExToken<'a>(Token<'a>);

/// The token `t` as a selector token, one for one: names and strings are
/// copied, punctuation is kept by its text (`ToCss`), and a block comes
/// without its contents, which `next_sel_token` reads.
#[verifier::external_body]
fn bare_token(t: &Token<'_>) -> SelTok {
    match t {
        Token::Ident(s) => SelTok::Ident(s.to_string()),
        Token::IDHash(s) => SelTok::IdHash(s.to_string()),
        Token::Hash(_) => SelTok::Hash,
        Token::QuotedString(s) => SelTok::QuotedString(s.to_string()),
        Token::Function(s) => SelTok::Function(s.to_string(), None),
        Token::WhiteSpace(_) => SelTok::WhiteSpace,
        Token::SquareBracketBlock => SelTok::SquareBracket(None),
        Token::CurlyBracketBlock => SelTok::CurlyBracket,
        Token::Delim(_) | Token::Colon | Token::Comma | Token::CDO | Token::CDC | Token::IncludeMatch
        | Token::DashMatch | Token::PrefixMatch | Token::SuffixMatch | Token::SubstringMatch => SelTok::Punct(t.to_css_string()),
        _ => SelTok::Other,
    }
}

/// Takes the next token, white space included, comments skipped
/// (`Parser::next_including_whitespace`); a function comes with its
/// contents as `read_function_body` reads them, a `[...]` block with its
/// tokens (`Parser::parse_nested_block`), `None` for a block nested too
/// deeply. `None` stands for the end of the input or of the enclosing
/// block. Which token comes depends on the parser's position: what a whole
/// selector reads is named by `read_selector_input`.
#[verifier::external_body]
fn next_sel_token(parser: &mut Parser<'_>) -> Option<SelTok> {
    let t = parser.next_including_whitespace().ok()?.clone();
    Some(match &t {
        Token::Function(s) => {
            let name = s.to_string();
            let body = parser.parse_nested_block(|p| Ok::<_, cssparser::ParseError<()>>(read_function_body(p, &name)));
            SelTok::Function(name, body.ok())
        },
        Token::SquareBracketBlock => SelTok::SquareBracket(
            parser.parse_nested_block(|p| Ok::<_, cssparser::ParseError<()>>(read_block(p))).ok(),
        ),
        _ => bare_token(&t),
    })
}

/// Reads `an+b` (`cssparser::parse_nth`); `None` for its error. What it
/// reads depends on the parser's position, so nothing is stated here.
#[verifier::external_body]
fn parse_nth(parser: &mut Parser<'_>) -> Option<(i32, i32)> {
    cssparser::parse_nth(parser).ok()
}

/// Reads the tokens left in the parser, each block with its contents.
fn read_block(parser: &mut Parser<'_>) -> Vec<SelTok> {
    let mut ts: Vec<SelTok> = Vec::new();
    // A counter that bounds the loop: the parser never holds that many
    // tokens, and what it holds is not seen here.
    let mut left: usize = usize::MAX;
    while left > 0
        decreases left,
    {
        left = left - 1;
        match next_sel_token(parser) {
            Some(t) => ts.push(t),
            None => {
                left = 0;
            },
        }
    }
    ts
}

/// Reads the contents of the function `name`: for `nth-child` and
/// `nth-of-type` the `an+b` at the start and the tokens after it, for any
/// other function its tokens.
fn read_function_body(parser: &mut Parser<'_>, name: &String) -> (r: FnBody)
    ensures
        (spec_fn_name(name@) == Some(FnName::NthChild) || spec_fn_name(name@) == Some(FnName::NthOfType))
            <==> r is Nth,
{
    match fn_name(name) {
        Some(FnName::NthChild) | Some(FnName::NthOfType) => match parse_nth(parser) {
            Some((a, b)) => FnBody::Nth(Some((a, b, read_block(parser)))),
            None => FnBody::Nth(None),
        },
        _ => FnBody::Tokens(read_block(parser)),
    }
}

/// The tokens of a selector that `parser` holds from its position up to
/// the first `{` block at its level or its end, as `next_sel_token` hands
/// them out, each block with its contents.
pub uninterp spec fn selector_input(parser: Parser<'_>) -> Seq<SelTok>;

/// Reads the tokens of a selector: those up to the first `{` block at the
/// parser's level, or its end (`Parser::parse_until_before`, handing it
/// `read_block`, which reads to the end and so cannot fail).
///
/// Claims that they are the tokens that `selector_input` names, that the
/// parser then stands before that `{` block or at its end, and that it still
/// reads the same input.
#[verifier::external_body]
fn read_selector_input(parser: &mut Parser<'_>) -> (r: Vec<SelTok>)
    ensures
        r@ == selector_input(*old(parser)),
        first_token(parser_tokens(*final(parser))) is None || first_token(parser_tokens(*final(parser)))
            == Some(Tok::CurlyBracketBlock),
        same_input(*final(parser), *old(parser)),
{
    let r = parser.parse_until_before(Delimiter::CurlyBracketBlock, |p| Ok::<_, cssparser::ParseError<()>>(read_block(p)));
    r.unwrap_or_default()
}

/// Parses a selector list: the selectors separated by commas, up to the
/// first `{` block or the end of input, which the parser then stands
/// before; see `spec_selector`. The warnings given are added to
/// `warnings`.
pub fn parse_selector(parser: &mut Parser<'_>, warnings: &mut Vec<WarningKind>) -> (r: Result<Selector, ParseError>)
    ensures
        selector_result_view(r) == spec_selector(selector_input(*old(parser)), 0).0,
        final(warnings)@ == old(warnings)@ + spec_selector(selector_input(*old(parser)), 0).1,
        first_token(parser_tokens(*final(parser))) is None || first_token(parser_tokens(*final(parser)))
            == Some(Tok::CurlyBracketBlock),
        same_input(*final(parser), *old(parser)),
{
    let ts = read_selector_input(parser);
    let (r, w, _) = selector_from_tokens(&ts, 0);
    let mut w = w;
    warnings.append(&mut w);
    r
}

} // verus!
