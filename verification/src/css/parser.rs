//! Parser warnings, import paths and media types.

use vstd::prelude::*;
use vstd::string::StringSliceAdditionalSpecFns;

use super::path::{resolve, spec_resolve};
use super::text::{str_chars, string_from_chars};
use super::tokens::{lowercase_of, to_lowercase};
use super::values::{media_type_keyword, spec_media_type, MediaType};

verus! {

/// The extension of style sheet sources that imports refer to.
pub const DEFAULT_INPUT_CSS_EXTENSION: &'static str = ".wxss";

/// The extension that imports are rewritten to.
pub const DEFAULT_OUTPUT_CSS_EXTENSION: &'static str = "";

/// Warning kind.
#[derive(Debug, Clone, Copy, PartialEq, Eq, Structural)]
pub enum WarningKind {
    Unknown,
    HooksGenerated,
    SerializationFailed,
    DeserializationFailed,
    UnsupportedSegment,
    UnknownAtBlock,
    InvalidMediaExpression,
    UnsupportedMediaSyntax,
    InvalidImportURL,
    MissingImportTarget,
    RecursiveImports,
    ImportNotOnTop,
    IllegalKeyframesBlock,
    IllegalKeyframesIdentifier,
    UnsupportedKeyframesSyntax,
    InvalidFontFaceProperty,
    InvalidSelector,
    UnsupportedSelector,
    InvalidPseudoElement,
    UnsupportedPseudoElement,
    InvalidPseudoClass,
    UnsupportedPseudoClass,
    InvalidProperty,
    UnsupportedProperty,
    MissingColonAfterProperty,
    InvalidEnvDefaultValue,
}

/// The error code of each warning kind: consecutive numbers from `0x10000`.
pub open spec fn spec_warning_code(kind: WarningKind) -> u32 {
    match kind {
        WarningKind::Unknown => 0x10000,
        WarningKind::HooksGenerated => 0x10001,
        WarningKind::SerializationFailed => 0x10002,
        WarningKind::DeserializationFailed => 0x10003,
        WarningKind::UnsupportedSegment => 0x10004,
        WarningKind::UnknownAtBlock => 0x10005,
        WarningKind::InvalidMediaExpression => 0x10006,
        WarningKind::UnsupportedMediaSyntax => 0x10007,
        WarningKind::InvalidImportURL => 0x10008,
        WarningKind::MissingImportTarget => 0x10009,
        WarningKind::RecursiveImports => 0x1000a,
        WarningKind::ImportNotOnTop => 0x1000b,
        WarningKind::IllegalKeyframesBlock => 0x1000c,
        WarningKind::IllegalKeyframesIdentifier => 0x1000d,
        WarningKind::UnsupportedKeyframesSyntax => 0x1000e,
        WarningKind::InvalidFontFaceProperty => 0x1000f,
        WarningKind::InvalidSelector => 0x10010,
        WarningKind::UnsupportedSelector => 0x10011,
        WarningKind::InvalidPseudoElement => 0x10012,
        WarningKind::UnsupportedPseudoElement => 0x10013,
        WarningKind::InvalidPseudoClass => 0x10014,
        WarningKind::UnsupportedPseudoClass => 0x10015,
        WarningKind::InvalidProperty => 0x10016,
        WarningKind::UnsupportedProperty => 0x10017,
        WarningKind::MissingColonAfterProperty => 0x10018,
        WarningKind::InvalidEnvDefaultValue => 0x10019,
    }
}

/// The brief message of each warning kind.
pub open spec fn spec_warning_message(kind: WarningKind) -> Seq<char> {
    match kind {
        WarningKind::Unknown => "unknown error"@,
        WarningKind::HooksGenerated => "warning from hooks"@,
        WarningKind::SerializationFailed => "failed during serialization"@,
        WarningKind::DeserializationFailed => "failed during deserialization"@,
        WarningKind::UnsupportedSegment => "unsupported segment"@,
        WarningKind::UnknownAtBlock => "unknown at-block"@,
        WarningKind::InvalidMediaExpression => "invalid media expression"@,
        WarningKind::UnsupportedMediaSyntax => "unsupported media syntax"@,
        WarningKind::InvalidImportURL => "invalid @import URL"@,
        WarningKind::MissingImportTarget => "@import source not found"@,
        WarningKind::RecursiveImports => "recursive @import"@,
        WarningKind::ImportNotOnTop => "@import should appear before any other code blocks"@,
        WarningKind::IllegalKeyframesBlock => "illegal keyframes block"@,
        WarningKind::IllegalKeyframesIdentifier => "illegal keyframes identifier"@,
        WarningKind::UnsupportedKeyframesSyntax => "unsupported keyframes syntax"@,
        WarningKind::InvalidFontFaceProperty => "invalid property inside @font-face"@,
        WarningKind::InvalidSelector => "invalid selector"@,
        WarningKind::UnsupportedSelector => "unsupported selector"@,
        WarningKind::InvalidPseudoElement => "invalid pseudo element"@,
        WarningKind::UnsupportedPseudoElement => "unsupported pseudo element"@,
        WarningKind::InvalidPseudoClass => "invalid pseudo class"@,
        WarningKind::UnsupportedPseudoClass => "unsupported pseudo class"@,
        WarningKind::InvalidProperty => "invalid property"@,
        WarningKind::UnsupportedProperty => "unsupported property"@,
        WarningKind::MissingColonAfterProperty => "missing colon after property"@,
        WarningKind::InvalidEnvDefaultValue => "the default value of `env()` is invalid"@,
    }
}

impl WarningKind {
    /// Get the error code.
    pub fn code(&self) -> (r: u32)
        ensures
            r == spec_warning_code(*self),
    {
        match self {
            WarningKind::Unknown => 0x10000,
            WarningKind::HooksGenerated => 0x10001,
            WarningKind::SerializationFailed => 0x10002,
            WarningKind::DeserializationFailed => 0x10003,
            WarningKind::UnsupportedSegment => 0x10004,
            WarningKind::UnknownAtBlock => 0x10005,
            WarningKind::InvalidMediaExpression => 0x10006,
            WarningKind::UnsupportedMediaSyntax => 0x10007,
            WarningKind::InvalidImportURL => 0x10008,
            WarningKind::MissingImportTarget => 0x10009,
            WarningKind::RecursiveImports => 0x1000a,
            WarningKind::ImportNotOnTop => 0x1000b,
            WarningKind::IllegalKeyframesBlock => 0x1000c,
            WarningKind::IllegalKeyframesIdentifier => 0x1000d,
            WarningKind::UnsupportedKeyframesSyntax => 0x1000e,
            WarningKind::InvalidFontFaceProperty => 0x1000f,
            WarningKind::InvalidSelector => 0x10010,
            WarningKind::UnsupportedSelector => 0x10011,
            WarningKind::InvalidPseudoElement => 0x10012,
            WarningKind::UnsupportedPseudoElement => 0x10013,
            WarningKind::InvalidPseudoClass => 0x10014,
            WarningKind::UnsupportedPseudoClass => 0x10015,
            WarningKind::InvalidProperty => 0x10016,
            WarningKind::UnsupportedProperty => 0x10017,
            WarningKind::MissingColonAfterProperty => 0x10018,
            WarningKind::InvalidEnvDefaultValue => 0x10019,
        }
    }

    /// Get a brief message of the error.
    pub fn static_message(&self) -> (r: &'static str)
        ensures
            r@ == spec_warning_message(*self),
    {
        match self {
            WarningKind::Unknown => "unknown error",
            WarningKind::HooksGenerated => "warning from hooks",
            WarningKind::SerializationFailed => "failed during serialization",
            WarningKind::DeserializationFailed => "failed during deserialization",
            WarningKind::UnsupportedSegment => "unsupported segment",
            WarningKind::UnknownAtBlock => "unknown at-block",
            WarningKind::InvalidMediaExpression => "invalid media expression",
            WarningKind::UnsupportedMediaSyntax => "unsupported media syntax",
            WarningKind::InvalidImportURL => "invalid @import URL",
            WarningKind::MissingImportTarget => "@import source not found",
            WarningKind::RecursiveImports => "recursive @import",
            WarningKind::ImportNotOnTop => "@import should appear before any other code blocks",
            WarningKind::IllegalKeyframesBlock => "illegal keyframes block",
            WarningKind::IllegalKeyframesIdentifier => "illegal keyframes identifier",
            WarningKind::UnsupportedKeyframesSyntax => "unsupported keyframes syntax",
            WarningKind::InvalidFontFaceProperty => "invalid property inside @font-face",
            WarningKind::InvalidSelector => "invalid selector",
            WarningKind::UnsupportedSelector => "unsupported selector",
            WarningKind::InvalidPseudoElement => "invalid pseudo element",
            WarningKind::UnsupportedPseudoElement => "unsupported pseudo element",
            WarningKind::InvalidPseudoClass => "invalid pseudo class",
            WarningKind::UnsupportedPseudoClass => "unsupported pseudo class",
            WarningKind::InvalidProperty => "invalid property",
            WarningKind::UnsupportedProperty => "unsupported property",
            WarningKind::MissingColonAfterProperty => "missing colon after property",
            WarningKind::InvalidEnvDefaultValue => "the default value of `env()` is invalid",
        }
    }
}

/// Distinct warning kinds have distinct error codes, all from `0x10000` on.
pub proof fn law_warning_codes_distinct(a: WarningKind, b: WarningKind)
    ensures
        spec_warning_code(a) >= 0x10000,
        a != b ==> spec_warning_code(a) != spec_warning_code(b),
{
}

/// The error codes follow the order of the warning kinds: `Unknown` is
/// `0x10000` and each later kind has the next code.
pub proof fn law_warning_code_order()
    ensures
        spec_warning_code(WarningKind::Unknown) == 0x10000,
        spec_warning_code(WarningKind::HooksGenerated) == 0x10001,
        spec_warning_code(WarningKind::SerializationFailed) == 0x10002,
        spec_warning_code(WarningKind::DeserializationFailed) == 0x10003,
        spec_warning_code(WarningKind::UnsupportedSegment) == 0x10004,
        spec_warning_code(WarningKind::UnknownAtBlock) == 0x10005,
        spec_warning_code(WarningKind::InvalidMediaExpression) == 0x10006,
        spec_warning_code(WarningKind::UnsupportedMediaSyntax) == 0x10007,
        spec_warning_code(WarningKind::InvalidImportURL) == 0x10008,
        spec_warning_code(WarningKind::MissingImportTarget) == 0x10009,
        spec_warning_code(WarningKind::RecursiveImports) == 0x1000a,
        spec_warning_code(WarningKind::ImportNotOnTop) == 0x1000b,
        spec_warning_code(WarningKind::IllegalKeyframesBlock) == 0x1000c,
        spec_warning_code(WarningKind::IllegalKeyframesIdentifier) == 0x1000d,
        spec_warning_code(WarningKind::UnsupportedKeyframesSyntax) == 0x1000e,
        spec_warning_code(WarningKind::InvalidFontFaceProperty) == 0x1000f,
        spec_warning_code(WarningKind::InvalidSelector) == 0x10010,
        spec_warning_code(WarningKind::UnsupportedSelector) == 0x10011,
        spec_warning_code(WarningKind::InvalidPseudoElement) == 0x10012,
        spec_warning_code(WarningKind::UnsupportedPseudoElement) == 0x10013,
        spec_warning_code(WarningKind::InvalidPseudoClass) == 0x10014,
        spec_warning_code(WarningKind::UnsupportedPseudoClass) == 0x10015,
        spec_warning_code(WarningKind::InvalidProperty) == 0x10016,
        spec_warning_code(WarningKind::UnsupportedProperty) == 0x10017,
        spec_warning_code(WarningKind::MissingColonAfterProperty) == 0x10018,
        spec_warning_code(WarningKind::InvalidEnvDefaultValue) == 0x10019,
{
}

/// The debug mode used in style parsing.
#[derive(Debug, Clone, Copy, PartialEq, Eq, Structural)]
pub enum StyleParsingDebugMode {
    /// Disable debug mode (best performance).
    NoDebug,
    /// Enable debug mode.
    Debug,
    /// Enable debug mode and mark all parsed properties disabled.
    DebugAndDisabled,
}


/// Whether `c` may appear in a URL scheme after its first letter.
pub open spec fn is_scheme_char(c: u8) -> bool {
    ||| c == 0x2D
    ||| c == 0x2B
    ||| c == 0x2E
    ||| (0x61 <= c <= 0x7A)
    ||| (0x41 <= c <= 0x5A)
    ||| (0x30 <= c <= 0x39)
}

/// Whether `c` is an ASCII letter.
pub open spec fn is_ascii_letter(c: u8) -> bool {
    (0x61 <= c <= 0x7A) || (0x41 <= c <= 0x5A)
}

/// Whether the bytes of a path start with `//` or with a URL scheme: an
/// ASCII letter, scheme chars (`-`, `+`, `.`, letters, digits), then `:`.
pub open spec fn spec_is_url(b: Seq<u8>) -> bool {
    ||| (b.len() >= 2 && b[0] == 0x2F && b[1] == 0x2F)
    ||| (b.len() >= 1 && is_ascii_letter(b[0]) && exists|k: int|
        1 <= k < b.len() && b[k] == 0x3A && forall|j: int| 1 <= j < k ==> is_scheme_char(b[j]))
}

/// Whether `path` is a URL rather than a file path.
pub fn is_url(path: &str) -> (r: bool)
    ensures
        r == spec_is_url(path.spec_bytes()),
{
    let b = path.as_bytes();
    if b.len() >= 2 && b[0] == 0x2F && b[1] == 0x2F {
        return true;
    }
    if b.len() == 0 {
        return false;
    }
    let c = b[0];
    if !((0x61 <= c && c <= 0x7A) || (0x41 <= c && c <= 0x5A)) {
        return false;
    }
    let mut i: usize = 1;
    while i < b.len()
        invariant
            1 <= i <= b@.len(),
            b@ == path.spec_bytes(),
            is_ascii_letter(b@[0]),
            !(b@.len() >= 2 && b@[0] == 0x2F && b@[1] == 0x2F),
            forall|j: int| 1 <= j < i ==> is_scheme_char(b@[j]),
        decreases b@.len() - i,
    {
        let d = b[i];
        if d == 0x3A {
            assert(b@[i as int] == 0x3A);
            return true;
        }
        if !(d == 0x2D || d == 0x2B || d == 0x2E || (0x61 <= d && d <= 0x7A) || (0x41 <= d && d
            <= 0x5A) || (0x30 <= d && d <= 0x39)) {
            assert forall|k: int|
                1 <= k < b@.len() && b@[k] == 0x3A implies !(forall|j: int|
                1 <= j < k ==> is_scheme_char(b@[j])) by {
                if k > i {
                    assert(!is_scheme_char(b@[i as int]));
                }
            }
            return false;
        }
        i = i + 1;
    }
    assert forall|k: int|
        1 <= k < b@.len() && b@[k] == 0x3A implies !(forall|j: int|
        1 <= j < k ==> is_scheme_char(b@[j])) by {
        assert(is_scheme_char(b@[k]));
    }
    false
}

/// Whether `a` ends with `x`.
pub open spec fn has_suffix(a: Seq<char>, x: Seq<char>) -> bool {
    x.len() <= a.len() && a.subrange(a.len() - x.len(), a.len() as int) == x
}

/// Whether `a` ends with `x`.
pub fn ends_with(a: &[char], x: &[char]) -> (r: bool)
    ensures
        r == has_suffix(a@, x@),
{
    if x.len() > a.len() {
        return false;
    }
    let off = a.len() - x.len();
    let mut i: usize = 0;
    while i < x.len()
        invariant
            off == a@.len() - x@.len(),
            x@.len() <= a@.len(),
            off + x@.len() == a@.len(),
            a@.len() <= usize::MAX,
            i <= x@.len(),
            forall|j: int| 0 <= j < i ==> a@[off + j] == x@[j],
        decreases x@.len() - i,
    {
        if a[off + i] != x[i] {
            assert(a@.subrange(off as int, a@.len() as int)[i as int] != x@[i as int]);
            return false;
        }
        i = i + 1;
    }
    assert(a@.subrange(off as int, a@.len() as int) =~= x@);
    true
}

/// The import path of `rel` from the file `base`, with the input extension
/// replaced by the output extension.
///
/// When both extensions are empty the resolved path is kept. A resolved path
/// that ends with `input_extension` gets it replaced by `output_extension`;
/// otherwise `output_extension` is appended unless the path already ends with
/// it.
pub open spec fn spec_resolve_relative_path(
    base: Seq<char>,
    rel: Seq<char>,
    input_extension: Seq<char>,
    output_extension: Seq<char>,
) -> Seq<char> {
    let abs = spec_resolve(base, rel);
    if input_extension.len() == 0 && output_extension.len() == 0 {
        abs
    } else if has_suffix(abs, input_extension) {
        abs.subrange(0, abs.len() - input_extension.len()) + output_extension
    } else if has_suffix(abs, output_extension) {
        abs
    } else {
        abs + output_extension
    }
}

/// Resolves an import path; see [`spec_resolve_relative_path`].
pub fn resolve_relative_path(
    base: &str,
    rel: &str,
    input_extension: &str,
    output_extension: &str,
) -> (r: String)
    requires
        base@.len() + rel@.len() <= usize::MAX,
    ensures
        r@ == spec_resolve_relative_path(base@, rel@, input_extension@, output_extension@),
{
    let absolute_path = resolve(base, rel);
    let inp = str_chars(input_extension);
    let out = str_chars(output_extension);
    if inp.len() == 0 && out.len() == 0 {
        return absolute_path;
    }
    let abs = str_chars(absolute_path.as_str());
    if ends_with(abs.as_slice(), inp.as_slice()) {
        let mut v: Vec<char> = Vec::new();
        let keep = abs.len() - inp.len();
        let mut i: usize = 0;
        while i < keep
            invariant
                keep <= abs@.len(),
                i <= keep,
                v@ == abs@.take(i as int),
            decreases keep - i,
        {
            v.push(abs[i]);
            i = i + 1;
            assert(v@ =~= abs@.take(i as int));
        }
        let mut j: usize = 0;
        while j < out.len()
            invariant
                j <= out@.len(),
                v@ == abs@.take(keep as int) + out@.take(j as int),
            decreases out@.len() - j,
        {
            v.push(out[j]);
            j = j + 1;
            assert(v@ =~= abs@.take(keep as int) + out@.take(j as int));
        }
        assert(out@.take(out@.len() as int) =~= out@);
        assert(abs@.take(keep as int) =~= abs@.subrange(0, keep as int));
        return string_from_chars(v.as_slice());
    }
    if ends_with(abs.as_slice(), out.as_slice()) {
        return absolute_path;
    }
    let mut v = abs;
    let ghost a = v@;
    let mut j: usize = 0;
    while j < out.len()
        invariant
            j <= out@.len(),
            v@ == a + out@.take(j as int),
        decreases out@.len() - j,
    {
        v.push(out[j]);
        j = j + 1;
        assert(v@ =~= a + out@.take(j as int));
    }
    assert(out@.take(out@.len() as int) =~= out@);
    string_from_chars(v.as_slice())
}


/// The media type named by `s`, ignoring case: `all` or `screen`.
pub fn str_to_media_type(s: &str) -> (r: Option<MediaType>)
    ensures
        r == spec_media_type(lowercase_of(s@)),
{
    let lower = to_lowercase(s);
    let name = str_chars(lower.as_str());
    media_type_keyword(name.as_slice())
}

} // verus!
