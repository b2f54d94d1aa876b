# float_pigment

Verified building blocks of a CSS parser and of its binary style sheet
format, written in Verus.

- `bincode`: the segment-aware deserializer core of the binary format:
  byte sources (`SliceReader`, `IoReader`), limits, varint and literal
  integers, strings, chars and segment size limits.
- `css::path`, `css::parser`: resolution of relative `@import` paths,
  warning kinds and their codes, media types.
- `css::group`: the import index of style sheets, which hands out each
  style sheet's imports depth first, each only once.
- `css::var`, `css::var_laws`: substitution of `var()` references by custom
  property values, with cycle detection and fallbacks.
- `compat`: compatibility checks of published type layouts (enum variants
  and struct fields may only be added at the end).
- `css::selector`: the supported subset of CSS selectors (tags, ids,
  classes, attributes, combinators, a few pseudo-classes and
  pseudo-elements, `:not()`, `:nth-child()`, `:nth-of-type()`), with a
  warning for each construct that is not supported.
- `css::tokens`, `css::values`, `css::shorthand`: keyword values read from a
  `cssparser` token stream, and shorthand expansion.

`app/` holds what stays unverified: color parsing (its alpha channel is a
float) and the display of deserializer errors.
