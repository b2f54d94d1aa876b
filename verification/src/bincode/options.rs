//! Deserializer options: the byte limit, the byte order of literals, the
//! encoding of integers and what becomes of trailing bytes.

use vstd::prelude::*;

verus! {

/// A limit on the number of bytes that may be read.
#[derive(Debug, Clone, Copy, PartialEq, Eq, Structural)]
pub enum Limit {
    /// No limit.
    Infinite,
    /// At most this many more bytes.
    Bounded(u64),
}

/// The default configuration: no byte limit, little-endian literals and
/// variable-length integers.
#[derive(Debug, Clone, Copy, PartialEq, Eq, Structural)]
pub struct DefaultOptions {
    pub limit: Limit,
}

/// The byte order of fixed-width literals.
#[derive(Debug, Clone, Copy, PartialEq, Eq, Structural)]
pub enum Endian {
    Little,
    Big,
}

/// How integers are encoded.
#[derive(Debug, Clone, Copy, PartialEq, Eq, Structural)]
pub enum IntEncoding {
    /// Variable length: a value below 251 in one byte, else a marker byte
    /// and a little-endian literal.
    Varint,
    /// Fixed width, as a literal.
    Fixint,
}

/// What becomes of bytes left after a value has been read.
#[derive(Debug, Clone, Copy, PartialEq, Eq, Structural)]
pub enum Trailing {
    /// They are an error.
    Reject,
    /// They are ignored.
    Allow,
}

impl Limit {
    /// Whether `count` more bytes fit into the limit.
    pub open spec fn allows(self, count: int) -> bool {
        match self {
            Limit::Infinite => true,
            Limit::Bounded(n) => count <= n,
        }
    }

    /// The limit after `count` more bytes have been accounted for.
    pub open spec fn after(self, count: int) -> Limit {
        match self {
            Limit::Infinite => Limit::Infinite,
            Limit::Bounded(n) => Limit::Bounded((n - count) as u64),
        }
    }

    /// Accounts for `count` more bytes, or fails when they do not fit.
    pub fn add(&mut self, count: u64) -> (r: Result<(), ()>)
        ensures
            r is Ok <==> old(self).allows(count as int),
            r is Ok ==> *final(self) == old(self).after(count as int),
            r is Err ==> *final(self) == *old(self),
    {
        match self {
            Limit::Infinite => Ok(()),
            Limit::Bounded(n) => {
                if *n >= count {
                    *n = *n - count;
                    Ok(())
                } else {
                    Err(())
                }
            },
        }
    }
}

impl DefaultOptions {
    /// The byte order of literals: little-endian, as `le_value` reads them.
    pub open spec fn endian(self) -> Endian {
        Endian::Little
    }

    /// The integer encoding: variable length, as `varint_value` reads it.
    pub open spec fn int_encoding(self) -> IntEncoding {
        IntEncoding::Varint
    }

    /// Trailing bytes are rejected.
    pub open spec fn trailing(self) -> Trailing {
        Trailing::Reject
    }

    /// The default configuration, without a byte limit.
    pub fn new() -> (r: Self)
        ensures
            r.limit == Limit::Infinite,
    {
        DefaultOptions { limit: Limit::Infinite }
    }

    /// The same configuration with a byte limit.
    pub fn with_limit(self, limit: u64) -> (r: Self)
        ensures
            r.limit == Limit::Bounded(limit),
    {
        DefaultOptions { limit: Limit::Bounded(limit) }
    }

    /// The same configuration without a byte limit.
    pub fn with_no_limit(self) -> (r: Self)
        ensures
            r.limit == Limit::Infinite,
    {
        DefaultOptions { limit: Limit::Infinite }
    }
}

/// Get a default configuration object: no byte limit, little-endian
/// literals, variable-length integers, trailing bytes rejected.
pub fn options() -> (r: DefaultOptions)
    ensures
        r.limit == Limit::Infinite,
        r.endian() == Endian::Little,
        r.int_encoding() == IntEncoding::Varint,
        r.trailing() == Trailing::Reject,
{
    DefaultOptions::new()
}

} // verus!
