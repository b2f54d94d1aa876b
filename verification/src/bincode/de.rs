//! The deserializer core: literals, variable-length integers, segments,
//! byte buffers, strings and chars.

use byteorder::ByteOrder;
use vstd::prelude::*;
use vstd::utf8::{
    char_is_scalar, char_u32_cast, decode_utf8, encode_scalar, encode_utf8, encode_utf8_decode_utf8,
    encode_utf8_valid_utf8, valid_utf8,
};

use super::error::{ErrorKind, IoError};
use super::options::{DefaultOptions, Limit};
use super::read::{BincodeRead, IoReader, Read, SliceReader};

verus! {

/// The little-endian value of `bytes`.
pub open spec fn le_value(bytes: Seq<u8>) -> int
    decreases bytes.len(),
{
    if bytes.len() == 0 {
        0
    } else {
        bytes[0] + 256 * le_value(bytes.drop_first())
    }
}

/// Reads a little-endian `u16` from the first two bytes of `buf`.
///
/// Calls `byteorder::LittleEndian::read_u16`, which panics on a shorter
/// buffer; the contract states the little-endian value of the two bytes.
#[verifier::external_body]
fn read_le_u16(buf: &[u8]) -> (r: u16)
    requires
        buf@.len() >= 2,
    ensures
        r == le_value(buf@.take(2)),
{
    byteorder::LittleEndian::read_u16(buf)
}

/// Reads a little-endian `u32` from the first four bytes of `buf`.
///
/// Calls `byteorder::LittleEndian::read_u32`, which panics on a shorter
/// buffer; the contract states the little-endian value of the four bytes.
#[verifier::external_body]
fn read_le_u32(buf: &[u8]) -> (r: u32)
    requires
        buf@.len() >= 4,
    ensures
        r == le_value(buf@.take(4)),
{
    byteorder::LittleEndian::read_u32(buf)
}

/// Reads a little-endian `u64` from the first eight bytes of `buf`.
///
/// Calls `byteorder::LittleEndian::read_u64`, which panics on a shorter
/// buffer; the contract states the little-endian value of the eight bytes.
#[verifier::external_body]
fn read_le_u64(buf: &[u8]) -> (r: u64)
    requires
        buf@.len() >= 8,
    ensures
        r == le_value(buf@.take(8)),
{
    byteorder::LittleEndian::read_u64(buf)
}

/// Checks that `bytes` are UTF-8 and borrows them as a string.
///
/// Calls `core::str::from_utf8`, which succeeds exactly on valid UTF-8 and
/// then views the same bytes as the decoded characters.
#[verifier::external_body]
fn str_from_utf8(bytes: &[u8]) -> (r: Result<&str, core::str::Utf8Error>)
    ensures
        r is Ok <==> valid_utf8(bytes@),
        r matches Ok(s) ==> s@ == decode_utf8(bytes@),
{
    core::str::from_utf8(bytes)
}

/// The number of extra bytes that follow the first byte of a
/// variable-length integer, or `-1` for a first byte that is not allowed.
///
/// Values up to 250 are stored in the first byte itself; 251, 252 and 253
/// announce a little-endian `u16`, `u32` and `u64`.
pub open spec fn varint_extra(first: u8) -> int {
    if first <= 250 {
        0
    } else if first == 251 {
        2
    } else if first == 252 {
        4
    } else if first == 253 {
        8
    } else {
        -1
    }
}

/// The value of the variable-length integer at the start of `data`.
pub open spec fn varint_value(data: Seq<u8>) -> int {
    if varint_extra(data[0]) == 0 {
        data[0] as int
    } else {
        le_value(data.subrange(1, 1 + varint_extra(data[0])))
    }
}

/// The number of bytes in a UTF-8 sequence that starts with `b`, or 0 when
/// `b` cannot start one.
pub open spec fn spec_char_width(b: u8) -> nat {
    if b < 0x80 {
        1
    } else if 0xC2 <= b <= 0xDF {
        2
    } else if 0xE0 <= b <= 0xEF {
        3
    } else if 0xF0 <= b <= 0xF4 {
        4
    } else {
        0
    }
}

/// The char at the start of `bytes` and its width in bytes, when `bytes`
/// start with a complete, valid UTF-8 sequence.
pub open spec fn decode_char_prefix(bytes: Seq<u8>) -> Option<(char, nat)> {
    if bytes.len() == 0 {
        None
    } else {
        let w = spec_char_width(bytes[0]);
        if w == 1 {
            Some((bytes[0] as char, 1))
        } else if w == 0 || bytes.len() < w || !valid_utf8(bytes.take(w as int)) {
            None
        } else {
            Some((decode_utf8(bytes.take(w as int))[0], w))
        }
    }
}

/// The length of the UTF-8 sequence that starts with byte `b`, or 0 when no
/// sequence starts with it.
pub fn utf8_char_width(b: u8) -> (w: usize)
    ensures
        w == spec_char_width(b),
{
    if b < 0x80 {
        1
    } else if b < 0xC2 {
        0
    } else if b <= 0xDF {
        2
    } else if b <= 0xEF {
        3
    } else if b <= 0xF4 {
        4
    } else {
        0
    }
}

/// How a segment restores its parent's barrier when it ends: the bytes left
/// in the parent after the segment, or no barrier for a top-level segment.
#[derive(Debug, Clone, Copy)]
pub struct SegmentSizeLimit {
    pub diff: Option<usize>,
}

/// A deserializer that reads values from a `BincodeRead` byte source.
pub struct Deserializer<R> {
    reader: R,
    options: DefaultOptions,
    segment_size_limits: Vec<SegmentSizeLimit>,
}

impl<IR: Read> Deserializer<IoReader<IR>> {
    /// Creates a new deserializer over a plain `Read` source.
    pub fn with_reader(r: IR, options: DefaultOptions) -> (d: Self)
        ensures
            d.data() == r.pending(),
            d.barrier() == usize::MAX,
            d.limit() == options.limit,
            d.segments().len() == 0,
    {
        Deserializer { reader: IoReader::new(r), options, segment_size_limits: Vec::new() }
    }
}

impl<'de> Deserializer<SliceReader<'de>> {
    /// Creates a new deserializer that reads from the given slice.
    pub fn from_slice(slice: &'de [u8], options: DefaultOptions) -> (d: Self)
        ensures
            d.data() == slice@,
            d.barrier() == usize::MAX,
            d.limit() == options.limit,
            d.segments().len() == 0,
    {
        Deserializer { reader: SliceReader::new(slice), options, segment_size_limits: Vec::new() }
    }

    /// Whether all bytes of the slice have been read.
    pub fn is_finished(&self) -> (r: bool)
        ensures
            r == (self.data().len() == 0),
    {
        self.reader.is_finished()
    }
}

impl<R: BincodeRead> Deserializer<R> {
    /// The bytes not read yet.
    pub closed spec fn data(&self) -> Seq<u8> {
        self.reader.pending()
    }

    /// The barrier of the current segment.
    pub closed spec fn barrier(&self) -> usize {
        self.reader.barrier_offset()
    }

    /// The remaining byte limit.
    pub closed spec fn limit(&self) -> Limit {
        self.options.limit
    }

    /// The open segments, innermost last: for each, the parent barrier to
    /// restore when it ends.
    pub closed spec fn segments(&self) -> Seq<Option<usize>> {
        self.segment_size_limits@.map_values(|s: SegmentSizeLimit| s.diff)
    }

    /// Whether `n` more bytes can be read: the limit, the barrier and the
    /// data all allow it.
    pub open spec fn can_take(&self, n: int) -> bool {
        &&& self.limit().allows(n)
        &&& self.barrier() >= n
        &&& self.data().len() >= n
    }

    /// The error reported when `n` bytes cannot be taken.
    pub open spec fn take_error(&self, n: int) -> ErrorKind {
        if !self.limit().allows(n) {
            ErrorKind::SizeLimit
        } else {
            ErrorKind::SegmentEnded
        }
    }

    /// `next` is `self` after `n` bytes were taken.
    pub open spec fn advanced_to(&self, next: &Self, n: int) -> bool {
        &&& next.data() == self.data().skip(n)
        &&& next.barrier() == self.barrier() - n
        &&& next.limit() == self.limit().after(n)
        &&& next.segments() == self.segments()
    }

    /// The number of bytes of the variable-length integer at the front.
    pub open spec fn varint_len(&self) -> int {
        1 + varint_extra(self.data()[0])
    }

    /// Whether the variable-length integer at the front can be read.
    pub open spec fn varint_ok(&self) -> bool {
        &&& self.can_take(1)
        &&& varint_extra(self.data()[0]) >= 0
        &&& self.can_take(self.varint_len())
    }

    /// Creates a new deserializer over the given byte source.
    pub fn with_bincode_read(r: R, options: DefaultOptions) -> (d: Self)
        ensures
            d.data() == r.pending(),
            d.barrier() == r.barrier_offset(),
            d.limit() == options.limit,
            d.segments().len() == 0,
    {
        Deserializer { reader: r, options, segment_size_limits: Vec::new() }
    }

    /// The underlying byte source.
    pub fn reader(&self) -> (r: &R)
        ensures
            r.pending() == self.data(),
            r.barrier_offset() == self.barrier(),
    {
        &self.reader
    }

    /// Accounts for `count` bytes in the byte limit.
    fn read_bytes(&mut self, count: u64) -> (r: Result<(), ErrorKind>)
        ensures
            r is Ok <==> old(self).limit().allows(count as int),
            r is Ok ==> final(self).limit() == old(self).limit().after(count as int),
            r is Err ==> (r matches Err(e) && e is SizeLimit) && final(self).limit() == old(self).limit(),
            final(self).data() == old(self).data(),
            final(self).barrier() == old(self).barrier(),
            final(self).segments() == old(self).segments(),
    {
        match self.options.limit.add(count) {
            Ok(()) => Ok(()),
            Err(()) => Err(ErrorKind::SizeLimit),
        }
    }

    /// Takes `n` bytes: accounts for them in the limit, then reads them.
    fn take_exact(&mut self, n: usize) -> (r: Result<Vec<u8>, ErrorKind>)
        ensures
            r is Ok <==> old(self).can_take(n as int),
            r matches Ok(v) ==> v@ == old(self).data().take(n as int) && old(self).advanced_to(
                final(self),
                n as int,
            ),
            r matches Err(e) ==> e == old(self).take_error(n as int),
    {
        let r = self.read_bytes(n as u64);
        if r.is_err() {
            return Err(ErrorKind::SizeLimit);
        }
        let mut buf: Vec<u8> = vec![0u8; n];
        match self.reader.read_exact(&mut buf) {
            Ok(()) => Ok(buf),
            Err(e) => Err(ErrorKind::from_io(e)),
        }
    }

    /// Reads one byte.
    pub fn deserialize_byte(&mut self) -> (r: Result<u8, ErrorKind>)
        ensures
            r is Ok <==> old(self).can_take(1),
            r matches Ok(b) ==> b == old(self).data()[0] && old(self).advanced_to(final(self), 1),
            r matches Err(e) ==> e == old(self).take_error(1),
    {
        let buf = self.take_exact(1)?;
        Ok(buf[0])
    }

    /// Reads a little-endian `u16`.
    pub fn deserialize_literal_u16(&mut self) -> (r: Result<u16, ErrorKind>)
        ensures
            r is Ok <==> old(self).can_take(2),
            r matches Ok(v) ==> v == le_value(old(self).data().take(2)) && old(self).advanced_to(
                final(self),
                2,
            ),
            r matches Err(e) ==> e == old(self).take_error(2),
    {
        let buf = self.take_exact(2)?;
        assert(buf@.take(2) =~= buf@);
        Ok(read_le_u16(buf.as_slice()))
    }

    /// Reads a little-endian `u32`.
    pub fn deserialize_literal_u32(&mut self) -> (r: Result<u32, ErrorKind>)
        ensures
            r is Ok <==> old(self).can_take(4),
            r matches Ok(v) ==> v == le_value(old(self).data().take(4)) && old(self).advanced_to(
                final(self),
                4,
            ),
            r matches Err(e) ==> e == old(self).take_error(4),
    {
        let buf = self.take_exact(4)?;
        assert(buf@.take(4) =~= buf@);
        Ok(read_le_u32(buf.as_slice()))
    }

    /// Reads a little-endian `u64`.
    pub fn deserialize_literal_u64(&mut self) -> (r: Result<u64, ErrorKind>)
        ensures
            r is Ok <==> old(self).can_take(8),
            r matches Ok(v) ==> v == le_value(old(self).data().take(8)) && old(self).advanced_to(
                final(self),
                8,
            ),
            r matches Err(e) ==> e == old(self).take_error(8),
    {
        let buf = self.take_exact(8)?;
        assert(buf@.take(8) =~= buf@);
        Ok(read_le_u64(buf.as_slice()))
    }
}


impl<R: BincodeRead> Deserializer<R> {
    /// Whether `e` is the error that reading the variable-length integer at
    /// the front reports.
    pub open spec fn varint_error(&self, e: ErrorKind) -> bool {
        if !self.can_take(1) {
            e == self.take_error(1)
        } else if varint_extra(self.data()[0]) < 0 {
            e is Custom
        } else {
            e == self.take_error(self.varint_len())
        }
    }

    proof fn lemma_step(&self, mid: &Self, last: &Self, n: int, m: int)
        requires
            n >= 0,
            m >= 0,
            self.can_take(n),
            mid.can_take(m),
            self.advanced_to(mid, n),
            mid.advanced_to(last, m),
        ensures
            self.advanced_to(last, n + m),
    {
        assert(self.data().skip(n).skip(m) =~= self.data().skip(n + m));
    }

    /// Reads a variable-length unsigned integer: a first byte up to 250 is
    /// the value itself; 251, 252 and 253 announce a little-endian `u16`,
    /// `u32` and `u64`; 254 and 255 are refused.
    pub fn deserialize_varint(&mut self) -> (r: Result<u64, ErrorKind>)
        ensures
            r is Ok <==> old(self).varint_ok(),
            r matches Ok(v) ==> v == varint_value(old(self).data()) && old(self).advanced_to(
                final(self),
                old(self).varint_len(),
            ),
            r matches Err(e) ==> old(self).varint_error(e),
    {
        let ghost start = *self;
        let first = self.deserialize_byte()?;
        let ghost mid = *self;
        proof {
            assert(mid.data() == start.data().skip(1));
        }
        if first <= 250 {
            Ok(first as u64)
        } else if first == 251 {
            let v = self.deserialize_literal_u16()?;
            proof {
                start.lemma_step(&mid, self, 1, 2);
                assert(mid.data().take(2) =~= start.data().subrange(1, 3));
            }
            Ok(v as u64)
        } else if first == 252 {
            let v = self.deserialize_literal_u32()?;
            proof {
                start.lemma_step(&mid, self, 1, 4);
                assert(mid.data().take(4) =~= start.data().subrange(1, 5));
            }
            Ok(v as u64)
        } else if first == 253 {
            let v = self.deserialize_literal_u64()?;
            proof {
                start.lemma_step(&mid, self, 1, 8);
                assert(mid.data().take(8) =~= start.data().subrange(1, 9));
            }
            Ok(v)
        } else {
            Err(ErrorKind::Custom("invalid value (u128 range): you may have a version disagreement?".to_string()))
        }
    }

    /// Reads a variable-length integer that must fit in a `u32`.
    pub fn deserialize_u32(&mut self) -> (r: Result<u32, ErrorKind>)
        ensures
            r is Ok <==> old(self).varint_ok() && varint_value(old(self).data()) <= u32::MAX,
            r matches Ok(v) ==> v == varint_value(old(self).data()) && old(self).advanced_to(
                final(self),
                old(self).varint_len(),
            ),
            r matches Err(e) ==> (old(self).varint_ok() ==> e is Custom) && (!old(self).varint_ok()
                ==> old(self).varint_error(e)),
    {
        let v = self.deserialize_varint()?;
        if v > u32::MAX as u64 {
            return Err(ErrorKind::Custom("invalid size: sizes must fit in a u32".to_string()));
        }
        Ok(v as u32)
    }

    /// Reads a variable-length length prefix that must fit in a `usize`.
    pub fn deserialize_len(&mut self) -> (r: Result<usize, ErrorKind>)
        ensures
            r is Ok <==> old(self).varint_ok() && varint_value(old(self).data()) <= usize::MAX,
            r matches Ok(v) ==> v == varint_value(old(self).data()) && old(self).advanced_to(
                final(self),
                old(self).varint_len(),
            ),
            r matches Err(e) ==> (old(self).varint_ok() ==> e is Custom) && (!old(self).varint_ok()
                ==> old(self).varint_error(e)),
    {
        let v = self.deserialize_varint()?;
        if v > usize::MAX as u64 {
            return Err(ErrorKind::Custom("invalid size: sizes must fit in a usize".to_string()));
        }
        Ok(v as usize)
    }
}


/// Whether `name` is the placeholder variant name `_`.
fn is_placeholder(name: &str) -> (r: bool)
    ensures
        r == (name@ =~= seq!['_']),
{
    name.unicode_len() == 1 && name.get_char(0) == '_'
}

/// The variant that an enum tag `idx` selects among `variants`: a tag of a
/// placeholder variant `_` falls back to variant 0; a tag out of range
/// selects none (`None`).
pub open spec fn spec_select_variant(idx: u32, variants: Seq<Seq<char>>) -> Option<u32> {
    if idx >= variants.len() {
        None
    } else if variants[idx as int] =~= seq!['_'] {
        Some(0)
    } else {
        Some(idx)
    }
}

/// Selects the variant for the enum tag `idx`; a tag out of range is an
/// `InvalidTagEncoding` error that carries the tag.
pub fn select_variant(idx: u32, variants: &[&str]) -> (r: Result<u32, ErrorKind>)
    ensures
        match spec_select_variant(idx, variants@.map_values(|v: &str| v@)) {
            Some(v) => r == Ok::<u32, ErrorKind>(v),
            None => r matches Err(ErrorKind::InvalidTagEncoding(t)) && t == idx,
        },
{
    let ghost names = variants@.map_values(|v: &str| v@);
    if idx as usize >= variants.len() {
        Err(ErrorKind::InvalidTagEncoding(idx as usize))
    } else if is_placeholder(variants[idx as usize]) {
        assert(names[idx as int] == variants@[idx as int]@);
        Ok(0)
    } else {
        assert(names[idx as int] == variants@[idx as int]@);
        Ok(idx)
    }
}

/// The outcome of reading one element of a sequence or struct: the end of
/// the current segment ends the sequence early, any other error is passed on.
pub fn element_or_end<T>(r: Result<T, ErrorKind>) -> (o: Result<Option<T>, ErrorKind>)
    ensures
        r matches Ok(v) ==> o == Ok::<Option<T>, ErrorKind>(Some(v)),
        r matches Err(e) ==> (e is SegmentEnded ==> o == Ok::<Option<T>, ErrorKind>(None)) && (
        !(e is SegmentEnded) ==> o == Err::<Option<T>, ErrorKind>(e)),
{
    match r {
        Ok(v) => Ok(Some(v)),
        Err(e) => {
            if e.is_segment_ended() {
                Ok(None)
            } else {
                Err(e)
            }
        },
    }
}

impl<R: BincodeRead> Deserializer<R> {
    /// The barrier that a segment of `seg` bytes, opened after the size
    /// prefix, leaves to its parent; none at the top level.
    pub open spec fn parent_rest(&self, seg: int) -> Option<usize> {
        if self.segments().len() == 0 {
            None
        } else {
            Some((self.barrier() - self.varint_len() - seg) as usize)
        }
    }

    /// `next` is `self` after a segment was opened: its size was read, the
    /// barrier set to it, and the parent's rest recorded.
    pub open spec fn segment_begun(&self, next: &Self) -> bool {
        let k = self.varint_len();
        let seg = varint_value(self.data());
        &&& next.data() == self.data().skip(k)
        &&& next.limit() == self.limit().after(k)
        &&& next.barrier() == seg
        &&& next.segments() == self.segments().push(self.parent_rest(seg))
    }

    /// `next` is `self` after the innermost segment ended: the rest of the
    /// segment was skipped and the parent's barrier restored.
    pub open spec fn segment_ended(&self, next: &Self) -> bool {
        &&& next.data() == self.data().skip(self.barrier() as int)
        &&& next.barrier() == match self.segments().last() {
            Some(d) => d,
            None => usize::MAX,
        }
        &&& next.limit() == self.limit()
        &&& next.segments() == self.segments().drop_last()
    }

    /// Opens a segment: reads its size and sets the barrier to it.
    ///
    /// Inside another segment, the new segment must fit into what the parent
    /// still holds; otherwise `InvalidData` is returned.
    pub fn begin_segment_size_limit(&mut self) -> (r: Result<(), ErrorKind>)
        ensures
            ({
                let k = old(self).varint_len();
                let seg = varint_value(old(self).data());
                &&& r is Ok <==> old(self).varint_ok() && seg <= u32::MAX && (old(self).segments().len() == 0 || old(self).barrier() - k >= seg)
                &&& r is Ok ==> old(self).segment_begun(final(self))
                &&& r matches Err(e) ==> (!old(self).varint_ok() ==> old(self).varint_error(e)) && (
                old(self).varint_ok() && seg > u32::MAX ==> e is Custom) && (old(self).varint_ok()
                    && seg <= u32::MAX ==> e is InvalidData)
            }),
    {
        let ghost start = *self;
        let seg_size = self.deserialize_u32()? as usize;
        let diff = if self.segment_size_limits.len() > 0 {
            match self.reader.barrier().checked_sub(seg_size) {
                Some(d) => Some(d),
                None => return Err(ErrorKind::InvalidData),
            }
        } else {
            None
        };
        self.segment_size_limits.push(SegmentSizeLimit { diff });
        self.reader.set_barrier(seg_size);
        proof {
            assert(self.segments() =~= start.segments().push(start.parent_rest(seg_size as int)));
        }
        Ok(())
    }

    /// Closes the innermost segment: skips what is left of it and restores
    /// the parent's barrier. Does nothing when no segment is open.
    pub fn end_segment_size_limit(&mut self) -> (r: Result<(), ErrorKind>)
        ensures
            old(self).segments().len() == 0 ==> r is Ok && final(self).data() == old(self).data()
                && final(self).barrier() == old(self).barrier() && final(self).limit() == old(self).limit() && final(self).segments() == old(self).segments(),
            old(self).segments().len() > 0 ==> {
                &&& final(self).segments() == old(self).segments().drop_last()
                &&& final(self).limit() == old(self).limit()
                &&& (r is Ok <==> old(self).data().len() >= old(self).barrier())
                &&& (r is Ok ==> old(self).segment_ended(final(self)))
                &&& (r matches Err(e) ==> e is SegmentEnded)
            },
    {
        let ghost start = *self;
        if self.segment_size_limits.len() > 0 {
            let ssl = self.segment_size_limits.pop().unwrap();
            proof {
                assert(self.segments() =~= start.segments().drop_last());
            }
            match self.reader.forward_to_barrier() {
                Ok(()) => {},
                Err(e) => return Err(ErrorKind::from_io(e)),
            }
            let restored = match ssl.diff {
                Some(d) => d,
                None => usize::MAX,
            };
            self.reader.set_barrier(restored);
        }
        Ok(())
    }

    /// Whether a byte buffer with a length prefix can be read.
    pub open spec fn buffer_ok(&self) -> bool {
        let k = self.varint_len();
        let len = varint_value(self.data());
        &&& self.varint_ok()
        &&& len <= usize::MAX
        &&& self.can_take(k + len)
    }

    /// Reads a length prefix and then that many bytes.
    pub fn read_vec(&mut self) -> (r: Result<Vec<u8>, ErrorKind>)
        ensures
            ({
                let k = old(self).varint_len();
                let len = varint_value(old(self).data());
                &&& r is Ok <==> old(self).buffer_ok()
                &&& r matches Ok(v) ==> v@ == old(self).data().subrange(k, k + len) && old(self).advanced_to(final(self), k + len)
                &&& r matches Err(e) ==> (!old(self).varint_ok() ==> old(self).varint_error(e))
                    && (old(self).varint_ok() && len <= usize::MAX ==> (e is SizeLimit <==> !old(self).limit().allows(k + len)))
            }),
    {
        let ghost start = *self;
        let len = self.deserialize_len()?;
        let ghost mid = *self;
        self.read_bytes(len as u64)?;
        let ghost mid2 = *self;
        proof {
            assert(mid.limit().after(len as int) == start.limit().after(start.varint_len() + len));
        }
        let v = match self.reader.get_byte_buffer(len) {
            Ok(v) => v,
            Err(e) => return Err(e),
        };
        proof {
            assert(mid.data().take(len as int) =~= start.data().subrange(
                start.varint_len(),
                start.varint_len() + len,
            ));
            assert(mid.data().skip(len as int) =~= start.data().skip(start.varint_len() + len));
        }
        Ok(v)
    }

    /// Reads a length-prefixed UTF-8 string.
    pub fn read_string(&mut self) -> (r: Result<String, ErrorKind>)
        ensures
            ({
                let k = old(self).varint_len();
                let len = varint_value(old(self).data());
                let bytes = old(self).data().subrange(k, k + len);
                &&& r is Ok <==> old(self).buffer_ok() && valid_utf8(bytes)
                &&& r matches Ok(s) ==> s@ == decode_utf8(bytes) && old(self).advanced_to(
                    final(self),
                    k + len,
                )
                &&& r matches Err(e) ==> (old(self).buffer_ok() ==> e is InvalidUtf8Encoding)
            }),
    {
        let v = self.read_vec()?;
        match str_from_utf8(v.as_slice()) {
            Ok(s) => Ok(s.to_owned()),
            Err(e) => Err(ErrorKind::InvalidUtf8Encoding(e)),
        }
    }

    /// Reads a bool encoded as 1 or 0.
    pub fn deserialize_bool(&mut self) -> (r: Result<bool, ErrorKind>)
        ensures
            r is Ok <==> old(self).can_take(1) && old(self).data()[0] <= 1,
            r matches Ok(b) ==> b == (old(self).data()[0] == 1) && old(self).advanced_to(
                final(self),
                1,
            ),
            r matches Err(e) ==> e == if old(self).can_take(1) {
                ErrorKind::InvalidBoolEncoding(old(self).data()[0])
            } else {
                old(self).take_error(1)
            },
    {
        match self.deserialize_byte()? {
            1 => Ok(true),
            0 => Ok(false),
            value => Err(ErrorKind::InvalidBoolEncoding(value)),
        }
    }

    /// Reads the tag of an optional value: 0 for none, 1 for some.
    pub fn deserialize_option_tag(&mut self) -> (r: Result<bool, ErrorKind>)
        ensures
            r is Ok <==> old(self).can_take(1) && old(self).data()[0] <= 1,
            r matches Ok(b) ==> b == (old(self).data()[0] == 1) && old(self).advanced_to(
                final(self),
                1,
            ),
            r matches Err(e) ==> e == if old(self).can_take(1) {
                ErrorKind::InvalidTagEncoding(old(self).data()[0] as usize)
            } else {
                old(self).take_error(1)
            },
    {
        match self.deserialize_byte()? {
            0 => Ok(false),
            1 => Ok(true),
            v => Err(ErrorKind::InvalidTagEncoding(v as usize)),
        }
    }

    /// Reads an `i8` stored as one byte.
    pub fn deserialize_i8(&mut self) -> (r: Result<i8, ErrorKind>)
        ensures
            r is Ok <==> old(self).can_take(1),
            r matches Ok(v) ==> v == old(self).data()[0] as i8 && old(self).advanced_to(
                final(self),
                1,
            ),
            r matches Err(e) ==> e == old(self).take_error(1),
    {
        let b = self.deserialize_byte()?;
        Ok(b as i8)
    }

    /// Reads an enum tag and selects the variant it names.
    pub fn deserialize_variant_index(&mut self, variants: &[&str]) -> (r: Result<u32, ErrorKind>)
        ensures
            r is Ok <==> old(self).varint_ok() && varint_value(old(self).data()) <= u32::MAX
                && varint_value(old(self).data()) < variants@.len(),
            r matches Ok(v) ==> Some(v) == spec_select_variant(
                varint_value(old(self).data()) as u32,
                variants@.map_values(|v: &str| v@),
            ) && old(self).advanced_to(final(self), old(self).varint_len()),
            old(self).varint_ok() && varint_value(old(self).data()) <= u32::MAX
                && varint_value(old(self).data()) >= variants@.len() ==> (r matches Err(
                ErrorKind::InvalidTagEncoding(t),
            ) && t == varint_value(old(self).data())),
    {
        let idx = self.deserialize_u32()?;
        select_variant(idx, variants)
    }

    /// The bytes available to the current segment.
    pub open spec fn segment_bytes(&self) -> Seq<u8> {
        if self.barrier() <= self.data().len() {
            self.data().take(self.barrier() as int)
        } else {
            self.data()
        }
    }

    /// Reads one UTF-8 encoded char (without accounting for the byte limit).
    pub fn deserialize_char(&mut self) -> (r: Result<char, ErrorKind>)
        ensures
            (old(self).barrier() < 1 || old(self).data().len() < 1) ==> (r matches Err(e)
                && e is SegmentEnded),
            (old(self).barrier() >= 1 && old(self).data().len() >= 1) ==> match decode_char_prefix(
                old(self).segment_bytes(),
            ) {
                Some((c, k)) => r == Ok::<char, ErrorKind>(c) && final(self).data() == old(self).data().skip(k as int) && final(self).barrier() == old(self).barrier() - k,
                None => r matches Err(e) && e is InvalidCharEncoding,
            },
            final(self).limit() == old(self).limit(),
            final(self).segments() == old(self).segments(),
    {
        let ghost start = *self;
        let mut first: Vec<u8> = vec![0u8; 1];
        match self.reader.read_exact(&mut first) {
            Ok(()) => {},
            Err(e) => return Err(ErrorKind::from_io(e)),
        }
        let b = first[0];
        proof {
            assert(b == start.data()[0]);
            assert(start.segment_bytes()[0] == b);
        }
        let width = utf8_char_width(b);
        if width == 1 {
            return Ok(b as char);
        }
        if width == 0 {
            return Err(ErrorKind::InvalidCharEncoding);
        }
        let ghost mid = *self;
        proof {
        }
        let mut rest: Vec<u8> = vec![0u8; width - 1];
        if self.reader.read_exact(&mut rest).is_err() {
            return Err(ErrorKind::InvalidCharEncoding);
        }
        let mut buf: Vec<u8> = Vec::new();
        buf.push(b);
        buf.append(&mut rest);
        proof {
            assert(buf@ =~= start.data().take(width as int));
            assert(start.segment_bytes().take(width as int) =~= start.data().take(width as int));
            assert(self.data() =~= start.data().skip(width as int));
        }
        match str_from_utf8(buf.as_slice()) {
            Ok(s) => {
                proof {
                    assert(buf@.len() > 0);
                }
                Ok(s.get_char(0))
            },
            Err(_) => Err(ErrorKind::InvalidCharEncoding),
        }
    }
}


/// Every char is read back from its UTF-8 encoding: the first byte of the
/// encoding announces its full length, and decoding yields the char itself,
/// whatever bytes follow.
pub proof fn law_char_roundtrip(c: char, rest: Seq<u8>)
    ensures
        decode_char_prefix(encode_utf8(seq![c]) + rest) == Some(
            (c, encode_utf8(seq![c]).len()),
        ),
        spec_char_width(encode_utf8(seq![c])[0]) == encode_utf8(seq![c]).len(),
{
    let enc = encode_utf8(seq![c]);
    let s = c as u32;
    char_is_scalar(c);
    char_u32_cast(c, s);
    assert(seq![c].drop_first() =~= Seq::<char>::empty());
    assert(encode_utf8(Seq::<char>::empty()) =~= Seq::<u8>::empty());
    assert(enc =~= encode_scalar(s));
    encode_utf8_valid_utf8(seq![c]);
    encode_utf8_decode_utf8(seq![c]);
    let bytes = enc + rest;
    assert(bytes.take(enc.len() as int) =~= enc);
    if 0 <= s <= 0x7F {
        assert(s & 0x7F == s) by (bit_vector)
            requires
                s <= 0x7F,
        ;
        assert(((s & 0x7F) as u8) < 0x80) by (bit_vector);
        assert((s as u8) as u32 == s);
    } else if 0x80 <= s <= 0x7FF {
        assert(0xC2 <= (0xC0 | ((s >> 6) & 0x1F) as u8) <= 0xDF) by (bit_vector)
            requires
                0x80 <= s <= 0x7FF,
        ;
    } else if 0x800 <= s <= 0xFFFF && !(0xD800 <= s <= 0xDFFF) {
        assert(0xE0 <= (0xE0 | ((s >> 12) & 0x0F) as u8) <= 0xEF) by (bit_vector);
    } else {
        assert(0xF0 <= (0xF0 | ((s >> 18) & 0x7) as u8) <= 0xF4) by (bit_vector)
            requires
                0x10000 <= s <= 0x10FFFF,
        ;
    }
}


impl<R: BincodeRead> Deserializer<R> {
    /// A segment ends right after its last byte, however much of it was
    /// read: opening it, reading `n` of its bytes and ending it leaves the
    /// data after the segment, and inside another segment the parent's
    /// barrier is reduced by exactly the size prefix and the segment.
    pub proof fn law_segment_consumes_its_size(
        outer: Self,
        opened: Self,
        inside: Self,
        closed: Self,
        n: int,
    )
        requires
            outer.varint_ok(),
            outer.segments().len() == 0 || outer.barrier() - outer.varint_len() >= varint_value(
                outer.data(),
            ),
            outer.segment_begun(&opened),
            0 <= n,
            opened.can_take(n),
            opened.advanced_to(&inside, n),
            inside.data().len() >= inside.barrier(),
            inside.segment_ended(&closed),
        ensures
            closed.data() == outer.data().skip(outer.varint_len() + varint_value(outer.data())),
            closed.segments() == outer.segments(),
            closed.limit() == outer.limit().after(outer.varint_len() + n),
            outer.segments().len() > 0 ==> closed.barrier() == outer.barrier() - outer.varint_len()
                - varint_value(outer.data()),
            outer.segments().len() == 0 ==> closed.barrier() == usize::MAX,
    {
        let k = outer.varint_len();
        let seg = varint_value(outer.data());
        assert(opened.barrier() == seg);
        assert(inside.barrier() == seg - n);
        assert(outer.data().skip(k).skip(n).skip(seg - n) =~= outer.data().skip(k + seg));
        assert(inside.segments().last() == outer.parent_rest(seg));
        assert(outer.segments().push(outer.parent_rest(seg)).drop_last() =~= outer.segments());
        match outer.limit() {
            Limit::Infinite => {},
            Limit::Bounded(b) => {},
        }
    }
}

} // verus!
