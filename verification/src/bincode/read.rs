//! Byte sources with a segment barrier.

use vstd::prelude::*;
use vstd::slice::slice_subrange;

use super::error::{ErrorKind, IoError};

verus! {

/// A plain source of bytes.
///
/// `read_exact` either fills the whole buffer with the next bytes of the
/// source, or fails with `UnexpectedEof` when fewer bytes are left.
pub trait Read {
    /// The bytes that have not been read yet.
    spec fn pending(&self) -> Seq<u8>;

    /// Fills `out` with the next `out.len()` bytes.
    fn read_exact(&mut self, out: &mut Vec<u8>) -> (r: Result<(), IoError>)
        ensures
            final(out)@.len() == old(out)@.len(),
            r is Ok <==> old(self).pending().len() >= old(out)@.len(),
            r is Ok ==> final(out)@ == old(self).pending().take(old(out)@.len() as int)
                && final(self).pending() == old(self).pending().skip(old(out)@.len() as int),
            r is Err ==> r == Err::<(), IoError>(IoError::UnexpectedEof),
    ;
}

impl<'a> Read for &'a [u8] {
    open spec fn pending(&self) -> Seq<u8> {
        (*self)@
    }

    fn read_exact(&mut self, out: &mut Vec<u8>) -> (r: Result<(), IoError>) {
        let n = out.len();
        if n > self.len() {
            return Err(IoError::UnexpectedEof);
        }
        let src: &'a [u8] = *self;
        let mut i: usize = 0;
        while i < n
            invariant
                n == out@.len(),
                n <= src@.len(),
                i <= n,
                forall|j: int| 0 <= j < i ==> out@[j] == src@[j],
            decreases n - i,
        {
            out.set(i, src[i]);
            i = i + 1;
        }
        *self = slice_subrange(src, n, src.len());
        assert(out@ =~= src@.take(n as int));
        Ok(())
    }
}

/// A byte source with a segment barrier, as used by the deserializer.
///
/// The barrier counts the bytes that may still be read in the current
/// segment. A read of `n` bytes needs `n` bytes before the barrier; when the
/// barrier is too close, the rest of the segment is skipped and the read
/// fails.
pub trait BincodeRead {
    /// The bytes that have not been read yet.
    spec fn pending(&self) -> Seq<u8>;

    /// The current barrier offset.
    spec fn barrier_offset(&self) -> usize;

    /// Fills `out` with the next `out.len()` bytes, within the barrier.
    fn read_exact(&mut self, out: &mut Vec<u8>) -> (r: Result<(), IoError>)
        ensures
            final(out)@.len() == old(out)@.len(),
            r is Err ==> r == Err::<(), IoError>(IoError::UnexpectedEof),
            old(self).barrier_offset() < old(out)@.len() ==> r is Err,
            old(self).barrier_offset() >= old(out)@.len() ==> (r is Ok <==> old(self).pending().len()
                >= old(out)@.len()),
            r is Ok ==> final(out)@ == old(self).pending().take(old(out)@.len() as int)
                && final(self).pending() == old(self).pending().skip(old(out)@.len() as int)
                && final(self).barrier_offset() == old(self).barrier_offset() - old(out)@.len(),
    ;

    /// Transfers the next `length` bytes to the caller.
    fn get_byte_buffer(&mut self, length: usize) -> (r: Result<Vec<u8>, ErrorKind>)
        ensures
            old(self).barrier_offset() < length ==> (r matches Err(e) && e is SegmentEnded),
            old(self).barrier_offset() >= length ==> (r is Ok <==> old(self).pending().len()
                >= length),
            r matches Err(e) ==> (e is SegmentEnded || e == ErrorKind::Io(IoError::UnexpectedEof)),
            r matches Ok(v) ==> v@ == old(self).pending().take(length as int)
                && final(self).pending() == old(self).pending().skip(length as int)
                && final(self).barrier_offset() == old(self).barrier_offset() - length,
    ;

    /// Gets the current barrier offset.
    fn barrier(&self) -> (b: usize)
        ensures
            b == self.barrier_offset(),
    ;

    /// Sets the barrier to prevent reading beyond it.
    fn set_barrier(&mut self, offset: usize)
        ensures
            final(self).barrier_offset() == offset,
            final(self).pending() == old(self).pending(),
    ;

    /// Skips the remaining bytes before the barrier.
    fn forward_to_barrier(&mut self) -> (r: Result<(), IoError>)
        ensures
            final(self).barrier_offset() == 0,
            r is Err ==> r == Err::<(), IoError>(IoError::UnexpectedEof),
            r is Ok <==> old(self).pending().len() >= old(self).barrier_offset(),
            r is Ok ==> final(self).pending() == old(self).pending().skip(
                old(self).barrier_offset() as int,
            ),
    ;
}

/// A `BincodeRead` implementation for byte slices.
pub struct SliceReader<'storage> {
    slice: &'storage [u8],
    barrier_offset: usize,
}

impl<'storage> SliceReader<'storage> {
    /// The bytes that have not been read yet.
    pub closed spec fn rest(&self) -> Seq<u8> {
        self.slice@
    }

    /// The current barrier offset.
    pub closed spec fn barrier_spec(&self) -> usize {
        self.barrier_offset
    }

    /// Constructs a slice reader with no barrier.
    pub fn new(bytes: &'storage [u8]) -> (r: SliceReader<'storage>)
        ensures
            r.rest() == bytes@,
            r.barrier_spec() == usize::MAX,
    {
        SliceReader { slice: bytes, barrier_offset: usize::MAX }
    }

    /// The bytes left once the current segment is skipped: those after the
    /// barrier, or none where the barrier lies beyond the data.
    pub open spec fn rest_after_barrier(&self) -> Seq<u8> {
        if self.barrier_spec() <= self.rest().len() {
            self.rest().skip(self.barrier_spec() as int)
        } else {
            Seq::empty()
        }
    }

    /// Takes the next `length` bytes as a borrowed slice.
    ///
    /// When the barrier is closer than `length`, the rest of the segment is
    /// skipped (up to the end of the data) and `SegmentEnded` is returned.
    /// When the slice is shorter than `length`, an `Io(UnexpectedEof)` error
    /// is returned.
    pub fn get_byte_slice(&mut self, length: usize) -> (r: Result<&'storage [u8], ErrorKind>)
        ensures
            old(self).barrier_spec() < length ==> {
                &&& r matches Err(e) && e is SegmentEnded
                &&& final(self).rest() == old(self).rest_after_barrier()
                &&& final(self).barrier_spec() == 0
            },
            old(self).barrier_spec() >= length ==> {
                &&& final(self).barrier_spec() == old(self).barrier_spec() - length
                &&& (length > old(self).rest().len() ==> (r matches Err(e) && e == ErrorKind::Io(IoError::UnexpectedEof)) && final(self).rest() == old(self).rest())
                &&& (length <= old(self).rest().len() ==> (r matches Ok(s) && s@ == old(self).rest().take(length as int)) && final(self).rest() == old(self).rest().skip(length as int))
            },
    {
        if self.barrier_offset < length {
            self.forward_slice();
            return Err(ErrorKind::SegmentEnded);
        }
        self.barrier_offset = self.barrier_offset - length;
        if length > self.slice.len() {
            return Err(ErrorKind::Io(IoError::UnexpectedEof));
        }
        let (read_slice, remaining) = self.slice.split_at(length);
        self.slice = remaining;
        Ok(read_slice)
    }

    /// Skips the rest of the segment, or the rest of the data where the
    /// barrier lies beyond it; tells whether the whole segment was there.
    fn forward_slice(&mut self) -> (whole: bool)
        ensures
            final(self).slice@ == old(self).rest_after_barrier(),
            final(self).barrier_offset == 0,
            whole == (old(self).barrier_offset <= old(self).slice@.len()),
    {
        let whole = self.barrier_offset <= self.slice.len();
        let cut = if whole {
            self.barrier_offset
        } else {
            self.slice.len()
        };
        let (_, remaining) = self.slice.split_at(cut);
        self.slice = remaining;
        self.barrier_offset = 0;
        proof {
            if !whole {
                assert(self.slice@ =~= Seq::<u8>::empty());
            }
        }
        whole
    }

    /// Whether all bytes have been read.
    pub fn is_finished(&self) -> (r: bool)
        ensures
            r == (self.rest().len() == 0),
    {
        self.slice.len() == 0
    }
}

impl<'storage> BincodeRead for SliceReader<'storage> {
    open spec fn pending(&self) -> Seq<u8> {
        self.rest()
    }

    open spec fn barrier_offset(&self) -> usize {
        self.barrier_spec()
    }

    fn read_exact(&mut self, out: &mut Vec<u8>) -> (r: Result<(), IoError>) {
        let n = out.len();
        if self.barrier_offset < n {
            self.forward_slice();
            return Err(IoError::UnexpectedEof);
        }
        self.barrier_offset = self.barrier_offset - n;
        if n > self.slice.len() {
            return Err(IoError::UnexpectedEof);
        }
        let mut src: &'storage [u8] = self.slice;
        let r = Read::read_exact(&mut src, out);
        self.slice = src;
        r
    }

    fn get_byte_buffer(&mut self, length: usize) -> (r: Result<Vec<u8>, ErrorKind>) {
        match self.get_byte_slice(length) {
            Ok(s) => Ok(vstd::slice::slice_to_vec(s)),
            Err(e) => Err(e),
        }
    }

    fn barrier(&self) -> (b: usize) {
        self.barrier_offset
    }

    fn set_barrier(&mut self, offset: usize) {
        self.barrier_offset = offset;
    }

    fn forward_to_barrier(&mut self) -> (r: Result<(), IoError>) {
        if self.forward_slice() {
            Ok(())
        } else {
            Err(IoError::UnexpectedEof)
        }
    }
}

/// A `BincodeRead` implementation over a plain `Read` source.
///
/// Bytes handed to the caller are first collected in a temporary buffer.
pub struct IoReader<R> {
    reader: R,
    temp_buffer: Vec<u8>,
    barrier_offset: usize,
}

impl<R: Read> IoReader<R> {
    /// The bytes that the source has not handed out yet.
    pub closed spec fn rest(&self) -> Seq<u8> {
        self.reader.pending()
    }

    /// The current barrier offset.
    pub closed spec fn barrier_spec(&self) -> usize {
        self.barrier_offset
    }

    /// The contents of the temporary buffer.
    pub closed spec fn buffer(&self) -> Seq<u8> {
        self.temp_buffer@
    }

    /// Constructs a reader over `r` with no barrier and an empty buffer.
    pub fn new(r: R) -> (res: IoReader<R>)
        ensures
            res.rest() == r.pending(),
            res.barrier_spec() == usize::MAX,
            res.buffer().len() == 0,
    {
        IoReader { reader: r, temp_buffer: Vec::new(), barrier_offset: usize::MAX }
    }

    /// The number of bytes in the temporary buffer.
    pub fn temp_buffer_len(&self) -> (n: usize)
        ensures
            n == self.buffer().len(),
    {
        self.temp_buffer.len()
    }

    /// Reads the next `length` bytes into the temporary buffer.
    pub fn fill_buffer(&mut self, length: usize) -> (r: Result<(), ErrorKind>)
        ensures
            old(self).barrier_spec() < length ==> (r matches Err(e) && e is SegmentEnded)
                && final(self).barrier_spec() == 0,
            old(self).barrier_spec() >= length ==> {
                &&& final(self).barrier_spec() == old(self).barrier_spec() - length
                &&& final(self).buffer().len() == length
                &&& (r is Ok <==> old(self).rest().len() >= length)
                &&& (r is Err ==> (r matches Err(e) && e is SegmentEnded))
            },
            r is Ok ==> final(self).buffer() == old(self).rest().take(length as int)
                && final(self).rest() == old(self).rest().skip(length as int),
    {
        if self.barrier_offset < length {
            let _ = self.forward_source();
            return Err(ErrorKind::SegmentEnded);
        }
        self.barrier_offset = self.barrier_offset - length;
        self.temp_buffer.resize(length, 0u8);
        match self.reader.read_exact(&mut self.temp_buffer) {
            Ok(()) => Ok(()),
            Err(e) => Err(ErrorKind::from_io(e)),
        }
    }

    fn forward_source(&mut self) -> (r: Result<(), IoError>)
        ensures
            final(self).barrier_offset == 0,
            final(self).temp_buffer@ == old(self).temp_buffer@,
            r is Err ==> r == Err::<(), IoError>(IoError::UnexpectedEof),
            r is Ok <==> old(self).reader.pending().len() >= old(self).barrier_offset,
            r is Ok ==> final(self).reader.pending() == old(self).reader.pending().skip(
                old(self).barrier_offset as int,
            ),
    {
        let mut v: Vec<u8> = vec![0u8; self.barrier_offset];
        self.barrier_offset = 0;
        self.reader.read_exact(&mut v)
    }
}

impl<R: Read> BincodeRead for IoReader<R> {
    open spec fn pending(&self) -> Seq<u8> {
        self.rest()
    }

    open spec fn barrier_offset(&self) -> usize {
        self.barrier_spec()
    }

    fn read_exact(&mut self, out: &mut Vec<u8>) -> (r: Result<(), IoError>) {
        if self.barrier_offset < out.len() {
            let _ = self.forward_source();
            return Err(IoError::UnexpectedEof);
        }
        self.barrier_offset = self.barrier_offset - out.len();
        self.reader.read_exact(out)
    }

    fn get_byte_buffer(&mut self, length: usize) -> (r: Result<Vec<u8>, ErrorKind>) {
        match self.fill_buffer(length) {
            Ok(()) => {
                let mut taken: Vec<u8> = Vec::new();
                core::mem::swap(&mut taken, &mut self.temp_buffer);
                Ok(taken)
            },
            Err(e) => Err(e),
        }
    }

    fn barrier(&self) -> (b: usize) {
        self.barrier_offset
    }

    fn set_barrier(&mut self, offset: usize) {
        self.barrier_offset = offset;
    }

    fn forward_to_barrier(&mut self) -> (r: Result<(), IoError>) {
        self.forward_source()
    }
}

} // verus!
