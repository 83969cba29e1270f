use vstd::prelude::*;
use crate::parser::tagged::Span;

verus! {

/// Why reading failed.
#[derive(Debug, Clone, Copy, PartialEq, Eq, Structural)]
pub enum ReadError {
    /// The end of the input came where a byte was needed.
    UnexpectedEOF { span: Span },
}

/// A byte reader over an input, taking it in chunks of at most `SIZE` bytes,
/// with one byte of look-ahead and a count of the bytes consumed.
pub struct Reader<const SIZE: usize> {
    source: Vec<u8>,
    source_pos: usize,
    stream_offset: usize,
    buffer_offset: usize,
    buffer_size: usize,
    /// buffer_eof is internal, to avoid unnecessary filling of the buffer
    buffer_eof: bool,
    /// eof tracks the end of input as seen through `read`, for a proper offset count
    eof: bool,
    buffer: Vec<u8>,
}

impl<const SIZE: usize> Reader<SIZE> {
    /// The internal invariant: the buffer holds the chunk just taken from the
    /// input, and the offset counts what has been consumed of it.
    pub closed spec fn wf(self) -> bool {
        &&& self.source@.len() < usize::MAX
        &&& self.source_pos <= self.source@.len()
        &&& self.buffer@.len() == self.buffer_size
        &&& self.buffer_size <= SIZE
        &&& self.buffer_size <= self.source_pos
        &&& self.buffer@ == self.source@.subrange(self.source_pos - self.buffer_size, self.source_pos as int)
        &&& self.stream_offset == self.source_pos - self.buffer_size + self.buffer_offset
        &&& (!self.buffer_eof ==> self.buffer_offset <= self.buffer_size)
        &&& (self.buffer_eof ==> self.buffer_size == 0 && (self.source_pos == self.source@.len() || SIZE == 0))
        &&& (self.buffer_eof && !self.eof ==> self.buffer_offset == 0)
        &&& (self.eof ==> self.buffer_eof && self.buffer_offset == 1)
    }

    /// The whole input.
    pub closed spec fn input(self) -> Seq<u8> {
        self.source@
    }

    /// The number of bytes consumed, counting the end of input once it has
    /// been read.
    pub closed spec fn pos(self) -> nat {
        self.stream_offset as nat
    }

    /// Whether `read` has met the end of input.
    pub closed spec fn at_eof(self) -> bool {
        self.eof
    }

    /// The bytes still to come. A reader with no room for a chunk sees none.
    pub open spec fn rest(self) -> Seq<u8> {
        if SIZE == 0 || self.at_eof() {
            Seq::empty()
        } else {
            self.input().skip(self.pos() as int)
        }
    }

    /// What a read does: past the end of input it gives `None` and stays;
    /// otherwise it gives the next byte, or `None` at the end of input, and
    /// counts one more byte consumed.
    pub open spec fn read_outcome(before: Self, r: Result<Option<u8>, ReadError>, after: Self) -> bool {
        &&& after.input() == before.input()
        &&& before.at_eof() ==> r == Ok::<Option<u8>, ReadError>(None) && after.pos() == before.pos() && after.at_eof()
        &&& !before.at_eof() && before.rest().len() > 0 ==> {
            &&& r == Ok::<Option<u8>, ReadError>(Some(before.rest()[0]))
            &&& after.pos() == before.pos() + 1
            &&& !after.at_eof()
        }
        &&& !before.at_eof() && before.rest().len() == 0 ==> {
            &&& r == Ok::<Option<u8>, ReadError>(None)
            &&& after.pos() == before.pos() + 1
            &&& after.at_eof()
        }
    }

    /// Whether a byte is waiting in the buffer.
    pub closed spec fn has_buffered(self) -> bool {
        self.buffer_offset < self.buffer_size
    }

    /// The end of the input is known to the buffer but not yet read.
    pub closed spec fn buffer_eof_only(self) -> bool {
        self.buffer_eof && (self.eof || self.buffer_offset == 0)
    }

    /// Facts every well-formed reader has.
    pub proof fn lemma_wf(self)
        requires
            self.wf(),
        ensures
            self.input().len() < usize::MAX,
            !self.at_eof() ==> self.pos() <= self.input().len(),
            self.at_eof() ==> self.pos() == self.input().len() + 1 || (SIZE == 0 && self.pos() <= self.input().len() + 1),
    {
    }

    /// A reader at the start of `input`.
    pub fn new(input: &[u8]) -> (r: Self)
        requires
            input@.len() < usize::MAX,
        ensures
            r.wf(),
            r.input() == input@,
            r.pos() == 0,
            !r.at_eof(),
    {
        let source = vstd::slice::slice_to_vec(input);
        proof {
            assert(Seq::<u8>::empty() =~= source@.subrange(0, 0));
        }
        Self {
            source,
            stream_offset: 0,
            source_pos: 0,
            buffer_offset: 0,
            buffer_size: 0,
            buffer_eof: false,
            eof: false,
            buffer: Vec::new(),
        }
    }

    fn buffer_empty(&self) -> (r: bool)
        ensures
            r == (self.buffer_offset >= self.buffer_size),
    {
        self.buffer_offset >= self.buffer_size
    }

    /// Takes the next chunk of at most `SIZE` bytes into the buffer.
    fn fill(&mut self) -> (r: Result<(), ReadError>)
        requires
            old(self).wf(),
            old(self).buffer_offset >= old(self).buffer_size,
        ensures
            r is Ok,
            final(self).wf(),
            final(self).input() == old(self).input(),
            final(self).pos() == old(self).pos(),
            final(self).at_eof() == old(self).at_eof(),
            !final(self).buffer_eof ==> final(self).buffer_offset < final(self).buffer_size,
    {
        if self.buffer_eof {
            return Ok(());
        }

        let available = self.source.len() - self.source_pos;
        let n = if available < SIZE { available } else { SIZE };
        let start = self.source_pos;
        let mut buffer: Vec<u8> = Vec::new();
        let mut i: usize = 0;
        while i < n
            invariant
                self.source@ == old(self).source@,
                start == old(self).source_pos,
                start <= self.source@.len(),
                self.source@.len() < usize::MAX,
                n <= self.source@.len() - start,
                i <= n,
                buffer@ == self.source@.subrange(start as int, start + i),
            decreases n - i,
        {
            let b = self.source[start + i];
            buffer.push(b);
            i = i + 1;
            proof {
                assert(buffer@ =~= self.source@.subrange(start as int, start + i));
            }
        }
        self.buffer = buffer;
        self.buffer_size = n;
        self.buffer_offset = 0;
        self.source_pos = self.source_pos + n;
        if self.buffer_size == 0 {
            self.buffer_eof = true;
        }

        Ok(())
    }

    /// The next byte, without consuming it; `None` at the end of input.
    pub fn peek(&mut self) -> (r: Result<Option<u8>, ReadError>)
        requires
            old(self).wf(),
        ensures
            final(self).wf(),
            final(self).input() == old(self).input(),
            final(self).pos() == old(self).pos(),
            final(self).at_eof() == old(self).at_eof(),
            r == Ok::<Option<u8>, ReadError>(
                if old(self).rest().len() > 0 { Some(old(self).rest()[0]) } else { None },
            ),
            r matches Ok(Some(_)) ==> final(self).has_buffered(),
            r matches Ok(None) ==> !final(self).has_buffered() && final(self).buffer_eof_only(),
    {
        if self.buffer_empty() {
            self.fill()?;
        }

        if self.buffer_eof {
            return Ok(None);
        }

        proof {
            assert(self.buffer@[self.buffer_offset as int] == self.source@[self.stream_offset as int]);
        }
        Ok(Some(self.buffer[self.buffer_offset]))
    }

    /// Consumes and returns the next byte. At the end of input it returns
    /// `None`, and the first such read still counts towards the offset.
    pub fn read(&mut self) -> (r: Result<Option<u8>, ReadError>)
        requires
            old(self).wf(),
        ensures
            final(self).wf(),
            Self::read_outcome(*old(self), r, *final(self)),
    {
        if self.eof {
            return Ok(None);
        }

        let value = self.peek()?;
        self.buffer_offset += 1;
        self.stream_offset += 1;
        if value.is_none() {
            self.eof = true;
        }

        Ok(value)
    }

    /// Consumes and returns the next byte; the end of input is an error.
    pub fn read_exact(&mut self) -> (r: Result<u8, ReadError>)
        requires
            old(self).wf(),
        ensures
            final(self).wf(),
            final(self).input() == old(self).input(),
            old(self).rest().len() > 0 ==> {
                &&& r == Ok::<u8, ReadError>(old(self).rest()[0])
                &&& final(self).pos() == old(self).pos() + 1
                &&& !final(self).at_eof()
            },
            old(self).rest().len() == 0 ==> {
                &&& final(self).at_eof()
                &&& final(self).pos() == if old(self).at_eof() { old(self).pos() } else { old(self).pos() + 1 }
                &&& r == Err::<u8, ReadError>(ReadError::UnexpectedEOF { span: Span { offset: final(self).pos() as usize, len: 0 } })
            },
    {
        if let Some(byte) = self.read()? {
            Ok(byte)
        } else {
            Err(ReadError::UnexpectedEOF { span: Span::new(self.stream_offset, 0) })
        }
    }

    /// The number of bytes consumed.
    pub fn offset(&self) -> (r: usize)
        ensures
            r == self.pos(),
    {
        self.stream_offset
    }

    /// Consumes bytes up to the first one that `predicate` accepts, or to the
    /// end of input; that byte is not consumed.
    pub fn skip_until<P: Fn(u8) -> bool>(&mut self, predicate: P) -> (r: Result<(), ReadError>)
        requires
            old(self).wf(),
            forall|b: u8| call_requires(predicate, (b,)),
        ensures
            r is Ok,
            final(self).wf(),
            final(self).input() == old(self).input(),
            final(self).at_eof() == old(self).at_eof(),
            old(self).pos() <= final(self).pos(),
            ({
                let k = final(self).pos() - old(self).pos();
                &&& k <= old(self).rest().len()
                &&& final(self).rest() == old(self).rest().skip(k)
                &&& forall|j: int| 0 <= j < k ==> call_ensures(predicate, (old(self).rest()[j],), false)
                &&& final(self).rest().len() > 0 ==> call_ensures(predicate, (final(self).rest()[0],), true)
            }),
    {
        let ghost start = self.rest();
        let ghost p0 = self.pos();
        loop
            invariant
                self.wf(),
                self.input() == old(self).input(),
                self.at_eof() == old(self).at_eof(),
                start == old(self).rest(),
                p0 == old(self).pos(),
                forall|b: u8| call_requires(predicate, (b,)),
                p0 <= self.pos(),
                self.pos() - p0 <= start.len(),
                self.rest() == start.skip(self.pos() - p0),
                forall|j: int| 0 <= j < self.pos() - p0 ==> call_ensures(predicate, (start[j],), false),
            ensures
                self.wf(),
                self.input() == old(self).input(),
                self.at_eof() == old(self).at_eof(),
                p0 <= self.pos(),
                self.pos() - p0 <= start.len(),
                self.rest() == start.skip(self.pos() - p0),
                forall|j: int| 0 <= j < self.pos() - p0 ==> call_ensures(predicate, (start[j],), false),
                self.rest().len() > 0 ==> call_ensures(predicate, (self.rest()[0],), true),
            decreases self.rest().len(),
        {
            let byte = match self.peek()? {
                Some(byte) => byte,
                None => break,
            };
            if predicate(byte) {
                break;
            }
            let ghost before = self.rest();
            self.read()?;
            proof {
                assert(self.rest() =~= start.skip(self.pos() - p0));
                assert(before[0] == start[self.pos() - p0 - 1]);
            }
        }
        Ok(())
    }
}

/// The chunk size of a reader does not change what it reads: two readers
/// with room for a chunk, over the same input and at the same offset, have
/// the same bytes to come.
pub proof fn lemma_chunk_size_invisible<const A: usize, const B: usize>(r1: Reader<A>, r2: Reader<B>)
    requires
        r1.wf(),
        r2.wf(),
        A > 0,
        B > 0,
        r1.input() == r2.input(),
        r1.pos() == r2.pos(),
        r1.at_eof() == r2.at_eof(),
    ensures
        r1.rest() == r2.rest(),
{
}

/// Where a reader stands after `k` reads from the start of `input`: its
/// count of bytes consumed, and whether it has read the end of input.
pub open spec fn reads_done(input: Seq<u8>, k: nat) -> (nat, bool) {
    if k <= input.len() { (k, false) } else { (input.len() + 1, true) }
}

/// What the read after `k` reads from the start of `input` gives.
pub open spec fn kth_read(input: Seq<u8>, k: nat) -> Option<u8> {
    if k < input.len() { Some(input[k as int]) } else { None }
}

/// Reads from a new reader with room for a chunk go through the input in
/// order: after `k` reads (and any peeks, which move nothing), the next read
/// gives byte `k`, or `None` from the end of input on, and leaves the reader
/// where `k + 1` reads do. The count of bytes consumed stops one past the
/// input's length. A new reader stands where zero reads leave it.
pub proof fn lemma_read_sequence<const SIZE: usize>(before: Reader<SIZE>, r: Result<Option<u8>, ReadError>, after: Reader<SIZE>, k: nat)
    requires
        SIZE > 0,
        before.wf(),
        (before.pos(), before.at_eof()) == reads_done(before.input(), k),
        Reader::read_outcome(before, r, after),
    ensures
        r == Ok::<Option<u8>, ReadError>(kth_read(before.input(), k)),
        after.input() == before.input(),
        (after.pos(), after.at_eof()) == reads_done(before.input(), k + 1),
        (if before.rest().len() > 0 { Some(before.rest()[0]) } else { None }) == kth_read(before.input(), k),
{
}

/// Whether a byte is a blank: a space or a tab.
pub open spec fn is_blank(byte: u8) -> bool {
    byte == 0x20 || byte == 0x09
}

/// Reports whether a byte is a space or a tab.
pub fn whitespace(byte: u8) -> (r: bool)
    ensures
        r == is_blank(byte),
{
    byte == 0x20 || byte == 0x09
}

} // verus!
