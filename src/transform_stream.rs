use vstd::prelude::*;
use crate::buffer::Buffer;

verus! {

/// Why a write failed.
#[derive(Debug, PartialEq, Eq, Structural, Clone, Copy)]
pub enum TransformError {
    /// Carry-over bytes would exceed the buffer's fixed capacity.
    BufferCapacityExceeded,
}

impl TransformError {
    /// An explanation of the failure for diagnostics.
    pub fn context(&self) -> (r: &'static str)
        ensures
            r@ == "This is caused by the parser encountering an extremely long tag or a comment that is captured by the specified selector."@,
    {
        proof {
            reveal_strlit("This is caused by the parser encountering an extremely long tag or a comment that is captured by the specified selector.");
        }
        match self {
            TransformError::BufferCapacityExceeded =>
                "This is caused by the parser encountering an extremely long tag or a comment that is captured by the specified selector.",
        }
    }
}

/// How much work the tokenizer does on the bytes it scans.
#[derive(Debug, PartialEq, Eq, Structural, Clone, Copy)]
pub enum ParserDirective {
    /// Find tag boundaries only, without lexing their contents.
    WherePossibleScanForTagsOnly,
    /// Lex everything.
    Lex,
}

/// The mode a tokenizer starts in: the cheapest one when nothing is captured
/// from the start, full lexing otherwise.
pub fn initial_parser_directive(initial_capture_flags: u16) -> (r: ParserDirective)
    ensures
        r == (if initial_capture_flags == 0 {
            ParserDirective::WherePossibleScanForTagsOnly
        } else {
            ParserDirective::Lex
        }),
{
    if initial_capture_flags == 0 {
        ParserDirective::WherePossibleScanForTagsOnly
    } else {
        ParserDirective::Lex
    }
}

/// The byte-level tokenizer that a stream feeds.
pub trait Tokenizer {
    /// Every chunk parsed so far, in order: its bytes, whether it was marked
    /// as the last one, and the blocked byte count returned for it. A verified
    /// implementation defines it; the default stands for one that is not.
    closed spec fn fed(&self) -> Seq<(Seq<u8>, bool, usize)> {
        Seq::empty()
    }

    /// Switches the tokenizer to the given mode.
    fn set_directive(&mut self, directive: ParserDirective);

    /// Parses `chunk` and returns how many trailing bytes of it are not yet
    /// resolved into complete tokens. `is_last` says that no byte will follow.
    fn parse(&mut self, chunk: &[u8], is_last: bool) -> (blocked_byte_count: usize)
        ensures
            blocked_byte_count <= chunk@.len(),
            final(self).fed() == old(self).fed().push((chunk@, is_last, blocked_byte_count));
}

/// The output side that a stream drives.
pub trait Dispatcher {
    /// Every flush requested so far, in order: the chunk and its blocked byte
    /// count. A verified implementation defines it; the default stands for one
    /// that is not.
    closed spec fn flushed(&self) -> Seq<(Seq<u8>, usize)> {
        Seq::empty()
    }

    /// Every chunk handed to `finish` so far, in order. A verified
    /// implementation defines it; the default stands for one that is not.
    closed spec fn finished_chunks(&self) -> Seq<Seq<u8>> {
        Seq::empty()
    }

    /// Emits output for every byte of `chunk` but the last `blocked_byte_count`.
    fn flush_remaining_input(&mut self, chunk: &[u8], blocked_byte_count: usize)
        ensures
            final(self).flushed() == old(self).flushed().push((chunk@, blocked_byte_count)),
            final(self).finished_chunks() == old(self).finished_chunks();

    /// Flushes all remaining state at the end of the stream.
    fn finish(&mut self, chunk: &[u8])
        ensures
            final(self).flushed() == old(self).flushed(),
            final(self).finished_chunks() == old(self).finished_chunks().push(chunk@);
}

/// The bytes that a flush emits: the chunk without its blocked tail.
pub open spec fn resolved_part(entry: (Seq<u8>, usize)) -> Seq<u8> {
    if entry.1 <= entry.0.len() {
        entry.0.subrange(0, entry.0.len() - entry.1)
    } else {
        Seq::empty()
    }
}

/// The bytes emitted by a sequence of flushes, in order.
pub open spec fn resolved_bytes(log: Seq<(Seq<u8>, usize)>) -> Seq<u8>
    decreases log.len(),
{
    if log.len() == 0 {
        Seq::empty()
    } else {
        resolved_bytes(log.drop_last()) + resolved_part(log.last())
    }
}

/// Feeds byte chunks to a tokenizer, carrying over the unresolved tail of
/// each chunk to the next write within a bounded buffer.
pub struct TransformStream<T: Tokenizer, D: Dispatcher> {
    parser: T,
    dispatcher: D,
    buffer: Buffer,
    has_buffered_data: bool,
    finished: bool,
    written: Ghost<Seq<u8>>,
    flush_base: Ghost<nat>,
}

impl<T: Tokenizer, D: Dispatcher> TransformStream<T, D> {
    /// What the buffer holds, carried over or not.
    pub closed spec fn buffered_bytes(self) -> Seq<u8> {
        self.buffer.view()
    }

    pub closed spec fn has_buffered(self) -> bool {
        self.has_buffered_data
    }

    /// The bytes held over from the previous write.
    pub open spec fn carried(self) -> Seq<u8> {
        if self.has_buffered() { self.buffered_bytes() } else { Seq::empty() }
    }

    pub closed spec fn is_finished(self) -> bool {
        self.finished
    }

    pub closed spec fn capacity(self) -> nat {
        self.buffer.capacity_spec()
    }

    /// Every byte written so far, in order.
    pub closed spec fn written(self) -> Seq<u8> {
        self.written@
    }

    /// The flushes requested of the dispatcher since the stream was made.
    pub closed spec fn stream_flushes(self) -> Seq<(Seq<u8>, usize)> {
        self.dispatcher.flushed().skip(self.flush_base@ as int)
    }

    /// How many flushes the dispatcher had seen when the stream was made.
    pub closed spec fn flushes_start(self) -> nat {
        self.flush_base@
    }

    pub closed spec fn parser_spec(self) -> T {
        self.parser
    }

    pub closed spec fn dispatcher_spec(self) -> D {
        self.dispatcher
    }

    pub closed spec fn wf(self) -> bool {
        &&& self.buffer.wf()
        &&& self.has_buffered_data ==> self.buffer.view().len() > 0
        &&& self.flush_base@ <= self.dispatcher.flushed().len()
        &&& self.written@ == resolved_bytes(self.stream_flushes()) + self.carried()
    }

    /// What a well-formed stream guarantees: the buffer stays within its
    /// capacity, and carry-over is never empty.
    pub proof fn lemma_wf(self)
        requires
            self.wf(),
        ensures
            self.buffered_bytes().len() <= self.capacity(),
            self.has_buffered() ==> self.buffered_bytes().len() > 0,
            self.written() == resolved_bytes(self.stream_flushes()) + self.carried(),
    {
    }

    /// A stream that starts `parser` in the mode that the transform's initial
    /// capture flags call for.
    pub fn new(parser: T, dispatcher: D, buffer_capacity: usize, initial_capture_flags: u16) -> (r: Self)
        ensures
            r.wf(),
            !r.is_finished(),
            !r.has_buffered(),
            r.buffered_bytes() == Seq::<u8>::empty(),
            r.written() == Seq::<u8>::empty(),
            r.stream_flushes() == Seq::<(Seq<u8>, usize)>::empty(),
            r.capacity() == buffer_capacity,
            r.dispatcher_spec() == dispatcher,
    {
        let mut parser = parser;
        parser.set_directive(initial_parser_directive(initial_capture_flags));
        let ghost base = dispatcher.flushed().len();
        let r = TransformStream {
            parser,
            dispatcher,
            buffer: Buffer::new(buffer_capacity),
            has_buffered_data: false,
            finished: false,
            written: Ghost(Seq::empty()),
            flush_base: Ghost(base),
        };
        proof {
            assert(r.stream_flushes() =~= Seq::<(Seq<u8>, usize)>::empty());
        }
        r
    }

    /// Whether the stream has been ended.
    pub fn finished(&self) -> (r: bool)
        ensures
            r == self.is_finished(),
    {
        self.finished
    }

    /// Keeps the last `blocked_byte_count` bytes of `chunk` for the next
    /// write; with none blocked, nothing is carried over.
    pub fn buffer_blocked_bytes(&mut self, chunk: &[u8], blocked_byte_count: usize) -> (r: Result<(), TransformError>)
        requires
            old(self).buffered_bytes().len() <= old(self).capacity(),
            blocked_byte_count <= chunk@.len(),
        ensures
            final(self).is_finished() == old(self).is_finished(),
            final(self).parser_spec() == old(self).parser_spec(),
            final(self).dispatcher_spec() == old(self).dispatcher_spec(),
            final(self).written() == old(self).written(),
            final(self).stream_flushes() == old(self).stream_flushes(),
            final(self).flushes_start() == old(self).flushes_start(),
            final(self).capacity() == old(self).capacity(),
            final(self).buffered_bytes().len() <= final(self).capacity(),
            r.is_err() == (blocked_byte_count > old(self).capacity()),
            r.is_ok() ==> final(self).has_buffered() == (blocked_byte_count > 0),
            r.is_ok() && blocked_byte_count > 0 ==> final(self).buffered_bytes()
                == chunk@.subrange(chunk@.len() - blocked_byte_count, chunk@.len() as int),
            r.is_ok() && blocked_byte_count == 0 ==> final(self).buffered_bytes() == old(self).buffered_bytes(),
            r.is_err() ==> final(self).has_buffered() == old(self).has_buffered()
                && final(self).buffered_bytes() == old(self).buffered_bytes(),
    {
        if blocked_byte_count == 0 {
            self.has_buffered_data = false;
            return Ok(());
        }
        let blocked_bytes = slice_tail(chunk, blocked_byte_count);
        match self.buffer.init_with(blocked_bytes.as_slice()) {
            Ok(()) => {},
            Err(_) => {
                return Err(TransformError::BufferCapacityExceeded);
            },
        }
        self.has_buffered_data = true;
        Ok(())
    }

    /// Parses one assembled chunk, flushes what is resolved and carries the rest.
    fn process(&mut self, chunk: &[u8], data: Ghost<Seq<u8>>) -> (r: Result<(), TransformError>)
        requires
            old(self).wf(),
            chunk@ == old(self).carried() + data@,
        ensures
            final(self).is_finished() == old(self).is_finished(),
            final(self).capacity() == old(self).capacity(),
            final(self).parser_spec().fed() == old(self).parser_spec().fed().push(
                (chunk@, false, final(self).parser_spec().fed().last().2)),
            final(self).dispatcher_spec().flushed() == old(self).dispatcher_spec().flushed().push(
                (chunk@, final(self).parser_spec().fed().last().2)),
            final(self).dispatcher_spec().finished_chunks() == old(self).dispatcher_spec().finished_chunks(),
            final(self).parser_spec().fed().last().2 <= chunk@.len(),
            r.is_err() == (final(self).parser_spec().fed().last().2 > old(self).capacity()),
            r.is_ok() ==> final(self).carried() == chunk@.subrange(
                chunk@.len() - final(self).parser_spec().fed().last().2, chunk@.len() as int),
            r.is_ok() ==> final(self).wf(),
            r.is_ok() ==> final(self).written() == old(self).written() + data@,
    {
        let blocked_byte_count = self.parser.parse(chunk, false);
        self.dispatcher.flush_remaining_input(chunk, blocked_byte_count);
        proof {
            assert(self.stream_flushes() =~= old(self).stream_flushes().push((chunk@, blocked_byte_count)));
            assert(self.stream_flushes().drop_last() =~= old(self).stream_flushes());
        }
        let res = self.buffer_blocked_bytes(chunk, blocked_byte_count);
        match res {
            Ok(()) => {},
            Err(e) => {
                return Err(e);
            },
        }
        proof {
            let n = chunk@.len() as int;
            let b = blocked_byte_count as int;
            self.written = Ghost(old(self).written@ + data@);
            assert(self.carried() =~= chunk@.subrange(n - b, n));
            let prev = old(self).stream_flushes();
            assert(resolved_bytes(self.stream_flushes()) == resolved_bytes(prev) + chunk@.subrange(0, n - b));
            assert(chunk@.subrange(0, n - b) + chunk@.subrange(n - b, n) =~= chunk@);
            assert(old(self).written@ == resolved_bytes(prev) + old(self).carried());
            assert((resolved_bytes(prev) + chunk@.subrange(0, n - b)) + chunk@.subrange(n - b, n)
                =~= resolved_bytes(prev) + (chunk@.subrange(0, n - b) + chunk@.subrange(n - b, n)));
            assert((resolved_bytes(prev) + old(self).carried()) + data@ =~= resolved_bytes(prev) + (old(self).carried() + data@));
        }
        Ok(())
    }

    /// Hands `data`, after the bytes carried over, to the tokenizer, lets the
    /// dispatcher emit what was resolved, and carries the unresolved tail over.
    /// Fails only where that tail exceeds the buffer's capacity.
    pub fn write(&mut self, data: &[u8]) -> (r: Result<(), TransformError>)
        requires
            old(self).wf(),
            !old(self).is_finished(),
        ensures
            !final(self).is_finished(),
            final(self).capacity() == old(self).capacity(),
            final(self).parser_spec().fed() == old(self).parser_spec().fed().push(
                (old(self).carried() + data@, false, final(self).parser_spec().fed().last().2)),
            final(self).dispatcher_spec().flushed() == old(self).dispatcher_spec().flushed().push(
                (old(self).carried() + data@, final(self).parser_spec().fed().last().2)),
            final(self).dispatcher_spec().finished_chunks() == old(self).dispatcher_spec().finished_chunks(),
            r.is_err() == (final(self).parser_spec().fed().last().2 > old(self).capacity()),
            r.is_ok() ==> final(self).carried() == (old(self).carried() + data@).subrange(
                old(self).carried().len() + data@.len() - final(self).parser_spec().fed().last().2,
                (old(self).carried().len() + data@.len()) as int,
            ),
            r.is_ok() ==> final(self).wf(),
            r.is_ok() ==> final(self).written() == old(self).written() + data@,
    {
        if self.has_buffered_data {
            let chunk = concat_bytes(self.buffer.bytes(), data);
            self.process(chunk.as_slice(), Ghost(data@))
        } else {
            proof {
                assert(self.carried() + data@ =~= data@);
            }
            self.process(data, Ghost(data@))
        }
    }

    /// Ends the stream: the tokenizer resolves whatever was carried over as
    /// the last chunk, and the dispatcher flushes all remaining output.
    pub fn end(&mut self)
        requires
            !old(self).is_finished(),
        ensures
            final(self).is_finished(),
            final(self).parser_spec().fed() == old(self).parser_spec().fed().push(
                (old(self).carried(), true, final(self).parser_spec().fed().last().2)),
            final(self).dispatcher_spec().flushed() == old(self).dispatcher_spec().flushed(),
            final(self).dispatcher_spec().finished_chunks() == old(self).dispatcher_spec().finished_chunks().push(
                old(self).carried()),
            final(self).has_buffered() == old(self).has_buffered(),
            final(self).buffered_bytes() == old(self).buffered_bytes(),
            final(self).written() == old(self).written(),
            final(self).capacity() == old(self).capacity(),
    {
        self.finished = true;
        let chunk: Vec<u8> = if self.has_buffered_data {
            copy_bytes(self.buffer.bytes())
        } else {
            Vec::new()
        };
        proof {
            assert(chunk@ =~= old(self).carried());
        }
        self.parser.parse(chunk.as_slice(), true);
        self.dispatcher.finish(chunk.as_slice());
    }

    /// The tokenizer that the stream feeds.
    pub fn parser(&mut self) -> (r: &mut T)
        ensures
            *r == old(self).parser_spec(),
            final(self).parser_spec() == *final(r),
            final(self).dispatcher_spec() == old(self).dispatcher_spec(),
            final(self).is_finished() == old(self).is_finished(),
            final(self).has_buffered() == old(self).has_buffered(),
            final(self).buffered_bytes() == old(self).buffered_bytes(),
            final(self).written() == old(self).written(),
            final(self).stream_flushes() == old(self).stream_flushes(),
            final(self).capacity() == old(self).capacity(),
            old(self).wf() ==> final(self).wf(),
    {
        &mut self.parser
    }

    /// The dispatcher that the stream drives.
    pub fn dispatcher(&self) -> (r: &D)
        ensures
            *r == self.dispatcher_spec(),
    {
        &self.dispatcher
    }
}

/// A copy of the last `count` bytes of `data`.
fn slice_tail(data: &[u8], count: usize) -> (r: Vec<u8>)
    requires
        count <= data@.len(),
    ensures
        r@ == data@.subrange(data@.len() - count, data@.len() as int),
{
    let from = data.len() - count;
    let mut r: Vec<u8> = Vec::new();
    let mut i: usize = from;
    while i < data.len()
        invariant
            from <= i <= data@.len(),
            r@ == data@.subrange(from as int, i as int),
        decreases data@.len() - i,
    {
        r.push(data[i]);
        proof {
            assert(data@.subrange(from as int, i + 1) == data@.subrange(from as int, i as int).push(data@[i as int]));
        }
        i = i + 1;
    }
    r
}

/// A copy of `data`.
fn copy_bytes(data: &[u8]) -> (r: Vec<u8>)
    ensures
        r@ == data@,
{
    let r = slice_tail(data, data.len());
    proof {
        assert(data@.subrange(0, data@.len() as int) == data@);
    }
    r
}

/// `a` followed by `b`, in a new vector.
fn concat_bytes(a: &[u8], b: &[u8]) -> (r: Vec<u8>)
    ensures
        r@ == a@ + b@,
{
    let mut r = copy_bytes(a);
    let mut i: usize = 0;
    while i < b.len()
        invariant
            i <= b@.len(),
            r@ == a@ + b@.subrange(0, i as int),
        decreases b@.len() - i,
    {
        r.push(b[i]);
        proof {
            assert(a@ + b@.subrange(0, i + 1) =~= (a@ + b@.subrange(0, i as int)).push(b@[i as int]));
        }
        i = i + 1;
    }
    proof {
        assert(b@.subrange(0, b@.len() as int) =~= b@);
    }
    r
}

/// After every successful write, the bytes the dispatcher was asked to emit
/// followed by the bytes carried over are exactly the bytes written so far,
/// in order: no byte is lost, repeated or reordered, wherever the writes
/// split the input.
pub proof fn lemma_reassembly<T: Tokenizer, D: Dispatcher>(s: TransformStream<T, D>)
    requires
        s.wf(),
    ensures
        resolved_bytes(s.stream_flushes()) + s.carried() == s.written(),
{
}

} // verus!
