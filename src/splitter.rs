use vstd::prelude::*;

use crate::delimiter::{as_offsets, find_first, leftmost_match, Delimiter};

verus! {

/// The buffer size that `RegexSplitter::new` starts with.
pub const DEFAULT_CAPACITY: usize = 65536;

/// The bytes of `pieces`, one piece after another.
pub open spec fn concat(pieces: Seq<Seq<u8>>) -> Seq<u8>
    decreases pieces.len(),
{
    if pieces.len() == 0 {
        Seq::empty()
    } else {
        concat(pieces.drop_last()) + pieces.last()
    }
}

/// Where a window of `len` unconsumed bytes is cut, given the first delimiter
/// match `found` in it, as `(record_len, consumed_len)`: the record is
/// `w[0..record_len]` and the delimiter `w[record_len..consumed_len]`.
/// `None` while the window cannot be cut yet: no match was found, or the match
/// reaches the end of the window, and the source may still add bytes.
pub open spec fn cut_from(found: Option<(int, int)>, len: int, exhausted: bool) -> Option<(int, int)> {
    match found {
        Some((a, b)) => if b >= len && !exhausted {
            None
        } else {
            Some((a, b))
        },
        None => if exhausted {
            Some((len, len))
        } else {
            None
        },
    }
}

/// Where the window `w` is cut, with the delimiter `pattern`.
pub open spec fn cut(pattern: Seq<char>, w: Seq<u8>, exhausted: bool) -> Option<(int, int)> {
    cut_from(leftmost_match(pattern, w), w.len() as int, exhausted)
}

/// Decides where a window of `len` bytes is cut, given the first delimiter
/// match `found` in it and whether the source is exhausted.
pub fn cut_window(found: Option<(usize, usize)>, len: usize, exhausted: bool) -> (r: Option<(usize, usize)>)
    requires
        found matches Some((a, b)) ==> a <= b <= len,
    ensures
        as_offsets(r) == cut_from(as_offsets(found), len as int, exhausted),
        r matches Some((a, b)) ==> a <= b <= len,
{
    match found {
        Some((a, b)) => if b == len && !exhausted {
            None
        } else {
            Some((a, b))
        },
        None => if exhausted {
            Some((len, len))
        } else {
            None
        },
    }
}

/// A pattern whose matches that stop short of the end of a haystack stay the
/// first match when bytes are appended to the haystack (as with `\s+`).
pub open spec fn settled(pattern: Seq<char>) -> bool {
    forall|w: Seq<u8>, x: Seq<u8>|
        #![trigger leftmost_match(pattern, w), leftmost_match(pattern, w + x)]
        match leftmost_match(pattern, w) {
            Some((a, b)) => b < w.len() ==> leftmost_match(pattern, w + x) == Some((a, b)),
            None => true,
        }
}

/// The capacity that a full buffer grows to.
pub open spec fn grown(capacity: nat) -> nat {
    if capacity == 0 {
        1
    } else if capacity <= usize::MAX / 2 {
        2 * capacity
    } else {
        usize::MAX as nat
    }
}

/// Overwrites `buf[at..at + data.len()]` with `data`.
fn copy_into(buf: &mut Vec<u8>, at: usize, data: &[u8])
    requires
        at + data@.len() <= old(buf).len(),
    ensures
        final(buf)@ == old(buf)@.subrange(0, at as int) + data@ + old(buf)@.subrange(
            at + data@.len(),
            old(buf)@.len() as int,
        ),
{
    let n = data.len();
    let mut i: usize = 0;
    while i < n
        invariant
            i <= n,
            n == data@.len(),
            at + n <= buf.len(),
            buf@.len() == old(buf)@.len(),
            forall|k: int| 0 <= k < at ==> buf@[k] == old(buf)@[k],
            forall|k: int| at + n <= k < buf@.len() ==> buf@[k] == old(buf)@[k],
            forall|k: int| 0 <= k < i ==> buf@[at + k] == data@[k],
        decreases n - i,
    {
        buf.set(at + i, data[i]);
        i = i + 1;
    }
    assert(buf@ =~= old(buf)@.subrange(0, at as int) + data@ + old(buf)@.subrange(
        at + data@.len(),
        old(buf)@.len() as int,
    ));
}

/// With a settled pattern, a cut decided on a window is the cut of the whole
/// rest of the stream that the window begins: the records depend on the
/// pattern and the stream alone, not on how many bytes were read at a time
/// nor on the capacity of the buffer.
pub proof fn lemma_cut_ignores_chunking(pattern: Seq<char>, w: Seq<u8>, rest: Seq<u8>, exhausted: bool)
    requires
        settled(pattern),
        w.is_prefix_of(rest),
        exhausted ==> rest == w,
        cut(pattern, w, exhausted) is Some,
    ensures
        cut(pattern, w, exhausted) == cut(pattern, rest, true),
{
    if !exhausted {
        let x = rest.subrange(w.len() as int, rest.len() as int);
        assert(rest =~= w + x);
        match leftmost_match(pattern, w) {
            Some((a, b)) => {
                assert(b < w.len());
                assert(leftmost_match(pattern, w + x) == Some((a, b)));
            },
            None => {},
        }
    }
}

/// What `RegexSplitter::advance` found.
#[derive(Debug, Clone, Copy, PartialEq, Eq, Structural)]
pub enum Step {
    /// A record was cut; `RegexSplitter::record` holds its bytes.
    Record,
    /// Every byte was consumed and the source is exhausted.
    End,
    /// The window cannot be cut yet: read from the source and `supply` the bytes.
    NeedInput,
}

/// Splits the bytes that a source supplies into records separated by the
/// matches of a delimiter.
///
/// The splitter does not read: its caller reads from the source into
/// `make_room()` bytes, hands them to `supply`, and calls `advance`, until
/// `advance` yields a record or the end.
pub struct RegexSplitter<'b> {
    delimiter: &'b Delimiter,
    buffer: Vec<u8>,
    start: usize,
    end: usize,
    eof: bool,
    record_start: usize,
    record_end: usize,
    match_end: usize,
    received: Ghost<Seq<u8>>,
    pieces: Ghost<Seq<Seq<u8>>>,
}

impl<'b> RegexSplitter<'b> {
    /// The delimiter's pattern.
    pub closed spec fn pattern(&self) -> Seq<char> {
        self.delimiter@
    }

    /// The size of the buffer.
    pub closed spec fn capacity(&self) -> nat {
        self.buffer@.len()
    }

    /// The bytes received and not yet consumed.
    pub closed spec fn window(&self) -> Seq<u8> {
        self.buffer@.subrange(self.start as int, self.end as int)
    }

    /// How many bytes the buffer can take after the window.
    pub closed spec fn room(&self) -> int {
        self.buffer.len() - self.end
    }

    /// Whether the source reported that it has no more bytes.
    pub closed spec fn exhausted(&self) -> bool {
        self.eof
    }

    /// Every byte supplied so far, in order.
    pub closed spec fn received(&self) -> Seq<u8> {
        self.received@
    }

    /// The records and delimiter matches cut so far, alternating, in order.
    pub closed spec fn pieces(&self) -> Seq<Seq<u8>> {
        self.pieces@
    }

    /// The bytes of the last record cut.
    pub closed spec fn record_bytes(&self) -> Seq<u8> {
        self.buffer@.subrange(self.record_start as int, self.record_end as int)
    }

    /// The bytes of the delimiter match that followed the last record cut
    /// (empty for a record that ends the stream).
    pub closed spec fn match_bytes(&self) -> Seq<u8> {
        self.buffer@.subrange(self.record_end as int, self.match_end as int)
    }

    /// No bytes are left and the source is exhausted.
    pub open spec fn finished(&self) -> bool {
        self.window().len() == 0 && self.exhausted()
    }

    /// The cursors lie in the buffer, and the bytes consumed followed by the
    /// window are the bytes received.
    pub closed spec fn wf(&self) -> bool {
        &&& self.start <= self.end <= self.buffer.len()
        &&& self.record_start <= self.record_end <= self.match_end <= self.buffer@.len()
        &&& concat(self.pieces@) + self.window() == self.received@
    }

    /// A splitter with a buffer of `DEFAULT_CAPACITY` bytes.
    pub fn new(delimiter: &'b Delimiter) -> (r: Self)
        ensures
            r.wf(),
            r.pattern() == delimiter@,
            r.capacity() == DEFAULT_CAPACITY,
            r.room() == DEFAULT_CAPACITY,
            r.window().len() == 0,
            !r.exhausted(),
            r.received().len() == 0,
            r.pieces().len() == 0,
    {
        Self::with_capacity(delimiter, DEFAULT_CAPACITY)
    }

    /// A splitter with a zero-filled buffer of `capacity` bytes; a capacity of
    /// zero grows to one byte on the first `make_room`.
    pub fn with_capacity(delimiter: &'b Delimiter, capacity: usize) -> (r: Self)
        ensures
            r.wf(),
            r.pattern() == delimiter@,
            r.capacity() == capacity,
            r.room() == capacity,
            r.window().len() == 0,
            !r.exhausted(),
            r.received().len() == 0,
            r.pieces().len() == 0,
    {
        let r = RegexSplitter {
            delimiter,
            buffer: vec![0u8; capacity],
            start: 0,
            end: 0,
            eof: false,
            record_start: 0,
            record_end: 0,
            match_end: 0,
            received: Ghost(Seq::empty()),
            pieces: Ghost(Seq::empty()),
        };
        assert(concat(r.pieces@) + r.window() =~= r.received@);
        r
    }

    /// The first half of a top-up: makes room after the window and returns
    /// how many bytes the caller may read from the source and `supply`.
    /// A full buffer whose window is empty is reused from its start; a full
    /// buffer that still holds unconsumed bytes grows (doubles), keeping them.
    pub fn make_room(&mut self) -> (room: usize)
        requires
            old(self).wf(),
        ensures
            final(self).wf(),
            room == final(self).room(),
            final(self).window() == old(self).window(),
            final(self).received() == old(self).received(),
            final(self).pieces() == old(self).pieces(),
            final(self).exhausted() == old(self).exhausted(),
            final(self).pattern() == old(self).pattern(),
            final(self).capacity() == if old(self).room() > 0 || (old(self).window().len() == 0
                && old(self).capacity() > 0) {
                old(self).capacity()
            } else {
                grown(old(self).capacity())
            },
            old(self).room() == 0 && old(self).window().len() == 0 && old(self).capacity() > 0
                ==> room == old(self).capacity(),
            old(self).room() > 0 ==> room == old(self).room(),
            old(self).room() == 0 && !(old(self).window().len() == 0 && old(self).capacity() > 0)
                ==> room == grown(old(self).capacity()) - old(self).capacity(),
            old(self).capacity() < usize::MAX ==> room > 0,
            old(self).finished() ==> final(self).finished(),
    {
        let cap = self.buffer.len();
        if self.end == cap {
            if self.start == self.end && cap > 0 {
                self.start = 0;
                self.end = 0;
            } else {
                let new_cap: usize = if cap == 0 {
                    1
                } else if cap <= usize::MAX / 2 {
                    2 * cap
                } else {
                    usize::MAX
                };
                let ghost before = self.buffer@;
                self.buffer.resize(new_cap, 0u8);
                assert(self.buffer@.subrange(self.start as int, self.end as int)
                    =~= before.subrange(self.start as int, self.end as int));
            }
        }
        proof {
            assert(self.window() =~= old(self).window());
        }
        self.buffer.len() - self.end
    }

    /// The second half of a top-up: appends the bytes that one read from the
    /// source returned. Zero bytes mean that the source is exhausted.
    pub fn supply(&mut self, data: &[u8])
        requires
            old(self).wf(),
            data@.len() <= old(self).room(),
            old(self).exhausted() ==> data@.len() == 0,
        ensures
            final(self).wf(),
            final(self).window() == old(self).window() + data@,
            final(self).received() == old(self).received() + data@,
            final(self).pieces() == old(self).pieces(),
            final(self).exhausted() == (old(self).exhausted() || data@.len() == 0),
            old(self).finished() ==> final(self).finished(),
            final(self).capacity() == old(self).capacity(),
            final(self).pattern() == old(self).pattern(),
    {
        let n = data.len();
        let base = self.end;
        copy_into(&mut self.buffer, base, data);
        self.end = base + n;
        if n == 0 {
            self.eof = true;
        }
        self.received = Ghost(self.received@ + data@);
        proof {
            assert(self.window() =~= old(self).window() + data@);
            assert(concat(self.pieces@) + self.window() =~= self.received@);
        }
    }

    /// Whether the source reported that it has no more bytes.
    pub fn is_exhausted(&self) -> (r: bool)
        ensures
            r == self.exhausted(),
    {
        self.eof
    }

    /// The bytes of the delimiter match that followed the last record that
    /// `advance` cut. They stay valid until the next `supply`.
    pub fn delimiter_match(&self) -> (r: &[u8])
        requires
            self.wf(),
        ensures
            r@ == self.match_bytes(),
    {
        vstd::slice::slice_subrange(self.buffer.as_slice(), self.record_end, self.match_end)
    }

    /// The bytes of the last record that `advance` cut. They stay valid
    /// until the next `supply`.
    pub fn record(&self) -> (r: &[u8])
        requires
            self.wf(),
        ensures
            r@ == self.record_bytes(),
    {
        vstd::slice::slice_subrange(self.buffer.as_slice(), self.record_start, self.record_end)
    }

    /// Decides on the current window. It ends the sequence when the window is
    /// empty and the source exhausted; else it cuts a record where `cut` says,
    /// consuming the record and the delimiter match after it; else it asks
    /// for more input. A match that reaches the end of the window is acted on
    /// only once the source is exhausted, as more bytes could extend it.
    pub fn advance(&mut self) -> (r: Step)
        requires
            old(self).wf(),
        ensures
            final(self).wf(),
            final(self).received() == old(self).received(),
            final(self).exhausted() == old(self).exhausted(),
            final(self).capacity() == old(self).capacity(),
            final(self).pattern() == old(self).pattern(),
            r == Step::End <==> old(self).finished(),
            r != Step::Record ==> *final(self) == *old(self),
            !old(self).finished() ==> match cut(
                old(self).pattern(),
                old(self).window(),
                old(self).exhausted(),
            ) {
                None => r == Step::NeedInput,
                Some((a, b)) => {
                    let w = old(self).window();
                    &&& r == Step::Record
                    &&& 0 <= a <= b <= w.len()
                    &&& final(self).record_bytes() == w.subrange(0, a)
                    &&& final(self).match_bytes() == w.subrange(a, b)
                    &&& final(self).window() == w.subrange(b, w.len() as int)
                    &&& final(self).pieces() == old(self).pieces().push(w.subrange(0, a)).push(
                        w.subrange(a, b),
                    )
                },
            },
    {
        if self.start == self.end && self.eof {
            return Step::End;
        }
        let ghost w = self.window();
        let section = vstd::slice::slice_subrange(self.buffer.as_slice(), self.start, self.end);
        match cut_window(find_first(self.delimiter, section), self.end - self.start, self.eof) {
            None => Step::NeedInput,
            Some((a, b)) => {
                self.record_start = self.start;
                self.record_end = self.start + a;
                self.match_end = self.start + b;
                self.start = self.start + b;
                self.pieces = Ghost(
                    self.pieces@.push(w.subrange(0, a as int)).push(w.subrange(a as int, b as int)),
                );
                proof {
                    assert(self.window() =~= w.subrange(b as int, w.len() as int));
                    self.lemma_cut_keeps_stream(old(self).pieces@, w, a as int, b as int);
                }
                Step::Record
            },
        }
    }

    /// After a cut at `(a, b)` of the old window `w`, the pieces and the new
    /// window still spell out the bytes received.
    proof fn lemma_cut_keeps_stream(&self, before: Seq<Seq<u8>>, w: Seq<u8>, a: int, b: int)
        requires
            0 <= a <= b <= w.len(),
            self.window() == w.subrange(b, w.len() as int),
            self.pieces@ == before.push(w.subrange(0, a)).push(w.subrange(a, b)),
            concat(before) + w == self.received@,
        ensures
            concat(self.pieces@) + self.window() == self.received@,
    {
        let p = self.pieces@;
        assert(p.drop_last() =~= before.push(w.subrange(0, a)));
        assert(p.drop_last().drop_last() =~= before);
        assert(concat(p) == concat(p.drop_last()) + p.last());
        assert(concat(p.drop_last()) == concat(before) + w.subrange(0, a));
        assert(w =~= w.subrange(0, a) + w.subrange(a, b) + w.subrange(b, w.len() as int));
        assert(concat(p) + self.window() =~= concat(before) + w);
    }

    /// Once the splitter has finished, the records and the delimiter matches
    /// that it cut, in order, spell out every byte that the source supplied.
    pub proof fn lemma_pieces_rebuild_stream(&self)
        requires
            self.wf(),
            self.finished(),
        ensures
            concat(self.pieces()) == self.received(),
    {
        assert(concat(self.pieces@) + self.window() =~= concat(self.pieces@));
    }

    /// With a settled pattern, wherever the splitter cuts, it cuts as the
    /// whole stream dictates: for every stream that continues the bytes
    /// received (and is them, once the source is exhausted), the cut of the
    /// window is the cut of the stream's unconsumed rest. So the records and
    /// the delimiter matches are the same for every capacity.
    pub proof fn lemma_cut_fixed_by_stream(&self, stream: Seq<u8>)
        requires
            self.wf(),
            settled(self.pattern()),
            self.received().is_prefix_of(stream),
            self.exhausted() ==> stream == self.received(),
            cut(self.pattern(), self.window(), self.exhausted()) is Some,
        ensures
            cut(self.pattern(), self.window(), self.exhausted()) == cut(
                self.pattern(),
                stream.subrange(concat(self.pieces()).len() as int, stream.len() as int),
                true,
            ),
    {
        let done = concat(self.pieces@).len() as int;
        let rest = stream.subrange(done, stream.len() as int);
        assert(self.window().is_prefix_of(rest)) by {
            assert forall|i: int| 0 <= i < self.window().len() implies self.window()[i] == rest[i] by {
                assert(self.received@[done + i] == self.window()[i]);
            }
        }
        assert(self.exhausted() ==> rest =~= self.window());
        lemma_cut_ignores_chunking(self.pattern(), self.window(), rest, self.exhausted());
    }
}

} // verus!
