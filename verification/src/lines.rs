//! Cutting a stream of bytes into lines.
//!
//! A line is complete once its terminating newline has been seen. The bytes
//! after the last newline are a fragment: they are kept, and become the start
//! of the first line of the next read.
use vstd::prelude::*;

verus! {

/// The byte that ends a line.
pub const NEWLINE: u8 = 10;

/// The byte that may precede the newline and is dropped with it.
pub const CARRIAGE_RETURN: u8 = 13;

/// A line as it is reported: without the carriage return that stood before
/// its newline, if there was one.
pub open spec fn strip_cr(line: Seq<u8>) -> Seq<u8> {
    if line.len() > 0 && line.last() == CARRIAGE_RETURN {
        line.drop_last()
    } else {
        line
    }
}

/// The bytes after the last newline of `bytes`: all of `bytes` if it holds no
/// newline.
pub open spec fn trailing_fragment(bytes: Seq<u8>) -> Seq<u8>
    decreases bytes.len(),
{
    if bytes.len() == 0 || bytes.last() == NEWLINE {
        Seq::empty()
    } else {
        trailing_fragment(bytes.drop_last()).push(bytes.last())
    }
}

/// The newline-terminated lines of `bytes`, in order, each without its
/// terminator. What follows the last newline is no line.
pub open spec fn complete_lines(bytes: Seq<u8>) -> Seq<Seq<u8>>
    decreases bytes.len(),
{
    if bytes.len() == 0 {
        Seq::empty()
    } else if bytes.last() == NEWLINE {
        complete_lines(bytes.drop_last()).push(strip_cr(trailing_fragment(bytes.drop_last())))
    } else {
        complete_lines(bytes.drop_last())
    }
}

/// What an accumulator that started empty holds after it was fed `chunks`
/// one after the other.
pub open spec fn fragment_after(chunks: Seq<Seq<u8>>) -> Seq<u8>
    decreases chunks.len(),
{
    if chunks.len() == 0 {
        Seq::empty()
    } else {
        trailing_fragment(fragment_after(chunks.drop_last()) + chunks.last())
    }
}

/// The lines that an accumulator that started empty has handed out, feed
/// after feed, when it was fed `chunks` one after the other.
pub open spec fn lines_emitted(chunks: Seq<Seq<u8>>) -> Seq<Seq<u8>>
    decreases chunks.len(),
{
    if chunks.len() == 0 {
        Seq::empty()
    } else {
        lines_emitted(chunks.drop_last()) + complete_lines(
            fragment_after(chunks.drop_last()) + chunks.last(),
        )
    }
}

/// `lines` written out one after the other, each followed by a newline.
pub open spec fn terminated(lines: Seq<Seq<u8>>) -> Seq<u8>
    decreases lines.len(),
{
    if lines.len() == 0 {
        Seq::empty()
    } else {
        terminated(lines.drop_last()) + lines.last().push(NEWLINE)
    }
}

/// `lines` as they are reported: each without the carriage return at its
/// end, if it has one.
pub open spec fn stripped(lines: Seq<Seq<u8>>) -> Seq<Seq<u8>> {
    lines.map_values(|line: Seq<u8>| strip_cr(line))
}

/// Bytes without a newline are all fragment and no line.
pub proof fn lemma_no_newline(bytes: Seq<u8>)
    requires
        !bytes.contains(NEWLINE),
    ensures
        trailing_fragment(bytes) == bytes,
        complete_lines(bytes) == Seq::<Seq<u8>>::empty(),
    decreases bytes.len(),
{
    if bytes.len() > 0 {
        let front = bytes.drop_last();
        assert(bytes[bytes.len() - 1] == bytes.last());
        assert forall|i: int| 0 <= i < front.len() implies front[i] != NEWLINE by {
            assert(front[i] == bytes[i]);
        }
        lemma_no_newline(front);
        assert(front.push(bytes.last()) =~= bytes);
    }
}

/// The fragment is the longest newline-free tail of the bytes: it is a
/// suffix, it holds no newline, and it is either everything or preceded by
/// a newline.
pub proof fn lemma_fragment_is_tail(bytes: Seq<u8>)
    ensures
        trailing_fragment(bytes).len() <= bytes.len(),
        trailing_fragment(bytes) == bytes.subrange(
            bytes.len() - trailing_fragment(bytes).len(),
            bytes.len() as int,
        ),
        !trailing_fragment(bytes).contains(NEWLINE),
        trailing_fragment(bytes).len() < bytes.len() ==> bytes[bytes.len()
            - trailing_fragment(bytes).len() - 1] == NEWLINE,
    decreases bytes.len(),
{
    let frag = trailing_fragment(bytes);
    if bytes.len() == 0 || bytes.last() == NEWLINE {
        assert(frag =~= bytes.subrange(bytes.len() as int, bytes.len() as int));
    } else {
        let front = bytes.drop_last();
        lemma_fragment_is_tail(front);
        let inner = trailing_fragment(front);
        assert(frag =~= bytes.subrange(bytes.len() - frag.len(), bytes.len() as int));
        assert forall|i: int| 0 <= i < frag.len() implies frag[i] != NEWLINE by {
            if i < inner.len() {
                assert(inner.contains(inner[i]));
            }
        }
    }
}

/// No reported line holds a newline, and there are as many lines as the
/// bytes hold newlines.
pub proof fn lemma_lines_are_newline_free(bytes: Seq<u8>)
    ensures
        forall|k: int|
            0 <= k < complete_lines(bytes).len() ==> !(#[trigger] complete_lines(bytes)[k]).contains(
                NEWLINE,
            ),
        complete_lines(bytes).len() == bytes.filter(|b: u8| b == NEWLINE).len(),
    decreases bytes.len(),
{
    let is_newline = |b: u8| b == NEWLINE;
    if bytes.len() == 0 {
        assert(bytes.filter(is_newline) =~= Seq::<u8>::empty()) by {
            reveal(Seq::filter);
        }
    } else {
        let front = bytes.drop_last();
        lemma_lines_are_newline_free(front);
        lemma_fragment_is_tail(front);
        assert(bytes.filter(is_newline) == if is_newline(bytes.last()) {
            front.filter(is_newline).push(bytes.last())
        } else {
            front.filter(is_newline)
        }) by {
            reveal(Seq::filter);
        }
        if bytes.last() == NEWLINE {
            let raw = trailing_fragment(front);
            let line = strip_cr(raw);
            assert forall|i: int| 0 <= i < line.len() implies line[i] != NEWLINE by {
                assert(raw[i] == line[i]);
                assert(raw.contains(raw[i]));
            }
        }
    }
}

/// One more byte after `bytes`: a newline completes the fragment as a line,
/// any other byte lengthens the fragment.
pub proof fn lemma_push_byte(bytes: Seq<u8>, b: u8)
    ensures
        b == NEWLINE ==> complete_lines(bytes.push(b)) == complete_lines(bytes).push(
            strip_cr(trailing_fragment(bytes)),
        ) && trailing_fragment(bytes.push(b)) == Seq::<u8>::empty(),
        b != NEWLINE ==> complete_lines(bytes.push(b)) == complete_lines(bytes)
            && trailing_fragment(bytes.push(b)) == trailing_fragment(bytes).push(b),
{
    assert(bytes.push(b).drop_last() =~= bytes);
    assert(bytes.push(b).last() == b);
}

/// Feeding in two parts gives what feeding at once gives: the lines of
/// `first + second` are the lines of `first`, then the lines of what
/// `first` left behind followed by `second`; and the same fragment remains.
pub proof fn lemma_feed_in_two(first: Seq<u8>, second: Seq<u8>)
    ensures
        complete_lines(first + second) == complete_lines(first) + complete_lines(
            trailing_fragment(first) + second,
        ),
        trailing_fragment(first + second) == trailing_fragment(trailing_fragment(first) + second),
    decreases second.len(),
{
    let kept = trailing_fragment(first);
    if second.len() == 0 {
        assert(first + second =~= first);
        assert(kept + second =~= kept);
        lemma_fragment_is_tail(first);
        lemma_no_newline(kept);
        assert(complete_lines(first) + Seq::<Seq<u8>>::empty() =~= complete_lines(first));
    } else {
        let front = second.drop_last();
        let b = second.last();
        lemma_feed_in_two(first, front);
        assert(first + second =~= (first + front).push(b));
        assert(kept + second =~= (kept + front).push(b));
        lemma_push_byte(first + front, b);
        lemma_push_byte(kept + front, b);
        if b == NEWLINE {
            let line = strip_cr(trailing_fragment(kept + front));
            assert((complete_lines(first) + complete_lines(kept + front)).push(line)
                =~= complete_lines(first) + complete_lines(kept + front).push(line));
        }
    }
}

/// However a byte stream is cut into chunks, the lines handed out over all
/// the feeds are the lines of the whole stream, in the same order, and what
/// the accumulator holds at the end is the stream's unterminated rest.
pub proof fn lemma_chunking_is_invisible(chunks: Seq<Seq<u8>>)
    ensures
        lines_emitted(chunks) == complete_lines(chunks.flatten()),
        fragment_after(chunks) == trailing_fragment(chunks.flatten()),
    decreases chunks.len(),
{
    if chunks.len() == 0 {
        assert(chunks.flatten() =~= Seq::<u8>::empty());
    } else {
        let front = chunks.drop_last();
        lemma_chunking_is_invisible(front);
        front.lemma_flatten_push(chunks.last());
        assert(front.push(chunks.last()) =~= chunks);
        lemma_feed_in_two(front.flatten(), chunks.last());
    }
}

/// Lines written out with their newlines are read back as they were
/// written, but for a carriage return at the end of a line, and nothing is
/// left over.
pub proof fn lemma_written_lines_read_back(lines: Seq<Seq<u8>>)
    requires
        forall|k: int| 0 <= k < lines.len() ==> !(#[trigger] lines[k]).contains(NEWLINE),
    ensures
        complete_lines(terminated(lines)) == stripped(lines),
        trailing_fragment(terminated(lines)) == Seq::<u8>::empty(),
    decreases lines.len(),
{
    if lines.len() == 0 {
        assert(stripped(lines) =~= Seq::<Seq<u8>>::empty());
    } else {
        let front = lines.drop_last();
        let line = lines.last();
        assert(!lines[lines.len() - 1].contains(NEWLINE));
        assert forall|k: int| 0 <= k < front.len() implies !(#[trigger] front[k]).contains(
            NEWLINE,
        ) by {
            assert(front[k] == lines[k]);
        }
        lemma_written_lines_read_back(front);
        lemma_feed_in_two(terminated(front), line.push(NEWLINE));
        assert(Seq::<u8>::empty() + line.push(NEWLINE) =~= line.push(NEWLINE));
        lemma_push_byte(line, NEWLINE);
        lemma_no_newline(line);
        assert(stripped(front) + Seq::<Seq<u8>>::empty().push(strip_cr(line)) =~= stripped(lines));
    }
}

/// Buffers the bytes read from a file and hands out its complete lines.
///
/// Its view is the fragment it holds: the bytes it was fed after the last
/// newline. The fragment never holds a newline.
pub struct LineAccumulator {
    pending: Vec<u8>,
}

impl View for LineAccumulator {
    type V = Seq<u8>;

    closed spec fn view(&self) -> Seq<u8> {
        self.pending@
    }
}

impl LineAccumulator {
    #[verifier::type_invariant]
    spec fn newline_free(self) -> bool {
        !self.pending@.contains(NEWLINE)
    }

    /// An accumulator that holds nothing.
    pub fn new() -> (acc: LineAccumulator)
        ensures
            acc@ == Seq::<u8>::empty(),
    {
        LineAccumulator { pending: Vec::new() }
    }

    /// Takes the bytes of one read. Returns the lines that these bytes
    /// complete, in order and without their terminators, and keeps what
    /// follows the last newline. An empty chunk changes nothing.
    pub fn feed(&mut self, chunk: &[u8]) -> (lines: Vec<Vec<u8>>)
        ensures
            lines.deep_view() == complete_lines(old(self)@ + chunk@),
            final(self)@ == trailing_fragment(old(self)@ + chunk@),
            !final(self)@.contains(NEWLINE),
            !chunk@.contains(NEWLINE) ==> lines@.len() == 0 && final(self)@ == old(self)@ + chunk@,
            chunk@.len() == 0 ==> final(self)@ == old(self)@,
    {
        proof {
            use_type_invariant(&*self);
            lemma_no_newline(self.pending@);
            lemma_fragment_is_tail(self.pending@ + chunk@);
        }
        let ghost start = self.pending@;
        let mut lines: Vec<Vec<u8>> = Vec::new();
        let mut line: Vec<u8> = Vec::new();
        std::mem::swap(&mut line, &mut self.pending);
        assert(start + chunk@.take(0) =~= start);
        let mut i: usize = 0;
        while i < chunk.len()
            invariant
                i <= chunk.len(),
                self.pending@.len() == 0,
                line@ == trailing_fragment(start + chunk@.take(i as int)),
                lines.deep_view() == complete_lines(start + chunk@.take(i as int)),
            decreases chunk.len() - i,
        {
            let b: u8 = chunk[i];
            proof {
                assert(chunk@.take(i + 1) =~= chunk@.take(i as int).push(b));
                assert(start + chunk@.take(i + 1) =~= (start + chunk@.take(i as int)).push(b));
                lemma_push_byte(start + chunk@.take(i as int), b);
            }
            if b == NEWLINE {
                let mut done: Vec<u8> = Vec::new();
                std::mem::swap(&mut done, &mut line);
                let n: usize = done.len();
                if n > 0 && done[n - 1] == CARRIAGE_RETURN {
                    done.pop();
                }
                assert(done@ =~= strip_cr(trailing_fragment(start + chunk@.take(i as int))));
                let ghost before = lines.deep_view();
                lines.push(done);
                assert(lines.deep_view() =~~= before.push(done@));
            } else {
                line.push(b);
            }
            i += 1;
        }
        assert(chunk@.take(i as int) =~= chunk@);
        self.pending = line;
        proof {
            if !chunk@.contains(NEWLINE) {
                assert forall|k: int| 0 <= k < (start + chunk@).len() implies (start + chunk@)[k]
                    != NEWLINE by {
                    if k < start.len() {
                        assert(start.contains(start[k]));
                    } else {
                        assert(chunk@.contains(chunk@[k - start.len()]));
                    }
                }
                lemma_no_newline(start + chunk@);
            }
            if chunk@.len() == 0 {
                assert(start + chunk@ =~= start);
            }
        }
        lines
    }

    /// The bytes held back: what was fed after the last newline.
    pub fn pending(&self) -> (bytes: &[u8])
        ensures
            bytes@ == self@,
            !self@.contains(NEWLINE),
    {
        proof {
            use_type_invariant(self);
        }
        self.pending.as_slice()
    }
}

} // verus!
