//! Incremental framing of one request off a byte stream.
//!
//! A request is framed as a request line terminated by `CR LF`, a run of
//! header lines each terminated by `CR LF`, and a blank line: the stream of
//! one request ends at the first occurrence of `CR LF CR LF`. The parser
//! consumes one byte per step, so a caller can feed it from a socket read
//! loop and suspend between bytes.

use vstd::prelude::*;

verus! {

/// Carriage return, the first byte of the line terminator.
pub const CR: u8 = 13;
/// Line feed, the second byte of the line terminator.
pub const LF: u8 = 10;

/// Why framing a request failed.
#[derive(Clone, Copy, Debug, PartialEq, Eq, Structural)]
pub enum FramingError {
    /// The stream ended before the blank-line terminator was seen.
    Truncated,
    /// The underlying transport failed mid-read.
    Io,
    /// A per-read deadline elapsed before the next byte arrived.
    Timeout,
}

/// A `CR LF` pair ends at position `i` of `s`.
pub open spec fn crlf_at(s: Seq<u8>, i: int) -> bool {
    &&& 2 <= i <= s.len()
    &&& s[i - 2] == CR
    &&& s[i - 1] == LF
}

/// The blank-line terminator `CR LF CR LF` ends at position `i` of `s`.
pub open spec fn terminator_at(s: Seq<u8>, i: int) -> bool {
    &&& 4 <= i <= s.len()
    &&& s[i - 4] == CR
    &&& s[i - 3] == LF
    &&& s[i - 2] == CR
    &&& s[i - 1] == LF
}

/// Some prefix of `s` ends with the blank-line terminator.
pub open spec fn has_terminator(s: Seq<u8>) -> bool {
    exists|i: int| terminator_at(s, i)
}

/// The number of `CR LF` pairs that occur in `s`.
pub open spec fn count_crlf(s: Seq<u8>) -> int
    decreases s.len(),
{
    if s.len() < 2 {
        0
    } else {
        count_crlf(s.drop_last()) + if crlf_at(s, s.len() as int) {
            1int
        } else {
            0int
        }
    }
}

/// The header count of a complete frame: its `CR LF` pairs are the request
/// line's, one per header line, and the blank terminator's, so the lines
/// strictly between the request line and the terminator number two fewer
/// than the pairs.
pub open spec fn spec_header_count(s: Seq<u8>) -> int {
    count_crlf(s) - 2
}

/// `CR LF` pairs never overlap, so each position contributes at most one.
proof fn lemma_count_crlf_le_len(s: Seq<u8>)
    ensures
        0 <= count_crlf(s) <= s.len(),
    decreases s.len(),
{
    if s.len() >= 2 {
        lemma_count_crlf_le_len(s.drop_last());
    }
}

/// Appending one byte adds one `CR LF` pair exactly when the new tail is one.
proof fn lemma_count_crlf_push(s: Seq<u8>, b: u8)
    ensures
        count_crlf(s.push(b)) == count_crlf(s) + if crlf_at(s.push(b), s.len() + 1int) {
            1int
        } else {
            0int
        },
{
    assert(s.push(b).drop_last() =~= s);
}

/// Where the frame ends within the stream.
enum FramePhase {
    /// No `CR LF` seen yet: still inside the request line.
    RequestLine,
    /// The request line is complete; header lines are being read.
    Headers,
    /// The blank-line terminator has been reached.
    Done,
}

/// Incremental scanner that recognises the end of the request line, counts
/// header lines, and stops at the blank-line terminator.
pub struct FramingParser {
    buf: Vec<u8>,
    phase: FramePhase,
    header_lines: usize,
}

impl FramingParser {
    /// Every byte consumed so far, in order.
    pub closed spec fn bytes(self) -> Seq<u8> {
        self.buf@
    }

    /// Whether the blank-line terminator has been reached.
    pub closed spec fn done(self) -> bool {
        self.phase is Done
    }

    /// The number of complete header lines recognised so far.
    pub closed spec fn headers_seen(self) -> int {
        self.header_lines as int
    }

    /// The internal counter always agrees with the `CR LF` pairs of the
    /// consumed bytes, and the scan stops at the first terminator.
    pub closed spec fn wf(self) -> bool {
        &&& match self.phase {
            FramePhase::RequestLine => count_crlf(self.buf@) == 0 && self.header_lines == 0,
            FramePhase::Headers => count_crlf(self.buf@) == self.header_lines + 1,
            FramePhase::Done => count_crlf(self.buf@) == self.header_lines + 2
                && terminator_at(self.buf@, self.buf@.len() as int),
        }
        &&& !(self.phase is Done) ==> (forall|i: int| !terminator_at(self.buf@, i))
        &&& self.phase is Done ==> (forall|i: int|
            i < self.buf@.len() ==> !terminator_at(self.buf@, i))
    }

    /// An empty parser, ready for the first byte of the request line.
    pub fn new() -> (p: FramingParser)
        ensures
            p.wf(),
            p.bytes() == Seq::<u8>::empty(),
            !p.done(),
            p.headers_seen() == 0,
    {
        let p = FramingParser { buf: Vec::new(), phase: FramePhase::RequestLine, header_lines: 0 };
        proof {
            assert(forall|i: int| !terminator_at(p.buf@, i));
        }
        p
    }

    /// Whether the blank-line terminator has been reached.
    pub fn is_done(&self) -> (r: bool)
        ensures
            r == self.done(),
    {
        match self.phase {
            FramePhase::Done => true,
            _ => false,
        }
    }

    /// Consume one byte of the stream. The scan is done exactly when the
    /// bytes consumed so far end with the blank-line terminator, and then the
    /// header tally excludes both the request line and the blank line.
    pub fn push_byte(&mut self, b: u8)
        requires
            old(self).wf(),
            !old(self).done(),
        ensures
            final(self).wf(),
            final(self).bytes() == old(self).bytes().push(b),
            final(self).done() <==> terminator_at(
                final(self).bytes(),
                final(self).bytes().len() as int,
            ),
            final(self).done() ==> final(self).headers_seen() == spec_header_count(
                final(self).bytes(),
            ),
    {
        let ghost s_old = self.buf@;
        proof {
            lemma_count_crlf_push(s_old, b);
            lemma_count_crlf_le_len(s_old);
        }
        self.buf.push(b);
        let len = self.buf.len();
        let tail2 = len >= 2 && self.buf[len - 2] == CR && self.buf[len - 1] == LF;
        let tail4 = len >= 4 && self.buf[len - 4] == CR && self.buf[len - 3] == LF && tail2;
        proof {
            assert(self.buf@ == s_old.push(b));
            assert(tail2 == crlf_at(self.buf@, len as int));
            assert(tail4 == terminator_at(self.buf@, len as int));
            // positions strictly inside the old bytes are unchanged
            assert(forall|i: int|
                i < len ==> (terminator_at(self.buf@, i) == terminator_at(s_old, i)));
        }
        match self.phase {
            FramePhase::RequestLine => {
                if tail2 {
                    self.phase = FramePhase::Headers;
                }
                proof {
                    if tail4 {
                        // a terminator tail would put an earlier pair in a
                        // buffer that holds none
                        assert(crlf_at(s_old, len as int - 2));
                        lemma_crlf_counted(s_old, len as int - 2);
                        assert(false);
                    }
                }
            },
            FramePhase::Headers => {
                if tail4 {
                    self.phase = FramePhase::Done;
                } else if tail2 {
                    self.header_lines = self.header_lines + 1;
                }
            },
            FramePhase::Done => {
                proof {
                    assert(false);
                }
            },
        }
        proof {
            let t = self.buf@;
            let l = t.len() as int;
            assert(forall|i: int| !terminator_at(s_old, i));
            if self.phase is Done {
                assert forall|i: int| i < l implies !terminator_at(t, i) by {
                    assert(terminator_at(t, i) == terminator_at(s_old, i));
                }
            } else {
                assert forall|i: int| !terminator_at(t, i) by {
                    if i < l {
                        assert(terminator_at(t, i) == terminator_at(s_old, i));
                    } else if i == l {
                        assert(!terminator_at(t, l));
                    }
                }
            }
        }
    }

    /// Surrender the framed bytes and the header tally.
    pub fn finish(self) -> (r: (Vec<u8>, usize))
        requires
            self.wf(),
            self.done(),
        ensures
            r.0@ == self.bytes(),
            r.1 as int == self.headers_seen(),
            r.1 as int == spec_header_count(self.bytes()),
    {
        (self.buf, self.header_lines)
    }
}

/// A `CR LF` pair at any position makes the count positive.
proof fn lemma_crlf_counted(s: Seq<u8>, i: int)
    requires
        crlf_at(s, i),
    ensures
        count_crlf(s) >= 1,
    decreases s.len(),
{
    if i == s.len() {
        lemma_count_crlf_le_len(s.drop_last());
    } else {
        assert(crlf_at(s.drop_last(), i));
        lemma_crlf_counted(s.drop_last(), i);
        lemma_count_crlf_le_len(s.drop_last());
    }
}

/// A complete frame always holds at least the request line's `CR LF` and
/// the blank line's, so the header tally is never negative: in particular a
/// request line followed at once by the blank terminator counts zero
/// headers, not a wrapped-around large number.
pub proof fn lemma_frame_counts_two(s: Seq<u8>)
    requires
        terminator_at(s, s.len() as int),
    ensures
        count_crlf(s) >= 2,
        spec_header_count(s) >= 0,
{
    assert(crlf_at(s, s.len() as int));
    assert(crlf_at(s.drop_last(), s.len() - 2));
    lemma_crlf_counted(s.drop_last(), s.len() - 2);
}

/// Frame one request out of `input`, as if `input` were the whole stream:
/// the result is the shortest prefix ending with the blank-line terminator
/// together with its header count, or `Truncated` when no prefix does.
pub fn frame_bytes(input: &Vec<u8>) -> (r: Result<(Vec<u8>, usize), FramingError>)
    ensures
        match r {
            Ok(framed) => {
                &&& 4 <= framed.0@.len() <= input@.len()
                &&& framed.0@ == input@.subrange(0, framed.0@.len() as int)
                &&& terminator_at(input@, framed.0@.len() as int)
                &&& forall|i: int| i < framed.0@.len() ==> !terminator_at(input@, i)
                &&& framed.1 as int == spec_header_count(framed.0@)
            },
            Err(e) => e == FramingError::Truncated && !has_terminator(input@),
        },
{
    let mut p = FramingParser::new();
    let mut j: usize = 0;
    proof {
        assert(p.bytes() =~= input@.subrange(0, 0));
    }
    while j < input.len() && !p.is_done()
        invariant
            p.wf(),
            j <= input.len(),
            p.bytes() == input@.subrange(0, j as int),
            p.done() ==> terminator_at(input@, j as int) && (forall|i: int|
                i < j ==> !terminator_at(input@, i)) && 4 <= j,
            !p.done() ==> (forall|i: int| i <= j ==> !terminator_at(input@, i)),
        decreases input.len() - j,
    {
        let b = input[j];
        p.push_byte(b);
        j = j + 1;
        proof {
            assert(p.bytes() =~= input@.subrange(0, j as int));
            lemma_terminator_prefix(input@, j as int);
            if p.done() {
                assert(terminator_at(input@, j as int));
            }
        }
    }
    if p.is_done() {
        let framed = p.finish();
        Ok(framed)
    } else {
        proof {
            assert(j == input.len());
            assert(forall|i: int| !terminator_at(input@, i));
        }
        Err(FramingError::Truncated)
    }
}

/// Terminator occurrences inside a prefix are occurrences in the whole.
proof fn lemma_terminator_prefix(s: Seq<u8>, j: int)
    requires
        0 <= j <= s.len(),
    ensures
        forall|i: int|
            i <= j ==> (terminator_at(s.subrange(0, j), i) == terminator_at(s, i)),
{
    assert forall|i: int| i <= j implies (terminator_at(s.subrange(0, j), i) == terminator_at(
        s,
        i,
    )) by {
        if 4 <= i {
            assert(s.subrange(0, j).len() == j);
        }
    }
}

} // verus!
