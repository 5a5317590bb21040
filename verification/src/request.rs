//! The parsed request view and its builder.
//!
//! A framed request buffer is parsed into a method, a path, a protocol
//! version and one record per header line. The view never copies the bytes:
//! every field of the view is a byte range into the one buffer the view
//! owns, and the header records live in an array the builder allocates,
//! sized exactly to the header count the framing step reported. Dropping
//! the view releases the buffer and the records together, exactly once,
//! by plain ownership.

use vstd::prelude::*;

verus! {

use crate::framing::CR;
use crate::framing::LF;
use crate::framing::count_crlf;
use crate::framing::crlf_at;
use crate::framing::spec_header_count;
use crate::framing::terminator_at;

/// The space byte, which separates the three parts of the request line.
pub const SP: u8 = 32;
/// The colon byte, which separates a header name from its value.
pub const COLON: u8 = 58;

/// Why building the parsed view from a request buffer failed.
#[derive(Clone, Copy, Debug, PartialEq, Eq, Structural)]
pub enum ParseError {
    /// The request line is missing its terminator or does not consist of
    /// exactly three space-separated parts.
    MalformedRequestLine,
    /// The method part of the request line names no known method.
    UnknownMethod,
    /// The header block does not supply exactly as many well-formed header
    /// lines as slots were requested.
    HeaderCountMismatch,
}

/// The request methods this server understands.
#[derive(Clone, Copy, Debug, PartialEq, Eq, Structural)]
pub enum HttpMethod {
    GET,
    PUT,
    POST,
    DELETE,
    OPTION,
    TRACE,
}

/// ASCII upper-casing of one byte.
pub open spec fn spec_to_upper(c: u8) -> u8 {
    if 97 <= c && c <= 122 {
        (c - 32) as u8
    } else {
        c
    }
}

/// ASCII upper-casing of a byte sequence.
pub open spec fn upper(s: Seq<u8>) -> Seq<u8> {
    s.map_values(|c: u8| spec_to_upper(c))
}

/// The method a byte sequence names, compared without regard to case.
pub open spec fn spec_method_of(s: Seq<u8>) -> Option<HttpMethod> {
    if upper(s) == seq![71u8, 69u8, 84u8] {
        Some(HttpMethod::GET)
    } else if upper(s) == seq![80u8, 85u8, 84u8] {
        Some(HttpMethod::PUT)
    } else if upper(s) == seq![80u8, 79u8, 83u8, 84u8] {
        Some(HttpMethod::POST)
    } else if upper(s) == seq![68u8, 69u8, 76u8, 69u8, 84u8, 69u8] {
        Some(HttpMethod::DELETE)
    } else if upper(s) == seq![79u8, 80u8, 84u8, 73u8, 79u8, 78u8] {
        Some(HttpMethod::OPTION)
    } else if upper(s) == seq![84u8, 82u8, 65u8, 67u8, 69u8] {
        Some(HttpMethod::TRACE)
    } else {
        None
    }
}

/// Upper-casing a sequence touches each byte alone.
proof fn lemma_upper(s: Seq<u8>)
    ensures
        upper(s).len() == s.len(),
        forall|j: int| 0 <= j < s.len() ==> upper(s)[j] == spec_to_upper(s[j]),
{
}

/// ASCII upper-casing of one byte.
fn to_upper_byte(c: u8) -> (r: u8)
    ensures
        r == spec_to_upper(c),
{
    if 97 <= c && c <= 122 {
        c - 32
    } else {
        c
    }
}

impl HttpMethod {
    /// Recognise the method named by `buf[start..end]`, without regard to
    /// case; any other byte sequence is an unknown method.
    #[verifier::loop_isolation(false)]
    pub fn try_from_range(buf: &Vec<u8>, start: usize, end: usize) -> (r: Result<
        HttpMethod,
        ParseError,
    >)
        requires
            start <= end <= buf@.len(),
        ensures
            match r {
                Ok(m) => spec_method_of(buf@.subrange(start as int, end as int)) == Some(m),
                Err(e) => {
                    &&& e == ParseError::UnknownMethod
                    &&& spec_method_of(buf@.subrange(start as int, end as int)) is None
                },
            },
    {
        let ghost sub = buf@.subrange(start as int, end as int);
        proof {
            lemma_upper(sub);
            assert(buf@.subrange(start as int, end as int).len() == end - start);
        }
        let mut u: Vec<u8> = Vec::new();
        proof {
            assert(u@ =~= upper(sub).subrange(0, 0));
        }
        let mut i: usize = start;
        while i < end
            invariant
                start <= i <= end <= buf@.len(),
                u@ == upper(sub).subrange(0, i - start),
            decreases end - i,
        {
            u.push(to_upper_byte(buf[i]));
            i = i + 1;
            proof {
                assert(sub[i - start - 1] == buf@[i - 1]);
                assert(u@ =~= upper(sub).subrange(0, i - start));
            }
        }
        proof {
            assert(u@ =~= upper(sub));
        }
        if u.len() == 3 && u[0] == 71 && u[1] == 69 && u[2] == 84 {
            proof {
                assert(upper(sub) =~= seq![71u8, 69u8, 84u8]);
            }
            Ok(HttpMethod::GET)
        } else if u.len() == 3 && u[0] == 80 && u[1] == 85 && u[2] == 84 {
            proof {
                assert(upper(sub) =~= seq![80u8, 85u8, 84u8]);
            }
            Ok(HttpMethod::PUT)
        } else if u.len() == 4 && u[0] == 80 && u[1] == 79 && u[2] == 83 && u[3] == 84 {
            proof {
                assert(upper(sub) =~= seq![80u8, 79u8, 83u8, 84u8]);
            }
            Ok(HttpMethod::POST)
        } else if u.len() == 6 && u[0] == 68 && u[1] == 69 && u[2] == 76 && u[3] == 69 && u[4] == 84
            && u[5] == 69 {
            proof {
                assert(upper(sub) =~= seq![68u8, 69u8, 76u8, 69u8, 84u8, 69u8]);
            }
            Ok(HttpMethod::DELETE)
        } else if u.len() == 6 && u[0] == 79 && u[1] == 80 && u[2] == 84 && u[3] == 73 && u[4] == 79
            && u[5] == 78 {
            proof {
                assert(upper(sub) =~= seq![79u8, 80u8, 84u8, 73u8, 79u8, 78u8]);
            }
            Ok(HttpMethod::OPTION)
        } else if u.len() == 5 && u[0] == 84 && u[1] == 82 && u[2] == 65 && u[3] == 67 && u[4]
            == 69 {
            proof {
                assert(upper(sub) =~= seq![84u8, 82u8, 65u8, 67u8, 69u8]);
            }
            Ok(HttpMethod::TRACE)
        } else {
            proof {
                assert(upper(sub) == u@);
            }
            Err(ParseError::UnknownMethod)
        }
    }
}

/// The first position at or after `from` where a `CR LF` pair starts in
/// `s`, or `-1` when there is none.
pub open spec fn spec_find_crlf(s: Seq<u8>, from: int) -> int
    decreases s.len() - from,
{
    if from < 0 || from + 2 > s.len() {
        -1
    } else if s[from] == CR && s[from + 1] == LF {
        from
    } else {
        spec_find_crlf(s, from + 1)
    }
}

/// The first position in `[from, to)` holding byte `b` in `s`, or `-1`.
pub open spec fn spec_find_byte(s: Seq<u8>, from: int, to: int, b: u8) -> int
    decreases to - from,
{
    if from < 0 || from >= to || to > s.len() {
        -1
    } else if s[from] == b {
        from
    } else {
        spec_find_byte(s, from + 1, to, b)
    }
}

/// The first position in `[from, to)` holding a byte other than a space,
/// or `to` when spaces run to the end; out-of-range arguments are returned
/// unchanged.
pub open spec fn spec_skip_spaces(s: Seq<u8>, from: int, to: int) -> int
    decreases to - from,
{
    if from < 0 || from >= to || to > s.len() {
        from
    } else if s[from] == SP {
        spec_skip_spaces(s, from + 1, to)
    } else {
        from
    }
}

/// Where a `CR LF` pair starts, at or after `from`.
#[verifier::loop_isolation(false)]
pub fn find_crlf(buf: &Vec<u8>, from: usize) -> (r: Option<usize>)
    ensures
        match r {
            Some(i) => {
                &&& spec_find_crlf(buf@, from as int) == i as int
                &&& from <= i
                &&& i + 2 <= buf@.len()
                &&& buf@[i as int] == CR
                &&& buf@[i as int + 1] == LF
            },
            None => spec_find_crlf(buf@, from as int) == -1,
        },
{
    let mut j: usize = from;
    loop
        invariant
            from <= j,
            spec_find_crlf(buf@, from as int) == spec_find_crlf(buf@, j as int),
        decreases buf@.len() - j as int + 2,
    {
        if j >= buf.len() || j + 1 >= buf.len() {
            return None;
        }
        if buf[j] == CR && buf[j + 1] == LF {
            return Some(j);
        }
        j = j + 1;
    }
}

/// Where byte `b` first occurs in `buf[from..to]`.
#[verifier::loop_isolation(false)]
pub fn find_byte(buf: &Vec<u8>, from: usize, to: usize, b: u8) -> (r: Option<usize>)
    requires
        to <= buf@.len(),
    ensures
        match r {
            Some(i) => {
                &&& spec_find_byte(buf@, from as int, to as int, b) == i as int
                &&& from <= i < to
                &&& buf@[i as int] == b
            },
            None => spec_find_byte(buf@, from as int, to as int, b) == -1,
        },
{
    let mut j: usize = from;
    loop
        invariant
            from <= j,
            to <= buf@.len(),
            spec_find_byte(buf@, from as int, to as int, b) == spec_find_byte(
                buf@,
                j as int,
                to as int,
                b,
            ),
        decreases to - j as int + 1,
    {
        if j >= to {
            return None;
        }
        if buf[j] == b {
            return Some(j);
        }
        j = j + 1;
    }
}

/// The end of the run of spaces starting at `from`, capped at `to`.
#[verifier::loop_isolation(false)]
pub fn skip_spaces(buf: &Vec<u8>, from: usize, to: usize) -> (r: usize)
    requires
        from <= to <= buf@.len(),
    ensures
        r as int == spec_skip_spaces(buf@, from as int, to as int),
        from <= r <= to,
{
    let mut j: usize = from;
    while j < to && buf[j] == SP
        invariant
            from <= j <= to <= buf@.len(),
            spec_skip_spaces(buf@, from as int, to as int) == spec_skip_spaces(
                buf@,
                j as int,
                to as int,
            ),
        decreases to - j,
    {
        j = j + 1;
    }
    j
}

/// One header record: the name and value of a header line, each as a byte
/// range into the request buffer.
#[derive(Clone, Copy, Debug, PartialEq, Eq, Structural)]
pub struct HeaderSlot {
    pub name_start: usize,
    pub name_end: usize,
    pub value_start: usize,
    pub value_end: usize,
}

/// Every range of the record lies inside a buffer of length `len`.
pub open spec fn slot_wf(h: HeaderSlot, len: int) -> bool {
    &&& h.name_start <= h.name_end
    &&& h.name_end <= len
    &&& h.value_start <= h.value_end
    &&& h.value_end <= len
}

/// The header records read off `s` from position `pos` up to the blank
/// line, one per `CR LF`-terminated line, the name before the first colon
/// and the value after it with leading spaces dropped; `None` when a line
/// is unterminated or holds no colon.
pub open spec fn spec_slots(s: Seq<u8>, pos: int) -> Option<Seq<HeaderSlot>>
    decreases s.len() - pos,
{
    if pos < 0 || pos + 2 > s.len() {
        None
    } else if s[pos] == CR && s[pos + 1] == LF {
        Some(Seq::empty())
    } else {
        let e = spec_find_crlf(s, pos);
        if e < pos + 1 || e + 2 > s.len() {
            None
        } else {
            let c = spec_find_byte(s, pos, e, COLON);
            if c < 0 {
                None
            } else {
                match spec_slots(s, e + 2) {
                    None => None,
                    Some(rest) => Some(
                        seq![
                            HeaderSlot {
                                name_start: pos as usize,
                                name_end: c as usize,
                                value_start: spec_skip_spaces(s, c + 1, e) as usize,
                                value_end: e as usize,
                            },
                        ] + rest,
                    ),
                }
            }
        }
    }
}

/// Read the header records out of `buf` starting at `start`, mirroring
/// [`spec_slots`] exactly.
#[verifier::loop_isolation(false)]
pub fn parse_headers(buf: &Vec<u8>, start: usize) -> (r: Option<Vec<HeaderSlot>>)
    ensures
        match r {
            Some(v) => {
                &&& spec_slots(buf@, start as int) == Some(v@)
                &&& forall|k: int| 0 <= k < v@.len() ==> slot_wf(v@[k], buf@.len() as int)
            },
            None => spec_slots(buf@, start as int) is None,
        },
{
    let ghost s = buf@;
    let mut acc: Vec<HeaderSlot> = Vec::new();
    let mut pos: usize = start;
    loop
        invariant
            start <= pos,
            s == buf@,
            spec_slots(s, pos as int) is Some ==> spec_slots(s, start as int) == Some(
                acc@ + spec_slots(s, pos as int).unwrap(),
            ),
            spec_slots(s, pos as int) is None ==> spec_slots(s, start as int) is None,
            forall|k: int| 0 <= k < acc@.len() ==> slot_wf(acc@[k], s.len() as int),
        decreases s.len() - pos as int + 2,
    {
        if pos >= buf.len() || pos + 1 >= buf.len() {
            return None;
        }
        if buf[pos] == CR && buf[pos + 1] == LF {
            proof {
                assert(spec_slots(s, pos as int) == Some(Seq::<HeaderSlot>::empty()));
                assert(acc@ + Seq::<HeaderSlot>::empty() =~= acc@);
            }
            return Some(acc);
        }
        let e = match find_crlf(buf, pos) {
            Some(e) => e,
            None => {
                return None;
            },
        };
        let c = match find_byte(buf, pos, e, COLON) {
            Some(c) => c,
            None => {
                return None;
            },
        };
        let vs = skip_spaces(buf, c + 1, e);
        let slot = HeaderSlot { name_start: pos, name_end: c, value_start: vs, value_end: e };
        let ghost acc_old = acc@;
        let ghost pos_old = pos as int;
        acc.push(slot);
        pos = e + 2;
        proof {
            assert(e != pos_old);
            match spec_slots(s, pos as int) {
                None => {
                    assert(spec_slots(s, pos_old) is None);
                },
                Some(rest) => {
                    assert(spec_slots(s, pos_old) == Some(seq![slot] + rest));
                    assert(acc@ =~= acc_old + seq![slot]);
                    assert((acc_old + seq![slot]) + rest =~= acc_old + (seq![slot] + rest));
                },
            }
        }
    }
}

/// Copy `buf[start..end]` out into a fresh vector.
#[verifier::loop_isolation(false)]
pub fn copy_range(buf: &Vec<u8>, start: usize, end: usize) -> (r: Vec<u8>)
    requires
        start <= end <= buf@.len(),
    ensures
        r@ == buf@.subrange(start as int, end as int),
{
    let mut r: Vec<u8> = Vec::new();
    let mut i: usize = start;
    while i < end
        invariant
            start <= i <= end <= buf@.len(),
            r@ == buf@.subrange(start as int, i as int),
        decreases end - i,
    {
        r.push(buf[i]);
        i = i + 1;
        proof {
            assert(r@ =~= buf@.subrange(start as int, i as int));
        }
    }
    proof {
        assert(r@ =~= buf@.subrange(start as int, end as int));
    }
    r
}

/// Where the request line ends: the start of its `CR LF` terminator.
pub open spec fn spec_req_line_end(s: Seq<u8>) -> int {
    spec_find_crlf(s, 0)
}

/// The first space of the request line.
pub open spec fn spec_sp1(s: Seq<u8>) -> int {
    spec_find_byte(s, 0, spec_req_line_end(s), SP)
}

/// The second space of the request line.
pub open spec fn spec_sp2(s: Seq<u8>) -> int {
    spec_find_byte(s, spec_sp1(s) + 1, spec_req_line_end(s), SP)
}

/// The request line is terminated and splits at spaces into exactly three
/// parts: a third space would make a fourth part.
pub open spec fn request_line_ok(s: Seq<u8>) -> bool {
    &&& spec_req_line_end(s) >= 0
    &&& spec_sp1(s) >= 0
    &&& spec_sp2(s) >= 0
    &&& spec_find_byte(s, spec_sp2(s) + 1, spec_req_line_end(s), SP) == -1
}

/// The method part of the request line.
pub open spec fn spec_method_bytes(s: Seq<u8>) -> Seq<u8> {
    s.subrange(0, spec_sp1(s))
}

/// Where the header block starts: just past the request line terminator.
pub open spec fn spec_headers_start(s: Seq<u8>) -> int {
    spec_req_line_end(s) + 2
}

/// The error a failing parse of `s` reports: a broken request line first,
/// then an unrecognised method, then a header block that does not fill the
/// requested slots.
pub open spec fn spec_parse_error(s: Seq<u8>) -> ParseError {
    if !request_line_ok(s) {
        ParseError::MalformedRequestLine
    } else if spec_method_of(spec_method_bytes(s)) is None {
        ParseError::UnknownMethod
    } else {
        ParseError::HeaderCountMismatch
    }
}

/// The whole parse goes through on buffer `s` with `n` requested slots.
pub open spec fn parse_ok(s: Seq<u8>, n: int) -> bool {
    &&& request_line_ok(s)
    &&& spec_method_of(spec_method_bytes(s)) is Some
    &&& spec_slots(s, spec_headers_start(s)) matches Some(sl) && sl.len() == n
}

/// An immutable parsed view of one request. It owns the raw request buffer
/// and the header records outright; every parsed part is a byte range into
/// that one buffer, so no byte is copied and the view can move freely
/// between workers. The backing allocations are released together, exactly
/// once, when the view is dropped.
pub struct OwnedRequest {
    buffer: Vec<u8>,
    headers: Vec<HeaderSlot>,
    method: HttpMethod,
    path_start: usize,
    path_end: usize,
    version_start: usize,
    version_end: usize,
}

impl OwnedRequest {
    /// The bytes of the request buffer the view owns.
    pub closed spec fn bytes(self) -> Seq<u8> {
        self.buffer@
    }

    /// The header records of the view.
    pub closed spec fn slots(self) -> Seq<HeaderSlot> {
        self.headers@
    }

    /// The parsed method.
    pub closed spec fn spec_method(self) -> HttpMethod {
        self.method
    }

    /// The byte range of the path within the buffer.
    pub closed spec fn path_range(self) -> (int, int) {
        (self.path_start as int, self.path_end as int)
    }

    /// The byte range of the protocol version within the buffer.
    pub closed spec fn version_range(self) -> (int, int) {
        (self.version_start as int, self.version_end as int)
    }

    /// Every range of the view lies inside the buffer it owns.
    pub closed spec fn wf(self) -> bool {
        &&& self.path_start <= self.path_end <= self.buffer@.len()
        &&& self.version_start <= self.version_end <= self.buffer@.len()
        &&& forall|k: int|
            0 <= k < self.headers@.len() ==> slot_wf(self.headers@[k], self.buffer@.len() as int)
    }

    /// The view agrees with what the parse of `s` under `n` slots says.
    pub open spec fn matches_parse(self, s: Seq<u8>, n: int) -> bool {
        &&& self.bytes() == s
        &&& Some(self.spec_method()) == spec_method_of(spec_method_bytes(s))
        &&& self.path_range() == (spec_sp1(s) + 1, spec_sp2(s))
        &&& self.version_range() == (spec_sp2(s) + 1, spec_req_line_end(s))
        &&& Some(self.slots()) == spec_slots(s, spec_headers_start(s))
        &&& self.slots().len() == n
        &&& self.wf()
    }

    /// Take ownership of the request buffer, allocate one header record per
    /// expected header, parse, and hand back the view bound to both — or
    /// say exactly why the buffer does not parse. On failure both the
    /// buffer and the records are released before the error propagates.
    pub fn build(buffer: Vec<u8>, header_count: usize) -> (r: Result<OwnedRequest, ParseError>)
        ensures
            match r {
                Ok(req) => {
                    &&& parse_ok(buffer@, header_count as int)
                    &&& req.matches_parse(buffer@, header_count as int)
                },
                Err(e) => {
                    &&& !parse_ok(buffer@, header_count as int)
                    &&& e == spec_parse_error(buffer@)
                    &&& match e {
                        ParseError::MalformedRequestLine => !request_line_ok(buffer@),
                        ParseError::UnknownMethod => request_line_ok(buffer@) && spec_method_of(
                            spec_method_bytes(buffer@),
                        ) is None,
                        ParseError::HeaderCountMismatch => {
                            &&& request_line_ok(buffer@)
                            &&& spec_method_of(spec_method_bytes(buffer@)) is Some
                            &&& !(spec_slots(buffer@, spec_headers_start(buffer@)) matches Some(sl)
                                && sl.len() == header_count)
                        },
                    }
                },
            },
    {
        let ghost s = buffer@;
        let blen = buffer.len();
        proof {
            assert(blen == s.len());
        }
        let e = match find_crlf(&buffer, 0) {
            Some(e) => e,
            None => {
                return Err(ParseError::MalformedRequestLine);
            },
        };
        let sp1 = match find_byte(&buffer, 0, e, SP) {
            Some(a) => a,
            None => {
                return Err(ParseError::MalformedRequestLine);
            },
        };
        let sp2 = match find_byte(&buffer, sp1 + 1, e, SP) {
            Some(a) => a,
            None => {
                return Err(ParseError::MalformedRequestLine);
            },
        };
        match find_byte(&buffer, sp2 + 1, e, SP) {
            Some(_) => {
                return Err(ParseError::MalformedRequestLine);
            },
            None => {},
        };
        let method = match HttpMethod::try_from_range(&buffer, 0, sp1) {
            Ok(m) => m,
            Err(er) => {
                return Err(er);
            },
        };
        let headers = match parse_headers(&buffer, e + 2) {
            Some(h) => h,
            None => {
                return Err(ParseError::HeaderCountMismatch);
            },
        };
        if headers.len() != header_count {
            return Err(ParseError::HeaderCountMismatch);
        }
        Ok(
            OwnedRequest {
                buffer,
                headers,
                method,
                path_start: sp1 + 1,
                path_end: sp2,
                version_start: sp2 + 1,
                version_end: e,
            },
        )
    }

    /// As [`Self::build`], collapsing the error to `None`.
    pub fn new(buffer: Vec<u8>, header_count: usize) -> (r: Option<OwnedRequest>)
        ensures
            match r {
                Some(req) => {
                    &&& parse_ok(buffer@, header_count as int)
                    &&& req.matches_parse(buffer@, header_count as int)
                },
                None => !parse_ok(buffer@, header_count as int),
            },
    {
        match Self::build(buffer, header_count) {
            Ok(req) => Some(req),
            Err(_) => None,
        }
    }

    /// The parsed method.
    pub fn method(&self) -> (m: HttpMethod)
        ensures
            m == self.spec_method(),
    {
        self.method
    }

    /// How many header records the view holds.
    pub fn header_count(&self) -> (n: usize)
        ensures
            n as int == self.slots().len(),
    {
        self.headers.len()
    }

    /// The record of the `i`-th header.
    pub fn header_slot(&self, i: usize) -> (h: HeaderSlot)
        requires
            i < self.slots().len(),
        ensures
            h == self.slots()[i as int],
    {
        self.headers[i]
    }

    /// A copy of the path bytes.
    pub fn path(&self) -> (p: Vec<u8>)
        requires
            self.wf(),
        ensures
            p@ == self.bytes().subrange(self.path_range().0, self.path_range().1),
    {
        copy_range(&self.buffer, self.path_start, self.path_end)
    }

    /// A copy of the protocol version bytes.
    pub fn version(&self) -> (v: Vec<u8>)
        requires
            self.wf(),
        ensures
            v@ == self.bytes().subrange(self.version_range().0, self.version_range().1),
    {
        copy_range(&self.buffer, self.version_start, self.version_end)
    }

    /// A copy of the name bytes of the `i`-th header.
    pub fn header_name(&self, i: usize) -> (nm: Vec<u8>)
        requires
            self.wf(),
            i < self.slots().len(),
        ensures
            nm@ == self.bytes().subrange(
                self.slots()[i as int].name_start as int,
                self.slots()[i as int].name_end as int,
            ),
    {
        let h = self.headers[i];
        copy_range(&self.buffer, h.name_start, h.name_end)
    }

    /// A copy of the value bytes of the `i`-th header, leading spaces
    /// dropped.
    pub fn header_value(&self, i: usize) -> (v: Vec<u8>)
        requires
            self.wf(),
            i < self.slots().len(),
        ensures
            v@ == self.bytes().subrange(
                self.slots()[i as int].value_start as int,
                self.slots()[i as int].value_end as int,
            ),
    {
        let h = self.headers[i];
        copy_range(&self.buffer, h.value_start, h.value_end)
    }
}

/// The first `CR LF` found is truly the first: none starts earlier, and a
/// search that finds none saw none anywhere in range.
proof fn lemma_find_crlf_props(s: Seq<u8>, from: int)
    requires
        0 <= from,
    ensures
        ({
            let r = spec_find_crlf(s, from);
            &&& r >= 0 ==> from <= r && r + 2 <= s.len() && s[r] == CR && s[r + 1] == LF && (
            forall|k: int| from <= k < r ==> !(#[trigger] s[k] == CR && s[k + 1] == LF))
            &&& r == -1 ==> (forall|k: int|
                from <= k && k + 2 <= s.len() ==> !(#[trigger] s[k] == CR && s[k + 1] == LF))
        }),
    decreases s.len() - from,
{
    if from + 2 > s.len() {
    } else if s[from] == CR && s[from + 1] == LF {
    } else {
        lemma_find_crlf_props(s, from + 1);
        let r = spec_find_crlf(s, from);
        if r >= 0 {
            assert forall|k: int| from <= k < r implies !(#[trigger] s[k] == CR && s[k + 1] == LF) by {
                if k > from {
                    assert(!(s[k] == CR && s[k + 1] == LF));
                }
            }
        }
    }
}

/// Lengthening a prefix by one byte adds one `CR LF` pair exactly when a
/// pair ends at the new length.
proof fn lemma_count_take_step(s: Seq<u8>, j: int)
    requires
        0 <= j < s.len(),
    ensures
        count_crlf(s.take(j + 1)) == count_crlf(s.take(j)) + if j >= 1 && s[j - 1] == CR && s[j]
            == LF {
            1int
        } else {
            0int
        },
{
    assert(s.take(j + 1).drop_last() =~= s.take(j));
    assert(crlf_at(s.take(j + 1), j + 1) == (j >= 1 && s[j - 1] == CR && s[j] == LF));
}

/// Over a stretch where no `CR LF` pair ends, the prefix count stands still.
proof fn lemma_count_constant(s: Seq<u8>, a: int, b: int)
    requires
        0 <= a <= b <= s.len(),
        forall|t: int| a < t <= b ==> !(t >= 2 && #[trigger] s[t - 2] == CR && s[t - 1] == LF),
    ensures
        count_crlf(s.take(b)) == count_crlf(s.take(a)),
    decreases b - a,
{
    if a < b {
        lemma_count_constant(s, a, b - 1);
        lemma_count_take_step(s, b - 1);
        assert(!(b >= 2 && s[b - 2] == CR && s[b - 1] == LF));
    }
}

/// One line holds exactly one `CR LF` pair: between a position standing
/// just after a pair (or the very start) and the end of the next pair
/// found, the count grows by exactly one.
proof fn lemma_count_across_line(s: Seq<u8>, pos: int)
    requires
        0 <= pos,
        pos == 0 || s[pos - 1] != CR,
        spec_find_crlf(s, pos) >= pos,
    ensures
        count_crlf(s.take(spec_find_crlf(s, pos) + 2)) == count_crlf(s.take(pos)) + 1,
{
    let e = spec_find_crlf(s, pos);
    lemma_find_crlf_props(s, pos);
    assert forall|t: int| pos < t <= e + 1 implies !(t >= 2 && #[trigger] s[t - 2] == CR && s[t - 1]
        == LF) by {
        if t >= 2 {
            if t - 2 == pos - 1 {
            } else if t - 2 == e - 1 {
                assert(s[t - 1] == s[e]);
            } else {
                assert(pos <= t - 2 < e);
            }
        }
    }
    lemma_count_constant(s, pos, e + 1);
    lemma_count_take_step(s, e + 1);
}

/// Scanning header lines from a position just after a `CR LF`, each record
/// accounts for exactly one further pair, and the blank line for the last.
proof fn lemma_slots_tally(s: Seq<u8>, pos: int)
    requires
        2 <= pos,
        crlf_at(s, pos),
        terminator_at(s, s.len() as int),
        forall|i: int| i < s.len() ==> !terminator_at(s, i),
        spec_slots(s, pos) is Some,
    ensures
        count_crlf(s) == count_crlf(s.take(pos)) + spec_slots(s, pos).unwrap().len() + 1,
    decreases s.len() - pos,
{
    if s[pos] == CR && s[pos + 1] == LF {
        assert(terminator_at(s, pos + 2));
        assert(pos + 2 == s.len());
        assert forall|t: int|
            pos < t <= pos + 1 implies !(t >= 2 && #[trigger] s[t - 2] == CR && s[t - 1] == LF) by {
            assert(s[pos - 1] == LF);
        }
        lemma_count_constant(s, pos, pos + 1);
        lemma_count_take_step(s, pos + 1);
        assert(s.take(pos + 2) =~= s);
    } else {
        let e = spec_find_crlf(s, pos);
        lemma_find_crlf_props(s, pos);
        assert(s[pos - 1] == LF);
        lemma_count_across_line(s, pos);
        assert(crlf_at(s, e + 2));
        lemma_slots_tally(s, e + 2);
    }
}

/// Law: on a complete frame — the blank-line terminator ends it and occurs
/// nowhere earlier — whose header block parses, the header records number
/// exactly the framing tally: every `CR LF` pair beyond the request
/// line's and the blank line's ends one header line.
pub proof fn lemma_tally_matches_records(s: Seq<u8>)
    requires
        terminator_at(s, s.len() as int),
        forall|i: int| i < s.len() ==> !terminator_at(s, i),
        spec_slots(s, spec_headers_start(s)) is Some,
    ensures
        spec_req_line_end(s) >= 0,
        spec_slots(s, spec_headers_start(s)).unwrap().len() == spec_header_count(s),
{
    let e0 = spec_find_crlf(s, 0);
    lemma_find_crlf_props(s, 0);
    if e0 == -1 {
        assert(s[s.len() - 4] == CR && s[s.len() - 3] == LF);
        assert(false);
    }
    assert(crlf_at(s, e0 + 2));
    lemma_slots_tally(s, e0 + 2);
    lemma_count_across_line(s, 0);
    assert(s.take(0) =~= Seq::<u8>::empty());
}

} // verus!
