//! Stateful HTTP/1.x wire codec: an incremental decoder that turns a byte
//! buffer into request heads and body chunks, and an encoder that serializes
//! response heads and body frames.
//!
//! The decoder consumes only complete syntactic units and decodes at most one
//! message per call; a caller that wants every message already resident in
//! the buffer loops until the decoder reports that more bytes are needed.

use vstd::prelude::*;
use vstd::slice::{slice_index_get, slice_subrange};

use crate::error::ParseError;
use crate::wire::{
    all_digits, all_target_bytes, all_tchars, all_value_bytes, ascii_bytes, copy_range, dec_val,
    eq_ci, eq_ignore_case, find_byte, find_crlf, lemma_find_crlf, lit_bytes, parse_dec, scan_byte,
    scan_crlf, target_byte, tchar, value_byte, HTAB, SP,
};

verus! {

/// Heads larger than this are rejected rather than buffered without bound.
pub const MAX_HEAD_SIZE: usize = 32768;

/// More header lines than this reject the head.
pub const MAX_HEADERS: usize = 96;

/// HTTP version of a request line.
#[derive(Debug, PartialEq, Eq, Structural, Copy, Clone)]
pub enum Version {
    Http10,
    Http11,
}

/// A parsed request head: the request line and the header lines, as plain
/// bytes.
pub struct RequestHead {
    pub method: Vec<u8>,
    pub target: Vec<u8>,
    pub version: Version,
    pub headers: Vec<(Vec<u8>, Vec<u8>)>,
}

/// The mathematical content of a request head.
pub ghost struct HeadView {
    pub method: Seq<u8>,
    pub target: Seq<u8>,
    pub version: Version,
    pub headers: Seq<(Seq<u8>, Seq<u8>)>,
}

pub open spec fn headers_view(headers: Seq<(Vec<u8>, Vec<u8>)>) -> Seq<(Seq<u8>, Seq<u8>)> {
    headers.map_values(|h: (Vec<u8>, Vec<u8>)| (h.0@, h.1@))
}

impl View for RequestHead {
    type V = HeadView;

    open spec fn view(&self) -> HeadView {
        HeadView {
            method: self.method@,
            target: self.target@,
            version: self.version,
            headers: headers_view(self.headers@),
        }
    }
}

/// What kind of body follows a request head on the wire.
#[derive(Debug, PartialEq, Eq, Structural, Copy, Clone)]
pub enum MessageType {
    NoPayload,
    Payload,
    Stream,
}

/// One decoded protocol message: a request head, a body chunk, or the end of
/// a body (`Chunk(None)`).
pub enum Message {
    Item(RequestHead),
    Chunk(Option<Vec<u8>>),
}

// ------------------------------------------------------------------
// Header lookup
// ------------------------------------------------------------------
/// Index of the first header whose name equals `name` ignoring ASCII case,
/// at or after `from`.
pub open spec fn find_header_from(
    hs: Seq<(Seq<u8>, Seq<u8>)>,
    name: Seq<u8>,
    from: int,
) -> Option<int>
    decreases hs.len() - from,
{
    if from < 0 || from >= hs.len() {
        Option::<int>::None
    } else if eq_ci(hs[from].0, name) {
        Some(from)
    } else {
        find_header_from(hs, name, from + 1)
    }
}

/// The value of the first header named `name`, ignoring ASCII case.
pub open spec fn header_value(hs: Seq<(Seq<u8>, Seq<u8>)>, name: Seq<u8>) -> Option<Seq<u8>> {
    match find_header_from(hs, name, 0) {
        Some(i) => Some(hs[i].1),
        None => Option::<Seq<u8>>::None,
    }
}

/// Look a header up by name, ignoring ASCII case; mirrors `header_value`.
pub fn lookup_header<'a>(headers: &'a Vec<(Vec<u8>, Vec<u8>)>, name: &[u8]) -> (r: Option<
    &'a Vec<u8>,
>)
    ensures
        match r {
            Some(v) => header_value(headers_view(headers@), name@) == Some(v@),
            None => header_value(headers_view(headers@), name@) is None,
        },
{
    let ghost hs = headers_view(headers@);
    let n = headers.len();
    let mut i: usize = 0;
    loop
        invariant
            0 <= i <= n,
            n == headers@.len(),
            hs == headers_view(headers@),
            find_header_from(hs, name@, 0) == find_header_from(hs, name@, i as int),
        decreases n - i,
    {
        if i >= n {
            assert(find_header_from(hs, name@, i as int) is None);
            return Option::<&'a Vec<u8>>::None;
        }
        assert(hs[i as int] == (headers@[i as int].0@, headers@[i as int].1@));
        if eq_ignore_case(headers[i].0.as_slice(), name) {
            assert(find_header_from(hs, name@, i as int) == Some(i as int));
            return Some(&headers[i].1);
        }
        assert(find_header_from(hs, name@, i as int) == find_header_from(hs, name@, i as int + 1));
        i = i + 1;
    }
}

// ------------------------------------------------------------------
// Request-line and header-line grammar
// ------------------------------------------------------------------
/// Parse of a request line. A line without a space yields no method; one
/// space but no second yields no version. The method must be a non-empty
/// token, the target non-empty of target bytes, and the version literally
/// `HTTP/1.0` or `HTTP/1.1`.
pub open spec fn parse_request_line(line: Seq<u8>) -> Result<
    (Seq<u8>, Seq<u8>, Version),
    ParseError,
> {
    match find_byte(line, SP, 0, line.len() as int) {
        None => Err(ParseError::Method),
        Some(sp1) => {
            let m = line.subrange(0, sp1);
            if !(m.len() > 0 && all_tchars(m)) {
                Err(ParseError::Method)
            } else {
                match find_byte(line, SP, sp1 + 1, line.len() as int) {
                    None => Err(ParseError::Version),
                    Some(sp2) => {
                        let t = line.subrange(sp1 + 1, sp2);
                        let v = line.subrange(sp2 + 1, line.len() as int);
                        if !(t.len() > 0 && all_target_bytes(t)) {
                            Err(ParseError::Uri)
                        } else if v == ascii_bytes("HTTP/1.1"@) {
                            Ok((m, t, Version::Http11))
                        } else if v == ascii_bytes("HTTP/1.0"@) {
                            Ok((m, t, Version::Http10))
                        } else {
                            Err(ParseError::Version)
                        }
                    },
                }
            }
        },
    }
}

/// First position at or after `from` that holds neither a space nor a tab.
pub open spec fn skip_ows(s: Seq<u8>, from: int) -> int
    decreases s.len() - from,
{
    if from < 0 || from >= s.len() {
        from
    } else if s[from] == SP || s[from] == HTAB {
        skip_ows(s, from + 1)
    } else {
        from
    }
}

/// Last position at or before `upto` such that everything from it to `upto`
/// is spaces and tabs.
pub open spec fn rskip_ows(s: Seq<u8>, upto: int) -> int
    decreases upto,
{
    if upto <= 0 || upto > s.len() {
        upto
    } else if s[upto - 1] == SP || s[upto - 1] == HTAB {
        rskip_ows(s, upto - 1)
    } else {
        upto
    }
}

/// Parse of one header line: a non-empty token name, a colon, and a value
/// with optional whitespace trimmed on both sides.
pub open spec fn parse_header_line(line: Seq<u8>) -> Option<(Seq<u8>, Seq<u8>)> {
    match find_byte(line, 58, 0, line.len() as int) {
        None => Option::<(Seq<u8>, Seq<u8>)>::None,
        Some(c) => {
            let name = line.subrange(0, c);
            if !(name.len() > 0 && all_tchars(name)) {
                Option::<(Seq<u8>, Seq<u8>)>::None
            } else {
                let vstart = skip_ows(line, c + 1);
                let vend = rskip_ows(line, line.len() as int);
                let value = if vend < vstart {
                    Seq::<u8>::empty()
                } else {
                    line.subrange(vstart, vend)
                };
                if all_value_bytes(value) {
                    Some((name, value))
                } else {
                    Option::<(Seq<u8>, Seq<u8>)>::None
                }
            }
        },
    }
}

/// Outcome of parsing the header section.
pub ghost enum HeadersOut {
    /// More bytes are needed.
    Incomplete,
    /// A header line is malformed.
    Bad,
    /// The parsed headers and the position just past the terminating empty
    /// line.
    Done(Seq<(Seq<u8>, Seq<u8>)>, int),
}

/// Parse header lines starting at `from` until the empty line that ends the
/// head.
pub open spec fn parse_header_lines(s: Seq<u8>, from: int) -> HeadersOut
    decreases s.len() - from
        via parse_header_lines_dec
{
    if from < 0 || from > s.len() {
        HeadersOut::Incomplete
    } else {
        match find_crlf(s, from) {
            None => HeadersOut::Incomplete,
            Some(eol) => {
                if eol == from {
                    HeadersOut::Done(Seq::empty(), from + 2)
                } else {
                    match parse_header_line(s.subrange(from, eol)) {
                        None => HeadersOut::Bad,
                        Some(h) => match parse_header_lines(s, eol + 2) {
                            HeadersOut::Incomplete => HeadersOut::Incomplete,
                            HeadersOut::Bad => HeadersOut::Bad,
                            HeadersOut::Done(rest, end) => HeadersOut::Done(seq![h] + rest, end),
                        },
                    }
                }
            },
        }
    }
}

#[via_fn]
proof fn parse_header_lines_dec(s: Seq<u8>, from: int) {
    if 0 <= from <= s.len() {
        lemma_find_crlf(s, from);
    }
}

/// Header lines already parsed, prepended to the outcome of the rest.
pub open spec fn prepend_headers(pre: Seq<(Seq<u8>, Seq<u8>)>, out: HeadersOut) -> HeadersOut {
    match out {
        HeadersOut::Incomplete => HeadersOut::Incomplete,
        HeadersOut::Bad => HeadersOut::Bad,
        HeadersOut::Done(rest, end) => HeadersOut::Done(pre + rest, end),
    }
}

/// Outcome of parsing a head out of the front of a buffer.
pub ghost enum HeadOut {
    /// More bytes are needed.
    Incomplete,
    /// The head is malformed or too large.
    Bad(ParseError),
    /// The parsed head and the number of bytes it occupies.
    Head(HeadView, int),
}

/// Executable body declaration: what the head's framing headers say follows
/// it on the wire.
#[derive(Debug, PartialEq, Eq, Structural, Copy, Clone)]
pub enum BodyKind {
    NoBody,
    Length(u64),
    Chunked,
}

/// The body declaration of a header list: `transfer-encoding: chunked` wins,
/// else a readable `content-length`, else no body. `None` means the
/// declaration itself is invalid and the head must be rejected.
pub open spec fn body_decl_of(hs: Seq<(Seq<u8>, Seq<u8>)>) -> Option<BodyKind> {
    match header_value(hs, ascii_bytes("transfer-encoding"@)) {
        Some(te) => if eq_ci(te, ascii_bytes("chunked"@)) {
            Some(BodyKind::Chunked)
        } else {
            Option::<BodyKind>::None
        },
        None => match header_value(hs, ascii_bytes("content-length"@)) {
            Some(cl) => if cl.len() > 0 && all_digits(cl) && dec_val(cl) <= u64::MAX {
                if dec_val(cl) == 0 {
                    Some(BodyKind::NoBody)
                } else {
                    Some(BodyKind::Length(dec_val(cl) as u64))
                }
            } else {
                Option::<BodyKind>::None
            },
            None => Some(BodyKind::NoBody),
        },
    }
}

/// Whether a head allows the connection to be reused: an explicit
/// `connection` header decides; otherwise the version's default.
pub open spec fn head_keep_alive(hs: Seq<(Seq<u8>, Seq<u8>)>, version: Version) -> bool {
    match header_value(hs, ascii_bytes("connection"@)) {
        Some(c) => if eq_ci(c, ascii_bytes("close"@)) {
            false
        } else if eq_ci(c, ascii_bytes("keep-alive"@)) {
            true
        } else {
            version is Http11
        },
        None => version is Http11,
    }
}

/// Whether a head asks for a `100 Continue` interim response.
pub open spec fn head_expect_continue(hs: Seq<(Seq<u8>, Seq<u8>)>) -> bool {
    match header_value(hs, ascii_bytes("expect"@)) {
        Some(e) => eq_ci(e, ascii_bytes("100-continue"@)),
        None => false,
    }
}

/// Parse of a complete request head at the front of `s`: the request line,
/// the header section, and the validity of the body declaration. A head that
/// does not terminate within `MAX_HEAD_SIZE` bytes or declares more than
/// `MAX_HEADERS` headers is rejected as too large; an unreadable body
/// declaration rejects the head as a bad header.
pub open spec fn parse_head(s: Seq<u8>) -> HeadOut {
    match find_crlf(s, 0) {
        None => if s.len() >= MAX_HEAD_SIZE {
            HeadOut::Bad(ParseError::TooLarge)
        } else {
            HeadOut::Incomplete
        },
        Some(eol) => match parse_request_line(s.subrange(0, eol)) {
            Err(e) => HeadOut::Bad(e),
            Ok((m, t, v)) => match parse_header_lines(s, eol + 2) {
                HeadersOut::Incomplete => if s.len() >= MAX_HEAD_SIZE {
                    HeadOut::Bad(ParseError::TooLarge)
                } else {
                    HeadOut::Incomplete
                },
                HeadersOut::Bad => HeadOut::Bad(ParseError::Header),
                HeadersOut::Done(hs, end) => if end > MAX_HEAD_SIZE {
                    HeadOut::Bad(ParseError::TooLarge)
                } else if hs.len() > MAX_HEADERS {
                    HeadOut::Bad(ParseError::TooLarge)
                } else if body_decl_of(hs) is None {
                    HeadOut::Bad(ParseError::Header)
                } else {
                    HeadOut::Head(HeadView { method: m, target: t, version: v, headers: hs }, end)
                },
            },
        },
    }
}

// ------------------------------------------------------------------
// Executable head parsing
// ------------------------------------------------------------------
/// Check that `s[from..to]` consists of token characters.
fn check_tchars(s: &[u8], from: usize, to: usize) -> (r: bool)
    requires
        from <= to <= s@.len(),
    ensures
        r == all_tchars(s@.subrange(from as int, to as int)),
{
    let ghost part = s@.subrange(from as int, to as int);
    let mut i = from;
    loop
        invariant
            from <= i <= to <= s@.len(),
            part == s@.subrange(from as int, to as int),
            forall|j: int| 0 <= j < i - from ==> crate::wire::is_tchar(#[trigger] part[j]),
        decreases to - i,
    {
        if i >= to {
            return true;
        }
        if !tchar(*slice_index_get(s, i)) {
            assert(!crate::wire::is_tchar(part[i - from]));
            return false;
        }
        i = i + 1;
    }
}

/// Check that `s[from..to]` consists of request-target bytes.
fn check_target_bytes(s: &[u8], from: usize, to: usize) -> (r: bool)
    requires
        from <= to <= s@.len(),
    ensures
        r == all_target_bytes(s@.subrange(from as int, to as int)),
{
    let ghost part = s@.subrange(from as int, to as int);
    let mut i = from;
    loop
        invariant
            from <= i <= to <= s@.len(),
            part == s@.subrange(from as int, to as int),
            forall|j: int| 0 <= j < i - from ==> crate::wire::is_target_byte(#[trigger] part[j]),
        decreases to - i,
    {
        if i >= to {
            return true;
        }
        if !target_byte(*slice_index_get(s, i)) {
            assert(!crate::wire::is_target_byte(part[i - from]));
            return false;
        }
        i = i + 1;
    }
}

/// Check that `s[from..to]` consists of header-value bytes.
fn check_value_bytes(s: &[u8], from: usize, to: usize) -> (r: bool)
    requires
        from <= to <= s@.len(),
    ensures
        r == all_value_bytes(s@.subrange(from as int, to as int)),
{
    let ghost part = s@.subrange(from as int, to as int);
    let mut i = from;
    loop
        invariant
            from <= i <= to <= s@.len(),
            part == s@.subrange(from as int, to as int),
            forall|j: int| 0 <= j < i - from ==> crate::wire::is_value_byte(#[trigger] part[j]),
        decreases to - i,
    {
        if i >= to {
            return true;
        }
        if !value_byte(*slice_index_get(s, i)) {
            assert(!crate::wire::is_value_byte(part[i - from]));
            return false;
        }
        i = i + 1;
    }
}

/// Check that a header name is a non-empty-safe token string.
pub fn check_header_name(s: &[u8]) -> (r: bool)
    ensures
        r == all_tchars(s@),
{
    let n = s.len();
    let r = check_tchars(s, 0, n);
    proof {
        assert(s@.subrange(0, n as int) =~= s@);
    }
    r
}

/// Check that a header value holds no framing-corrupting bytes.
pub fn check_header_value(s: &[u8]) -> (r: bool)
    ensures
        r == all_value_bytes(s@),
{
    let n = s.len();
    let r = check_value_bytes(s, 0, n);
    proof {
        assert(s@.subrange(0, n as int) =~= s@);
    }
    r
}

/// Compare two byte strings for equality.
pub fn eq_bytes(a: &[u8], b: &[u8]) -> (r: bool)
    ensures
        r == (a@ == b@),
{
    if a.len() != b.len() {
        return false;
    }
    let n = a.len();
    let mut i: usize = 0;
    loop
        invariant
            0 <= i <= n,
            n == a@.len() == b@.len(),
            forall|j: int| 0 <= j < i ==> a@[j] == b@[j],
        decreases n - i,
    {
        if i >= n {
            assert(a@ =~= b@);
            return true;
        }
        if *slice_index_get(a, i) != *slice_index_get(b, i) {
            return false;
        }
        i = i + 1;
    }
}

/// First position at or after `from` holding neither space nor tab; mirrors
/// `skip_ows`.
pub(crate) fn scan_ows(s: &[u8], from: usize) -> (r: usize)
    requires
        from <= s@.len(),
    ensures
        r == skip_ows(s@, from as int),
        from <= r <= s@.len(),
{
    let n = s.len();
    let mut i = from;
    loop
        invariant
            from <= i <= n,
            n == s@.len(),
            skip_ows(s@, from as int) == skip_ows(s@, i as int),
        decreases n - i,
    {
        if i >= n {
            assert(skip_ows(s@, i as int) == i as int);
            return i;
        }
        let b = *slice_index_get(s, i);
        if b != SP && b != HTAB {
            assert(skip_ows(s@, i as int) == i as int);
            return i;
        }
        assert(skip_ows(s@, i as int) == skip_ows(s@, i as int + 1));
        i = i + 1;
    }
}

/// Last position at or before `upto` from which only spaces and tabs follow;
/// mirrors `rskip_ows`.
pub(crate) fn scan_ows_rev(s: &[u8], upto: usize) -> (r: usize)
    requires
        upto <= s@.len(),
    ensures
        r == rskip_ows(s@, upto as int),
        r <= upto,
{
    let mut i = upto;
    loop
        invariant
            0 <= i <= upto <= s@.len(),
            rskip_ows(s@, upto as int) == rskip_ows(s@, i as int),
        decreases i,
    {
        if i == 0 {
            assert(rskip_ows(s@, i as int) == i as int);
            return 0;
        }
        let b = *slice_index_get(s, i - 1);
        if b != SP && b != HTAB {
            assert(rskip_ows(s@, i as int) == i as int);
            return i;
        }
        assert(rskip_ows(s@, i as int) == rskip_ows(s@, i as int - 1));
        i = i - 1;
    }
}

/// Executable outcome of head parsing; mirrors `HeadOut`.
pub enum HeadResult {
    Incomplete,
    Bad(ParseError),
    Head(RequestHead, usize),
}

/// Parse one header line (already cut out of the buffer); mirrors
/// `parse_header_line`.
fn decode_header_line(line: &[u8]) -> (r: Option<(Vec<u8>, Vec<u8>)>)
    ensures
        match r {
            Some(h) => parse_header_line(line@) == Some((h.0@, h.1@)),
            None => parse_header_line(line@) is None,
        },
{
    let n = line.len();
    let colon = match scan_byte(line, 58, 0, n) {
        Some(i) => i,
        None => {
            return Option::<(Vec<u8>, Vec<u8>)>::None;
        },
    };
    if colon == 0 || !check_tchars(line, 0, colon) {
        return Option::<(Vec<u8>, Vec<u8>)>::None;
    }
    let vstart = scan_ows(line, colon + 1);
    let vend = scan_ows_rev(line, n);
    if vend < vstart {
        let value: Vec<u8> = Vec::new();
        assert(value@ =~= Seq::<u8>::empty());
        let name = copy_range(line, 0, colon);
        return Some((name, value));
    }
    if !check_value_bytes(line, vstart, vend) {
        return Option::<(Vec<u8>, Vec<u8>)>::None;
    }
    let name = copy_range(line, 0, colon);
    let value = copy_range(line, vstart, vend);
    Some((name, value))
}

/// Parse a complete request head from the front of `buf`; mirrors
/// `parse_head`.
pub fn decode_head(buf: &[u8]) -> (r: HeadResult)
    ensures
        match r {
            HeadResult::Incomplete => parse_head(buf@) is Incomplete,
            HeadResult::Bad(e) => parse_head(buf@) == HeadOut::Bad(e),
            HeadResult::Head(h, n) => parse_head(buf@) == HeadOut::Head(h@, n as int),
        },
{
    let buf_len = buf.len();
    let eol = match scan_crlf(buf, 0) {
        Some(i) => i,
        None => {
            if buf_len >= MAX_HEAD_SIZE {
                return HeadResult::Bad(ParseError::TooLarge);
            }
            return HeadResult::Incomplete;
        },
    };
    // Request line.
    let rl = slice_subrange(buf, 0, eol);
    let ghost line = buf@.subrange(0, eol as int);
    assert(rl@ == line);
    let sp1 = match scan_byte(rl, SP, 0, eol) {
        Some(i) => i,
        None => {
            return HeadResult::Bad(ParseError::Method);
        },
    };
    if sp1 == 0 || !check_tchars(rl, 0, sp1) {
        return HeadResult::Bad(ParseError::Method);
    }
    let sp2 = match scan_byte(rl, SP, sp1 + 1, eol) {
        Some(i) => i,
        None => {
            return HeadResult::Bad(ParseError::Version);
        },
    };
    if sp2 == sp1 + 1 || !check_target_bytes(rl, sp1 + 1, sp2) {
        return HeadResult::Bad(ParseError::Uri);
    }
    let vslice = slice_subrange(rl, sp2 + 1, eol);
    proof { reveal_strlit("HTTP/1.1"); }
    let h11 = lit_bytes("HTTP/1.1");
    proof { reveal_strlit("HTTP/1.0"); }
    let h10 = lit_bytes("HTTP/1.0");
    let version: Version;
    if eq_bytes(vslice, h11.as_slice()) {
        version = Version::Http11;
    } else if eq_bytes(vslice, h10.as_slice()) {
        version = Version::Http10;
    } else {
        return HeadResult::Bad(ParseError::Version);
    }
    let method = copy_range(rl, 0, sp1);
    let target = copy_range(rl, sp1 + 1, sp2);
    assert(parse_request_line(line) == Ok::<_, ParseError>((method@, target@, version)));

    // Header lines.
    let ghost start = eol as int + 2;
    let mut headers: Vec<(Vec<u8>, Vec<u8>)> = Vec::new();
    let mut pos: usize = eol + 2;
    assert(headers_view(headers@) =~= Seq::<(Seq<u8>, Seq<u8>)>::empty());
    assert(parse_header_lines(buf@, start) == prepend_headers(
        headers_view(headers@),
        parse_header_lines(buf@, pos as int),
    ));
    loop
        invariant
            start <= pos as int <= buf@.len(),
            buf_len == buf@.len(),
            start == eol as int + 2,
            parse_head_prefix(buf@, eol as int, method@, target@, version),
            parse_header_lines(buf@, start) == prepend_headers(
                headers_view(headers@),
                parse_header_lines(buf@, pos as int),
            ),
        decreases buf@.len() - pos,
    {
        let ghost hv = headers_view(headers@);
        let leol = match scan_crlf(buf, pos) {
            Some(i) => i,
            None => {
                assert(parse_header_lines(buf@, pos as int) is Incomplete);
                if buf_len >= MAX_HEAD_SIZE {
                    return HeadResult::Bad(ParseError::TooLarge);
                }
                return HeadResult::Incomplete;
            },
        };
        if leol == pos {
            // Empty line: end of head.
            assert(parse_header_lines(buf@, pos as int) == HeadersOut::Done(
                Seq::<(Seq<u8>, Seq<u8>)>::empty(),
                pos as int + 2,
            ));
            assert(hv + Seq::<(Seq<u8>, Seq<u8>)>::empty() =~= hv);
            let end = pos + 2;
            if end > MAX_HEAD_SIZE {
                return HeadResult::Bad(ParseError::TooLarge);
            }
            if headers.len() > MAX_HEADERS {
                return HeadResult::Bad(ParseError::TooLarge);
            }
            let decl = body_declaration(&headers);
            if decl.is_none() {
                return HeadResult::Bad(ParseError::Header);
            }
            let head = RequestHead { method, target, version, headers };
            return HeadResult::Head(head, end);
        }
        // One header line.
        let lslice = slice_subrange(buf, pos, leol);
        let ghost hline = buf@.subrange(pos as int, leol as int);
        assert(lslice@ == hline);
        let parsed = match decode_header_line(lslice) {
            Some(h) => h,
            None => {
                return HeadResult::Bad(ParseError::Header);
            },
        };
        proof {
            let out2 = parse_header_lines(buf@, leol as int + 2);
            assert(parse_header_lines(buf@, pos as int) == (match out2 {
                HeadersOut::Incomplete => HeadersOut::Incomplete,
                HeadersOut::Bad => HeadersOut::Bad,
                HeadersOut::Done(rest, end) => HeadersOut::Done(
                    seq![(parsed.0@, parsed.1@)] + rest,
                    end,
                ),
            }));
            if out2 is Done {
                let rest = out2->Done_0;
                assert((hv + seq![(parsed.0@, parsed.1@)]) + rest =~= hv + (seq![
                    (parsed.0@, parsed.1@),
                ] + rest));
            }
        }
        headers.push(parsed);
        proof {
            assert(headers_view(headers@) =~= hv + seq![
                (headers@.last().0@, headers@.last().1@),
            ]);
        }
        pos = leol + 2;
    }
}

/// The request line of `s` ends at `eol` and parses to the given parts.
pub open spec fn parse_head_prefix(
    s: Seq<u8>,
    eol: int,
    m: Seq<u8>,
    t: Seq<u8>,
    v: Version,
) -> bool {
    &&& find_crlf(s, 0) == Some(eol)
    &&& parse_request_line(s.subrange(0, eol)) == Ok::<_, ParseError>((m, t, v))
}

/// Read the body declaration out of a header list; mirrors `body_decl_of`.
/// `None` means the declaration is invalid and the head must be rejected.
pub fn body_declaration(headers: &Vec<(Vec<u8>, Vec<u8>)>) -> (r: Option<BodyKind>)
    ensures
        match r {
            Some(k) => body_decl_of(headers_view(headers@)) == Some(k),
            None => body_decl_of(headers_view(headers@)) is None,
        },
{
    proof { reveal_strlit("transfer-encoding"); }
    let te_name = lit_bytes("transfer-encoding");
    proof { reveal_strlit("chunked"); }
    let chunked = lit_bytes("chunked");
    match lookup_header(headers, te_name.as_slice()) {
        Some(te) => {
            if eq_ignore_case(te.as_slice(), chunked.as_slice()) {
                Some(BodyKind::Chunked)
            } else {
                Option::<BodyKind>::None
            }
        },
        None => {
            proof { reveal_strlit("content-length"); }
            let cl_name = lit_bytes("content-length");
            match lookup_header(headers, cl_name.as_slice()) {
                Some(cl) => {
                    let ghost clv = cl@;
                    assert(clv.subrange(0, clv.len() as int) =~= clv);
                    match parse_dec(cl.as_slice(), 0, cl.len()) {
                        Some(n) => {
                            if n == 0 {
                                Some(BodyKind::NoBody)
                            } else {
                                Some(BodyKind::Length(n))
                            }
                        },
                        None => Option::<BodyKind>::None,
                    }
                },
                None => Some(BodyKind::NoBody),
            }
        },
    }
}

/// Whether this head allows connection reuse; mirrors `head_keep_alive`.
pub fn request_keep_alive(head: &RequestHead) -> (r: bool)
    ensures
        r == head_keep_alive(head@.headers, head.version),
{
    proof { reveal_strlit("connection"); }
    let conn_name = lit_bytes("connection");
    match lookup_header(&head.headers, conn_name.as_slice()) {
        Some(c) => {
            proof { reveal_strlit("close"); }
            let close = lit_bytes("close");
            proof { reveal_strlit("keep-alive"); }
            let ka = lit_bytes("keep-alive");
            if eq_ignore_case(c.as_slice(), close.as_slice()) {
                false
            } else if eq_ignore_case(c.as_slice(), ka.as_slice()) {
                true
            } else {
                match head.version {
                    Version::Http11 => true,
                    Version::Http10 => false,
                }
            }
        },
        None => match head.version {
            Version::Http11 => true,
            Version::Http10 => false,
        },
    }
}

/// Whether this head asks for `100 Continue`; mirrors
/// `head_expect_continue`.
pub fn request_expects_continue(head: &RequestHead) -> (r: bool)
    ensures
        r == head_expect_continue(head@.headers),
{
    proof { reveal_strlit("expect"); }
    let expect_name = lit_bytes("expect");
    match lookup_header(&head.headers, expect_name.as_slice()) {
        Some(e) => {
            proof { reveal_strlit("100-continue"); }
            let cont = lit_bytes("100-continue");
            eq_ignore_case(e.as_slice(), cont.as_slice())
        },
        None => false,
    }
}

} // verus!

use crate::wire::{all_hex_digits, hex_val, parse_hex, CR, LF};

verus! {

// ------------------------------------------------------------------
// Stateful decoding: bodies
// ------------------------------------------------------------------
/// Phase of decoding a chunked body: expecting a size line, inside a chunk's
/// data, expecting the CRLF after a chunk, or skipping trailer lines.
#[derive(Debug, PartialEq, Eq, Structural, Copy, Clone)]
pub enum ChunkPhase {
    Size,
    Data(u64),
    DataEnd,
    Trailers,
}

/// What the decoder is in the middle of: a head, a length-delimited body
/// with so many bytes left, or a chunked body.
#[derive(Debug, PartialEq, Eq, Structural, Copy, Clone)]
pub enum DecodeState {
    Head,
    FixedBody(u64),
    Chunked(ChunkPhase),
}

/// The mathematical content of a decoded message.
pub ghost enum MsgView {
    Head(HeadView),
    Chunk(Seq<u8>),
    Eof,
}

/// Outcome of one decode call: progress (possibly without a message), with
/// the new decoder state and the position up to which the buffer was
/// consumed, or a parse failure.
pub ghost enum DecodeOut {
    Progress(Option<MsgView>, DecodeState, int),
    Bad(ParseError),
}

/// The decoder state that follows a freshly decoded head.
pub open spec fn state_after_head(hv: HeadView) -> DecodeState {
    match body_decl_of(hv.headers) {
        Some(BodyKind::Length(n)) => DecodeState::FixedBody(n),
        Some(BodyKind::Chunked) => DecodeState::Chunked(ChunkPhase::Size),
        _ => DecodeState::Head,
    }
}

/// The message type a freshly decoded head announces.
pub open spec fn mtype_after_head(hv: HeadView) -> MessageType {
    match body_decl_of(hv.headers) {
        Some(BodyKind::Length(n)) => MessageType::Payload,
        Some(BodyKind::Chunked) => MessageType::Stream,
        _ => MessageType::NoPayload,
    }
}

/// Decoding of a chunked body from position `from`. A malformed size line,
/// a missing CRLF after a chunk, or an unterminated size line past the head
/// limit are body corruption, reported as an IO-class parse error.
pub open spec fn decode_chunked(phase: ChunkPhase, s: Seq<u8>, from: int) -> DecodeOut
    decreases s.len() - from
        via decode_chunked_dec
{
    if from < 0 || from > s.len() {
        DecodeOut::Bad(ParseError::Io)
    } else {
        match phase {
            ChunkPhase::Size => match find_crlf(s, from) {
                None => if s.len() - from >= MAX_HEAD_SIZE {
                    DecodeOut::Bad(ParseError::Io)
                } else {
                    DecodeOut::Progress(
                        Option::<MsgView>::None,
                        DecodeState::Chunked(ChunkPhase::Size),
                        from,
                    )
                },
                Some(eol) => {
                    let szend = match find_byte(s, 59, from, eol) {
                        Some(i) => i,
                        None => eol,
                    };
                    let digits = s.subrange(from, szend);
                    if !(digits.len() > 0 && all_hex_digits(digits) && hex_val(digits)
                        <= u64::MAX) {
                        DecodeOut::Bad(ParseError::Io)
                    } else if hex_val(digits) == 0 {
                        decode_chunked(ChunkPhase::Trailers, s, eol + 2)
                    } else {
                        decode_chunked(ChunkPhase::Data(hex_val(digits) as u64), s, eol + 2)
                    }
                },
            },
            ChunkPhase::Data(rem) => if rem == 0 {
                DecodeOut::Progress(
                    Option::<MsgView>::None,
                    DecodeState::Chunked(ChunkPhase::DataEnd),
                    from,
                )
            } else if from >= s.len() {
                DecodeOut::Progress(
                    Option::<MsgView>::None,
                    DecodeState::Chunked(ChunkPhase::Data(rem)),
                    from,
                )
            } else {
                let avail = s.len() - from;
                let k: int = if rem as int <= avail {
                    rem as int
                } else {
                    avail as int
                };
                DecodeOut::Progress(
                    Some(MsgView::Chunk(s.subrange(from, from + k))),
                    DecodeState::Chunked(
                        if k == rem as int {
                            ChunkPhase::DataEnd
                        } else {
                            ChunkPhase::Data((rem - k) as u64)
                        },
                    ),
                    from + k,
                )
            },
            ChunkPhase::DataEnd => if s.len() - from < 2 {
                DecodeOut::Progress(
                    Option::<MsgView>::None,
                    DecodeState::Chunked(ChunkPhase::DataEnd),
                    from,
                )
            } else if s[from] == CR && s[from + 1] == LF {
                decode_chunked(ChunkPhase::Size, s, from + 2)
            } else {
                DecodeOut::Bad(ParseError::Io)
            },
            ChunkPhase::Trailers => match find_crlf(s, from) {
                None => if s.len() - from >= MAX_HEAD_SIZE {
                    DecodeOut::Bad(ParseError::Io)
                } else {
                    DecodeOut::Progress(
                        Option::<MsgView>::None,
                        DecodeState::Chunked(ChunkPhase::Trailers),
                        from,
                    )
                },
                Some(eol) => if eol == from {
                    DecodeOut::Progress(Some(MsgView::Eof), DecodeState::Head, from + 2)
                } else {
                    decode_chunked(ChunkPhase::Trailers, s, eol + 2)
                },
            },
        }
    }
}

#[via_fn]
proof fn decode_chunked_dec(phase: ChunkPhase, s: Seq<u8>, from: int) {
    if 0 <= from <= s.len() {
        lemma_find_crlf(s, from);
    }
}

/// One decode call: what message comes out of the buffer, the decoder state
/// after it, and how many bytes it consumes.
#[verifier::opaque]
pub open spec fn decode_spec(state: DecodeState, s: Seq<u8>) -> DecodeOut {
    match state {
        DecodeState::Head => match parse_head(s) {
            HeadOut::Incomplete => DecodeOut::Progress(
                Option::<MsgView>::None,
                DecodeState::Head,
                0,
            ),
            HeadOut::Bad(e) => DecodeOut::Bad(e),
            HeadOut::Head(hv, n) => DecodeOut::Progress(
                Some(MsgView::Head(hv)),
                state_after_head(hv),
                n,
            ),
        },
        DecodeState::FixedBody(rem) => if rem == 0 {
            DecodeOut::Progress(Some(MsgView::Eof), DecodeState::Head, 0)
        } else if s.len() == 0 {
            DecodeOut::Progress(Option::<MsgView>::None, DecodeState::FixedBody(rem), 0)
        } else {
            let k: int = if rem as int <= s.len() {
                rem as int
            } else {
                s.len() as int
            };
            DecodeOut::Progress(
                Some(MsgView::Chunk(s.subrange(0, k))),
                DecodeState::FixedBody((rem - k) as u64),
                k,
            )
        },
        DecodeState::Chunked(p) => decode_chunked(p, s, 0),
    }
}

/// Framing mode of the encoder, fixed by the head it last serialized.
#[derive(Debug, PartialEq, Eq, Structural, Copy, Clone)]
pub enum EncodeMode {
    /// The response carries no body bytes.
    NoFraming,
    /// Body bytes are written as they are.
    Raw,
    /// Body bytes are wrapped in chunk frames.
    Chunked,
}

/// The wire codec of one connection: decoder state, the framing of the
/// response being encoded, and the keep-alive decision of the last exchange.
pub struct Codec {
    /// Whether the server configuration allows connection reuse at all.
    pub keep_alive_enabled: bool,
    /// Decoder state.
    pub state: DecodeState,
    /// What kind of body follows the most recently decoded head.
    pub message_type: MessageType,
    /// Whether the connection may be reused after the current exchange.
    pub keepalive: bool,
    /// Framing of the response being encoded.
    pub encode_mode: EncodeMode,
    /// Version of the most recently decoded request.
    pub version: Version,
}

impl Codec {
    /// A fresh codec. Until a request announces otherwise, the keep-alive
    /// decision is the configuration's.
    pub fn new(keep_alive_enabled: bool) -> (r: Codec)
        ensures
            r.keep_alive_enabled == keep_alive_enabled,
            r.state == DecodeState::Head,
            r.message_type == MessageType::NoPayload,
            r.keepalive == keep_alive_enabled,
            r.encode_mode == EncodeMode::NoFraming,
            r.version == Version::Http11,
    {
        Codec {
            keep_alive_enabled,
            state: DecodeState::Head,
            message_type: MessageType::NoPayload,
            keepalive: keep_alive_enabled,
            encode_mode: EncodeMode::NoFraming,
            version: Version::Http11,
        }
    }

    /// Whether the connection may be reused after the current exchange.
    pub fn keepalive(&self) -> (r: bool)
        ensures
            r == self.keepalive,
    {
        self.keepalive
    }

    /// What kind of body follows the most recently decoded head.
    pub fn message_type(&self) -> (r: MessageType)
        ensures
            r == self.message_type,
    {
        self.message_type
    }

    /// Decode at most one message from the front of `buf`, consuming exactly
    /// the bytes the message (or the partial body framing) occupies. The
    /// outcome, the bytes consumed and the new decoder state are exactly
    /// those of `decode_spec`; a head additionally fixes the codec's message
    /// type and keep-alive decision.
    pub fn decode(&mut self, buf: &mut Vec<u8>) -> (r: Result<Option<Message>, ParseError>)
        ensures
            match decode_spec(old(self).state, old(buf)@) {
                DecodeOut::Progress(m, st, n) => {
                    &&& final(self).state == st
                    &&& final(buf)@ == old(buf)@.skip(n)
                    &&& final(self).keep_alive_enabled == old(self).keep_alive_enabled
                    &&& final(self).encode_mode == old(self).encode_mode
                    &&& match m {
                        Option::<MsgView>::None => {
                            &&& r matches Ok(Option::<Message>::None)
                            &&& final(self).message_type == old(self).message_type
                            &&& final(self).keepalive == old(self).keepalive
                            &&& final(self).version == old(self).version
                        },
                        Some(MsgView::Head(hv)) => {
                            &&& r matches Ok(Some(Message::Item(h))) && h@ == hv
                            &&& final(self).message_type == mtype_after_head(hv)
                            &&& final(self).keepalive == (old(self).keep_alive_enabled
                                && head_keep_alive(hv.headers, hv.version))
                            &&& final(self).version == hv.version
                        },
                        Some(MsgView::Chunk(b)) => {
                            &&& r matches Ok(Some(Message::Chunk(Some(v)))) && v@ == b
                            &&& final(self).message_type == old(self).message_type
                            &&& final(self).keepalive == old(self).keepalive
                            &&& final(self).version == old(self).version
                        },
                        Some(MsgView::Eof) => {
                            &&& r matches Ok(Some(Message::Chunk(Option::<Vec<u8>>::None)))
                            &&& final(self).message_type == old(self).message_type
                            &&& final(self).keepalive == old(self).keepalive
                            &&& final(self).version == old(self).version
                        },
                    }
                },
                DecodeOut::Bad(e) => r == Err::<Option<Message>, ParseError>(e) && *final(self)
                    == *old(self) && final(buf)@ == old(buf)@,
            },
    {
        proof {
            reveal(decode_spec);
        }
        let ghost s = buf@;
        match self.state {
            DecodeState::Head => {
                match decode_head(buf.as_slice()) {
                    HeadResult::Incomplete => {
                        assert(buf@ =~= s.skip(0));
                        Ok(Option::<Message>::None)
                    },
                    HeadResult::Bad(e) => Err(e),
                    HeadResult::Head(h, n) => {
                        proof {
                            lemma_parse_head_len(buf@);
                        }
                        let decl = match body_declaration(&h.headers) {
                            Some(k) => k,
                            None => {
                                // A parsed head always carries a readable
                                // body declaration.
                                assert(false);
                                BodyKind::NoBody
                            },
                        };
                        self.state = match decl {
                            BodyKind::Length(len) => DecodeState::FixedBody(len),
                            BodyKind::Chunked => DecodeState::Chunked(ChunkPhase::Size),
                            BodyKind::NoBody => DecodeState::Head,
                        };
                        self.message_type = match decl {
                            BodyKind::Length(_) => MessageType::Payload,
                            BodyKind::Chunked => MessageType::Stream,
                            BodyKind::NoBody => MessageType::NoPayload,
                        };
                        self.keepalive = self.keep_alive_enabled && request_keep_alive(&h);
                        self.version = h.version;
                        let tail = buf.split_off(n);
                        *buf = tail;
                        assert(buf@ =~= s.skip(n as int));
                        Ok(Some(Message::Item(h)))
                    },
                }
            },
            DecodeState::FixedBody(rem) => {
                if rem == 0 {
                    self.state = DecodeState::Head;
                    assert(buf@ =~= s.skip(0));
                    Ok(Some(Message::Chunk(Option::<Vec<u8>>::None)))
                } else if buf.len() == 0 {
                    assert(buf@ =~= s.skip(0));
                    Ok(Option::<Message>::None)
                } else {
                    let len = buf.len();
                    let k: usize = if rem <= len as u64 {
                        rem as usize
                    } else {
                        len
                    };
                    let data = copy_range(buf.as_slice(), 0, k);
                    let tail = buf.split_off(k);
                    *buf = tail;
                    self.state = DecodeState::FixedBody(rem - k as u64);
                    assert(buf@ =~= s.skip(k as int));
                    Ok(Some(Message::Chunk(Some(data))))
                }
            },
            DecodeState::Chunked(phase0) => {
                let mut phase = phase0;
                let mut pos: usize = 0;
                let len = buf.len();
                loop
                    invariant
                        pos <= len,
                        len == buf@.len(),
                        s == buf@,
                        s == old(buf)@,
                        *self == *old(self),
                        old(self).state == DecodeState::Chunked(phase0),
                        decode_chunked(phase0, s, 0) == decode_chunked(phase, s, pos as int),
                    decreases len - pos,
                {
                    proof {
                        reveal(decode_spec);
                    }
                    match phase {
                        ChunkPhase::Size => {
                            match scan_crlf(buf.as_slice(), pos) {
                                None => {
                                    if len - pos >= MAX_HEAD_SIZE {
                                        return Err(ParseError::Io);
                                    }
                                    let tail = buf.split_off(pos);
                                    *buf = tail;
                                    self.state = DecodeState::Chunked(ChunkPhase::Size);
                                    assert(buf@ =~= s.skip(pos as int));
                                    return Ok(Option::<Message>::None);
                                },
                                Some(eol) => {
                                    let szend = match scan_byte(buf.as_slice(), 59, pos, eol) {
                                        Some(i) => i,
                                        None => eol,
                                    };
                                    match parse_hex(buf.as_slice(), pos, szend) {
                                        Some(sz) => {
                                            if sz == 0 {
                                                assert(decode_chunked(phase, s, pos as int)
                                                    == decode_chunked(
                                                    ChunkPhase::Trailers,
                                                    s,
                                                    eol + 2,
                                                ));
                                                phase = ChunkPhase::Trailers;
                                            } else {
                                                assert(decode_chunked(phase, s, pos as int)
                                                    == decode_chunked(
                                                    ChunkPhase::Data(sz),
                                                    s,
                                                    eol + 2,
                                                ));
                                                phase = ChunkPhase::Data(sz);
                                            }
                                            pos = eol + 2;
                                        },
                                        None => {
                                            return Err(ParseError::Io);
                                        },
                                    }
                                },
                            }
                        },
                        ChunkPhase::Data(rem) => {
                            if rem == 0 {
                                let tail = buf.split_off(pos);
                                *buf = tail;
                                self.state = DecodeState::Chunked(ChunkPhase::DataEnd);
                                assert(buf@ =~= s.skip(pos as int));
                                return Ok(Option::<Message>::None);
                            }
                            if pos >= len {
                                let tail = buf.split_off(pos);
                                *buf = tail;
                                self.state = DecodeState::Chunked(ChunkPhase::Data(rem));
                                assert(buf@ =~= s.skip(pos as int));
                                return Ok(Option::<Message>::None);
                            }
                            let avail = len - pos;
                            let k: usize = if rem <= avail as u64 {
                                rem as usize
                            } else {
                                avail
                            };
                            let data = copy_range(buf.as_slice(), pos, pos + k);
                            let newphase = if k as u64 == rem {
                                ChunkPhase::DataEnd
                            } else {
                                ChunkPhase::Data(rem - k as u64)
                            };
                            let tail = buf.split_off(pos + k);
                            *buf = tail;
                            self.state = DecodeState::Chunked(newphase);
                            assert(buf@ =~= s.skip(pos as int + k as int));
                            return Ok(Some(Message::Chunk(Some(data))));
                        },
                        ChunkPhase::DataEnd => {
                            if len - pos < 2 {
                                let tail = buf.split_off(pos);
                                *buf = tail;
                                self.state = DecodeState::Chunked(ChunkPhase::DataEnd);
                                assert(buf@ =~= s.skip(pos as int));
                                return Ok(Option::<Message>::None);
                            }
                            if buf[pos] == CR && buf[pos + 1] == LF {
                                assert(decode_chunked(phase, s, pos as int) == decode_chunked(
                                    ChunkPhase::Size,
                                    s,
                                    pos as int + 2,
                                ));
                                phase = ChunkPhase::Size;
                                pos = pos + 2;
                            } else {
                                return Err(ParseError::Io);
                            }
                        },
                        ChunkPhase::Trailers => {
                            match scan_crlf(buf.as_slice(), pos) {
                                None => {
                                    if len - pos >= MAX_HEAD_SIZE {
                                        return Err(ParseError::Io);
                                    }
                                    let tail = buf.split_off(pos);
                                    *buf = tail;
                                    self.state = DecodeState::Chunked(ChunkPhase::Trailers);
                                    assert(buf@ =~= s.skip(pos as int));
                                    return Ok(Option::<Message>::None);
                                },
                                Some(eol) => {
                                    if eol == pos {
                                        let tail = buf.split_off(pos + 2);
                                        *buf = tail;
                                        self.state = DecodeState::Head;
                                        assert(buf@ =~= s.skip(pos as int + 2));
                                        return Ok(Some(Message::Chunk(Option::<Vec<u8>>::None)));
                                    }
                                    assert(decode_chunked(phase, s, pos as int) == decode_chunked(
                                        ChunkPhase::Trailers,
                                        s,
                                        eol + 2,
                                    ));
                                    pos = eol + 2;
                                },
                            }
                        },
                    }
                }
            },
        }
    }
}

/// A parsed header section ends after its start and within the buffer.
pub proof fn lemma_header_lines_end(s: Seq<u8>, from: int)
    requires
        0 <= from <= s.len(),
    ensures
        parse_header_lines(s, from) matches HeadersOut::Done(hs, end) ==> from < end <= s.len(),
    decreases s.len() - from,
{
    lemma_find_crlf(s, from);
    match find_crlf(s, from) {
        Some(eol) => {
            if eol != from {
                match parse_header_line(s.subrange(from, eol)) {
                    Some(h) => {
                        lemma_header_lines_end(s, eol + 2);
                    },
                    None => {},
                }
            }
        },
        None => {},
    }
}

/// A parsed head occupies at least one byte and at most the whole buffer.
pub proof fn lemma_parse_head_len(s: Seq<u8>)
    ensures
        parse_head(s) matches HeadOut::Head(hv, n) ==> 0 < n <= s.len(),
{
    lemma_find_crlf(s, 0);
    match find_crlf(s, 0) {
        Some(eol) => {
            lemma_header_lines_end(s, eol + 2);
        },
        None => {},
    }
}

} // verus!

use crate::body::BodySize;
use crate::wire::{dec_rep, hex_rep, lemma_add_assoc, u64_to_dec, u64_to_hex};

verus! {

// ------------------------------------------------------------------
// Encoding
// ------------------------------------------------------------------
/// A response head to be serialized: status, headers, and whether the
/// response itself demands that the connection close.
pub struct ResponseHead {
    pub status: u16,
    pub headers: Vec<(Vec<u8>, Vec<u8>)>,
    pub close: bool,
}

pub open spec fn crlf() -> Seq<u8> {
    seq![CR, LF]
}

/// The reason phrase written after the status code, for the statuses this
/// core emits.
pub open spec fn reason_phrase(status: u16) -> Seq<char> {
    if status == 100 {
        "Continue"@
    } else if status == 200 {
        "OK"@
    } else if status == 400 {
        "Bad Request"@
    } else if status == 404 {
        "Not Found"@
    } else if status == 408 {
        "Request Timeout"@
    } else if status == 411 {
        "Length Required"@
    } else if status == 413 {
        "Payload Too Large"@
    } else if status == 500 {
        "Internal Server Error"@
    } else {
        "Unknown"@
    }
}

/// The status line of a response.
pub open spec fn status_line(status: u16) -> Seq<u8> {
    ascii_bytes("HTTP/1.1 "@) + dec_rep(status as nat) + seq![SP] + ascii_bytes(
        reason_phrase(status),
    ) + crlf()
}

/// Header names the encoder owns: it frames bodies and the connection
/// itself, so user copies of these are dropped.
pub open spec fn is_managed_name(n: Seq<u8>) -> bool {
    ||| eq_ci(n, ascii_bytes("content-length"@))
    ||| eq_ci(n, ascii_bytes("transfer-encoding"@))
    ||| eq_ci(n, ascii_bytes("connection"@))
}

/// The user's headers with the managed names dropped.
pub open spec fn user_pairs(hs: Seq<(Seq<u8>, Seq<u8>)>) -> Seq<(Seq<u8>, Seq<u8>)>
    decreases hs.len(),
{
    if hs.len() == 0 {
        Seq::empty()
    } else {
        user_pairs(hs.drop_last()) + (if is_managed_name(hs.last().0) {
            Seq::empty()
        } else {
            seq![hs.last()]
        })
    }
}

/// The framing headers a body-size hint demands: nothing for `NoBody` and
/// `Empty`, an exact `content-length` for the sized hints, chunked transfer
/// coding for a stream.
pub open spec fn framing_pairs(size: BodySize) -> Seq<(Seq<u8>, Seq<u8>)> {
    match size {
        BodySize::NoBody => Seq::empty(),
        BodySize::Empty => Seq::empty(),
        BodySize::Sized(n) => seq![(ascii_bytes("content-length"@), dec_rep(n as nat))],
        BodySize::Sized64(n) => seq![(ascii_bytes("content-length"@), dec_rep(n as nat))],
        BodySize::Stream => seq![(ascii_bytes("transfer-encoding"@), ascii_bytes("chunked"@))],
    }
}

/// The connection header of a response: `close` when the connection will
/// not be reused, `keep-alive` when it will and the client spoke HTTP/1.0.
pub open spec fn connection_pairs(keepalive: bool, version: Version) -> Seq<(Seq<u8>, Seq<u8>)> {
    if !keepalive {
        seq![(ascii_bytes("connection"@), ascii_bytes("close"@))]
    } else if version is Http10 {
        seq![(ascii_bytes("connection"@), ascii_bytes("keep-alive"@))]
    } else {
        Seq::empty()
    }
}

/// Every header pair a response head emits, in order.
pub open spec fn head_pairs(
    hs: Seq<(Seq<u8>, Seq<u8>)>,
    size: BodySize,
    keepalive: bool,
    version: Version,
) -> Seq<(Seq<u8>, Seq<u8>)> {
    user_pairs(hs) + framing_pairs(size) + connection_pairs(keepalive, version)
}

/// One serialized header line.
pub open spec fn header_line_bytes(h: (Seq<u8>, Seq<u8>)) -> Seq<u8> {
    h.0 + ascii_bytes(": "@) + h.1 + crlf()
}

/// The serialized header section.
pub open spec fn header_block(hs: Seq<(Seq<u8>, Seq<u8>)>) -> Seq<u8>
    decreases hs.len(),
{
    if hs.len() == 0 {
        Seq::empty()
    } else {
        header_block(hs.drop_last()) + header_line_bytes(hs.last())
    }
}

/// The full serialized response head.
pub open spec fn encoded_head(
    status: u16,
    hs: Seq<(Seq<u8>, Seq<u8>)>,
    size: BodySize,
    keepalive: bool,
    version: Version,
) -> Seq<u8> {
    status_line(status) + header_block(head_pairs(hs, size, keepalive, version)) + crlf()
}

/// The bytes one body fragment puts on the wire under an encoding mode.
pub open spec fn chunk_frame(mode: EncodeMode, data: Seq<u8>) -> Seq<u8> {
    match mode {
        EncodeMode::NoFraming => Seq::empty(),
        EncodeMode::Raw => data,
        EncodeMode::Chunked => hex_rep(data.len()) + crlf() + data + crlf(),
    }
}

/// The bytes the end of a body puts on the wire: the terminating zero-length
/// chunk frame for chunked framing, nothing otherwise.
pub open spec fn eof_frame(mode: EncodeMode) -> Seq<u8> {
    match mode {
        EncodeMode::Chunked => seq![48u8, CR, LF, CR, LF],
        _ => Seq::empty(),
    }
}

/// The encoding mode a body-size hint selects.
pub open spec fn mode_for(size: BodySize) -> EncodeMode {
    match size {
        BodySize::NoBody => EncodeMode::NoFraming,
        BodySize::Empty => EncodeMode::NoFraming,
        BodySize::Sized(_) => EncodeMode::Raw,
        BodySize::Sized64(_) => EncodeMode::Raw,
        BodySize::Stream => EncodeMode::Chunked,
    }
}

/// The reason phrase of a status; mirrors `reason_phrase`.
fn reason_bytes(status: u16) -> (r: Vec<u8>)
    ensures
        r@ == ascii_bytes(reason_phrase(status)),
{
    if status == 100 {
        proof { reveal_strlit("Continue"); }
        lit_bytes("Continue")
    } else if status == 200 {
        proof { reveal_strlit("OK"); }
        lit_bytes("OK")
    } else if status == 400 {
        proof { reveal_strlit("Bad Request"); }
        lit_bytes("Bad Request")
    } else if status == 404 {
        proof { reveal_strlit("Not Found"); }
        lit_bytes("Not Found")
    } else if status == 408 {
        proof { reveal_strlit("Request Timeout"); }
        lit_bytes("Request Timeout")
    } else if status == 411 {
        proof { reveal_strlit("Length Required"); }
        lit_bytes("Length Required")
    } else if status == 413 {
        proof { reveal_strlit("Payload Too Large"); }
        lit_bytes("Payload Too Large")
    } else if status == 500 {
        proof { reveal_strlit("Internal Server Error"); }
        lit_bytes("Internal Server Error")
    } else {
        proof { reveal_strlit("Unknown"); }
        lit_bytes("Unknown")
    }
}

/// Append one serialized header line; mirrors `header_line_bytes`.
fn push_header_line(out: &mut Vec<u8>, name: &[u8], value: &[u8])
    ensures
        final(out)@ == old(out)@ + header_line_bytes((name@, value@)),
{
    let ghost base = out@;
    out.extend_from_slice(name);
    proof { reveal_strlit(": "); }
    let sep = lit_bytes(": ");
    out.extend_from_slice(sep.as_slice());
    out.extend_from_slice(value);
    out.push(CR);
    out.push(LF);
    assert(out@ =~= base + header_line_bytes((name@, value@)));
}

impl Codec {
    /// Serialize a response head onto `out`: the status line, the user's
    /// headers except the managed ones, the framing the body-size hint
    /// demands, and the connection header. Fixes the keep-alive decision of
    /// the exchange and the framing of the body bytes that follow.
    #[verifier::rlimit(80)]
    pub fn encode_head(&mut self, resp: &ResponseHead, size: BodySize, out: &mut Vec<u8>)
        ensures
            final(self).keepalive == (old(self).keepalive && !resp.close),
            final(self).encode_mode == mode_for(size),
            final(self).keep_alive_enabled == old(self).keep_alive_enabled,
            final(self).state == old(self).state,
            final(self).message_type == old(self).message_type,
            final(self).version == old(self).version,
            final(out)@ == old(out)@ + encoded_head(
                resp.status,
                headers_view(resp.headers@),
                size,
                old(self).keepalive && !resp.close,
                old(self).version,
            ),
    {
        let ghost base = out@;
        let ghost hv = headers_view(resp.headers@);
        self.keepalive = self.keepalive && !resp.close;
        self.encode_mode = match size {
            BodySize::NoBody => EncodeMode::NoFraming,
            BodySize::Empty => EncodeMode::NoFraming,
            BodySize::Sized(_) => EncodeMode::Raw,
            BodySize::Sized64(_) => EncodeMode::Raw,
            BodySize::Stream => EncodeMode::Chunked,
        };
        // Status line.
        proof { reveal_strlit("HTTP/1.1 "); }
        let proto = lit_bytes("HTTP/1.1 ");
        out.extend_from_slice(proto.as_slice());
        let mut code = u64_to_dec(resp.status as u64);
        out.append(&mut code);
        out.push(SP);
        let reason = reason_bytes(resp.status);
        out.extend_from_slice(reason.as_slice());
        out.push(CR);
        out.push(LF);
        assert(out@ =~= base + status_line(resp.status));

        // User headers, the managed names dropped.
        proof { reveal_strlit("content-length"); }
        proof { reveal_strlit("transfer-encoding"); }
        proof { reveal_strlit("connection"); }
        let cl_name = lit_bytes("content-length");
        let te_name = lit_bytes("transfer-encoding");
        let conn_name = lit_bytes("connection");
        let n = resp.headers.len();
        let mut i: usize = 0;
        while i < n
            invariant
                0 <= i <= n,
                n == resp.headers@.len(),
                hv == headers_view(resp.headers@),
                cl_name@ == ascii_bytes("content-length"@),
                te_name@ == ascii_bytes("transfer-encoding"@),
                conn_name@ == ascii_bytes("connection"@),
                out@ == base + status_line(resp.status) + header_block(
                    user_pairs(hv.subrange(0, i as int)),
                ),
            decreases n - i,
        {
            let ghost pre = hv.subrange(0, i as int);
            let ghost cur = hv.subrange(0, i as int + 1);
            assert(cur.drop_last() =~= pre);
            assert(hv[i as int] == (resp.headers@[i as int].0@, resp.headers@[i as int].1@));
            let name = &resp.headers[i].0;
            let managed = eq_ignore_case(name.as_slice(), cl_name.as_slice()) || eq_ignore_case(
                name.as_slice(),
                te_name.as_slice(),
            ) || eq_ignore_case(name.as_slice(), conn_name.as_slice());
            if managed {
                assert(user_pairs(cur) =~= user_pairs(pre));
            } else {
                push_header_line(out, resp.headers[i].0.as_slice(), resp.headers[i].1.as_slice());
                proof {
                    assert(user_pairs(cur) =~= user_pairs(pre) + seq![hv[i as int]]);
                    assert((user_pairs(pre) + seq![hv[i as int]]).drop_last() =~= user_pairs(pre));
                    assert(out@ =~= base + status_line(resp.status) + header_block(
                        user_pairs(cur),
                    ));
                }
            }
            i = i + 1;
        }
        assert(hv.subrange(0, n as int) =~= hv);
        let ghost up = user_pairs(hv);

        // Framing headers.
        match size {
            BodySize::NoBody => {
                assert(up + framing_pairs(size) =~= up);
            },
            BodySize::Empty => {
                assert(up + framing_pairs(size) =~= up);
            },
            BodySize::Sized(len) => {
                let v = u64_to_dec(len as u64);
                push_header_line(out, cl_name.as_slice(), v.as_slice());
                proof {
                    let fp = (ascii_bytes("content-length"@), dec_rep(len as nat));
                    assert(v@ == fp.1);
                    assert((up + seq![fp]).drop_last() =~= up);
                    assert((up + seq![fp]).last() == fp);
                    assert(header_block(up + seq![fp]) == header_block(up) + header_line_bytes(fp));
                    assert(up + framing_pairs(size) =~= up + seq![fp]);
                    lemma_add_assoc(
                        base + status_line(resp.status),
                        header_block(up),
                        header_line_bytes(fp),
                    );
                    assert(out@ == base + status_line(resp.status) + header_block(
                        up + framing_pairs(size),
                    ));
                }
            },
            BodySize::Sized64(len) => {
                let v = u64_to_dec(len);
                push_header_line(out, cl_name.as_slice(), v.as_slice());
                proof {
                    let fp = (ascii_bytes("content-length"@), dec_rep(len as nat));
                    assert(v@ == fp.1);
                    assert((up + seq![fp]).drop_last() =~= up);
                    assert((up + seq![fp]).last() == fp);
                    assert(header_block(up + seq![fp]) == header_block(up) + header_line_bytes(fp));
                    assert(up + framing_pairs(size) =~= up + seq![fp]);
                    lemma_add_assoc(
                        base + status_line(resp.status),
                        header_block(up),
                        header_line_bytes(fp),
                    );
                    assert(out@ == base + status_line(resp.status) + header_block(
                        up + framing_pairs(size),
                    ));
                }
            },
            BodySize::Stream => {
                proof { reveal_strlit("chunked"); }
                let v = lit_bytes("chunked");
                push_header_line(out, te_name.as_slice(), v.as_slice());
                proof {
                    let fp = (ascii_bytes("transfer-encoding"@), ascii_bytes("chunked"@));
                    assert(v@ == fp.1);
                    assert((up + seq![fp]).drop_last() =~= up);
                    assert((up + seq![fp]).last() == fp);
                    assert(header_block(up + seq![fp]) == header_block(up) + header_line_bytes(fp));
                    assert(up + framing_pairs(size) =~= up + seq![fp]);
                    lemma_add_assoc(
                        base + status_line(resp.status),
                        header_block(up),
                        header_line_bytes(fp),
                    );
                    assert(out@ == base + status_line(resp.status) + header_block(
                        up + framing_pairs(size),
                    ));
                }
            },
        }
        let ghost uf = up + framing_pairs(size);
        assert(out@ == base + status_line(resp.status) + header_block(uf));

        // Connection header.
        if !self.keepalive {
            proof { reveal_strlit("close"); }
            let v = lit_bytes("close");
            push_header_line(out, conn_name.as_slice(), v.as_slice());
            proof {
                let cp = (ascii_bytes("connection"@), ascii_bytes("close"@));
                assert(v@ == cp.1);
                assert((uf + seq![cp]).drop_last() =~= uf);
                assert((uf + seq![cp]).last() == cp);
                assert(header_block(uf + seq![cp]) == header_block(uf) + header_line_bytes(cp));
                assert(uf + connection_pairs(self.keepalive, self.version) =~= uf + seq![cp]);
                lemma_add_assoc(
                    base + status_line(resp.status),
                    header_block(uf),
                    header_line_bytes(cp),
                );
                assert(out@ == base + status_line(resp.status) + header_block(
                    uf + connection_pairs(self.keepalive, self.version),
                ));
            }
        } else {
            match self.version {
                Version::Http10 => {
                    proof { reveal_strlit("keep-alive"); }
                    let v = lit_bytes("keep-alive");
                    push_header_line(out, conn_name.as_slice(), v.as_slice());
                    proof {
                        let cp = (ascii_bytes("connection"@), ascii_bytes("keep-alive"@));
                        assert(v@ == cp.1);
                        assert((uf + seq![cp]).drop_last() =~= uf);
                        assert((uf + seq![cp]).last() == cp);
                        assert(header_block(uf + seq![cp]) == header_block(uf)
                            + header_line_bytes(cp));
                        assert(uf + connection_pairs(self.keepalive, self.version) =~= uf + seq![
                            cp,
                        ]);
                        lemma_add_assoc(
                            base + status_line(resp.status),
                            header_block(uf),
                            header_line_bytes(cp),
                        );
                        assert(out@ == base + status_line(resp.status) + header_block(
                            uf + connection_pairs(self.keepalive, self.version),
                        ));
                    }
                },
                Version::Http11 => {
                    assert(uf + connection_pairs(self.keepalive, self.version) =~= uf);
                },
            }
        }
        out.push(CR);
        out.push(LF);
        proof {
            let pairs = head_pairs(hv, size, self.keepalive, self.version);
            assert(pairs =~= uf + connection_pairs(self.keepalive, self.version));
            let block = header_block(pairs);
            assert(out@ =~= (base + status_line(resp.status) + block) + crlf());
            lemma_add_assoc(base + status_line(resp.status), block, crlf());
            lemma_add_assoc(base, status_line(resp.status), block + crlf());
            lemma_add_assoc(status_line(resp.status), block, crlf());
            assert(out@ == base + encoded_head(
                resp.status,
                hv,
                size,
                self.keepalive,
                self.version,
            ));
        }
    }

    /// Serialize one body fragment under the current framing: a chunk frame
    /// for chunked framing, the bytes themselves for a sized body. Chunked
    /// framing takes only non-empty fragments: an empty chunk frame would
    /// read as the end of the body.
    pub fn encode_chunk(&mut self, data: &[u8], out: &mut Vec<u8>)
        requires
            old(self).encode_mode is Chunked ==> data@.len() > 0,
        ensures
            *final(self) == *old(self),
            final(out)@ == old(out)@ + chunk_frame(old(self).encode_mode, data@),
    {
        let ghost base = out@;
        match self.encode_mode {
            EncodeMode::NoFraming => {},
            EncodeMode::Raw => {
                out.extend_from_slice(data);
                assert(out@ =~= base + chunk_frame(self.encode_mode, data@));
            },
            EncodeMode::Chunked => {
                let mut sz = u64_to_hex(data.len() as u64);
                out.append(&mut sz);
                out.push(CR);
                out.push(LF);
                out.extend_from_slice(data);
                out.push(CR);
                out.push(LF);
                assert(out@ =~= base + chunk_frame(self.encode_mode, data@));
            },
        }
    }

    /// Serialize the end of the response body: the terminating zero-length
    /// chunk frame under chunked framing, nothing otherwise. Resets the
    /// framing for the next exchange.
    pub fn encode_eof(&mut self, out: &mut Vec<u8>)
        ensures
            final(self).encode_mode == EncodeMode::NoFraming,
            final(self).keep_alive_enabled == old(self).keep_alive_enabled,
            final(self).state == old(self).state,
            final(self).message_type == old(self).message_type,
            final(self).keepalive == old(self).keepalive,
            final(self).version == old(self).version,
            final(out)@ == old(out)@ + eof_frame(old(self).encode_mode),
    {
        let ghost base = out@;
        match self.encode_mode {
            EncodeMode::Chunked => {
                out.push(48);
                out.push(CR);
                out.push(LF);
                out.push(CR);
                out.push(LF);
                assert(out@ =~= base + eof_frame(self.encode_mode));
            },
            _ => {
                assert(out@ =~= base + eof_frame(self.encode_mode));
            },
        }
        self.encode_mode = EncodeMode::NoFraming;
    }
}

} // verus!

verus! {

/// The value of a freshly created codec.
pub open spec fn spec_new_codec(keep_alive_enabled: bool) -> Codec {
    Codec {
        keep_alive_enabled,
        state: DecodeState::Head,
        message_type: MessageType::NoPayload,
        keepalive: keep_alive_enabled,
        encode_mode: EncodeMode::NoFraming,
        version: Version::Http11,
    }
}

/// Chunked decoding consumes no more than the buffer and, when it yields a
/// message, at least one byte.
pub proof fn lemma_chunked_bounds(phase: ChunkPhase, s: Seq<u8>, from: int)
    requires
        0 <= from <= s.len(),
    ensures
        match decode_chunked(phase, s, from) {
            DecodeOut::Progress(msg, st, n) => from <= n <= s.len() && (msg is Some ==> n > from),
            DecodeOut::Bad(_) => true,
        },
    decreases s.len() - from,
{
    lemma_find_crlf(s, from);
    match phase {
        ChunkPhase::Size => {
            match find_crlf(s, from) {
                Some(eol) => {
                    crate::wire::lemma_find_byte(s, 59, from, eol);
                    let szend = match find_byte(s, 59, from, eol) {
                        Some(i) => i,
                        None => eol,
                    };
                    let digits = s.subrange(from, szend);
                    if digits.len() > 0 && all_hex_digits(digits) && hex_val(digits) <= u64::MAX {
                        if hex_val(digits) == 0 {
                            lemma_chunked_bounds(ChunkPhase::Trailers, s, eol + 2);
                            assert(decode_chunked(phase, s, from) == decode_chunked(
                                ChunkPhase::Trailers,
                                s,
                                eol + 2,
                            ));
                        } else {
                            lemma_chunked_bounds(
                                ChunkPhase::Data(hex_val(digits) as u64),
                                s,
                                eol + 2,
                            );
                            assert(decode_chunked(phase, s, from) == decode_chunked(
                                ChunkPhase::Data(hex_val(digits) as u64),
                                s,
                                eol + 2,
                            ));
                        }
                    } else {
                        assert(decode_chunked(phase, s, from) == DecodeOut::Bad(ParseError::Io));
                    }
                },
                None => {},
            }
        },
        ChunkPhase::Data(rem) => {},
        ChunkPhase::DataEnd => {
            if s.len() - from >= 2 && s[from] == crate::wire::CR && s[from + 1]
                == crate::wire::LF {
                lemma_chunked_bounds(ChunkPhase::Size, s, from + 2);
            }
        },
        ChunkPhase::Trailers => {
            match find_crlf(s, from) {
                Some(eol) => {
                    if eol != from {
                        lemma_chunked_bounds(ChunkPhase::Trailers, s, eol + 2);
                    }
                },
                None => {},
            }
        },
    }
}

/// One decode step consumes no more than the buffer; a message consumes at
/// least one byte, except leaving a fully-consumed length-delimited body.
pub proof fn lemma_decode_bounds(state: DecodeState, s: Seq<u8>)
    ensures
        match decode_spec(state, s) {
            DecodeOut::Progress(msg, st, n) => {
                &&& 0 <= n <= s.len()
                &&& (msg matches Some(MsgView::Head(hv)) ==> n > 0)
                &&& (msg matches Some(MsgView::Chunk(b)) ==> n > 0)
                &&& (msg matches Some(MsgView::Eof) ==> n > 0 || (state == DecodeState::FixedBody(
                    0u64,
                ) && st == DecodeState::Head))
            },
            DecodeOut::Bad(_) => true,
        },
{
    reveal(decode_spec);
    match state {
        DecodeState::Head => {
            lemma_parse_head_len(s);
        },
        DecodeState::FixedBody(rem) => {},
        DecodeState::Chunked(p) => {
            lemma_chunked_bounds(p, s, 0);
        },
    }
}

} // verus!

verus! {

/// Appending bytes to a buffer does not move a CRLF already found.
pub proof fn lemma_find_crlf_stable(a: Seq<u8>, t: Seq<u8>, from: int)
    requires
        0 <= from <= a.len(),
    ensures
        find_crlf(a, from) matches Some(j) ==> find_crlf(a + t, from) == Some(j),
    decreases a.len() - from,
{
    if from + 2 <= a.len() {
        assert((a + t)[from] == a[from]);
        assert((a + t)[from + 1] == a[from + 1]);
        if !(a[from] == crate::wire::CR && a[from + 1] == crate::wire::LF) {
            lemma_find_crlf_stable(a, t, from + 1);
        }
    }
}

/// Appending bytes to a buffer does not change a header section already
/// parsed to completion.
pub proof fn lemma_header_lines_stable(a: Seq<u8>, t: Seq<u8>, from: int)
    requires
        0 <= from <= a.len(),
    ensures
        parse_header_lines(a, from) matches HeadersOut::Done(hs, end) ==> parse_header_lines(
            a + t,
            from,
        ) == HeadersOut::Done(hs, end),
    decreases a.len() - from,
{
    lemma_find_crlf(a, from);
    lemma_find_crlf_stable(a, t, from);
    match find_crlf(a, from) {
        Some(eol) => {
            if eol == from {
            } else {
                assert((a + t).subrange(from, eol) =~= a.subrange(from, eol));
                match parse_header_line(a.subrange(from, eol)) {
                    Some(h) => {
                        lemma_header_lines_stable(a, t, eol + 2);
                    },
                    None => {},
                }
            }
        },
        None => {},
    }
}

/// Appending bytes to a buffer does not change a head already parsed to
/// completion: pipelined data behind a complete head leaves it as it is.
pub proof fn lemma_parse_head_stable(a: Seq<u8>, t: Seq<u8>)
    ensures
        parse_head(a) matches HeadOut::Head(hv, n) ==> parse_head(a + t) == HeadOut::Head(hv, n),
    decreases a.len(),
{
    lemma_find_crlf(a, 0);
    lemma_find_crlf_stable(a, t, 0);
    match find_crlf(a, 0) {
        Some(eol) => {
            assert((a + t).subrange(0, eol) =~= a.subrange(0, eol));
            match parse_request_line(a.subrange(0, eol)) {
                Ok(parts) => {
                    lemma_header_lines_stable(a, t, eol + 2);
                },
                Err(e) => {},
            }
        },
        None => {},
    }
}

} // verus!
