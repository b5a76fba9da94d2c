//! JSON-RPC framing: each message is a block of header lines, each ended by CR LF,
//! a blank line, then a body of exactly `Content-Length` bytes. Other headers are
//! ignored.

use vstd::prelude::*;
use crate::error::PicklsError;
use crate::text::{parse_u32, parse_u32_of};

verus! {

/// A JSON-RPC message id.
#[derive(Clone, Debug)]
pub enum MessageId {
    Number(i64),
    String(String),
    Null,
}

/// A response to a request.
#[derive(Clone, Debug)]
pub struct JsonRpcResponse<T> {
    pub jsonrpc: String,
    pub id: MessageId,
    pub result: T,
}

impl<T> JsonRpcResponse<T> {
    /// The JSON-RPC 2.0 response with the given id and result.
    pub fn response(id: MessageId, result: T) -> (r: Self)
        ensures
            r.jsonrpc@ == "2.0"@,
            r.id == id,
            r.result == result,
    {
        JsonRpcResponse { jsonrpc: String::from_str("2.0"), id, result }
    }
}

/// The bytes of a header block read as characters, one per byte.
pub open spec fn latin1(s: Seq<u8>) -> Seq<char> {
    s.map_values(|b: u8| b as char)
}

/// Where the first blank line (CR LF CR LF) of `buf` starts, if it has one.
pub open spec fn header_end(buf: Seq<u8>) -> Option<int> {
    if exists|i: int| 0 <= i && i + 4 <= buf.len() && #[trigger] is_blank_line_at(buf, i) {
        Some(choose|i: int| 0 <= i && i + 4 <= buf.len() && #[trigger] is_blank_line_at(buf, i) && forall|j: int| 0 <= j < i ==> !is_blank_line_at(buf, j))
    } else {
        None
    }
}

pub open spec fn is_blank_line_at(buf: Seq<u8>, i: int) -> bool {
    0 <= i && i + 4 <= buf.len() && buf[i] == 13 && buf[i + 1] == 10 && buf[i + 2] == 13 && buf[i + 3] == 10
}

pub open spec fn is_crlf_at(h: Seq<u8>, i: int) -> bool {
    0 <= i && i + 2 <= h.len() && h[i] == 13 && h[i + 1] == 10
}

/// The header lines of a header block (the text before its blank line): the
/// pieces between CR LF pairs.
pub open spec fn header_lines(h: Seq<u8>) -> Seq<Seq<u8>>
    decreases h.len(),
{
    if h.len() < 2 {
        seq![h]
    } else if h[0] == 13 && h[1] == 10 {
        seq![seq![]] + header_lines(h.skip(2))
    } else {
        let rest = header_lines(h.drop_first());
        rest.update(0, seq![h[0]] + rest[0])
    }
}

proof fn lemma_header_lines_first(h: Seq<u8>, i: int)
    requires
        0 <= i <= h.len(),
        forall|j: int| 0 <= j < i ==> !#[trigger] is_crlf_at(h, j),
        i + 2 <= h.len() ==> is_crlf_at(h, i),
        i + 2 > h.len() ==> i == h.len(),
    ensures
        header_lines(h).len() >= 1,
        header_lines(h)[0] == h.take(i),
        i + 2 <= h.len() ==> header_lines(h).drop_first() == header_lines(h.skip(i + 2)),
        i == h.len() ==> header_lines(h).len() == 1,
    decreases h.len(),
{
    if i == 0 {
        assert(h.take(0) == Seq::<u8>::empty());
        if h.len() >= 2 {
            assert(is_crlf_at(h, 0));
        }
    } else if h.len() < 2 {
        assert(h.take(i) == h);
    } else {
        let t = h.drop_first();
        assert(!is_crlf_at(h, 0));
        assert forall|j: int| 0 <= j < i - 1 implies !#[trigger] is_crlf_at(t, j) by {
            assert(!is_crlf_at(h, j + 1));
        }
        if i + 2 <= h.len() {
            assert(is_crlf_at(t, i - 1));
            assert(t.skip(i + 1) == h.skip(i + 2));
        }
        lemma_header_lines_first(t, i - 1);
        assert(seq![h[0]] + t.take(i - 1) == h.take(i));
    }
}

/// The prefix of a `Content-Length` header.
pub open spec fn length_prefix() -> Seq<char> {
    "Content-Length: "@
}

/// The length that a header line gives, if it is a `Content-Length` line.
pub open spec fn length_in(line: Seq<u8>) -> Option<u32> {
    let t = latin1(line);
    if t.len() >= length_prefix().len() && t.take(length_prefix().len() as int) == length_prefix() {
        parse_u32_of(t.skip(length_prefix().len() as int))
    } else {
        None
    }
}

/// The length given by the first header line that gives one.
pub open spec fn content_length_in(lines: Seq<Seq<u8>>) -> Option<u32>
    decreases lines.len(),
{
    if lines.len() == 0 {
        None
    } else {
        match length_in(lines[0]) {
            Some(n) => Some(n),
            None => content_length_in(lines.drop_first()),
        }
    }
}

/// What the front of `buf` holds: `Ok(None)` while a message is not complete;
/// `Ok(Some((body_start, body_end)))` for a complete one; an error for a header
/// block without a length.
pub open spec fn frame_of(buf: Seq<u8>) -> Result<Option<(int, int)>, ()> {
    match header_end(buf) {
        None => Ok(None),
        Some(e) => match content_length_in(header_lines(buf.take(e))) {
            None => Err(()),
            Some(n) => if e + 4 + n <= buf.len() {
                Ok(Some((e + 4, e + 4 + n)))
            } else {
                Ok(None)
            },
        },
    }
}

/// Reads messages out of the bytes received so far.
pub struct ParseJsonRpc {
    buffer: Vec<u8>,
}

/// A reader of framed messages, with nothing received yet.
pub fn parse_json_rpc() -> (r: ParseJsonRpc)
    ensures
        r.pending().len() == 0,
{
    ParseJsonRpc::new()
}

fn find_blank_line(buf: &Vec<u8>) -> (r: Option<usize>)
    ensures
        match r {
            Some(i) => header_end(buf@) == Some(i as int) && i + 4 <= buf@.len(),
            None => header_end(buf@) is None,
        },
{
    let mut i: usize = 0;
    while i < buf.len() && buf.len() - i >= 4
        invariant
            i <= buf.len(),
            forall|j: int| 0 <= j < i ==> !is_blank_line_at(buf@, j),
        decreases buf.len() - i,
    {
        if buf[i] == 13 && buf[i + 1] == 10 && buf[i + 2] == 13 && buf[i + 3] == 10 {
            assert(is_blank_line_at(buf@, i as int));
            let ghost c = choose|k: int| 0 <= k && k + 4 <= buf@.len() && #[trigger] is_blank_line_at(buf@, k) && forall|j: int| 0 <= j < k ==> !is_blank_line_at(buf@, j);
            assert(forall|j: int| 0 <= j < i ==> !is_blank_line_at(buf@, j));
            assert(c == i) by {
                if c < i {
                    assert(!is_blank_line_at(buf@, c));
                }
                if c > i {
                    assert(!is_blank_line_at(buf@, i as int));
                }
            }
            return Some(i);
        }
        i = i + 1;
    }
    assert forall|j: int| 0 <= j && j + 4 <= buf@.len() implies !#[trigger] is_blank_line_at(buf@, j) by {}
    None
}

/// The bytes `buf[lo..hi]`.
fn copy_range(buf: &Vec<u8>, lo: usize, hi: usize) -> (r: Vec<u8>)
    requires
        lo <= hi <= buf.len(),
    ensures
        r@ == buf@.subrange(lo as int, hi as int),
{
    let mut r: Vec<u8> = Vec::new();
    let mut k = lo;
    while k < hi
        invariant
            lo <= k <= hi <= buf.len(),
            r@ == buf@.subrange(lo as int, k as int),
        decreases hi - k,
    {
        r.push(buf[k]);
        k = k + 1;
    }
    r
}

/// The length that the header line `buf[lo..hi]` gives, if it gives one.
fn length_of_line(buf: &Vec<u8>, lo: usize, hi: usize) -> (r: Option<u32>)
    requires
        lo <= hi <= buf.len(),
    ensures
        r == length_in(buf@.subrange(lo as int, hi as int)),
{
    let ghost line = buf@.subrange(lo as int, hi as int);
    let ghost t = latin1(line);
    let mut chars: Vec<char> = Vec::new();
    let mut j: usize = lo;
    while j < hi
        invariant
            lo <= j <= hi <= buf.len(),
            line == buf@.subrange(lo as int, hi as int),
            t == latin1(line),
            chars@ == t.take((j - lo) as int),
        decreases hi - j,
    {
        chars.push(buf[j] as char);
        j = j + 1;
    }
    assert(chars@ == t);
    let n = chars.len();
    let prefix = String::from_str("Content-Length: ");
    proof {
        reveal_strlit("Content-Length: ");
    }
    if n < 16 {
        return None;
    }
    let head = crate::text::substring(&chars, 0, 16);
    if !(head == prefix) {
        return None;
    }
    assert(chars@.subrange(16, n as int) == t.skip(16));
    parse_u32(&chars, 16, n)
}

/// The length given by the header block `buf[0..end]`.
fn content_length_of_block(buf: &Vec<u8>, end: usize) -> (r: Option<u32>)
    requires
        end <= buf.len(),
    ensures
        r == content_length_in(header_lines(buf@.take(end as int))),
{
    let ghost h = buf@.take(end as int);
    let mut start: usize = 0;
    assert(h.skip(0) == h);
    loop
        invariant
            end <= buf.len(),
            h == buf@.take(end as int),
            start <= end,
            content_length_in(header_lines(h)) == content_length_in(header_lines(h.skip(start as int))),
        decreases end - start,
    {
        let ghost rest = h.skip(start as int);
        let mut i = start;
        while i < end && end - i >= 2 && !(buf[i] == 13 && buf[i + 1] == 10)
            invariant
                start <= i <= end <= buf.len(),
                h == buf@.take(end as int),
                rest == h.skip(start as int),
                forall|j: int| 0 <= j < i - start ==> !#[trigger] is_crlf_at(rest, j),
            decreases end - i,
        {
            assert(!is_crlf_at(rest, i - start));
            i = i + 1;
        }
        let is_last = end - i < 2;
        let line_end = if is_last { end } else { i };
        proof {
            if is_last {
                assert forall|j: int| 0 <= j < end - start implies !#[trigger] is_crlf_at(rest, j) by {
                    if j >= i - start {
                        assert(j + 2 > rest.len());
                    }
                }
                lemma_header_lines_first(rest, end - start);
            } else {
                assert(is_crlf_at(rest, i - start));
                lemma_header_lines_first(rest, i - start);
                assert(rest.skip(i - start + 2) == h.skip(i + 2));
            }
            assert(rest.take(line_end - start) == buf@.subrange(start as int, line_end as int));
        }
        let this = length_of_line(buf, start, line_end);
        match this {
            Some(n) => {
                return Some(n);
            },
            None => {
                if is_last {
                    assert(header_lines(rest).drop_first().len() == 0);
                    assert(content_length_in(header_lines(rest).drop_first()) is None);
                    return None;
                }
                start = i + 2;
            },
        }
    }
}

impl ParseJsonRpc {
    /// The bytes received and not yet taken as messages.
    pub closed spec fn pending(&self) -> Seq<u8> {
        self.buffer@
    }

    pub fn new() -> (r: Self)
        ensures
            r.pending().len() == 0,
    {
        ParseJsonRpc { buffer: Vec::new() }
    }

    /// Adds received bytes.
    pub fn push_bytes(&mut self, data: &[u8])
        ensures
            final(self).pending() == old(self).pending() + data@,
    {
        let mut i: usize = 0;
        while i < data.len()
            invariant
                i <= data.len(),
                self.pending() == old(self).pending() + data@.take(i as int),
            decreases data.len() - i,
        {
            self.buffer.push(data[i]);
            i = i + 1;
            assert(self.pending() == old(self).pending() + data@.take(i as int));
        }
        assert(data@.take(data@.len() as int) == data@);
    }

    /// Takes the body of the next complete message, if one has arrived (see
    /// [`frame_of`]); a header block without a length is an error.
    pub fn next_message(&mut self) -> (r: Result<Option<Vec<u8>>, PicklsError>)
        ensures
            match frame_of(old(self).pending()) {
                Err(()) => r is Err && final(self).pending() == old(self).pending(),
                Ok(None) => r is Ok && r->Ok_0 is None && final(self).pending() == old(self).pending(),
                Ok(Some((s, e))) => {
                    &&& r is Ok && r->Ok_0 is Some
                    &&& r->Ok_0->Some_0@ == old(self).pending().subrange(s, e)
                    &&& final(self).pending() == old(self).pending().skip(e)
                },
            },
    {
        let end = match find_blank_line(&self.buffer) {
            None => return Ok(None),
            Some(e) => e,
        };
        let ghost buf = self.buffer@;
        let ghost h = buf.take(end as int);
        let length = content_length_of_block(&self.buffer, end);
        let n = match length {
            None => {
                assert(frame_of(buf) is Err);
                return Err(PicklsError::new(String::from_str("missing Content-Length header")));
            },
            Some(n) => n,
        };
        let body_start = end + 4;
        if (self.buffer.len() - body_start) < n as usize {
            assert(frame_of(buf) == Ok::<Option<(int, int)>, ()>(None));
            return Ok(None);
        }
        assert(frame_of(buf) == Ok::<Option<(int, int)>, ()>(Some((body_start as int, body_start + n))));
        let body_end = body_start + n as usize;
        let body = copy_range(&self.buffer, body_start, body_end);
        let rest = copy_range(&self.buffer, body_end, self.buffer.len());
        self.buffer = rest;
        Ok(Some(body))
    }
}

} // verus!
