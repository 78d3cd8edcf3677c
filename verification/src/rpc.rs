//! The framing of messages on the wire: a header that gives the length of
//! the content, an empty line, and the content.

use crate::text::{decimal, to_decimal};
use vstd::prelude::*;
use vstd::slice::slice_to_vec;
use vstd::string::StringExecFns;
use vstd::utf8::{encode_utf8, is_ascii_chars, is_ascii_chars_encode_utf8};

verus! {

/// `serde_json::Value`: the identifier of a message, carried through as it
/// is.
#[verifier::external_type_specification]
#[verifier::external_body]
pub struct ExJsonValue(serde_json::Value);

/// The version of the protocol that every message names.
pub fn default_jsonrpc() -> (s: String)
    ensures
        s@ == "2.0"@,
{
    "2.0".to_owned()
}

/// An answer to a request.
pub struct ResponseMessage<T> {
    pub jsonrpc: String,
    pub id: serde_json::Value,
    pub result: T,
}

/// A request.
pub struct RequestMessage<T> {
    pub jsonrpc: String,
    pub id: serde_json::Value,
    pub params: T,
}

/// A message that expects no answer.
#[derive(Debug)]
pub struct Notification<T> {
    pub jsonrpc: String,
    pub params: T,
}

impl<T> RequestMessage<T> {
    /// A request of the current version of the protocol.
    pub fn new(id: serde_json::Value, params: T) -> (m: RequestMessage<T>)
        ensures
            m.jsonrpc@ == "2.0"@,
            m.id == id,
            m.params == params,
    {
        RequestMessage { jsonrpc: default_jsonrpc(), id, params }
    }
}

impl<T> ResponseMessage<T> {
    /// An answer of the current version of the protocol.
    pub fn new(id: serde_json::Value, result: T) -> (m: ResponseMessage<T>)
        ensures
            m.jsonrpc@ == "2.0"@,
            m.id == id,
            m.result == result,
    {
        ResponseMessage { jsonrpc: default_jsonrpc(), id, result }
    }
}

/// The bytes of a message on the wire: the header `Content-Length:` with the
/// number of bytes of the content, an empty line, and the content.
pub open spec fn framed(content: Seq<u8>) -> Seq<u8> {
    encode_utf8("Content-Length: "@ + decimal(content.len()) + "\r\n\r\n"@) + content
}

/// Where the first empty line at or after `from` starts: the first place
/// where a carriage return, a line feed, and the two again follow one
/// another.
pub open spec fn header_end(buffer: Seq<u8>, from: int) -> Option<int>
    decreases buffer.len() - from,
{
    if from < 0 || from + 4 > buffer.len() {
        None
    } else if buffer[from] == 13u8 && buffer[from + 1] == 10u8 && buffer[from + 2] == 13u8
        && buffer[from + 3] == 10u8 {
        Some(from)
    } else {
        header_end(buffer, from + 1)
    }
}

/// The number that the first `upto` bytes write in decimal, if they are all
/// digits.
pub open spec fn decimal_value(digits: Seq<u8>, upto: int) -> Option<nat>
    decreases upto,
{
    if upto <= 0 || upto > digits.len() {
        Some(0)
    } else if 48 <= digits[upto - 1] <= 57 {
        match decimal_value(digits, upto - 1) {
            Some(v) => Some((v * 10 + (digits[upto - 1] - 48)) as nat),
            None => None,
        }
    } else {
        None
    }
}

/// What the bytes received so far hold.
#[derive(Clone, Copy, Debug, PartialEq, Eq, Structural)]
pub enum Frame {
    /// No whole message yet.
    Incomplete,
    /// The header is not `Content-Length:` followed by a number that a
    /// length can be.
    Malformed,
    /// A message; its content runs from `start` up to `end`.
    Message { start: usize, end: usize },
}

/// The bytes of `Content-Length: `.
pub open spec fn length_header() -> Seq<u8> {
    seq![67u8, 111u8, 110u8, 116u8, 101u8, 110u8, 116u8, 45u8, 76u8, 101u8, 110u8, 103u8, 116u8, 104u8, 58u8, 32u8]
}

/// What the bytes received so far hold. The header ends at the first empty
/// line. It must consist of `Content-Length: ` and at least one digit. The
/// message is whole once as many bytes as the header says have come after
/// the empty line.
pub open spec fn frame_of(buffer: Seq<u8>) -> Frame {
    match header_end(buffer, 0) {
        None => Frame::Incomplete,
        Some(h) => if h <= 16 || buffer.subrange(0, 16) != length_header() {
            Frame::Malformed
        } else {
            match decimal_value(buffer.subrange(16, h), h - 16) {
                Some(n) => if h + 4 + n > usize::MAX {
                    Frame::Malformed
                } else if h + 4 + n <= buffer.len() {
                    Frame::Message { start: (h + 4) as usize, end: (h + 4 + n) as usize }
                } else {
                    Frame::Incomplete
                },
                None => Frame::Malformed,
            }
        },
    }
}

fn find_header_end(buffer: &[u8]) -> (r: Option<usize>)
    ensures
        match r {
            Some(h) => header_end(buffer@, 0) == Some(h as int) && h + 4 <= buffer@.len(),
            None => header_end(buffer@, 0) is None,
        },
{
    let n = buffer.len();
    if n < 4 {
        return None;
    }
    let mut k: usize = 0;
    while k <= n - 4
        invariant
            n == buffer@.len(),
            n >= 4,
            header_end(buffer@, k as int) == header_end(buffer@, 0),
        decreases buffer@.len() - k,
    {
        if buffer[k] == 13u8 && buffer[k + 1] == 10u8 && buffer[k + 2] == 13u8 && buffer[k + 3]
            == 10u8 {
            return Some(k);
        }
        k += 1;
    }
    None
}

fn has_length_header(buffer: &[u8]) -> (b: bool)
    requires
        buffer@.len() >= 16,
    ensures
        b == (buffer@.subrange(0, 16) == length_header()),
{
    let b = buffer[0] == 67u8 && buffer[1] == 111u8 && buffer[2] == 110u8 && buffer[3] == 116u8
        && buffer[4] == 101u8 && buffer[5] == 110u8 && buffer[6] == 116u8 && buffer[7] == 45u8
        && buffer[8] == 76u8 && buffer[9] == 101u8 && buffer[10] == 110u8 && buffer[11] == 103u8
        && buffer[12] == 116u8 && buffer[13] == 104u8 && buffer[14] == 58u8 && buffer[15] == 32u8;
    proof {
        let head = buffer@.subrange(0, 16);
        if b {
            assert(head =~= length_header());
        } else {
            assert(head[0] == buffer@[0] && head[1] == buffer@[1] && head[2] == buffer@[2]
                && head[3] == buffer@[3] && head[4] == buffer@[4] && head[5] == buffer@[5]
                && head[6] == buffer@[6] && head[7] == buffer@[7] && head[8] == buffer@[8]
                && head[9] == buffer@[9] && head[10] == buffer@[10] && head[11] == buffer@[11]
                && head[12] == buffer@[12] && head[13] == buffer@[13] && head[14] == buffer@[14]
                && head[15] == buffer@[15]);
        }
    }
    b
}

/// A number written with more digits is not smaller.
proof fn lemma_decimal_value_grows(digits: Seq<u8>, a: int, b: int)
    requires
        0 <= a <= b <= digits.len(),
        decimal_value(digits, b) is Some,
    ensures
        decimal_value(digits, a) is Some,
        decimal_value(digits, a)->0 <= decimal_value(digits, b)->0,
    decreases b - a,
{
    if a < b {
        lemma_decimal_value_grows(digits, a, b - 1);
    }
}

/// Once a byte is no digit, the bytes write no number.
proof fn lemma_decimal_value_fails(digits: Seq<u8>, a: int, b: int)
    requires
        0 <= a <= b <= digits.len(),
        decimal_value(digits, a) is None,
    ensures
        decimal_value(digits, b) is None,
    decreases b - a,
{
    if a < b {
        lemma_decimal_value_fails(digits, a, b - 1);
    }
}

/// An account of the bytes received on the wire.
#[derive(Debug)]
pub struct Rpc {
    pub buffer: Vec<u8>,
}

impl Rpc {
    /// An account that holds no bytes yet.
    pub fn new() -> (rpc: Rpc)
        ensures
            rpc.buffer@.len() == 0,
    {
        Rpc { buffer: Vec::new() }
    }

    /// The bytes to write for a message.
    pub fn send(json: &str) -> (message: Vec<u8>)
        ensures
            message@ == framed(encode_utf8(json@)),
    {
        let content = json.as_bytes();
        let mut header = "Content-Length: ".to_owned();
        let length = to_decimal(content.len());
        header.append(length.as_str());
        header.append("\r\n\r\n");
        let mut message = slice_to_vec(header.as_str().as_bytes());
        let mut content = slice_to_vec(content);
        message.append(&mut content);
        message
    }

    /// Says what the bytes hold.
    pub fn frame(buffer: &[u8]) -> (f: Frame)
        ensures
            f == frame_of(buffer@),
    {
        let h = match find_header_end(buffer) {
            Some(h) => h,
            None => {
                return Frame::Incomplete;
            },
        };
        if h <= 16 || !has_length_header(buffer) {
            return Frame::Malformed;
        }
        let ghost digits = buffer@.subrange(16, h as int);
        let total = buffer.len();
        let mut n: usize = 0;
        let mut k: usize = 16;
        while k < h
            invariant
                16 <= k <= h,
                16 < h,
                total == buffer@.len(),
                h + 4 <= total,
                header_end(buffer@, 0) == Some(h as int),
                buffer@.subrange(0, 16) == length_header(),
                digits == buffer@.subrange(16, h as int),
                decimal_value(digits, k - 16) == Some(n as nat),
            decreases h - k,
        {
            let c = buffer[k];
            assert(digits[k - 16] == c);
            if c < 48u8 || c > 57u8 {
                proof {
                    assert(decimal_value(digits, k - 16 + 1) is None);
                    lemma_decimal_value_fails(digits, k - 16 + 1, h - 16);
                }
                return Frame::Malformed;
            }
            let d = (c - 48u8) as usize;
            if n > (usize::MAX - d) / 10 {
                proof {
                    // The number, and so the end of the message, is beyond
                    // what a length can be.
                    assert(n * 10 + d > usize::MAX);
                    assert(decimal_value(digits, k - 16 + 1) == Some((n * 10 + d) as nat));
                    if decimal_value(digits, h - 16) is Some {
                        lemma_decimal_value_grows(digits, k - 16 + 1, h - 16);
                    }
                }
                return Frame::Malformed;
            }
            n = n * 10 + d;
            k += 1;
        }
        if n > usize::MAX - (h + 4) {
            return Frame::Malformed;
        }
        if h + 4 + n <= total {
            Frame::Message { start: h + 4, end: h + 4 + n }
        } else {
            Frame::Incomplete
        }
    }

    /// Takes in bytes read from the wire, and hands out the content of the
    /// first message once it is whole. The bytes of a message handed out are
    /// dropped, and so are bytes that make no sense.
    pub fn recv(&mut self, bytes: &[u8]) -> (r: Option<Vec<u8>>)
        ensures
            match frame_of(old(self).buffer@ + bytes@) {
                Frame::Incomplete => r is None && final(self).buffer@ == old(self).buffer@ + bytes@,
                Frame::Malformed => r is None && final(self).buffer@.len() == 0,
                Frame::Message { start, end } => r matches Some(content) && content@ == (old(
                    self,
                ).buffer@ + bytes@).subrange(start as int, end as int) && final(self).buffer@ == (old(
                    self,
                ).buffer@ + bytes@).subrange(end as int, (old(self).buffer@ + bytes@).len() as int),
            },
    {
        let mut more = slice_to_vec(bytes);
        self.buffer.append(&mut more);
        let ghost all = self.buffer@;
        match Rpc::frame(self.buffer.as_slice()) {
            Frame::Incomplete => None,
            Frame::Malformed => {
                self.buffer.clear();
                None
            },
            Frame::Message { start, end } => {
                let content = slice_to_vec(vstd::slice::slice_subrange(
                    self.buffer.as_slice(),
                    start,
                    end,
                ));
                let rest = slice_to_vec(vstd::slice::slice_subrange(
                    self.buffer.as_slice(),
                    end,
                    self.buffer.len(),
                ));
                self.buffer = rest;
                Some(content)
            },
        }
    }
}


/// A number written in decimal consists of digits, at least one.
proof fn lemma_decimal_digits(n: nat)
    ensures
        decimal(n).len() >= 1,
        forall|i: int| 0 <= i < decimal(n).len() ==> 48 <= (#[trigger] decimal(n)[i]) as u8 <= 57,
        forall|i: int| 0 <= i < decimal(n).len() ==> '\0' <= (#[trigger] decimal(n)[i]) <= '\u{7f}',
        decimal(n)[decimal(n).len() - 1] as u8 == 48 + n % 10,
        decimal(n).len() == if n < 10 {
            1
        } else {
            decimal(n / 10).len() + 1
        },
        n >= 10 ==> forall|i: int|
            0 <= i < decimal(n / 10).len() ==> (#[trigger] decimal(n)[i]) == decimal(n / 10)[i],
    decreases n,
{
    reveal_strlit("0");
    reveal_strlit("1");
    reveal_strlit("2");
    reveal_strlit("3");
    reveal_strlit("4");
    reveal_strlit("5");
    reveal_strlit("6");
    reveal_strlit("7");
    reveal_strlit("8");
    reveal_strlit("9");
    if n >= 10 {
        lemma_decimal_digits(n / 10);
    }
}

/// The number that bytes write does not depend on the bytes after them.
proof fn lemma_decimal_value_prefix(a: Seq<u8>, b: Seq<u8>, upto: int)
    requires
        upto <= a.len() <= b.len(),
        forall|i: int| 0 <= i < a.len() ==> a[i] == b[i],
    ensures
        decimal_value(a, upto) == decimal_value(b, upto),
    decreases upto,
{
    if upto > 0 {
        lemma_decimal_value_prefix(a, b, upto - 1);
    }
}

/// Reading a number that was written in decimal gives the number.
proof fn lemma_decimal_read_back(n: nat, bytes: Seq<u8>)
    requires
        bytes.len() == decimal(n).len(),
        forall|i: int| 0 <= i < bytes.len() ==> bytes[i] == decimal(n)[i] as u8,
    ensures
        decimal_value(bytes, bytes.len() as int) == Some(n),
    decreases n,
{
    lemma_decimal_digits(n);
    let len = bytes.len() as int;
    if n < 10 {
        assert(decimal_value(bytes, 0) == Some(0nat));
    } else {
        lemma_decimal_digits(n / 10);
        let front = bytes.subrange(0, len - 1);
        assert(front.len() == decimal(n / 10).len());
        assert forall|i: int| 0 <= i < front.len() implies front[i] == decimal(n / 10)[i] as u8 by {
            assert(decimal(n)[i] == decimal(n / 10)[i]);
        }
        lemma_decimal_read_back(n / 10, front);
        lemma_decimal_value_prefix(front, bytes, len - 1);
    }
}

/// Where no byte before `h` is a carriage return and an empty line starts at
/// `h`, the header ends at `h`.
proof fn lemma_header_ends_at(buffer: Seq<u8>, from: int, h: int)
    requires
        0 <= from <= h,
        h + 4 <= buffer.len(),
        forall|p: int| from <= p < h ==> buffer[p] != 13u8,
        buffer[h] == 13u8 && buffer[h + 1] == 10u8 && buffer[h + 2] == 13u8 && buffer[h + 3]
            == 10u8,
    ensures
        header_end(buffer, from) == Some(h),
    decreases h - from,
{
    if from < h {
        lemma_header_ends_at(buffer, from + 1, h);
    }
}

/// What is sent is received: the bytes of a message, as they are written on
/// the wire, hold one whole message, and its content is the content that was
/// sent. The message must fit into memory.
pub proof fn lemma_sent_is_received(content: Seq<u8>)
    requires
        framed(content).len() <= usize::MAX,
    ensures
        frame_of(framed(content)) == (Frame::Message {
            start: (framed(content).len() - content.len()) as usize,
            end: framed(content).len() as usize,
        }),
        framed(content).subrange(
            framed(content).len() - content.len(),
            framed(content).len() as int,
        ) == content,
{
    let n = content.len();
    let head = "Content-Length: "@;
    let digits = decimal(n);
    let tail = "\r\n\r\n"@;
    let chars = head + digits + tail;
    reveal_strlit("Content-Length: ");
    reveal_strlit("\r\n\r\n");
    lemma_decimal_digits(n);
    let h: int = 16 + digits.len() as int;
    assert(is_ascii_chars(chars)) by {
        assert forall|i: int| 0 <= i < chars.len() implies '\0' <= #[trigger] chars[i] <= '\u{7f}' by {
            if i < 16 {
                assert(chars[i] == head[i]);
            } else if i < h {
                assert(chars[i] == digits[i - 16]);
            } else {
                assert(chars[i] == tail[i - h]);
            }
        }
    }
    is_ascii_chars_encode_utf8(chars);
    let header = encode_utf8(chars);
    let all = framed(content);
    assert(all == header + content);
    assert forall|i: int| 0 <= i < header.len() implies all[i] == chars[i] as u8 by {
        assert(header[i] == chars[i] as u8);
    }
    assert forall|p: int| 0 <= p < h implies all[p] != 13u8 by {
        if p < 16 {
            assert(chars[p] == head[p]);
        } else {
            assert(chars[p] == digits[p - 16]);
        }
    }
    assert(chars[h] == tail[0] && chars[h + 1] == tail[1] && chars[h + 2] == tail[2]
        && chars[h + 3] == tail[3]);
    lemma_header_ends_at(all, 0, h);
    assert(all.subrange(0, 16) =~= length_header()) by {
        assert forall|i: int| 0 <= i < 16 implies all.subrange(0, 16)[i] == length_header()[i] by {
            assert(chars[i] == head[i]);
        }
    }
    let written = all.subrange(16, h);
    assert forall|i: int| 0 <= i < written.len() implies written[i] == digits[i] as u8 by {
        assert(chars[16 + i] == digits[i]);
    }
    lemma_decimal_read_back(n, written);
    assert(all.subrange(all.len() - content.len(), all.len() as int) =~= content);
}

} // verus!
