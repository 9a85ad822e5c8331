//! A reader over the bytes received from a peer, with a budget of bytes per
//! logical read. The reader does no input itself: its owner hands it the
//! bytes as they arrive and tells it when the peer has finished.

use crate::text::{first_index, lemma_first_index, lemma_first_index_is};
use vstd::prelude::*;
use vstd::string::{StringExecFns, StringSliceAdditionalSpecFns};
use vstd::utf8::{
    decode_first_scalar, decode_utf8, encode_scalar, encode_utf8, encode_utf8_decode_utf8,
    pop_first_scalar, valid_utf8,
};

verus! {

/// The peer has finished and nothing is left to read.
#[derive(Debug, Clone, Copy, PartialEq, Eq, Structural)]
pub struct EndOfFile;

impl EndOfFile {
    pub fn to_string(&self) -> (s: String)
        ensures
            s@ == "end of file"@,
    {
        "end of file".to_owned()
    }
}

/// Why a read gave nothing.
#[derive(Debug, Clone, Copy, PartialEq, Eq, Structural)]
pub enum ReadError {
    /// More bytes are needed before the read can be decided. Nothing was
    /// consumed: the read can be made again once more bytes have arrived.
    Incomplete,
    /// Nothing is left to read, or the budget is used up.
    EndOfFile(EndOfFile),
    /// The line is not valid UTF-8.
    InvalidData,
    /// The bytes ended, or the budget did, before the number asked for.
    UnexpectedEof,
}

/// The mathematical form of a reader: the bytes received and not yet
/// consumed, the bytes that may still be consumed, and whether the peer has
/// finished.
pub struct Stream {
    pub pending: Seq<u8>,
    pub limit: nat,
    pub closed: bool,
}

impl Stream {
    /// The stream with another budget.
    pub open spec fn with_limit(self, limit: nat) -> Stream {
        Stream { limit, ..self }
    }

    /// The stream after its first `n` pending bytes were consumed.
    pub open spec fn advanced(self, n: nat) -> Stream {
        Stream {
            pending: self.pending.skip(n as int),
            limit: (self.limit - n) as nat,
            closed: self.closed,
        }
    }

    /// The number of pending bytes within the budget.
    pub open spec fn window(self) -> nat {
        if self.limit <= self.pending.len() {
            self.limit
        } else {
            self.pending.len()
        }
    }

    /// The number of bytes that reading a line consumes: up to and with the
    /// first line feed within the budget; the whole budget where it holds
    /// no line feed; what is left where the peer has finished. `None` where
    /// more bytes have to arrive first.
    pub open spec fn line_length(self) -> Option<nat> {
        let cap = self.window();
        let i = first_index(self.pending.take(cap as int), 10u8);
        if 0 <= i < cap {
            Some((i + 1) as nat)
        } else if cap == self.limit || self.closed {
            Some(cap)
        } else {
            None
        }
    }

    /// What reading a line gives.
    pub open spec fn next_line(self) -> LineRead {
        match self.line_length() {
            None => LineRead::Incomplete,
            Some(n) => if n == 0 {
                LineRead::EndOfFile
            } else if valid_utf8(self.pending.take(n as int)) {
                LineRead::Line(decode_utf8(self.pending.take(n as int)), self.advanced(n))
            } else {
                LineRead::InvalidData(self.advanced(n))
            },
        }
    }

    /// What reading exactly `n` bytes gives.
    pub open spec fn next_bytes(self, n: nat) -> BytesRead {
        if n <= self.window() {
            BytesRead::Bytes(self.pending.take(n as int), self.advanced(n))
        } else if self.window() == self.limit || self.closed {
            BytesRead::UnexpectedEof(self.advanced(self.window()))
        } else {
            BytesRead::Incomplete
        }
    }
}

/// What reading a line gives, and the stream after it.
pub enum LineRead {
    /// More bytes have to arrive first; the stream is as before.
    Incomplete,
    /// Nothing could be consumed; the stream is as before.
    EndOfFile,
    /// The bytes of the line were consumed, and are not valid UTF-8.
    InvalidData(Stream),
    /// The line, with its line feed where it has one.
    Line(Seq<char>, Stream),
}

/// What reading a given number of bytes gives, and the stream after it.
pub enum BytesRead {
    /// More bytes have to arrive first; the stream is as before.
    Incomplete,
    /// The bytes within reach were consumed, and were too few.
    UnexpectedEof(Stream),
    /// The bytes asked for.
    Bytes(Seq<u8>, Stream),
}

/// `std::str::from_utf8`: the bytes as a string slice where they are valid
/// UTF-8, and nothing where they are not. The slice has the bytes it was
/// made from.
#[verifier::external_body]
fn str_from_utf8(bytes: &[u8]) -> (r: Option<&str>)
    ensures
        match r {
            Some(s) => valid_utf8(bytes@) && s.spec_bytes() == bytes@,
            None => !valid_utf8(bytes@),
        },
{
    std::str::from_utf8(bytes).ok()
}

pub struct StreamReader {
    pending: Vec<u8>,
    limit: u64,
    closed: bool,
}

impl View for StreamReader {
    type V = Stream;

    closed spec fn view(&self) -> Stream {
        Stream { pending: self.pending@, limit: self.limit as nat, closed: self.closed }
    }
}

impl StreamReader {
    /// A reader that has received nothing yet, with the largest budget.
    pub fn new() -> (r: Self)
        ensures
            r@ == (Stream { pending: Seq::empty(), limit: u64::MAX as nat, closed: false }),
    {
        StreamReader { pending: Vec::new(), limit: u64::MAX, closed: false }
    }

    /// Takes in bytes that have arrived from the peer.
    pub fn feed(&mut self, bytes: &[u8])
        ensures
            final(self)@ == (Stream { pending: old(self)@.pending + bytes@, ..old(self)@ }),
    {
        self.pending.extend_from_slice(bytes);
        proof {
            assert(self.pending@ =~= old(self)@.pending + bytes@);
        }
    }

    /// Notes that the peer has finished: no more bytes will arrive.
    pub fn close(&mut self)
        ensures
            final(self)@ == (Stream { closed: true, ..old(self)@ }),
    {
        self.closed = true;
    }

    /// A reader in the same state.
    pub fn snapshot(&self) -> (r: Self)
        ensures
            r@ == self@,
    {
        let mut pending: Vec<u8> = Vec::new();
        pending.extend_from_slice(self.pending.as_slice());
        proof {
            assert(pending@ =~= self.pending@);
        }
        StreamReader { pending, limit: self.limit, closed: self.closed }
    }

    /// Whether the peer has finished.
    pub fn is_closed(&self) -> (b: bool)
        ensures
            b == self@.closed,
    {
        self.closed
    }

    /// The number of bytes received and not yet consumed.
    pub fn pending_len(&self) -> (n: usize)
        ensures
            n == self@.pending.len(),
    {
        self.pending.len()
    }

    /// The bytes that may still be consumed.
    pub fn limit(&self) -> (n: u64)
        ensures
            n == self@.limit,
    {
        self.limit
    }

    /// Sets the budget: the number of bytes that the reads from now on may
    /// consume between them.
    pub fn set_limit(&mut self, limit: u64)
        ensures
            final(self)@ == old(self)@.with_limit(limit as nat),
    {
        self.limit = limit;
    }

    /// The number of pending bytes within the budget.
    fn window(&self) -> (cap: usize)
        ensures
            cap == self@.window(),
    {
        if self.limit <= self.pending.len() as u64 {
            self.limit as usize
        } else {
            self.pending.len()
        }
    }

    /// Consumes the first `n` pending bytes and hands them out.
    fn take(&mut self, n: usize) -> (taken: Vec<u8>)
        requires
            n <= old(self)@.window(),
        ensures
            taken@ == old(self)@.pending.take(n as int),
            final(self)@ == old(self)@.advanced(n as nat),
    {
        let mut rest = self.pending.split_off(n);
        std::mem::swap(&mut self.pending, &mut rest);
        self.limit = self.limit - n as u64;
        proof {
            assert(rest@ =~= old(self)@.pending.take(n as int));
            assert(self.pending@ =~= old(self)@.pending.skip(n as int));
        }
        rest
    }

    /// Reads one line: the bytes up to and with the next line feed, or up to
    /// the end of the budget, or up to the end of what the peer sent,
    /// whichever comes first. The line is appended to `buf`. A read that
    /// can consume nothing reports the end of the file. On an error `buf` is
    /// left as it was.
    pub fn read_line(&mut self, buf: &mut String) -> (r: Result<(), ReadError>)
        ensures
            match old(self)@.next_line() {
                LineRead::Incomplete => {
                    &&& r == Err::<(), ReadError>(ReadError::Incomplete)
                    &&& final(self)@ == old(self)@
                    &&& final(buf)@ == old(buf)@
                },
                LineRead::EndOfFile => {
                    &&& r == Err::<(), ReadError>(ReadError::EndOfFile(EndOfFile))
                    &&& final(self)@ == old(self)@
                    &&& final(buf)@ == old(buf)@
                },
                LineRead::InvalidData(after) => {
                    &&& r == Err::<(), ReadError>(ReadError::InvalidData)
                    &&& final(self)@ == after
                    &&& final(buf)@ == old(buf)@
                },
                LineRead::Line(line, after) => {
                    &&& r == Ok::<(), ReadError>(())
                    &&& final(self)@ == after
                    &&& final(buf)@ == old(buf)@ + line
                },
            },
    {
        let cap = self.window();
        let mut i: usize = 0;
        while i < cap && self.pending[i] != 10u8
            invariant
                cap == self@.window(),
                i <= cap,
                forall|j: int| 0 <= j < i ==> self.pending@[j] != 10u8,
            decreases cap - i,
        {
            i += 1;
        }
        proof {
            let w = self@.pending.take(cap as int);
            assert forall|j: int| 0 <= j < i implies w[j] != 10u8 by {
                assert(w[j] == self.pending@[j]);
            }
            lemma_first_index_is(w, 10u8, i as int);
        }
        let n: usize = if i < cap {
            i + 1
        } else if cap as u64 == self.limit || self.closed {
            cap
        } else {
            return Err(ReadError::Incomplete);
        };
        if n == 0 {
            return Err(ReadError::EndOfFile(EndOfFile));
        }
        let taken = self.take(n);
        match str_from_utf8(taken.as_slice()) {
            Some(line) => {
                proof {
                    encode_utf8_decode_utf8(line@);
                }
                buf.append(line);
                Ok(())
            },
            None => Err(ReadError::InvalidData),
        }
    }

    /// Reads exactly `n` bytes. Where the budget or the bytes that the peer
    /// sent end before that, the bytes within reach are consumed and lost.
    pub fn read_bytes(&mut self, n: usize) -> (r: Result<Vec<u8>, ReadError>)
        ensures
            match old(self)@.next_bytes(n as nat) {
                BytesRead::Incomplete => {
                    &&& r matches Err(e) && e == ReadError::Incomplete
                    &&& final(self)@ == old(self)@
                },
                BytesRead::UnexpectedEof(after) => {
                    &&& r matches Err(e) && e == ReadError::UnexpectedEof
                    &&& final(self)@ == after
                },
                BytesRead::Bytes(bytes, after) => {
                    &&& r matches Ok(v) && v@ == bytes
                    &&& final(self)@ == after
                },
            },
    {
        let cap = self.window();
        if n <= cap {
            Ok(self.take(n))
        } else if cap as u64 == self.limit || self.closed {
            let _ = self.take(cap);
            Err(ReadError::UnexpectedEof)
        } else {
            Err(ReadError::Incomplete)
        }
    }

    /// Reads as many bytes as `buf` holds and writes them over `buf`. Where
    /// the budget or the bytes that the peer sent end before that, the
    /// bytes within reach are consumed and `buf` is left as it was.
    pub fn read_exact(&mut self, buf: &mut Vec<u8>) -> (r: Result<(), ReadError>)
        ensures
            match old(self)@.next_bytes(old(buf)@.len()) {
                BytesRead::Incomplete => {
                    &&& r == Err::<(), ReadError>(ReadError::Incomplete)
                    &&& final(self)@ == old(self)@
                    &&& final(buf)@ == old(buf)@
                },
                BytesRead::UnexpectedEof(after) => {
                    &&& r == Err::<(), ReadError>(ReadError::UnexpectedEof)
                    &&& final(self)@ == after
                    &&& final(buf)@ == old(buf)@
                },
                BytesRead::Bytes(bytes, after) => {
                    &&& r == Ok::<(), ReadError>(())
                    &&& final(self)@ == after
                    &&& final(buf)@ == bytes
                },
            },
    {
        match self.read_bytes(buf.len()) {
            Ok(mut taken) => {
                std::mem::swap(buf, &mut taken);
                Ok(())
            },
            Err(e) => Err(e),
        }
    }
}

/// Text has no more characters than it has bytes.
pub proof fn lemma_decoded_length(bytes: Seq<u8>)
    requires
        valid_utf8(bytes),
    ensures
        decode_utf8(bytes).len() <= bytes.len(),
    decreases bytes.len(),
{
    if bytes.len() > 0 {
        lemma_decoded_length(pop_first_scalar(bytes));
    }
}

/// Text that ends with a line feed is written in bytes that end with one.
pub proof fn lemma_decoded_ends(bytes: Seq<u8>)
    requires
        valid_utf8(bytes),
        bytes.len() > 0,
    ensures
        decode_utf8(bytes).len() > 0,
        decode_utf8(bytes).last() == '\n' ==> bytes.last() == 10u8,
    decreases bytes.len(),
{
    let rest = pop_first_scalar(bytes);
    let first = decode_first_scalar(bytes);
    assert(decode_utf8(bytes) == seq![first as char] + decode_utf8(rest));
    if rest.len() > 0 {
        lemma_decoded_ends(rest);
        assert(decode_utf8(bytes).last() == decode_utf8(rest).last());
        assert(bytes.last() == rest.last());
    } else {
        assert(decode_utf8(rest) =~= Seq::<char>::empty());
        assert(decode_utf8(bytes) =~= seq![first as char]);
        if first as char == '\n' {
            lemma_line_feed_is_one_byte(bytes);
        }
    }
}

/// A character that takes all the bytes of its encoding and is the line
/// feed is written as the one byte 10.
proof fn lemma_line_feed_is_one_byte(bytes: Seq<u8>)
    requires
        valid_utf8(bytes),
        bytes.len() > 0,
        pop_first_scalar(bytes).len() == 0,
        decode_first_scalar(bytes) as char == '\n',
    ensures
        bytes.last() == 10u8,
{
    vstd::utf8::decode_utf8_first_scalar(bytes);
    let c = decode_first_scalar(bytes);
    assert((c as char) as u32 == 10u32);
    assert(vstd::utf8::take_first_scalar(bytes) =~= bytes);
    assert(vstd::utf8::encode_scalar(10u32) =~= seq![10u8]) by {
        assert(vstd::utf8::has_width_1_encoding(10u32));
        assert(vstd::utf8::leading_byte_width_1(10u32) == 10u8) by (bit_vector);
    }
}

/// The bytes of two texts in a row are the bytes of the first and then the
/// bytes of the second.
pub proof fn lemma_encode_concat(a: Seq<char>, b: Seq<char>)
    ensures
        encode_utf8(a + b) == encode_utf8(a) + encode_utf8(b),
    decreases a.len(),
{
    if a.len() == 0 {
        assert(a + b =~= b);
        assert(encode_utf8(a) + encode_utf8(b) =~= encode_utf8(b));
    } else {
        assert((a + b).drop_first() =~= a.drop_first() + b);
        assert((a + b)[0] == a[0]);
        lemma_encode_concat(a.drop_first(), b);
        assert(encode_utf8(a + b) =~= encode_utf8(a) + encode_utf8(b));
    }
}

/// Of the bytes of a character none is 10 unless the character is the line
/// feed, which is written as that one byte.
pub proof fn lemma_scalar_line_feed(c: char)
    ensures
        encode_scalar(c as u32).len() >= 1,
        forall|i: int|
            0 <= i < encode_scalar(c as u32).len() && c != '\n' ==> #[trigger] encode_scalar(
                c as u32,
            )[i] != 10u8,
        c == '\n' ==> encode_scalar(c as u32) == seq![10u8],
        c == '\r' ==> encode_scalar(c as u32) == seq![13u8],
{
    let v = c as u32;
    vstd::utf8::char_is_scalar(c);
    assert(v <= 0x7F ==> ((v & 0x7F) as u8 == 10u8 <==> v == 10u32)) by (bit_vector);
    assert(v <= 0x7F ==> ((v & 0x7F) as u8 == 13u8 <==> v == 13u32)) by (bit_vector);
    assert((0xC0u8 | ((v >> 6) & 0x1F) as u8) != 10u8) by (bit_vector);
    assert((0xE0u8 | ((v >> 12) & 0x0F) as u8) != 10u8) by (bit_vector);
    assert((0xF0u8 | ((v >> 18) & 0x7) as u8) != 10u8) by (bit_vector);
    assert((0x80u8 | (v & 0x3F) as u8) != 10u8) by (bit_vector);
    assert((0x80u8 | ((v >> 6) & 0x3F) as u8) != 10u8) by (bit_vector);
    assert((0x80u8 | ((v >> 12) & 0x3F) as u8) != 10u8) by (bit_vector);
    if c == '\n' {
        assert(encode_scalar(v) =~= seq![10u8]);
    }
    if c == '\r' {
        assert(encode_scalar(v) =~= seq![13u8]);
    }
}

/// Text without a line feed is written in bytes without the byte 10.
pub proof fn lemma_no_line_feed(text: Seq<char>)
    requires
        !text.contains('\n'),
    ensures
        forall|i: int| 0 <= i < encode_utf8(text).len() ==> #[trigger] encode_utf8(text)[i] != 10u8,
    decreases text.len(),
{
    if text.len() > 0 {
        let rest = text.drop_first();
        assert(!rest.contains('\n')) by {
            if rest.contains('\n') {
                let j = choose|j: int| 0 <= j < rest.len() && rest[j] == '\n';
                assert(text[j + 1] == '\n');
            }
        }
        assert(text[0] != '\n') by {
            if text[0] == '\n' {
                assert(text.contains(text[0]));
            }
        }
        lemma_no_line_feed(rest);
        lemma_scalar_line_feed(text[0]);
        let head = encode_scalar(text[0] as u32);
        assert forall|i: int| 0 <= i < encode_utf8(text).len() implies #[trigger] encode_utf8(
            text,
        )[i] != 10u8 by {
            if i < head.len() {
                assert(encode_utf8(text)[i] == head[i]);
            } else {
                assert(encode_utf8(text)[i] == encode_utf8(rest)[i - head.len()]);
            }
        }
    }
}

/// A line that is written within the budget is read as it was written: the
/// text up to its line feed, whatever bytes follow, and those bytes are
/// left pending.
pub proof fn lemma_line_is_read(s: Stream, line: Seq<char>, rest: Seq<u8>)
    requires
        !line.contains('\n'),
        s.pending == encode_utf8(line.push('\n')) + rest,
        encode_utf8(line.push('\n')).len() <= s.limit,
    ensures
        s.next_line() == LineRead::Line(
            line.push('\n'),
            Stream {
                pending: rest,
                limit: (s.limit - encode_utf8(line.push('\n')).len()) as nat,
                closed: s.closed,
            },
        ),
{
    let text = line.push('\n');
    let head = encode_utf8(line);
    let bytes = encode_utf8(text);
    let m = head.len() as int;
    lemma_no_line_feed(line);
    lemma_scalar_line_feed('\n');
    let lf = seq!['\n'];
    assert(encode_utf8(lf) =~= seq![10u8]) by {
        assert(lf.drop_first() =~= Seq::<char>::empty());
        assert(encode_utf8(Seq::<char>::empty()) =~= Seq::<u8>::empty());
        assert(lf[0] == '\n');
        assert(encode_utf8(lf) =~= encode_scalar('\n' as u32) + encode_utf8(lf.drop_first()));
    }
    assert(text =~= line + lf);
    lemma_encode_concat(line, lf);
    assert(bytes =~= head.push(10u8));
    vstd::utf8::encode_utf8_valid_utf8(text);
    encode_utf8_decode_utf8(text);
    let cap = s.window();
    let w = s.pending.take(cap as int);
    assert forall|j: int| 0 <= j < m implies w[j] != 10u8 by {
        assert(w[j] == bytes[j]);
        assert(bytes[j] == head[j]);
    }
    assert(w[m] == 10u8) by {
        assert(w[m] == bytes[m]);
    }
    lemma_first_index_is(w, 10u8, m);
    assert(s.pending.take(m + 1) =~= bytes);
    assert(s.pending.skip(m + 1) =~= rest);
}

/// A read of a line consumes no more than the budget, takes what it
/// consumes off the budget, and leaves the bytes after those it consumed.
pub proof fn lemma_line_within_budget(s: Stream)
    ensures
        match s.next_line() {
            LineRead::Line(_, after) | LineRead::InvalidData(after) => {
                let n = s.pending.len() - after.pending.len();
                &&& 1 <= n <= s.limit
                &&& after.limit == s.limit - n
                &&& after.pending == s.pending.skip(n)
                &&& after.closed == s.closed
            },
            LineRead::Incomplete => !s.closed && s.pending.len() < s.limit,
            LineRead::EndOfFile => s.limit == 0 || (s.closed && s.pending.len() == 0),
        },
{
    lemma_first_index(s.pending.take(s.window() as int), 10u8);
}

/// A read of a number of bytes consumes no more than the budget and takes
/// what it consumes off the budget. It gives the bytes exactly when that
/// many are pending within the budget.
pub proof fn lemma_bytes_within_budget(s: Stream, n: nat)
    ensures
        match s.next_bytes(n) {
            BytesRead::Bytes(bytes, after) => {
                &&& n <= s.limit
                &&& bytes.len() == n
                &&& after.limit == s.limit - n
                &&& after.pending == s.pending.skip(n as int)
            },
            BytesRead::UnexpectedEof(after) => {
                let used = s.pending.len() - after.pending.len();
                &&& 0 <= used <= s.limit
                &&& used < n
                &&& after.limit == s.limit - used
            },
            BytesRead::Incomplete => !s.closed && s.pending.len() < s.limit && s.pending.len() < n,
        },
{
}

} // verus!
