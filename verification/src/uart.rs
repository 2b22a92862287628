//! The line protocol of the USB pump monitor: send "READ\n", then collect the
//! reply up to the first newline.

use vstd::prelude::*;
use vstd::utf8::{decode_utf8, valid_utf8};
use crate::text::{ascii_chars, decimal, decimal_string, string_from_utf8};

verus! {

/// The request the pump monitor answers with one JSON line.
pub const READ_COMMAND: [u8; 5] = [82, 69, 65, 68, 10];

/// Why a line exchange failed. The strings are the transport's own error texts.
pub enum LineError {
    /// Flushing the input buffer failed.
    BufferClear(String),
    /// Writing the request failed.
    Write(String),
    /// Reading from the port failed.
    Read(String),
    /// The deadline passed after `received` bytes without a newline.
    Timeout { received: usize },
    /// The line is not valid UTF-8; the decoder's description.
    Utf8(String),
}

impl LineError {
    /// Failures after which the port handle is dropped and reopened.
    pub open spec fn spec_needs_reconnect(&self) -> bool {
        match self {
            LineError::Write(_) | LineError::Read(_) => true,
            _ => false,
        }
    }

    /// Whether the port handle must be dropped and reopened after this failure.
    pub fn needs_reconnect(&self) -> (r: bool)
        ensures
            r == self.spec_needs_reconnect(),
    {
        match self {
            LineError::Write(_) | LineError::Read(_) => true,
            _ => false,
        }
    }

    /// The human-readable report.
    pub open spec fn spec_message(&self) -> Seq<char> {
        match self {
            LineError::BufferClear(e) => "Buffer clear error: "@ + e@,
            LineError::Write(e) => "Write error: "@ + e@,
            LineError::Read(e) => "Read error: "@ + e@,
            LineError::Timeout { received } => "timeout — got "@ + ascii_chars(
                decimal(*received as nat),
            ) + " bytes without newline"@,
            LineError::Utf8(e) => "UTF-8 decode error: "@ + e@,
        }
    }

    /// The human-readable report, as the collector logs it.
    pub fn message(&self) -> (m: String)
        ensures
            m@ == self.spec_message(),
    {
        match self {
            LineError::BufferClear(e) => String::from_str("Buffer clear error: ").concat(e.as_str()),
            LineError::Write(e) => String::from_str("Write error: ").concat(e.as_str()),
            LineError::Read(e) => String::from_str("Read error: ").concat(e.as_str()),
            LineError::Timeout { received } => {
                let n = decimal_string(*received as u64);
                String::from_str("timeout — got ").concat(n.as_str()).concat(" bytes without newline")
            },
            LineError::Utf8(e) => String::from_str("UTF-8 decode error: ").concat(e.as_str()),
        }
    }
}

/// The bytes of a reply kept in the line: everything but carriage returns.
pub open spec fn line_content(bytes: Seq<u8>) -> Seq<u8>
    decreases bytes.len(),
{
    if bytes.len() == 0 {
        Seq::empty()
    } else if bytes.last() == 13 {
        line_content(bytes.drop_last())
    } else {
        line_content(bytes.drop_last()).push(bytes.last())
    }
}

/// A reply line being collected byte by byte.
pub struct LineBuffer {
    buf: Vec<u8>,
    done: bool,
    seen: Ghost<Seq<u8>>,
}

impl LineBuffer {
    /// The bytes received before the newline, in order.
    pub closed spec fn spec_received(&self) -> Seq<u8> {
        self.seen@
    }

    /// Whether the newline has arrived.
    pub closed spec fn spec_done(&self) -> bool {
        self.done
    }

    /// The line kept so far.
    pub closed spec fn spec_line(&self) -> Seq<u8> {
        self.buf@
    }

    /// The line kept is the received bytes without their carriage returns.
    pub open spec fn wf(&self) -> bool {
        self.spec_line() == line_content(self.spec_received())
    }

    /// An empty line.
    pub fn new() -> (b: Self)
        ensures
            b.wf(),
            !b.spec_done(),
            b.spec_received() == Seq::<u8>::empty(),
    {
        LineBuffer { buf: Vec::new(), done: false, seen: Ghost(Seq::empty()) }
    }

    /// Whether the newline has arrived.
    pub fn is_done(&self) -> (d: bool)
        ensures
            d == self.spec_done(),
    {
        self.done
    }

    /// Number of bytes kept so far: those received that are not carriage returns.
    pub fn len(&self) -> (n: usize)
        ensures
            n == self.spec_line().len(),
    {
        self.buf.len()
    }

    /// Takes one received byte: a newline ends the line, a carriage return is
    /// dropped, anything else is kept.
    pub fn push(&mut self, byte: u8)
        requires
            old(self).wf(),
            !old(self).spec_done(),
        ensures
            final(self).wf(),
            byte == 10 ==> final(self).spec_done() && final(self).spec_received()
                == old(self).spec_received(),
            byte != 10 ==> !final(self).spec_done() && final(self).spec_received()
                == old(self).spec_received().push(byte),
            byte == 10 || byte == 13 ==> final(self).spec_line() == old(self).spec_line(),
            byte != 10 && byte != 13 ==> final(self).spec_line() == old(self).spec_line().push(byte),
    {
        if byte == 10u8 {
            self.done = true;
        } else {
            let ghost before = self.seen@;
            if byte != 13u8 {
                self.buf.push(byte);
            }
            self.seen = Ghost(before.push(byte));
            proof {
                assert(self.seen@.drop_last() =~= before);
            }
        }
    }

    /// The error reported when the deadline passes before the newline: it
    /// counts the bytes received that are not carriage returns.
    pub fn timeout(&self) -> (e: LineError)
        requires
            self.wf(),
        ensures
            e == (LineError::Timeout { received: line_content(self.spec_received()).len() as usize }),
            e == (LineError::Timeout {
                received: self.spec_received().filter(|b: u8| b != 13).len() as usize,
            }),
    {
        proof {
            lemma_line_content_drops_only_cr(self.spec_received());
        }
        LineError::Timeout { received: self.buf.len() }
    }

    /// The finished line, decoded as UTF-8.
    pub fn into_string(self) -> (r: Result<String, LineError>)
        requires
            self.wf(),
        ensures
            r is Ok <==> valid_utf8(line_content(self.spec_received())),
            r matches Ok(s) ==> s@ == decode_utf8(line_content(self.spec_received())),
            r is Ok <==> valid_utf8(self.spec_received().filter(|b: u8| b != 13)),
            r matches Ok(s) ==> s@ == decode_utf8(self.spec_received().filter(|b: u8| b != 13)),
            r matches Err(e) ==> e is Utf8,
    {
        proof {
            lemma_line_content_drops_only_cr(self.spec_received());
        }
        match string_from_utf8(self.buf) {
            Ok(s) => Ok(s),
            Err(e) => Err(LineError::Utf8(e)),
        }
    }
}

/// The line kept from received bytes is those bytes with exactly the
/// carriage returns removed: every other byte, in order, however many.
pub proof fn lemma_line_content_drops_only_cr(bytes: Seq<u8>)
    ensures
        line_content(bytes) == bytes.filter(|b: u8| b != 13),
    decreases bytes.len(),
{
    reveal(Seq::filter);
    if bytes.len() > 0 {
        lemma_line_content_drops_only_cr(bytes.drop_last());
    }
}

/// Receiving more bytes only appends to the line kept so far.
pub proof fn lemma_line_content_concat(a: Seq<u8>, b: Seq<u8>)
    ensures
        line_content(a + b) == line_content(a) + line_content(b),
{
    lemma_line_content_drops_only_cr(a);
    lemma_line_content_drops_only_cr(b);
    lemma_line_content_drops_only_cr(a + b);
    Seq::filter_distributes_over_add(a, b, |b: u8| b != 13);
}

/// Without carriage returns nothing is dropped: the line is every byte
/// received.
pub proof fn lemma_line_content_without_cr(bytes: Seq<u8>)
    requires
        forall|i: int| 0 <= i < bytes.len() ==> #[trigger] bytes[i] != 13,
    ensures
        line_content(bytes) == bytes,
    decreases bytes.len(),
{
    if bytes.len() > 0 {
        lemma_line_content_without_cr(bytes.drop_last());
        assert(bytes.drop_last().push(bytes.last()) =~= bytes);
    }
}

} // verus!
