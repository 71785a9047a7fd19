use vstd::prelude::*;
use vstd::slice::slice_subrange;
use vstd::utf8::*;

use crate::model::{byte_len, lemma_byte_len_zero, lemma_encode_concat, lemma_encode_injective};

verus! {

broadcast use vstd::utf8::group_utf8_lib;

/// Capacity in bytes of a sink made by `Console::new`.
pub const BUFFER_CAPACITY: usize = 4096;

/// The host console channel that a sink delivers its text to.
#[derive(Clone, Copy, Debug, PartialEq, Eq, Structural)]
pub enum Channel {
    Error,
    Warn,
    Info,
    Debug,
}

/// What one write does to a sink of `capacity` bytes holding `pending`:
/// the chunk flushed before appending (if any), and the text pending after it.
pub open spec fn write_step(capacity: nat, pending: Seq<char>, text: Seq<char>) -> (
    Option<Seq<char>>,
    Seq<char>,
) {
    if byte_len(pending) + byte_len(text) >= capacity {
        (Some(pending), text)
    } else {
        (None, pending + text)
    }
}

/// The characters of an optional string.
pub open spec fn opt_chars(s: Option<String>) -> Option<Seq<char>> {
    match s {
        Some(t) => Some(t@),
        None => None,
    }
}

/// Relies on str::from_utf8: it succeeds on valid UTF-8, and the text
/// it returns has those bytes as its encoding.
#[verifier::external_body]
fn text_of_bytes(b: &[u8]) -> (r: Option<&str>)
    ensures
        valid_utf8(b@) ==> r.is_some(),
        r matches Some(s) ==> encode_utf8(s@) == b@,
{
    std::str::from_utf8(b).ok()
}

/// A bounded sink: text written to it is buffered and forwarded to its
/// channel in whole chunks of at most `capacity` bytes.
pub struct Console {
    fun: Channel,
    buffer: Vec<u8>,
    len: usize,
    text: Ghost<Seq<char>>,
}

impl Console {
    /// The buffer's valid prefix is exactly the encoding of the pending text.
    pub closed spec fn wf(&self) -> bool {
        &&& self.len <= self.buffer.len()
        &&& self.buffer@.subrange(0, self.len as int) == encode_utf8(self.text@)
    }

    /// The text buffered and not yet flushed.
    pub closed spec fn pending(&self) -> Seq<char> {
        self.text@
    }

    /// The capacity of the buffer in bytes.
    pub closed spec fn capacity(&self) -> nat {
        self.buffer.len() as nat
    }

    /// The channel this sink delivers to.
    pub closed spec fn channel(&self) -> Channel {
        self.fun
    }

    /// The number of bytes buffered.
    pub fn len(&self) -> (r: usize)
        requires
            self.wf(),
        ensures
            r == byte_len(self.pending()),
    {
        self.len
    }

    /// The capacity of the buffer in bytes.
    pub fn buffer_capacity(&self) -> (r: usize)
        ensures
            r == self.capacity(),
    {
        self.buffer.len()
    }

    /// The channel this sink delivers to.
    pub fn destination(&self) -> (r: Channel)
        ensures
            r == self.channel(),
    {
        self.fun
    }

    /// A sink of `BUFFER_CAPACITY` bytes delivering to `fun`.
    pub fn new(fun: Channel) -> (r: Console)
        ensures
            r.wf(),
            r.channel() == fun,
            r.capacity() == BUFFER_CAPACITY,
            r.pending() == Seq::<char>::empty(),
    {
        Console::with_capacity(fun, BUFFER_CAPACITY)
    }

    /// A sink of `capacity` bytes delivering to `fun`.
    pub fn with_capacity(fun: Channel, capacity: usize) -> (r: Console)
        ensures
            r.wf(),
            r.channel() == fun,
            r.capacity() == capacity,
            r.pending() == Seq::<char>::empty(),
    {
        let buffer = vec![0u8; capacity];
        let r = Console { fun, buffer, len: 0, text: Ghost(Seq::empty()) };
        assert(r.buffer@.subrange(0, 0) =~= encode_utf8(Seq::<char>::empty()));
        r
    }

    /// The valid bytes of the buffer: the encoding of the pending text.
    pub fn as_slice(&self) -> (r: &[u8])
        requires
            self.wf(),
        ensures
            r@ == encode_utf8(self.pending()),
    {
        slice_subrange(self.buffer.as_slice(), 0, self.len)
    }

    /// Hands out all buffered text and empties the buffer.
    pub fn flush(&mut self) -> (r: String)
        requires
            old(self).wf(),
        ensures
            final(self).wf(),
            r@ == old(self).pending(),
            final(self).pending() == Seq::<char>::empty(),
            final(self).capacity() == old(self).capacity(),
            final(self).channel() == old(self).channel(),
    {
        let bytes = self.as_slice();
        let r = match text_of_bytes(bytes) {
            Some(s) => {
                proof {
                    lemma_encode_injective(s@, self.text@);
                }
                s.to_owned()
            },
            None => {
                proof {
                    assert(valid_utf8(encode_utf8(self.text@)));
                }
                String::new()
            },
        };
        self.len = 0;
        self.text = Ghost(Seq::empty());
        assert(self.buffer@.subrange(0, 0) =~= encode_utf8(Seq::<char>::empty()));
        r
    }

    /// Flushes only when something is buffered; an empty sink delivers nothing.
    pub fn last_flush(&mut self) -> (r: Option<String>)
        requires
            old(self).wf(),
        ensures
            final(self).wf(),
            old(self).pending().len() == 0 ==> r is None,
            old(self).pending().len() > 0 ==> opt_chars(r) == Some(old(self).pending()),
            final(self).pending() == Seq::<char>::empty(),
            final(self).capacity() == old(self).capacity(),
            final(self).channel() == old(self).channel(),
    {
        proof {
            lemma_byte_len_zero(self.text@);
        }
        if self.len > 0 {
            Some(self.flush())
        } else {
            assert(self.text@ =~= Seq::<char>::empty());
            None
        }
    }

    /// Appends `text`; when the pending bytes and `text` together reach the
    /// capacity, the pending text is flushed first and returned.
    pub fn write_text(&mut self, text: &str) -> (r: Option<String>)
        requires
            old(self).wf(),
            byte_len(text@) <= old(self).capacity(),
        ensures
            final(self).wf(),
            (opt_chars(r), final(self).pending()) == write_step(
                old(self).capacity(),
                old(self).pending(),
                text@,
            ),
            final(self).capacity() == old(self).capacity(),
            final(self).channel() == old(self).channel(),
    {
        let bytes = text.as_bytes();
        let n = bytes.len();
        let mut flushed: Option<String> = None;
        if n >= self.buffer.len() - self.len {
            flushed = Some(self.flush());
        }
        let start = self.len;
        let ghost prefix = self.buffer@.subrange(0, start as int);
        let ghost kept = self.text@;
        let ghost cap = self.buffer.len();
        let mut i: usize = 0;
        while i < n
            invariant
                i <= n,
                n == bytes@.len(),
                bytes@ == encode_utf8(text@),
                start + n <= self.buffer.len(),
                self.len == start,
                self.text@ == kept,
                self.buffer.len() == cap,
                self.fun == old(self).fun,
                prefix.len() == start,
                prefix == encode_utf8(self.text@),
                forall|k: int| 0 <= k < start ==> self.buffer@[k] == prefix[k],
                forall|k: int| 0 <= k < i ==> self.buffer@[start + k] == bytes@[k],
            decreases n - i,
        {
            self.buffer.set(start + i, bytes[i]);
            i = i + 1;
        }
        proof {
            lemma_encode_concat(self.text@, text@);
            assert(self.buffer@.subrange(0, (start + n) as int) =~= encode_utf8(self.text@)
                + encode_utf8(text@));
        }
        self.len = start + n;
        self.text = Ghost(self.text@ + text@);
        flushed
    }
}

} // verus!
