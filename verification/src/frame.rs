//! Frame boundary scanning for the wire protocol.
//!
//! A frame is one JSON message followed by the two-byte terminator
//! CR LF.  The protocol has no length prefix, so a reader accumulates
//! bytes as they arrive, in chunks of any size, and looks for the
//! first place where a CR byte is immediately followed by an LF byte.
//! The protocol puts no bound on a frame's size; a reader facing an
//! untrusted peer grows its buffer without limit until the terminator
//! arrives, a known resource-exhaustion risk of the wire format.

use vstd::prelude::*;

verus! {

/// Carriage return, the first byte of the frame terminator.
pub const CR: u8 = 13;

/// Line feed, the second byte of the frame terminator.
pub const LF: u8 = 10;

/// The two-byte terminator CR LF starts at index `i` of `s`.
pub open spec fn crlf_at(s: Seq<u8>, i: int) -> bool {
    &&& 0 <= i
    &&& i + 2 <= s.len()
    &&& s[i] == CR
    &&& s[i + 1] == LF
}

/// No terminator starts anywhere before index `i` of `s`.
pub open spec fn no_crlf_before(s: Seq<u8>, i: int) -> bool {
    forall|j: int| 0 <= j < i ==> !crlf_at(s, j)
}

/// Index `i` is where the first terminator of `s` starts.
pub open spec fn is_first_terminator(s: Seq<u8>, i: int) -> bool {
    crlf_at(s, i) && no_crlf_before(s, i)
}

/// Scan `buf` for the first CR LF pair; `None` means `buf` holds no
/// complete frame yet.
pub fn find_terminator(buf: &[u8]) -> (r: Option<usize>)
    ensures
        match r {
            Some(i) => is_first_terminator(buf@, i as int),
            None => forall|j: int| !crlf_at(buf@, j),
        },
{
    if buf.len() < 2 {
        return None;
    }
    let mut i: usize = 0;
    while i <= buf.len() - 2
        invariant
            buf@.len() >= 2,
            i <= buf@.len() - 1,
            no_crlf_before(buf@, i as int),
        decreases buf@.len() - i,
    {
        if buf[i] == CR && buf[i + 1] == LF {
            return Some(i);
        }
        i = i + 1;
    }
    None
}

/// Accumulates response bytes, chunk by chunk, until a complete frame
/// has arrived.  Each connection gets its own reader; two readers
/// never share state, so concurrent exchanges cannot interleave.
pub struct FrameReader {
    buf: Vec<u8>,
}

impl View for FrameReader {
    type V = Seq<u8>;

    closed spec fn view(&self) -> Seq<u8> {
        self.buf@
    }
}

impl FrameReader {
    /// An empty reader, holding no bytes.
    pub fn new() -> (r: FrameReader)
        ensures
            r@ == Seq::<u8>::empty(),
    {
        FrameReader { buf: Vec::new() }
    }

    /// Append one received chunk; a read may deliver any number of
    /// bytes, including part of a frame or more than one frame.
    pub fn feed(&mut self, chunk: &[u8])
        ensures
            final(self)@ == old(self)@ + chunk@,
    {
        let mut k: usize = 0;
        while k < chunk.len()
            invariant
                k <= chunk@.len(),
                self.buf@ == old(self)@ + chunk@.subrange(0, k as int),
            decreases chunk@.len() - k,
        {
            self.buf.push(chunk[k]);
            k = k + 1;
            proof {
                assert(self.buf@ =~= old(self)@ + chunk@.subrange(0, k as int));
            }
        }
        proof {
            assert(chunk@.subrange(0, chunk@.len() as int) =~= chunk@);
        }
    }

    /// Append a single received byte.
    pub fn feed_byte(&mut self, b: u8)
        ensures
            final(self)@ == old(self)@.push(b),
    {
        self.buf.push(b);
    }

    /// Where the first frame of the accumulated bytes ends: `Some(i)`
    /// when the first terminator starts at `i`, `None` while no
    /// complete frame has arrived.
    pub fn complete(&self) -> (r: Option<usize>)
        ensures
            match r {
                Some(i) => is_first_terminator(self@, i as int),
                None => forall|j: int| !crlf_at(self@, j),
            },
    {
        find_terminator(self.buf.as_slice())
    }

    /// The accumulated prefix of length `end`: with `end` two past the
    /// first terminator's start, this is the complete first frame,
    /// terminator included.
    pub fn frame_bytes(&self, end: usize) -> (r: Vec<u8>)
        requires
            end <= self@.len(),
        ensures
            r@ == self@.subrange(0, end as int),
    {
        let mut out: Vec<u8> = Vec::new();
        let mut j: usize = 0;
        while j < end
            invariant
                j <= end,
                end <= self.buf@.len(),
                out@ == self.buf@.subrange(0, j as int),
            decreases end - j,
        {
            out.push(self.buf[j]);
            j = j + 1;
            proof {
                assert(out@ =~= self.buf@.subrange(0, j as int));
            }
        }
        out
    }
}

} // verus!
