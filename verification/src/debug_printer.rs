//! A bounded text buffer for debug output: formatted text and raw bytes are
//! collected, cut short at the capacity, and handed to a serial link.
use vstd::prelude::*;
use vstd::string::StringSliceAdditionalSpecFns;
use vstd::utf8::valid_utf8;

verus! {

/// `core::str::from_utf8`: the text of `bytes` when they are valid UTF-8.
#[verifier::external_body]
fn utf8_text(bytes: &[u8]) -> (r: Option<&str>)
    ensures
        r is Some <==> valid_utf8(bytes@),
        r matches Some(s) ==> s.spec_bytes() == bytes@,
{
    core::str::from_utf8(bytes).ok()
}

/// What appending `data` to `held` gives in a buffer of `cap` bytes: as much
/// of `data` as fits.
pub open spec fn append_truncated(held: Seq<u8>, data: Seq<u8>, cap: int) -> Seq<u8> {
    if held.len() + data.len() <= cap {
        held + data
    } else {
        held + data.take(cap - held.len())
    }
}

/// Appending keeps what was held in front, and never goes past the capacity:
/// the result holds the old bytes and the longest prefix of the new ones
/// that fits.
pub proof fn lemma_append_truncated(held: Seq<u8>, data: Seq<u8>, cap: int)
    requires
        held.len() <= cap,
    ensures
        append_truncated(held, data, cap).len() <= cap,
        append_truncated(held, data, cap).take(held.len() as int) == held,
        append_truncated(held, data, cap).skip(held.len() as int) == data.take(
            append_truncated(held, data, cap).len() - held.len(),
        ),
        append_truncated(held, data, cap).len() == if held.len() + data.len() <= cap {
            (held.len() + data.len()) as int
        } else {
            cap
        },
{
    let r = append_truncated(held, data, cap);
    assert(r.take(held.len() as int) =~= held);
    if held.len() + data.len() <= cap {
        assert(r.skip(held.len() as int) =~= data);
        assert(data.take(data.len() as int) =~= data);
    } else {
        assert(r.skip(held.len() as int) =~= data.take(cap - held.len()));
    }
}

/// Writing text in two pieces leaves the same bytes as writing the two
/// pieces joined, in one call: formatted output that arrives piece by piece
/// is cut at the capacity exactly as the whole text would be.
pub proof fn lemma_append_truncated_pieces(held: Seq<u8>, x: Seq<u8>, y: Seq<u8>, cap: int)
    requires
        held.len() <= cap,
    ensures
        append_truncated(append_truncated(held, x, cap), y, cap) == append_truncated(
            held,
            x + y,
            cap,
        ),
{
    let a = append_truncated(held, x, cap);
    if held.len() + x.len() + y.len() <= cap {
        assert(a + y =~= held + (x + y));
    } else if held.len() + x.len() <= cap {
        assert(a + y.take(cap - a.len()) =~= held + (x + y).take(cap - held.len()));
    } else {
        assert(y.take(0) =~= Seq::<u8>::empty());
        assert(a + y.take(cap - a.len()) =~= a);
        assert(x.take(cap - held.len()) =~= (x + y).take(cap - held.len()));
    }
}

/// Text shown when the buffer does not hold valid UTF-8.
pub const UTF8_ERROR_TEXT: &'static str = "(utf8 err)";

/// A buffer of at most `N` bytes that collects debug text.
pub struct DebugPrinter<const N: usize> {
    buf: Vec<u8>,
}

impl<const N: usize> View for DebugPrinter<N> {
    type V = Seq<u8>;

    closed spec fn view(&self) -> Seq<u8> {
        self.buf@
    }
}

impl<const N: usize> DebugPrinter<N> {
    /// The buffer never holds more than `N` bytes.
    pub open spec fn wf(&self) -> bool {
        self@.len() <= N
    }

    /// An empty buffer.
    pub fn new() -> (p: Self)
        ensures
            p@ == Seq::<u8>::empty(),
            p.wf(),
    {
        DebugPrinter { buf: Vec::new() }
    }

    /// Appends as much of `data` as fits.
    fn append(&mut self, data: &[u8])
        requires
            old(self).wf(),
        ensures
            final(self).wf(),
            final(self)@ == append_truncated(old(self)@, data@, N as int),
    {
        let room = N - self.buf.len();
        let n = if data.len() < room {
            data.len()
        } else {
            room
        };
        let mut i: usize = 0;
        let ghost start = self.buf@;
        while i < n
            invariant
                i <= n,
                n <= data@.len(),
                n == if data@.len() < N - start.len() { data@.len() } else { (N - start.len()) as nat },
                start.len() <= N,
                self.buf@ == start + data@.take(i as int),
            decreases n - i,
        {
            self.buf.push(data[i]);
            proof {
                assert(data@.take(i + 1) =~= data@.take(i as int).push(data@[i as int]));
            }
            i = i + 1;
        }
        proof {
            if data@.len() + start.len() <= N {
                assert(data@.take(n as int) =~= data@);
            }
        }
    }

    /// Replaces the contents with `text`, cut short at the capacity, and
    /// returns the bytes to send.
    pub fn fmt(&mut self, text: &str) -> (r: &[u8])
        requires
            old(self).wf(),
        ensures
            final(self).wf(),
            final(self)@ == append_truncated(Seq::<u8>::empty(), text.spec_bytes(), N as int),
            r@ == final(self)@,
    {
        self.buf.clear();
        self.append(text.as_bytes());
        self.buf.as_slice()
    }

    /// Appends `text`, cut short at the capacity.
    pub fn write_str(&mut self, text: &str)
        requires
            old(self).wf(),
        ensures
            final(self).wf(),
            final(self)@ == append_truncated(old(self)@, text.spec_bytes(), N as int),
    {
        self.append(text.as_bytes());
    }

    /// Appends raw bytes without clearing, cut short at the capacity.
    pub fn push_bytes(&mut self, data: &[u8])
        requires
            old(self).wf(),
        ensures
            final(self).wf(),
            final(self)@ == append_truncated(old(self)@, data@, N as int),
    {
        self.append(data);
    }

    /// The collected bytes.
    pub fn as_bytes(&self) -> (r: &[u8])
        ensures
            r@ == self@,
    {
        self.buf.as_slice()
    }

    /// The collected text, or `(utf8 err)` when the bytes are not valid UTF-8.
    pub fn as_str(&self) -> (r: &str)
        ensures
            valid_utf8(self@) ==> r.spec_bytes() == self@,
            !valid_utf8(self@) ==> r@ == UTF8_ERROR_TEXT@,
    {
        match utf8_text(self.buf.as_slice()) {
            Some(s) => s,
            None => UTF8_ERROR_TEXT,
        }
    }

    /// Empties the buffer.
    pub fn clear(&mut self)
        ensures
            final(self)@ == Seq::<u8>::empty(),
            final(self).wf(),
    {
        self.buf.clear();
    }

    /// The number of collected bytes.
    pub fn len(&self) -> (n: usize)
        ensures
            n == self@.len(),
            self.wf() ==> n <= N,
    {
        self.buf.len()
    }

    /// Whether nothing has been collected.
    pub fn is_empty(&self) -> (b: bool)
        ensures
            b == (self@.len() == 0),
    {
        self.buf.len() == 0
    }
}

impl<const N: usize> Default for DebugPrinter<N> {
    fn default() -> (p: Self)
        ensures
            p@ == Seq::<u8>::empty(),
            p.wf(),
    {
        Self::new()
    }
}

} // verus!
