//! The source of a response body: fixed bytes, or zeros that are never
//! held in memory but for one transmit buffer.

use vstd::prelude::*;
use vstd::slice::slice_subrange;

verus! {

/// What a body source is, for the purposes of contracts.
pub enum BodyView {
    /// These bytes.
    Static(Seq<u8>),
    /// So many zero bytes.
    Zeros(nat),
}

impl BodyView {
    /// The bytes of the body, all of them.
    pub open spec fn bytes(self) -> Seq<u8> {
        match self {
            BodyView::Static(b) => b,
            BodyView::Zeros(n) => Seq::new(n, |i: int| 0u8),
        }
    }

    /// The total length of the body.
    pub open spec fn len(self) -> nat {
        self.bytes().len()
    }

    /// How many bytes the next chunk holds once `written` bytes are out,
    /// for a transmit buffer of `capacity` bytes. A static body hands out
    /// all that is left; zeros come from the buffer and are bounded by it.
    pub open spec fn chunk_len(self, written: nat, capacity: nat) -> nat {
        let remaining = if written <= self.len() {
            (self.len() - written) as nat
        } else {
            0
        };
        match self {
            BodyView::Static(_) => remaining,
            BodyView::Zeros(_) => if remaining > capacity {
                capacity
            } else {
                remaining
            },
        }
    }

    /// The next chunk once `written` bytes are out.
    pub open spec fn chunk(self, written: nat, capacity: nat) -> Seq<u8> {
        self.bytes().subrange(written as int, (written + self.chunk_len(written, capacity)) as int)
    }

    /// Whether the next chunk is the last one: whether it reaches the end
    /// of the body.
    pub open spec fn fin(self, written: nat, capacity: nat) -> bool {
        written + self.chunk_len(written, capacity) == self.len()
    }

    /// The chunks that the body hands out from `written` on when each is
    /// taken whole: the length of each and its fin flag. The draining ends
    /// with the chunk that is flagged, or with an empty one.
    pub open spec fn drain(self, written: nat, capacity: nat) -> Seq<(nat, bool)>
        decreases self.len() - written,
    {
        let n = self.chunk_len(written, capacity);
        let fin = self.fin(written, capacity);
        if fin || n == 0 || written > self.len() {
            seq![(n, fin)]
        } else {
            seq![(n, fin)] + self.drain(written + n, capacity)
        }
    }
}

/// The sum of the lengths of `chunks`.
pub open spec fn total_len(chunks: Seq<(nat, bool)>) -> nat
    decreases chunks.len(),
{
    if chunks.len() == 0 {
        0
    } else {
        chunks.first().0 + total_len(chunks.drop_first())
    }
}

/// The source of a response body: its length is known from the start, and
/// it hands its bytes out chunk by chunk.
#[derive(Debug, Clone, Copy, PartialEq, Eq)]
pub enum ResponseBody {
    /// A body with fixed content.
    Static(&'static [u8]),
    /// A body of zero bytes of the given length. It takes no memory of its
    /// own: its chunks are views into a buffer of zeros.
    Zeros(usize),
}

impl View for ResponseBody {
    type V = BodyView;

    open spec fn view(&self) -> BodyView {
        match self {
            ResponseBody::Static(b) => BodyView::Static(b@),
            ResponseBody::Zeros(n) => BodyView::Zeros(*n as nat),
        }
    }
}

/// A transmit buffer that holds nothing but zero bytes.
pub struct ZeroBuffer {
    bytes: Vec<u8>,
}

impl View for ZeroBuffer {
    type V = Seq<u8>;

    closed spec fn view(&self) -> Seq<u8> {
        self.bytes@
    }
}

impl ZeroBuffer {
    #[verifier::type_invariant]
    spec fn all_zero(&self) -> bool {
        forall|i: int| 0 <= i < self.bytes@.len() ==> self.bytes@[i] == 0
    }

    /// How many bytes the buffer holds.
    pub open spec fn capacity(&self) -> nat {
        self@.len()
    }

    /// A buffer of `capacity` zero bytes.
    pub fn new(capacity: usize) -> (buf: ZeroBuffer)
        ensures
            buf@ == Seq::new(capacity as nat, |i: int| 0u8),
            buf.capacity() == capacity,
    {
        let mut bytes: Vec<u8> = Vec::new();
        let mut i: usize = 0;
        while i < capacity
            invariant
                i <= capacity,
                bytes@.len() == i,
                forall|j: int| 0 <= j < i ==> bytes@[j] == 0,
            decreases capacity - i,
        {
            bytes.push(0);
            i += 1;
        }
        assert(bytes@ =~= Seq::new(capacity as nat, |i: int| 0u8));
        ZeroBuffer { bytes }
    }

    /// How many bytes the buffer holds. All of them are zero.
    pub fn len(&self) -> (n: usize)
        ensures
            n == self.capacity(),
            self@ == Seq::new(n as nat, |i: int| 0u8),
    {
        proof {
            use_type_invariant(self);
            assert(self@ =~= Seq::new(self.bytes@.len(), |i: int| 0u8));
        }
        self.bytes.len()
    }

    /// The first `n` bytes of the buffer.
    fn zeros(&self, n: usize) -> (z: &[u8])
        requires
            n <= self.capacity(),
        ensures
            z@ == Seq::new(n as nat, |i: int| 0u8),
    {
        proof {
            use_type_invariant(self);
        }
        let z = slice_subrange(self.bytes.as_slice(), 0, n);
        assert(z@ =~= Seq::new(n as nat, |i: int| 0u8));
        z
    }
}

impl ResponseBody {
    /// The total length of the body. It never changes.
    pub fn len(&self) -> (l: usize)
        ensures
            l == self@.len(),
    {
        match self {
            ResponseBody::Static(b) => b.len(),
            ResponseBody::Zeros(n) => *n,
        }
    }

    /// The next chunk to transmit once `written` bytes are out, and whether
    /// it is the last one. Zeros are lent from `buf`.
    pub fn chunk<'a>(&self, written: usize, buf: &'a ZeroBuffer) -> (r: (&'a [u8], bool))
        requires
            written <= self@.len(),
        ensures
            r.0@ == self@.chunk(written as nat, buf.capacity()),
            r.1 == self@.fin(written as nat, buf.capacity()),
    {
        match self {
            ResponseBody::Static(body) => {
                let rest: &'static [u8] = slice_subrange(*body, written, body.len());
                (rest, true)
            },
            ResponseBody::Zeros(len) => {
                let remaining: usize = *len - written;
                if remaining > buf.len() {
                    let z = buf.zeros(buf.len());
                    assert(z@ =~= self@.chunk(written as nat, buf.capacity()));
                    (z, false)
                } else {
                    let z = buf.zeros(remaining);
                    assert(z@ =~= self@.chunk(written as nat, buf.capacity()));
                    (z, true)
                }
            },
        }
    }
}

/// Draining a body of zeros through a buffer that is not empty hands out
/// chunks that hold nothing but zeros, none longer than the buffer, whose
/// lengths add up to what was left of the body; and the fin flag is set on
/// the last chunk and on no other.
pub proof fn lemma_zeros_drain(length: nat, written: nat, capacity: nat)
    requires
        written <= length,
        capacity > 0,
    ensures
        ({
            let body = BodyView::Zeros(length);
            let chunks = body.drain(written, capacity);
            &&& chunks.len() >= 1
            &&& total_len(chunks) == length - written
            &&& forall|i: int| 0 <= i < chunks.len() ==> (#[trigger] chunks[i]).0 <= capacity
            &&& forall|i: int|
                0 <= i < chunks.len() ==> ((#[trigger] chunks[i]).1 <==> i == chunks.len() - 1)
            &&& forall|k: int| 0 <= k < length ==> body.bytes()[k] == 0
        }),
    decreases length - written,
{
    let body = BodyView::Zeros(length);
    let n = body.chunk_len(written, capacity);
    let chunks = body.drain(written, capacity);
    if body.fin(written, capacity) {
        assert(chunks.drop_first() =~= Seq::<(nat, bool)>::empty());
        assert(total_len(chunks.drop_first()) == 0);
    } else {
        lemma_zeros_drain(length, written + n, capacity);
        let rest = body.drain(written + n, capacity);
        assert(chunks.drop_first() =~= rest);
        assert forall|i: int| 0 <= i < chunks.len() implies ((#[trigger] chunks[i]).1 <==> i
            == chunks.len() - 1) by {
            if i > 0 {
                assert(chunks[i] == rest[i - 1]);
            }
        }
        assert forall|i: int| 0 <= i < chunks.len() implies (#[trigger] chunks[i]).0
            <= capacity by {
            if i > 0 {
                assert(chunks[i] == rest[i - 1]);
            }
        }
    }
}

} // verus!
