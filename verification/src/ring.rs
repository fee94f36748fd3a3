//! A fixed-capacity byte queue, the shape of every input buffer in the
//! kernel (keyboard scancodes, terminal lines, Linux stdin).
use vstd::prelude::*;

verus! {

/// A ring of `bytes.len()` cells holding up to `bytes.len() - 1` queued bytes.
pub struct ByteRing {
    pub bytes: Vec<u8>,
    pub read: usize,
    pub write: usize,
}

impl ByteRing {
    /// The ring's invariant.
    pub open spec fn wf(&self) -> bool {
        &&& self.bytes@.len() >= 2
        &&& self.read < self.bytes@.len()
        &&& self.write < self.bytes@.len()
    }

    /// The number of cells.
    pub open spec fn cap(&self) -> nat {
        self.bytes@.len()
    }

    /// Number of queued bytes.
    pub open spec fn count(&self) -> nat {
        if self.write >= self.read { (self.write - self.read) as nat } else { (self.write + self.cap() - self.read) as nat }
    }

    /// The cell holding the `i`-th queued byte.
    pub open spec fn cell(&self, i: int) -> int {
        if self.read + i < self.cap() { self.read + i } else { self.read + i - self.cap() }
    }

    /// The queued bytes, oldest first.
    pub open spec fn view(&self) -> Seq<u8> {
        Seq::new(self.count(), |i: int| self.bytes@[self.cell(i)])
    }

    /// An empty ring of `cap` cells.
    pub fn new(cap: usize) -> (r: Self)
        requires cap >= 2,
        ensures
            r.wf(),
            r.cap() == cap,
            r@ == Seq::<u8>::empty(),
    {
        let bytes = vec![0u8; cap];
        let r = ByteRing { bytes, read: 0, write: 0 };
        assert(r@ =~= Seq::<u8>::empty());
        r
    }

    /// Whether a byte is queued.
    pub fn has_data(&self) -> (r: bool)
        requires self.wf(),
        ensures r == (self@.len() > 0),
    {
        self.read != self.write
    }

    /// Queues `byte`; a full ring drops it.
    pub fn push(&mut self, byte: u8)
        requires old(self).wf(),
        ensures
            final(self).wf(),
            final(self).cap() == old(self).cap(),
            old(self)@.len() + 1 >= old(self).cap() ==> final(self)@ == old(self)@,
            old(self)@.len() + 1 < old(self).cap() ==> final(self)@ == old(self)@.push(byte),
    {
        let cap = self.bytes.len();
        let next = if self.write + 1 == cap { 0 } else { self.write + 1 };
        if next == self.read {
            return;
        }
        let ghost before = self@;
        self.bytes.set(self.write, byte);
        self.write = next;
        proof {
            let c = cap as int;
            assert(self.count() == before.len() + 1);
            assert forall|i: int| 0 <= i < before.len() implies
                self@[i] == before[i] by {
                assert(self.cell(i) != old(self).write as int);
            }
            assert(self@[before.len() as int] == byte);
            assert(self@ =~= before.push(byte));
        }
    }

    /// Takes the oldest queued byte.
    pub fn pop(&mut self) -> (r: Option<u8>)
        requires old(self).wf(),
        ensures
            final(self).wf(),
            final(self).cap() == old(self).cap(),
            old(self)@.len() == 0 ==> r is None && final(self)@ == old(self)@,
            old(self)@.len() > 0 ==> r == Some(old(self)@[0]) && final(self)@ == old(self)@.drop_first(),
    {
        if self.read == self.write {
            return None;
        }
        let cap = self.bytes.len();
        let byte = self.bytes[self.read];
        let ghost before = self@;
        self.read = if self.read + 1 == cap { 0 } else { self.read + 1 };
        proof {
            let c = cap as int;
            assert(self.count() == before.len() - 1);
            assert forall|i: int| 0 <= i < before.len() - 1 implies self@[i] == before[i + 1] by {
                assert(self.cell(i) == old(self).cell(i + 1));
            }
            assert(self@ =~= before.drop_first());
        }
        Some(byte)
    }
}


/// The queue after `byte` is offered to a ring of `cap` cells.
pub open spec fn offered(q: Seq<u8>, cap: nat, byte: u8) -> Seq<u8> {
    if q.len() + 1 >= cap { q } else { q.push(byte) }
}

/// The queue after each byte of `bytes` is offered in turn.
pub open spec fn offered_all(q: Seq<u8>, cap: nat, bytes: Seq<u8>) -> Seq<u8>
    decreases bytes.len(),
{
    if bytes.len() == 0 { q } else { offered(offered_all(q, cap, bytes.drop_last()), cap, bytes.last()) }
}

/// First in, first out: bytes offered to a ring with room for all of them
/// queue behind what was there, in order, and none is lost; a ring with
/// no room left keeps what it had.
pub proof fn lemma_fifo(q: Seq<u8>, cap: nat, bytes: Seq<u8>)
    ensures
        q.len() + bytes.len() < cap ==> offered_all(q, cap, bytes) == q + bytes,
        q.len() + 1 >= cap ==> offered_all(q, cap, bytes) == q,
    decreases bytes.len(),
{
    if bytes.len() > 0 {
        lemma_fifo(q, cap, bytes.drop_last());
        if q.len() + bytes.len() < cap {
            assert(q + bytes.drop_last() + seq![bytes.last()] =~= q + bytes);
            assert((q + bytes.drop_last()).push(bytes.last()) =~= q + bytes);
        }
    } else {
        assert(q + bytes =~= q);
    }
}

impl ByteRing {
    /// Queues each byte of `bytes` in turn; bytes that find the ring full
    /// are dropped.
    pub fn push_bytes(&mut self, bytes: &[u8])
        requires old(self).wf(),
        ensures
            final(self).wf(),
            final(self).cap() == old(self).cap(),
            final(self)@ == offered_all(old(self)@, old(self).cap(), bytes@),
    {
        let mut i: usize = 0;
        while i < bytes.len()
            invariant
                self.wf(), self.cap() == old(self).cap(), i <= bytes@.len(),
                self@ == offered_all(old(self)@, old(self).cap(), bytes@.subrange(0, i as int)),
            decreases bytes@.len() - i,
        {
            self.push(bytes[i]);
            proof {
                assert(bytes@.subrange(0, i as int + 1).drop_last() =~= bytes@.subrange(0, i as int));
            }
            i += 1;
        }
        proof { assert(bytes@.subrange(0, bytes@.len() as int) =~= bytes@); }
    }

    /// Takes up to `len` of the oldest queued bytes.
    pub fn pop_up_to(&mut self, len: usize) -> (r: Vec<u8>)
        requires old(self).wf(),
        ensures
            final(self).wf(),
            final(self).cap() == old(self).cap(),
            r@ == old(self)@.take(if len < old(self)@.len() { len as int } else { old(self)@.len() as int }),
            final(self)@ == old(self)@.skip(if len < old(self)@.len() { len as int } else { old(self)@.len() as int }),
    {
        let mut out: Vec<u8> = Vec::new();
        while out.len() < len && self.has_data()
            invariant
                self.wf(), self.cap() == old(self).cap(),
                out@.len() <= len,
                out@.len() <= old(self)@.len(),
                out@ == old(self)@.take(out@.len() as int),
                self@ == old(self)@.skip(out@.len() as int),
            decreases len - out@.len(),
        {
            match self.pop() {
                Some(b) => {
                    proof {
                        assert(old(self)@.take(out@.len() as int + 1) =~= out@.push(b));
                        assert(old(self)@.skip(out@.len() as int + 1) =~= self@);
                    }
                    out.push(b);
                },
                None => {},
            }
        }
        out
    }
}

} // verus!
