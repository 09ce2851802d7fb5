//! Progress of one transfer of a known number of bytes over a stream socket:
//! a send goes on until every byte has been handed to the socket, a receive
//! until the announced number of bytes has arrived, whatever the sizes of the
//! pieces that the socket takes or gives at a time.
use vstd::prelude::*;

verus! {

/// Bytes handed to a stream socket piece by piece.
pub struct Outbound {
    data: Vec<u8>,
    sent: usize,
}

impl View for Outbound {
    /// The bytes not yet sent.
    type V = Seq<u8>;

    closed spec fn view(&self) -> Seq<u8> {
        self.data@.skip(self.sent as int)
    }
}

impl Outbound {
    #[verifier::type_invariant]
    spec fn inv(self) -> bool {
        self.sent <= self.data@.len()
    }

    /// Starts sending `data`: every byte of it is pending.
    pub fn new(data: Vec<u8>) -> (r: Outbound)
        ensures
            r@ == data@,
    {
        let r = Outbound { data, sent: 0 };
        assert(r.data@.skip(0) =~= r.data@);
        r
    }

    /// Number of bytes not yet sent.
    pub fn remaining(&self) -> (r: usize)
        ensures
            r == self@.len(),
    {
        proof {
            use_type_invariant(self);
        }
        self.data.len() - self.sent
    }

    /// A copy of the bytes not yet sent.
    pub fn pending(&self) -> (r: Vec<u8>)
        ensures
            r@ == self@,
    {
        proof {
            use_type_invariant(self);
        }
        let mut r: Vec<u8> = Vec::new();
        let mut i: usize = self.sent;
        while i < self.data.len()
            invariant
                self.sent <= i <= self.data@.len(),
                r@ == self.data@.subrange(self.sent as int, i as int),
            decreases self.data@.len() - i,
        {
            r.push(self.data[i]);
            i = i + 1;
            assert(r@ =~= self.data@.subrange(self.sent as int, i as int));
        }
        assert(r@ =~= self@);
        r
    }

    /// Records that the socket took the next `n` pending bytes.
    pub fn advance(&mut self, n: usize)
        requires
            n <= old(self)@.len(),
        ensures
            final(self)@ == old(self)@.skip(n as int),
    {
        proof {
            use_type_invariant(&*self);
        }
        let ghost before = self@;
        let len: usize = self.data.len();
        assert(before.len() == len - self.sent);
        self.sent = self.sent + n;
        assert(self@ =~= before.skip(n as int));
    }
}

/// Bytes taken from a stream socket piece by piece until a known number has arrived.
pub struct Inbound {
    expected: usize,
    data: Vec<u8>,
}

impl Inbound {
    #[verifier::type_invariant]
    spec fn inv(self) -> bool {
        self.data@.len() <= self.expected
    }

    /// The number of bytes that the transfer is to bring.
    pub closed spec fn total(&self) -> nat {
        self.expected as nat
    }

    /// The bytes that have arrived so far, in order.
    pub closed spec fn received(&self) -> Seq<u8> {
        self.data@
    }

    /// Starts receiving `expected` bytes; none has arrived yet.
    pub fn new(expected: usize) -> (r: Inbound)
        ensures
            r.total() == expected,
            r.received() == Seq::<u8>::empty(),
    {
        Inbound { expected, data: Vec::new() }
    }

    /// Number of bytes still to arrive.
    pub fn remaining(&self) -> (r: usize)
        ensures
            r == self.total() - self.received().len(),
            self.received().len() <= self.total(),
    {
        proof {
            use_type_invariant(self);
        }
        self.expected - self.data.len()
    }

    /// Appends the piece `chunk` that the socket gave.
    pub fn push(&mut self, chunk: &[u8])
        requires
            old(self).received().len() + chunk@.len() <= old(self).total(),
        ensures
            final(self).total() == old(self).total(),
            final(self).received() == old(self).received() + chunk@,
    {
        proof {
            use_type_invariant(&*self);
        }
        let ghost before = self.data@;
        let mut data: Vec<u8> = Vec::new();
        std::mem::swap(&mut data, &mut self.data);
        let mut i: usize = 0;
        while i < chunk.len()
            invariant
                i <= chunk@.len(),
                data@ == before + chunk@.subrange(0, i as int),
            decreases chunk@.len() - i,
        {
            data.push(chunk[i]);
            i = i + 1;
            assert(data@ =~= before + chunk@.subrange(0, i as int));
        }
        assert(chunk@.subrange(0, chunk@.len() as int) =~= chunk@);
        self.data = data;
    }

    /// The bytes that have arrived so far.
    pub fn as_slice(&self) -> (r: &[u8])
        ensures
            r@ == self.received(),
    {
        self.data.as_slice()
    }

    /// The bytes that have arrived, taking the transfer apart.
    pub fn into_bytes(self) -> (r: Vec<u8>)
        ensures
            r@ == self.received(),
    {
        self.data
    }
}

} // verus!
