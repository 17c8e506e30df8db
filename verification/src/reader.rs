use vstd::prelude::*;

verus! {

/// A cursor over an in-memory byte slice.
///
/// Its view is the sequence of bytes that have not been consumed yet.
/// Reading past the end consumes everything that is left and fails, which is
/// how `std::io::Read::read_exact` behaves on an in-memory buffer.
pub struct ByteReader<'a> {
    data: &'a [u8],
    pos: usize,
}

impl<'a> View for ByteReader<'a> {
    type V = Seq<u8>;

    closed spec fn view(&self) -> Seq<u8> {
        self.data@.subrange(self.pos as int, self.data@.len() as int)
    }
}

impl<'a> ByteReader<'a> {
    pub closed spec fn wf(&self) -> bool {
        self.pos <= self.data@.len()
    }

    /// A reader positioned at the start of `data`.
    pub fn new(data: &'a [u8]) -> (r: ByteReader<'a>)
        ensures
            r.wf(),
            r@ == data@,
    {
        let r = ByteReader { data, pos: 0 };
        assert(r@ =~= data@);
        r
    }

    /// The number of bytes that are left.
    pub fn buf_len(&self) -> (n: usize)
        requires
            self.wf(),
        ensures
            n == self@.len(),
    {
        self.data.len() - self.pos
    }

    /// Consumes everything that is left.
    pub fn consume_all(&mut self)
        requires
            old(self).wf(),
        ensures
            final(self).wf(),
            final(self)@ == Seq::<u8>::empty(),
    {
        self.pos = self.data.len();
        proof {
            assert(self@ =~= Seq::<u8>::empty());
        }
    }

    /// Consumes one byte; `None` (and nothing consumed) when the reader is empty.
    pub fn read_byte(&mut self) -> (r: Option<u8>)
        requires
            old(self).wf(),
        ensures
            final(self).wf(),
            old(self)@.len() == 0 ==> r is None && final(self)@ == old(self)@,
            old(self)@.len() > 0 ==> r == Some(old(self)@[0]) && final(self)@ == old(self)@.drop_first(),
    {
        if self.pos < self.data.len() {
            let b = self.data[self.pos];
            self.pos = self.pos + 1;
            proof {
                assert(self@ =~= old(self)@.drop_first());
            }
            Some(b)
        } else {
            None
        }
    }

    /// Consumes exactly `n` bytes and returns them.  When fewer than `n` bytes
    /// are left, everything left is consumed and `None` is returned.
    pub fn read_exact(&mut self, n: usize) -> (r: Option<Vec<u8>>)
        requires
            old(self).wf(),
        ensures
            final(self).wf(),
            n <= old(self)@.len() ==> r is Some && r.unwrap()@ == old(self)@.take(n as int)
                && final(self)@ == old(self)@.skip(n as int),
            n > old(self)@.len() ==> r is None && final(self)@ == Seq::<u8>::empty(),
    {
        let left = self.data.len() - self.pos;
        if n > left {
            self.pos = self.data.len();
            proof {
                assert(self@ =~= Seq::<u8>::empty());
            }
            return None;
        }
        let mut out: Vec<u8> = Vec::new();
        let start = self.pos;
        let mut i: usize = 0;
        while i < n
            invariant
                start + n <= self.data.len(),
                self.pos == start,
                i <= n,
                out@ =~= self.data@.subrange(start as int, start + i),
            decreases n - i,
        {
            out.push(self.data[start + i]);
            i = i + 1;
        }
        self.pos = start + n;
        proof {
            assert(out@ =~= old(self)@.take(n as int));
            assert(self@ =~= old(self)@.skip(n as int));
        }
        Some(out)
    }
}

} // verus!
