use vstd::prelude::*;

use crate::error::Error;

verus! {

/// A consume-once byte stream: the bytes handed in, read front to back.
pub struct Reader {
    bytes: Vec<u8>,
    pos: usize,
}

impl View for Reader {
    type V = Seq<u8>;

    /// The bytes not yet consumed.
    closed spec fn view(&self) -> Seq<u8> {
        self.bytes@.skip(self.pos as int)
    }
}

impl Reader {
    pub closed spec fn wf(&self) -> bool {
        self.pos <= self.bytes.len()
    }

    pub fn new(bytes: Vec<u8>) -> (r: Reader)
        ensures
            r.wf(),
            r@ == bytes@,
    {
        let r = Reader { bytes, pos: 0 };
        assert(r@ =~= r.bytes@);
        r
    }

    /// How many bytes are left to read.
    pub fn remaining(&self) -> (r: usize)
        requires
            self.wf(),
        ensures
            r == self@.len(),
    {
        self.bytes.len() - self.pos
    }

    /// Consumes exactly `n` bytes, or fails with `UnexpectedEnd`, consuming nothing,
    /// when fewer are left.
    pub fn read_exact(&mut self, n: u64) -> (r: Result<Vec<u8>, Error>)
        requires
            old(self).wf(),
        ensures
            final(self).wf(),
            n <= old(self)@.len() ==> r is Ok && r->Ok_0@ == old(self)@.take(n as int)
                && final(self)@ == old(self)@.skip(n as int),
            n > old(self)@.len() ==> r == Err::<Vec<u8>, Error>(Error::UnexpectedEnd)
                && final(self)@ == old(self)@,
    {
        let left = self.bytes.len() - self.pos;
        if n > left as u64 {
            return Err(Error::UnexpectedEnd);
        }
        let n = n as usize;
        let mut out: Vec<u8> = Vec::new();
        let mut i: usize = 0;
        while i < n
            invariant
                self.wf(),
                self.pos == old(self).pos,
                self.bytes == old(self).bytes,
                n <= self.bytes.len() - self.pos,
                i <= n,
                out@ == self@.take(i as int),
            decreases n - i,
        {
            out.push(self.bytes[self.pos + i]);
            i = i + 1;
            assert(out@ =~= self@.take(i as int));
        }
        self.pos = self.pos + n;
        assert(self@ =~= old(self)@.skip(n as int));
        Ok(out)
    }
}

} // verus!
