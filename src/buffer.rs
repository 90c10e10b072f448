use vstd::prelude::*;

verus! {

/// A flat buffer of packed 32-bit values.
pub struct IBuffer {
    data: Vec<u32>,
}

impl View for IBuffer {
    type V = Seq<u32>;

    closed spec fn view(&self) -> Seq<u32> {
        self.data@
    }
}

impl IBuffer {
    pub fn new(data: Vec<u32>) -> (r: IBuffer)
        ensures
            r@ == data@,
    {
        IBuffer { data }
    }

    /// Sets every element to `v`.
    pub fn fill(&mut self, v: u32)
        ensures
            final(self)@ == Seq::new(old(self)@.len(), |i: int| v),
    {
        let n = self.data.len();
        let mut i: usize = 0;
        while i < n
            invariant
                n == self.data.len(),
                n == old(self)@.len(),
                i <= n,
                forall|k: int| 0 <= k < i ==> self.data@[k] == v,
            decreases n - i,
        {
            self.data.set(i, v);
            i += 1;
        }
        assert(self.data@ =~= Seq::new(n as nat, |i: int| v));
    }

    pub fn data(&self) -> (r: &[u32])
        ensures
            r@ == self@,
    {
        self.data.as_slice()
    }

    pub fn len(&self) -> (r: usize)
        ensures
            r == self@.len(),
    {
        self.data.len()
    }
}

} // verus!
