use vstd::prelude::*;

verus! {

/// The broadcast values a node has observed, each once, in order of first
/// receipt.
pub struct SeenSet {
    items: Vec<u64>,
}

impl View for SeenSet {
    type V = Seq<u64>;

    closed spec fn view(&self) -> Seq<u64> {
        self.items@
    }
}

impl SeenSet {
    /// No value is held twice.
    pub open spec fn wf(&self) -> bool {
        self@.no_duplicates()
    }

    pub fn new() -> (r: SeenSet)
        ensures
            r@ == Seq::<u64>::empty(),
            r.wf(),
    {
        SeenSet { items: Vec::new() }
    }

    pub fn contains(&self, v: u64) -> (r: bool)
        ensures
            r == self@.contains(v),
    {
        let mut i: usize = 0;
        while i < self.items.len()
            invariant
                i <= self.items@.len(),
                forall|j: int| 0 <= j < i ==> self.items@[j] != v,
            decreases self.items@.len() - i,
        {
            if self.items[i] == v {
                return true;
            }
            i = i + 1;
        }
        false
    }

    /// Records `v`; returns whether it was new. A value already held leaves
    /// the set unchanged.
    pub fn insert(&mut self, v: u64) -> (r: bool)
        requires
            old(self).wf(),
        ensures
            final(self).wf(),
            r == !old(self)@.contains(v),
            r ==> final(self)@ == old(self)@.push(v),
            !r ==> final(self)@ == old(self)@,
    {
        if self.contains(v) {
            false
        } else {
            self.items.push(v);
            true
        }
    }

    /// Every value seen so far, in order of first receipt.
    pub fn to_vec(&self) -> (r: Vec<u64>)
        ensures
            r@ == self@,
    {
        let mut out: Vec<u64> = Vec::new();
        let mut i: usize = 0;
        while i < self.items.len()
            invariant
                i <= self.items@.len(),
                out@ == self.items@.subrange(0, i as int),
            decreases self.items@.len() - i,
        {
            out.push(self.items[i]);
            i = i + 1;
        }
        assert(out@ == self.items@.subrange(0, self.items@.len() as int));
        out
    }
}

} // verus!
