use std::collections::VecDeque;
use vstd::prelude::*;

verus! {

/// The series after `v` is appended to `s` and, if that overflows `cap`,
/// the oldest sample is dropped.
pub open spec fn window_push(s: Seq<u32>, v: u32, cap: nat) -> Seq<u32> {
    if s.len() + 1 > cap {
        s.push(v).drop_first()
    } else {
        s.push(v)
    }
}

/// The series obtained by pushing every value of `vs`, in order, into an
/// initially empty window of capacity `cap`.
pub open spec fn fill(vs: Seq<u32>, cap: nat) -> Seq<u32>
    decreases vs.len(),
{
    if vs.len() == 0 {
        Seq::empty()
    } else {
        window_push(fill(vs.drop_last(), cap), vs.last(), cap)
    }
}

/// The last `cap` values of `vs` (all of them when there are fewer).
pub open spec fn newest(vs: Seq<u32>, cap: nat) -> Seq<u32> {
    if vs.len() <= cap {
        vs
    } else {
        vs.subrange(vs.len() - cap, vs.len() as int)
    }
}

/// A fixed-capacity FIFO of samples: pushing beyond the capacity evicts the oldest.
pub struct RollingSeries {
    capacity: usize,
    values: VecDeque<u32>,
}

impl RollingSeries {
    pub closed spec fn view(&self) -> Seq<u32> {
        self.values@
    }

    pub closed spec fn cap(&self) -> nat {
        self.capacity as nat
    }

    pub closed spec fn wf(&self) -> bool {
        self.values@.len() <= self.capacity
    }

    pub fn new(capacity: usize) -> (r: RollingSeries)
        ensures
            r.wf(),
            r.cap() == capacity,
            r.view() == Seq::<u32>::empty(),
    {
        RollingSeries { capacity, values: VecDeque::new() }
    }

    pub fn capacity(&self) -> (r: usize)
        ensures
            r == self.cap(),
    {
        self.capacity
    }

    pub fn len(&self) -> (r: usize)
        ensures
            r == self.view().len(),
            self.wf() ==> r <= self.cap(),
    {
        self.values.len()
    }

    /// The sample at position `i`, oldest first.
    pub fn get(&self, i: usize) -> (r: u32)
        requires
            i < self.view().len(),
        ensures
            r == self.view()[i as int],
    {
        self.values[i]
    }

    /// The samples, oldest first.
    pub fn to_vec(&self) -> (r: Vec<u32>)
        ensures
            r@ == self.view(),
    {
        let mut out: Vec<u32> = Vec::new();
        let n = self.values.len();
        let mut i: usize = 0;
        while i < n
            invariant
                n == self.values@.len(),
                i <= n,
                out@ == self.values@.subrange(0, i as int),
            decreases n - i,
        {
            out.push(self.values[i]);
            i += 1;
        }
        assert(out@ == self.values@.subrange(0, n as int));
        out
    }

    pub fn push(&mut self, v: u32)
        requires
            old(self).wf(),
        ensures
            final(self).wf(),
            final(self).view().len() <= final(self).cap(),
            final(self).cap() == old(self).cap(),
            final(self).view() == window_push(old(self).view(), v, old(self).cap()),
    {
        self.values.push_back(v);
        if self.values.len() > self.capacity {
            let _ = self.values.pop_front();
        }
    }
}

/// However many values are pushed, a window of capacity `cap` holds exactly the
/// `cap` most recent of them in the order they came: never more than `cap`,
/// and the oldest leave first.
pub proof fn lemma_fill_keeps_newest(vs: Seq<u32>, cap: nat)
    ensures
        fill(vs, cap) == newest(vs, cap),
        fill(vs, cap).len() <= cap,
    decreases vs.len(),
{
    if vs.len() > 0 {
        let pre = vs.drop_last();
        lemma_fill_keeps_newest(pre, cap);
        let s = fill(pre, cap);
        let v = vs.last();
        assert(vs == pre.push(v));
        if pre.len() + 1 <= cap {
            assert(fill(vs, cap) == vs);
        } else if pre.len() < cap {
            assert(cap == pre.len());
            assert(s == pre);
            assert(s.push(v).drop_first() =~= vs.subrange(vs.len() - cap, vs.len() as int));
        } else {
            assert(s == pre.subrange(pre.len() - cap, pre.len() as int));
            assert(s.push(v).drop_first() =~= vs.subrange(vs.len() - cap, vs.len() as int));
        }
    }
}

} // verus!
