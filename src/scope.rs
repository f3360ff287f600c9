//! A rolling window of recent output samples, rescaled for display.
use crate::wave::ONE;
use vstd::prelude::*;

verus! {

/// The top of the display range; silence sits half-way.
pub const DISPLAY_MAX: u64 = 100;

/// A sample on the display scale: held to `[-1.0, 1.0]`, then mapped
/// linearly onto `[0, DISPLAY_MAX]`.
pub open spec fn display_value(s: int) -> int {
    let c = if s < -ONE {
        -(ONE as int)
    } else if s > ONE {
        ONE as int
    } else {
        s
    };
    (c + ONE) * (DISPLAY_MAX as int) / (2 * ONE as int)
}

/// The last `len` samples, oldest first, on the display scale. Kept as a ring
/// so that adding a sample costs the same whatever the length.
pub struct Scope {
    data: Vec<u64>,
    /// Where the oldest sample is, and the next one goes.
    next: usize,
}

impl View for Scope {
    type V = Seq<u64>;

    closed spec fn view(&self) -> Seq<u64> {
        self.data@.subrange(self.next as int, self.data@.len() as int) + self.data@.subrange(0, self.next as int)
    }
}

impl Scope {
    pub closed spec fn wf(&self) -> bool {
        self.next < self.data@.len() || (self.next == 0 && self.data@.len() == 0)
    }

    /// A window of `len` samples of silence.
    pub fn new(len: usize) -> (s: Scope)
        ensures
            s.wf(),
            s@ == Seq::new(len as nat, |i: int| (DISPLAY_MAX / 2) as u64),
    {
        let mut data: Vec<u64> = Vec::new();
        let mut i: usize = 0;
        while i < len
            invariant
                i <= len,
                data@ == Seq::new(i as nat, |k: int| (DISPLAY_MAX / 2) as u64),
            decreases len - i,
        {
            data.push(DISPLAY_MAX / 2);
            i = i + 1;
            assert(data@ =~= Seq::new(i as nat, |k: int| (DISPLAY_MAX / 2) as u64));
        }
        let s = Scope { data, next: 0 };
        assert(s@ =~= Seq::new(len as nat, |k: int| (DISPLAY_MAX / 2) as u64));
        s
    }

    /// Adds `sample` as the newest value; the oldest one leaves.
    pub fn push(&mut self, sample: i32)
        requires
            old(self).wf(),
        ensures
            final(self).wf(),
            old(self)@.len() == 0 ==> final(self)@ == old(self)@,
            old(self)@.len() > 0 ==> final(self)@ == old(self)@.drop_first().push(display_value(sample as int) as u64),
    {
        let len = self.data.len();
        if len == 0 {
            return;
        }
        let c: i64 = if sample < -ONE {
            -(ONE as i64)
        } else if sample > ONE {
            ONE as i64
        } else {
            sample as i64
        };
        let v: u64 = ((c + ONE as i64) as u64) * DISPLAY_MAX / (2 * ONE as u64);
        let ghost before = self@;
        let ghost old_data = self.data@;
        let ghost n = self.next as int;
        self.data.set(self.next, v);
        self.next = if self.next + 1 == len {
            0
        } else {
            self.next + 1
        };
        proof {
            let expected = before.drop_first().push(v);
            assert(self@.len() == expected.len());
            assert forall|i: int| 0 <= i < expected.len() implies self@[i] == expected[i] by {
                let l = len as int;
                if i < l - 1 {
                    // the (i+1)-th oldest before is the i-th oldest now
                    if n + 1 + i < l {
                        assert(before[i + 1] == old_data[n + 1 + i]);
                    } else {
                        assert(before[i + 1] == old_data[n + 1 + i - l]);
                    }
                } else {
                    assert(expected[i] == v);
                }
            }
            assert(self@ =~= expected);
        }
    }

    /// The window, oldest first.
    pub fn values(&self) -> (r: Vec<u64>)
        requires
            self.wf(),
        ensures
            r@ == self@,
    {
        let mut r: Vec<u64> = Vec::new();
        let len = self.data.len();
        let mut i: usize = self.next;
        while i < len
            invariant
                self.wf(),
                len == self.data@.len(),
                self.next <= i <= len,
                r@ == self.data@.subrange(self.next as int, i as int),
            decreases len - i,
        {
            r.push(self.data[i]);
            i = i + 1;
            assert(r@ =~= self.data@.subrange(self.next as int, i as int));
        }
        let mut j: usize = 0;
        while j < self.next
            invariant
                self.wf(),
                len == self.data@.len(),
                j <= self.next,
                r@ == self.data@.subrange(self.next as int, len as int) + self.data@.subrange(0, j as int),
            decreases self.next - j,
        {
            r.push(self.data[j]);
            j = j + 1;
            assert(r@ =~= self.data@.subrange(self.next as int, len as int) + self.data@.subrange(0, j as int));
        }
        r
    }
}

} // verus!
