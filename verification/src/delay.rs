//! A circular delay buffer: the memory of delay lines, comb and all-pass
//! filters.  It behaves as a shift register of its length: each write pushes
//! a value in and the oldest out.
use vstd::prelude::*;

verus! {

/// A circular buffer of values with a write position.
pub struct DelayRing<V> {
    buffer: Vec<V>,
    write_index: usize,
}

impl<V> DelayRing<V> {
    /// At least one slot, and the write position inside the buffer.
    pub closed spec fn wf(&self) -> bool {
        &&& self.buffer@.len() >= 1
        &&& self.write_index < self.buffer@.len()
    }
}

impl<V: Copy> DelayRing<V> {
    /// The number of values held.
    pub closed spec fn capacity(&self) -> nat {
        self.buffer@.len()
    }

    /// The slot the next write goes to.
    pub closed spec fn write_position(&self) -> nat {
        self.write_index as nat
    }

    /// The value written `k` writes ago, for `1 <= k <= capacity` (values not
    /// yet overwritten are the initial fill); for other `k` it counts round
    /// the buffer, so `ago(k)` and `ago(k + capacity)` are the same slot.
    pub closed spec fn ago(&self, k: int) -> V {
        let n = self.buffer@.len() as int;
        self.buffer@[(self.write_index + n - k) % n]
    }


    /// A ring of `len` slots, all holding `fill`.
    pub fn new(len: usize, fill: V) -> (r: DelayRing<V>)
        requires
            len >= 1,
        ensures
            r.wf(),
            r.capacity() == len,
            forall|k: int| 1 <= k <= len ==> #[trigger] r.ago(k) == fill,
    {
        let mut buffer: Vec<V> = Vec::new();
        let mut i: usize = 0;
        while i < len
            invariant
                i <= len,
                buffer@.len() == i,
                forall|j: int| 0 <= j < i ==> #[trigger] buffer@[j] == fill,
            decreases len - i,
        {
            buffer.push(fill);
            i += 1;
        }
        let r = DelayRing { buffer, write_index: 0 };
        proof {
            assert forall|k: int| 1 <= k <= len implies #[trigger] r.ago(k) == fill by {
                let n = len as int;
                assert(0 <= (n - k) % n < n) by {
                    vstd::arithmetic::div_mod::lemma_mod_bound(n - k, n);
                }
            }
        }
        r
    }

    /// The number of slots.
    pub fn len(&self) -> (n: usize)
        ensures
            n == self.capacity(),
    {
        self.buffer.len()
    }

    /// The slot the next write goes to.
    pub fn position(&self) -> (p: usize)
        ensures
            p == self.write_position(),
    {
        self.write_index
    }

    /// The value `delay` writes back, counted as a delay line counts it: the
    /// slot `delay` places behind the write position, wrapping round the
    /// buffer.  A delay of 0, like one of the full length, gives the value
    /// written a full length ago.
    pub fn read(&self, delay: usize) -> (v: V)
        requires
            self.wf(),
            delay <= self.write_position() + self.capacity(),
        ensures
            v == self.ago(delay as int),
            delay == 0 ==> v == self.ago(self.capacity() as int),
    {
        let n = self.buffer.len();
        let w = self.write_index;
        let idx = if delay <= w {
            w - delay
        } else {
            n - (delay - w)
        };
        proof {
            let ni = n as int;
            if delay <= w {
                vstd::arithmetic::div_mod::lemma_fundamental_div_mod_converse(w + ni - delay, ni, 1, idx as int);
            } else {
                vstd::arithmetic::div_mod::lemma_fundamental_div_mod_converse(w + ni - delay, ni, 0, idx as int);
            }
            vstd::arithmetic::div_mod::lemma_fundamental_div_mod_converse(w + ni - ni, ni, 0, w as int);
            vstd::arithmetic::div_mod::lemma_fundamental_div_mod_converse(w + ni - 0, ni, 1, w as int);
        }
        self.buffer[idx]
    }

    /// Writes `v` at the write position and moves it on: `v` is now the value
    /// written 1 write ago, and every other value is one write older.
    pub fn write_advance(&mut self, v: V)
        requires
            old(self).wf(),
        ensures
            final(self).wf(),
            final(self).capacity() == old(self).capacity(),
            final(self).write_position() == (old(self).write_position() + 1) % old(self).capacity(),
            final(self).ago(1) == v,
            forall|k: int| 1 <= k < old(self).capacity() ==> #[trigger] final(self).ago(k + 1) == old(
                self,
            ).ago(k),
    {
        let n = self.buffer.len();
        let w = self.write_index;
        self.buffer.set(w, v);
        self.write_index = if w + 1 == n {
            0
        } else {
            w + 1
        };
        proof {
            let ni = n as int;
            let wi = w as int;
            let w2 = self.write_index as int;
            if wi + 1 == ni {
                vstd::arithmetic::div_mod::lemma_fundamental_div_mod_converse(wi + 1, ni, 1, 0);
            } else {
                vstd::arithmetic::div_mod::lemma_fundamental_div_mod_converse(wi + 1, ni, 0, wi + 1);
            }
            assert((w2 + ni - 1) % ni == wi) by {
                if wi + 1 == ni {
                    vstd::arithmetic::div_mod::lemma_fundamental_div_mod_converse(ni - 1, ni, 0, ni - 1);
                } else {
                    vstd::arithmetic::div_mod::lemma_fundamental_div_mod_converse(wi + ni, ni, 1, wi);
                }
            }
            assert forall|k: int| 1 <= k < ni implies #[trigger] self.ago(k + 1) == old(self).ago(
                k,
            ) by {
                let a = (w2 + ni - (k + 1)) % ni;
                let b = (wi + ni - k) % ni;
                if wi + 1 == ni {
                    vstd::arithmetic::div_mod::lemma_fundamental_div_mod_converse(
                        ni - k - 1,
                        ni,
                        0,
                        ni - k - 1,
                    );
                    vstd::arithmetic::div_mod::lemma_fundamental_div_mod_converse(
                        wi + ni - k,
                        ni,
                        1,
                        ni - k - 1,
                    );
                } else {
                    assert(w2 + ni - (k + 1) == wi + ni - k);
                }
                assert(a == b);
                vstd::arithmetic::div_mod::lemma_mod_bound(wi + ni - k, ni);
                assert(b != wi) by {
                    if wi + ni - k >= ni {
                        vstd::arithmetic::div_mod::lemma_fundamental_div_mod_converse(
                            wi + ni - k,
                            ni,
                            1,
                            wi - k,
                        );
                    } else {
                        vstd::arithmetic::div_mod::lemma_fundamental_div_mod_converse(
                            wi + ni - k,
                            ni,
                            0,
                            wi + ni - k,
                        );
                    }
                }
            }
        }
    }
}

} // verus!
