//! Fixed-capacity ring buffer of mono samples.
//!
//! A capture producer appends one sample at a time; the analysis consumer
//! copies out the most recent window.  The logically valid region is the
//! chronological sequence of the last `capacity` pushed samples (fewer
//! before the first wrap), and that sequence is the buffer's view.
//! Samples are Q16.16 fixed point, clamped on entry to `[-1.0, 1.0]`.

use vstd::prelude::*;

use crate::num::{clamp_spec, FP_ONE};

verus! {

pub struct SharedBuf {
    data: Vec<i64>,
    write_idx: usize,
    filled: bool,
}

impl View for SharedBuf {
    type V = Seq<i64>;

    /// The valid samples, oldest first.
    closed spec fn view(&self) -> Seq<i64> {
        if self.filled {
            self.data@.subrange(self.write_idx as int, self.data@.len() as int) + self.data@
                .subrange(0, self.write_idx as int)
        } else {
            self.data@.subrange(0, self.write_idx as int)
        }
    }
}

/// What one push does to the valid region: append, evicting the oldest
/// sample once the buffer holds `cap` of them.
pub open spec fn push_model(s: Seq<i64>, cap: int, v: i64) -> Seq<i64> {
    if s.len() < cap {
        s.push(v)
    } else {
        s.drop_first().push(v)
    }
}

/// Run a whole sequence of pushes through `push_model`.
pub open spec fn run_pushes(s: Seq<i64>, cap: int, xs: Seq<i64>) -> Seq<i64>
    decreases xs.len(),
{
    if xs.len() == 0 {
        s
    } else {
        run_pushes(push_model(s, cap, xs[0]), cap, xs.drop_first())
    }
}

impl SharedBuf {
    /// The buffer's structural invariant.
    pub closed spec fn wf(&self) -> bool {
        &&& 1 <= self.data@.len() <= 0x1000_0000
        &&& self.write_idx < self.data@.len()
        &&& forall|i: int|
            0 <= i < self.data@.len() ==> -FP_ONE <= #[trigger] self.data@[i] <= FP_ONE
    }

    pub closed spec fn spec_capacity(&self) -> int {
        self.data@.len() as int
    }

    pub fn new(cap: usize) -> (buf: SharedBuf)
        requires
            1 <= cap <= 0x1000_0000,
        ensures
            buf.wf(),
            buf.spec_capacity() == cap,
            buf@ == Seq::<i64>::empty(),
    {
        let mut data: Vec<i64> = Vec::new();
        let mut i: usize = 0;
        while i < cap
            invariant
                data@.len() == i,
                i <= cap,
                forall|j: int| 0 <= j < i ==> #[trigger] data@[j] == 0,
            decreases cap - i,
        {
            data.push(0);
            i = i + 1;
        }
        let buf = SharedBuf { data, write_idx: 0, filled: false };
        proof {
            assert(buf@ =~= Seq::<i64>::empty());
        }
        buf
    }

    pub fn capacity(&self) -> (c: usize)
        ensures
            c == self.spec_capacity(),
    {
        self.data.len()
    }

    /// Append one sample, clamped to `[-1.0, 1.0]`, evicting the oldest
    /// sample once the buffer is full.
    pub fn push(&mut self, x: i64)
        requires
            old(self).wf(),
        ensures
            final(self).wf(),
            final(self).spec_capacity() == old(self).spec_capacity(),
            final(self)@ == push_model(
                old(self)@,
                old(self).spec_capacity(),
                clamp_spec(x as int, -FP_ONE as int, FP_ONE as int) as i64,
            ),
    {
        let v = if x < -FP_ONE {
            -FP_ONE
        } else if x > FP_ONE {
            FP_ONE
        } else {
            x
        };
        let cap = self.data.len();
        let ghost pre = *self;
        self.data[self.write_idx] = v;
        self.write_idx = self.write_idx + 1;
        if self.write_idx == cap {
            self.write_idx = 0;
            let was_filled = self.filled;
            self.filled = true;
            proof {
                if was_filled {
                    // full lap boundary: oldest sample sat at the end
                    assert(final(self)@ =~= push_model(pre@, cap as int, v));
                } else {
                    assert(final(self)@ =~= push_model(pre@, cap as int, v));
                }
            }
        } else {
            proof {
                if pre.filled {
                    assert(final(self)@ =~= push_model(pre@, cap as int, v));
                } else {
                    assert(final(self)@ =~= push_model(pre@, cap as int, v));
                }
            }
        }
    }

    /// How many samples are currently valid.
    pub fn len(&self) -> (n: usize)
        requires
            self.wf(),
        ensures
            n == self@.len(),
    {
        if self.filled {
            self.data.len()
        } else {
            self.write_idx
        }
    }

    pub fn is_empty(&self) -> (e: bool)
        requires
            self.wf(),
        ensures
            e == (self@.len() == 0),
    {
        !self.filled && self.write_idx == 0
    }

    /// When wrapped, the valid sample at offset `k` sits at
    /// `(write_idx + k) % capacity`.
    proof fn lemma_index_wrapped(&self, k: int)
        requires
            self.wf(),
            self.filled,
            0 <= k < self.data@.len(),
        ensures
            self@[k] == self.data@[(self.write_idx + k) % (self.data@.len() as int)],
    {
        let cap = self.data@.len() as int;
        let wi = self.write_idx as int;
        if wi + k < cap {
            assert((wi + k) % cap == wi + k) by (nonlinear_arith)
                requires
                    0 <= wi + k < cap,
            ;
        } else {
            assert((wi + k) % cap == wi + k - cap) by (nonlinear_arith)
                requires
                    cap <= wi + k < 2 * cap,
                    cap >= 1,
            ;
        }
    }

    /// Copy the most recent `n` valid samples, oldest first, into `out`.
    /// Returns false and leaves `out` untouched when fewer than `n`
    /// samples are valid.
    pub fn copy_last_n_into(&self, n: usize, out: &mut Vec<i64>) -> (ok: bool)
        requires
            self.wf(),
        ensures
            ok == (n == 0 || n <= self@.len()),
            ok ==> final(out)@ == self@.subrange(self@.len() - n, self@.len() as int),
            ok ==> forall|i: int| 0 <= i < n ==> -FP_ONE <= #[trigger] final(out)@[i] <= FP_ONE,
            !ok ==> final(out)@ == old(out)@,
    {
        if n == 0 {
            out.clear();
            proof {
                assert(final(out)@ =~= self@.subrange(self@.len() as int, self@.len() as int));
            }
            return true;
        }
        let cap = self.data.len();
        let len = self.len();
        if len < n {
            return false;
        }
        out.clear();
        if self.filled {
            let start = len - n;
            let mut j: usize = 0;
            while j < n
                invariant
                    self.wf(),
                    self.filled,
                    cap == self.data@.len(),
                    len == cap,
                    n <= len,
                    start == len - n,
                    j <= n,
                    out@ == self@.subrange(start as int, start + j),
                decreases n - j,
            {
                let idx = (self.write_idx + (start + j)) % cap;
                proof {
                    self.lemma_index_wrapped(start + j);
                    assert(self@.subrange(start as int, start + j + 1) =~= self@.subrange(
                        start as int,
                        start + j,
                    ).push(self@[start + j]));
                }
                out.push(self.data[idx]);
                j = j + 1;
            }
            proof {
                assert(forall|i: int|
                    0 <= i < n ==> -FP_ONE <= #[trigger] self@.subrange(
                        self@.len() - n,
                        self@.len() as int,
                    )[i] <= FP_ONE);
            }
            true
        } else {
            let start = self.write_idx - n;
            let mut j: usize = 0;
            while j < n
                invariant
                    self.wf(),
                    !self.filled,
                    cap == self.data@.len(),
                    len == self.write_idx,
                    n <= len,
                    start == len - n,
                    j <= n,
                    out@ == self@.subrange(start as int, start + j),
                decreases n - j,
            {
                proof {
                    assert(self@[start + j] == self.data@[start + j]);
                    assert(self@.subrange(start as int, start + j + 1) =~= self@.subrange(
                        start as int,
                        start + j,
                    ).push(self@[start + j]));
                }
                out.push(self.data[start + j]);
                j = j + 1;
            }
            proof {
                assert(forall|i: int|
                    0 <= i < n ==> -FP_ONE <= #[trigger] self@.subrange(
                        self@.len() - n,
                        self@.len() as int,
                    )[i] <= FP_ONE);
            }
            true
        }
    }

    /// All currently valid samples, oldest first.
    pub fn latest(&self) -> (r: Vec<i64>)
        requires
            self.wf(),
        ensures
            r@ == self@,
            forall|i: int| 0 <= i < r@.len() ==> -FP_ONE <= #[trigger] r@[i] <= FP_ONE,
    {
        let len = self.len();
        let mut r: Vec<i64> = Vec::new();
        let ok = self.copy_last_n_into(len, &mut r);
        proof {
            assert(self@.subrange(0, self@.len() as int) =~= self@);
        }
        r
    }
}

/// Starting from an empty buffer, any sequence of pushes leaves exactly
/// the last `min(pushed, cap)` values, in order, as the valid region —
/// so the length can never exceed the capacity.
pub proof fn lemma_run_pushes_window(s: Seq<i64>, cap: int, xs: Seq<i64>)
    requires
        cap >= 1,
        s.len() <= cap,
    ensures
        run_pushes(s, cap, xs).len() <= cap,
        run_pushes(s, cap, xs) == (s + xs).skip(
            if s.len() + xs.len() <= cap {
                0
            } else {
                s.len() + xs.len() - cap
            },
        ),
    decreases xs.len(),
{
    if xs.len() == 0 {
        assert(run_pushes(s, cap, xs) =~= (s + xs).skip(
            if s.len() + xs.len() <= cap {
                0
            } else {
                s.len() + xs.len() - cap
            },
        ));
    } else {
        let s1 = push_model(s, cap, xs[0]);
        lemma_run_pushes_window(s1, cap, xs.drop_first());
        assert(s1 + xs.drop_first() =~= if s.len() < cap {
            s + xs
        } else {
            (s + xs).skip(1)
        });
        assert(run_pushes(s, cap, xs) =~= (s + xs).skip(
            if s.len() + xs.len() <= cap {
                0
            } else {
                s.len() + xs.len() - cap
            },
        ));
    }
}

} // verus!
