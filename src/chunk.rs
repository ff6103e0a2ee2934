use vstd::prelude::*;

verus! {

/// Nanoseconds in one second: the unit in which this library measures time.
pub const NANOS_PER_SECOND: u64 = 1_000_000_000;

/// How many whole samples a stream at `rate` Hz delivers in `nanos` nanoseconds.
pub open spec fn samples_in(nanos: int, rate: int) -> int {
    (nanos * rate) / (NANOS_PER_SECOND as int)
}

/// How many nanoseconds `count` samples at `rate` Hz cover, rounded up so
/// that the time still asked for is never overstated (none at rate zero).
pub open spec fn span_of(count: int, rate: int) -> int {
    if rate == 0 {
        0
    } else {
        (count * (NANOS_PER_SECOND as int) + rate - 1) / rate
    }
}

/// The smaller of two integers.
pub open spec fn min_int(a: int, b: int) -> int {
    if a <= b {
        a
    } else {
        b
    }
}

/// One chunk of audio as the capture backend delivered it, read from the
/// front through `position`.
pub struct AudioBuffer<S> {
    pub data: Vec<S>,
    pub position: usize,
    pub rate: u32,
}

impl<S> AudioBuffer<S> {
    pub open spec fn wf(&self) -> bool {
        &&& self.position <= self.data@.len()
        &&& self.data@.len() <= usize::MAX
    }

    /// The samples not read yet.
    pub open spec fn unread(&self) -> Seq<S> {
        self.data@.subrange(self.position as int, self.data@.len() as int)
    }

    pub open spec fn drained(&self) -> bool {
        self.position == self.data@.len()
    }

    /// How many samples a read of `nanos` nanoseconds takes from this chunk.
    pub open spec fn read_count(&self, nanos: int) -> int {
        min_int(self.data@.len() - self.position, samples_in(nanos, self.rate as int))
    }

    /// This chunk with `n` more samples read.
    pub open spec fn advanced(self, n: int) -> AudioBuffer<S> {
        AudioBuffer { data: self.data, position: (self.position + n) as usize, rate: self.rate }
    }

    pub fn is_drained(&self) -> (r: bool)
        requires
            self.wf(),
        ensures
            r == self.drained(),
    {
        self.position == self.data.len()
    }
}

/// Reading no more samples than `nanos` ns hold at `rate` Hz covers no more
/// than `nanos` ns, and at least the exact time of the samples read.
pub proof fn lemma_span_within(count: int, nanos: int, rate: int)
    requires
        0 <= count <= samples_in(nanos, rate),
        0 <= nanos,
        0 < rate,
    ensures
        0 <= span_of(count, rate) <= nanos,
        span_of(count, rate) * rate >= count * (NANOS_PER_SECOND as int),
{
    let n = NANOS_PER_SECOND as int;
    let x = count * n + rate - 1;
    assert(count * n <= nanos * rate) by (nonlinear_arith)
        requires
            count <= (nanos * rate) / n,
            0 <= count,
            0 <= nanos,
            0 < rate,
            n == 1_000_000_000,
    {
        vstd::arithmetic::div_mod::lemma_fundamental_div_mod(nanos * rate, n);
    }
    assert(count * n >= 0) by (nonlinear_arith)
        requires
            0 <= count,
            n > 0,
    ;
    vstd::arithmetic::div_mod::lemma_fundamental_div_mod(x, rate);
    vstd::arithmetic::div_mod::lemma_mod_bound(x, rate);
    let q = x / rate;
    assert(q * rate == rate * q) by (nonlinear_arith);
    assert(q >= 0) by (nonlinear_arith)
        requires
            x >= 0,
            rate > 0,
            q == x / rate,
    {
        vstd::arithmetic::div_mod::lemma_div_pos_is_pos(x, rate);
    }
    assert(q <= nanos) by (nonlinear_arith)
        requires
            x == rate * q + x % rate,
            0 <= x % rate,
            x == count * n + rate - 1,
            count * n <= nanos * rate,
            rate > 0,
    ;
}

impl<S: Copy> AudioBuffer<S> {
    /// Reads up to `nanos` nanoseconds of audio from the front of what is
    /// left, appends it to `out`, and returns the time it covers.
    pub fn read(&mut self, nanos: u64, out: &mut Vec<S>) -> (elapsed: u64)
        requires
            old(self).wf(),
        ensures
            final(self).wf(),
            final(self).data == old(self).data,
            final(self).rate == old(self).rate,
            final(self).position == old(self).position + old(self).read_count(nanos as int),
            final(out)@ == old(out)@ + old(self).data@.subrange(
                old(self).position as int,
                final(self).position as int,
            ),
            elapsed == span_of(old(self).read_count(nanos as int), old(self).rate as int),
            elapsed <= nanos,
    {
        proof {
            assert((nanos as u128) * (self.rate as u128) <= u64::MAX as u128 * u32::MAX as u128)
                by (nonlinear_arith);
        }
        let desired: u128 = (nanos as u128) * (self.rate as u128) / (NANOS_PER_SECOND as u128);
        let left: usize = self.data.len() - self.position;
        let count: usize = if (left as u128) <= desired {
            left
        } else {
            desired as usize
        };
        let start: usize = self.position;
        let ghost out0 = out@;
        let end: usize = start + count;
        let mut i: usize = start;
        while i < end
            invariant
                end == start + count,
                end <= self.data@.len(),
                start <= i <= end,
                out@ == out0 + self.data@.subrange(start as int, i as int),
            decreases end - i,
        {
            out.push(self.data[i]);
            i = i + 1;
            assert(self.data@.subrange(start as int, i as int) =~= self.data@.subrange(
                start as int,
                i - 1,
            ).push(self.data@[i - 1]));
        }
        self.position = end;
        if self.rate == 0 {
            0
        } else {
            proof {
                lemma_span_within(count as int, nanos as int, self.rate as int);
            }
            let rate = self.rate as u128;
            (((count as u128) * (NANOS_PER_SECOND as u128) + rate - 1) / rate) as u64
        }
    }
}

} // verus!
