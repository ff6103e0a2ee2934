use std::collections::VecDeque;
use vstd::prelude::*;

use vstd::arithmetic::power2::pow2;

use crate::cache::{prepared, SpectralCache};
use crate::chunk::{lemma_span_within, samples_in, span_of, AudioBuffer, NANOS_PER_SECOND};
use crate::spectrum::{
    bin_range, bins_spec, lemma_log2_floor_bounds, log2_floor, transform_size, SpectrumConfig,
};

verus! {

/// Below this much time left, a request counts as met: sample rounding never
/// makes it exactly zero.
pub const MIN_REMAINING_NANOS: u64 = 1_000_000;

/// How many chunks the store holds by default before it drops new ones.
pub const DEFAULT_BUFFER_TARGET: usize = 3;

/// How many samples the front chunk of `bufs` gives to a request of `rem` ns.
pub open spec fn front_count<S>(bufs: Seq<AudioBuffer<S>>, rem: int) -> int
    recommends
        bufs.len() > 0,
{
    bufs[0].read_count(rem)
}

/// Time that is still asked for after the front chunk of `bufs` was read.
pub open spec fn front_rest<S>(bufs: Seq<AudioBuffer<S>>, rem: int) -> int
    recommends
        bufs.len() > 0,
{
    rem - span_of(front_count(bufs, rem), bufs[0].rate as int)
}

/// Whether the walk goes on past the front chunk.
pub open spec fn walk_goes_on<S>(bufs: Seq<AudioBuffer<S>>, rem: int) -> bool {
    front_rest(bufs, rem) >= MIN_REMAINING_NANOS as int
}

/// The samples a request of `rem` ns reads, walking `bufs` from the front.
pub open spec fn walk_values<S>(bufs: Seq<AudioBuffer<S>>, rem: int) -> Seq<S>
    decreases bufs.len(),
{
    if bufs.len() == 0 {
        Seq::empty()
    } else {
        let b = bufs[0];
        let here = b.data@.subrange(b.position as int, b.position + front_count(bufs, rem));
        if walk_goes_on(bufs, rem) {
            here + walk_values(bufs.drop_first(), front_rest(bufs, rem))
        } else {
            here
        }
    }
}

/// The time, in ns, that the samples of `walk_values` cover.
pub open spec fn walk_elapsed<S>(bufs: Seq<AudioBuffer<S>>, rem: int) -> int
    decreases bufs.len(),
{
    if bufs.len() == 0 {
        0
    } else {
        let here = rem - front_rest(bufs, rem);
        if walk_goes_on(bufs, rem) {
            here + walk_elapsed(bufs.drop_first(), front_rest(bufs, rem))
        } else {
            here
        }
    }
}

/// The sum, over the chunks read, of each chunk's rate times the time read
/// from it.
pub open spec fn walk_weight<S>(bufs: Seq<AudioBuffer<S>>, rem: int) -> int
    decreases bufs.len(),
{
    if bufs.len() == 0 {
        0
    } else {
        let here = bufs[0].rate * (rem - front_rest(bufs, rem));
        if walk_goes_on(bufs, rem) {
            here + walk_weight(bufs.drop_first(), front_rest(bufs, rem))
        } else {
            here
        }
    }
}

/// The chunks after the walk: each one read is moved on by what was read.
pub open spec fn walk_after<S>(bufs: Seq<AudioBuffer<S>>, rem: int) -> Seq<AudioBuffer<S>>
    decreases bufs.len(),
{
    if bufs.len() == 0 {
        Seq::empty()
    } else {
        let here = seq![bufs[0].advanced(front_count(bufs, rem))];
        if walk_goes_on(bufs, rem) {
            here + walk_after(bufs.drop_first(), front_rest(bufs, rem))
        } else {
            here + bufs.drop_first()
        }
    }
}

/// `bufs` without its leading run of fully read chunks.
pub open spec fn drop_drained<S>(bufs: Seq<AudioBuffer<S>>) -> Seq<AudioBuffer<S>>
    decreases bufs.len(),
{
    if bufs.len() > 0 && bufs[0].drained() {
        drop_drained(bufs.drop_first())
    } else {
        bufs
    }
}

/// The chunks the store holds after a request of `nanos` ns.
pub open spec fn after_take<S>(bufs: Seq<AudioBuffer<S>>, nanos: int) -> Seq<AudioBuffer<S>> {
    drop_drained(walk_after(bufs, nanos))
}

/// Every chunk can be read.
pub open spec fn chunks_wf<S>(bufs: Seq<AudioBuffer<S>>) -> bool {
    forall|k: int| 0 <= k < bufs.len() ==> #[trigger] bufs[k].wf()
}

/// A chunk as plain values: its samples, how many were read, its rate.
pub open spec fn chunk_view<S>(b: AudioBuffer<S>) -> (Seq<S>, int, u32) {
    (b.data@, b.position as int, b.rate)
}

pub open spec fn chunk_views<S>(bufs: Seq<AudioBuffer<S>>) -> Seq<(Seq<S>, int, u32)> {
    bufs.map_values(|b: AudioBuffer<S>| chunk_view(b))
}

/// The queue after a chunk of `data` at `rate` Hz was offered: appended
/// unread below `target`, dropped otherwise.
pub open spec fn ingest_view<S>(
    queue: Seq<(Seq<S>, int, u32)>,
    target: int,
    data: Seq<S>,
    rate: u32,
) -> Seq<(Seq<S>, int, u32)> {
    if queue.len() < target {
        queue.push((data, 0, rate))
    } else {
        queue
    }
}

/// The effective rate, in whole Hz, of what a request of `rem` ns reads.
pub open spec fn walk_rate<S>(bufs: Seq<AudioBuffer<S>>, rem: int) -> int {
    let elapsed = walk_elapsed(bufs, rem);
    if elapsed == 0 {
        0
    } else {
        walk_weight(bufs, rem) / elapsed
    }
}

/// The frame shown for `values` read at `rate` Hz: the first power-of-two
/// of them, that power, and the transform indices between the configured
/// frequencies; none below two samples or two indices.
pub open spec fn frame_of<S>(values: Seq<S>, rate: int, config: SpectrumConfig) -> Option<
    (Seq<S>, nat, int, int),
> {
    if values.len() < 2 {
        None
    } else {
        let p = log2_floor(values.len());
        match bins_spec(pow2(p) as int, rate, config) {
            None => None,
            Some((low, high)) => Some((values.subrange(0, pow2(p) as int), p, low, high)),
        }
    }
}

/// What one analysis frame works on.
pub struct FramePlan<S> {
    /// The first `2^power` samples that were read; the rest are dropped.
    pub values: Vec<S>,
    /// The exponent of the transform size.
    pub power: u8,
    /// First transform index shown.
    pub low: usize,
    /// One past the last transform index shown.
    pub high: usize,
    /// The effective sample rate of the samples, in whole Hz.
    pub rate: u32,
}

/// The samples one request took, and the time they cover.
pub struct BufferSlice<S> {
    pub values: Vec<S>,
    /// Sum over the chunks read of rate (Hz) times time read (ns).
    pub weight: u128,
    /// Time covered, in ns.
    pub elapsed: u64,
}

impl<S> BufferSlice<S> {
    pub open spec fn wf(&self) -> bool {
        self.weight <= (u32::MAX as int) * (self.elapsed as int)
    }

    /// The time-weighted mean of the rates of the chunks read, in Hz
    /// (zero when no time was covered).
    pub open spec fn rate_spec(&self) -> int {
        if self.elapsed == 0 {
            0
        } else {
            self.weight as int / self.elapsed as int
        }
    }

    /// The effective sample rate of the slice, rounded down to whole Hz.
    pub fn effective_rate(&self) -> (r: u32)
        requires
            self.wf(),
        ensures
            r == self.rate_spec(),
    {
        if self.elapsed == 0 {
            0
        } else {
            proof {
                let w = self.weight as int;
                let e = self.elapsed as int;
                assert(w / e <= u32::MAX) by (nonlinear_arith)
                    requires
                        0 <= w <= (u32::MAX as int) * e,
                        e > 0,
                {
                    vstd::arithmetic::div_mod::lemma_div_is_ordered(w, (u32::MAX as int) * e, e);
                    vstd::arithmetic::div_mod::lemma_div_multiples_vanish(u32::MAX as int, e);
                }
            }
            (self.weight / (self.elapsed as u128)) as u32
        }
    }
}

/// The audio chunks waiting for analysis, and the per-size transform state.
pub struct BufferManager<S, E> {
    buffers: VecDeque<AudioBuffer<S>>,
    ffts: SpectralCache<E>,
    target: usize,
}

impl<S, E> BufferManager<S, E> {
    /// The queued chunks, oldest first.
    pub closed spec fn chunks(&self) -> Seq<AudioBuffer<S>> {
        self.buffers@
    }

    /// What the transform cache holds.
    pub closed spec fn cache(&self) -> Map<u8, E> {
        self.ffts@
    }

    /// The most chunks kept at once.
    pub closed spec fn target(&self) -> int {
        self.target as int
    }

    pub open spec fn wf(&self) -> bool {
        &&& chunks_wf(self.chunks())
        &&& self.chunks().len() <= self.target()
    }

    /// An empty manager that keeps at most `target` chunks.
    pub fn new(target: usize) -> (r: Self)
        ensures
            r.wf(),
            r.chunks().len() == 0,
            r.cache() == Map::<u8, E>::empty(),
            r.target() == target,
    {
        BufferManager { buffers: VecDeque::new(), ffts: SpectralCache::new(), target }
    }

    pub fn chunk_count(&self) -> (r: usize)
        ensures
            r == self.chunks().len(),
    {
        self.buffers.len()
    }

    pub fn cache_ref(&self) -> (r: &SpectralCache<E>)
        ensures
            r@ == self.cache(),
    {
        &self.ffts
    }
}

impl<S, E> Default for BufferManager<S, E> {
    /// An empty manager that keeps the default number of chunks.
    fn default() -> (r: Self)
        ensures
            r.wf(),
            r.chunks().len() == 0,
            r.cache() == Map::<u8, E>::empty(),
            r.target() == DEFAULT_BUFFER_TARGET,
    {
        Self::new(DEFAULT_BUFFER_TARGET)
    }
}

impl<S: Copy, E> BufferManager<S, E> {
    /// Reads `nanos` ns of audio from the front of the queue, across chunk
    /// boundaries, and drops the chunks that are then fully read.
    pub fn take_next(&mut self, nanos: u64) -> (slice: BufferSlice<S>)
        requires
            old(self).wf(),
        ensures
            final(self).wf(),
            final(self).target() == old(self).target(),
            final(self).cache() == old(self).cache(),
            final(self).chunks() == after_take(old(self).chunks(), nanos as int),
            slice.wf(),
            slice.elapsed <= nanos,
            slice.values@ == walk_values(old(self).chunks(), nanos as int),
            slice.elapsed == walk_elapsed(old(self).chunks(), nanos as int),
            slice.weight == walk_weight(old(self).chunks(), nanos as int),
    {
        let ghost orig = self.buffers@;
        let ghost target = self.target;
        let ghost cache = self.ffts@;
        let mut values: Vec<S> = Vec::new();
        let mut weight: u128 = 0;
        let mut elapsed: u64 = 0;
        let mut remaining: u64 = nanos;
        let mut visited: VecDeque<AudioBuffer<S>> = VecDeque::new();
        let mut stopped = false;
        while !stopped && self.buffers.len() > 0
            invariant
                self.target == target,
                self.ffts@ == cache,
                chunks_wf(self.buffers@),
                chunks_wf(visited@),
                self.buffers@.len() + visited@.len() == orig.len(),
                elapsed as int + remaining as int == nanos as int,
                weight <= (u32::MAX as int) * (elapsed as int),
                stopped ==> {
                    &&& values@ == walk_values(orig, nanos as int)
                    &&& elapsed == walk_elapsed(orig, nanos as int)
                    &&& weight == walk_weight(orig, nanos as int)
                    &&& visited@ + self.buffers@ == walk_after(orig, nanos as int)
                },
                !stopped ==> {
                    &&& values@ + walk_values(self.buffers@, remaining as int) == walk_values(
                        orig,
                        nanos as int,
                    )
                    &&& elapsed + walk_elapsed(self.buffers@, remaining as int) == walk_elapsed(
                        orig,
                        nanos as int,
                    )
                    &&& weight + walk_weight(self.buffers@, remaining as int) == walk_weight(
                        orig,
                        nanos as int,
                    )
                    &&& visited@ + walk_after(self.buffers@, remaining as int) == walk_after(
                        orig,
                        nanos as int,
                    )
                },
            decreases self.buffers@.len(),
        {
            let ghost rest = self.buffers@;
            let ghost rem = remaining as int;
            let ghost values0 = values@;
            let mut b = self.buffers.pop_front().unwrap();
            assert(rest[0].wf());
            let ghost b0 = b;
            let span = b.read(remaining, &mut values);
            proof {
                assert(span == rem - front_rest(rest, rem));
                assert(0 <= span);
                assert((b.rate as int) * (span as int) <= (u32::MAX as int) * (span as int))
                    by (nonlinear_arith)
                    requires
                        b.rate <= u32::MAX,
                        0 <= span,
                ;
                assert((b.rate as int) * (span as int) >= 0) by (nonlinear_arith)
                    requires
                        b.rate >= 0,
                        0 <= span,
                ;
                assert((u32::MAX as int) * (elapsed as int) + (u32::MAX as int) * (span as int) == (
                u32::MAX as int) * (elapsed + span)) by (nonlinear_arith);
                assert((u32::MAX as int) * (elapsed + span) <= (u32::MAX as int) * (nanos as int))
                    by (nonlinear_arith)
                    requires
                        elapsed + span <= nanos,
                ;
                assert(b == b0.advanced(front_count(rest, rem)));
            }
            weight = weight + (b.rate as u128) * (span as u128);
            elapsed = elapsed + span;
            remaining = remaining - span;
            let ghost visited0 = visited@;
            visited.push_back(b);
            proof {
                assert(self.buffers@ == rest.drop_first());
                assert forall|k: int| 0 <= k < visited@.len() implies #[trigger] visited@[k].wf() by {
                    if k < visited0.len() {
                        assert(visited@[k] == visited0[k]);
                    }
                }
                assert forall|k: int| 0 <= k < self.buffers@.len() implies #[trigger] self.buffers@[
                    k].wf() by {
                    assert(self.buffers@[k] == rest[k + 1]);
                }
            }
            if remaining < MIN_REMAINING_NANOS {
                stopped = true;
                proof {
                    assert(!walk_goes_on(rest, rem));
                    assert(values@ == values0 + walk_values(rest, rem));
                    assert(visited@ + self.buffers@ =~= visited0 + walk_after(rest, rem));
                }
            } else {
                proof {
                    assert(walk_goes_on(rest, rem));
                    assert(values0 + walk_values(rest, rem) =~= values@ + walk_values(
                        self.buffers@,
                        remaining as int,
                    ));
                    assert(visited0 + walk_after(rest, rem) =~= visited@ + walk_after(
                        self.buffers@,
                        remaining as int,
                    ));
                }
            }
        }
        proof {
            if !stopped {
                assert(self.buffers@.len() == 0);
                assert(values@ =~= values@ + walk_values(self.buffers@, remaining as int));
                assert(visited@ =~= visited@ + walk_after(self.buffers@, remaining as int));
                assert(visited@ + self.buffers@ =~= visited@);
            }
        }
        let ghost walked = visited@ + self.buffers@;
        let ghost visited_part = visited@;
        let ghost rest_part = self.buffers@;
        visited.append(&mut self.buffers);
        assert(visited@ == walked);
        self.buffers = visited;
        assert(chunks_wf(self.buffers@)) by {
            assert forall|k: int| 0 <= k < self.buffers@.len() implies #[trigger] self.buffers@[
                k].wf() by {
                assert(self.buffers@[k] == walked[k]);
                if k < visited_part.len() {
                    assert(walked[k] == visited_part[k]);
                } else {
                    assert(walked[k] == rest_part[k - visited_part.len()]);
                }
            }
        }
        while self.buffers.len() > 0 && self.buffers[0].is_drained()
            invariant
                self.target == target,
                self.ffts@ == cache,
                chunks_wf(self.buffers@),
                self.buffers@.len() <= orig.len(),
                drop_drained(self.buffers@) == drop_drained(walked),
            decreases self.buffers@.len(),
        {
            let ghost before = self.buffers@;
            self.buffers.pop_front();
            assert(self.buffers@ == before.drop_first());
            assert forall|k: int| 0 <= k < self.buffers@.len() implies #[trigger] self.buffers@[
                k].wf() by {
                assert(self.buffers@[k] == before[k + 1]);
            }
        }
        assert(drop_drained(self.buffers@) == self.buffers@);
        BufferSlice { values, weight, elapsed }
    }

    /// Takes `nanos` ns of audio and prepares the frame that a transform of
    /// it shows: the samples cut to a power of two, with the transform state
    /// for that size built by `make` on first use, and the indices between
    /// the configured frequencies. None when fewer than two samples came or
    /// fewer than two indices are left.
    pub fn frame_for_interval<F: FnOnce(u8) -> E>(
        &mut self,
        nanos: u64,
        config: &SpectrumConfig,
        make: F,
    ) -> (r: Option<FramePlan<S>>)
        requires
            old(self).wf(),
            forall|p: u8| make.requires((p,)),
        ensures
            final(self).wf(),
            final(self).target() == old(self).target(),
            final(self).chunks() == after_take(old(self).chunks(), nanos as int),
            walk_values(old(self).chunks(), nanos as int).len() < 2 ==> {
                &&& r.is_none()
                &&& final(self).cache() == old(self).cache()
            },
            walk_values(old(self).chunks(), nanos as int).len() >= 2 ==> {
                let v = walk_values(old(self).chunks(), nanos as int);
                let p = log2_floor(v.len());
                let rate = walk_rate(old(self).chunks(), nanos as int);
                &&& final(self).cache().contains_key(p as u8)
                &&& final(self).cache() == prepared(old(self).cache(), p as u8, final(self).cache()[p as u8])
            },
            r.is_some() == frame_of(
                walk_values(old(self).chunks(), nanos as int),
                walk_rate(old(self).chunks(), nanos as int),
                *config,
            ).is_some(),
            r matches Some(f) ==> {
                &&& frame_of(
                    walk_values(old(self).chunks(), nanos as int),
                    walk_rate(old(self).chunks(), nanos as int),
                    *config,
                ) == Some((f.values@, f.power as nat, f.low as int, f.high as int))
                &&& f.rate == walk_rate(old(self).chunks(), nanos as int)
            },
    {
        let slice = self.take_next(nanos);
        let rate = slice.effective_rate();
        let mut values = slice.values;
        let (power, size) = match transform_size(values.len()) {
            None => return None,
            Some(found) => found,
        };
        let _ = self.ffts.prepare(power, make);
        match bin_range(size, rate, config) {
            None => None,
            Some((low, high)) => {
                values.truncate(size);
                Some(FramePlan { values, power, low, high, rate })
            },
        }
    }
    /// Queues a copy of `buffer` as an unread chunk at `rate` Hz, unless the
    /// store is full (the consumer is behind): then nothing changes.
    pub fn fill_buffer(&mut self, buffer: &[S], rate: u32)
        requires
            old(self).wf(),
        ensures
            final(self).wf(),
            final(self).target() == old(self).target(),
            final(self).cache() == old(self).cache(),
            chunk_views(final(self).chunks()) == ingest_view(
                chunk_views(old(self).chunks()),
                old(self).target(),
                buffer@,
                rate,
            ),
            old(self).chunks().len() < old(self).target() ==> {
                let last = final(self).chunks().last();
                &&& final(self).chunks().drop_last() == old(self).chunks()
                &&& last.data@ == buffer@
                &&& last.position == 0
                &&& last.rate == rate
            },
            old(self).chunks().len() >= old(self).target() ==> final(self).chunks() == old(
                self,
            ).chunks(),
    {
        if self.buffers.len() >= self.target {
            return ;
        }
        let mut data: Vec<S> = Vec::new();
        let mut i: usize = 0;
        while i < buffer.len()
            invariant
                i <= buffer@.len(),
                data@ == buffer@.subrange(0, i as int),
            decreases buffer@.len() - i,
        {
            data.push(buffer[i]);
            i = i + 1;
            assert(data@ =~= buffer@.subrange(0, i as int));
        }
        assert(data@ =~= buffer@);
        let ghost before = self.buffers@;
        self.buffers.push_back(AudioBuffer { data, position: 0, rate });
        assert(self.buffers@.drop_last() =~= before);
        assert forall|k: int| 0 <= k < self.buffers@.len() implies #[trigger] self.buffers@[k].wf() by {
            if k < before.len() {
                assert(self.buffers@[k] == before[k]);
            }
        }
        assert(chunk_views(self.buffers@) =~= chunk_views(before).push((buffer@, 0, rate)));
    }
}

} // verus!

verus! {

/// The queue after each of `offers` (samples and rate) was offered in turn.
pub open spec fn ingest_all<S>(
    queue: Seq<(Seq<S>, int, u32)>,
    target: int,
    offers: Seq<(Seq<S>, u32)>,
) -> Seq<(Seq<S>, int, u32)>
    decreases offers.len(),
{
    if offers.len() == 0 {
        queue
    } else {
        ingest_all(
            ingest_view(queue, target, offers[0].0, offers[0].1),
            target,
            offers.drop_first(),
        )
    }
}

/// Offers as unread chunks.
pub open spec fn fresh<S>(offers: Seq<(Seq<S>, u32)>) -> Seq<(Seq<S>, int, u32)> {
    offers.map_values(|o: (Seq<S>, u32)| (o.0, 0int, o.1))
}

/// Offering chunks to a store that nothing drains keeps the first ones that
/// fit, unread and in arrival order, and drops the rest; once as many were
/// offered as there was room for, the store holds exactly `target` chunks.
pub proof fn lemma_capacity_cap<S>(
    queue: Seq<(Seq<S>, int, u32)>,
    target: int,
    offers: Seq<(Seq<S>, u32)>,
)
    requires
        queue.len() <= target,
    ensures
        offers.len() <= target - queue.len() ==> ingest_all(queue, target, offers) == queue
            + fresh(offers),
        offers.len() >= target - queue.len() ==> ingest_all(queue, target, offers) == queue
            + fresh(offers).take(target - queue.len()),
        offers.len() >= target - queue.len() ==> ingest_all(queue, target, offers).len()
            == target,
    decreases offers.len(),
{
    if offers.len() > 0 {
        let rest = offers.drop_first();
        let next = ingest_view(queue, target, offers[0].0, offers[0].1);
        lemma_capacity_cap(next, target, rest);
        assert(fresh(rest) =~= fresh(offers).drop_first());
        if queue.len() < target {
            assert(next =~= queue + fresh(offers).take(1));
            if offers.len() <= target - queue.len() {
                assert(queue + fresh(offers) =~= next + fresh(rest));
            } else {
                assert(queue + fresh(offers).take(target - queue.len()) =~= next + fresh(rest).take(
                    target - next.len(),
                ));
            }
        } else {
            assert(fresh(offers).take(0) =~= Seq::<(Seq<S>, int, u32)>::empty());
            assert(queue + fresh(offers).take(target - queue.len()) =~= queue);
            assert(fresh(rest).take(0) =~= Seq::<(Seq<S>, int, u32)>::empty());
            assert(next + fresh(rest).take(target - next.len()) =~= next);
        }
    } else {
        assert(queue + fresh(offers) =~= queue);
        if queue.len() == target {
            assert(queue + fresh(offers).take(0) =~= queue);
        }
    }
}

/// Every sample not yet read, across the chunks, oldest first.
pub open spec fn unread_all<S>(bufs: Seq<AudioBuffer<S>>) -> Seq<S>
    decreases bufs.len(),
{
    if bufs.len() == 0 {
        Seq::empty()
    } else {
        bufs[0].unread() + unread_all(bufs.drop_first())
    }
}

/// A chunk of at least a thousand Hz is read to its end whenever the walk
/// goes on past it: the time left over is then below the stopping threshold.
proof fn lemma_read_to_end<S>(bufs: Seq<AudioBuffer<S>>, rem: int)
    requires
        bufs.len() > 0,
        bufs[0].wf(),
        bufs[0].rate >= 1000,
        rem >= 0,
        walk_goes_on(bufs, rem),
    ensures
        front_count(bufs, rem) == bufs[0].data@.len() - bufs[0].position,
{
    let b = bufs[0];
    let r = b.rate as int;
    let n = front_count(bufs, rem);
    let big_n = NANOS_PER_SECOND as int;
    if n < b.data@.len() - b.position {
        assert(n == (rem * r) / big_n);
        assert(n >= 0) by (nonlinear_arith)
            requires
                n == (rem * r) / big_n,
                rem >= 0,
                r >= 0,
                big_n > 0,
        ;
        lemma_span_within(n, rem, r);
        let span = span_of(n, r);
        let x = rem * r;
        let y = span * r;
        vstd::arithmetic::div_mod::lemma_fundamental_div_mod(x, big_n);
        vstd::arithmetic::div_mod::lemma_mod_bound(x, big_n);
        assert(x < big_n * n + big_n);
        assert(y >= n * big_n);
        assert(rem >= span + 1_000_000);
        assert(x >= y + 1_000_000 * r) by (nonlinear_arith)
            requires
                rem >= span + 1_000_000,
                r > 0,
                x == rem * r,
                y == span * r,
        ;
        assert(big_n * n == n * big_n) by (nonlinear_arith);
        assert(false);
    }
}

proof fn lemma_unread_all_drop_drained<S>(bufs: Seq<AudioBuffer<S>>)
    requires
        chunks_wf(bufs),
    ensures
        unread_all(drop_drained(bufs)) == unread_all(bufs),
    decreases bufs.len(),
{
    if bufs.len() > 0 && bufs[0].drained() {
        assert(bufs[0].wf());
        assert(bufs[0].unread() =~= Seq::<S>::empty());
        assert(unread_all(bufs) =~= unread_all(bufs.drop_first()));
        assert(chunks_wf(bufs.drop_first())) by {
            assert forall|k: int| 0 <= k < bufs.drop_first().len() implies #[trigger] bufs.drop_first()[k].wf() by {
                assert(bufs.drop_first()[k] == bufs[k + 1]);
            }
        }
        lemma_unread_all_drop_drained(bufs.drop_first());
    }
}

proof fn lemma_walk_keeps_every_sample<S>(bufs: Seq<AudioBuffer<S>>, rem: int)
    requires
        chunks_wf(bufs),
        forall|k: int| 0 <= k < bufs.len() ==> #[trigger] bufs[k].rate >= 1000,
        rem >= 0,
    ensures
        walk_values(bufs, rem) + unread_all(walk_after(bufs, rem)) == unread_all(bufs),
        chunks_wf(walk_after(bufs, rem)),
    decreases bufs.len(),
{
    if bufs.len() > 0 {
        let b = bufs[0];
        assert(b.wf() && b.rate >= 1000);
        let n = front_count(bufs, rem);
        let rest = bufs.drop_first();
        let next = front_rest(bufs, rem);
        assert(samples_in(rem, b.rate as int) >= 0) by (nonlinear_arith)
            requires
                rem >= 0,
                b.rate >= 0,
        ;
        lemma_span_within(n, rem, b.rate as int);
        assert(0 <= n <= b.data@.len() - b.position);
        let here = b.data@.subrange(b.position as int, b.position + n);
        let moved = b.advanced(n);
        assert(moved.position == b.position + n);
        assert(moved.wf());
        assert(here + moved.unread() =~= b.unread());
        assert(chunks_wf(rest)) by {
            assert forall|k: int| 0 <= k < rest.len() implies #[trigger] rest[k].wf() && rest[k].rate
                > 0 by {
                assert(rest[k] == bufs[k + 1]);
            }
        }
        assert forall|k: int| 0 <= k < rest.len() implies #[trigger] rest[k].rate >= 1000 by {
            assert(rest[k] == bufs[k + 1]);
        }
        let after = walk_after(bufs, rem);
        if walk_goes_on(bufs, rem) {
            lemma_read_to_end(bufs, rem);
            lemma_walk_keeps_every_sample(rest, next);
            assert(moved.unread() =~= Seq::<S>::empty());
            assert(after == seq![moved] + walk_after(rest, next));
            assert(after.drop_first() =~= walk_after(rest, next));
            assert(unread_all(after) == moved.unread() + unread_all(walk_after(rest, next)));
            assert(walk_values(bufs, rem) == here + walk_values(rest, next));
            assert(walk_values(bufs, rem) + unread_all(after) =~= here + (walk_values(rest, next)
                + unread_all(walk_after(rest, next))));
            assert(unread_all(bufs) == b.unread() + unread_all(rest));
            assert forall|k: int| 0 <= k < after.len() implies #[trigger] after[k].wf() by {
                if k > 0 {
                    assert(after[k] == walk_after(rest, next)[k - 1]);
                }
            }
        } else {
            assert(after == seq![moved] + rest);
            assert(after.drop_first() =~= rest);
            assert(walk_values(bufs, rem) + unread_all(after) =~= here + (moved.unread()
                + unread_all(rest)));
            assert forall|k: int| 0 <= k < after.len() implies #[trigger] after[k].wf() by {
                if k > 0 {
                    assert(after[k] == rest[k - 1]);
                }
            }
        }
    }
}

/// With chunks of at least a thousand Hz, a request loses no sample and
/// repeats none: what it reads, followed by what is left, is what was queued.
pub proof fn lemma_take_keeps_every_sample<S>(bufs: Seq<AudioBuffer<S>>, nanos: int)
    requires
        chunks_wf(bufs),
        forall|k: int| 0 <= k < bufs.len() ==> #[trigger] bufs[k].rate >= 1000,
        nanos >= 0,
    ensures
        walk_values(bufs, nanos) + unread_all(after_take(bufs, nanos)) == unread_all(bufs),
{
    lemma_walk_keeps_every_sample(bufs, nanos);
    lemma_unread_all_drop_drained(walk_after(bufs, nanos));
}

} // verus!

verus! {

proof fn lemma_walk_count<S>(bufs: Seq<AudioBuffer<S>>, rem: int, rate: u32)
    requires
        chunks_wf(bufs),
        forall|k: int| 0 <= k < bufs.len() ==> #[trigger] bufs[k].rate == rate,
        rate > 0,
        rem >= 0,
    ensures
        walk_values(bufs, rem).len() * (NANOS_PER_SECOND as int) <= (rate as int) * walk_elapsed(
            bufs,
            rem,
        ),
        0 <= walk_elapsed(bufs, rem) <= rem,
    decreases bufs.len(),
{
    if bufs.len() > 0 {
        let b = bufs[0];
        assert(b.wf() && b.rate == rate);
        let n = front_count(bufs, rem);
        let r = rate as int;
        let big_n = NANOS_PER_SECOND as int;
        assert(samples_in(rem, r) >= 0) by (nonlinear_arith)
            requires
                rem >= 0,
                r >= 0,
        ;
        lemma_span_within(n, rem, r);
        assert(0 <= n <= b.data@.len() - b.position);
        let span = span_of(n, r);
        let rest = bufs.drop_first();
        let next = front_rest(bufs, rem);
        assert(next == rem - span);
        if walk_goes_on(bufs, rem) {
            assert forall|k: int| 0 <= k < rest.len() implies #[trigger] rest[k].wf() by {
                assert(rest[k] == bufs[k + 1]);
            }
            assert forall|k: int| 0 <= k < rest.len() implies #[trigger] rest[k].rate == rate by {
                assert(rest[k] == bufs[k + 1]);
            }
            lemma_walk_count(rest, next, rate);
            let m = walk_values(rest, next).len();
            let e = walk_elapsed(rest, next);
            assert(walk_values(bufs, rem).len() == n + m);
            assert(walk_elapsed(bufs, rem) == span + e);
            assert((n + m) * big_n <= r * (span + e)) by (nonlinear_arith)
                requires
                    m * big_n <= r * e,
                    span * r >= n * big_n,
            ;
        } else {
            assert(walk_values(bufs, rem).len() == n);
            assert(n * big_n <= r * span) by (nonlinear_arith)
                requires
                    span * r >= n * big_n,
            ;
        }
    }
}

/// From chunks that share one rate, a request reads no more samples than
/// its time holds at that rate, and covers no more time than was asked for.
pub proof fn lemma_take_within_request<S>(bufs: Seq<AudioBuffer<S>>, nanos: int, rate: u32)
    requires
        chunks_wf(bufs),
        forall|k: int| 0 <= k < bufs.len() ==> #[trigger] bufs[k].rate == rate,
        nanos >= 0,
    ensures
        walk_values(bufs, nanos).len() <= samples_in(nanos, rate as int),
        walk_elapsed(bufs, nanos) <= nanos,
{
    if rate > 0 {
        lemma_walk_count(bufs, nanos, rate);
        let len = walk_values(bufs, nanos).len() as int;
        let big_n = NANOS_PER_SECOND as int;
        let r = rate as int;
        assert(len * big_n <= nanos * r) by (nonlinear_arith)
            requires
                len * big_n <= r * walk_elapsed(bufs, nanos),
                walk_elapsed(bufs, nanos) <= nanos,
                r > 0,
        ;
        vstd::arithmetic::div_mod::lemma_div_is_ordered(len * big_n, nanos * r, big_n);
        vstd::arithmetic::div_mod::lemma_div_multiples_vanish(len, big_n);
    } else {
        lemma_walk_nothing_at_rate_zero(bufs, nanos);
    }
}

proof fn lemma_walk_nothing_at_rate_zero<S>(bufs: Seq<AudioBuffer<S>>, rem: int)
    requires
        chunks_wf(bufs),
        forall|k: int| 0 <= k < bufs.len() ==> #[trigger] bufs[k].rate == 0,
        rem >= 0,
    ensures
        walk_values(bufs, rem).len() == 0,
        walk_elapsed(bufs, rem) == 0,
    decreases bufs.len(),
{
    if bufs.len() > 0 {
        let b = bufs[0];
        assert(b.rate == 0 && b.wf());
        assert(samples_in(rem, 0) == 0);
        assert(front_count(bufs, rem) == 0);
        assert(b.data@.subrange(b.position as int, b.position as int).len() == 0);
        let rest = bufs.drop_first();
        assert forall|k: int| 0 <= k < rest.len() implies #[trigger] rest[k].rate == 0 by {
            assert(rest[k] == bufs[k + 1]);
        }
        assert forall|k: int| 0 <= k < rest.len() implies #[trigger] rest[k].wf() by {
            assert(rest[k] == bufs[k + 1]);
        }
        lemma_walk_nothing_at_rate_zero(rest, rem);
    }
}

} // verus!

verus! {

/// Samples past the power-of-two prefix play no part in a frame: two reads
/// of one length that agree on that prefix give the same frame.
pub proof fn lemma_frame_ignores_tail<S>(
    first: Seq<S>,
    second: Seq<S>,
    rate: int,
    config: SpectrumConfig,
)
    requires
        first.len() == second.len(),
        first.len() >= 2 ==> first.subrange(0, pow2(log2_floor(first.len())) as int)
            == second.subrange(0, pow2(log2_floor(first.len())) as int),
    ensures
        frame_of(first, rate, config) == frame_of(second, rate, config),
{
    if first.len() >= 2 {
        lemma_log2_floor_bounds(first.len());
    }
}

/// For a queue of one chunk: the samples read past the power-of-two prefix
/// do not change the frame, and the two queues are left the same but for
/// those samples.
pub proof fn lemma_one_chunk_frame_ignores_tail<S>(
    first: AudioBuffer<S>,
    second: AudioBuffer<S>,
    nanos: int,
    config: SpectrumConfig,
)
    requires
        first.wf(),
        second.wf(),
        first.position == second.position,
        first.rate == second.rate,
        first.data@.len() == second.data@.len(),
        nanos >= 0,
        forall|i: int|
            0 <= i < first.position + pow2(log2_floor(first.read_count(nanos) as nat))
                && i < first.data@.len() ==> #[trigger] first.data@[i] == second.data@[i],
    ensures
        walk_values(seq![first], nanos).len() == walk_values(seq![second], nanos).len(),
        walk_rate(seq![first], nanos) == walk_rate(seq![second], nanos),
        frame_of(walk_values(seq![first], nanos), walk_rate(seq![first], nanos), config)
            == frame_of(walk_values(seq![second], nanos), walk_rate(seq![second], nanos), config),
        chunk_views(after_take(seq![first], nanos)).len() == chunk_views(
            after_take(seq![second], nanos),
        ).len(),
{
    let q1 = seq![first];
    let q2 = seq![second];
    let n = first.read_count(nanos);
    assert(samples_in(nanos, first.rate as int) >= 0) by (nonlinear_arith)
        requires
            nanos >= 0,
            first.rate >= 0,
    ;
    assert(0 <= n <= first.data@.len() - first.position);
    assert(front_count(q1, nanos) == n && front_count(q2, nanos) == n);
    assert(q1.drop_first() =~= Seq::<AudioBuffer<S>>::empty());
    assert(q2.drop_first() =~= Seq::<AudioBuffer<S>>::empty());
    assert(q1[0] == first && q2[0] == second);
    let r1 = front_rest(q1, nanos);
    let r2 = front_rest(q2, nanos);
    assert(walk_values(q1.drop_first(), r1) =~= Seq::<S>::empty());
    assert(walk_values(q2.drop_first(), r2) =~= Seq::<S>::empty());
    assert(walk_elapsed(q1.drop_first(), r1) == 0);
    assert(walk_elapsed(q2.drop_first(), r2) == 0);
    assert(walk_weight(q1.drop_first(), r1) == 0);
    assert(walk_weight(q2.drop_first(), r2) == 0);
    let v1 = walk_values(q1, nanos);
    let v2 = walk_values(q2, nanos);
    assert(v1 =~= first.data@.subrange(first.position as int, first.position + n));
    assert(v2 =~= second.data@.subrange(second.position as int, second.position + n));
    assert(walk_elapsed(q1, nanos) == walk_elapsed(q2, nanos));
    assert(walk_weight(q1, nanos) == walk_weight(q2, nanos));
    if n >= 2 {
        lemma_log2_floor_bounds(n as nat);
        let k = pow2(log2_floor(n as nat)) as int;
        assert(v1.subrange(0, k) =~= v2.subrange(0, k)) by {
            assert forall|i: int| 0 <= i < k implies v1.subrange(0, k)[i] == v2.subrange(0, k)[i] by {
                assert(first.data@[first.position + i] == second.data@[first.position + i]);
            }
        }
    }
    lemma_frame_ignores_tail(v1, v2, walk_rate(q1, nanos), config);
    lemma_after_take_len(q1, q2, nanos);
}

proof fn lemma_after_take_len<S>(q1: Seq<AudioBuffer<S>>, q2: Seq<AudioBuffer<S>>, nanos: int)
    requires
        q1.len() == 1,
        q2.len() == 1,
        q1[0].wf(),
        q2[0].wf(),
        q1[0].position == q2[0].position,
        q1[0].rate == q2[0].rate,
        q1[0].data@.len() == q2[0].data@.len(),
        nanos >= 0,
    ensures
        chunk_views(after_take(q1, nanos)).len() == chunk_views(after_take(q2, nanos)).len(),
{
    assert(q1.drop_first() =~= Seq::<AudioBuffer<S>>::empty());
    assert(q2.drop_first() =~= Seq::<AudioBuffer<S>>::empty());
    assert(walk_after(q1.drop_first(), front_rest(q1, nanos)) =~= Seq::<AudioBuffer<S>>::empty());
    assert(walk_after(q2.drop_first(), front_rest(q2, nanos)) =~= Seq::<AudioBuffer<S>>::empty());
    let a1 = walk_after(q1, nanos);
    let a2 = walk_after(q2, nanos);
    assert(a1.len() == 1 && a2.len() == 1);
    assert(a1[0].drained() == a2[0].drained());
    assert(a1.drop_first() =~= Seq::<AudioBuffer<S>>::empty());
    assert(a2.drop_first() =~= Seq::<AudioBuffer<S>>::empty());
    assert(drop_drained(a1.drop_first()) == a1.drop_first());
    assert(drop_drained(a2.drop_first()) == a2.drop_first());
}

} // verus!

verus! {

proof fn lemma_weight_bounds<S>(bufs: Seq<AudioBuffer<S>>, rem: int, lo: int, hi: int)
    requires
        chunks_wf(bufs),
        forall|k: int| 0 <= k < bufs.len() ==> lo <= #[trigger] bufs[k].rate <= hi,
        rem >= 0,
    ensures
        lo * walk_elapsed(bufs, rem) <= walk_weight(bufs, rem) <= hi * walk_elapsed(bufs, rem),
        walk_elapsed(bufs, rem) >= 0,
    decreases bufs.len(),
{
    if bufs.len() > 0 {
        let b = bufs[0];
        assert(b.wf() && lo <= b.rate <= hi);
        let n = front_count(bufs, rem);
        let r = b.rate as int;
        let span = rem - front_rest(bufs, rem);
        if r > 0 {
            assert(samples_in(rem, r) >= 0) by (nonlinear_arith)
                requires
                    rem >= 0,
                    r >= 0,
            ;
            lemma_span_within(n, rem, r);
        }
        assert(0 <= span <= rem);
        assert(lo * span <= r * span <= hi * span) by (nonlinear_arith)
            requires
                lo <= r <= hi,
                span >= 0,
        ;
        if walk_goes_on(bufs, rem) {
            let rest = bufs.drop_first();
            assert forall|k: int| 0 <= k < rest.len() implies #[trigger] rest[k].wf() by {
                assert(rest[k] == bufs[k + 1]);
            }
            assert forall|k: int| 0 <= k < rest.len() implies lo <= #[trigger] rest[k].rate <= hi by {
                assert(rest[k] == bufs[k + 1]);
            }
            let next = front_rest(bufs, rem);
            lemma_weight_bounds(rest, next, lo, hi);
            let e = walk_elapsed(rest, next);
            assert(lo * (span + e) == lo * span + lo * e) by (nonlinear_arith);
            assert(hi * (span + e) == hi * span + hi * e) by (nonlinear_arith);
        }
    }
}

/// A request that covers any time has an effective rate between the lowest
/// and the highest rate of the queued chunks.
pub proof fn lemma_rate_between<S>(bufs: Seq<AudioBuffer<S>>, nanos: int, lo: int, hi: int)
    requires
        chunks_wf(bufs),
        forall|k: int| 0 <= k < bufs.len() ==> lo <= #[trigger] bufs[k].rate <= hi,
        nanos >= 0,
        walk_elapsed(bufs, nanos) > 0,
    ensures
        lo <= walk_rate(bufs, nanos) <= hi,
{
    lemma_weight_bounds(bufs, nanos, lo, hi);
    let e = walk_elapsed(bufs, nanos);
    let w = walk_weight(bufs, nanos);
    vstd::arithmetic::div_mod::lemma_div_is_ordered(lo * e, w, e);
    vstd::arithmetic::div_mod::lemma_div_is_ordered(w, hi * e, e);
    vstd::arithmetic::div_mod::lemma_div_multiples_vanish(lo, e);
    vstd::arithmetic::div_mod::lemma_div_multiples_vanish(hi, e);
    assert(lo * e == e * lo && hi * e == e * hi) by (nonlinear_arith);
}

} // verus!
