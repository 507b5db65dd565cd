//! Time-bucketed mixing of mono audio fragments sent by clients.
//!
//! Each fragment falls into the bucket of its start time divided by
//! `CHUNK_MS`. A bucket keeps a saturating 32-bit running sum per sample
//! position; every accepted fragment yields the bucket's current sum clipped to
//! 16 bits. Buckets not updated for longer than `MAX_BUCKET_AGE_MS` are dropped
//! at the next prune, which runs when more than `CHUNK_MS` has passed since the
//! previous one. Time is given by the caller in milliseconds of a monotonic clock.

use vstd::prelude::*;

verus! {

pub const CHUNK_MS: u64 = 100;

pub const MAX_BUCKET_AGE_MS: u64 = 2000;

/// An audio fragment to mix; `start_ms` is in whole milliseconds.
pub struct MixerInput {
    pub start_ms: u64,
    pub sample_rate: u32,
    pub channels: u32,
    pub samples: Vec<i16>,
}

/// The current contents of one bucket; `start_ms` is the bucket's start.
pub struct MixedChunk {
    pub start_ms: u64,
    pub sample_rate: u32,
    pub channels: u32,
    pub samples: Vec<i16>,
}

pub struct FragmentView {
    pub start_ms: u64,
    pub sample_rate: u32,
    pub channels: u32,
    pub samples: Seq<i16>,
}

impl View for MixerInput {
    type V = FragmentView;

    open spec fn view(&self) -> FragmentView {
        FragmentView {
            start_ms: self.start_ms,
            sample_rate: self.sample_rate,
            channels: self.channels,
            samples: self.samples@,
        }
    }
}

impl View for MixedChunk {
    type V = FragmentView;

    open spec fn view(&self) -> FragmentView {
        FragmentView {
            start_ms: self.start_ms,
            sample_rate: self.sample_rate,
            channels: self.channels,
            samples: self.samples@,
        }
    }
}

pub struct MixBucket {
    key: u64,
    sample_rate: u32,
    channels: u32,
    sum: Vec<i32>,
    last_update_ms: u64,
}

pub struct BucketView {
    pub key: u64,
    pub sample_rate: u32,
    pub channels: u32,
    pub sum: Seq<i32>,
    pub last_update_ms: u64,
}

impl View for MixBucket {
    type V = BucketView;

    closed spec fn view(&self) -> BucketView {
        BucketView {
            key: self.key,
            sample_rate: self.sample_rate,
            channels: self.channels,
            sum: self.sum@,
            last_update_ms: self.last_update_ms,
        }
    }
}

spec fn views(v: Seq<MixBucket>) -> Seq<BucketView> {
    v.map_values(|b: MixBucket| b@)
}

/// The mixer's buckets and clock.
pub struct Mixer {
    buckets: Vec<MixBucket>,
    last_prune_ms: u64,
    clock_ms: u64,
}

pub struct MixerView {
    pub buckets: Seq<BucketView>,
    pub last_prune_ms: u64,
    pub clock_ms: u64,
}

impl View for Mixer {
    type V = MixerView;

    closed spec fn view(&self) -> MixerView {
        MixerView {
            buckets: views(self.buckets@),
            last_prune_ms: self.last_prune_ms,
            clock_ms: self.clock_ms,
        }
    }
}

/// `a + b` saturated to the `i32` range.
pub open spec fn sat_add(a: i32, b: i16) -> i32 {
    if a + b > i32::MAX {
        i32::MAX
    } else if a + b < i32::MIN {
        i32::MIN
    } else {
        (a + b) as i32
    }
}

/// `v` clipped to the `i16` range.
pub open spec fn clip16(v: i32) -> i16 {
    if v > i16::MAX {
        i16::MAX
    } else if v < i16::MIN {
        i16::MIN
    } else {
        v as i16
    }
}

/// The running sum after adding a fragment: grown to the longer of the two,
/// each position saturating-added.
pub open spec fn add_into(sum: Seq<i32>, s: Seq<i16>) -> Seq<i32> {
    Seq::new(
        if sum.len() >= s.len() {
            sum.len()
        } else {
            s.len()
        },
        |i: int|
            {
                let base: i32 = if i < sum.len() {
                    sum[i]
                } else {
                    0
                };
                if i < s.len() {
                    sat_add(base, s[i])
                } else {
                    base
                }
            },
    )
}

/// A running sum clipped to 16-bit samples.
pub open spec fn clipped(sum: Seq<i32>) -> Seq<i16> {
    Seq::new(sum.len(), |i: int| clip16(sum[i]))
}

pub open spec fn has_key(bs: Seq<BucketView>, key: u64) -> bool {
    exists|i: int| 0 <= i < bs.len() && bs[i].key == key
}

pub open spec fn index_of_key(bs: Seq<BucketView>, key: u64) -> int {
    choose|i: int| 0 <= i < bs.len() && bs[i].key == key
}

/// A bucket survives a prune at `t` when it was updated at most
/// `MAX_BUCKET_AGE_MS` before `t` (an update after `t` counts as age zero).
pub open spec fn is_fresh(b: BucketView, t: u64) -> bool {
    b.last_update_ms + MAX_BUCKET_AGE_MS >= t
}

/// The buckets that survive a prune at `t`, in their order.
pub open spec fn fresh_only(bs: Seq<BucketView>, t: u64) -> Seq<BucketView> {
    bs.filter(|b: BucketView| is_fresh(b, t))
}

/// The prune that runs at `t` when more than `CHUNK_MS` has passed since the last one.
pub open spec fn prune_if_due(m: MixerView, t: u64) -> MixerView {
    if t > m.last_prune_ms + CHUNK_MS {
        MixerView {
            buckets: fresh_only(m.buckets, t),
            last_prune_ms: t,
            clock_ms: m.clock_ms,
        }
    } else {
        m
    }
}

/// The clock after a call at `now`: times before one already seen count as that time.
pub open spec fn advance(clock: u64, now: u64) -> u64 {
    if now > clock {
        now
    } else {
        clock
    }
}

/// One fragment handed to the mixer at `now`: the next state and the emitted chunk.
/// Inputs that are not mono, or whose rate or channel count differ from those of
/// the bucket they fall in, leave the buckets unchanged and emit nothing.
pub open spec fn mix_step(m: MixerView, inp: FragmentView, now: u64) -> (MixerView, Option<
    FragmentView,
>) {
    let t = advance(m.clock_ms, now);
    let m1 = MixerView { buckets: m.buckets, last_prune_ms: m.last_prune_ms, clock_ms: t };
    let key = inp.start_ms / CHUNK_MS;
    let found = has_key(m.buckets, key);
    let base = if found {
        m.buckets[index_of_key(m.buckets, key)]
    } else {
        BucketView {
            key,
            sample_rate: inp.sample_rate,
            channels: inp.channels,
            sum: Seq::empty(),
            last_update_ms: t,
        }
    };
    if inp.channels != 1 || base.sample_rate != inp.sample_rate || base.channels != inp.channels {
        (m1, None)
    } else {
        let nb = BucketView {
            key,
            sample_rate: base.sample_rate,
            channels: base.channels,
            sum: add_into(base.sum, inp.samples),
            last_update_ms: t,
        };
        let bs = if found {
            m.buckets.update(index_of_key(m.buckets, key), nb)
        } else {
            m.buckets.push(nb)
        };
        let chunk = FragmentView {
            start_ms: (key * CHUNK_MS) as u64,
            sample_rate: nb.sample_rate,
            channels: nb.channels,
            samples: clipped(nb.sum),
        };
        (prune_if_due(MixerView { buckets: bs, last_prune_ms: m.last_prune_ms, clock_ms: t }, t), Some(chunk))
    }
}

/// A clock tick at `now` with no fragment: only the prune, if due.
pub open spec fn tick_step(m: MixerView, now: u64) -> MixerView {
    let t = advance(m.clock_ms, now);
    prune_if_due(MixerView { buckets: m.buckets, last_prune_ms: m.last_prune_ms, clock_ms: t }, t)
}

impl MixerView {
    /// Keys are unique, no bucket or prune lies ahead of the clock, and every
    /// bucket was fresh at the last prune.
    pub open spec fn wf(self) -> bool {
        &&& forall|i: int, j: int|
            0 <= i < self.buckets.len() && 0 <= j < self.buckets.len() && i != j
                ==> self.buckets[i].key != self.buckets[j].key
        &&& forall|i: int|
            0 <= i < self.buckets.len() ==> {
                &&& self.buckets[i].last_update_ms <= self.clock_ms
                &&& is_fresh(self.buckets[i], self.last_prune_ms)
            }
        &&& self.last_prune_ms <= self.clock_ms
    }
}

proof fn lemma_filter_keeps(bs: Seq<BucketView>, t: u64)
    ensures
        forall|j: int|
            0 <= j < fresh_only(bs, t).len() ==> bs.contains(#[trigger] fresh_only(bs, t)[j])
                && is_fresh(fresh_only(bs, t)[j], t),
        forall|i: int|
            0 <= i < bs.len() && is_fresh(#[trigger] bs[i], t) ==> fresh_only(bs, t).contains(bs[i]),
{
    let p = |b: BucketView| is_fresh(b, t);
    assert forall|i: int| 0 <= i < bs.len() && is_fresh(#[trigger] bs[i], t) implies fresh_only(
        bs,
        t,
    ).contains(bs[i]) by {
        bs.lemma_filter_contains(p, i);
    }
    assert forall|j: int| 0 <= j < fresh_only(bs, t).len() implies bs.contains(
        #[trigger] fresh_only(bs, t)[j],
    ) && is_fresh(fresh_only(bs, t)[j], t) by {
        let f = bs.filter(p);
        assert(f.contains(f[j]));
        bs.lemma_filter_contains_rev(p, f[j]);
        bs.lemma_filter_pred(p, j);
    }
}

/// Filtering keeps keys unique.
proof fn lemma_filter_unique(bs: Seq<BucketView>, t: u64)
    requires
        forall|i: int, j: int|
            0 <= i < bs.len() && 0 <= j < bs.len() && i != j ==> bs[i].key != bs[j].key,
    ensures
        ({
            let f = fresh_only(bs, t);
            forall|i: int, j: int|
                0 <= i < f.len() && 0 <= j < f.len() && i != j ==> f[i].key != f[j].key
        }),
    decreases bs.len(),
{
    let p = |b: BucketView| is_fresh(b, t);
    reveal(Seq::filter);
    if bs.len() > 0 {
        let d = bs.drop_last();
        lemma_filter_unique(d, t);
        lemma_filter_keeps(d, t);
        let f = fresh_only(bs, t);
        if p(bs.last()) {
            assert(f == fresh_only(d, t).push(bs.last()));
            assert forall|i: int, j: int|
                0 <= i < f.len() && 0 <= j < f.len() && i != j implies f[i].key != f[j].key by {
                if i == f.len() - 1 || j == f.len() - 1 {
                    let k = if i == f.len() - 1 { j } else { i };
                    assert(d.contains(fresh_only(d, t)[k]));
                    let w = choose|w: int| 0 <= w < d.len() && d[w] == fresh_only(d, t)[k];
                    assert(bs[w] == d[w]);
                    assert(w != bs.len() - 1);
                }
            }
        }
    }
}

proof fn lemma_prune_wf(m: MixerView, t: u64)
    requires
        m.wf(),
        m.clock_ms == t,
    ensures
        prune_if_due(m, t).wf(),
        prune_if_due(m, t).clock_ms == t,
{
    if t > m.last_prune_ms + CHUNK_MS {
        lemma_filter_unique(m.buckets, t);
        lemma_filter_keeps(m.buckets, t);
    }
}

proof fn lemma_mix_step_wf(m: MixerView, inp: FragmentView, now: u64)
    requires
        m.wf(),
    ensures
        mix_step(m, inp, now).0.wf(),
        mix_step(m, inp, now).0.clock_ms == advance(m.clock_ms, now),
{
    let t = advance(m.clock_ms, now);
    let key = inp.start_ms / CHUNK_MS;
    if has_key(m.buckets, key) {
        let k = index_of_key(m.buckets, key);
        assert(0 <= k < m.buckets.len() && m.buckets[k].key == key);
    }
    let r = mix_step(m, inp, now);
    if r.1 is Some {
        let found = has_key(m.buckets, key);
        let base = if found {
            m.buckets[index_of_key(m.buckets, key)]
        } else {
            BucketView {
                key,
                sample_rate: inp.sample_rate,
                channels: inp.channels,
                sum: Seq::empty(),
                last_update_ms: t,
            }
        };
        let nb = BucketView {
            key,
            sample_rate: base.sample_rate,
            channels: base.channels,
            sum: add_into(base.sum, inp.samples),
            last_update_ms: t,
        };
        let bs = if found {
            m.buckets.update(index_of_key(m.buckets, key), nb)
        } else {
            m.buckets.push(nb)
        };
        let m2 = MixerView { buckets: bs, last_prune_ms: m.last_prune_ms, clock_ms: t };
        assert(m2.wf());
        lemma_prune_wf(m2, t);
    }
}

proof fn lemma_tick_step_wf(m: MixerView, now: u64)
    requires
        m.wf(),
    ensures
        tick_step(m, now).wf(),
{
    let t = advance(m.clock_ms, now);
    lemma_prune_wf(MixerView { buckets: m.buckets, last_prune_ms: m.last_prune_ms, clock_ms: t }, t);
}

/// Pruning: when every bucket of a mixer was last updated at or before `t`,
/// a tick later than `t + MAX_BUCKET_AGE_MS + CHUNK_MS` leaves it with no bucket.
pub proof fn lemma_idle_mixer_empties(m: MixerView, t: u64, now: u64)
    requires
        m.wf(),
        forall|i: int| 0 <= i < m.buckets.len() ==> #[trigger] m.buckets[i].last_update_ms <= t,
        now > t + MAX_BUCKET_AGE_MS + CHUNK_MS,
    ensures
        tick_step(m, now).buckets.len() == 0,
{
    let tt = advance(m.clock_ms, now);
    if tt > m.last_prune_ms + CHUNK_MS {
        let p = |b: BucketView| is_fresh(b, tt);
        assert forall|i: int| 0 <= i < m.buckets.len() implies !p(#[trigger] m.buckets[i]) by {
            assert(m.buckets[i].last_update_ms <= t);
        }
        m.buckets.lemma_all_neg_filter_empty(p);
    } else if m.buckets.len() > 0 {
        assert(m.buckets[0].last_update_ms <= t);
        assert(is_fresh(m.buckets[0], m.last_prune_ms));
    }
}

/// Saturation: two mono fragments with the same rate that fall in a bucket the
/// mixer does not hold yet are summed without wrap-around. Where both have a
/// sample, the second emitted chunk holds their sum, or `i16::MAX` / `i16::MIN`
/// where the sum leaves the 16-bit range.
pub proof fn lemma_mix_saturates(
    m: MixerView,
    a: FragmentView,
    b: FragmentView,
    t1: u64,
    t2: u64,
    i: int,
)
    requires
        m.wf(),
        a.channels == 1,
        b.channels == 1,
        a.sample_rate == b.sample_rate,
        a.start_ms / CHUNK_MS == b.start_ms / CHUNK_MS,
        !has_key(m.buckets, a.start_ms / CHUNK_MS),
        0 <= i < a.samples.len(),
        i < b.samples.len(),
    ensures
        ({
            let c = mix_step(mix_step(m, a, t1).0, b, t2).1;
            let total = a.samples[i] + b.samples[i];
            &&& c is Some
            &&& c.unwrap().samples.len() >= b.samples.len()
            &&& total > i16::MAX ==> c.unwrap().samples[i] == i16::MAX
            &&& total < i16::MIN ==> c.unwrap().samples[i] == i16::MIN
            &&& i16::MIN <= total <= i16::MAX ==> c.unwrap().samples[i] == total
        }),
{
    let key = a.start_ms / CHUNK_MS;
    let tt = advance(m.clock_ms, t1);
    let nb = BucketView {
        key,
        sample_rate: a.sample_rate,
        channels: 1,
        sum: add_into(Seq::empty(), a.samples),
        last_update_ms: tt,
    };
    let bs = m.buckets.push(nb);
    let m2 = MixerView { buckets: bs, last_prune_ms: m.last_prune_ms, clock_ms: tt };
    let m1 = mix_step(m, a, t1).0;
    assert(m1 == prune_if_due(m2, tt));
    lemma_mix_step_wf(m, a, t1);
    assert(m1.buckets.contains(nb)) by {
        assert(bs[bs.len() - 1] == nb);
        if tt > m.last_prune_ms + CHUNK_MS {
            lemma_filter_keeps(bs, tt);
        }
    }
    let w = choose|w: int| 0 <= w < m1.buckets.len() && m1.buckets[w] == nb;
    assert(has_key(m1.buckets, key));
    let k = index_of_key(m1.buckets, key);
    assert(k == w);
    let sum2 = add_into(nb.sum, b.samples);
    assert(sum2[i] == a.samples[i] + b.samples[i]);
}

impl Mixer {
    pub open spec fn wf(&self) -> bool {
        self@.wf()
    }

    /// A mixer with no buckets.
    pub fn new() -> (r: Mixer)
        ensures
            r.wf(),
            r@.buckets.len() == 0,
            r@.clock_ms == 0,
            r@.last_prune_ms == 0,
    {
        let r = Mixer { buckets: Vec::new(), last_prune_ms: 0, clock_ms: 0 };
        assert(r@.buckets =~= Seq::<BucketView>::empty());
        r
    }

    /// The number of live buckets.
    pub fn bucket_count(&self) -> (r: usize)
        ensures
            r == self@.buckets.len(),
    {
        self.buckets.len()
    }

    fn prune_due(&mut self, t: u64)
        requires
            old(self).wf(),
            old(self)@.clock_ms == t,
        ensures
            final(self)@ == prune_if_due(old(self)@, t),
            final(self).wf(),
    {
        proof {
            lemma_prune_wf(self@, t);
        }
        if t > self.last_prune_ms && t - self.last_prune_ms > CHUNK_MS {
            let ghost bs = self@.buckets;
            let ghost p = |b: BucketView| is_fresh(b, t);
            let mut rest: Vec<MixBucket> = Vec::new();
            std::mem::swap(&mut rest, &mut self.buckets);
            let mut kept: Vec<MixBucket> = Vec::new();
            let ghost n = bs.len();
            assert(views(rest@) == bs);
            while rest.len() > 0
                invariant
                    n == bs.len(),
                    rest@.len() <= n,
                    views(rest@) == bs.subrange(n - rest@.len(), n as int),
                    views(kept@) == fresh_only(bs.subrange(0, n - rest@.len()), t),
                decreases rest@.len(),
            {
                let ghost done = n - rest@.len();
                let ghost before = rest@;
                assert(views(before)[0] == bs[done]);
                let b = rest.remove(0);
                assert(b@ == bs[done]);
                assert(rest@ =~= before.subrange(1, before.len() as int));
                assert forall|k: int| 0 <= k < rest@.len() implies views(rest@)[k] == bs.subrange(
                    n - rest@.len(),
                    n as int,
                )[k] by {
                    assert(rest@[k] == before[k + 1]);
                    assert(views(before)[k + 1] == bs[done + k + 1]);
                }
                assert(views(rest@) =~= bs.subrange(n - rest@.len(), n as int));
                proof {
                    reveal(Seq::filter);
                    assert(bs.subrange(0, done + 1).drop_last() =~= bs.subrange(0, done));
                    assert(bs.subrange(0, done + 1).last() == bs[done]);
                }
                if b.last_update_ms >= t || t - b.last_update_ms <= MAX_BUCKET_AGE_MS {
                    kept.push(b);
                    assert(views(kept@) =~= fresh_only(bs.subrange(0, done), t).push(bs[done]));
                } else {
                }
            }
            assert(bs.subrange(0, n as int) =~= bs);
            self.buckets = kept;
            self.last_prune_ms = t;
        }
    }

    /// Hands a fragment to the mixer at time `now_ms`; returns the chunk to
    /// broadcast, if the fragment was accepted.
    pub fn mix(&mut self, input: &MixerInput, now_ms: u64) -> (r: Option<MixedChunk>)
        requires
            old(self).wf(),
        ensures
            final(self).wf(),
            final(self)@ == mix_step(old(self)@, input@, now_ms).0,
            match r {
                Some(c) => mix_step(old(self)@, input@, now_ms).1 == Some(c@),
                None => mix_step(old(self)@, input@, now_ms).1 is None,
            },
    {
        proof {
            lemma_mix_step_wf(self@, input@, now_ms);
        }
        let ghost m0 = self@;
        let t = if now_ms > self.clock_ms {
            now_ms
        } else {
            self.clock_ms
        };
        self.clock_ms = t;
        let key = input.start_ms / CHUNK_MS;
        let mut idx: usize = 0;
        let mut found = false;
        while idx < self.buckets.len()
            invariant_except_break
                !found,
            invariant
                self@.buckets == m0.buckets,
                idx <= self@.buckets.len(),
                forall|j: int| 0 <= j < idx ==> self@.buckets[j].key != key,
            ensures
                found ==> idx < self@.buckets.len() && self@.buckets[idx as int].key == key,
                !found ==> idx == self@.buckets.len(),
            decreases self@.buckets.len() - idx,
        {
            if self.buckets[idx].key == key {
                found = true;
                break;
            }
            idx = idx + 1;
        }
        proof {
            if found {
                assert(self@.buckets[idx as int].key == key);
                assert(has_key(m0.buckets, key));
                assert(index_of_key(m0.buckets, key) == idx);
            } else {
                assert(!has_key(m0.buckets, key));
            }
        }
        if input.channels != 1 {
            return None;
        }
        if found {
            let b = &self.buckets[idx];
            if b.sample_rate != input.sample_rate || b.channels != input.channels {
                return None;
            }
        }
        let new_sum = if found {
            add_samples(&self.buckets[idx].sum, &input.samples)
        } else {
            let empty: Vec<i32> = Vec::new();
            assert(empty@ =~= Seq::<i32>::empty());
            add_samples(&empty, &input.samples)
        };
        let samples = clip_all(&new_sum);
        let nb = MixBucket {
            key,
            sample_rate: input.sample_rate,
            channels: input.channels,
            sum: new_sum,
            last_update_ms: t,
        };
        let ghost nbv = nb@;
        if found {
            self.buckets[idx] = nb;
            assert(self@.buckets =~= m0.buckets.update(idx as int, nbv));
        } else {
            self.buckets.push(nb);
            assert(self@.buckets =~= m0.buckets.push(nbv));
        }
        self.prune_due(t);
        Some(MixedChunk { start_ms: key * CHUNK_MS, sample_rate: input.sample_rate, channels: input.channels, samples })
    }

    /// A clock tick at `now_ms`: prunes stale buckets if a prune is due.
    pub fn tick(&mut self, now_ms: u64)
        requires
            old(self).wf(),
        ensures
            final(self).wf(),
            final(self)@ == tick_step(old(self)@, now_ms),
    {
        let t = if now_ms > self.clock_ms {
            now_ms
        } else {
            self.clock_ms
        };
        self.clock_ms = t;
        self.prune_due(t);
    }
}

fn add_samples(sum: &Vec<i32>, s: &Vec<i16>) -> (r: Vec<i32>)
    ensures
        r@ == add_into(sum@, s@),
{
    let n = if sum.len() >= s.len() {
        sum.len()
    } else {
        s.len()
    };
    let mut out: Vec<i32> = Vec::new();
    let mut i: usize = 0;
    while i < n
        invariant
            n == add_into(sum@, s@).len(),
            i <= n,
            out@ == add_into(sum@, s@).subrange(0, i as int),
        decreases n - i,
    {
        let base: i32 = if i < sum.len() {
            sum[i]
        } else {
            0
        };
        let v: i32 = if i < s.len() {
            let w: i64 = base as i64 + s[i] as i64;
            if w > i32::MAX as i64 {
                i32::MAX
            } else if w < i32::MIN as i64 {
                i32::MIN
            } else {
                w as i32
            }
        } else {
            base
        };
        out.push(v);
        i = i + 1;
        assert(out@ =~= add_into(sum@, s@).subrange(0, i as int));
    }
    assert(out@ =~= add_into(sum@, s@));
    out
}

fn clip_all(sum: &Vec<i32>) -> (r: Vec<i16>)
    ensures
        r@ == clipped(sum@),
{
    let mut out: Vec<i16> = Vec::new();
    let mut i: usize = 0;
    while i < sum.len()
        invariant
            i <= sum@.len(),
            out@ == clipped(sum@).subrange(0, i as int),
        decreases sum@.len() - i,
    {
        let v = sum[i];
        let c: i16 = if v > i16::MAX as i32 {
            i16::MAX
        } else if v < i16::MIN as i32 {
            i16::MIN
        } else {
            v as i16
        };
        out.push(c);
        i = i + 1;
        assert(out@ =~= clipped(sum@).subrange(0, i as int));
    }
    assert(out@ =~= clipped(sum@));
    out
}

} // verus!
