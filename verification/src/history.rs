//! Fixed-capacity time series for sampled metrics.
//!
//! Every tracked metric instance (one CPU core, one network interface, one
//! disk) owns a `HistoryStream`: a ring of `(timestamp, value)` samples whose
//! length never exceeds its configured capacity. A `HistoryBuffer` is the
//! keyed collection of all streams, created lazily on first append.

use vstd::prelude::*;

verus! {

/// The metric family a stream belongs to.
#[derive(Clone, Copy, PartialEq, Eq, Structural, Debug, Hash)]
pub enum MetricKind {
    CpuCore,
    MemoryUsed,
    NetRx,
    NetTx,
    DiskRead,
    DiskWrite,
    SensorTemp,
}

/// Identifies one stream: a metric family plus the index of the instance it
/// tracks (core id, interface index, disk index; 0 for machine-wide metrics).
#[derive(Clone, Copy, PartialEq, Eq, Structural, Debug, Hash)]
pub struct StreamKey {
    pub kind: MetricKind,
    pub instance: u64,
}

/// One sampled point of a stream.
#[derive(Clone, Copy, PartialEq, Eq, Structural, Debug)]
pub struct Sample {
    pub timestamp: u64,
    pub value: u64,
}

/// One step of ring insertion: append at the tail, evicting the oldest
/// entry when the ring already holds `cap` entries.
pub open spec fn ring_push(s: Seq<Sample>, cap: nat, e: Sample) -> Seq<Sample> {
    if s.len() < cap {
        s.push(e)
    } else {
        s.drop_first().push(e)
    }
}

/// The contents of a ring of capacity `cap` after pushing every element of
/// `appended` in order, starting from empty.
pub open spec fn ring_run(appended: Seq<Sample>, cap: nat) -> Seq<Sample>
    decreases appended.len(),
{
    if appended.len() == 0 {
        Seq::empty()
    } else {
        ring_push(ring_run(appended.drop_last(), cap), cap, appended.last())
    }
}

/// Ring/FIFO law: after any sequence of appends, a ring of capacity `cap`
/// holds exactly the most recent `min(cap, appended.len())` appended samples,
/// in arrival order. In particular its length never exceeds `cap`.
pub proof fn lemma_ring_keeps_recent(appended: Seq<Sample>, cap: nat)
    requires
        1 <= cap,
    ensures
        ring_run(appended, cap).len() <= cap,
        ring_run(appended, cap) == appended.skip(
            if appended.len() <= cap { 0 } else { appended.len() - cap },
        ),
    decreases appended.len(),
{
    if appended.len() == 0 {
        assert(ring_run(appended, cap) =~= appended.skip(0));
    } else {
        let pre = appended.drop_last();
        lemma_ring_keeps_recent(pre, cap);
        if pre.len() < cap {
            assert(ring_run(pre, cap) =~= pre);
            assert(ring_run(appended, cap) =~= appended.skip(0));
        } else {
            let tail = pre.skip(pre.len() - cap);
            assert(ring_run(pre, cap) == tail);
            assert(tail.len() == cap);
            assert(ring_run(appended, cap) == tail.drop_first().push(appended.last()));
            assert(tail.drop_first().push(appended.last()) =~= appended.skip(
                appended.len() - cap,
            ));
        }
    }
}

/// The window of the most recent `n` samples of `s`, oldest first.
pub open spec fn window_spec(s: Seq<Sample>, n: nat) -> Seq<Sample> {
    if s.len() <= n {
        s
    } else {
        s.skip(s.len() - n)
    }
}

/// Reading a window is restartable: it depends on nothing but the stream
/// contents and the requested width, so two reads with no append between
/// them yield the same sequence. (`window` itself takes `&self`, so a read
/// can never mutate the buffer.)
pub proof fn lemma_window_restartable(v: Seq<Sample>, n: nat, w1: Seq<Sample>, w2: Seq<Sample>)
    requires
        w1 == window_spec(v, n),
        w2 == window_spec(v, n),
    ensures
        w1 == w2,
{
}

/// The time series of one metric instance, with ring eviction.
pub struct HistoryStream {
    pub key: StreamKey,
    pub capacity: usize,
    pub entries: Vec<Sample>,
}

impl View for HistoryStream {
    type V = Seq<Sample>;

    open spec fn view(&self) -> Seq<Sample> {
        self.entries@
    }
}

impl HistoryStream {
    pub open spec fn spec_key(&self) -> StreamKey {
        self.key
    }

    pub open spec fn spec_capacity(&self) -> nat {
        self.capacity as nat
    }

    /// A stream is well formed when it can hold at least one sample and its
    /// contents never exceed its capacity.
    pub open spec fn wf(&self) -> bool {
        1 <= self.capacity && self@.len() <= self.spec_capacity()
    }

    pub fn new(key: StreamKey, capacity: usize) -> (s: Self)
        requires
            1 <= capacity,
        ensures
            s.wf(),
            s@ == Seq::<Sample>::empty(),
            s.spec_key() == key,
            s.spec_capacity() == capacity as nat,
    {
        HistoryStream { key, capacity, entries: Vec::new() }
    }

    pub fn key(&self) -> (k: StreamKey)
        ensures
            k == self.spec_key(),
    {
        self.key
    }

    pub fn capacity(&self) -> (c: usize)
        ensures
            c as nat == self.spec_capacity(),
    {
        self.capacity
    }

    pub fn len(&self) -> (l: usize)
        ensures
            l as nat == self@.len(),
    {
        self.entries.len()
    }

    /// Append one sample, evicting the oldest entry when the stream is full.
    pub fn append(&mut self, timestamp: u64, value: u64)
        requires
            old(self).wf(),
        ensures
            final(self).wf(),
            final(self).spec_key() == old(self).spec_key(),
            final(self).spec_capacity() == old(self).spec_capacity(),
            final(self)@ == ring_push(
                old(self)@,
                old(self).spec_capacity(),
                Sample { timestamp, value },
            ),
    {
        if self.entries.len() == self.capacity {
            self.entries.remove(0);
            proof {
                assert(self.entries@ =~= old(self)@.drop_first());
            }
        }
        self.entries.push(Sample { timestamp, value });
    }

    /// Grow the capacity to at least `want` rows; never shrink, and never
    /// touch the stored samples.
    pub fn grow_capacity(&mut self, want: usize)
        requires
            old(self).wf(),
        ensures
            final(self).wf(),
            final(self).spec_key() == old(self).spec_key(),
            final(self)@ == old(self)@,
            final(self).spec_capacity() == vstd::math::max(
                old(self).spec_capacity() as int,
                want as int,
            ) as nat,
    {
        if want > self.capacity {
            self.capacity = want;
        }
    }

    /// The most recent `n` samples, oldest first. Never mutates the stream;
    /// the result is a function of the stream contents and `n` alone.
    pub fn window(&self, n: usize) -> (w: Vec<Sample>)
        ensures
            w@ == window_spec(self@, n as nat),
    {
        let len = self.entries.len();
        let start: usize = if len <= n {
            0
        } else {
            len - n
        };
        let mut w: Vec<Sample> = Vec::new();
        let mut i: usize = start;
        while i < len
            invariant
                start <= i <= len,
                len == self.entries@.len(),
                w@ == self.entries@.subrange(start as int, i as int),
            decreases len - i,
        {
            w.push(self.entries[i]);
            proof {
                assert(w@ =~= self.entries@.subrange(start as int, i + 1));
            }
            i = i + 1;
        }
        proof {
            assert(w@ =~= window_spec(self@, n as nat));
        }
        w
    }
}

/// The first stream in `ss` keyed by `key`, if any.
pub open spec fn find_stream(ss: Seq<HistoryStream>, key: StreamKey) -> Option<HistoryStream>
    decreases ss.len(),
{
    if ss.len() == 0 {
        None
    } else if ss[0].spec_key() == key {
        Some(ss[0])
    } else {
        find_stream(ss.drop_first(), key)
    }
}

/// All streams keyed by metric instance; streams come into being lazily on
/// first append, each with the buffer's default capacity.
pub struct HistoryBuffer {
    pub streams: Vec<HistoryStream>,
    pub default_capacity: usize,
}

impl HistoryBuffer {
    /// The contents of the stream keyed by `key`; an absent stream reads as
    /// the empty series.
    pub open spec fn stream_view(&self, key: StreamKey) -> Seq<Sample> {
        match find_stream(self.streams@, key) {
            Some(s) => s@,
            None => Seq::empty(),
        }
    }

    /// The ring capacity the next append to `key` works against.
    pub open spec fn stream_capacity(&self, key: StreamKey) -> nat {
        match find_stream(self.streams@, key) {
            Some(s) => s.spec_capacity(),
            None => self.default_capacity as nat,
        }
    }

    pub open spec fn wf(&self) -> bool {
        &&& 1 <= self.default_capacity
        &&& forall|i: int| 0 <= i < self.streams@.len() ==> (#[trigger] self.streams@[i]).wf()
        &&& forall|i: int, j: int|
            0 <= i < j < self.streams@.len() ==> self.streams@[i].spec_key()
                != self.streams@[j].spec_key()
    }

    pub fn new(default_capacity: usize) -> (b: Self)
        requires
            1 <= default_capacity,
        ensures
            b.wf(),
            b.default_capacity == default_capacity,
            forall|k: StreamKey| #[trigger] b.stream_view(k) == Seq::<Sample>::empty(),
    {
        HistoryBuffer { streams: Vec::new(), default_capacity }
    }

    /// The index of the stream keyed by `key`, if one exists.
    fn find(&self, key: StreamKey) -> (r: Option<usize>)
        ensures
            match r {
                Some(i) => i < self.streams@.len() && self.streams@[i as int].spec_key() == key
                    && find_stream(self.streams@, key) == Some(self.streams@[i as int]),
                None => find_stream(self.streams@, key) is None,
            },
    {
        let ghost ss = self.streams@;
        proof {
            assert(ss.skip(0) =~= ss);
        }
        let mut i: usize = 0;
        while i < self.streams.len()
            invariant
                i <= ss.len(),
                ss == self.streams@,
                find_stream(ss, key) == find_stream(ss.skip(i as int), key),
            decreases ss.len() - i,
        {
            proof {
                lemma_find_stream_step(ss.skip(i as int), key);
                assert(ss.skip(i as int).drop_first() =~= ss.skip(i + 1));
                assert(ss.skip(i as int)[0] == ss[i as int]);
            }
            if self.streams[i].key() == key {
                return Some(i);
            }
            i = i + 1;
        }
        proof {
            assert(ss.skip(i as int).len() == 0);
        }
        None
    }

    /// Append one sample to the stream keyed by `key`, creating the stream
    /// with the default capacity if it does not exist yet. Every other
    /// stream is untouched.
    pub fn append(&mut self, key: StreamKey, timestamp: u64, value: u64)
        requires
            old(self).wf(),
        ensures
            final(self).wf(),
            final(self).default_capacity == old(self).default_capacity,
            final(self).stream_view(key) == ring_push(
                old(self).stream_view(key),
                old(self).stream_capacity(key),
                Sample { timestamp, value },
            ),
            final(self).stream_capacity(key) == old(self).stream_capacity(key),
            forall|k: StreamKey|
                k != key ==> #[trigger] final(self).stream_view(k) == old(self).stream_view(k)
                    && final(self).stream_capacity(k) == old(self).stream_capacity(k),
            forall|k: StreamKey|
                #[trigger] final(self).stream_capacity(k) == old(self).stream_capacity(k),
    {
        match self.find(key) {
            Some(i) => {
                let s = &mut self.streams[i];
                s.append(timestamp, value);
                proof {
                    lemma_find_stream_update(old(self).streams@, self.streams@, i as int, key);
                    lemma_pointwise_wf(old(self).streams@, self.streams@, i as int);
                }
            },
            None => {
                let mut s = HistoryStream::new(key, self.default_capacity);
                s.append(timestamp, value);
                proof {
                    lemma_find_stream_none_no_key(old(self).streams@, key);
                }
                self.streams.push(s);
                proof {
                    lemma_find_stream_push(old(self).streams@, s, key);
                    lemma_push_wf(old(self).streams@, s);
                }
            },
        }
    }

    /// The most recent `n` samples of the stream keyed by `key`, oldest
    /// first; an absent stream yields the empty window. Never mutates the
    /// buffer: the result is a function of the buffer contents alone.
    pub fn window(&self, key: StreamKey, n: usize) -> (w: Vec<Sample>)
        ensures
            w@ == window_spec(self.stream_view(key), n as nat),
    {
        match self.find(key) {
            Some(i) => self.streams[i].window(n),
            None => Vec::new(),
        }
    }

    /// Make sure the stream keyed by `key` can hold at least `want` samples,
    /// growing it if it exists; capacity never shrinks and no sample is
    /// dropped. An absent stream is created empty with at least the default
    /// capacity.
    pub fn reserve_window(&mut self, key: StreamKey, want: usize)
        requires
            old(self).wf(),
        ensures
            final(self).wf(),
            final(self).default_capacity == old(self).default_capacity,
            final(self).stream_view(key) == old(self).stream_view(key),
            final(self).stream_capacity(key) >= old(self).stream_capacity(key),
            final(self).stream_capacity(key) >= want as nat,
            forall|k: StreamKey|
                k != key ==> #[trigger] final(self).stream_view(k) == old(self).stream_view(k)
                    && final(self).stream_capacity(k) == old(self).stream_capacity(k),
    {
        match self.find(key) {
            Some(i) => {
                let s = &mut self.streams[i];
                s.grow_capacity(want);
                proof {
                    lemma_find_stream_update(old(self).streams@, self.streams@, i as int, key);
                    lemma_pointwise_wf(old(self).streams@, self.streams@, i as int);
                }
            },
            None => {
                let mut s = HistoryStream::new(key, self.default_capacity);
                s.grow_capacity(want);
                proof {
                    lemma_find_stream_none_no_key(old(self).streams@, key);
                }
                self.streams.push(s);
                proof {
                    lemma_find_stream_push(old(self).streams@, s, key);
                    lemma_push_wf(old(self).streams@, s);
                }
            },
        }
    }
}

/// Replacing one stream with a well-formed stream of the same key keeps
/// every stream well formed and all keys distinct.
proof fn lemma_pointwise_wf(pre: Seq<HistoryStream>, post: Seq<HistoryStream>, i: int)
    requires
        0 <= i < pre.len(),
        post.len() == pre.len(),
        forall|j: int| 0 <= j < pre.len() ==> (#[trigger] pre[j]).wf(),
        forall|a: int, b: int|
            0 <= a < b < pre.len() ==> pre[a].spec_key() != pre[b].spec_key(),
        forall|j: int| 0 <= j < pre.len() && j != i ==> post[j] == pre[j],
        post[i].wf(),
        post[i].spec_key() == pre[i].spec_key(),
    ensures
        forall|j: int| 0 <= j < post.len() ==> (#[trigger] post[j]).wf(),
        forall|a: int, b: int|
            0 <= a < b < post.len() ==> post[a].spec_key() != post[b].spec_key(),
{
    assert forall|a: int, b: int|
        0 <= a < b < post.len() implies post[a].spec_key() != post[b].spec_key() by {
        assert(post[a].spec_key() == pre[a].spec_key());
        assert(post[b].spec_key() == pre[b].spec_key());
    }
}

/// Appending a well-formed stream with a fresh key keeps every stream well
/// formed and all keys distinct.
proof fn lemma_push_wf(pre: Seq<HistoryStream>, s: HistoryStream)
    requires
        forall|j: int| 0 <= j < pre.len() ==> (#[trigger] pre[j]).wf(),
        forall|a: int, b: int|
            0 <= a < b < pre.len() ==> pre[a].spec_key() != pre[b].spec_key(),
        forall|j: int| 0 <= j < pre.len() ==> (#[trigger] pre[j]).spec_key() != s.spec_key(),
        s.wf(),
    ensures
        forall|j: int| 0 <= j < pre.push(s).len() ==> (#[trigger] pre.push(s)[j]).wf(),
        forall|a: int, b: int|
            0 <= a < b < pre.push(s).len() ==> pre.push(s)[a].spec_key()
                != pre.push(s)[b].spec_key(),
{
    assert forall|j: int| 0 <= j < pre.push(s).len() implies (#[trigger] pre.push(s)[j]).wf() by {
        if j < pre.len() {
            assert(pre.push(s)[j] == pre[j]);
        }
    }
    assert forall|a: int, b: int|
        0 <= a < b < pre.push(s).len() implies pre.push(s)[a].spec_key()
            != pre.push(s)[b].spec_key() by {
        assert(pre.push(s)[a] == pre[a]);
        if b < pre.len() {
            assert(pre.push(s)[b] == pre[b]);
        } else {
            assert(pre.push(s)[b] == s);
        }
    }
}

/// One definitional unfolding of `find_stream` on a non-empty sequence.
proof fn lemma_find_stream_step(ss: Seq<HistoryStream>, key: StreamKey)
    requires
        ss.len() > 0,
    ensures
        find_stream(ss, key) == (if ss[0].spec_key() == key {
            Some(ss[0])
        } else {
            find_stream(ss.drop_first(), key)
        }),
{
}

/// A failed lookup means no stream at all carries the key.
proof fn lemma_find_stream_none_no_key(ss: Seq<HistoryStream>, key: StreamKey)
    requires
        find_stream(ss, key) is None,
    ensures
        forall|i: int| 0 <= i < ss.len() ==> (#[trigger] ss[i]).spec_key() != key,
    decreases ss.len(),
{
    if ss.len() > 0 {
        lemma_find_stream_none_no_key(ss.drop_first(), key);
        assert forall|i: int| 0 <= i < ss.len() implies (#[trigger] ss[i]).spec_key() != key by {
            if i > 0 {
                assert(ss[i] == ss.drop_first()[i - 1]);
            }
        }
    }
}

/// Updating the stream at index `i` (which holds `key`, in a sequence with
/// distinct keys) is invisible to lookups of every other key, and lookups of
/// `key` see exactly the updated stream.
proof fn lemma_find_stream_update(
    pre: Seq<HistoryStream>,
    post: Seq<HistoryStream>,
    i: int,
    key: StreamKey,
)
    requires
        0 <= i < pre.len(),
        post.len() == pre.len(),
        pre[i].spec_key() == key,
        post[i].spec_key() == key,
        forall|j: int| 0 <= j < pre.len() && j != i ==> post[j] == pre[j],
        forall|a: int, b: int|
            0 <= a < b < pre.len() ==> pre[a].spec_key() != pre[b].spec_key(),
    ensures
        find_stream(post, key) == Some(post[i]),
        forall|k: StreamKey|
            k != key ==> #[trigger] find_stream(post, k) == find_stream(pre, k),
    decreases pre.len(),
{
    lemma_find_stream_step(pre, key);
    lemma_find_stream_step(post, key);
    if i == 0 {
        assert(find_stream(post, key) == Some(post[0]));
        assert forall|k: StreamKey| k != key implies #[trigger] find_stream(post, k)
            == find_stream(pre, k) by {
            lemma_find_stream_step(pre, k);
            lemma_find_stream_step(post, k);
            assert(post.drop_first() =~= pre.drop_first());
        }
    } else {
        assert(pre[0].spec_key() != key);
        assert(post[0] == pre[0]);
        assert(forall|a: int, b: int|
            0 <= a < b < pre.drop_first().len() ==> (#[trigger] pre.drop_first()[a]).spec_key()
                != (#[trigger] pre.drop_first()[b]).spec_key());
        assert(forall|j: int|
            0 <= j < pre.drop_first().len() && j != i - 1 ==> #[trigger] post.drop_first()[j]
                == pre.drop_first()[j]);
        lemma_find_stream_update(pre.drop_first(), post.drop_first(), i - 1, key);
        assert(post.drop_first()[i - 1] == post[i]);
        assert forall|k: StreamKey| k != key implies #[trigger] find_stream(post, k)
            == find_stream(pre, k) by {
            lemma_find_stream_step(pre, k);
            lemma_find_stream_step(post, k);
        }
    }
}

/// Pushing a stream with a key that no existing stream holds leaves every
/// other lookup unchanged and makes lookups of that key see the new stream.
proof fn lemma_find_stream_push(pre: Seq<HistoryStream>, s: HistoryStream, key: StreamKey)
    requires
        s.spec_key() == key,
        find_stream(pre, key) is None,
    ensures
        find_stream(pre.push(s), key) == Some(s),
        forall|k: StreamKey|
            k != key ==> #[trigger] find_stream(pre.push(s), k) == find_stream(pre, k),
    decreases pre.len(),
{
    lemma_find_stream_step(pre.push(s), key);
    if pre.len() == 0 {
        assert(pre.push(s)[0] == s);
        assert forall|k: StreamKey| k != key implies #[trigger] find_stream(pre.push(s), k)
            == find_stream(pre, k) by {
            lemma_find_stream_step(pre.push(s), k);
            assert(pre.push(s).drop_first() =~= Seq::<HistoryStream>::empty());
            assert(find_stream(Seq::<HistoryStream>::empty(), k) is None);
            assert(find_stream(pre, k) is None);
        }
    } else {
        lemma_find_stream_step(pre, key);
        assert(pre.push(s)[0] == pre[0]);
        assert(pre.push(s).drop_first() =~= pre.drop_first().push(s));
        lemma_find_stream_push(pre.drop_first(), s, key);
        assert forall|k: StreamKey| k != key implies #[trigger] find_stream(pre.push(s), k)
            == find_stream(pre, k) by {
            lemma_find_stream_step(pre.push(s), k);
            lemma_find_stream_step(pre, k);
        }
    }
}

} // verus!
