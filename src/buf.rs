//! Owned byte buffers and zero-copy windows into them.
use vstd::prelude::*;

verus! {

/// What a buffer holds: its initialized bytes and its capacity.
pub ghost struct BufModel {
    pub init: Seq<u8>,
    pub total: nat,
}

/// The bytes of `init` after `bytes` were stored starting at `begin`
/// (`begin` not past the initialized end): the prefix is kept, the stored
/// bytes replace what they cover, and whatever lies beyond them is kept.
pub open spec fn stored(init: Seq<u8>, begin: nat, bytes: Seq<u8>) -> Seq<u8> {
    if begin + bytes.len() >= init.len() {
        init.subrange(0, begin as int) + bytes
    } else {
        init.subrange(0, begin as int) + bytes + init.subrange((begin + bytes.len()) as int, init.len() as int)
    }
}

/// The buffers' models, in order.
pub open spec fn models(bufs: Seq<Buffer>) -> Seq<BufModel> {
    bufs.map_values(|b: Buffer| b@)
}

/// Every buffer is well formed.
pub open spec fn all_wf(bufs: Seq<Buffer>) -> bool {
    forall|i: int| 0 <= i < bufs.len() ==> #[trigger] bufs[i].wf()
}

/// The initialized bytes of the buffers, one after the other: what a
/// vectored write sends.
pub open spec fn gathered(bufs: Seq<BufModel>) -> Seq<u8>
    decreases bufs.len(),
{
    if bufs.len() == 0 {
        Seq::empty()
    } else {
        bufs[0].init + gathered(bufs.drop_first())
    }
}

/// The sum of the buffers' capacities: what a vectored read asks for.
pub open spec fn capacity(bufs: Seq<BufModel>) -> nat
    decreases bufs.len(),
{
    if bufs.len() == 0 {
        0
    } else {
        bufs[0].total + capacity(bufs.drop_first())
    }
}

/// The buffers after a vectored read brought `data`: each buffer in turn is
/// filled from its start, up to its capacity, with the next bytes.
pub open spec fn scattered(bufs: Seq<BufModel>, data: Seq<u8>) -> Seq<BufModel>
    decreases bufs.len(),
{
    if bufs.len() == 0 {
        Seq::empty()
    } else {
        let n = if bufs[0].total <= data.len() { bufs[0].total } else { data.len() };
        seq![BufModel { init: stored(bufs[0].init, 0, data.subrange(0, n as int)), total: bufs[0].total }]
            + scattered(bufs.drop_first(), data.subrange(n as int, data.len() as int))
    }
}

/// An owned byte buffer with a fixed capacity, of which a prefix is initialized.
pub struct Buffer {
    data: Vec<u8>,
    total: usize,
}

impl View for Buffer {
    type V = BufModel;

    closed spec fn view(&self) -> BufModel {
        BufModel { init: self.data@, total: self.total as nat }
    }
}

impl Buffer {
    /// Well-formed: no more bytes are initialized than the capacity holds.
    pub open spec fn wf(&self) -> bool {
        self@.init.len() <= self@.total && self@.total <= usize::MAX
    }

    /// A buffer whose bytes are all initialized: its capacity is its length.
    pub fn from_vec(data: Vec<u8>) -> (r: Buffer)
        ensures
            r.wf(),
            r@.init == data@,
            r@.total == data@.len(),
    {
        let total = data.len();
        Buffer { data, total }
    }

    /// An empty buffer that can take `total` bytes.
    pub fn with_capacity(total: usize) -> (r: Buffer)
        ensures
            r.wf(),
            r@.init == Seq::<u8>::empty(),
            r@.total == total,
    {
        Buffer { data: Vec::new(), total }
    }

    /// The number of initialized bytes.
    pub fn bytes_init(&self) -> (r: usize)
        ensures
            r == self@.init.len(),
    {
        self.data.len()
    }

    /// The capacity.
    pub fn bytes_total(&self) -> (r: usize)
        ensures
            r == self@.total,
    {
        self.total
    }

    /// The initialized bytes.
    pub fn as_slice(&self) -> (r: &[u8])
        ensures
            r@ == self@.init,
    {
        self.data.as_slice()
    }

    /// Gives up the buffer, keeping its initialized bytes.
    pub fn into_vec(self) -> (r: Vec<u8>)
        ensures
            r@ == self@.init,
    {
        self.data
    }

    /// Stores `bytes` at the start of the buffer, as a vectored read does.
    pub fn store_front(&mut self, bytes: &[u8])
        requires
            old(self).wf(),
            bytes@.len() <= old(self)@.total,
        ensures
            final(self).wf(),
            final(self)@ == (BufModel { init: stored(old(self)@.init, 0, bytes@), total: old(self)@.total }),
    {
        let ghost init0 = self.data@;
        let mut i: usize = 0;
        while i < bytes.len()
            invariant
                self.wf(),
                self.total == old(self)@.total,
                bytes@.len() <= self.total,
                i <= bytes@.len(),
                self.data@ == stored(init0, 0, bytes@.subrange(0, i as int)),
            decreases bytes@.len() - i,
        {
            if i < self.data.len() {
                self.data.set(i, bytes[i]);
            } else {
                self.data.push(bytes[i]);
            }
            i = i + 1;
            assert(self.data@ =~= stored(init0, 0, bytes@.subrange(0, i as int)));
        }
        assert(bytes@.subrange(0, i as int) =~= bytes@);
    }

    /// A window `begin..end` into the buffer, which it owns until
    /// [`Slice::into_inner`] gives the buffer back whole.
    pub fn slice(self, begin: usize, end: usize) -> (r: Slice)
        requires
            self.wf(),
            begin <= end <= self@.total,
        ensures
            r.wf(),
            r@.buf == self@,
            r@.begin == begin,
            r@.end == end,
    {
        Slice { buf: self, begin, end }
    }

    /// A window over the whole capacity.
    pub fn slice_full(self) -> (r: Slice)
        requires
            self.wf(),
        ensures
            r.wf(),
            r@.buf == self@,
            r@.begin == 0,
            r@.end == self@.total,
    {
        let end = self.total;
        Slice { buf: self, begin: 0, end }
    }
}

/// The bytes of `data` from `from` to `to`.
pub fn copy_range(data: &Vec<u8>, from: usize, to: usize) -> (r: Vec<u8>)
    requires
        from <= to <= data@.len(),
    ensures
        r@ == data@.subrange(from as int, to as int),
{
    let mut r: Vec<u8> = Vec::new();
    let mut i: usize = from;
    while i < to
        invariant
            from <= i <= to <= data@.len(),
            r@ == data@.subrange(from as int, i as int),
        decreases to - i,
    {
        r.push(data[i]);
        i = i + 1;
        assert(r@ =~= data@.subrange(from as int, i as int));
    }
    r
}

/// Stores `data` across `bufs` as a vectored read does: each buffer in turn
/// is filled from its start, up to its capacity, with the next bytes.
pub fn scatter(bufs: Vec<Buffer>, data: &Vec<u8>) -> (r: Vec<Buffer>)
    requires
        all_wf(bufs@),
    ensures
        all_wf(r@),
        models(r@) == scattered(models(bufs@), data@),
{
    let ghost whole = models(bufs@);
    let mut rest = bufs;
    let mut out: Vec<Buffer> = Vec::new();
    let mut off: usize = 0;
    proof {
        assert(data@.subrange(0, data@.len() as int) =~= data@);
        assert(models(out@) =~= Seq::<BufModel>::empty());
        assert(models(out@) + scattered(whole, data@) =~= scattered(whole, data@));
    }
    while rest.len() > 0
        invariant
            all_wf(rest@),
            all_wf(out@),
            off <= data@.len(),
            models(out@) + scattered(models(rest@), data@.subrange(off as int, data@.len() as int)) == scattered(whole, data@),
        decreases rest@.len(),
    {
        let ghost rest0 = rest@;
        let ghost out0 = out@;
        let mut b = rest.remove(0);
        let left = data.len() - off;
        let n = if b.bytes_total() <= left { b.bytes_total() } else { left };
        let piece = copy_range(data, off, off + n);
        b.store_front(piece.as_slice());
        out.push(b);
        proof {
            let d = data@.subrange(off as int, data@.len() as int);
            assert(models(rest0).drop_first() =~= models(rest@));
            assert(d.subrange(0, n as int) =~= piece@);
            assert(d.subrange(n as int, d.len() as int) =~= data@.subrange(off + n, data@.len() as int));
            assert(models(out@) =~= models(out0).push(b@));
            assert(models(out@) + scattered(models(rest@), data@.subrange(off + n, data@.len() as int))
                =~= models(out0) + scattered(models(rest0), d));
        }
        off = off + n;
    }
    proof {
        assert(models(rest@) =~= Seq::<BufModel>::empty());
        assert(models(out@) + Seq::<BufModel>::empty() =~= models(out@));
    }
    out
}

/// The initialized bytes of `bufs`, one after the other.
pub fn gather(bufs: &Vec<Buffer>) -> (r: Vec<u8>)
    ensures
        r@ == gathered(models(bufs@)),
{
    let mut r: Vec<u8> = Vec::new();
    let mut i: usize = bufs.len();
    let ghost all = models(bufs@);
    while i > 0
        invariant
            i <= bufs@.len(),
            all == models(bufs@),
            r@ == gathered(all.subrange(i as int, all.len() as int)),
        decreases i,
    {
        i = i - 1;
        let part = bufs[i].as_slice();
        let mut joined: Vec<u8> = Vec::new();
        let mut j: usize = 0;
        while j < part.len()
            invariant
                j <= part@.len(),
                joined@ == part@.subrange(0, j as int),
            decreases part@.len() - j,
        {
            joined.push(part[j]);
            j = j + 1;
            assert(joined@ =~= part@.subrange(0, j as int));
        }
        let mut k: usize = 0;
        let ghost tail = r@;
        while k < r.len()
            invariant
                k <= r@.len(),
                r@ == tail,
                joined@ == part@ + tail.subrange(0, k as int),
            decreases r@.len() - k,
        {
            joined.push(r[k]);
            k = k + 1;
            assert(joined@ =~= part@ + tail.subrange(0, k as int));
        }
        proof {
            assert(all.subrange(i as int, all.len() as int).drop_first() =~= all.subrange(i + 1, all.len() as int));
            assert(tail.subrange(0, tail.len() as int) =~= tail);
        }
        r = joined;
    }
    proof {
        assert(all.subrange(0, all.len() as int) =~= all);
    }
    r
}

/// The sum of the capacities of `bufs`, where it fits a `usize`.
pub fn total_capacity(bufs: &Vec<Buffer>) -> (r: Option<usize>)
    ensures
        r matches Some(n) ==> n == capacity(models(bufs@)),
        r is None ==> capacity(models(bufs@)) > usize::MAX,
{
    let ghost all = models(bufs@);
    let mut sum: usize = 0;
    let mut i: usize = bufs.len();
    while i > 0
        invariant
            i <= bufs@.len(),
            all == models(bufs@),
            sum == capacity(all.subrange(i as int, all.len() as int)),
        decreases i,
    {
        i = i - 1;
        proof {
            assert(all.subrange(i as int, all.len() as int).drop_first() =~= all.subrange(i + 1, all.len() as int));
        }
        let t = bufs[i].bytes_total();
        if t > usize::MAX - sum {
            proof { lemma_capacity_suffix(all, i as int); }
            return None;
        }
        sum = sum + t;
    }
    proof {
        assert(all.subrange(0, all.len() as int) =~= all);
    }
    Some(sum)
}

proof fn lemma_capacity_suffix(all: Seq<BufModel>, i: int)
    requires
        0 <= i <= all.len(),
    ensures
        capacity(all.subrange(i, all.len() as int)) <= capacity(all),
    decreases i,
{
    if i > 0 {
        let s = all.subrange(i - 1, all.len() as int);
        assert(s.drop_first() =~= all.subrange(i, all.len() as int));
        lemma_capacity_suffix(all, i - 1);
    } else {
        assert(all.subrange(0, all.len() as int) =~= all);
    }
}

/// What a window holds: the whole buffer and the bounds of the window.
pub ghost struct SliceModel {
    pub buf: BufModel,
    pub begin: nat,
    pub end: nat,
}

impl SliceModel {
    /// The initialized bytes that lie inside the window.
    pub open spec fn init_in_window(self) -> Seq<u8> {
        if self.buf.init.len() <= self.begin {
            Seq::empty()
        } else if self.buf.init.len() <= self.end {
            self.buf.init.subrange(self.begin as int, self.buf.init.len() as int)
        } else {
            self.buf.init.subrange(self.begin as int, self.end as int)
        }
    }
}

/// A zero-copy window into a [`Buffer`], usable wherever a smaller buffer is.
pub struct Slice {
    buf: Buffer,
    begin: usize,
    end: usize,
}

impl View for Slice {
    type V = SliceModel;

    closed spec fn view(&self) -> SliceModel {
        SliceModel { buf: self.buf@, begin: self.begin as nat, end: self.end as nat }
    }
}

impl Slice {
    /// Well-formed: the buffer is, and the window lies inside its capacity.
    pub open spec fn wf(&self) -> bool {
        &&& self@.buf.init.len() <= self@.buf.total
        &&& self@.buf.total <= usize::MAX
        &&& self@.begin <= self@.end <= self@.buf.total
    }

    /// Where the window starts in the buffer.
    pub fn begin(&self) -> (r: usize)
        ensures
            r == self@.begin,
    {
        self.begin
    }

    /// The number of initialized bytes of the whole buffer.
    pub fn buf_init_len(&self) -> (r: usize)
        ensures
            r == self@.buf.init.len(),
    {
        self.buf.data.len()
    }

    /// Where the window ends in the buffer.
    pub fn end(&self) -> (r: usize)
        ensures
            r == self@.end,
    {
        self.end
    }

    /// The window's capacity.
    pub fn bytes_total(&self) -> (r: usize)
        requires
            self.wf(),
        ensures
            r == self@.end - self@.begin,
    {
        self.end - self.begin
    }

    /// The number of initialized bytes inside the window.
    pub fn bytes_init(&self) -> (r: usize)
        requires
            self.wf(),
        ensures
            r == self@.init_in_window().len(),
    {
        let n = self.buf.data.len();
        if n <= self.begin {
            0
        } else if n <= self.end {
            n - self.begin
        } else {
            self.end - self.begin
        }
    }

    /// A copy of the initialized bytes inside the window.
    pub fn init_bytes(&self) -> (r: Vec<u8>)
        requires
            self.wf(),
        ensures
            r@ == self@.init_in_window(),
    {
        let n = self.buf.data.len();
        let stop: usize = if n <= self.end { n } else { self.end };
        let mut r: Vec<u8> = Vec::new();
        if self.begin < stop {
            let mut i: usize = self.begin;
            while i < stop
                invariant
                    self.begin <= i <= stop <= n,
                    n == self.buf.data@.len(),
                    r@ == self.buf.data@.subrange(self.begin as int, i as int),
                decreases stop - i,
            {
                r.push(self.buf.data[i]);
                i = i + 1;
                assert(r@ =~= self.buf.data@.subrange(self.begin as int, i as int));
            }
        }
        assert(r@ =~= self@.init_in_window());
        r
    }

    /// Stores `bytes` at the start of the window, as the kernel does when a
    /// read lands there; the buffer's initialized length grows to cover them.
    pub fn store(&mut self, bytes: &Vec<u8>)
        requires
            old(self).wf(),
            bytes@.len() <= old(self)@.end - old(self)@.begin,
            old(self)@.begin <= old(self)@.buf.init.len(),
        ensures
            final(self).wf(),
            final(self)@.begin == old(self)@.begin,
            final(self)@.end == old(self)@.end,
            final(self)@.buf.total == old(self)@.buf.total,
            final(self)@.buf.init == stored(old(self)@.buf.init, old(self)@.begin, bytes@),
    {
        let ghost init0 = self.buf.data@;
        let begin = self.begin;
        let mut i: usize = 0;
        while i < bytes.len()
            invariant
                self.wf(),
                self.begin == begin,
                self.end == old(self)@.end,
                self.buf.total == old(self)@.buf.total,
                begin + bytes@.len() <= self.end,
                i <= bytes@.len(),
                begin <= init0.len(),
                self.buf.data@ == stored(init0, begin as nat, bytes@.subrange(0, i as int)),
            decreases bytes@.len() - i,
        {
            let ghost before = self.buf.data@;
            let at = begin + i;
            if at < self.buf.data.len() {
                self.buf.data.set(at, bytes[i]);
            } else {
                self.buf.data.push(bytes[i]);
            }
            i = i + 1;
            assert(self.buf.data@ =~= stored(init0, begin as nat, bytes@.subrange(0, i as int)));
        }
        assert(bytes@.subrange(0, i as int) =~= bytes@);
    }

    /// Gives the whole buffer back.
    pub fn into_inner(self) -> (r: Buffer)
        ensures
            r@ == self@.buf,
    {
        self.buf
    }
}

} // verus!
