//! The driver: a bounded submission queue and the slot table that owns every
//! request from its submission until its completion has been delivered.
//!
//! A request moves into a vacant slot when it is submitted, and the slot's
//! number is its token. The kernel learns of it through a submission entry
//! and answers with a completion for that token. A waiter collects the
//! completion with [`Driver::poll`]; a waiter that stops waiting calls
//! [`Driver::detach`], after which the slot keeps the request, and with it its
//! buffers, until the kernel's completion arrives and is discarded. A slot
//! becomes vacant again, and its token free for reuse, only then.
use vstd::prelude::*;
use crate::buf::{Buffer, Slice, SliceModel, BufModel, stored, models, all_wf, gathered, capacity, scattered, scatter, gather, total_capacity};
use crate::fd::{FdTable, SharedFd, after_close};

verus! {

/// How a file is to be opened.
#[derive(Clone, Copy)]
pub struct OpenOptions {
    pub read: bool,
    pub write: bool,
    pub create: bool,
    pub truncate: bool,
}

/// A request and the resources it owns while the kernel works on it.
pub enum Request {
    /// Read into the window `buf`, from the file offset `pos`.
    Read { fd: i32, pos: u64, buf: Slice },
    /// Write the initialized bytes of the window `buf` at the file offset `pos`.
    Write { fd: i32, pos: u64, buf: Slice },
    /// Read into the buffers in turn, each from its start to its capacity.
    Readv { fd: i32, pos: u64, bufs: Vec<Buffer> },
    /// Write the initialized bytes of the buffers, one after the other.
    Writev { fd: i32, pos: u64, bufs: Vec<Buffer> },
    /// Flush the file to stable storage; with `data_only`, metadata may stay behind.
    Sync { fd: i32, data_only: bool },
    /// Open `path`; a completion's result is the new descriptor.
    Open { path: String, options: OpenOptions },
    /// Release the descriptor.
    Close { fd: i32 },
    /// Remove the file at `path`.
    Unlink { path: String },
    /// Rename `from` to `to`, replacing `to`.
    Rename { from: String, to: String },
}

impl Request {
    /// The buffer that a read or a write owns, given back whole; `None` for
    /// the other requests.
    pub fn into_buffer(self) -> (r: Option<Buffer>)
        ensures
            match self {
                Request::Read { buf, .. } => r matches Some(b) && b@ == buf@.buf,
                Request::Write { buf, .. } => r matches Some(b) && b@ == buf@.buf,
                _ => r is None,
            },
    {
        match self {
            Request::Read { buf, .. } => Some(buf.into_inner()),
            Request::Write { buf, .. } => Some(buf.into_inner()),
            _ => None,
        }
    }

    /// The buffers that a vectored read or write owns; `None` for the other
    /// requests.
    pub fn into_buffers(self) -> (r: Option<Vec<Buffer>>)
        ensures
            match self {
                Request::Readv { bufs, .. } => r == Some(bufs),
                Request::Writev { bufs, .. } => r == Some(bufs),
                _ => r is None,
            },
    {
        match self {
            Request::Readv { bufs, .. } => Some(bufs),
            Request::Writev { bufs, .. } => Some(bufs),
            _ => None,
        }
    }
}

/// Filling buffers keeps their capacities.
proof fn lemma_scattered_capacity(bufs: Seq<BufModel>, data: Seq<u8>)
    ensures
        capacity(scattered(bufs, data)) == capacity(bufs),
        scattered(bufs, data).len() == bufs.len(),
    decreases bufs.len(),
{
    if bufs.len() > 0 {
        let n = if bufs[0].total <= data.len() { bufs[0].total } else { data.len() };
        let rest = data.subrange(n as int, data.len() as int);
        lemma_scattered_capacity(bufs.drop_first(), rest);
        let s = scattered(bufs, data);
        assert(s.drop_first() =~= scattered(bufs.drop_first(), rest));
    }
}

/// What the kernel is asked to do, as one submission entry describes it.
pub enum EntryOp {
    Read { fd: i32, pos: u64, len: usize },
    Write { fd: i32, pos: u64, data: Vec<u8> },
    Readv { fd: i32, pos: u64, len: usize },
    Writev { fd: i32, pos: u64, data: Vec<u8> },
    Sync { fd: i32, data_only: bool },
    Open { path: String, options: OpenOptions },
    Close { fd: i32 },
    Unlink { path: String },
    Rename { from: String, to: String },
}

/// A submission entry: the request's token and what the kernel is to do.
pub struct Entry {
    pub token: usize,
    pub op: EntryOp,
}

/// One slot of the table.
pub enum Slot {
    Vacant,
    /// Submitted, and not yet completed; `detached` once its waiter left.
    InFlight { req: Request, detached: bool },
    /// Completed with the kernel's `result`; waiting to be collected.
    Done { result: i32, req: Request },
}

/// Why a request was not submitted. The request is handed back with it.
#[derive(PartialEq, Eq, Structural, Clone, Copy, Debug)]
pub enum SubmitError {
    /// The submission queue or the slot table is full: try again once the
    /// kernel has taken entries or completions were collected.
    Busy,
    /// The descriptor has no live handle: its release has begun.
    Closed,
    /// A read window starts past the buffer's initialized bytes, or the
    /// capacities of a vectored read add up past the largest size.
    Invalid,
}

/// Why a completion was refused. Nothing changed.
#[derive(PartialEq, Eq, Structural, Clone, Copy, Debug)]
pub enum CompletionError {
    /// No request with that token is with the kernel.
    UnknownToken,
    /// The completion does not fit its request: a read that reports another
    /// number of bytes than it carries, or more than were asked for.
    Malformed,
}

/// The descriptor a request works on, where it works on a live one.
pub open spec fn target_fd(req: Request) -> Option<i32> {
    match req {
        Request::Read { fd, .. } => Some(fd),
        Request::Write { fd, .. } => Some(fd),
        Request::Readv { fd, .. } => Some(fd),
        Request::Writev { fd, .. } => Some(fd),
        Request::Sync { fd, .. } => Some(fd),
        _ => None,
    }
}

/// A read whose window starts past its buffer's initialized bytes, or a
/// vectored read whose capacities add up past the largest size.
pub open spec fn read_past_init(req: Request) -> bool {
    ||| (req matches Request::Read { buf, .. } && buf@.begin > buf@.buf.init.len())
    ||| (req matches Request::Readv { bufs, .. } && capacity(models(bufs@)) > usize::MAX)
}

/// The buffers a request owns are well formed.
pub open spec fn request_wf(req: Request) -> bool {
    match req {
        Request::Read { buf, .. } => buf.wf() && buf@.begin <= buf@.buf.init.len(),
        Request::Write { buf, .. } => buf.wf(),
        Request::Readv { bufs, .. } => all_wf(bufs@) && capacity(models(bufs@)) <= usize::MAX,
        Request::Writev { bufs, .. } => all_wf(bufs@),
        _ => true,
    }
}

/// The submission entry `op` describes the request `req`.
pub open spec fn describes(op: EntryOp, req: Request) -> bool {
    match req {
        Request::Read { fd, pos, buf } => op == (EntryOp::Read { fd, pos, len: (buf@.end - buf@.begin) as usize }),
        Request::Write { fd, pos, buf } => op matches EntryOp::Write { fd: f, pos: p, data }
            && f == fd && p == pos && data@ == buf@.init_in_window(),
        Request::Readv { fd, pos, bufs } => op == (EntryOp::Readv { fd, pos, len: capacity(models(bufs@)) as usize }),
        Request::Writev { fd, pos, bufs } => op matches EntryOp::Writev { fd: f, pos: p, data }
            && f == fd && p == pos && data@ == gathered(models(bufs@)),
        Request::Sync { fd, data_only } => op == (EntryOp::Sync { fd, data_only }),
        Request::Open { path, options } => op matches EntryOp::Open { path: p, options: o }
            && p@ == path@ && o == options,
        Request::Close { fd } => op == (EntryOp::Close { fd }),
        Request::Unlink { path } => op matches EntryOp::Unlink { path: p } && p@ == path@,
        Request::Rename { from, to } => op matches EntryOp::Rename { from: f, to: t }
            && f@ == from@ && t@ == to@,
    }
}

/// A completion with `result` and the bytes `data` fits the request.
pub open spec fn fits(req: Request, result: i32, data: Seq<u8>) -> bool {
    match req {
        Request::Read { buf, .. } => result < 0 || (data.len() == result && result <= buf@.end - buf@.begin),
        Request::Write { buf, .. } => result <= buf@.init_in_window().len(),
        Request::Readv { bufs, .. } => result < 0 || (data.len() == result && result <= capacity(models(bufs@))),
        Request::Writev { bufs, .. } => result <= gathered(models(bufs@)).len(),
        _ => true,
    }
}

/// `after` is `before` as the kernel leaves it when it completes with
/// `result` and the bytes `data`: a successful read has stored the bytes at
/// the start of its window; every other request is unchanged.
pub open spec fn delivered(before: Request, after: Request, result: i32, data: Seq<u8>) -> bool {
    match before {
        Request::Read { fd, pos, buf } => after matches Request::Read { fd: f, pos: p, buf: b }
            && f == fd && p == pos && b.wf() && if result >= 0 {
                b@ == (SliceModel {
                    buf: BufModel { init: stored(buf@.buf.init, buf@.begin, data), total: buf@.buf.total },
                    begin: buf@.begin,
                    end: buf@.end,
                })
            } else {
                b@ == buf@
            },
        Request::Readv { fd, pos, bufs } => after matches Request::Readv { fd: f, pos: p, bufs: b }
            && f == fd && p == pos && all_wf(b@) && capacity(models(b@)) == capacity(models(bufs@))
            && models(b@) == if result >= 0 {
                scattered(models(bufs@), data)
            } else {
                models(bufs@)
            },
        _ => after == before,
    }
}

/// The driver after a submission returned the token `t`: the request went
/// into the vacant slot `t`, and an entry describing it joined the queue.
pub open spec fn submitted_at(before: Driver, after: Driver, t: usize) -> bool {
    &&& t < before.slots().len()
    &&& before.slots()[t as int] is Vacant
    &&& after.slots() == before.slots().update(t as int, after.slots()[t as int])
    &&& after.slots()[t as int] matches Slot::InFlight { req, detached } && !detached
        && describes(after.queue().last().op, req)
    &&& after.queue().drop_last() == before.queue()
    &&& after.queue().len() == before.queue().len() + 1
    &&& after.queue().last().token == t
    &&& after.fd_table() == before.fd_table()
}

/// While a request is with the kernel, detached or not, its slot and the
/// buffers in it stay its own: a submission takes another token and leaves
/// that slot as it was, so no buffer handed out later can be the one the
/// kernel may still write into.
pub proof fn lemma_in_flight_slot_kept(before: Driver, after: Driver, t: int, u: usize)
    requires
        0 <= t < before.slots().len(),
        before.slots()[t] is InFlight,
        submitted_at(before, after, u),
    ensures
        u != t,
        after.slots()[t] == before.slots()[t],
{
}

/// The whole driver.
pub struct Driver {
    slots: Vec<Slot>,
    queue: Vec<Entry>,
    queue_cap: usize,
    fds: FdTable,
}

impl Driver {
    /// The slot table; a request's token is its index.
    pub closed spec fn slots(&self) -> Seq<Slot> {
        self.slots@
    }

    /// The live descriptors and their handle counts.
    pub closed spec fn fd_table(&self) -> FdTable {
        self.fds
    }

    /// The submission entries not yet taken by the kernel, oldest first.
    pub closed spec fn queue(&self) -> Seq<Entry> {
        self.queue@
    }

    /// How many entries the submission queue holds at most.
    pub closed spec fn queue_cap(&self) -> nat {
        self.queue_cap as nat
    }

    /// Whether the entry for `token` still waits in the submission queue.
    pub open spec fn queued(&self, token: int) -> bool {
        exists|k: int| 0 <= k < self.queue().len() && self.queue()[k].token == token
    }

    /// Whether the slot table has a vacant slot.
    pub open spec fn has_vacancy(&self) -> bool {
        exists|t: int| 0 <= t < self.slots().len() && self.slots()[t] is Vacant
    }

    /// Well-formed: the queue keeps to its bound and describes requests in
    /// flight, and every request's buffers are well formed.
    pub open spec fn wf(&self) -> bool {
        &&& self.fd_table().wf()
        &&& 0 < self.queue_cap()
        &&& self.queue().len() <= self.queue_cap()
        &&& forall|k: int| #![trigger self.queue()[k]] 0 <= k < self.queue().len() ==> {
            let e = self.queue()[k];
            &&& e.token < self.slots().len()
            &&& self.slots()[e.token as int] matches Slot::InFlight { req, .. }
            &&& describes(e.op, req)
        }
        &&& forall|t: int| #![trigger self.slots()[t]] 0 <= t < self.slots().len() ==> match self.slots()[t] {
            Slot::Vacant => true,
            Slot::InFlight { req, .. } => request_wf(req),
            Slot::Done { req, .. } => request_wf(req),
        }
    }

    /// A driver with a submission queue of `queue_cap` entries and a slot
    /// table of `slot_count` slots, all vacant, and no live descriptor.
    pub fn new(queue_cap: usize, slot_count: usize) -> (r: Driver)
        requires
            queue_cap > 0,
        ensures
            r.wf(),
            r.queue_cap() == queue_cap,
            r.queue() == Seq::<Entry>::empty(),
            r.slots().len() == slot_count,
            forall|t: int| 0 <= t < slot_count ==> r.slots()[t] is Vacant,
            forall|raw: i32| r.fd_table().refs(raw) == 0,
    {
        let mut slots: Vec<Slot> = Vec::new();
        let mut i: usize = 0;
        while i < slot_count
            invariant
                i <= slot_count,
                slots@.len() == i,
                forall|t: int| 0 <= t < i ==> slots@[t] is Vacant,
            decreases slot_count - i,
        {
            slots.push(Slot::Vacant);
            i = i + 1;
        }
        Driver { slots, queue: Vec::new(), queue_cap, fds: FdTable::new() }
    }

    /// The number of slots.
    pub fn slot_count(&self) -> (r: usize)
        ensures
            r == self.slots().len(),
    {
        self.slots.len()
    }

    /// The number of entries waiting for the kernel.
    pub fn queued_count(&self) -> (r: usize)
        ensures
            r == self.queue().len(),
    {
        self.queue.len()
    }

    fn vacant_slot(&self) -> (r: Option<usize>)
        ensures
            r matches Some(t) ==> t < self.slots().len() && self.slots()[t as int] is Vacant,
            r is None ==> !self.has_vacancy(),
    {
        let mut t: usize = 0;
        while t < self.slots.len()
            invariant
                t <= self.slots@.len(),
                forall|u: int| 0 <= u < t ==> !(self.slots@[u] is Vacant),
            decreases self.slots@.len() - t,
        {
            if matches!(self.slots[t], Slot::Vacant) {
                return Some(t);
            }
            t = t + 1;
        }
        None
    }

    /// Takes the content of a slot out, leaving it vacant.
    fn take_slot(&mut self, t: usize) -> (r: Slot)
        requires
            t < old(self).slots().len(),
        ensures
            r == old(self).slots()[t as int],
            final(self).slots() == old(self).slots().update(t as int, Slot::Vacant),
            final(self).queue() == old(self).queue(),
            final(self).queue_cap() == old(self).queue_cap(),
            final(self).fd_table() == old(self).fd_table(),
    {
        let r = self.slots.remove(t);
        self.slots.insert(t, Slot::Vacant);
        assert(self.slots@ =~= old(self).slots@.update(t as int, Slot::Vacant));
        r
    }

    /// The reason a submission of `req` fails, if it does: a read window
    /// past the buffer's initialized bytes, then a descriptor with no live
    /// handle, then a full queue or slot table.
    pub open spec fn submit_error(&self, req: Request) -> Option<SubmitError> {
        if read_past_init(req) {
            Some(SubmitError::Invalid)
        } else if target_fd(req) matches Some(fd) && self.fd_table().refs(fd) == 0 {
            Some(SubmitError::Closed)
        } else if self.queue().len() >= self.queue_cap() || !self.has_vacancy() {
            Some(SubmitError::Busy)
        } else {
            None
        }
    }

    /// Submits a request: it moves into a vacant slot, whose number is
    /// returned as its token, and an entry describing it joins the
    /// submission queue. On failure the request is handed back and nothing
    /// changes.
    pub fn submit(&mut self, req: Request) -> (r: Result<usize, (SubmitError, Request)>)
        requires
            old(self).wf(),
            req matches Request::Read { buf, .. } ==> buf.wf(),
            req matches Request::Write { buf, .. } ==> buf.wf(),
            req matches Request::Readv { bufs, .. } ==> all_wf(bufs@),
            req matches Request::Writev { bufs, .. } ==> all_wf(bufs@),
        ensures
            final(self).wf(),
            r is Ok <==> old(self).submit_error(req) is None,
            r matches Err((e, back)) ==> old(self).submit_error(req) == Some(e) && back == req
                && *final(self) == *old(self),
            r matches Ok(t) ==> {
                &&& submitted_at(*old(self), *final(self), t)
                &&& t < old(self).slots().len()
                &&& old(self).slots()[t as int] is Vacant
                &&& final(self).slots() == old(self).slots().update(t as int, Slot::InFlight { req, detached: false })
                &&& final(self).queue().len() == old(self).queue().len() + 1
                &&& final(self).queue().drop_last() == old(self).queue()
                &&& final(self).queue().last().token == t
                &&& describes(final(self).queue().last().op, req)
                &&& final(self).queue_cap() == old(self).queue_cap()
                &&& final(self).fd_table() == old(self).fd_table()
            },
    {
        let past = match &req {
            Request::Read { buf, .. } => buf.begin() > buf.buf_init_len(),
            Request::Readv { bufs, .. } => total_capacity(bufs).is_none(),
            _ => false,
        };
        if past {
            return Err((SubmitError::Invalid, req));
        }
        let live = match &req {
            Request::Read { fd, .. } => self.fds.is_open(*fd),
            Request::Write { fd, .. } => self.fds.is_open(*fd),
            Request::Readv { fd, .. } => self.fds.is_open(*fd),
            Request::Writev { fd, .. } => self.fds.is_open(*fd),
            Request::Sync { fd, .. } => self.fds.is_open(*fd),
            _ => true,
        };
        if !live {
            return Err((SubmitError::Closed, req));
        }
        if self.queue.len() >= self.queue_cap {
            return Err((SubmitError::Busy, req));
        }
        let t = match self.vacant_slot() {
            Some(t) => t,
            None => {
                return Err((SubmitError::Busy, req));
            },
        };
        let op = Driver::entry_op(&req);
        let ghost q0 = self.queue@;
        let ghost s0 = self.slots@;
        self.slots.set(t, Slot::InFlight { req, detached: false });
        self.queue.push(Entry { token: t, op });
        proof {
            assert(self.queue@.drop_last() =~= q0);
            assert forall|k: int| #![trigger self.queue()[k]] 0 <= k < self.queue().len() implies {
                let e = self.queue()[k];
                &&& e.token < self.slots().len()
                &&& self.slots()[e.token as int] matches Slot::InFlight { req, .. }
                &&& describes(e.op, req)
            } by {
                if k < q0.len() {
                    assert(self.queue@[k] == q0[k]);
                    assert(q0[k].token != t);
                }
            }
        }
        Ok(t)
    }

    /// Takes the oldest submission entry, for the kernel to work on.
    pub fn pop_entry(&mut self) -> (r: Option<Entry>)
        requires
            old(self).wf(),
        ensures
            final(self).wf(),
            old(self).queue().len() == 0 ==> r is None && *final(self) == *old(self),
            old(self).queue().len() > 0 ==> r == Some(old(self).queue()[0])
                && final(self).queue() == old(self).queue().subrange(1, old(self).queue().len() as int)
                && final(self).slots() == old(self).slots()
                && final(self).queue_cap() == old(self).queue_cap()
                && final(self).fd_table() == old(self).fd_table(),
    {
        if self.queue.len() == 0 {
            return None;
        }
        let e = self.queue.remove(0);
        proof {
            assert forall|k: int| #![trigger self.queue()[k]] 0 <= k < self.queue().len() implies {
                let e = self.queue()[k];
                &&& e.token < self.slots().len()
                &&& self.slots()[e.token as int] matches Slot::InFlight { req, .. }
                &&& describes(e.op, req)
            } by {
                assert(self.queue@[k] == old(self).queue@[k + 1]);
            }
        }
        Some(e)
    }

    fn is_queued(&self, token: usize) -> (r: bool)
        ensures
            r == self.queued(token as int),
    {
        let mut k: usize = 0;
        while k < self.queue.len()
            invariant
                k <= self.queue@.len(),
                forall|j: int| 0 <= j < k ==> self.queue@[j].token != token,
            decreases self.queue@.len() - k,
        {
            if self.queue[k].token == token {
                return true;
            }
            k = k + 1;
        }
        false
    }

    /// Whether a completion for `token` would be taken: its request is in
    /// flight and the kernel has taken its entry.
    pub open spec fn awaits_completion(&self, token: int) -> bool {
        &&& 0 <= token < self.slots().len()
        &&& self.slots()[token] is InFlight
        &&& !self.queued(token)
    }

    /// Delivers the kernel's completion for `token`, with its `result` (a
    /// byte count or other success value, or a negated error code) and, for
    /// a read, the bytes read. A read stores them at the start of its window.
    /// The slot then holds the completion for its waiter; where the waiter
    /// had detached, the request and its buffers are dropped instead and the
    /// slot becomes vacant. No other slot changes.
    pub fn complete(&mut self, token: usize, result: i32, data: Vec<u8>) -> (r: Result<(), CompletionError>)
        requires
            old(self).wf(),
        ensures
            final(self).wf(),
            !old(self).awaits_completion(token as int) ==> r == Err::<(), CompletionError>(CompletionError::UnknownToken),
            old(self).awaits_completion(token as int) ==> match old(self).slots()[token as int] {
                Slot::InFlight { req, detached } => {
                    &&& !fits(req, result, data@) ==> r == Err::<(), CompletionError>(CompletionError::Malformed)
                    &&& fits(req, result, data@) ==> r is Ok
                    &&& r is Ok ==> {
                        &&& final(self).slots() == old(self).slots().update(token as int, final(self).slots()[token as int])
                        &&& detached ==> final(self).slots()[token as int] is Vacant
                        &&& !detached ==> (final(self).slots()[token as int] matches Slot::Done { result: res, req: after }
                            && res == result && delivered(req, after, result, data@))
                        &&& final(self).queue() == old(self).queue()
                        &&& final(self).queue_cap() == old(self).queue_cap()
                        &&& final(self).fd_table() == old(self).fd_table()
                    }
                },
                _ => false,
            },
            r is Err ==> *final(self) == *old(self),
    {
        if token >= self.slots.len() || !matches!(self.slots[token], Slot::InFlight { .. }) || self.is_queued(token) {
            return Err(CompletionError::UnknownToken);
        }
        let fits = match &self.slots[token] {
            Slot::InFlight { req, .. } => match req {
                Request::Read { buf, .. } => result < 0 || (data.len() == result as usize && result as usize <= buf.bytes_total()),
                Request::Write { buf, .. } => result < 0 || result as usize <= buf.bytes_init(),
                Request::Readv { bufs, .. } => result < 0 || (data.len() == result as usize && match total_capacity(bufs) {
                    Some(cap) => result as usize <= cap,
                    None => false,
                }),
                Request::Writev { bufs, .. } => result < 0 || result as usize <= gather(bufs).len(),
                _ => true,
            },
            _ => false,
        };
        if !fits {
            return Err(CompletionError::Malformed);
        }
        let ghost s0 = self.slots@;
        let slot = self.take_slot(token);
        match slot {
            Slot::InFlight { req, detached } => {
                if !detached {
                    let after = match req {
                        Request::Read { fd, pos, buf } => {
                            let mut buf = buf;
                            if result >= 0 {
                                buf.store(&data);
                            }
                            Request::Read { fd, pos, buf }
                        },
                        Request::Readv { fd, pos, bufs } => {
                            let ghost before = models(bufs@);
                            let bufs = if result >= 0 {
                                scatter(bufs, &data)
                            } else {
                                bufs
                            };
                            proof {
                                if result >= 0 {
                                    lemma_scattered_capacity(before, data@);
                                }
                            }
                            Request::Readv { fd, pos, bufs }
                        },
                        other => other,
                    };
                    self.slots.set(token, Slot::Done { result, req: after });
                }
                proof {
                    assert(self.slots@ =~= s0.update(token as int, self.slots@[token as int]));
                    assert forall|k: int| #![trigger self.queue()[k]] 0 <= k < self.queue().len() implies {
                        let e = self.queue()[k];
                        &&& e.token < self.slots().len()
                        &&& self.slots()[e.token as int] matches Slot::InFlight { req, .. }
                        &&& describes(e.op, req)
                    } by {
                        assert(self.queue()[k].token != token);
                    }
                }
            },
            _ => {},
        }
        Ok(())
    }

    /// Collects the completion for `token`: its result and the request with
    /// its buffers. The slot becomes vacant. Where the request has not
    /// completed, returns `None` and changes nothing.
    pub fn poll(&mut self, token: usize) -> (r: Option<(i32, Request)>)
        requires
            old(self).wf(),
        ensures
            final(self).wf(),
            token < old(self).slots().len() ==> match old(self).slots()[token as int] {
                Slot::Done { result, req } => {
                    &&& r == Some((result, req))
                    &&& final(self).slots() == old(self).slots().update(token as int, Slot::Vacant)
                    &&& final(self).queue() == old(self).queue()
                    &&& final(self).queue_cap() == old(self).queue_cap()
                    &&& final(self).fd_table() == old(self).fd_table()
                },
                _ => true,
            },
            !(token < old(self).slots().len() && old(self).slots()[token as int] is Done)
                ==> r is None && *final(self) == *old(self),
            r matches Some((_, req)) ==> request_wf(req),
    {
        if token >= self.slots.len() || !matches!(self.slots[token], Slot::Done { .. }) {
            return None;
        }
        let slot = self.take_slot(token);
        match slot {
            Slot::Done { result, req } => Some((result, req)),
            _ => None,
        }
    }

    /// The waiter of `token` stops waiting. A request still with the kernel
    /// stays in its slot, buffers and all, marked detached, so that its
    /// completion is dropped when it comes; a completion not yet collected is
    /// dropped now. The kernel is not asked to stop.
    pub fn detach(&mut self, token: usize)
        requires
            old(self).wf(),
        ensures
            final(self).wf(),
            final(self).queue() == old(self).queue(),
            final(self).queue_cap() == old(self).queue_cap(),
            final(self).fd_table() == old(self).fd_table(),
            token < old(self).slots().len() ==> final(self).slots() == match old(self).slots()[token as int] {
                Slot::InFlight { req, .. } => old(self).slots().update(token as int, Slot::InFlight { req, detached: true }),
                Slot::Done { .. } => old(self).slots().update(token as int, Slot::Vacant),
                Slot::Vacant => old(self).slots(),
            },
            token >= old(self).slots().len() ==> final(self).slots() == old(self).slots(),
    {
        if token >= self.slots.len() {
            return;
        }
        let ghost s0 = self.slots@;
        let slot = self.take_slot(token);
        match slot {
            Slot::InFlight { req, .. } => {
                self.slots.set(token, Slot::InFlight { req, detached: true });
            },
            Slot::Done { .. } => {},
            Slot::Vacant => {
                proof { assert(self.slots@ =~= s0); }
            },
        }
    }

    /// Wraps the descriptor `raw` in its first handle. Fails where `raw`
    /// already has live handles.
    pub fn adopt(&mut self, raw: i32) -> (r: Option<SharedFd>)
        requires
            old(self).wf(),
        ensures
            final(self).wf(),
            r is Some <==> old(self).fd_table().refs(raw) == 0,
            r matches Some(h) ==> h@ == raw && final(self).fd_table().refs(raw) == 1,
            forall|other: i32| other != raw ==> final(self).fd_table().refs(other) == old(self).fd_table().refs(other),
            r is None ==> final(self).fd_table().refs(raw) == old(self).fd_table().refs(raw),
            final(self).slots() == old(self).slots(),
            final(self).queue() == old(self).queue(),
            final(self).queue_cap() == old(self).queue_cap(),
    {
        if self.fds.is_open(raw) {
            return None;
        }
        self.fds.add_ref(raw);
        Some(SharedFd::counted(raw))
    }

    /// A second handle on the descriptor of `fd`. Fails where its count is
    /// at its limit.
    pub fn share(&mut self, fd: &SharedFd) -> (r: Option<SharedFd>)
        requires
            old(self).wf(),
        ensures
            final(self).wf(),
            r is Some <==> old(self).fd_table().refs(fd@) < u64::MAX,
            r matches Some(h) ==> h@ == fd@ && final(self).fd_table().refs(fd@) == old(self).fd_table().refs(fd@) + 1,
            r is None ==> final(self).fd_table().refs(fd@) == old(self).fd_table().refs(fd@),
            forall|other: i32| other != fd@ ==> final(self).fd_table().refs(other) == old(self).fd_table().refs(other),
            final(self).slots() == old(self).slots(),
            final(self).queue() == old(self).queue(),
            final(self).queue_cap() == old(self).queue_cap(),
    {
        let raw = fd.raw_fd();
        if self.fds.add_ref(raw) {
            Some(SharedFd::counted(raw))
        } else {
            None
        }
    }

    /// Gives up the handle `fd`. Returns whether it was the last handle of
    /// its descriptor, whose entry is then gone: no request on it is taken
    /// from then on, and the caller is to release it with a close request.
    pub fn release(&mut self, fd: SharedFd) -> (last: bool)
        requires
            old(self).wf(),
        ensures
            final(self).wf(),
            (final(self).fd_table().refs(fd@), last) == after_close(old(self).fd_table().refs(fd@)),
            forall|other: i32| other != fd@ ==> final(self).fd_table().refs(other) == old(self).fd_table().refs(other),
            final(self).slots() == old(self).slots(),
            final(self).queue() == old(self).queue(),
            final(self).queue_cap() == old(self).queue_cap(),
    {
        let raw = fd.raw_fd();
        self.fds.drop_ref(raw)
    }

    /// The number of live handles of `raw`.
    pub fn refs(&self, raw: i32) -> (r: u64)
        requires
            self.wf(),
        ensures
            r == self.fd_table().refs(raw),
    {
        self.fds.refs_of(raw)
    }

    /// Whether a request that passes the other checks would be taken: the
    /// submission queue and the slot table have room.
    pub fn has_room(&self) -> (r: bool)
        ensures
            r == (self.queue().len() < self.queue_cap() && self.has_vacancy()),
    {
        self.queue.len() < self.queue_cap && self.vacant_slot().is_some()
    }

    /// Whether `raw` has a live handle.
    pub fn is_open(&self, raw: i32) -> (r: bool)
        requires
            self.wf(),
        ensures
            r == (self.fd_table().refs(raw) > 0),
    {
        self.fds.is_open(raw)
    }

    /// The submission entry for a request.
    fn entry_op(req: &Request) -> (r: EntryOp)
        requires
            request_wf(*req),
        ensures
            describes(r, *req),
    {
        match req {
            Request::Read { fd, pos, buf } => EntryOp::Read { fd: *fd, pos: *pos, len: buf.bytes_total() },
            Request::Write { fd, pos, buf } => EntryOp::Write { fd: *fd, pos: *pos, data: buf.init_bytes() },
            Request::Readv { fd, pos, bufs } => {
                let len = match total_capacity(bufs) {
                    Some(n) => n,
                    None => 0,
                };
                EntryOp::Readv { fd: *fd, pos: *pos, len }
            },
            Request::Writev { fd, pos, bufs } => EntryOp::Writev { fd: *fd, pos: *pos, data: gather(bufs) },
            Request::Sync { fd, data_only } => EntryOp::Sync { fd: *fd, data_only: *data_only },
            Request::Open { path, options } => EntryOp::Open { path: path.clone(), options: *options },
            Request::Close { fd } => EntryOp::Close { fd: *fd },
            Request::Unlink { path } => EntryOp::Unlink { path: path.clone() },
            Request::Rename { from, to } => EntryOp::Rename { from: from.clone(), to: to.clone() },
        }
    }
}

} // verus!
