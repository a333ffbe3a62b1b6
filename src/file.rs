//! Files: positional reads and writes, syncs and closes, each one request to
//! the driver, and the retry machines behind exact reads and full writes.
//!
//! A file keeps no cursor: every request names its offset. Waiting for a
//! completion is the caller's part; the decisions taken on each completion
//! are made here.
use vstd::prelude::*;
use crate::buf::{Buffer, SliceModel, stored, all_wf};
use crate::driver::{Driver, OpenOptions, Request, Slot, SubmitError, describes, submitted_at};
use crate::fd::{SharedFd, after_close};

verus! {

/// The error code of an interrupted call, which the retry loops absorb.
pub const EINTR: u32 = 4;

/// How an operation failed.
#[derive(PartialEq, Eq, Structural, Clone, Copy, Debug)]
pub enum IoError {
    /// The offset range of the request does not fit the file offsets; no
    /// request was issued.
    InvalidInput,
    /// The file ended before the buffer was filled.
    UnexpectedEof,
    /// The file took no more bytes before the buffer was written.
    WriteZero,
    /// The descriptor was taken by another handle.
    AlreadyOpen,
    /// The kernel's error code, as it reported it.
    Os(u32),
}

/// What a completion's result means: a count where it is not negative, the
/// negated error code otherwise.
pub open spec fn outcome(res: i32) -> Result<usize, IoError> {
    if res >= 0 {
        Ok(res as usize)
    } else {
        Err(IoError::Os((0 - res) as u32))
    }
}

/// Reads a completion's result.
pub fn io_result(res: i32) -> (r: Result<usize, IoError>)
    ensures
        r == outcome(res),
{
    if res >= 0 {
        Ok(res as usize)
    } else {
        let code = (0 - (res as i64)) as u32;
        Err(IoError::Os(code))
    }
}

/// A completion that reports success with no value.
pub fn unit_result(res: i32) -> (r: Result<(), IoError>)
    ensures
        res >= 0 ==> r is Ok,
        res < 0 ==> r == Err::<(), IoError>(IoError::Os((0 - res) as u32)),
{
    match io_result(res) {
        Ok(_) => Ok(()),
        Err(e) => Err(e),
    }
}

/// What an exact read or full write does next, having `done` of `total`
/// bytes behind it and a completion with `res` in hand.
pub enum Progress {
    /// Issue the next partial request, for the bytes from `done` on.
    Next { done: nat },
    /// Stop, with this outcome.
    Finished(Result<(), IoError>),
}

/// One step of an exact read (`zero` is `UnexpectedEof`) or a full write
/// (`zero` is `WriteZero`): a positive count advances by that many bytes and
/// finishes once all are done; a zero count before then is `zero`; an
/// interrupted call is tried again from the same place; any other error ends
/// the loop.
pub open spec fn exact_step(total: nat, done: nat, res: i32, zero: IoError) -> Progress {
    if res == 0 {
        Progress::Finished(Err(zero))
    } else if res > 0 {
        if done + res >= total {
            Progress::Finished(Ok(()))
        } else {
            Progress::Next { done: (done + res) as nat }
        }
    } else if 0 - res == EINTR {
        Progress::Next { done }
    } else {
        Progress::Finished(Err(IoError::Os((0 - res) as u32)))
    }
}

/// A file open for positional I/O, through one handle on its descriptor.
pub struct File {
    fd: SharedFd,
}

/// A file could not be closed yet: its descriptor's release has to be
/// submitted and the driver has no room. The file is handed back.
pub struct CloseBusy {
    pub file: File,
}

impl View for File {
    type V = i32;

    /// The descriptor.
    closed spec fn view(&self) -> i32 {
        self.fd@
    }
}

/// The options of [`File::open`]: read only.
pub open spec fn read_only() -> OpenOptions {
    OpenOptions { read: true, write: false, create: false, truncate: false }
}

/// The options of [`File::create`]: write, creating or truncating.
pub open spec fn write_truncate() -> OpenOptions {
    OpenOptions { read: false, write: true, create: true, truncate: true }
}

/// The driver after `submit(req)` returned the token `t`.
pub open spec fn submitted(before: Driver, after: Driver, req: Request, t: usize) -> bool {
    &&& t < before.slots().len()
    &&& before.slots()[t as int] is Vacant
    &&& after.slots() == before.slots().update(t as int, Slot::InFlight { req, detached: false })
    &&& after.queue().drop_last() == before.queue()
    &&& after.queue().len() == before.queue().len() + 1
    &&& after.queue().last().token == t
    &&& describes(after.queue().last().op, req)
    &&& after.fd_table() == before.fd_table()
}

impl File {
    /// The file whose descriptor `fd` holds.
    pub fn from_shared_fd(fd: SharedFd) -> (r: File)
        ensures
            r@ == fd@,
    {
        File { fd }
    }

    /// Takes ownership of the descriptor `raw`, as its first handle. Fails
    /// where `raw` already has live handles.
    pub fn adopt(driver: &mut Driver, raw: i32) -> (r: Option<File>)
        requires
            old(driver).wf(),
        ensures
            final(driver).wf(),
            r is Some <==> old(driver).fd_table().refs(raw) == 0,
            r matches Some(f) ==> f@ == raw && final(driver).fd_table().refs(raw) == 1,
            r is None ==> final(driver).fd_table().refs(raw) == old(driver).fd_table().refs(raw),
            forall|other: i32| other != raw ==> final(driver).fd_table().refs(other) == old(driver).fd_table().refs(other),
            final(driver).slots() == old(driver).slots(),
            final(driver).queue() == old(driver).queue(),
    {
        match driver.adopt(raw) {
            Some(fd) => Some(File::from_shared_fd(fd)),
            None => None,
        }
    }

    /// The descriptor, which stays owned by the file.
    pub fn as_raw_fd(&self) -> (r: i32)
        ensures
            r == self@,
    {
        self.fd.raw_fd()
    }

    /// Submits the opening of `path` for reading. Its completion's result
    /// goes to [`File::opened`].
    pub fn open(driver: &mut Driver, path: String) -> (r: Result<usize, SubmitError>)
        requires
            old(driver).wf(),
        ensures
            final(driver).wf(),
            r is Err ==> *final(driver) == *old(driver),
            r matches Err(e) ==> old(driver).submit_error(Request::Open { path, options: read_only() }) == Some(e),
            r matches Ok(t) ==> submitted(*old(driver), *final(driver), Request::Open { path, options: read_only() }, t),
            r is Ok <==> old(driver).submit_error(Request::Open { path, options: read_only() }) is None,
    {
        let options = OpenOptions { read: true, write: false, create: false, truncate: false };
        match driver.submit(Request::Open { path, options }) {
            Ok(t) => Ok(t),
            Err((e, _)) => Err(e),
        }
    }

    /// Submits the opening of `path` for writing, created where it does not
    /// exist and truncated where it does. Its completion's result goes to
    /// [`File::opened`].
    pub fn create(driver: &mut Driver, path: String) -> (r: Result<usize, SubmitError>)
        requires
            old(driver).wf(),
        ensures
            final(driver).wf(),
            r is Err ==> *final(driver) == *old(driver),
            r matches Err(e) ==> old(driver).submit_error(Request::Open { path, options: write_truncate() }) == Some(e),
            r matches Ok(t) ==> submitted(*old(driver), *final(driver), Request::Open { path, options: write_truncate() }, t),
            r is Ok <==> old(driver).submit_error(Request::Open { path, options: write_truncate() }) is None,
    {
        let options = OpenOptions { read: false, write: true, create: true, truncate: true };
        match driver.submit(Request::Open { path, options }) {
            Ok(t) => Ok(t),
            Err((e, _)) => Err(e),
        }
    }

    /// The file that an open's completion `res` gives: the kernel's error,
    /// or the new descriptor wrapped in its first handle.
    pub fn opened(driver: &mut Driver, res: i32) -> (r: Result<File, IoError>)
        requires
            old(driver).wf(),
        ensures
            final(driver).wf(),
            res < 0 ==> r == Err::<File, IoError>(IoError::Os((0 - res) as u32)) && *final(driver) == *old(driver),
            res >= 0 && old(driver).fd_table().refs(res) > 0 ==> r == Err::<File, IoError>(IoError::AlreadyOpen),
            res >= 0 && old(driver).fd_table().refs(res) == 0 ==> (r matches Ok(f) && f@ == res
                && final(driver).fd_table().refs(res) == 1),
            forall|other: i32| other != res ==> final(driver).fd_table().refs(other) == old(driver).fd_table().refs(other),
            final(driver).slots() == old(driver).slots(),
            final(driver).queue() == old(driver).queue(),
    {
        if res < 0 {
            let code = (0 - (res as i64)) as u32;
            return Err(IoError::Os(code));
        }
        match File::adopt(driver, res) {
            Some(f) => Ok(f),
            None => Err(IoError::AlreadyOpen),
        }
    }

    /// Submits one read into `buf`'s whole capacity at the offset `pos`.
    /// The completion's count may be short of the capacity; zero means the
    /// file ends at `pos` or the buffer has no capacity.
    pub fn read_at(&self, driver: &mut Driver, buf: Buffer, pos: u64) -> (r: Result<usize, (SubmitError, Buffer)>)
        requires
            old(driver).wf(),
            buf.wf(),
        ensures
            final(driver).wf(),
            r matches Err((e, b)) ==> b@ == buf@ && *final(driver) == *old(driver)
                && e == (if old(driver).fd_table().refs(self@) == 0 { SubmitError::Closed } else { SubmitError::Busy }),
            r matches Ok(t) ==> submitted_at(*old(driver), *final(driver), t)
                && (final(driver).slots()[t as int] matches Slot::InFlight { req: Request::Read { fd, pos: p, buf: s }, .. }
                && fd == self@ && p == pos && s@ == (SliceModel { buf: buf@, begin: 0, end: buf@.total })),
            r is Ok <==> old(driver).fd_table().refs(self@) > 0 && old(driver).queue().len() < old(driver).queue_cap()
                && old(driver).has_vacancy(),
    {
        let fd = self.fd.raw_fd();
        let req = Request::Read { fd, pos, buf: buf.slice_full() };
        match driver.submit(req) {
            Ok(t) => {
                Ok(t)
            },
            Err((e, back)) => {
                match back {
                    Request::Read { buf, .. } => Err((e, buf.into_inner())),
                    _ => {
                        assert(false);
                        Err((e, Buffer::with_capacity(0)))
                    },
                }
            },
        }
    }

    /// Submits one write of `buf`'s initialized bytes at the offset `pos`.
    /// The completion's count may be short of them.
    pub fn write_at(&self, driver: &mut Driver, buf: Buffer, pos: u64) -> (r: Result<usize, (SubmitError, Buffer)>)
        requires
            old(driver).wf(),
            buf.wf(),
        ensures
            final(driver).wf(),
            r matches Err((e, b)) ==> b@ == buf@ && *final(driver) == *old(driver)
                && e == (if old(driver).fd_table().refs(self@) == 0 { SubmitError::Closed } else { SubmitError::Busy }),
            r matches Ok(t) ==> submitted_at(*old(driver), *final(driver), t)
                && (final(driver).slots()[t as int] matches Slot::InFlight { req: Request::Write { fd, pos: p, buf: s }, .. }
                && fd == self@ && p == pos && s@ == (SliceModel { buf: buf@, begin: 0, end: buf@.total })),
            r is Ok <==> old(driver).fd_table().refs(self@) > 0 && old(driver).queue().len() < old(driver).queue_cap()
                && old(driver).has_vacancy(),
    {
        let fd = self.fd.raw_fd();
        let req = Request::Write { fd, pos, buf: buf.slice_full() };
        match driver.submit(req) {
            Ok(t) => {
                Ok(t)
            },
            Err((e, back)) => {
                match back {
                    Request::Write { buf, .. } => Err((e, buf.into_inner())),
                    _ => {
                        assert(false);
                        Err((e, Buffer::with_capacity(0)))
                    },
                }
            },
        }
    }

    /// Submits one vectored read at the offset `pos`: the buffers are filled
    /// in turn, each from its start to its capacity. The completion's count
    /// may be short of their capacities. Fails with `Invalid` where the
    /// capacities add up past the largest size.
    pub fn readv_at(&self, driver: &mut Driver, bufs: Vec<Buffer>, pos: u64) -> (r: Result<usize, (SubmitError, Vec<Buffer>)>)
        requires
            old(driver).wf(),
            all_wf(bufs@),
        ensures
            final(driver).wf(),
            r matches Err((e, b)) ==> b == bufs && *final(driver) == *old(driver)
                && Some(e) == old(driver).submit_error(Request::Readv { fd: self@, pos, bufs }),
            r matches Ok(t) ==> submitted(*old(driver), *final(driver), Request::Readv { fd: self@, pos, bufs }, t),
            r is Ok <==> old(driver).submit_error(Request::Readv { fd: self@, pos, bufs }) is None,
    {
        let fd = self.fd.raw_fd();
        match driver.submit(Request::Readv { fd, pos, bufs }) {
            Ok(t) => Ok(t),
            Err((e, back)) => {
                match back {
                    Request::Readv { bufs, .. } => Err((e, bufs)),
                    _ => {
                        assert(false);
                        Err((e, Vec::new()))
                    },
                }
            },
        }
    }

    /// Submits one vectored write at the offset `pos` of the buffers'
    /// initialized bytes, one after the other. The completion's count may be
    /// short of them.
    pub fn writev_at(&self, driver: &mut Driver, bufs: Vec<Buffer>, pos: u64) -> (r: Result<usize, (SubmitError, Vec<Buffer>)>)
        requires
            old(driver).wf(),
            all_wf(bufs@),
        ensures
            final(driver).wf(),
            r matches Err((e, b)) ==> b == bufs && *final(driver) == *old(driver)
                && Some(e) == old(driver).submit_error(Request::Writev { fd: self@, pos, bufs }),
            r matches Ok(t) ==> submitted(*old(driver), *final(driver), Request::Writev { fd: self@, pos, bufs }, t),
            r is Ok <==> old(driver).submit_error(Request::Writev { fd: self@, pos, bufs }) is None,
    {
        let fd = self.fd.raw_fd();
        match driver.submit(Request::Writev { fd, pos, bufs }) {
            Ok(t) => Ok(t),
            Err((e, back)) => {
                match back {
                    Request::Writev { bufs, .. } => Err((e, bufs)),
                    _ => {
                        assert(false);
                        Err((e, Vec::new()))
                    },
                }
            },
        }
    }

    /// Starts an exact read: `buf`'s whole capacity is to be filled from the
    /// offset `pos`. Where `pos` plus the capacity passes the largest offset,
    /// finishes at once with `InvalidInput` and issues nothing; where the
    /// capacity is zero, finishes at once with success. Otherwise issues the
    /// first read, of the whole capacity at `pos`.
    pub fn read_exact_at(&self, buf: Buffer, pos: u64) -> (r: (ReadExact, Step))
        requires
            buf.wf(),
        ensures
            pos + buf@.total > u64::MAX ==> (r.1 matches Step::Finish(o, b) && o == Err::<(), IoError>(IoError::InvalidInput) && b@ == buf@),
            pos + buf@.total <= u64::MAX && buf@.total == 0 ==> (r.1 matches Step::Finish(o, b) && o == Ok::<(), IoError>(()) && b@ == buf@),
            pos + buf@.total <= u64::MAX && buf@.total > 0 ==> {
                &&& r.0@ == (ExactModel { fd: self@, pos: pos as nat, total: buf@.total, done: 0 })
                &&& r.0@.wf()
                &&& r.1 matches Step::Issue(req) && partial_read(r.0@, req, buf@)
            },
    {
        let total = buf.bytes_total();
        let fd = self.fd.raw_fd();
        let m = ReadExact { fd, pos, total, done: 0 };
        if pos.checked_add(total as u64).is_none() {
            return (m, Step::Finish(Err(IoError::InvalidInput), buf));
        }
        if total == 0 {
            return (m, Step::Finish(Ok(()), buf));
        }
        (m, Step::Issue(Request::Read { fd, pos, buf: buf.slice(0, total) }))
    }

    /// Starts a full write: all of `buf`'s initialized bytes are to be
    /// written at the offset `pos`. Where `pos` plus their number passes the
    /// largest offset, finishes at once with `InvalidInput` and issues
    /// nothing; where there are none, finishes at once with success.
    /// Otherwise issues the first write, of all of them at `pos`.
    pub fn write_all_at(&self, buf: Buffer, pos: u64) -> (r: (WriteAll, Step))
        requires
            buf.wf(),
        ensures
            pos + buf@.init.len() > u64::MAX ==> (r.1 matches Step::Finish(o, b) && o == Err::<(), IoError>(IoError::InvalidInput) && b@ == buf@),
            pos + buf@.init.len() <= u64::MAX && buf@.init.len() == 0 ==> (r.1 matches Step::Finish(o, b) && o == Ok::<(), IoError>(()) && b@ == buf@),
            pos + buf@.init.len() <= u64::MAX && buf@.init.len() > 0 ==> {
                &&& r.0@ == (ExactModel { fd: self@, pos: pos as nat, total: buf@.init.len(), done: 0 })
                &&& r.0@.wf()
                &&& r.1 matches Step::Issue(req) && partial_write(ExactModel { total: buf@.total, ..r.0@ }, req, buf@)
            },
    {
        let total = buf.bytes_init();
        let fd = self.fd.raw_fd();
        let m = WriteAll { fd, pos, total, done: 0 };
        if pos.checked_add(total as u64).is_none() {
            return (m, Step::Finish(Err(IoError::InvalidInput), buf));
        }
        if total == 0 {
            return (m, Step::Finish(Ok(()), buf));
        }
        let end = buf.bytes_total();
        (m, Step::Issue(Request::Write { fd, pos, buf: buf.slice(0, end) }))
    }

    /// Submits a flush of the file's data and metadata to stable storage.
    pub fn sync_all(&self, driver: &mut Driver) -> (r: Result<usize, SubmitError>)
        requires
            old(driver).wf(),
        ensures
            final(driver).wf(),
            r is Err ==> *final(driver) == *old(driver),
            r matches Err(e) ==> old(driver).submit_error(Request::Sync { fd: self@, data_only: false }) == Some(e),
            r matches Ok(t) ==> submitted(*old(driver), *final(driver), Request::Sync { fd: self@, data_only: false }, t),
            r is Ok <==> old(driver).submit_error(Request::Sync { fd: self@, data_only: false }) is None,
    {
        match driver.submit(Request::Sync { fd: self.fd.raw_fd(), data_only: false }) {
            Ok(t) => Ok(t),
            Err((e, _)) => Err(e),
        }
    }

    /// Submits a flush of the file's data to stable storage; metadata that
    /// reading the data back does not need may stay behind.
    pub fn sync_data(&self, driver: &mut Driver) -> (r: Result<usize, SubmitError>)
        requires
            old(driver).wf(),
        ensures
            final(driver).wf(),
            r is Err ==> *final(driver) == *old(driver),
            r matches Err(e) ==> old(driver).submit_error(Request::Sync { fd: self@, data_only: true }) == Some(e),
            r matches Ok(t) ==> submitted(*old(driver), *final(driver), Request::Sync { fd: self@, data_only: true }, t),
            r is Ok <==> old(driver).submit_error(Request::Sync { fd: self@, data_only: true }) is None,
    {
        match driver.submit(Request::Sync { fd: self.fd.raw_fd(), data_only: true }) {
            Ok(t) => Ok(t),
            Err((e, _)) => Err(e),
        }
    }

    /// Closes the file's handle. Where other handles of the descriptor
    /// remain, only the count goes down and `Ok(None)` comes back. Where it
    /// was the last, the descriptor's entry goes and its release is
    /// submitted: `Ok(Some(token))`, whose completion tells when it is done.
    /// Where the release cannot be submitted for want of room, nothing
    /// changes and the file comes back.
    pub fn close(self, driver: &mut Driver) -> (r: Result<Option<usize>, CloseBusy>)
        requires
            old(driver).wf(),
        ensures
            final(driver).wf(),
            r matches Err(b) ==> b.file@ == self@ && *final(driver) == *old(driver)
                && old(driver).fd_table().refs(self@) == 1
                && old(driver).submit_error(Request::Close { fd: self@ }) is Some,
            old(driver).fd_table().refs(self@) != 1 ==> r == Ok::<Option<usize>, CloseBusy>(None)
                && final(driver).fd_table().refs(self@) == after_close(old(driver).fd_table().refs(self@)).0
                && final(driver).slots() == old(driver).slots()
                && final(driver).queue() == old(driver).queue(),
            old(driver).fd_table().refs(self@) == 1 && old(driver).submit_error(Request::Close { fd: self@ }) is None
                ==> (r matches Ok(Some(t)) && final(driver).fd_table().refs(self@) == 0
                && t < old(driver).slots().len() && old(driver).slots()[t as int] is Vacant
                && final(driver).slots() == old(driver).slots().update(t as int, Slot::InFlight { req: Request::Close { fd: self@ }, detached: false })
                && final(driver).queue().drop_last() == old(driver).queue()
                && final(driver).queue().last().token == t),
            forall|other: i32| other != self@ ==> final(driver).fd_table().refs(other) == old(driver).fd_table().refs(other),
    {
        let raw = self.fd.raw_fd();
        if driver.refs(raw) == 1 && !driver.has_room() {
            return Err(CloseBusy { file: self });
        }
        let last = driver.release(self.fd);
        if !last {
            return Ok(None);
        }
        match driver.submit(Request::Close { fd: raw }) {
            Ok(t) => Ok(Some(t)),
            Err(_) => {
                assert(false);
                Ok(None)
            },
        }
    }
}

/// Submits the removal of the file at `path`.
pub fn remove_file(driver: &mut Driver, path: String) -> (r: Result<usize, SubmitError>)
    requires
        old(driver).wf(),
    ensures
        final(driver).wf(),
        r is Err ==> *final(driver) == *old(driver),
        r matches Err(e) ==> old(driver).submit_error(Request::Unlink { path }) == Some(e),
        r matches Ok(t) ==> submitted(*old(driver), *final(driver), Request::Unlink { path }, t),
        r is Ok <==> old(driver).submit_error(Request::Unlink { path }) is None,
{
    match driver.submit(Request::Unlink { path }) {
        Ok(t) => Ok(t),
        Err((e, _)) => Err(e),
    }
}

/// Submits the renaming of `from` to `to`, replacing `to` where it exists.
/// Both are to be on one mounted volume.
pub fn rename(driver: &mut Driver, from: String, to: String) -> (r: Result<usize, SubmitError>)
    requires
        old(driver).wf(),
    ensures
        final(driver).wf(),
        r is Err ==> *final(driver) == *old(driver),
        r matches Err(e) ==> old(driver).submit_error(Request::Rename { from, to }) == Some(e),
        r matches Ok(t) ==> submitted(*old(driver), *final(driver), Request::Rename { from, to }, t),
        r is Ok <==> old(driver).submit_error(Request::Rename { from, to }) is None,
{
    match driver.submit(Request::Rename { from, to }) {
        Ok(t) => Ok(t),
        Err((e, _)) => Err(e),
    }
}

/// What a retry machine hands its caller.
pub enum Step {
    /// Submit this request and resume the machine with its completion.
    Issue(Request),
    /// The loop is over: its outcome and the caller's buffer.
    Finish(Result<(), IoError>, Buffer),
}

/// Where an exact read or full write stands.
pub ghost struct ExactModel {
    pub fd: i32,
    pub pos: nat,
    pub total: nat,
    pub done: nat,
}

impl ExactModel {
    /// In the middle of the loop: bytes are left, and the whole range fits
    /// the file offsets.
    pub open spec fn wf(self) -> bool {
        self.done < self.total && self.pos + self.total <= u64::MAX
    }
}

/// The request for the bytes of `buf` from `done` on, at `pos + done`.
pub open spec fn partial_read(m: ExactModel, req: Request, buf: crate::buf::BufModel) -> bool {
    req matches Request::Read { fd, pos, buf: s } && fd == m.fd && pos == m.pos + m.done
        && s.wf() && s@ == (SliceModel { buf, begin: m.done, end: m.total })
}

/// The write of the bytes of `buf` from `done` on, at `pos + done`.
pub open spec fn partial_write(m: ExactModel, req: Request, buf: crate::buf::BufModel) -> bool {
    req matches Request::Write { fd, pos, buf: s } && fd == m.fd && pos == m.pos + m.done
        && s.wf() && s@ == (SliceModel { buf, begin: m.done, end: m.total })
}

/// An exact read in progress: fills a buffer's whole capacity from a file
/// offset, one partial read at a time.
pub struct ReadExact {
    fd: i32,
    pos: u64,
    total: usize,
    done: usize,
}

/// A full write in progress: writes all of a buffer's initialized bytes at a
/// file offset, one partial write at a time.
pub struct WriteAll {
    fd: i32,
    pos: u64,
    total: usize,
    done: usize,
}

impl View for ReadExact {
    type V = ExactModel;

    closed spec fn view(&self) -> ExactModel {
        ExactModel { fd: self.fd, pos: self.pos as nat, total: self.total as nat, done: self.done as nat }
    }
}

impl View for WriteAll {
    type V = ExactModel;

    closed spec fn view(&self) -> ExactModel {
        ExactModel { fd: self.fd, pos: self.pos as nat, total: self.total as nat, done: self.done as nat }
    }
}

impl ReadExact {
    /// Takes the completion of the last partial read, with the buffer it
    /// gave back, and decides what comes next.
    pub fn resume(&mut self, res: i32, buf: Buffer) -> (r: Step)
        requires
            old(self)@.wf(),
            buf.wf(),
            buf@.total == old(self)@.total,
            res >= 0 ==> res <= old(self)@.total - old(self)@.done,
        ensures
            match exact_step(old(self)@.total, old(self)@.done, res, IoError::UnexpectedEof) {
                Progress::Next { done } => {
                    &&& final(self)@ == (ExactModel { done, ..old(self)@ })
                    &&& final(self)@.wf()
                    &&& r matches Step::Issue(req) && partial_read(final(self)@, req, buf@)
                },
                Progress::Finished(o) => r matches Step::Finish(o2, b) && o2 == o && b@ == buf@,
            },
    {
        if res == 0 {
            return Step::Finish(Err(IoError::UnexpectedEof), buf);
        }
        if res > 0 {
            let n = res as usize;
            if n >= self.total - self.done {
                return Step::Finish(Ok(()), buf);
            }
            self.done = self.done + n;
        } else {
            let code = (0 - (res as i64)) as u32;
            if code != EINTR {
                return Step::Finish(Err(IoError::Os(code)), buf);
            }
        }
        let fd = self.fd;
        let at = self.pos + self.done as u64;
        Step::Issue(Request::Read { fd, pos: at, buf: buf.slice(self.done, self.total) })
    }
}

impl WriteAll {
    /// Takes the completion of the last partial write, with the buffer it
    /// gave back, and decides what comes next.
    pub fn resume(&mut self, res: i32, buf: Buffer) -> (r: Step)
        requires
            old(self)@.wf(),
            buf.wf(),
            buf@.init.len() == old(self)@.total,
            res >= 0 ==> res <= old(self)@.total - old(self)@.done,
        ensures
            match exact_step(old(self)@.total, old(self)@.done, res, IoError::WriteZero) {
                Progress::Next { done } => {
                    &&& final(self)@ == (ExactModel { done, ..old(self)@ })
                    &&& final(self)@.wf()
                    &&& r matches Step::Issue(req) && partial_write(ExactModel { total: buf@.total, ..final(self)@ }, req, buf@)
                },
                Progress::Finished(o) => r matches Step::Finish(o2, b) && o2 == o && b@ == buf@,
            },
    {
        if res == 0 {
            return Step::Finish(Err(IoError::WriteZero), buf);
        }
        if res > 0 {
            let n = res as usize;
            if n >= self.total - self.done {
                return Step::Finish(Ok(()), buf);
            }
            self.done = self.done + n;
        } else {
            let code = (0 - (res as i64)) as u32;
            if code != EINTR {
                return Step::Finish(Err(IoError::Os(code)), buf);
            }
        }
        let fd = self.fd;
        let at = self.pos + self.done as u64;
        let end = buf.bytes_total();
        Step::Issue(Request::Write { fd, pos: at, buf: buf.slice(self.done, end) })
    }
}

/// The smaller of two numbers.
pub open spec fn min_nat(a: nat, b: nat) -> nat {
    if a <= b { a } else { b }
}

/// What a kernel that moves at most `k` bytes a call reads of `file` at the
/// offset `at` when asked for `want` bytes.
pub open spec fn chunk_read(file: Seq<u8>, at: nat, want: nat, k: nat) -> Seq<u8> {
    let stop = min_nat(at + min_nat(want, k), file.len());
    if at <= stop {
        file.subrange(at as int, stop as int)
    } else {
        Seq::empty()
    }
}

/// An exact read of `total` bytes at `pos`, with `done` of them behind it and
/// the buffer's initialized bytes `init`, against a kernel that reads `file`
/// at most `k` bytes a call: each completion's bytes are stored at the start
/// of the window and its count is handed to [`exact_step`]. The outcome and
/// the buffer's initialized bytes at the end.
pub open spec fn run_read(file: Seq<u8>, pos: nat, total: nat, k: nat, done: nat, init: Seq<u8>) -> (Result<(), IoError>, Seq<u8>)
    decreases total - done,
{
    if done >= total {
        (Ok(()), init)
    } else {
        let bytes = chunk_read(file, pos + done, (total - done) as nat, k);
        let next = stored(init, done, bytes);
        match exact_step(total, done, bytes.len() as i32, IoError::UnexpectedEof) {
            Progress::Next { done: d } => if d > done {
                run_read(file, pos, total, k, d, next)
            } else {
                (Err(IoError::UnexpectedEof), next)
            },
            Progress::Finished(o) => (o, next),
        }
    }
}

/// A full write of `data` at `pos` into `file`, with `done` bytes behind it,
/// against a kernel that takes at most `k` bytes a call: each call stores
/// what it took in the file and its count is handed to [`exact_step`]. The
/// outcome and the file's bytes at the end.
pub open spec fn run_write(file: Seq<u8>, pos: nat, data: Seq<u8>, k: nat, done: nat) -> (Result<(), IoError>, Seq<u8>)
    decreases data.len() - done,
{
    if done >= data.len() {
        (Ok(()), file)
    } else {
        let n = min_nat((data.len() - done) as nat, k);
        let next = stored(file, pos + done, data.subrange(done as int, (done + n) as int));
        match exact_step(data.len(), done, n as i32, IoError::WriteZero) {
            Progress::Next { done: d } => if d > done {
                run_write(next, pos, data, k, d)
            } else {
                (Err(IoError::WriteZero), next)
            },
            Progress::Finished(o) => (o, next),
        }
    }
}

proof fn lemma_read_from(file: Seq<u8>, pos: nat, total: nat, k: nat, done: nat, init: Seq<u8>)
    requires
        0 < k <= i32::MAX,
        pos + total <= file.len(),
        done <= init.len() <= total,
        init.subrange(0, done as int) == file.subrange(pos as int, (pos + done) as int),
    ensures
        run_read(file, pos, total, k, done, init) == (Ok::<(), IoError>(()), file.subrange(pos as int, (pos + total) as int)),
    decreases total - done,
{
    if done >= total {
        assert(init =~= init.subrange(0, done as int));
    } else {
        let bytes = chunk_read(file, pos + done, (total - done) as nat, k);
        let n = min_nat((total - done) as nat, k);
        assert(bytes =~= file.subrange((pos + done) as int, (pos + done + n) as int));
        let next = stored(init, done, bytes);
        if done + n >= total {
            assert(next =~= file.subrange(pos as int, (pos + total) as int));
        } else {
            assert(next.subrange(0, (done + n) as int) =~= file.subrange(pos as int, (pos + done + n) as int));
            lemma_read_from(file, pos, total, k, done + n, next);
        }
    }
}

/// An exact read at `pos` of a buffer with capacity `total` succeeds, and
/// leaves the buffer initialized to its whole capacity with the file's bytes
/// from `pos` on, wherever the file holds at least `pos + total` bytes,
/// however few bytes the kernel reads a call.
pub proof fn lemma_read_exact_fills(file: Seq<u8>, pos: nat, total: nat, k: nat, init: Seq<u8>)
    requires
        0 < k <= i32::MAX,
        pos + total <= file.len(),
        init.len() <= total,
    ensures
        run_read(file, pos, total, k, 0, init).0 == Ok::<(), IoError>(()),
        run_read(file, pos, total, k, 0, init).1 == file.subrange(pos as int, (pos + total) as int),
        run_read(file, pos, total, k, 0, init).1.len() == total,
{
    assert(init.subrange(0, 0) =~= file.subrange(pos as int, pos as int));
    lemma_read_from(file, pos, total, k, 0, init);
}

proof fn lemma_write_from(file: Seq<u8>, pos: nat, data: Seq<u8>, k: nat, done: nat)
    requires
        0 < k <= i32::MAX,
        done <= data.len(),
        pos + done <= file.len(),
        file.subrange(pos as int, (pos + done) as int) == data.subrange(0, done as int),
    ensures
        run_write(file, pos, data, k, done).0 == Ok::<(), IoError>(()),
        pos + data.len() <= run_write(file, pos, data, k, done).1.len(),
        run_write(file, pos, data, k, done).1.subrange(pos as int, (pos + data.len()) as int) == data,
        run_write(file, pos, data, k, done).1.subrange(0, pos as int) == file.subrange(0, pos as int),
    decreases data.len() - done,
{
    if done >= data.len() {
        assert(data.subrange(0, done as int) =~= data);
    } else {
        let n = min_nat((data.len() - done) as nat, k);
        let bytes = data.subrange(done as int, (done + n) as int);
        let next = stored(file, pos + done, bytes);
        assert(next.subrange(pos as int, (pos + done + n) as int) =~= data.subrange(0, (done + n) as int));
        assert(next.subrange(0, pos as int) =~= file.subrange(0, pos as int));
        if done + n < data.len() {
            lemma_write_from(next, pos, data, k, done + n);
        } else {
            assert(data.subrange(0, (done + n) as int) =~= data);
        }
    }
}

/// A full write of `data` at `pos` succeeds against a kernel that takes
/// only `k` bytes a call, however small `k` is: every byte ends up in the
/// file at its place, and the bytes before `pos` are kept.
pub proof fn lemma_write_all_short_writes(file: Seq<u8>, pos: nat, data: Seq<u8>, k: nat)
    requires
        0 < k <= i32::MAX,
        pos <= file.len(),
    ensures
        run_write(file, pos, data, k, 0).0 == Ok::<(), IoError>(()),
        pos + data.len() <= run_write(file, pos, data, k, 0).1.len(),
        run_write(file, pos, data, k, 0).1.subrange(pos as int, (pos + data.len()) as int) == data,
        run_write(file, pos, data, k, 0).1.subrange(0, pos as int) == file.subrange(0, pos as int),
{
    assert(file.subrange(pos as int, pos as int) =~= data.subrange(0, 0));
    lemma_write_from(file, pos, data, k, 0);
}

/// A full write of `data` at offset zero followed by an exact read of as
/// many bytes at offset zero reads back `data`, whatever the kernel's chunk
/// sizes for the write (`kw`) and the read (`kr`).
pub proof fn lemma_write_then_read(file: Seq<u8>, data: Seq<u8>, kw: nat, kr: nat, init: Seq<u8>)
    requires
        0 < kw <= i32::MAX,
        0 < kr <= i32::MAX,
        init.len() <= data.len(),
    ensures
        run_write(file, 0, data, kw, 0).0 == Ok::<(), IoError>(()),
        run_read(run_write(file, 0, data, kw, 0).1, 0, data.len(), kr, 0, init)
            == (Ok::<(), IoError>(()), data),
{
    lemma_write_all_short_writes(file, 0, data, kw);
    let written = run_write(file, 0, data, kw, 0).1;
    lemma_read_exact_fills(written, 0, data.len(), kr, init);
}

} // verus!
