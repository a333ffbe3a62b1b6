use std::collections::HashMap;

use uring_fs::buf::{gather, scatter, total_capacity, Buffer};
use uring_fs::driver::{CompletionError, Driver, EntryOp, Request, SubmitError};
use uring_fs::file::{io_result, remove_file, rename, unit_result, File, IoError, Step};

/// An in-memory kernel: files by path, descriptors by number, and a limit on
/// the bytes one read or write moves.
struct Kernel {
    files: HashMap<String, Vec<u8>>,
    open: HashMap<i32, String>,
    next_fd: i32,
    chunk: usize,
    interrupts: usize,
    calls: usize,
}

impl Kernel {
    fn new(chunk: usize) -> Kernel {
        Kernel { files: HashMap::new(), open: HashMap::new(), next_fd: 3, chunk, interrupts: 0, calls: 0 }
    }

    fn with_file(chunk: usize, fd: i32, bytes: Vec<u8>) -> Kernel {
        let mut k = Kernel::new(chunk);
        k.files.insert("f".to_string(), bytes);
        k.open.insert(fd, "f".to_string());
        k
    }

    fn exec(&mut self, op: &EntryOp) -> (i32, Vec<u8>) {
        self.calls += 1;
        if self.interrupts > 0 && matches!(op, EntryOp::Read { .. } | EntryOp::Write { .. }) {
            self.interrupts -= 1;
            return (-4, Vec::new());
        }
        match op {
            EntryOp::Read { fd, pos, len } => {
                let file = &self.files[&self.open[fd]];
                let start = (*pos as usize).min(file.len());
                let stop = (start + (*len).min(self.chunk)).min(file.len());
                let data = file[start..stop].to_vec();
                (data.len() as i32, data)
            }
            EntryOp::Write { fd, pos, data } => {
                let n = data.len().min(self.chunk);
                let file = self.files.get_mut(&self.open[fd]).unwrap();
                let at = *pos as usize;
                if file.len() < at + n {
                    file.resize(at + n, 0);
                }
                file[at..at + n].copy_from_slice(&data[..n]);
                (n as i32, Vec::new())
            }
            EntryOp::Readv { fd, pos, len } => {
                let file = &self.files[&self.open[fd]];
                let start = (*pos as usize).min(file.len());
                let stop = (start + (*len).min(self.chunk)).min(file.len());
                let data = file[start..stop].to_vec();
                (data.len() as i32, data)
            }
            EntryOp::Writev { fd, pos, data } => {
                let n = data.len().min(self.chunk);
                let file = self.files.get_mut(&self.open[fd]).unwrap();
                let at = *pos as usize;
                if file.len() < at + n {
                    file.resize(at + n, 0);
                }
                file[at..at + n].copy_from_slice(&data[..n]);
                (n as i32, Vec::new())
            }
            EntryOp::Sync { .. } => (0, Vec::new()),
            EntryOp::Open { path, options } => {
                if options.create {
                    if options.truncate || !self.files.contains_key(path) {
                        self.files.insert(path.clone(), Vec::new());
                    }
                } else if !self.files.contains_key(path) {
                    return (-2, Vec::new());
                }
                let fd = self.next_fd;
                self.next_fd += 1;
                self.open.insert(fd, path.clone());
                (fd, Vec::new())
            }
            EntryOp::Close { fd } => {
                self.open.remove(fd);
                (0, Vec::new())
            }
            EntryOp::Unlink { path } => match self.files.remove(path) {
                Some(_) => (0, Vec::new()),
                None => (-2, Vec::new()),
            },
            EntryOp::Rename { from, to } => match self.files.remove(from) {
                Some(b) => {
                    self.files.insert(to.clone(), b);
                    (0, Vec::new())
                }
                None => (-2, Vec::new()),
            },
        }
    }

    fn run(&mut self, d: &mut Driver) {
        while let Some(e) = d.pop_entry() {
            let (res, data) = self.exec(&e.op);
            assert_eq!(d.complete(e.token, res, data), Ok(()));
        }
    }
}

fn submitted<T>(r: Result<usize, T>) -> usize {
    match r {
        Ok(t) => t,
        Err(_) => panic!("submission refused"),
    }
}

fn wait(d: &mut Driver, k: &mut Kernel, t: usize) -> (i32, Request) {
    k.run(d);
    d.poll(t).expect("completed")
}

fn drive(d: &mut Driver, k: &mut Kernel, mut step: Step, mut resume: impl FnMut(i32, Buffer) -> Step) -> (Result<(), IoError>, Buffer) {
    loop {
        match step {
            Step::Finish(o, b) => return (o, b),
            Step::Issue(req) => {
                let t = submitted(d.submit(req));
                let (res, req) = wait(d, k, t);
                step = resume(res, req.into_buffer().expect("a buffer"));
            }
        }
    }
}

fn open_file(d: &mut Driver, raw: i32) -> File {
    File::adopt(d, raw).expect("fresh descriptor")
}

#[test]
fn read_exact_fills_buffer() {
    let bytes: Vec<u8> = (0..100u8).collect();
    let mut k = Kernel::with_file(7, 5, bytes.clone());
    let mut d = Driver::new(4, 4);
    let f = open_file(&mut d, 5);
    let (mut m, step) = f.read_exact_at(Buffer::with_capacity(40), 30);
    let (o, b) = drive(&mut d, &mut k, step, |res, buf| m.resume(res, buf));
    assert_eq!(o, Ok(()));
    assert_eq!(b.bytes_init(), 40);
    assert_eq!(b.as_slice(), &bytes[30..70]);
    assert_eq!(k.calls, 6);
}

#[test]
fn overflowing_offset_is_invalid_input() {
    let mut d = Driver::new(4, 4);
    let f = open_file(&mut d, 5);
    let (_m, step) = f.read_exact_at(Buffer::with_capacity(10), u64::MAX - 3);
    match step {
        Step::Finish(o, b) => {
            assert_eq!(o, Err(IoError::InvalidInput));
            assert_eq!(b.bytes_total(), 10);
        }
        Step::Issue(_) => panic!("a request was issued"),
    }
    let (_m, step) = f.write_all_at(Buffer::from_vec(vec![1; 10]), u64::MAX - 3);
    assert!(matches!(step, Step::Finish(Err(IoError::InvalidInput), _)));
    assert_eq!(d.queued_count(), 0);
}

#[test]
fn write_all_with_short_writes() {
    let mut k = Kernel::with_file(3, 5, Vec::new());
    let mut d = Driver::new(4, 4);
    let f = open_file(&mut d, 5);
    let data: Vec<u8> = b"0123456789".to_vec();
    let (mut m, step) = f.write_all_at(Buffer::from_vec(data.clone()), 0);
    let (o, b) = drive(&mut d, &mut k, step, |res, buf| m.resume(res, buf));
    assert_eq!(o, Ok(()));
    assert_eq!(b.as_slice(), &data[..]);
    assert_eq!(k.files["f"], data);
    assert_eq!(k.calls, 4);
}

#[test]
fn write_then_read_round_trip() {
    let mut k = Kernel::with_file(4, 5, Vec::new());
    let mut d = Driver::new(2, 2);
    let f = open_file(&mut d, 5);
    let data: Vec<u8> = (0..50u8).map(|x| x * 3).collect();
    let (mut w, step) = f.write_all_at(Buffer::from_vec(data.clone()), 0);
    let (o, _) = drive(&mut d, &mut k, step, |res, buf| w.resume(res, buf));
    assert_eq!(o, Ok(()));
    k.chunk = 9;
    let (mut r, step) = f.read_exact_at(Buffer::with_capacity(data.len()), 0);
    let (o, b) = drive(&mut d, &mut k, step, |res, buf| r.resume(res, buf));
    assert_eq!(o, Ok(()));
    assert_eq!(b.into_vec(), data);
}

#[test]
fn detached_read_keeps_its_buffer_until_completion() {
    let mut k = Kernel::with_file(64, 5, b"abcdefgh".to_vec());
    let mut d = Driver::new(4, 2);
    let f = open_file(&mut d, 5);
    let first = submitted(f.read_at(&mut d, Buffer::with_capacity(4), 0));
    let entry = d.pop_entry().expect("an entry");
    d.detach(first);
    // The other slot is the only one free: the detached one is still taken.
    let second = submitted(f.read_at(&mut d, Buffer::from_vec(b"zzzz".to_vec()), 4));
    assert_ne!(first, second);
    let third = f.read_at(&mut d, Buffer::with_capacity(1), 0);
    assert!(matches!(third, Err((SubmitError::Busy, _))));
    // The late completion of the detached read lands in its own buffer and is dropped.
    let (res, data) = k.exec(&entry.op);
    assert_eq!(d.complete(entry.token, res, data), Ok(()));
    assert!(d.poll(first).is_none());
    let (res, req) = wait(&mut d, &mut k, second);
    assert_eq!(io_result(res), Ok(4));
    assert_eq!(req.into_buffer().unwrap().as_slice(), b"efgh");
    // The freed slot serves again.
    let again = submitted(f.read_at(&mut d, Buffer::with_capacity(2), 0));
    let (res, req) = wait(&mut d, &mut k, again);
    assert_eq!(res, 2);
    assert_eq!(req.into_buffer().unwrap().as_slice(), b"ab");
}

#[test]
fn shared_descriptor_released_after_both_close() {
    let mut k = Kernel::with_file(64, 5, Vec::new());
    let mut d = Driver::new(4, 4);
    let fd = d.adopt(5).expect("fresh");
    let other = d.share(&fd).expect("shared");
    let a = File::from_shared_fd(fd);
    let b = File::from_shared_fd(other);
    assert_eq!(d.refs(5), 2);
    assert!(matches!(a.close(&mut d), Ok(None)));
    assert!(d.is_open(5));
    assert_eq!(d.queued_count(), 0);
    let t = match b.close(&mut d) {
        Ok(Some(t)) => t,
        _ => panic!("the last close submits the release"),
    };
    assert!(!d.is_open(5));
    let (res, _) = wait(&mut d, &mut k, t);
    assert_eq!(unit_result(res), Ok(()));
    assert!(!k.open.contains_key(&5));
}

#[test]
fn create_write_sync_close_reopen_read() {
    let mut k = Kernel::new(64);
    let mut d = Driver::new(8, 8);
    let t = submitted(File::create(&mut d, "t.tmp".to_string()));
    let (res, _) = wait(&mut d, &mut k, t);
    let f = File::opened(&mut d, res).expect("created");
    let t = submitted(f.write_at(&mut d, Buffer::from_vec(b"hello world".to_vec()), 0));
    let (res, req) = wait(&mut d, &mut k, t);
    assert_eq!(io_result(res), Ok(11));
    assert_eq!(req.into_buffer().unwrap().as_slice(), b"hello world");
    let t = submitted(f.sync_all(&mut d));
    let (res, _) = wait(&mut d, &mut k, t);
    assert_eq!(unit_result(res), Ok(()));
    let t = match f.close(&mut d) {
        Ok(Some(t)) => t,
        _ => panic!("close submits the release"),
    };
    let (res, _) = wait(&mut d, &mut k, t);
    assert_eq!(unit_result(res), Ok(()));
    let t = submitted(File::open(&mut d, "t.tmp".to_string()));
    let (res, _) = wait(&mut d, &mut k, t);
    let f = File::opened(&mut d, res).expect("opened");
    let t = submitted(f.read_at(&mut d, Buffer::with_capacity(11), 0));
    let (res, req) = wait(&mut d, &mut k, t);
    assert_eq!(io_result(res), Ok(11));
    assert_eq!(req.into_buffer().unwrap().as_slice(), b"hello world");
}

#[test]
fn read_exact_hits_end_of_file() {
    let mut k = Kernel::with_file(4, 5, b"abcdef".to_vec());
    let mut d = Driver::new(4, 4);
    let f = open_file(&mut d, 5);
    let (mut m, step) = f.read_exact_at(Buffer::with_capacity(10), 0);
    let (o, b) = drive(&mut d, &mut k, step, |res, buf| m.resume(res, buf));
    assert_eq!(o, Err(IoError::UnexpectedEof));
    assert_eq!(b.as_slice(), b"abcdef");
    assert_eq!(b.bytes_total(), 10);
}

#[test]
fn interrupted_calls_are_retried() {
    let mut k = Kernel::with_file(3, 5, b"abcdefgh".to_vec());
    k.interrupts = 2;
    let mut d = Driver::new(4, 4);
    let f = open_file(&mut d, 5);
    let (mut m, step) = f.read_exact_at(Buffer::with_capacity(8), 0);
    let (o, b) = drive(&mut d, &mut k, step, |res, buf| m.resume(res, buf));
    assert_eq!(o, Ok(()));
    assert_eq!(b.as_slice(), b"abcdefgh");
    assert_eq!(k.calls, 5);
    k.interrupts = 1;
    let (mut w, step) = f.write_all_at(Buffer::from_vec(b"xyz".to_vec()), 8);
    let (o, _) = drive(&mut d, &mut k, step, |res, buf| w.resume(res, buf));
    assert_eq!(o, Ok(()));
    assert_eq!(k.files["f"], b"abcdefghxyz".to_vec());
}

#[test]
fn write_zero_and_kernel_errors_end_the_loop() {
    let mut d = Driver::new(4, 4);
    let f = open_file(&mut d, 5);
    let (mut w, step) = f.write_all_at(Buffer::from_vec(b"abc".to_vec()), 0);
    let buf = match step {
        Step::Issue(req) => req.into_buffer().unwrap(),
        Step::Finish(..) => panic!("a write was due"),
    };
    let buf = match w.resume(2, buf) {
        Step::Issue(Request::Write { pos, buf, .. }) => {
            assert_eq!(pos, 2);
            assert_eq!(buf.begin(), 2);
            assert_eq!(buf.bytes_init(), 1);
            buf.into_inner()
        }
        _ => panic!("the rest was due"),
    };
    assert!(matches!(w.resume(0, buf), Step::Finish(Err(IoError::WriteZero), _)));
    let (mut r, step) = f.read_exact_at(Buffer::with_capacity(3), 0);
    let buf = match step {
        Step::Issue(req) => req.into_buffer().unwrap(),
        Step::Finish(..) => panic!("a read was due"),
    };
    assert!(matches!(r.resume(-5, buf), Step::Finish(Err(IoError::Os(5)), _)));
}

#[test]
fn empty_buffers_finish_at_once() {
    let mut d = Driver::new(4, 4);
    let f = open_file(&mut d, 5);
    let (_m, step) = f.read_exact_at(Buffer::with_capacity(0), 7);
    assert!(matches!(step, Step::Finish(Ok(()), _)));
    let (_m, step) = f.write_all_at(Buffer::with_capacity(16), u64::MAX);
    assert!(matches!(step, Step::Finish(Ok(()), _)));
    assert_eq!(d.queued_count(), 0);
}

#[test]
fn submission_backpressure_and_refusals() {
    let mut d = Driver::new(1, 4);
    let f = open_file(&mut d, 5);
    let _t = submitted(f.sync_data(&mut d));
    assert_eq!(f.sync_all(&mut d), Err(SubmitError::Busy));
    assert!(d.pop_entry().is_some());
    assert!(f.sync_all(&mut d).is_ok());
    let mut d = Driver::new(4, 4);
    let g = File::from_shared_fd(d.adopt(9).unwrap());
    let h = File::adopt(&mut d, 9);
    assert!(h.is_none());
    assert!(matches!(g.close(&mut d), Ok(Some(_))));
    let stale = open_file(&mut d, 9);
    assert!(matches!(stale.close(&mut d), Ok(Some(_))));
    let adopted = File::from_shared_fd(d.adopt(11).unwrap());
    let t = adopted.as_raw_fd();
    assert_eq!(t, 11);
    let r = d.submit(Request::Read { fd: 12, pos: 0, buf: Buffer::with_capacity(4).slice_full() });
    assert!(matches!(r, Err((SubmitError::Closed, _))));
    let r = d.submit(Request::Read { fd: 11, pos: 0, buf: Buffer::with_capacity(4).slice(2, 4) });
    assert!(matches!(r, Err((SubmitError::Invalid, _))));
}

#[test]
fn close_waits_for_room() {
    let mut d = Driver::new(1, 4);
    let f = open_file(&mut d, 5);
    let _t = submitted(f.sync_all(&mut d));
    let f = match f.close(&mut d) {
        Err(busy) => busy.file,
        Ok(_) => panic!("no room for the release"),
    };
    assert!(d.is_open(5));
    d.pop_entry();
    assert!(matches!(f.close(&mut d), Ok(Some(_))));
}

#[test]
fn completions_are_checked() {
    let mut d = Driver::new(4, 4);
    let f = open_file(&mut d, 5);
    let t = submitted(f.read_at(&mut d, Buffer::with_capacity(4), 0));
    assert_eq!(d.complete(t, 0, Vec::new()), Err(CompletionError::UnknownToken));
    d.pop_entry();
    assert_eq!(d.complete(t, 3, vec![1, 2]), Err(CompletionError::Malformed));
    assert_eq!(d.complete(t, 5, vec![1, 2, 3, 4, 5]), Err(CompletionError::Malformed));
    assert_eq!(d.complete(3, 0, Vec::new()), Err(CompletionError::UnknownToken));
    assert_eq!(d.complete(t, 2, vec![1, 2]), Ok(()));
    assert_eq!(d.complete(t, 2, vec![1, 2]), Err(CompletionError::UnknownToken));
    let (res, req) = d.poll(t).unwrap();
    assert_eq!(res, 2);
    assert_eq!(req.into_buffer().unwrap().as_slice(), &[1, 2]);
    assert!(d.poll(t).is_none());
}

#[test]
fn store_keeps_bytes_past_the_window() {
    let mut s = Buffer::from_vec(b"abcdef".to_vec()).slice(2, 6);
    s.store(&b"XY".to_vec());
    assert_eq!(s.into_inner().as_slice(), b"abXYef");
    let mut s = Buffer::from_vec(b"abc".to_vec()).slice(3, 3);
    s.store(&Vec::new());
    assert_eq!(s.into_inner().bytes_init(), 3);
    let mut w = Buffer::with_capacity(6).slice(0, 6);
    w.store(&b"abcd".to_vec());
    let full = w.into_inner();
    let window = full.slice(1, 3);
    assert_eq!(window.init_bytes(), b"bc".to_vec());
    assert_eq!(window.bytes_total(), 2);
}

#[test]
fn standalone_remove_and_rename() {
    let mut k = Kernel::new(64);
    k.files.insert("a".to_string(), b"x".to_vec());
    let mut d = Driver::new(4, 4);
    let t = submitted(rename(&mut d, "a".to_string(), "b".to_string()));
    let (res, _) = wait(&mut d, &mut k, t);
    assert_eq!(unit_result(res), Ok(()));
    assert!(k.files.contains_key("b"));
    let t = submitted(remove_file(&mut d, "b".to_string()));
    let (res, _) = wait(&mut d, &mut k, t);
    assert_eq!(unit_result(res), Ok(()));
    let t = submitted(remove_file(&mut d, "b".to_string()));
    let (res, _) = wait(&mut d, &mut k, t);
    assert_eq!(unit_result(res), Err(IoError::Os(2)));
    let t = submitted(File::open(&mut d, "missing".to_string()));
    let (res, _) = wait(&mut d, &mut k, t);
    assert!(matches!(File::opened(&mut d, res), Err(IoError::Os(2))));
}

#[test]
fn vectored_read_fills_buffers_in_turn() {
    let mut k = Kernel::with_file(64, 5, b"abcdefghij".to_vec());
    let mut d = Driver::new(4, 4);
    let f = open_file(&mut d, 5);
    let bufs = vec![Buffer::with_capacity(3), Buffer::with_capacity(4)];
    let t = submitted(f.readv_at(&mut d, bufs, 1));
    let (res, req) = wait(&mut d, &mut k, t);
    assert_eq!(io_result(res), Ok(7));
    let bufs = req.into_buffers().unwrap();
    assert_eq!(bufs[0].as_slice(), b"bcd");
    assert_eq!(bufs[1].as_slice(), b"efgh");
    let t = submitted(f.readv_at(&mut d, bufs, 7));
    let (res, req) = wait(&mut d, &mut k, t);
    assert_eq!(res, 3);
    let bufs = req.into_buffers().unwrap();
    assert_eq!(bufs[0].as_slice(), b"hij");
    assert_eq!(bufs[1].as_slice(), b"efgh");
}

#[test]
fn vectored_write_sends_buffers_in_order() {
    let mut k = Kernel::with_file(64, 5, Vec::new());
    let mut d = Driver::new(4, 4);
    let f = open_file(&mut d, 5);
    let bufs = vec![Buffer::from_vec(b"some".to_vec()), Buffer::from_vec(b" bytes".to_vec())];
    let t = submitted(f.writev_at(&mut d, bufs, 0));
    let (res, req) = wait(&mut d, &mut k, t);
    assert_eq!(io_result(res), Ok(10));
    assert_eq!(req.into_buffers().unwrap().len(), 2);
    assert_eq!(k.files["f"], b"some bytes".to_vec());
}

#[test]
fn vectored_read_capacity_must_fit() {
    let mut d = Driver::new(4, 4);
    let f = open_file(&mut d, 5);
    let bufs = vec![Buffer::with_capacity(usize::MAX), Buffer::with_capacity(1)];
    assert_eq!(total_capacity(&bufs), None);
    match f.readv_at(&mut d, bufs, 0) {
        Err((SubmitError::Invalid, back)) => assert_eq!(back.len(), 2),
        _ => panic!("the capacities overflow"),
    }
}

#[test]
fn scatter_and_gather() {
    let bufs = vec![Buffer::from_vec(b"xyzw".to_vec()), Buffer::with_capacity(2), Buffer::with_capacity(5)];
    assert_eq!(total_capacity(&bufs), Some(11));
    assert_eq!(gather(&bufs), b"xyzw".to_vec());
    let out = scatter(bufs, &b"abcde".to_vec());
    assert_eq!(out[0].as_slice(), b"abcd");
    assert_eq!(out[1].as_slice(), b"e");
    assert_eq!(out[2].bytes_init(), 0);
    assert_eq!(gather(&out), b"abcde".to_vec());
    let out = scatter(out, &b"AB".to_vec());
    assert_eq!(out[0].as_slice(), b"ABcd");
}

#[test]
fn detaching_a_completed_request_frees_its_slot() {
    let mut k = Kernel::with_file(64, 5, b"abc".to_vec());
    let mut d = Driver::new(2, 1);
    let f = open_file(&mut d, 5);
    let t = submitted(f.read_at(&mut d, Buffer::with_capacity(3), 0));
    k.run(&mut d);
    d.detach(t);
    assert!(d.poll(t).is_none());
    let again = submitted(f.read_at(&mut d, Buffer::with_capacity(1), 2));
    assert_eq!(again, t);
    let (res, req) = wait(&mut d, &mut k, again);
    assert_eq!(res, 1);
    assert_eq!(req.into_buffer().unwrap().as_slice(), b"c");
}
