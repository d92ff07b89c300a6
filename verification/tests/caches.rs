use crossbeam_channel::{Receiver, TryRecvError, TrySendError};
use roracache::attr::{FileKind, Metadata};
use roracache::dingus::{add_lookup, Dingus, LOOKUP_EXPIRE_TIME, TIME_TO_LIVE_SECS};
use roracache::errno::Errno;
use roracache::file::{BUFFER_AHEAD, READ_SIZE};
use roracache::fs::{expect_answer, rechecked, LookupStep, OpendirStep, ReadlinkStep, Recheck, FS};
use roracache::handles::{ReadStep, Reading};
use roracache::request::{request_channel, Message, Request};
use roracache::turn::Turn;
use roracache::worker::{DirEvent, Polled, ServiceJob, Work};

type Caches = Dingus<u32>;

fn metadata(size: u64) -> Metadata {
    Metadata {
        size,
        atime: 1,
        atime_nsec: 0,
        mtime: 2,
        mtime_nsec: 0,
        ctime: 3,
        ctime_nsec: 0,
        created: None,
        is_symlink: false,
        is_dir: false,
        is_file: true,
        mode: 0o644,
    }
}

fn directory() -> Metadata {
    Metadata { is_dir: true, is_file: false, mode: 0o755, ..metadata(4096) }
}

fn link() -> Metadata {
    Metadata { is_symlink: true, is_file: false, ..metadata(5) }
}

/// Caches with the root, a file of 200 bytes, a directory and a link looked up.
fn caches() -> Caches {
    let mut dingus: Caches = Dingus::new();
    assert_eq!(add_lookup(&directory(), b".", &mut dingus, 10, 20, 0), 1);
    assert_eq!(add_lookup(&metadata(200), b"./file", &mut dingus, 10, 20, 0), 2);
    assert_eq!(add_lookup(&directory(), b"./dir", &mut dingus, 10, 20, 0), 3);
    assert_eq!(add_lookup(&link(), b"./link", &mut dingus, 10, 20, 0), 4);
    dingus
}

fn source(offset: u64, amount: usize) -> Vec<u8> {
    (offset..offset + amount as u64).map(|i| (i % 251) as u8).collect()
}

fn lookup_path(message: &Message) -> Vec<u8> {
    match &message.0 {
        Request::Lookup(path) => path.clone(),
        _ => panic!("not a lookup"),
    }
}

fn kernel_side() -> (FS, Receiver<Message>) {
    let (fs, rx) = FS::new(b"/src".to_vec());
    let first = rx.try_recv().unwrap();
    assert_eq!(lookup_path(&first), b".".to_vec());
    assert!(first.1.is_none());
    assert!(rx.try_recv().is_err());
    (fs, rx)
}

#[test]
fn time_constants() {
    assert_eq!(TIME_TO_LIVE_SECS, 10);
    assert_eq!(LOOKUP_EXPIRE_TIME, 600 * 1_000_000_000);
}

#[test]
fn inodes_are_sequential_from_the_root() {
    let mut dingus = caches();
    assert_eq!(dingus.next_inode, 5);
    assert_eq!(add_lookup(&metadata(1), b".//file/", &mut dingus, 0, 0, 1), 2);
    assert_eq!(add_lookup(&metadata(1), b"./other", &mut dingus, 0, 0, 1), 5);
    assert_eq!(dingus.path_of(1).unwrap(), &b".".to_vec());
    assert_eq!(dingus.path_of(5).unwrap(), &b"./other".to_vec());
    assert!(dingus.path_of(6).is_none());
    assert!(dingus.can_number(b"./new"));
}

#[test]
fn generations_tell_changes() {
    let mut dingus = caches();
    assert_eq!(dingus.lookups.get(b"./file").unwrap().generation, 1);
    add_lookup(&metadata(200), b"./file", &mut dingus, 10, 20, 5);
    assert_eq!(dingus.lookups.get(b"./file").unwrap().generation, 1);
    add_lookup(&metadata(201), b"./file", &mut dingus, 10, 20, 6);
    assert_eq!(dingus.lookups.get(b"./file").unwrap().generation, 2);
    add_lookup(&metadata(201), b"./file", &mut dingus, 10, 20, 7);
    assert_eq!(dingus.lookups.get(b"./file").unwrap().generation, 1);
    assert_eq!(dingus.lookups.get(b"./file").unwrap().expires, 7 + LOOKUP_EXPIRE_TIME);
}

#[test]
fn attributes_by_inode() {
    let dingus = caches();
    let attr = dingus.getattr(2).unwrap();
    assert_eq!((attr.ino, attr.size, attr.uid, attr.gid), (2, 200, 10, 20));
    assert_eq!(dingus.getattr(1).unwrap().ino, 1);
    assert_eq!(dingus.getattr(9), Err(Errno::NoEntry));
    let fresh: Caches = Dingus::new();
    assert_eq!(fresh.getattr(1), Err(Errno::NoEntry));
}

#[test]
fn lookups_are_answered_from_memory() {
    let dingus = caches();
    let (mut fs, rx) = kernel_side();
    match fs.lookup(&dingus, 1, b"file", LOOKUP_EXPIRE_TIME).unwrap() {
        LookupStep::Entry(attr, generation, recheck) => {
            assert_eq!((attr.ino, generation, recheck), (2, 1, Recheck::NotDue))
        },
        _ => panic!("not an entry"),
    }
    assert!(rx.try_recv().is_err());
    match fs.lookup(&dingus, 9, b"file", 0).unwrap() {
        LookupStep::Fail(errno) => assert_eq!(errno, Errno::NoEntry),
        _ => panic!("not a failure"),
    }
    assert!(rx.try_recv().is_err());
}

#[test]
fn stale_lookups_are_answered_and_rechecked() {
    let dingus = caches();
    let (mut fs, rx) = kernel_side();
    match fs.lookup(&dingus, 1, b"file", LOOKUP_EXPIRE_TIME + 1).unwrap() {
        LookupStep::Entry(attr, generation, recheck) => {
            assert_eq!((attr.size, generation, recheck), (200, 1, Recheck::Asked))
        },
        _ => panic!("not an entry"),
    }
    let message = rx.try_recv().unwrap();
    assert_eq!(lookup_path(&message), b"./file".to_vec());
    assert!(message.1.is_none());
}

#[test]
fn unknown_paths_are_asked_for() {
    let mut dingus = caches();
    let (mut fs, rx) = kernel_side();
    let (path, answer) = match fs.lookup(&dingus, 3, b"new", 0).unwrap() {
        LookupStep::Wait(path, answer) => (path, answer),
        _ => panic!("not a wait"),
    };
    assert_eq!(path, b"./dir/new".to_vec());
    let (request, notifier) = rx.try_recv().unwrap();
    assert!(answer.try_recv() == Err(TryRecvError::Empty));
    drop(notifier.unwrap());
    assert!(answer.try_recv() == Err(TryRecvError::Disconnected));
    assert_eq!(dingus.finish_wait(&path, Ok(())), Err(Errno::NoEntry));
    let asked = match dingus.on_request(request) {
        Work::Stat(path) => path,
        _ => panic!("not a stat"),
    };
    let reply = dingus.finish_lookup(&asked, Ok(metadata(3)), 10, 20, 4);
    let (attr, generation) = dingus.finish_wait(&path, reply).unwrap();
    assert_eq!((attr.ino, attr.size, generation), (5, 3, 1));
}

#[test]
fn failed_lookups_are_not_remembered() {
    let mut dingus = caches();
    let reply = dingus.finish_lookup(b"./gone", Err(Some(2)), 10, 20, 4);
    assert_eq!(reply, Err(Errno::Os(2)));
    assert_eq!(dingus.next_inode, 5);
    assert!(dingus.lookups.get(b"./gone").is_none());
    assert_eq!(dingus.finish_wait(b"./gone", reply), Err(Errno::Os(2)));
    assert_eq!(dingus.finish_lookup(b"./gone", Err(None), 10, 20, 4), Err(Errno::Io));
}

#[test]
fn a_worker_that_is_gone_is_noticed() {
    let mut dingus = caches();
    let (mut fs, rx) = FS::new(b"/src".to_vec());
    drop(rx);
    assert!(fs.lookup(&dingus, 1, b"new", 0).is_err());
    for (now, expected) in [(u64::MAX, Recheck::Gone), (0, Recheck::NotDue)] {
        match fs.lookup(&dingus, 1, b"file", now).unwrap() {
            LookupStep::Entry(attr, generation, recheck) => {
                assert_eq!((attr.ino, generation, recheck), (2, 1, expected))
            },
            _ => panic!("not an entry"),
        }
    }
    assert!(fs.opendir(&dingus, 1, 0).is_err());
    let mut scan = dingus.begin_readdir(1).unwrap_or_else(|errno| panic!("{:?}", errno));
    dingus.on_dir_event(&mut scan, DirEvent::End, 0, 0, 6);
    assert!(matches!(
        fs.opendir(&dingus, 1, u64::MAX),
        Ok(OpendirStep::Opened(Recheck::Gone))
    ));
    let fh = open_file(&mut dingus, 10);
    assert!(fs.release(&mut dingus, fh).is_err());
    assert!(dingus.open_files[fh as usize].is_none());
    assert!(fs.bump().is_err());
}

#[test]
fn rechecks_tell_what_became_of_them() {
    let (mut tx, rx) = request_channel();
    assert_eq!(rechecked(Request::Readdir(1).send_async(&mut tx)), Recheck::Asked);
    drop(rx);
    assert_eq!(rechecked(Request::Readdir(1).send_async(&mut tx)), Recheck::Gone);
}

#[test]
fn requests_can_be_sent_ahead() {
    let (mut tx, rx) = request_channel();
    Request::Readdir(4).send_ahead(&mut tx, &rx);
    let (request, nobody) = rx.try_recv().unwrap();
    assert!(matches!(request, Request::Readdir(4)) && nobody.is_none());
}

#[test]
fn any_number_of_requests_fits() {
    let (mut tx, rx) = request_channel();
    for ino in 0..1000u64 {
        assert!(Request::Readdir(ino).send_async(&mut tx).is_ok());
    }
    assert_eq!(rx.len(), 1000);
}

#[test]
fn requests_take_turns() {
    let (mut tx, rx) = request_channel();
    let mut turn = Turn::new();
    assert!(turn.settle(Err(Errno::Io)).is_none());
    let answer = Request::Bump.send_sync(&mut tx).unwrap();
    assert!(matches!(turn.take(rx.recv().unwrap()), Request::Bump));
    assert!(!turn.can_take());
    assert!(!turn.accepts(&Err(Errno::Io)));
    assert!(turn.accepts(&Ok(())));
    let (notifier, reply) = turn.settle(Ok(())).unwrap();
    assert!(turn.can_take());
    assert_eq!(reply, Ok(()));
    drop(answer);
    assert!(matches!(notifier.try_send(reply), Err(TrySendError::Disconnected(_))));
    assert!(turn.settle(Ok(())).is_none());
    assert!(Request::Readdir(9).send_async(&mut tx).is_ok());
    assert!(matches!(turn.take(rx.recv().unwrap()), Request::Readdir(9)));
    assert!(turn.accepts(&Err(Errno::NoEntry)));
    assert!(turn.settle(Err(Errno::NoEntry)).is_none());
    let _answer = Request::Readdir(9).send_sync(&mut tx).unwrap();
    assert!(matches!(turn.take(rx.recv().unwrap()), Request::Readdir(9)));
    assert_eq!(turn.settle(Err(Errno::NoEntry)).unwrap().1, Err(Errno::NoEntry));
}

#[test]
fn requests_go_through_the_channel() {
    let (mut tx, rx) = request_channel();
    assert!(Request::Readdir(8).send_async(&mut tx).is_ok());
    let answer = Request::Bump.send_sync(&mut tx).unwrap();
    let (first, nobody) = rx.recv().unwrap();
    assert!(matches!(first, Request::Readdir(8)) && nobody.is_none());
    let (second, notifier) = rx.recv().unwrap();
    assert!(matches!(second, Request::Bump));
    let notifier = notifier.unwrap();
    assert!(matches!(notifier.try_send(Err(Errno::Io)), Err(TrySendError::Full(_))));
    drop(answer);
    assert!(matches!(notifier.try_send(Err(Errno::Io)), Err(TrySendError::Disconnected(_))));
    drop(rx);
    assert!(matches!(Request::Readdir(8).send_async(&mut tx), Err(Request::Readdir(8))));
    assert!(matches!(Request::Bump.send_sync(&mut tx), Err(Request::Bump)));
}

#[test]
fn bumping_asks_the_worker() {
    let (mut fs, rx) = kernel_side();
    let answer = fs.bump().unwrap();
    let (request, notifier) = rx.try_recv().unwrap();
    assert!(matches!(request, Request::Bump));
    assert!(answer.try_recv() == Err(TryRecvError::Empty));
    drop(notifier.unwrap());
    assert!(answer.try_recv() == Err(TryRecvError::Disconnected));
    assert!(rx.try_recv().is_err());
}

#[test]
fn answers_are_expected_of_sent_requests() {
    let (mut tx, rx) = request_channel();
    assert!(expect_answer(Request::Bump.send_sync(&mut tx)).is_ok());
    drop(rx);
    assert!(expect_answer(Request::Bump.send_sync(&mut tx)).is_err());
    assert!(expect_answer(Err(Request::Readdir(3))).is_err());
}

#[test]
fn links_are_read_once() {
    let dingus = caches();
    let (mut fs, _rx) = kernel_side();
    match fs.readlink(&dingus, 4) {
        ReadlinkStep::Read(path) => assert_eq!(path, b"/src/./link".to_vec()),
        _ => panic!("not to be read"),
    }
    assert_eq!(fs.finish_readlink(4, Err(22)), Err(Errno::Os(22)));
    assert!(matches!(fs.readlink(&dingus, 4), ReadlinkStep::Read(_)));
    assert_eq!(fs.finish_readlink(4, Ok(b"file".to_vec())), Ok(b"file".to_vec()));
    match fs.readlink(&dingus, 4) {
        ReadlinkStep::Target(target) => assert_eq!(target, b"file".to_vec()),
        _ => panic!("no target"),
    }
    assert!(matches!(fs.readlink(&dingus, 9), ReadlinkStep::Fail(Errno::NoEntry)));
}

#[test]
fn only_regular_files_are_opened() {
    let dingus = caches();
    let plan = dingus.plan_open(2).unwrap();
    assert_eq!((plan.path.as_slice(), plan.ino, plan.file_size), (&b"./file"[..], 2, 200));
    assert!(matches!(dingus.plan_open(3), Err(Errno::IsDirectory)));
    assert!(matches!(dingus.plan_open(4), Err(Errno::Invalid)));
    assert!(matches!(dingus.plan_open(9), Err(Errno::NoEntry)));
    let fresh: Caches = Dingus::new();
    assert!(matches!(fresh.plan_open(1), Err(Errno::Io)));
}

#[test]
fn handles_are_the_lowest_free_ones() {
    let mut dingus = caches();
    let (mut fs, rx) = kernel_side();
    for expected in 0..3usize {
        let plan = dingus.plan_open(2).unwrap();
        assert_eq!(dingus.finish_open(plan, 77), expected);
    }
    assert_eq!(fs.release(&mut dingus, 1).unwrap(), Ok(()));
    let message = rx.try_recv().unwrap();
    assert!(matches!(message.0, Request::Bump) && message.1.is_none());
    assert_eq!(fs.release(&mut dingus, 1).unwrap(), Err(Errno::BadHandle));
    assert_eq!(fs.release(&mut dingus, 3).unwrap(), Err(Errno::BadHandle));
    assert_eq!(fs.release(&mut dingus, u64::MAX).unwrap(), Err(Errno::BadHandle));
    assert!(rx.try_recv().is_err());
    let plan = dingus.plan_open(2).unwrap();
    assert_eq!(dingus.finish_open(plan, 77), 1);
    assert_eq!(dingus.close(1), Ok(()));
}

/// Serves whatever wants to be served once.
fn serve(dingus: &mut Caches) -> Option<usize> {
    assert!(dingus.all_at_hand());
    match dingus.on_poll(Polled::Empty) {
        Work::Service(job) => {
            assert!(dingus.serves(&job));
            assert!(!dingus.all_at_hand());
            let fh = job.fh;
            let bytes = source(job.offset, job.amount);
            assert_eq!(dingus.finish_service(job, &bytes), Ok(()));
            assert!(dingus.all_at_hand());
            Some(fh)
        },
        Work::Wait => None,
        _ => panic!("neither"),
    }
}

fn read_all(dingus: &mut Caches, fh: u64, offset: i64, size: u32) -> Vec<u8> {
    let mut reading = Reading::new(fh, offset, size).unwrap();
    loop {
        match dingus.read(&mut reading) {
            ReadStep::Done(bytes) => return bytes,
            ReadStep::Wait => assert!(serve(dingus).is_some()),
            ReadStep::Fail(errno) => panic!("{:?}", errno),
        }
    }
}

fn open_file(dingus: &mut Caches, size: u64) -> u64 {
    let ino = add_lookup(&metadata(size), b"./big", dingus, 0, 0, 0);
    let plan = dingus.plan_open(ino).unwrap();
    dingus.finish_open(plan, 77) as u64
}

#[test]
fn reads_are_like_the_source() {
    let size: u64 = 100_000;
    let mut dingus = caches();
    let fh = open_file(&mut dingus, size);
    for (offset, count) in [
        (0i64, 10u32),
        (5, 40_000),
        (99_990, 100),
        (70_000, 30_000),
        (100_000, 5),
        (200_000, 5),
        (32_768, 1),
        (3, 0),
        (0, 200_000),
    ] {
        let from = (offset as u64).min(size);
        let to = (offset as u64 + count as u64).min(size);
        let expected = source(from, (to - from) as usize);
        assert_eq!(read_all(&mut dingus, fh, offset, count), expected);
    }
}

#[test]
fn bad_reads_fail() {
    assert!(matches!(Reading::new(0, -1, 5), Err(Errno::Invalid)));
    assert!(matches!(Reading::new(u64::MAX, -1, 5), Err(Errno::Invalid)));
    let mut dingus = caches();
    let mut reading = Reading::new(3, 0, 5).unwrap();
    assert!(matches!(dingus.read(&mut reading), ReadStep::Fail(Errno::BadHandle)));
    assert!(matches!(dingus.inner_read(0, 0, 5), Err(Errno::BadHandle)));
}

#[test]
fn service_jobs() {
    let mut dingus = caches();
    let fh = open_file(&mut dingus, 50_000);
    let job = match dingus.on_poll(Polled::Ready(Request::Bump)) {
        Work::Service(job) => job,
        _ => panic!("no service"),
    };
    assert_eq!((job.fh as u64, job.ino, job.handle, job.pos), (fh, 5, 77, 0));
    assert_eq!((job.offset, job.amount), (0, READ_SIZE));
    let bytes = source(0, 100);
    dingus.finish_service(job, &bytes);
    let job = dingus.begin_service().unwrap();
    assert_eq!((job.pos, job.offset, job.amount), (100, 100, READ_SIZE));
    assert!(!job.must_seek());
    dingus.finish_service(job, &source(100, READ_SIZE));
    let job = dingus.begin_service().unwrap();
    assert_eq!((job.offset, job.amount), (32_868, 50_000 - 32_868));
    dingus.finish_service(job, &source(32_868, 50_000 - 32_868));
    assert!(dingus.begin_service().is_none());
    assert!(matches!(dingus.on_poll(Polled::Empty), Work::Wait));
    assert!(matches!(dingus.on_poll(Polled::Ready(Request::Bump)), Work::Answer(Ok(()))));
    assert!(matches!(dingus.on_poll(Polled::Disconnected), Work::Stop));
}

#[test]
fn the_neediest_file_is_served() {
    let mut dingus = caches();
    let a = open_file(&mut dingus, 1_000_000) as usize;
    let b = open_file(&mut dingus, 1_000_000) as usize;
    assert_eq!(serve(&mut dingus), Some(a));
    assert_eq!(serve(&mut dingus), Some(b));
    assert_eq!(serve(&mut dingus), Some(a));
    let mut reading = Reading::new(a as u64, 500_000, 1).unwrap();
    assert!(matches!(dingus.read(&mut reading), ReadStep::Wait));
    assert_eq!(serve(&mut dingus), Some(a));
    assert!(matches!(dingus.read(&mut reading), ReadStep::Done(_)));
    match &dingus.open_files[a] {
        Some(file) => assert_eq!(file.needs_service(), BUFFER_AHEAD - READ_SIZE + 1),
        None => panic!("closed"),
    }
}

#[test]
fn other_requests_come_before_reading_ahead() {
    let mut dingus = caches();
    open_file(&mut dingus, 1_000_000);
    let lookup = Request::Lookup(b"./x".to_vec());
    assert!(matches!(dingus.on_poll(Polled::Ready(lookup)), Work::Stat(_)));
    assert!(matches!(dingus.on_poll(Polled::Ready(Request::Readdir(1))), Work::List(_)));
    assert!(matches!(dingus.on_request(Request::Bump), Work::Answer(Ok(()))));
}

#[test]
fn a_reused_handle_gets_no_foreign_bytes() {
    let mut dingus = caches();
    let fh = open_file(&mut dingus, 1000);
    let job: ServiceJob<u32> = dingus.begin_service().unwrap();
    assert_eq!(dingus.close(fh), Ok(()));
    assert!(dingus.serves(&job));
    assert_eq!(open_file(&mut dingus, 1000), fh);
    assert!(dingus.serves(&job));
    dingus.finish_service(job, &[9; 10]);
    let file = dingus.open_files[fh as usize].as_ref().unwrap();
    assert_eq!(file.underlying_file, Some((77, 0)));
    assert_eq!(file.buffer.len(), 0);
    let job: ServiceJob<u32> = dingus.begin_service().unwrap();
    assert_eq!(dingus.close(fh), Ok(()));
    dingus.finish_service(job, &[9; 10]);
    assert!(dingus.open_files[fh as usize].is_none());
}

#[test]
fn jobs_that_do_not_fit_are_told() {
    let mut dingus = caches();
    open_file(&mut dingus, 1000);
    let mut job = dingus.begin_service().unwrap();
    job.offset = 999;
    job.amount = 2;
    assert!(!dingus.serves(&job));
    job.fh = 7;
    assert!(!dingus.serves(&job));
}

#[test]
fn directories_are_listed() {
    let mut dingus = caches();
    let mut scan = match dingus.on_poll(Polled::Ready(Request::Readdir(3))) {
        Work::List(scan) => scan,
        _ => panic!("not a list"),
    };
    assert_eq!((scan.ino, scan.path.as_slice()), (3, &b"./dir"[..]));
    let found = |name: &str, size: u64| DirEvent::Found(name.as_bytes().to_vec(), Ok(metadata(size)));
    assert!(dingus.on_dir_event(&mut scan, found("b", 1), 0, 0, 5).is_none());
    assert!(dingus.on_dir_event(&mut scan, found(".", 2), 0, 0, 5).is_none());
    assert!(dingus.on_dir_event(&mut scan, found("..", 2), 0, 0, 5).is_none());
    assert!(dingus.on_dir_event(&mut scan, found("a", 3), 0, 0, 5).is_none());
    assert!(dingus.readdir(3, 0).is_err());
    assert_eq!(dingus.on_dir_event(&mut scan, DirEvent::End, 0, 0, 6), Some(Ok(())));
    let first = dingus.readdir(3, 0).unwrap().unwrap();
    assert_eq!((first.ino, first.next, first.name.as_slice()), (5, 1, &b"b"[..]));
    assert_eq!((first.attr.kind, first.attr.size), (FileKind::RegularFile, 1));
    assert_eq!(first.generation, 1);
    let second = dingus.readdir(3, first.next).unwrap().unwrap();
    assert_eq!((second.ino, second.next, second.name.as_slice()), (6, 2, &b"a"[..]));
    assert!(dingus.readdir(3, second.next).unwrap().is_none());
    assert!(dingus.readdir(3, -1).unwrap().is_none());
    assert!(dingus.readdir(3, i64::MAX).unwrap().is_none());
    assert!(matches!(dingus.readdir(1, 0), Err(Errno::Io)));
    assert_eq!(dingus.readdirs[&3].expires, 6 + LOOKUP_EXPIRE_TIME);
}

#[test]
fn special_files_are_not_shown() {
    let mut dingus = caches();
    let pipe = Metadata { is_file: false, mode: 0o010644, ..metadata(0) };
    assert_eq!(dingus.finish_lookup(b"./pipe", Ok(pipe), 0, 0, 5), Err(Errno::NoEntry));
    let mut scan = dingus.begin_readdir(1).unwrap_or_else(|errno| panic!("{:?}", errno));
    let found = DirEvent::Found(b"pipe".to_vec(), Ok(pipe));
    assert!(dingus.on_dir_event(&mut scan, found, 0, 0, 5).is_none());
    assert_eq!(dingus.on_dir_event(&mut scan, DirEvent::End, 0, 0, 6), Some(Ok(())));
    assert!(dingus.readdir(1, 0).unwrap().is_none());
    assert!(dingus.lookups.get(b"./pipe").is_none());
    assert_eq!(dingus.next_inode, 5);
}

#[test]
fn scans_outlast_other_changes() {
    let mut dingus = caches();
    let mut scan = dingus.begin_readdir(3).unwrap_or_else(|errno| panic!("{:?}", errno));
    assert!(dingus.scans(&scan));
    let found = DirEvent::Found(b"x".to_vec(), Ok(metadata(1)));
    assert!(dingus.on_dir_event(&mut scan, found, 0, 0, 5).is_none());
    assert!(dingus.scans(&scan));
    open_file(&mut dingus, 1000);
    assert!(serve(&mut dingus).is_some());
    add_lookup(&metadata(7), b"./dir/x", &mut dingus, 0, 0, 9);
    let mut other = dingus.begin_readdir(1).unwrap_or_else(|errno| panic!("{:?}", errno));
    dingus.on_dir_event(&mut other, DirEvent::End, 0, 0, 6);
    assert!(dingus.scans(&scan));
    let mut foreign: Caches = Dingus::new();
    assert!(!foreign.scans(&scan));
    add_lookup(&directory(), b"./file", &mut foreign, 0, 0, 0);
    add_lookup(&directory(), b"./dir", &mut foreign, 0, 0, 0);
    assert!(!foreign.scans(&scan));
    scan.red[0].0 = 2;
    assert!(!dingus.scans(&scan));
    scan.red.clear();
    assert!(foreign.scans(&scan));
    scan.path = b"./".to_vec();
    assert!(!foreign.scans(&scan));
}

#[test]
fn failed_listings_are_not_remembered() {
    for event in [DirEvent::Failed(Some(5)), DirEvent::Found(b"x".to_vec(), Err(Some(5)))] {
        let mut dingus = caches();
        let mut scan = dingus.begin_readdir(1).unwrap_or_else(|errno| panic!("{:?}", errno));
        assert_eq!(dingus.on_dir_event(&mut scan, event, 0, 0, 5), Some(Err(Errno::Os(5))));
        assert!(dingus.readdir(1, 0).is_err());
    }
}

#[test]
fn only_directories_are_listed() {
    let dingus = caches();
    assert!(matches!(dingus.on_request(Request::Readdir(2)), Work::Answer(Err(Errno::NotDirectory))));
    assert!(matches!(dingus.on_request(Request::Readdir(9)), Work::Answer(Err(Errno::NoEntry))));
    let fresh: Caches = Dingus::new();
    assert!(matches!(fresh.on_request(Request::Readdir(1)), Work::Answer(Err(Errno::NotDirectory))));
}

#[test]
fn opening_directories() {
    let mut dingus = caches();
    let (mut fs, rx) = kernel_side();
    assert!(matches!(fs.opendir(&dingus, 3, 0), Ok(OpendirStep::Wait(_))));
    let message = rx.try_recv().unwrap();
    assert!(matches!(message.0, Request::Readdir(3)) && message.1.is_some());
    let mut scan = dingus.begin_readdir(3).unwrap_or_else(|errno| panic!("{:?}", errno));
    dingus.on_dir_event(&mut scan, DirEvent::End, 0, 0, 6);
    assert!(matches!(
        fs.opendir(&dingus, 3, 6 + LOOKUP_EXPIRE_TIME),
        Ok(OpendirStep::Opened(Recheck::NotDue))
    ));
    assert!(rx.try_recv().is_err());
    assert!(matches!(
        fs.opendir(&dingus, 3, 7 + LOOKUP_EXPIRE_TIME),
        Ok(OpendirStep::Opened(Recheck::Asked))
    ));
    let message = rx.try_recv().unwrap();
    assert!(matches!(message.0, Request::Readdir(3)) && message.1.is_none());
}

#[test]
fn facts_about_the_filesystem() {
    let (fs, _rx) = kernel_side();
    let facts = fs.statfs();
    assert_eq!((facts.blocks, facts.files, facts.bsize, facts.namelen), (0, 0, 0, u32::MAX));
}
