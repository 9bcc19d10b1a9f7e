use veloq_runtime::config::{Config, IoMode, IocpConfig, UringConfig};
use veloq_runtime::error::{ErrorKind, IoError};
use veloq_runtime::fs::file::File;
use veloq_runtime::fs::open_options::{OpenOptions, GENERIC_READ, GENERIC_WRITE};
use veloq_runtime::io::buffer::buddy::{BuddyPool, BufferSize};
use veloq_runtime::io::buffer::fixed_buf::{FixedBuf, NO_REGISTRATION_INDEX};
use veloq_runtime::io::buffer::hybrid::HybridPool;
use veloq_runtime::io::op::{IoFd, RawHandle};

fn buf() -> FixedBuf {
    FixedBuf::new(4096, 512, NO_REGISTRATION_INDEX, 0)
}

fn file() -> File {
    File::from_result(Ok(17)).unwrap()
}

#[test]
fn settings_have_defaults() {
    let config = Config::default();
    assert_eq!(config.uring, UringConfig { mode: IoMode::Interrupt, entries: 1024, sqpoll_idle_ms: 2000 });
    assert_eq!(config.iocp, IocpConfig { mode: IoMode::Interrupt, entries: 1024 });
    assert_eq!(config.worker_threads, None);
    let config = Config::new().worker_threads(3).direct_io(true);
    assert_eq!(config.worker_threads, Some(3));
    assert!(config.direct_io);
    let polling = UringConfig { mode: IoMode::Polling, entries: 8, sqpoll_idle_ms: 1 };
    assert_eq!(config.uring(polling).uring, polling);
    let port = IocpConfig { mode: IoMode::Polling, entries: 9 };
    assert_eq!(config.iocp(port).iocp, port);
}

#[test]
fn paths_end_with_zero() {
    let mut pool = HybridPool::new();
    let mut options = OpenOptions::new();
    options.read(true);
    let request = options.build_op(b"/tmp/x", &mut pool).unwrap();
    assert_eq!(request.path, b"/tmp/x\0".to_vec());
    assert_eq!(request.op.path.len(), 7);
    assert_eq!(request.op.flags, libc::O_RDONLY);
    assert_eq!(request.op.mode, 0o666);
}

#[test]
fn flags_are_the_systems() {
    let mut pool = HybridPool::new();
    let mut flags = |set: &dyn Fn(&mut OpenOptions)| {
        let mut options = OpenOptions::new();
        set(&mut options);
        options.build_op(b"f", &mut pool).unwrap().op.flags
    };
    assert_eq!(flags(&|o| { o.write(true); }), libc::O_WRONLY);
    assert_eq!(flags(&|o| { o.read(true).write(true); }), libc::O_RDWR);
    assert_eq!(flags(&|o| { o.append(true); }), libc::O_WRONLY | libc::O_APPEND);
    assert_eq!(
        flags(&|o| { o.write(true).create(true).truncate(true); }),
        libc::O_WRONLY | libc::O_CREAT | libc::O_TRUNC
    );
    assert_eq!(
        flags(&|o| { o.write(true).create_new(true); }),
        libc::O_WRONLY | libc::O_CREAT | libc::O_EXCL
    );
    assert_eq!(flags(&|o| { o.read(true).custom_flags(libc::O_DIRECT); }), libc::O_DIRECT);
}

#[test]
fn wide_paths_hold_two_bytes_a_unit() {
    let mut pool = HybridPool::new();
    let mut options = OpenOptions::new();
    options.read(true).write(true).create(true);
    let request = options.build_op_wide(&[0x41, 0x263a], &mut pool).unwrap();
    assert_eq!(request.path, vec![0x41, 0, 0x3a, 0x26, 0, 0]);
    assert_eq!(request.op.flags as u32, GENERIC_READ | GENERIC_WRITE);
    assert_eq!(request.op.mode, 4);
    assert_eq!(GENERIC_READ, windows_sys::Win32::Foundation::GENERIC_READ);
    assert_eq!(GENERIC_WRITE, windows_sys::Win32::Foundation::GENERIC_WRITE);
}

#[test]
fn a_path_needs_a_buffer() {
    let mut pool = BuddyPool::new();
    let whole = BufferSize::best_fit(32 * 1024 * 1024).unwrap();
    assert!(pool.allocate(whole).is_some());
    match OpenOptions::new().build_op(b"f", &mut pool) {
        Ok(_) => panic!("the pool is empty"),
        Err(e) => {
            assert_eq!(e, IoError::NoBuffer);
            assert_eq!(e.kind(), ErrorKind::OutOfMemory);
        }
    }
}

#[test]
fn a_file_keeps_its_position() {
    let mut file = file();
    assert_eq!(file.fd, IoFd::Raw(RawHandle { raw: 17 }));
    assert_eq!(file.stream_position(), 0);
    file.seek(100);
    let op = file.read(buf());
    assert_eq!(op.offset, 100);
    file.advance(&Ok(12));
    assert_eq!(file.write(buf()).offset, 112);
    file.advance(&Err(IoError::Os(5)));
    assert_eq!(file.stream_position(), 112);
    assert_eq!(file.read_at(buf(), 7).offset, 7);
    assert_eq!(file.write_at(buf(), 8).offset, 8);
    assert!(matches!(File::from_result(Err(IoError::Os(2))), Err(IoError::Os(2))));
}

#[test]
fn a_range_is_synced_as_asked() {
    let file = file();
    assert_eq!(file.sync_range(10, 20).into_op().flags, 7);
    let op = file.sync_range(10, 20).wait_before(false).wait_after(false).into_op();
    assert_eq!((op.offset, op.nbytes, op.flags), (10, 20, libc::SYNC_FILE_RANGE_WRITE));
    let op = file.sync_range(10, 20).wait_before(true).into_op_whole();
    assert_eq!((op.offset, op.nbytes, op.flags), (10, 20, 0));
    let op = file.sync_range(10, 20).write(false).write(true).wait_before(false).into_op();
    assert_eq!(op.flags, libc::SYNC_FILE_RANGE_WRITE | libc::SYNC_FILE_RANGE_WAIT_AFTER);
}

#[test]
fn a_file_has_other_operations() {
    let file = file();
    assert!(!file.sync_all().datasync);
    assert!(file.sync_data().datasync);
    let op = file.fallocate(3, 4);
    assert_eq!((op.mode, op.offset, op.len), (0, 3, 4));
    assert_eq!(file.close().fd, file.fd);
    assert_eq!(file.close_fallback(true), None);
    assert_eq!(file.close_fallback(false), Some(RawHandle { raw: 17 }));
    let mut pool = HybridPool::new();
    let create = File::create_options().build_op(b"f", &mut pool).unwrap();
    assert_eq!(create.op.flags, libc::O_WRONLY | libc::O_CREAT | libc::O_TRUNC);
    let open = File::open_options().build_op(b"f", &mut pool).unwrap();
    assert_eq!(open.op.flags, libc::O_RDONLY);
}
