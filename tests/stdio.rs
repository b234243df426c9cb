use wu_clib::errno::{ErrorKind, Reent, EINVAL, EIO, ENOENT, ENOTTY, EPERM, ESPIPE};
use wu_clib::stdio::{Call, Level, Record, Stdio, PID, STDERR, STDOUT};

#[test]
fn stdout_keeps_partial_line_until_break() {
    let mut s = Stdio::new();
    let mut re = Reent::new();
    assert_eq!(s.write_r(&mut re, STDOUT, b"abc"), 3);
    assert_eq!(s.stdout(), b"abc");
    assert_eq!(s.records(), &[Record::Call(Call::Write { fd: 1, len: 3 })]);
    assert_eq!(s.write_r(&mut re, STDOUT, b"def\n"), 4);
    assert_eq!(s.stdout(), b"");
    let lines: Vec<&Record> = s.records().iter().filter(|r| r.level() != Level::Debug).collect();
    assert_eq!(lines, vec![&Record::Stdout("abcdef".to_string())]);
    assert_eq!(lines[0].level(), Level::Info);
    assert_eq!(re.errno, 0);
}

#[test]
fn stderr_two_lines_in_one_call() {
    let mut s = Stdio::new();
    let mut re = Reent::new();
    assert_eq!(s.write_r(&mut re, STDERR, b"line1\nline2\n"), 12);
    assert_eq!(
        s.records(),
        &[
            Record::Call(Call::Write { fd: 2, len: 12 }),
            Record::Stderr("line1".to_string()),
            Record::Stderr("line2".to_string()),
        ]
    );
    assert_eq!(s.records()[1].level(), Level::Warn);
    assert_eq!(s.stderr(), b"");
}

#[test]
fn trailing_fragment_stays_buffered() {
    let mut s = Stdio::new();
    let mut re = Reent::new();
    s.write_r(&mut re, STDOUT, b"\nx\nyz");
    let recs = s.take_records();
    assert_eq!(
        recs,
        vec![
            Record::Call(Call::Write { fd: 1, len: 5 }),
            Record::Stdout(String::new()),
            Record::Stdout("x".to_string()),
        ]
    );
    assert_eq!(s.stdout(), b"yz");
    assert!(s.records().is_empty());
    s.write_r(&mut re, STDERR, b"e");
    assert_eq!(s.stdout(), b"yz");
    assert_eq!(s.stderr(), b"e");
}

#[test]
fn empty_write_takes_nothing() {
    let mut s = Stdio::new();
    let mut re = Reent::new();
    assert_eq!(s.write_r(&mut re, STDOUT, b""), 0);
    assert_eq!(s.stdout(), b"");
    assert_eq!(s.records().len(), 1);
}

#[test]
fn invalid_utf8_is_replaced_in_records() {
    let mut s = Stdio::new();
    let mut re = Reent::new();
    s.write_r(&mut re, STDOUT, &[0xff, b'a', b'\n']);
    assert_eq!(s.records()[1], Record::Stdout("\u{FFFD}a".to_string()));
}

#[test]
fn write_to_other_stream_fails_with_io_error() {
    let mut s = Stdio::new();
    let mut re = Reent::new();
    s.write_r(&mut re, STDOUT, b"ab");
    assert_eq!(s.write_r(&mut re, 3, b"cd\n"), -1);
    assert_eq!(re.errno, EIO);
    assert_eq!(s.stdout(), b"ab");
    assert_eq!(s.stderr(), b"");
    assert_eq!(s.records().len(), 2);
    assert_eq!(s.records()[1], Record::Call(Call::Write { fd: 3, len: 3 }));
}

#[test]
fn unsupported_calls_fail_with_fixed_codes() {
    let mut s = Stdio::new();
    s.write_r(&mut Reent::new(), STDERR, b"keep");
    let mut re = Reent::new();
    assert_eq!(s.read_r(&mut re, 0, 10), -1);
    assert_eq!(re.errno, ENOENT);
    let mut re = Reent::new();
    assert_eq!(s.lseek_r(&mut re, 1, 5, 0), -1);
    assert_eq!(re.errno, ESPIPE);
    let mut re = Reent::new();
    assert_eq!(s.open_r(&mut re), -1);
    assert_eq!(re.errno, EINVAL);
    let mut re = Reent::new();
    assert_eq!(s.fstat_r(&mut re, 1), -1);
    assert_eq!(re.errno, EIO);
    let mut re = Reent::new();
    assert_eq!(s.kill_r(&mut re, 2, 9), -1);
    assert_eq!(re.errno, EPERM);
    assert_eq!(s.stderr(), b"keep");
    assert_eq!(s.stdout(), b"");
    assert_eq!(
        &s.records()[1..],
        &[
            Record::Call(Call::Read { fd: 0, len: 10 }),
            Record::Call(Call::Seek { fd: 1, offset: 5, whence: 0 }),
            Record::Call(Call::Open),
            Record::Call(Call::Fstat { fd: 1 }),
            Record::Call(Call::Kill { pid: 2, sig: 9 }),
        ]
    );
}

#[test]
fn process_stubs_report_fixed_answers() {
    let mut s = Stdio::new();
    let mut re = Reent::new();
    assert_eq!(s.close_r(&mut re, 4), 0);
    assert_eq!(re.errno, 0);
    assert_eq!(s.getpid_r(&mut re), PID);
    assert_eq!(PID, 2);
    assert_eq!(s.isatty_r(&mut re, 1), 0);
    assert_eq!(re.errno, ENOTTY);
    s.exit(7);
    assert_eq!(s.cxa_atexit(), 0);
    let recs = s.take_records();
    assert_eq!(
        recs,
        vec![
            Record::Call(Call::Close { fd: 4 }),
            Record::Call(Call::Getpid),
            Record::Call(Call::Isatty { fd: 1 }),
            Record::Call(Call::Exit { code: 7 }),
            Record::Call(Call::AtExit),
        ]
    );
    assert!(recs.iter().all(|r| r.level() == Level::Debug));
}

#[test]
fn error_kinds_have_posix_codes() {
    assert_eq!(ErrorKind::NotPermitted.code(), 1);
    assert_eq!(ErrorKind::NoEntity.code(), 2);
    assert_eq!(ErrorKind::Io.code(), 5);
    assert_eq!(ErrorKind::OutOfMemory.code(), 12);
    assert_eq!(ErrorKind::InvalidArgument.code(), 22);
    assert_eq!(ErrorKind::NotATty.code(), 25);
    assert_eq!(ErrorKind::IllegalSeek.code(), 29);
    let mut re = Reent::new();
    re.set_error(ErrorKind::Io);
    assert_eq!(re.errno, 5);
}
