use vstd::prelude::*;
use crate::errno::{ErrorKind, Reent, EINVAL, EIO, ENOENT, ENOTTY, EPERM, ESPIPE};

verus! {

/// Stream id of standard output.
pub const STDOUT: i32 = 1;
/// Stream id of standard error.
pub const STDERR: i32 = 2;
/// The line-break byte, `b'\n'`.
pub const NEWLINE: u8 = 10;
/// The process id this host reports; 1 is left to `init`.
pub const PID: i32 = 2;

/// Severity of a log record.
#[derive(Clone, Copy, Debug, PartialEq, Eq, Structural)]
pub enum Level {
    Debug,
    Info,
    Warn,
}

/// One call into the shim, as reported at debug level.
#[derive(Clone, Copy, Debug, PartialEq, Eq, Structural)]
pub enum Call {
    Exit { code: i32 },
    AtExit,
    Read { fd: i32, len: usize },
    Seek { fd: i32, offset: isize, whence: i32 },
    Write { fd: i32, len: usize },
    Close { fd: i32 },
    Isatty { fd: i32 },
    Fstat { fd: i32 },
    Getpid,
    Kill { pid: i32, sig: i32 },
    Open,
}

/// A record for the host's log: a call, or a completed line of one of the
/// two output streams.
#[derive(Debug, PartialEq, Eq)]
pub enum Record {
    Call(Call),
    Stdout(String),
    Stderr(String),
}

/// A record as a mathematical value.
pub enum RecordView {
    Call(Call),
    Stdout(Seq<char>),
    Stderr(Seq<char>),
}

impl View for Record {
    type V = RecordView;

    open spec fn view(&self) -> RecordView {
        match self {
            Record::Call(c) => RecordView::Call(*c),
            Record::Stdout(s) => RecordView::Stdout(s@),
            Record::Stderr(s) => RecordView::Stderr(s@),
        }
    }
}

/// The severity a record is logged at.
pub open spec fn level_of(r: RecordView) -> Level {
    match r {
        RecordView::Call(_) => Level::Debug,
        RecordView::Stdout(_) => Level::Info,
        RecordView::Stderr(_) => Level::Warn,
    }
}

impl Record {
    /// Calls are logged at debug level, standard output lines at info level
    /// and standard error lines at warning level.
    pub fn level(&self) -> (l: Level)
        ensures
            l == level_of(self@),
    {
        match self {
            Record::Call(_) => Level::Debug,
            Record::Stdout(_) => Level::Info,
            Record::Stderr(_) => Level::Warn,
        }
    }
}

/// The text that `String::from_utf8_lossy` makes of the bytes.
pub uninterp spec fn utf8_lossy(b: Seq<u8>) -> Seq<char>;

/// The bytes are all ASCII.
pub open spec fn is_ascii(b: Seq<u8>) -> bool {
    forall|i: int| 0 <= i < b.len() ==> #[trigger] b[i] < 128
}

/// Each ASCII byte read as the character it encodes.
pub open spec fn ascii_chars(b: Seq<u8>) -> Seq<char> {
    b.map_values(|c: u8| c as char)
}

/// Relies on `String::from_utf8_lossy`: the text the bytes spell, with
/// invalid sequences replaced. Valid UTF-8, ASCII among it, comes back
/// unchanged.
#[verifier::external_body]
fn decode_lossy(b: &[u8]) -> (r: String)
    ensures
        r@ == utf8_lossy(b@),
        is_ascii(b@) ==> r@ == ascii_chars(b@),
{
    String::from_utf8_lossy(b).into_owned()
}

/// The bytes left pending, and the lines completed, once `data` is written
/// behind the pending bytes `buf`: each line break ends a line, and what
/// follows the last one stays pending.
pub open spec fn feed(buf: Seq<u8>, data: Seq<u8>) -> (Seq<u8>, Seq<Seq<u8>>)
    decreases data.len(),
{
    if data.len() == 0 {
        (buf, Seq::empty())
    } else {
        let prev = feed(buf, data.drop_last());
        if data.last() == NEWLINE {
            (Seq::empty(), prev.1.push(prev.0))
        } else {
            (prev.0.push(data.last()), prev.1)
        }
    }
}

/// The records that the completed `lines` of stream `fd` produce.
pub open spec fn line_records(fd: i32, lines: Seq<Seq<u8>>) -> Seq<RecordView> {
    lines.map_values(
        |l: Seq<u8>|
            if fd == STDOUT {
                RecordView::Stdout(utf8_lossy(l))
            } else {
                RecordView::Stderr(utf8_lossy(l))
            },
    )
}

/// The bytes hold no line break.
pub open spec fn no_newline(b: Seq<u8>) -> bool {
    forall|i: int| 0 <= i < b.len() ==> #[trigger] b[i] != NEWLINE
}

/// The shim as a mathematical value: the pending bytes of each stream and
/// the records not yet handed to the host.
pub struct StdioView {
    pub stdout: Seq<u8>,
    pub stderr: Seq<u8>,
    pub records: Seq<RecordView>,
}

impl StdioView {
    /// A pending buffer never holds a line break.
    pub open spec fn wf(self) -> bool {
        no_newline(self.stdout) && no_newline(self.stderr)
    }

    /// The state after call `c` is logged; the buffers are untouched.
    pub open spec fn log(self, c: Call) -> StdioView {
        StdioView { records: self.records.push(RecordView::Call(c)), ..self }
    }

    /// The state after a write of `data` to stream `fd`, 1 or 2: the call
    /// is logged, then one record per completed line, and the stream keeps
    /// what follows the last line break.
    pub open spec fn written(self, fd: i32, data: Seq<u8>) -> StdioView {
        let start = self.log(Call::Write { fd, len: data.len() as usize });
        if fd == STDOUT {
            let r = feed(self.stdout, data);
            StdioView { stdout: r.0, records: start.records + line_records(fd, r.1), ..start }
        } else {
            let r = feed(self.stderr, data);
            StdioView { stderr: r.0, records: start.records + line_records(fd, r.1), ..start }
        }
    }
}

/// The stdio side of the runtime: standard output and error are kept in
/// line buffers and forwarded one completed line at a time; files, seeking
/// and signals do not exist on this host and fail with fixed codes.
pub struct Stdio {
    stdout: Vec<u8>,
    stderr: Vec<u8>,
    records: Vec<Record>,
}

impl View for Stdio {
    type V = StdioView;

    closed spec fn view(&self) -> StdioView {
        StdioView {
            stdout: self.stdout@,
            stderr: self.stderr@,
            records: self.records@.map_values(|r: Record| r@),
        }
    }
}

/// Splits `data` into lines behind the pending bytes in `buf`, adding one
/// record per completed line to `out`.
fn split_lines(buf: &mut Vec<u8>, out: &mut Vec<Record>, fd: i32, data: &[u8])
    requires
        fd == STDOUT || fd == STDERR,
        no_newline(old(buf)@),
    ensures
        final(buf)@ == feed(old(buf)@, data@).0,
        no_newline(final(buf)@),
        final(out)@.map_values(|r: Record| r@) == old(out)@.map_values(|r: Record| r@)
            + line_records(fd, feed(old(buf)@, data@).1),
{
    let ghost b0 = buf@;
    let ghost o0 = out@.map_values(|r: Record| r@);
    let mut i: usize = 0;
    assert(data@.take(0) =~= Seq::<u8>::empty());
    assert(line_records(fd, Seq::empty()) =~= Seq::<RecordView>::empty());
    assert(out@.map_values(|r: Record| r@) =~= o0 + line_records(fd, Seq::empty()));
    while i < data.len()
        invariant
            i <= data.len(),
            fd == STDOUT || fd == STDERR,
            buf@ == feed(b0, data@.take(i as int)).0,
            no_newline(buf@),
            out@.map_values(|r: Record| r@) == o0 + line_records(fd, feed(b0, data@.take(i as int)).1),
        decreases data.len() - i,
    {
        let ghost prev = feed(b0, data@.take(i as int));
        let c = data[i];
        assert(data@.take(i + 1).drop_last() =~= data@.take(i as int));
        if c == NEWLINE {
            let text = decode_lossy(buf.as_slice());
            let rec = if fd == STDOUT {
                Record::Stdout(text)
            } else {
                Record::Stderr(text)
            };
            let ghost before = out@;
            out.push(rec);
            proof {
                assert(out@.map_values(|r: Record| r@) =~= before.map_values(|r: Record| r@).push(rec@));
                assert(line_records(fd, prev.1.push(prev.0)) =~= line_records(fd, prev.1).push(rec@));
                assert(out@.map_values(|r: Record| r@) =~= o0 + line_records(fd, prev.1.push(prev.0)));
            }
            buf.clear();
        } else {
            buf.push(c);
        }
        i = i + 1;
    }
    assert(data@.take(data.len() as int) =~= data@);
}

impl Stdio {
    pub closed spec fn wf(&self) -> bool {
        self@.wf()
    }

    /// Empty buffers and no records.
    pub fn new() -> (s: Stdio)
        ensures
            s.wf(),
            s@.stdout == Seq::<u8>::empty(),
            s@.stderr == Seq::<u8>::empty(),
            s@.records == Seq::<RecordView>::empty(),
    {
        let s = Stdio { stdout: Vec::new(), stderr: Vec::new(), records: Vec::new() };
        assert(s@.stdout =~= Seq::<u8>::empty());
        assert(s@.stderr =~= Seq::<u8>::empty());
        assert(s@.records =~= Seq::<RecordView>::empty());
        s
    }

    fn log(&mut self, c: Call)
        ensures
            final(self)@ == old(self)@.log(c),
    {
        let ghost before = self@;
        self.records.push(Record::Call(c));
        assert(self@.records =~= before.records.push(RecordView::Call(c)));
    }

    /// Writes `data` to stream `fd`. Standard output and error forward each
    /// completed line as a record and keep the rest pending; the whole
    /// input is always taken. Any other stream fails with an I/O error and
    /// no buffer changes.
    pub fn write_r(&mut self, re: &mut Reent, fd: i32, data: &[u8]) -> (r: isize)
        requires
            old(self).wf(),
            data@.len() <= isize::MAX,
        ensures
            final(self).wf(),
            fd == STDOUT || fd == STDERR ==> {
                &&& r == data@.len()
                &&& final(self)@ == old(self)@.written(fd, data@)
                &&& final(re).errno == old(re).errno
            },
            !(fd == STDOUT || fd == STDERR) ==> {
                &&& r == -1
                &&& final(self)@ == old(self)@.log(Call::Write { fd, len: data@.len() as usize })
                &&& final(re).errno == EIO
            },
    {
        self.log(Call::Write { fd, len: data.len() });
        let ghost start = self@;
        let mut buf: Vec<u8> = Vec::new();
        if fd == STDOUT {
            std::mem::swap(&mut buf, &mut self.stdout);
        } else if fd == STDERR {
            std::mem::swap(&mut buf, &mut self.stderr);
        } else {
            re.set_error(ErrorKind::Io);
            return -1;
        }
        let mut out: Vec<Record> = Vec::new();
        split_lines(&mut buf, &mut out, fd, data);
        let ghost emitted = out@;
        self.records.append(&mut out);
        proof {
            assert(emitted.map_values(|r: Record| r@) =~= Seq::<RecordView>::empty() + line_records(
                fd,
                feed(if fd == STDOUT { start.stdout } else { start.stderr }, data@).1,
            ));
            assert(self.records@.map_values(|r: Record| r@) =~= start.records + emitted.map_values(
                |r: Record| r@,
            ));
        }
        if fd == STDOUT {
            std::mem::swap(&mut buf, &mut self.stdout);
        } else {
            std::mem::swap(&mut buf, &mut self.stderr);
        }
        data.len() as isize
    }
    /// Reading fails: there are no files. Sets "no such entity".
    pub fn read_r(&mut self, re: &mut Reent, fd: i32, len: usize) -> (r: isize)
        ensures
            r == -1,
            final(re).errno == ENOENT,
            final(self)@ == old(self)@.log(Call::Read { fd, len }),
    {
        self.log(Call::Read { fd, len });
        re.set_error(ErrorKind::NoEntity);
        -1
    }

    /// Seeking fails: nothing is seekable. Sets "illegal seek".
    pub fn lseek_r(&mut self, re: &mut Reent, fd: i32, offset: isize, whence: i32) -> (r: i32)
        ensures
            r == -1,
            final(re).errno == ESPIPE,
            final(self)@ == old(self)@.log(Call::Seek { fd, offset, whence }),
    {
        self.log(Call::Seek { fd, offset, whence });
        re.set_error(ErrorKind::IllegalSeek);
        -1
    }

    /// Closing succeeds: no descriptors are kept.
    pub fn close_r(&mut self, re: &mut Reent, fd: i32) -> (r: i32)
        ensures
            r == 0,
            final(re).errno == old(re).errno,
            final(self)@ == old(self)@.log(Call::Close { fd }),
    {
        self.log(Call::Close { fd });
        0
    }

    /// No stream is a terminal. Sets "not a tty".
    pub fn isatty_r(&mut self, re: &mut Reent, fd: i32) -> (r: i32)
        ensures
            r == 0,
            final(re).errno == ENOTTY,
            final(self)@ == old(self)@.log(Call::Isatty { fd }),
    {
        self.log(Call::Isatty { fd });
        re.set_error(ErrorKind::NotATty);
        0
    }

    /// Status queries fail with an I/O error.
    pub fn fstat_r(&mut self, re: &mut Reent, fd: i32) -> (r: i32)
        ensures
            r == -1,
            final(re).errno == EIO,
            final(self)@ == old(self)@.log(Call::Fstat { fd }),
    {
        self.log(Call::Fstat { fd });
        re.set_error(ErrorKind::Io);
        -1
    }

    /// The fixed process id.
    pub fn getpid_r(&mut self, re: &mut Reent) -> (r: i32)
        ensures
            r == PID,
            final(re).errno == old(re).errno,
            final(self)@ == old(self)@.log(Call::Getpid),
    {
        self.log(Call::Getpid);
        PID
    }

    /// Signals cannot be delivered. Sets "operation not permitted".
    pub fn kill_r(&mut self, re: &mut Reent, pid: i32, sig: i32) -> (r: i32)
        ensures
            r == -1,
            final(re).errno == EPERM,
            final(self)@ == old(self)@.log(Call::Kill { pid, sig }),
    {
        self.log(Call::Kill { pid, sig });
        re.set_error(ErrorKind::NotPermitted);
        -1
    }

    /// Opening fails: there are no files. Sets "invalid argument".
    pub fn open_r(&mut self, re: &mut Reent) -> (r: i32)
        ensures
            r == -1,
            final(re).errno == EINVAL,
            final(self)@ == old(self)@.log(Call::Open),
    {
        self.log(Call::Open);
        re.set_error(ErrorKind::InvalidArgument);
        -1
    }

    /// The host cannot halt: the exit code is logged and control returns.
    pub fn exit(&mut self, code: i32)
        ensures
            final(self)@ == old(self)@.log(Call::Exit { code }),
    {
        self.log(Call::Exit { code });
    }

    /// Exit handlers never run on this host, so registering one succeeds
    /// without storing it.
    pub fn cxa_atexit(&mut self) -> (r: i32)
        ensures
            r == 0,
            final(self)@ == old(self)@.log(Call::AtExit),
    {
        self.log(Call::AtExit);
        0
    }

    /// The bytes pending on standard output.
    pub fn stdout(&self) -> (r: &[u8])
        ensures
            r@ == self@.stdout,
    {
        self.stdout.as_slice()
    }

    /// The bytes pending on standard error.
    pub fn stderr(&self) -> (r: &[u8])
        ensures
            r@ == self@.stderr,
    {
        self.stderr.as_slice()
    }

    /// The records not yet taken.
    pub fn records(&self) -> (r: &[Record])
        ensures
            r@.map_values(|x: Record| x@) == self@.records,
    {
        self.records.as_slice()
    }

    /// Hands the pending records over in order and forgets them; the
    /// buffers are kept.
    pub fn take_records(&mut self) -> (r: Vec<Record>)
        ensures
            r@.map_values(|x: Record| x@) == old(self)@.records,
            final(self)@.records == Seq::<RecordView>::empty(),
            final(self)@.stdout == old(self)@.stdout,
            final(self)@.stderr == old(self)@.stderr,
    {
        let mut r: Vec<Record> = Vec::new();
        std::mem::swap(&mut r, &mut self.records);
        assert(self@.records =~= Seq::<RecordView>::empty());
        r
    }
}

} // verus!
