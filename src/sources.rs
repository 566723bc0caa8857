//! Log sources: what each one reads, and the byte-level logic of the network
//! listener. Opening files, spawning processes and binding sockets is left to
//! the caller.
use vstd::prelude::*;
use crate::config::MonitorConfig;
use crate::text::{chars_of, is_space, leading_spaces, owned, span_spaces, starts_with, str_eq, str_starts_with, views};

verus! {

/// Number of leading non-blank characters of `s`.
pub open spec fn word_run(s: Seq<char>) -> nat
    decreases s.len(),
{
    if s.len() > 0 && !is_space(s[0]) {
        1 + word_run(s.drop_first())
    } else {
        0
    }
}

proof fn lemma_word_run(s: Seq<char>)
    ensures
        word_run(s) <= s.len(),
        s.len() > 0 && !is_space(s[0]) ==> word_run(s) > 0,
    decreases s.len(),
{
    if s.len() > 0 && !is_space(s[0]) {
        lemma_word_run(s.drop_first());
    }
}

/// The blank-separated words of `s`, as `str::split_whitespace` yields them.
pub open spec fn words(s: Seq<char>) -> Seq<Seq<char>>
    decreases s.len(),
{
    let t = s.subrange(leading_spaces(s) as int, s.len() as int);
    if leading_spaces(s) > s.len() || t.len() == 0 {
        Seq::empty()
    } else {
        let w = word_run(t);
        if w == 0 || w > t.len() {
            Seq::empty()
        } else {
            seq![t.subrange(0, w as int)] + words(t.subrange(w as int, t.len() as int))
        }
    }
}

proof fn lemma_leading_spaces(s: Seq<char>)
    ensures
        leading_spaces(s) <= s.len(),
        leading_spaces(s) < s.len() ==> !is_space(s[leading_spaces(s) as int]),
    decreases s.len(),
{
    if s.len() > 0 && is_space(s[0]) {
        lemma_leading_spaces(s.drop_first());
    }
}

/// Splits `s` at blanks, as `str::split_whitespace` does.
pub fn split_words(s: &str) -> (r: Vec<String>)
    ensures
        views(r@) == words(s@),
{
    let v = chars_of(s);
    let n = v.len();
    let mut out: Vec<String> = Vec::new();
    let mut i: usize = 0;
    assert(v@.subrange(0, n as int) =~= v@);
    while i < n
        invariant
            n == v@.len(),
            v@ == s@,
            i <= n,
            views(out@) + words(v@.subrange(i as int, n as int)) == words(s@),
        decreases n - i,
    {
        let ghost rest = v@.subrange(i as int, n as int);
        let j = span_spaces(&v, i);
        proof {
            lemma_leading_spaces(rest);
        }
        let ghost t = rest.subrange(leading_spaces(rest) as int, rest.len() as int);
        assert(t =~= v@.subrange(j as int, n as int));
        if j == n {
            assert(words(rest) =~= Seq::<Seq<char>>::empty());
            assert(views(out@) + words(v@.subrange(n as int, n as int)) =~= views(out@));
            i = n;
        } else {
            let mut k = j;
            while k < n && !crate::text::char_is_space(v[k])
                invariant
                    j <= k <= n,
                    n == v@.len(),
                    word_run(v@.subrange(j as int, n as int)) == (k - j) + word_run(
                        v@.subrange(k as int, n as int),
                    ),
                decreases n - k,
            {
                assert(v@.subrange(k as int, n as int).drop_first() =~= v@.subrange(
                    k + 1,
                    n as int,
                ));
                k = k + 1;
            }
            if k < n {
                assert(v@.subrange(k as int, n as int)[0] == v@[k as int]);
            }
            proof {
                lemma_word_run(t);
                assert(t[0] == v@[j as int]);
                assert(t.subrange(0, (k - j) as int) =~= v@.subrange(j as int, k as int));
                assert(t.subrange((k - j) as int, t.len() as int) =~= v@.subrange(k as int, n as int));
            }
            let ghost before = views(out@);
            out.push(owned(s.substring_char(j, k)));
            assert(views(out@) =~= before.push(v@.subrange(j as int, k as int)));
            assert(words(rest) == seq![v@.subrange(j as int, k as int)] + words(
                v@.subrange(k as int, n as int),
            ));
            assert(views(out@) + words(v@.subrange(k as int, n as int)) =~= before + words(rest));
            i = k;
        }
    }
    assert(v@.subrange(n as int, n as int) =~= Seq::<char>::empty());
    assert(words(Seq::<char>::empty()) =~= Seq::<Seq<char>>::empty());
    assert(views(out@) + Seq::<Seq<char>>::empty() =~= views(out@));
    out
}

/// Follows a growing file by path.
pub struct FileSource {
    name: String,
    path: String,
}

impl View for FileSource {
    /// The name and the path.
    type V = (Seq<char>, Seq<char>);

    closed spec fn view(&self) -> (Seq<char>, Seq<char>) {
        (self.name@, self.path@)
    }
}

impl FileSource {
    pub fn new(name: String, path: String) -> (r: Self)
        ensures
            r@ == (name@, path@),
    {
        FileSource { name, path }
    }

    pub fn name(&self) -> (r: &str)
        ensures
            r@ == self@.0,
    {
        self.name.as_str()
    }

    pub fn path(&self) -> (r: &str)
        ensures
            r@ == self@.1,
    {
        self.path.as_str()
    }
}

/// A program to run, with its arguments, whose output is read line by line.
pub struct Invocation {
    pub program: String,
    pub args: Vec<String>,
}

/// Follows the kernel log through `dmesg -w`.
pub struct DmesgSource {
    name: String,
}

impl View for DmesgSource {
    /// The name.
    type V = Seq<char>;

    closed spec fn view(&self) -> Seq<char> {
        self.name@
    }
}

impl DmesgSource {
    pub fn new(name: String) -> (r: Self)
        ensures
            r@ == name@,
    {
        DmesgSource { name }
    }

    pub fn name(&self) -> (r: &str)
        ensures
            r@ == self@,
    {
        self.name.as_str()
    }

    pub fn invocation(&self) -> (r: Invocation)
        ensures
            r.program@ == "dmesg"@,
            views(r.args@) == seq!["-w"@],
    {
        let mut args: Vec<String> = Vec::new();
        args.push(owned("-w"));
        assert(views(args@) =~= seq!["-w"@]);
        Invocation { program: owned("dmesg"), args }
    }
}

/// Follows the system journal through `journalctl` with the given arguments.
pub struct JournalctlSource {
    name: String,
    args: Vec<String>,
}

impl View for JournalctlSource {
    /// The name and the arguments.
    type V = (Seq<char>, Seq<Seq<char>>);

    closed spec fn view(&self) -> (Seq<char>, Seq<Seq<char>>) {
        (self.name@, views(self.args@))
    }
}

impl JournalctlSource {
    /// `args_str` is split at blanks into the arguments.
    pub fn new(name: String, args_str: &str) -> (r: Self)
        ensures
            r@ == (name@, words(args_str@)),
    {
        JournalctlSource { name, args: split_words(args_str) }
    }

    pub fn name(&self) -> (r: &str)
        ensures
            r@ == self@.0,
    {
        self.name.as_str()
    }

    pub fn invocation(&self) -> (r: Invocation)
        ensures
            r.program@ == "journalctl"@,
            views(r.args@) == self@.1,
    {
        Invocation { program: owned("journalctl"), args: self.args.clone() }
    }
}

/// Reads the output of an arbitrary command.
pub struct CommandSource {
    name: String,
    program: String,
    args: Vec<String>,
}

impl View for CommandSource {
    /// The name, the program and its arguments.
    type V = (Seq<char>, Seq<char>, Seq<Seq<char>>);

    closed spec fn view(&self) -> (Seq<char>, Seq<char>, Seq<Seq<char>>) {
        (self.name@, self.program@, views(self.args@))
    }
}

impl CommandSource {
    pub fn new(name: String, program: String, args: Vec<String>) -> (r: Self)
        ensures
            r@ == (name@, program@, views(args@)),
    {
        CommandSource { name, program, args }
    }

    pub fn name(&self) -> (r: &str)
        ensures
            r@ == self@.0,
    {
        self.name.as_str()
    }

    pub fn invocation(&self) -> (r: Invocation)
        ensures
            r.program@ == self@.1,
            views(r.args@) == self@.2,
    {
        Invocation { program: self.program.clone(), args: self.args.clone() }
    }
}

/// How a syslog listener receives messages.
#[derive(PartialEq, Eq, Structural, Clone, Copy, Debug)]
pub enum Transport {
    /// One message per datagram.
    Udp,
    /// Newline-separated messages over any number of connections.
    Tcp,
}

/// The transport and address a listener locator names: one `tcp:` or `udp:`
/// tag before the address; no tag means UDP.
pub open spec fn listen_target_of(locator: Seq<char>) -> (Transport, Seq<char>) {
    if starts_with(locator, "tcp:"@) {
        (Transport::Tcp, locator.subrange(4, locator.len() as int))
    } else if starts_with(locator, "udp:"@) {
        (Transport::Udp, locator.subrange(4, locator.len() as int))
    } else {
        (Transport::Udp, locator)
    }
}

/// Listens for syslog messages on a network address.
pub struct SyslogSource {
    name: String,
    address: String,
}

impl View for SyslogSource {
    /// The name and the listener locator.
    type V = (Seq<char>, Seq<char>);

    closed spec fn view(&self) -> (Seq<char>, Seq<char>) {
        (self.name@, self.address@)
    }
}

impl SyslogSource {
    pub fn new(name: String, address: String) -> (r: Self)
        ensures
            r@ == (name@, address@),
    {
        SyslogSource { name, address }
    }

    pub fn name(&self) -> (r: &str)
        ensures
            r@ == self@.0,
    {
        self.name.as_str()
    }

    /// The transport and bare address to listen on.
    pub fn listen_target(&self) -> (r: (Transport, String))
        ensures
            (r.0, r.1@) == listen_target_of(self@.1),
    {
        let a = self.address.as_str();
        if str_starts_with(a, "tcp:") {
            proof {
                reveal_strlit("tcp:");
            }
            (Transport::Tcp, owned(a.substring_char(4, a.unicode_len())))
        } else if str_starts_with(a, "udp:") {
            proof {
                reveal_strlit("udp:");
            }
            (Transport::Udp, owned(a.substring_char(4, a.unicode_len())))
        } else {
            (Transport::Udp, owned(a))
        }
    }
}

/// A received message as one newline-terminated line.
pub open spec fn terminated(data: Seq<u8>) -> Seq<u8> {
    if data.len() > 0 && data.last() == 10u8 {
        data
    } else {
        data.push(10u8)
    }
}

/// Ends a message received over a connection with a newline, unless it
/// already has one.
pub fn terminate_line(data: Vec<u8>) -> (r: Vec<u8>)
    ensures
        r@ == terminated(data@),
{
    let mut data = data;
    let n = data.len();
    if n > 0 && data[n - 1] == 10u8 {
        return data;
    }
    data.push(10u8);
    data
}

/// A received datagram as a message: empty datagrams carry none.
pub fn frame_datagram(data: Vec<u8>) -> (r: Option<Vec<u8>>)
    ensures
        data@.len() == 0 ==> r is None,
        data@.len() > 0 ==> (r matches Some(m) && m@ == terminated(data@)),
{
    if data.len() == 0 {
        None
    } else {
        Some(terminate_line(data))
    }
}

/// Bound on the messages queued between the listener and the reader: a slow
/// reader holds the listener back instead of letting the queue grow.
pub const CHANNEL_CAPACITY: usize = 100;

/// What the reader has to offer.
pub enum ReadStep {
    /// Bytes for the caller.
    Data(Vec<u8>),
    /// The current message is used up: the next one is needed (or, if the
    /// queue is closed, the stream has ended).
    NeedMessage,
}

/// Exposes a queue of messages as a stream of bytes: it keeps the unread rest
/// of the current message and hands it out in pieces of the caller's size.
pub struct ChannelReader {
    pending: Vec<u8>,
    pos: usize,
}

impl View for ChannelReader {
    /// The bytes received and not yet handed out.
    type V = Seq<u8>;

    closed spec fn view(&self) -> Seq<u8> {
        self.pending@.subrange(self.pos as int, self.pending@.len() as int)
    }
}

impl ChannelReader {
    pub closed spec fn wf(&self) -> bool {
        self.pos <= self.pending@.len()
    }

    pub fn new() -> (r: Self)
        ensures
            r@ == Seq::<u8>::empty(),
            r.wf(),
    {
        ChannelReader { pending: Vec::new(), pos: 0 }
    }

    /// Hands out up to `capacity` unread bytes, or asks for the next message.
    pub fn read_step(&mut self, capacity: usize) -> (r: ReadStep)
        requires
            old(self).wf(),
        ensures
            final(self).wf(),
            old(self)@.len() == 0 ==> r is NeedMessage && final(self)@ == old(self)@,
            old(self)@.len() > 0 ==> ({
                let n = if old(self)@.len() < capacity {
                    old(self)@.len() as int
                } else {
                    capacity as int
                };
                &&& r matches ReadStep::Data(d) && d@ == old(self)@.subrange(0, n)
                &&& final(self)@ == old(self)@.subrange(n, old(self)@.len() as int)
            }),
    {
        let remaining = self.pending.len() - self.pos;
        if remaining == 0 {
            return ReadStep::NeedMessage;
        }
        let n = if remaining < capacity {
            remaining
        } else {
            capacity
        };
        let mut out: Vec<u8> = Vec::new();
        let mut i: usize = 0;
        while i < n
            invariant
                i <= n,
                self.pos + n <= self.pending@.len(),
                self.pending@.len() <= usize::MAX,
                out@ == self.pending@.subrange(self.pos as int, self.pos + i),
            decreases n - i,
        {
            out.push(self.pending[self.pos + i]);
            i = i + 1;
            assert(out@ =~= self.pending@.subrange(self.pos as int, self.pos + i));
        }
        let ghost before = self@;
        self.pos = self.pos + n;
        assert(out@ =~= before.subrange(0, n as int));
        assert(self@ =~= before.subrange(n as int, before.len() as int));
        ReadStep::Data(out)
    }

    /// Takes in the next message from the queue.
    pub fn feed(&mut self, message: Vec<u8>)
        requires
            old(self).wf(),
        ensures
            final(self).wf(),
            final(self)@ == old(self)@ + message@,
    {
        let ghost before = self@;
        let mut rest: Vec<u8> = Vec::new();
        let mut i = self.pos;
        while i < self.pending.len()
            invariant
                self.pos <= i <= self.pending@.len(),
                rest@ == self.pending@.subrange(self.pos as int, i as int),
            decreases self.pending.len() - i,
        {
            rest.push(self.pending[i]);
            i = i + 1;
            assert(rest@ =~= self.pending@.subrange(self.pos as int, i as int));
        }
        let mut message = message;
        let ghost msg = message@;
        rest.append(&mut message);
        self.pending = rest;
        self.pos = 0;
        assert(self@ =~= before + msg);
    }
}

/// One source, chosen from a monitor's configuration.
pub enum LogSource {
    File(FileSource),
    Journalctl(JournalctlSource),
    Dmesg(DmesgSource),
    Command(CommandSource),
    Syslog(SyslogSource),
}

/// Why a configured monitor gets no source.
#[derive(PartialEq, Eq, Structural, Clone, Copy, Debug)]
pub enum SourceSkip {
    /// A file monitor without a path.
    EmptyPath,
    /// A command monitor without a command.
    EmptyCommand,
    /// A monitor type that is not known.
    UnknownType,
}

/// Sets up the source that a monitor's configuration names. A command is
/// split at blanks into the program and its arguments.
pub fn source_for(cfg: &MonitorConfig) -> (r: Result<LogSource, SourceSkip>)
    ensures
        cfg.monitor_type@ == "file"@ ==> if cfg.path@.len() == 0 {
            r == Err::<LogSource, SourceSkip>(SourceSkip::EmptyPath)
        } else {
            r matches Ok(LogSource::File(f)) && f@ == (cfg.name@, cfg.path@)
        },
        cfg.monitor_type@ == "journalctl"@ ==> (r matches Ok(LogSource::Journalctl(j))
            && j@ == (cfg.name@, words(cfg.args@))),
        cfg.monitor_type@ == "dmesg"@ ==> (r matches Ok(LogSource::Dmesg(d)) && d@ == cfg.name@),
        cfg.monitor_type@ == "command"@ ==> if words(cfg.args@).len() == 0 {
            r == Err::<LogSource, SourceSkip>(SourceSkip::EmptyCommand)
        } else {
            r matches Ok(LogSource::Command(c)) && c@ == (
                cfg.name@,
                words(cfg.args@)[0],
                words(cfg.args@).drop_first(),
            )
        },
        cfg.monitor_type@ == "syslog"@ ==> (r matches Ok(LogSource::Syslog(s)) && s@ == (
            cfg.name@,
            cfg.path@,
        )),
        cfg.monitor_type@ != "file"@ && cfg.monitor_type@ != "journalctl"@ && cfg.monitor_type@
            != "dmesg"@ && cfg.monitor_type@ != "command"@ && cfg.monitor_type@ != "syslog"@ ==> r
            == Err::<LogSource, SourceSkip>(SourceSkip::UnknownType),
{
    let t = cfg.monitor_type.as_str();
    proof {
        reveal_strlit("file");
        reveal_strlit("journalctl");
        reveal_strlit("dmesg");
        reveal_strlit("command");
        reveal_strlit("syslog");
        assert("file"@.len() == 4);
        assert("journalctl"@.len() == 10);
        assert("dmesg"@.len() == 5);
        assert("command"@.len() == 7);
        assert("syslog"@.len() == 6);
    }
    if str_eq(t, "file") {
        if cfg.path.as_str().is_empty() {
            return Err(SourceSkip::EmptyPath);
        }
        Ok(LogSource::File(FileSource::new(cfg.name.clone(), cfg.path.clone())))
    } else if str_eq(t, "journalctl") {
        Ok(LogSource::Journalctl(JournalctlSource::new(cfg.name.clone(), cfg.args.as_str())))
    } else if str_eq(t, "dmesg") {
        Ok(LogSource::Dmesg(DmesgSource::new(cfg.name.clone())))
    } else if str_eq(t, "command") {
        let mut parts = split_words(cfg.args.as_str());
        if parts.len() == 0 {
            return Err(SourceSkip::EmptyCommand);
        }
        let ghost all = views(parts@);
        let program = parts.remove(0);
        assert(views(parts@) =~= all.drop_first());
        Ok(LogSource::Command(CommandSource::new(cfg.name.clone(), program, parts)))
    } else if str_eq(t, "syslog") {
        Ok(LogSource::Syslog(SyslogSource::new(cfg.name.clone(), cfg.path.clone())))
    } else {
        Err(SourceSkip::UnknownType)
    }
}

} // verus!
