use sentrylogmon::config::MonitorConfig;
use sentrylogmon::sources::{
    frame_datagram, source_for, split_words, terminate_line, ChannelReader, DmesgSource,
    FileSource, JournalctlSource, LogSource, ReadStep, SourceSkip, SyslogSource, Transport,
};

#[test]
fn test_parsing_address() {
    let source = SyslogSource::new("test".to_string(), "udp:127.0.0.1:1234".to_string());
    assert_eq!(source.name(), "test");
}

#[test]
fn test_channel_reader() {
    let mut queue: Vec<Vec<u8>> = vec![b"hello\n".to_vec(), b"world\n".to_vec()];
    queue.reverse();
    let mut reader = ChannelReader::new();
    let mut buf = Vec::new();
    loop {
        match reader.read_step(10) {
            ReadStep::Data(d) => buf.extend_from_slice(&d),
            ReadStep::NeedMessage => match queue.pop() {
                Some(m) => reader.feed(m),
                None => break,
            },
        }
    }
    assert_eq!(buf, b"hello\nworld\n");
}

#[test]
fn channel_reader_hands_out_pieces_of_requested_size() {
    let mut reader = ChannelReader::new();
    assert!(matches!(reader.read_step(4), ReadStep::NeedMessage));
    reader.feed(b"abcdefg\n".to_vec());
    let mut pieces = Vec::new();
    while let ReadStep::Data(d) = reader.read_step(3) {
        pieces.push(d);
    }
    assert_eq!(pieces, vec![b"abc".to_vec(), b"def".to_vec(), b"g\n".to_vec()]);
}

#[test]
fn listen_targets() {
    let s = SyslogSource::new("s".to_string(), "tcp:0.0.0.0:514".to_string());
    assert_eq!(s.listen_target(), (Transport::Tcp, "0.0.0.0:514".to_string()));
    let s = SyslogSource::new("s".to_string(), "udp:127.0.0.1:1234".to_string());
    assert_eq!(s.listen_target(), (Transport::Udp, "127.0.0.1:1234".to_string()));
    let s = SyslogSource::new("s".to_string(), "127.0.0.1:5514".to_string());
    assert_eq!(s.listen_target(), (Transport::Udp, "127.0.0.1:5514".to_string()));
    let s = SyslogSource::new("s".to_string(), "tcp:tcp:5".to_string());
    assert_eq!(s.listen_target(), (Transport::Tcp, "tcp:5".to_string()));
    let s = SyslogSource::new("s".to_string(), "udp:udp:5".to_string());
    assert_eq!(s.listen_target(), (Transport::Udp, "udp:5".to_string()));
}

#[test]
fn message_framing() {
    assert_eq!(terminate_line(b"abc".to_vec()), b"abc\n".to_vec());
    assert_eq!(terminate_line(b"abc\n".to_vec()), b"abc\n".to_vec());
    assert_eq!(terminate_line(Vec::new()), b"\n".to_vec());
    assert_eq!(frame_datagram(Vec::new()), None);
    assert_eq!(frame_datagram(b"x".to_vec()), Some(b"x\n".to_vec()));
}

#[test]
fn whitespace_split() {
    assert_eq!(split_words("  -f  -u nginx\t"), vec!["-f", "-u", "nginx"]);
    assert!(split_words("   ").is_empty());
    assert!(split_words("").is_empty());
    assert_eq!(split_words("a\u{3000}b"), vec!["a", "b"]);
}

#[test]
fn source_descriptions() {
    let f = FileSource::new("f".to_string(), "/var/log/x".to_string());
    assert_eq!(f.name(), "f");
    assert_eq!(f.path(), "/var/log/x");
    let d = DmesgSource::new("k".to_string());
    let inv = d.invocation();
    assert_eq!(inv.program, "dmesg");
    assert_eq!(inv.args, vec!["-w".to_string()]);
    let j = JournalctlSource::new("j".to_string(), " -f  -u ssh ");
    let inv = j.invocation();
    assert_eq!(inv.program, "journalctl");
    assert_eq!(inv.args, vec!["-f", "-u", "ssh"]);
    assert_eq!(j.name(), "j");
}

fn cfg(t: &str, path: &str, args: &str) -> MonitorConfig {
    MonitorConfig {
        name: "m".to_string(),
        monitor_type: t.to_string(),
        path: path.to_string(),
        args: args.to_string(),
        pattern: String::new(),
        format: String::new(),
        exclude_pattern: String::new(),
        rate_limit_burst: None,
        rate_limit_window: None,
    }
}

#[test]
fn sources_from_configuration() {
    assert!(matches!(source_for(&cfg("file", "", "")), Err(SourceSkip::EmptyPath)));
    assert!(matches!(source_for(&cfg("file", "/x", "")), Ok(LogSource::File(_))));
    assert!(matches!(source_for(&cfg("command", "", "   ")), Err(SourceSkip::EmptyCommand)));
    match source_for(&cfg("command", "", "tail -F /var/log/syslog")) {
        Ok(LogSource::Command(c)) => {
            let inv = c.invocation();
            assert_eq!(inv.program, "tail");
            assert_eq!(inv.args, vec!["-F", "/var/log/syslog"]);
        }
        _ => panic!("expected a command source"),
    }
    assert!(matches!(source_for(&cfg("dmesg", "", "")), Ok(LogSource::Dmesg(_))));
    assert!(matches!(source_for(&cfg("journalctl", "", "-f")), Ok(LogSource::Journalctl(_))));
    assert!(matches!(source_for(&cfg("syslog", "udp:1.2.3.4:5", "")), Ok(LogSource::Syslog(_))));
    assert!(matches!(source_for(&cfg("kafka", "", "")), Err(SourceSkip::UnknownType)));
}
