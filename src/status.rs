//! The control channel's messages and the status listing's text.
use vstd::prelude::*;
use vstd::utf8::encode_utf8;
use crate::config::{Config, ConfigView, MonitorConfigView};
use crate::sources::{split_words, words};
use crate::text::{chars_of, owned, str_eq};

verus! {

/// What a running instance reports about itself.
pub struct StatusResponse {
    pub pid: u32,
    /// Seconds since the Unix epoch.
    pub start_time: u64,
    pub version: String,
    pub config: Option<Config>,
    /// Bytes of memory the instance holds.
    pub memory_alloc: u64,
}

/// What a control request asks for.
#[derive(PartialEq, Eq, Structural, Clone, Copy, Debug)]
pub enum Route {
    /// `GET /status`: report the instance's status.
    Status,
    /// `POST /update`: restart the instance.
    Update,
    /// Anything else.
    NotFound,
}

/// The `i`-th word of a request, empty where there is none.
pub open spec fn word_or_empty(ws: Seq<Seq<char>>, i: int) -> Seq<char> {
    if 0 <= i < ws.len() {
        ws[i]
    } else {
        Seq::empty()
    }
}

/// The route a request's method and path select.
pub open spec fn route_of(request: Seq<char>) -> Route {
    let method = word_or_empty(words(request), 0);
    let path = word_or_empty(words(request), 1);
    if method == "GET"@ && path == "/status"@ {
        Route::Status
    } else if method == "POST"@ && path == "/update"@ {
        Route::Update
    } else {
        Route::NotFound
    }
}

/// Reads the method and path of a control request.
pub fn route_request(request: &str) -> (r: Route)
    ensures
        r == route_of(request@),
{
    let ws = split_words(request);
    let e = String::new();
    let method = if ws.len() > 0 {
        &ws[0]
    } else {
        &e
    };
    let path = if ws.len() > 1 {
        &ws[1]
    } else {
        &e
    };
    assert(method@ == word_or_empty(words(request@), 0));
    assert(path@ == word_or_empty(words(request@), 1));
    if str_eq(method.as_str(), "GET") && str_eq(path.as_str(), "/status") {
        Route::Status
    } else if str_eq(method.as_str(), "POST") && str_eq(path.as_str(), "/update") {
        Route::Update
    } else {
        Route::NotFound
    }
}

/// Whether `p` occurs in `s` at `i`.
pub open spec fn occurs_at(s: Seq<char>, p: Seq<char>, i: int) -> bool {
    0 <= i && i + p.len() <= s.len() && s.subrange(i, i + p.len()) == p
}

/// The end of an HTTP response's head.
pub open spec fn head_end() -> Seq<char> {
    seq!['\r', '\n', '\r', '\n']
}

/// The body of an HTTP response: what follows the first blank line.
pub fn response_body(response: &str) -> (r: Option<String>)
    ensures
        r matches Some(b) ==> exists|i: int|
            occurs_at(response@, head_end(), i) && (forall|j: int|
                0 <= j < i ==> !occurs_at(response@, head_end(), j)) && b@ == response@.subrange(
                i + 4,
                response@.len() as int,
            ),
        r is None ==> forall|i: int| !occurs_at(response@, head_end(), i),
{
    let v = chars_of(response);
    let n = v.len();
    if n < 4 {
        assert forall|i: int| !occurs_at(response@, head_end(), i) by {}
        return None;
    }
    let mut i: usize = 0;
    while i <= n - 4
        invariant
            n == v@.len(),
            v@ == response@,
            n >= 4,
            i <= n - 3,
            forall|j: int| 0 <= j < i ==> !occurs_at(response@, head_end(), j),
        decreases n - i,
    {
        if v[i] == '\r' && v[i + 1] == '\n' && v[i + 2] == '\r' && v[i + 3] == '\n' {
            assert(v@.subrange(i as int, i + 4) =~= head_end());
            let body = owned(response.substring_char(i + 4, n));
            assert(occurs_at(response@, head_end(), i as int));
            assert(body@ == response@.subrange(i + 4, response@.len() as int));
            return Some(body);
        }
        assert(!occurs_at(response@, head_end(), i as int)) by {
            if occurs_at(response@, head_end(), i as int) {
                let w = v@.subrange(i as int, i + 4);
                assert(w[0] == v@[i as int] && w[1] == v@[i + 1] && w[2] == v@[i + 2] && w[3]
                    == v@[i + 3]);
            }
        }
        i = i + 1;
    }
    None
}

/// The character of a decimal digit.
pub open spec fn digit_char(d: nat) -> char {
    if d == 0 {
        '0'
    } else if d == 1 {
        '1'
    } else if d == 2 {
        '2'
    } else if d == 3 {
        '3'
    } else if d == 4 {
        '4'
    } else if d == 5 {
        '5'
    } else if d == 6 {
        '6'
    } else if d == 7 {
        '7'
    } else if d == 8 {
        '8'
    } else {
        '9'
    }
}

/// `n` written in decimal.
pub open spec fn decimal(n: nat) -> Seq<char>
    decreases n,
{
    if n < 10 {
        seq![digit_char(n)]
    } else {
        decimal(n / 10) + seq![digit_char(n % 10)]
    }
}

fn digit_str(d: u64) -> (r: &'static str)
    requires
        d < 10,
    ensures
        r@ == seq![digit_char(d as nat)],
{
    proof {
        reveal_strlit("0");
        reveal_strlit("1");
        reveal_strlit("2");
        reveal_strlit("3");
        reveal_strlit("4");
        reveal_strlit("5");
        reveal_strlit("6");
        reveal_strlit("7");
        reveal_strlit("8");
        reveal_strlit("9");
    }
    let r = if d == 0 {
        "0"
    } else if d == 1 {
        "1"
    } else if d == 2 {
        "2"
    } else if d == 3 {
        "3"
    } else if d == 4 {
        "4"
    } else if d == 5 {
        "5"
    } else if d == 6 {
        "6"
    } else if d == 7 {
        "7"
    } else if d == 8 {
        "8"
    } else {
        "9"
    };
    assert(r@ =~= seq![digit_char(d as nat)]);
    r
}

/// Writes `n` in decimal.
pub fn decimal_string(n: u64) -> (r: String)
    ensures
        r@ == decimal(n as nat),
    decreases n,
{
    if n < 10 {
        owned(digit_str(n))
    } else {
        let mut s = decimal_string(n / 10);
        s.append(digit_str(n % 10));
        s
    }
}

pub open spec fn duration_parts(seconds: nat) -> (nat, nat, nat, nat) {
    (seconds / 86400, (seconds % 86400) / 3600, (seconds % 3600) / 60, seconds % 60)
}

/// An uptime in its two or three largest units: `2d 3h 4m`, `3h 4m 5s`,
/// `4m 5s` or `5s`.
pub open spec fn duration_text(seconds: nat) -> Seq<char> {
    let (d, h, m, s) = duration_parts(seconds);
    if d > 0 {
        decimal(d) + "d "@ + decimal(h) + "h "@ + decimal(m) + "m"@
    } else if h > 0 {
        decimal(h) + "h "@ + decimal(m) + "m "@ + decimal(s) + "s"@
    } else if m > 0 {
        decimal(m) + "m "@ + decimal(s) + "s"@
    } else {
        decimal(s) + "s"@
    }
}

pub fn format_duration(seconds: u64) -> (r: String)
    ensures
        r@ == duration_text(seconds as nat),
{
    let days = seconds / 86400;
    let hours = (seconds % 86400) / 3600;
    let minutes = (seconds % 3600) / 60;
    let secs = seconds % 60;
    if days > 0 {
        let mut s = decimal_string(days);
        s.append("d ");
        s.append(decimal_string(hours).as_str());
        s.append("h ");
        s.append(decimal_string(minutes).as_str());
        s.append("m");
        s
    } else if hours > 0 {
        let mut s = decimal_string(hours);
        s.append("h ");
        s.append(decimal_string(minutes).as_str());
        s.append("m ");
        s.append(decimal_string(secs).as_str());
        s.append("s");
        s
    } else if minutes > 0 {
        let mut s = decimal_string(minutes);
        s.append("m ");
        s.append(decimal_string(secs).as_str());
        s.append("s");
        s
    } else {
        let mut s = decimal_string(secs);
        s.append("s");
        s
    }
}

/// The control socket's file name for the instance with process id `pid`.
pub fn socket_file_name(pid: u32) -> (r: String)
    ensures
        r@ == "sentrylogmon."@ + decimal(pid as nat) + ".sock"@,
{
    let mut s = owned("sentrylogmon.");
    s.append(decimal_string(pid as u64).as_str());
    s.append(".sock");
    s
}

/// Permission bits that the control directory must have: owner only.
pub const PRIVATE_DIR_MODE: u32 = 0o700;

/// What is wrong with the control directory.
#[derive(PartialEq, Eq, Structural, Clone, Copy, Debug)]
pub enum DirProblem {
    NotADirectory,
    Symlink,
    /// Owned by another user (the owner's uid).
    WrongOwner(u32),
}

/// What to do about the control directory as found: `mode` is its permission
/// word, `owner` its owner's uid, `me` the current uid. `Ok(true)` asks for its
/// permissions to be reset to `PRIVATE_DIR_MODE`. A wrong owner is reported
/// after that reset.
pub fn directory_check(is_dir: bool, is_symlink: bool, mode: u32, owner: u32, me: u32) -> (r:
    (bool, Result<(), DirProblem>))
    ensures
        !is_dir ==> r == (false, Err::<(), DirProblem>(DirProblem::NotADirectory)),
        is_dir && is_symlink ==> r == (false, Err::<(), DirProblem>(DirProblem::Symlink)),
        is_dir && !is_symlink ==> r.0 == (mode & 0o777u32 != PRIVATE_DIR_MODE) && r.1 == if owner
            == me {
            Ok::<(), DirProblem>(())
        } else {
            Err(DirProblem::WrongOwner(owner))
        },
{
    if !is_dir {
        return (false, Err(DirProblem::NotADirectory));
    }
    if is_symlink {
        return (false, Err(DirProblem::Symlink));
    }
    let reset = mode & 0o777u32 != PRIVATE_DIR_MODE;
    if owner == me {
        (reset, Ok(()))
    } else {
        (reset, Err(DirProblem::WrongOwner(owner)))
    }
}

/// How long a profile is taken: the requested seconds kept within 1..=60,
/// 30 where none is requested.
pub fn profile_seconds(requested: Option<u64>) -> (r: u64)
    ensures
        r == match requested {
            None => 30,
            Some(s) => if s < 1 {
                1
            } else if s > 60 {
                60
            } else {
                s
            },
        },
{
    match requested {
        None => 30,
        Some(s) => if s < 1 {
            1
        } else if s > 60 {
            60
        } else {
            s
        },
    }
}

/// Length of a text in bytes, as UTF-8, as `str::len` reports it.
pub open spec fn byte_len(s: Seq<char>) -> int {
    (encode_utf8(s).len() as usize) as int
}

/// Widest the monitors column gets, in bytes.
pub const DETAILS_LIMIT: usize = 60;

/// Room kept for a ` (+N more)` note.
pub const MORE_NOTE_ROOM: usize = 12;

/// How one monitor is listed: `name(type)`.
pub open spec fn monitor_label(m: MonitorConfigView) -> Seq<char> {
    m.name + "("@ + m.monitor_type + ")"@
}

pub open spec fn labels(ms: Seq<MonitorConfigView>) -> Seq<Seq<char>> {
    ms.map_values(|m: MonitorConfigView| monitor_label(m))
}

/// The first label, cut to fit when it is too wide: with more labels to come
/// a note's room is kept, and a cut label ends in `...`.
pub open spec fn first_label_shown(part: Seq<char>, count: nat) -> Seq<char> {
    let suffix: int = if count > 1 {
        MORE_NOTE_ROOM as int
    } else {
        0
    };
    if byte_len(part) + suffix > DETAILS_LIMIT {
        let avail0 = DETAILS_LIMIT - suffix - 3;
        let avail = if avail0 < 10 {
            10
        } else {
            avail0
        };
        if byte_len(part) > avail {
            let keep = if avail < part.len() {
                avail
            } else {
                part.len() as int
            };
            part.subrange(0, keep) + "..."@
        } else {
            part
        }
    } else {
        part
    }
}

/// The monitors column from label `i` on, after `shown`: labels are added,
/// comma-separated, while they fit (keeping room for a note unless it is the
/// last); the first that does not fit ends the column with ` (+N more)`.
pub open spec fn labels_from(parts: Seq<Seq<char>>, i: nat, shown: Seq<char>) -> Seq<char>
    decreases parts.len() - i,
{
    if i >= parts.len() {
        shown
    } else if i == 0 {
        labels_from(parts, 1, shown + first_label_shown(parts[0], parts.len()))
    } else {
        let reserved: int = if i == parts.len() - 1 {
            0
        } else {
            MORE_NOTE_ROOM as int
        };
        if byte_len(shown) + 2 + byte_len(parts[i as int]) + reserved <= DETAILS_LIMIT {
            labels_from(parts, i + 1, shown + ", "@ + parts[i as int])
        } else {
            shown + " (+"@ + decimal((parts.len() - i) as nat) + " more)"@
        }
    }
}

/// The monitors column of the status listing; `-` where there is nothing to show.
pub open spec fn details_text(config: Option<ConfigView>) -> Seq<char> {
    match config {
        None => "-"@,
        Some(c) => {
            let b = labels_from(labels(c.monitors), 0, Seq::empty());
            if b.len() == 0 {
                "-"@
            } else {
                b
            }
        },
    }
}

/// Lists a configuration's monitors in one column of bounded width.
pub fn format_details(config: Option<&Config>) -> (r: String)
    ensures
        r@ == details_text(
            match config {
                Some(c) => Some(c@),
                None => None,
            },
        ),
{
    let cfg = match config {
        None => {
            return owned("-");
        },
        Some(c) => c,
    };
    let monitors = &cfg.monitors;
    let ghost ms = cfg@.monitors;
    let mut parts: Vec<String> = Vec::new();
    let mut j: usize = 0;
    while j < monitors.len()
        invariant
            j <= monitors@.len(),
            ms == crate::config::monitor_views(monitors@),
            parts@.len() == j,
            forall|k: int| 0 <= k < j ==> (#[trigger] parts@[k])@ == labels(ms)[k],
        decreases monitors.len() - j,
    {
        let mut p = monitors[j].name.clone();
        p.append("(");
        p.append(monitors[j].monitor_type.as_str());
        p.append(")");
        parts.push(p);
        j = j + 1;
    }
    let ghost ps = labels(ms);
    assert(crate::text::views(parts@) =~= ps);
    let n = parts.len();
    let mut buffer = String::new();
    let mut i: usize = 0;
    while i < n
        invariant
            n == ps.len(),
            ps == labels(cfg@.monitors),
            config == Some(cfg),
            parts@.len() == n,
            forall|k: int| 0 <= k < n ==> (#[trigger] parts@[k])@ == ps[k],
            i <= n,
            labels_from(ps, i as nat, buffer@) == labels_from(ps, 0, Seq::empty()),
        decreases n - i,
    {
        let ghost b0 = buffer@;
        if i == 0 {
            let part = &parts[0];
            let suffix: usize = if n > 1 {
                MORE_NOTE_ROOM
            } else {
                0
            };
            let blen = part.as_str().len();
            if blen as u128 + suffix as u128 > DETAILS_LIMIT as u128 {
                let avail0 = DETAILS_LIMIT - suffix - 3;
                let avail = if avail0 < 10 {
                    10
                } else {
                    avail0
                };
                if blen > avail {
                    let chars = part.as_str().unicode_len();
                    let keep = if avail < chars {
                        avail
                    } else {
                        chars
                    };
                    buffer.append(part.as_str().substring_char(0, keep));
                    buffer.append("...");
                } else {
                    buffer.append(part.as_str());
                }
            } else {
                buffer.append(part.as_str());
            }
            assert(buffer@ == b0 + first_label_shown(ps[0], n as nat));
            assert(labels_from(ps, 0, b0) == labels_from(ps, 1, b0 + first_label_shown(ps[0], n as nat)));
            i = 1;
        } else {
            let reserved: usize = if i == n - 1 {
                0
            } else {
                MORE_NOTE_ROOM
            };
            let part = &parts[i];
            if buffer.as_str().len() as u128 + 2 + part.as_str().len() as u128 + reserved as u128
                <= DETAILS_LIMIT as u128 {
                buffer.append(", ");
                buffer.append(part.as_str());
                assert(labels_from(ps, i as nat, b0) == labels_from(ps, (i + 1) as nat, b0 + ", "@ + ps[i as int]));
                i = i + 1;
            } else {
                buffer.append(" (+");
                buffer.append(decimal_string((n - i) as u64).as_str());
                buffer.append(" more)");
                assert(labels_from(ps, i as nat, b0) == b0 + " (+"@ + decimal((n - i) as nat) + " more)"@);
                assert(buffer@.len() > 0) by {
                    reveal_strlit(" more)");
                }
                return buffer;
            }
        }
    }
    if buffer.as_str().is_empty() {
        owned("-")
    } else {
        buffer
    }
}

/// One line of the status listing.
pub struct InstanceRow {
    pub pid: String,
    pub started: String,
    pub uptime: String,
    pub mem: String,
    pub version: String,
    pub monitors: String,
}

/// Seconds from `start` to `now`; 0 where the clock reads earlier.
pub open spec fn uptime_secs(start: u64, now: u64) -> nat {
    if now >= start {
        (now - start) as nat
    } else {
        0
    }
}

/// The listing row of an instance. The start time and memory size come
/// already written out.
pub fn instance_row(inst: &StatusResponse, now: u64, started: String, mem: String) -> (r:
    InstanceRow)
    ensures
        r.pid@ == decimal(inst.pid as nat),
        r.started@ == started@,
        r.uptime@ == duration_text(uptime_secs(inst.start_time, now)),
        r.mem@ == mem@,
        r.version@ == (if inst.version@.len() == 0 {
            "-"@
        } else {
            inst.version@
        }),
        r.monitors@ == details_text(
            match inst.config {
                Some(c) => Some(c@),
                None => None,
            },
        ),
{
    let uptime = if now >= inst.start_time {
        now - inst.start_time
    } else {
        0
    };
    let version = if inst.version.as_str().is_empty() {
        owned("-")
    } else {
        inst.version.clone()
    };
    let monitors = match &inst.config {
        Some(c) => format_details(Some(c)),
        None => format_details(None),
    };
    InstanceRow {
        pid: decimal_string(inst.pid as u64),
        started,
        uptime: format_duration(uptime),
        mem,
        version,
        monitors,
    }
}

/// The columns of a row, left to right.
pub open spec fn row_columns(r: InstanceRow) -> Seq<Seq<char>> {
    seq![r.pid@, r.started@, r.uptime@, r.mem@, r.version@, r.monitors@]
}

/// The column titles.
pub open spec fn header_columns() -> Seq<Seq<char>> {
    seq!["PID"@, "STARTED"@, "UPTIME"@, "MEM"@, "VERSION"@, "MONITORS"@]
}

/// Width of column `k`: the widest of its title and its cells, in bytes.
pub open spec fn column_width(rows: Seq<Seq<Seq<char>>>, k: int) -> int
    decreases rows.len(),
{
    if rows.len() == 0 {
        byte_len(header_columns()[k])
    } else {
        let w = column_width(rows.drop_last(), k);
        let c = byte_len(rows.last()[k]);
        if c > w {
            c
        } else {
            w
        }
    }
}

/// `s` padded on the right with blanks to `w` characters.
pub open spec fn padded(s: Seq<char>, w: int) -> Seq<char> {
    s + Seq::new(
        if w > s.len() {
            (w - s.len()) as nat
        } else {
            0
        },
        |i: int| ' ',
    )
}

/// One line of the listing: the first five columns padded to their widths,
/// one blank between columns, the last column as it is.
pub open spec fn table_line(cols: Seq<Seq<char>>, widths: Seq<int>) -> Seq<char> {
    padded(cols[0], widths[0]) + seq![' '] + padded(cols[1], widths[1]) + seq![' '] + padded(
        cols[2],
        widths[2],
    ) + seq![' '] + padded(cols[3], widths[3]) + seq![' '] + padded(cols[4], widths[4]) + seq![
        ' ',
    ] + cols[5] + seq!['\n']
}

pub open spec fn table_lines(rows: Seq<Seq<Seq<char>>>, widths: Seq<int>) -> Seq<char>
    decreases rows.len(),
{
    if rows.len() == 0 {
        Seq::empty()
    } else {
        table_lines(rows.drop_last(), widths) + table_line(rows.last(), widths)
    }
}

/// The status listing: a title line, then one line per row, columns aligned.
pub open spec fn table_text(rows: Seq<InstanceRow>) -> Seq<char> {
    let cells = rows.map_values(|r: InstanceRow| row_columns(r));
    let widths = Seq::new(5, |k: int| column_width(cells, k));
    table_line(header_columns(), widths) + table_lines(cells, widths)
}

fn column_of(r: &InstanceRow, k: usize) -> (c: &String)
    requires
        k < 6,
    ensures
        c@ == row_columns(*r)[k as int],
{
    if k == 0 {
        &r.pid
    } else if k == 1 {
        &r.started
    } else if k == 2 {
        &r.uptime
    } else if k == 3 {
        &r.mem
    } else if k == 4 {
        &r.version
    } else {
        &r.monitors
    }
}

fn title_of(k: usize) -> (t: &'static str)
    requires
        k < 6,
    ensures
        t@ == header_columns()[k as int],
{
    if k == 0 {
        "PID"
    } else if k == 1 {
        "STARTED"
    } else if k == 2 {
        "UPTIME"
    } else if k == 3 {
        "MEM"
    } else if k == 4 {
        "VERSION"
    } else {
        "MONITORS"
    }
}

fn push_padded(out: &mut String, s: &str, w: usize)
    ensures
        final(out)@ == old(out)@ + padded(s@, w as int),
{
    out.append(s);
    let n = s.unicode_len();
    let mut i = n;
    let ghost base = out@;
    while i < w
        invariant
            n <= i,
            i == n || i <= w,
            n == s@.len(),
            base == old(out)@ + s@,
            out@ == base + Seq::new((i - n) as nat, |j: int| ' '),
        decreases w - i,
    {
        out.append(" ");
        proof {
            reveal_strlit(" ");
        }
        assert(out@ =~= base + Seq::new((i + 1 - n) as nat, |j: int| ' '));
        i = i + 1;
    }
    assert(old(out)@ + padded(s@, w as int) =~= base + Seq::new((i - n) as nat, |j: int| ' '));
}

fn push_line(out: &mut String, cols: &Vec<&str>, widths: &Vec<usize>)
    requires
        cols@.len() == 6,
        widths@.len() == 5,
    ensures
        final(out)@ == old(out)@ + table_line(
            Seq::new(6, |k: int| cols@[k]@),
            Seq::new(5, |k: int| widths@[k] as int),
        ),
{
    let ghost start = out@;
    push_padded(out, cols[0], widths[0]);
    out.append(" ");
    push_padded(out, cols[1], widths[1]);
    out.append(" ");
    push_padded(out, cols[2], widths[2]);
    out.append(" ");
    push_padded(out, cols[3], widths[3]);
    out.append(" ");
    push_padded(out, cols[4], widths[4]);
    out.append(" ");
    out.append(cols[5]);
    out.append("\n");
    proof {
        reveal_strlit(" ");
        reveal_strlit("\n");
    }
    let ghost c = Seq::new(6, |k: int| cols@[k]@);
    let ghost w = Seq::new(5, |k: int| widths@[k] as int);
    assert(out@ =~= start + table_line(c, w));
}

/// Lays out the status listing (see `table_text`).
pub fn render_instance_table(rows: &Vec<InstanceRow>) -> (r: String)
    ensures
        r@ == table_text(rows@),
{
    let ghost cells = rows@.map_values(|r: InstanceRow| row_columns(r));
    let mut widths: Vec<usize> = Vec::new();
    let mut k: usize = 0;
    while k < 5
        invariant
            k <= 5,
            cells == rows@.map_values(|r: InstanceRow| row_columns(r)),
            widths@.len() == k,
            forall|j: int| 0 <= j < k ==> widths@[j] as int == column_width(cells, j),
        decreases 5 - k,
    {
        let mut w = title_of(k).len();
        let mut i: usize = 0;
        assert(cells.subrange(0, 0) =~= Seq::<Seq<Seq<char>>>::empty());
        while i < rows.len()
            invariant
                k < 5,
                i <= rows@.len(),
                cells == rows@.map_values(|r: InstanceRow| row_columns(r)),
                w as int == column_width(cells.subrange(0, i as int), k as int),
            decreases rows.len() - i,
        {
            let c = column_of(&rows[i], k).as_str().len();
            assert(cells.subrange(0, i + 1).drop_last() =~= cells.subrange(0, i as int));
            assert(cells.subrange(0, i + 1).last() == row_columns(rows@[i as int]));
            if c > w {
                w = c;
            }
            i = i + 1;
        }
        assert(cells.subrange(0, rows@.len() as int) =~= cells);
        widths.push(w);
        k = k + 1;
    }
    let ghost ws = Seq::new(5, |j: int| column_width(cells, j));
    assert(Seq::new(5, |j: int| widths@[j] as int) =~= ws);
    let mut out = String::new();
    let mut titles: Vec<&str> = Vec::new();
    let mut k: usize = 0;
    while k < 6
        invariant
            k <= 6,
            titles@.len() == k,
            forall|j: int| 0 <= j < k ==> (#[trigger] titles@[j])@ == header_columns()[j],
        decreases 6 - k,
    {
        titles.push(title_of(k));
        k = k + 1;
    }
    assert(Seq::new(6, |j: int| titles@[j]@) =~= header_columns());
    push_line(&mut out, &titles, &widths);
    let mut i: usize = 0;
    assert(cells.subrange(0, 0) =~= Seq::<Seq<Seq<char>>>::empty());
    while i < rows.len()
        invariant
            i <= rows@.len(),
            widths@.len() == 5,
            cells == rows@.map_values(|r: InstanceRow| row_columns(r)),
            ws == Seq::new(5, |j: int| widths@[j] as int),
            out@ == table_line(header_columns(), ws) + table_lines(cells.subrange(0, i as int), ws),
        decreases rows.len() - i,
    {
        let r = &rows[i];
        let mut cols: Vec<&str> = Vec::new();
        let mut k: usize = 0;
        while k < 6
            invariant
                k <= 6,
                cols@.len() == k,
                forall|j: int| 0 <= j < k ==> (#[trigger] cols@[j])@ == row_columns(*r)[j],
            decreases 6 - k,
        {
            cols.push(column_of(r, k).as_str());
            k = k + 1;
        }
        assert(Seq::new(6, |j: int| cols@[j]@) =~= row_columns(*r));
        push_line(&mut out, &cols, &widths);
        assert(cells.subrange(0, i + 1).drop_last() =~= cells.subrange(0, i as int));
        assert(cells.subrange(0, i + 1).last() == row_columns(rows@[i as int]));
        i = i + 1;
    }
    assert(cells.subrange(0, rows@.len() as int) =~= cells);
    out
}

} // verus!
