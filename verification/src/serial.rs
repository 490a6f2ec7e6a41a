//! Serial port decisions: which port and speed to open, whether a write may
//! go out, the bytes that a line becomes, and the names of recorded logs.
use vstd::prelude::*;
use vstd::string::StringSliceAdditionalSpecFns;
use vstd::utf8::{
    encode_utf8, encode_utf8_valid_utf8, is_char_boundary, is_char_boundary_iff_not_is_continuation_byte,
    is_char_boundary_start_end_of_seq, valid_utf8,
};
use crate::logs::is_log_name;
use crate::models::{Device, OpenSerialPort};
use crate::path::{has_drive, is_sep};
use crate::text::{append_str, ends_with, from_utf8_lossy, lossy_utf8, is_blank, owned, parse_bounded, parse_u32, same_text, trim};
use crate::text::{decimal, digit_char, is_digit};
use crate::util::{civil_date, compact_text, is_name_char, padded, sanitize, sanitized};

verus! {

/// The port and speed to open: a chosen device's own port and speed when it
/// has them, else the port picked in the list and the speed typed (115200
/// when that is not a number).
pub open spec fn target_spec(device: Option<Device>, port: Seq<char>, baud_text: Seq<char>) -> (
    Seq<char>,
    u32,
) {
    let typed: u32 = match parse_bounded(baud_text, u32::MAX as u64) {
        Some(n) => n as u32,
        None => 115200,
    };
    match device {
        Some(d) => (
            if trim(d.serial_port@).len() == 0 {
                port
            } else {
                d.serial_port@
            },
            if d.baud_rate > 0 {
                d.baud_rate
            } else {
                typed
            },
        ),
        None => (port, typed),
    }
}

/// The first device with id `id`, if any.
pub open spec fn device_with_id(devices: Seq<Device>, id: i64) -> Option<Device>
    decreases devices.len(),
{
    if devices.len() == 0 {
        None
    } else if devices[0].id == id {
        Some(devices[0])
    } else {
        device_with_id(devices.drop_first(), id)
    }
}

/// The first device with id `id`, if any.
pub fn find_device(devices: &Vec<Device>, id: i64) -> (res: Option<&Device>)
    ensures
        match res {
            Some(d) => device_with_id(devices@, id) == Some(*d),
            None => device_with_id(devices@, id) is None,
        },
{
    let mut i: usize = 0;
    assert(devices@.skip(0) =~= devices@);
    while i < devices.len()
        invariant
            i <= devices.len(),
            device_with_id(devices@, id) == device_with_id(devices@.skip(i as int), id),
        decreases devices.len() - i,
    {
        assert(devices@.skip(i as int).drop_first() =~= devices@.skip(i + 1));
        if devices[i].id == id {
            return Some(&devices[i]);
        }
        i += 1;
    }
    None
}

/// Decides the port and speed for opening a serial port; refuses when no
/// port is chosen.
pub fn resolve_target(device: Option<&Device>, port: &str, baud_text: &str) -> (res: Result<
    (String, u32),
    String,
>)
    ensures
        ({
            let want = target_spec(
                match device {
                    Some(d) => Some(*d),
                    None => None,
                },
                port@,
                baud_text@,
            );
            &&& res is Ok <==> trim(want.0).len() != 0
            &&& res matches Ok(t) ==> t.0@ == want.0 && t.1 == want.1
            &&& res matches Err(e) ==> e@ == "未选择串口端口"@
        }),
{
    let typed = match parse_u32(baud_text) {
        Some(n) => n,
        None => 115200,
    };
    let (name, baud) = match device {
        Some(d) => {
            let p = if is_blank(d.serial_port.as_str()) {
                owned(port)
            } else {
                d.serial_port.clone()
            };
            let b = if d.baud_rate > 0 {
                d.baud_rate
            } else {
                typed
            };
            (p, b)
        },
        None => (owned(port), typed),
    };
    if is_blank(name.as_str()) {
        return Err(owned("未选择串口端口"));
    }
    Ok((name, baud))
}

/// Whether `port` is the port that is open.
pub fn is_open(opened: &Option<OpenSerialPort>, port: &str) -> (res: bool)
    ensures
        res == (opened matches Some(o) && o.port_name@ == port@),
{
    match opened {
        Some(o) => same_text(o.port_name.as_str(), port),
        None => false,
    }
}

/// Whether a write to `port` may go out: a port must be open, and it must be `port`.
pub fn check_write(opened: &Option<OpenSerialPort>, port: &str) -> (res: Result<(), String>)
    ensures
        res is Ok <==> (opened matches Some(o) && o.port_name@ == port@),
        res matches Err(e) ==> e@ == (if opened is None {
            "串口未打开"@
        } else {
            "串口 "@ + port@ + " 未打开"@
        }),
{
    match opened {
        None => Err(owned("串口未打开")),
        Some(o) => {
            if same_text(o.port_name.as_str(), port) {
                Ok(())
            } else {
                let mut e = owned("串口 ");
                append_str(&mut e, port);
                append_str(&mut e, " 未打开");
                Err(e)
            }
        },
    }
}

/// The bytes written for a line: its UTF-8 encoding, then `\n` if asked for.
pub fn frame_bytes(data: &str, append_newline: bool) -> (res: Vec<u8>)
    ensures
        res@ == data.spec_bytes() + (if append_newline {
            seq![10u8]
        } else {
            Seq::empty()
        }),
{
    let mut bytes = vstd::slice::slice_to_vec(data.as_bytes());
    if append_newline {
        bytes.push(10u8);
    }
    bytes
}

/// How many bytes of serial output the terminal keeps.
pub const BUFFER_LIMIT: usize = 200000;

/// The first character boundary of `total` at or after byte `k`.
pub open spec fn boundary_from(total: Seq<u8>, k: int) -> int
    decreases total.len() - k,
{
    if k >= total.len() {
        total.len() as int
    } else if is_char_boundary(total, k) {
        k
    } else {
        boundary_from(total, k + 1)
    }
}

/// Where the kept part of `total` starts: the first character boundary at
/// or after the start of its last `limit` bytes.
pub open spec fn keep_from(total: Seq<u8>, limit: nat) -> int {
    boundary_from(
        total,
        if total.len() > limit {
            total.len() - limit
        } else {
            0
        },
    )
}

/// The longest end of `total` that is at most `limit` bytes long and starts
/// on a character boundary.
pub open spec fn capped_bytes(total: Seq<u8>, limit: nat) -> Seq<u8> {
    total.skip(keep_from(total, limit))
}

/// The first boundary at or after `k` lies between `k` and the end, is a
/// boundary, no byte before it from `k` on is one, and it comes no later
/// than any boundary at or after `k`.
proof fn lemma_boundary_from(total: Seq<u8>, k: int)
    requires
        valid_utf8(total),
        0 <= k <= total.len(),
    ensures
        k <= boundary_from(total, k) <= total.len(),
        is_char_boundary(total, boundary_from(total, k)),
        forall|j: int| k <= j < boundary_from(total, k) ==> !is_char_boundary(total, j),
        forall|j: int|
            k <= j <= total.len() && is_char_boundary(total, j) ==> boundary_from(total, k) <= j,
    decreases total.len() - k,
{
    is_char_boundary_start_end_of_seq(total);
    if k < total.len() && !is_char_boundary(total, k) {
        lemma_boundary_from(total, k + 1);
    }
}

/// The encoding of two texts one after the other is their encodings one
/// after the other.
pub proof fn lemma_encode_concat(a: Seq<char>, b: Seq<char>)
    ensures
        encode_utf8(a + b) == encode_utf8(a) + encode_utf8(b),
    decreases a.len(),
{
    if a.len() == 0 {
        assert(a + b =~= b);
        assert(encode_utf8(a) + encode_utf8(b) =~= encode_utf8(b));
    } else {
        lemma_encode_concat(a.drop_first(), b);
        assert((a + b).drop_first() =~= a.drop_first() + b);
        assert((a + b)[0] == a[0]);
        assert(encode_utf8(a + b) =~= encode_utf8(a) + encode_utf8(b));
    }
}

/// The terminal buffer never holds more than `limit` bytes; it holds the
/// newest bytes that arrived, from a character boundary on, and the longest
/// such end (no boundary lies between the start of the last `limit` bytes
/// and where it starts); and text that arrives is kept whole when it fits in
/// the limit by itself.
pub proof fn lemma_buffer_bounded(before: Seq<char>, arrived: Seq<char>, limit: nat)
    ensures
        ({
            let total = encode_utf8(before + arrived);
            let kept = capped_bytes(total, limit);
            &&& kept.len() <= limit
            &&& kept == total.skip(total.len() - kept.len())
            &&& is_char_boundary(total, total.len() - kept.len())
            &&& forall|j: int|
                total.len() - limit <= j < total.len() - kept.len() ==> !is_char_boundary(total, j)
            &&& encode_utf8(arrived).len() <= limit ==> kept.skip(
                kept.len() - encode_utf8(arrived).len(),
            ) == encode_utf8(arrived)
        }),
{
    let total = encode_utf8(before + arrived);
    let b = encode_utf8(before);
    let a = encode_utf8(arrived);
    encode_utf8_valid_utf8(before + arrived);
    encode_utf8_valid_utf8(before);
    encode_utf8_valid_utf8(arrived);
    lemma_encode_concat(before, arrived);
    let start: int = if total.len() > limit {
        total.len() - limit
    } else {
        0
    };
    lemma_boundary_from(total, start);
    let k = keep_from(total, limit);
    let kept = capped_bytes(total, limit);
    assert(kept.len() == total.len() - k);
    assert(kept =~= total.skip(total.len() - kept.len()));
    if a.len() <= limit {
        assert(is_char_boundary(total, b.len() as int)) by {
            is_char_boundary_start_end_of_seq(total);
            is_char_boundary_start_end_of_seq(a);
            if a.len() > 0 {
                is_char_boundary_iff_not_is_continuation_byte(a, 0);
                is_char_boundary_iff_not_is_continuation_byte(total, b.len() as int);
                assert(total[b.len() as int] == a[0]);
            } else {
                assert(b.len() == total.len());
            }
        }
        assert(k <= b.len());
        assert(kept.skip(kept.len() - a.len()) =~= a);
    }
}

/// The terminal buffer after `text` arrives: the buffer followed by `text`,
/// cut to the longest end that is at most `limit` bytes long and starts on
/// a character boundary.
pub fn append_capped(buf: &str, text: &str, limit: usize) -> (res: String)
    requires
        encode_utf8(buf@ + text@).len() <= usize::MAX,
    ensures
        encode_utf8(res@) == capped_bytes(encode_utf8(buf@ + text@), limit as nat),
{
    let mut whole = owned(buf);
    append_str(&mut whole, text);
    let ws = whole.as_str();
    let ghost total = ws.spec_bytes();
    assert(total == encode_utf8(buf@ + text@));
    proof {
        encode_utf8_valid_utf8(buf@ + text@);
        is_char_boundary_start_end_of_seq(total);
    }
    let n = ws.len();
    let mut cut: usize = if n > limit {
        n - limit
    } else {
        0
    };
    let ghost start = cut as int;
    while cut < n && !ws.is_char_boundary(cut)
        invariant
            cut <= n,
            n == total.len(),
            total == ws.spec_bytes(),
            valid_utf8(total),
            start <= cut,
            boundary_from(total, start) == boundary_from(total, cut as int),
        decreases n - cut,
    {
        cut += 1;
    }
    assert(boundary_from(total, cut as int) == cut);
    assert(is_char_boundary(total, cut as int));
    let (_, tail) = ws.split_at(cut);
    let res = owned(tail);
    assert(encode_utf8(res@) == tail.spec_bytes());
    res
}

/// What the quick-command sender does next.
pub enum SendNext {
    /// Write the command at this index.
    Write(usize),
    /// Stop; with the error of the write that failed, if one did.
    Done(Option<String>),
}

/// The sender's move after a write: how long to wait, then what to do.
pub struct SendStep {
    pub wait_ms: u64,
    pub next: SendNext,
}

/// The first move of sending a window's `count` commands: the first
/// command, or nothing to do.
pub fn send_start(count: usize) -> (res: SendNext)
    ensures
        count > 0 ==> (res matches SendNext::Write(i) && i == 0),
        count == 0 ==> res matches SendNext::Done(None),
{
    if count > 0 {
        SendNext::Write(0)
    } else {
        SendNext::Done(None)
    }
}

/// The move after command `index` of `count` was written with `result`: a
/// failed write ends the run at once with its error; otherwise the sender
/// waits `interval_ms` and writes the next command, or stops after the last.
pub fn send_step(index: usize, count: usize, result: Result<(), String>, interval_ms: u64) -> (res:
    SendStep)
    requires
        index < count,
    ensures
        match result {
            Err(e) => res.wait_ms == 0 && (res.next matches SendNext::Done(Some(m)) && m@ == e@),
            Ok(()) => res.wait_ms == interval_ms && if index + 1 < count {
                res.next matches SendNext::Write(j) && j == index + 1
            } else {
                res.next matches SendNext::Done(None)
            },
        },
{
    match result {
        Err(e) => SendStep { wait_ms: 0, next: SendNext::Done(Some(e)) },
        Ok(()) => {
            let next = if index + 1 < count {
                SendNext::Write(index + 1)
            } else {
                SendNext::Done(None)
            };
            SendStep { wait_ms: interval_ms, next }
        },
    }
}

/// What becomes of the recorded log when text arrives.
pub enum LogMove {
    /// Nothing is recorded.
    Skip,
    /// The text is appended to the open log.
    Append,
    /// A new log is started and the text appended to it.
    StartAndAppend,
}

/// Whether arriving text is recorded: only while recording is on and logs
/// are enabled in the settings, into the open log, or into a new one when
/// none is open yet (recording was switched on after the port opened).
pub fn log_move(recording: bool, log_enabled: bool, log_open: bool) -> (res: LogMove)
    ensures
        !(recording && log_enabled) ==> res is Skip,
        recording && log_enabled && log_open ==> res is Append,
        recording && log_enabled && !log_open ==> res is StartAndAppend,
{
    if !(recording && log_enabled) {
        LogMove::Skip
    } else if log_open {
        LogMove::Append
    } else {
        LogMove::StartAndAppend
    }
}

/// What the port reader learns in one turn of its loop.
pub enum ReaderEvent {
    /// The port was asked to close.
    StopRequested,
    /// A read returned these bytes (none when nothing came).
    Read(Vec<u8>),
    /// A read waited its full time and nothing came.
    TimedOut,
    /// A read failed for any other reason.
    Failed,
    /// The recorded log has grown to this many bytes.
    LogSize(u64),
}

/// What the port reader does next.
pub enum ReaderAction {
    /// Leave the loop: the reader ends.
    Finish,
    /// Go round again.
    Wait,
    /// Append this text to the terminal buffer and to the log.
    Show(String),
    /// Start a new log file.
    NewLog,
}

/// One decision of the port reader: a close request or a failed read ends
/// it; bytes are decoded (invalid UTF-8 replaced) and shown; a log grown past
/// `max_file_size` bytes is replaced by a new one.
pub fn reader_step(event: ReaderEvent, max_file_size: u64) -> (action: ReaderAction)
    ensures
        match event {
            ReaderEvent::StopRequested => action is Finish,
            ReaderEvent::Failed => action is Finish,
            ReaderEvent::TimedOut => action is Wait,
            ReaderEvent::Read(bytes) => if bytes@.len() == 0 {
                action is Wait
            } else {
                action matches ReaderAction::Show(t) && t@ == lossy_utf8(bytes@)
            },
            ReaderEvent::LogSize(n) => if n > max_file_size {
                action is NewLog
            } else {
                action is Wait
            },
        },
{
    match event {
        ReaderEvent::StopRequested => ReaderAction::Finish,
        ReaderEvent::Failed => ReaderAction::Finish,
        ReaderEvent::TimedOut => ReaderAction::Wait,
        ReaderEvent::Read(bytes) => {
            if bytes.len() == 0 {
                ReaderAction::Wait
            } else {
                ReaderAction::Show(from_utf8_lossy(bytes.as_slice()))
            }
        },
        ReaderEvent::LogSize(n) => {
            if n > max_file_size {
                ReaderAction::NewLog
            } else {
                ReaderAction::Wait
            }
        },
    }
}

/// The name of a log recorded from `port_name` starting at `stamp`.
pub open spec fn log_name_spec(port_name: Seq<char>, stamp: Seq<char>) -> Seq<char> {
    sanitized(port_name) + "_"@ + stamp + ".log"@
}

/// The file name for a recording of `port_name` started at `stamp`
/// (`{port}_{stamp}.log`, the port made a safe name).
pub fn log_file_name(port_name: &str, stamp: &str) -> (res: String)
    ensures
        res@ == log_name_spec(port_name@, stamp@),
{
    let mut s = sanitize(port_name);
    append_str(&mut s, "_");
    append_str(&mut s, stamp);
    append_str(&mut s, ".log");
    s
}

/// Every log the recorder names from a time stamp is a name that the log
/// page accepts, so it can be read and deleted there.
pub proof fn lemma_recorded_names_are_log_names(port_name: Seq<char>, secs: nat)
    ensures
        is_log_name(log_name_spec(port_name, compact_text(secs))),
{
    reveal_strlit("_");
    reveal_strlit(".log");
    let stamp = compact_text(secs);
    lemma_stamp_is_plain(secs);
    let n = log_name_spec(port_name, stamp);
    let p = sanitized(port_name);
    let tail = ".log"@;
    assert(n =~= p + seq!['_'] + stamp + tail);
    assert forall|i: int| 0 <= i < n.len() implies !is_sep(#[trigger] n[i]) by {
        if i < p.len() {
            assert(is_name_char(p[i]));
        } else if i == p.len() {
        } else if i < p.len() + 1 + stamp.len() {
            assert(n[i] == stamp[i - p.len() - 1]);
        } else {
            assert(n[i] == tail[i - p.len() - 1 - stamp.len()]);
        }
    }
    assert(!has_drive(n)) by {
        if n.len() >= 2 {
            if p.len() >= 2 {
                assert(is_name_char(p[1]));
            } else if p.len() == 1 {
            } else if stamp.len() >= 1 {
                assert(n[1] == stamp[0]);
            } else {
                assert(n[1] == tail[0]);
            }
        }
    }
    assert(n.len() >= 5);
    assert(n != seq!['.']);
    assert(n != seq!['.', '.']);
    assert(n.skip(n.len() - 4) =~= tail);
    assert(ends_with(n, ".log"@));
}

/// A time stamp holds only digits and `_`.
proof fn lemma_stamp_is_plain(secs: nat)
    ensures
        forall|i: int|
            0 <= i < compact_text(secs).len() ==> ('0' <= #[trigger] compact_text(secs)[i] <= '9'
                || compact_text(secs)[i] == '_'),
{
    let (y, m, d) = civil_date(secs / 86400);
    let t = secs % 86400;
    lemma_padded_digits(y as nat, 4);
    lemma_padded_digits(m as nat, 2);
    lemma_padded_digits(d as nat, 2);
    lemma_padded_digits(t / 3600, 2);
    lemma_padded_digits((t % 3600) / 60, 2);
    lemma_padded_digits(t % 60, 2);
    let a = padded(y as nat, 4) + padded(m as nat, 2) + padded(d as nat, 2);
    let b = padded(t / 3600, 2) + padded((t % 3600) / 60, 2) + padded(t % 60, 2);
    lemma_concat_plain(padded(y as nat, 4), padded(m as nat, 2));
    lemma_concat_plain(padded(y as nat, 4) + padded(m as nat, 2), padded(d as nat, 2));
    lemma_concat_plain(a, seq!['_']);
    lemma_concat_plain(padded(t / 3600, 2), padded((t % 3600) / 60, 2));
    lemma_concat_plain(padded(t / 3600, 2) + padded((t % 3600) / 60, 2), padded(t % 60, 2));
    lemma_concat_plain(a + seq!['_'], b);
    assert(compact_text(secs) =~= a + seq!['_'] + b);
}

pub open spec fn is_stamp_text(s: Seq<char>) -> bool {
    forall|i: int| 0 <= i < s.len() ==> ('0' <= #[trigger] s[i] <= '9' || s[i] == '_')
}

proof fn lemma_concat_plain(a: Seq<char>, b: Seq<char>)
    requires
        is_stamp_text(a) || (forall|i: int| 0 <= i < a.len() ==> is_digit(#[trigger] a[i])) || a
            == seq!['_'],
        is_stamp_text(b) || (forall|i: int| 0 <= i < b.len() ==> is_digit(#[trigger] b[i])),
    ensures
        is_stamp_text(a + b),
{
    assert forall|i: int| 0 <= i < (a + b).len() implies ('0' <= #[trigger] (a + b)[i] <= '9'
        || (a + b)[i] == '_') by {
        if i < a.len() {
            assert((a + b)[i] == a[i]);
            if a == seq!['_'] {
                assert(a[i] == '_');
            }
        } else {
            assert((a + b)[i] == b[i - a.len()]);
        }
    }
}

proof fn lemma_padded_digits(n: nat, w: nat)
    ensures
        forall|i: int| 0 <= i < padded(n, w).len() ==> is_digit(#[trigger] padded(n, w)[i]),
{
    lemma_decimal_digits(n);
    let d = decimal(n);
    if d.len() < w {
        let z = Seq::new((w - d.len()) as nat, |i: int| '0');
        assert forall|i: int| 0 <= i < (z + d).len() implies is_digit(#[trigger] (z + d)[i]) by {
            if i < z.len() {
                assert((z + d)[i] == '0');
            } else {
                assert((z + d)[i] == d[i - z.len()]);
            }
        }
    }
}

proof fn lemma_digit_char_is_digit(d: nat)
    requires
        d < 10,
    ensures
        is_digit(digit_char(d)),
{
    let t = seq!['0', '1', '2', '3', '4', '5', '6', '7', '8', '9'];
    assert(t[d as int] == digit_char(d));
    assert(forall|k: int| 0 <= k < 10 ==> is_digit(#[trigger] t[k])) by {
        assert(t[0] == '0' && t[1] == '1' && t[2] == '2' && t[3] == '3' && t[4] == '4');
        assert(t[5] == '5' && t[6] == '6' && t[7] == '7' && t[8] == '8' && t[9] == '9');
    }
}

proof fn lemma_decimal_digits(n: nat)
    ensures
        forall|i: int| 0 <= i < decimal(n).len() ==> is_digit(#[trigger] decimal(n)[i]),
    decreases n,
{
    lemma_digit_char_is_digit(n % 10);
    if n >= 10 {
        lemma_decimal_digits(n / 10);
        let d = decimal(n / 10);
        assert forall|i: int| 0 <= i < decimal(n).len() implies is_digit(
            #[trigger] decimal(n)[i],
        ) by {
            if i < d.len() {
                assert(decimal(n)[i] == d[i]);
            }
        }
    }
}

} // verus!
