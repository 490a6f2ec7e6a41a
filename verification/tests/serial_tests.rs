use openworkbench::firmware::{flash_progress, flash_start_message, FlashProgress};
use openworkbench::forms::file_name_or;
use openworkbench::serial::{
    append_capped, log_move, reader_step, send_start, send_step, LogMove, ReaderAction, ReaderEvent, SendNext,
    BUFFER_LIMIT,
};

#[test]
fn buffer_keeps_everything_under_the_limit() {
    assert_eq!(append_capped("abc", "def", 10), "abcdef");
    assert_eq!(append_capped("", "", BUFFER_LIMIT), "");
}

#[test]
fn buffer_keeps_the_last_bytes_over_the_limit() {
    assert_eq!(append_capped("abcdef", "ghij", 4), "ghij");
    assert_eq!(append_capped("abcdef", "gh", 5), "defgh");
    assert_eq!(append_capped("日志", "ab", 5), "志ab");
}

#[test]
fn buffer_cut_inside_a_character_moves_to_the_next_one() {
    // "日志ab" is 8 bytes; the last 4 start inside "志", so the cut moves past it.
    assert_eq!(append_capped("日志", "ab", 4), "ab");
    assert_eq!(append_capped("日志", "", 2), "");
    assert_eq!(append_capped("a\u{fffd}", "\u{fffd}", 5), "\u{fffd}");
    assert_eq!(append_capped("x", "日志", 6), "日志");
    let big = "日".repeat(BUFFER_LIMIT / 3 + 1);
    let out = append_capped(&big, "", BUFFER_LIMIT);
    assert!(out.len() <= BUFFER_LIMIT);
    assert!(out.len() > BUFFER_LIMIT - 3);
}

#[test]
fn buffer_limit_value() {
    assert_eq!(BUFFER_LIMIT, 200_000);
    let big = "x".repeat(BUFFER_LIMIT);
    let out = append_capped(&big, "yz", BUFFER_LIMIT);
    assert_eq!(out.len(), BUFFER_LIMIT);
    assert!(out.ends_with("xyz"));
}

#[test]
fn reader_ends_on_stop_and_failure() {
    assert!(matches!(reader_step(ReaderEvent::StopRequested, 10), ReaderAction::Finish));
    assert!(matches!(reader_step(ReaderEvent::Failed, 10), ReaderAction::Finish));
}

#[test]
fn reader_waits_on_silence() {
    assert!(matches!(reader_step(ReaderEvent::TimedOut, 10), ReaderAction::Wait));
    assert!(matches!(reader_step(ReaderEvent::Read(Vec::new()), 10), ReaderAction::Wait));
}

#[test]
fn reader_decodes_bytes() {
    match reader_step(ReaderEvent::Read(b"OK\r\n".to_vec()), 10) {
        ReaderAction::Show(t) => assert_eq!(t, "OK\r\n"),
        _ => panic!("expected text"),
    }
    match reader_step(ReaderEvent::Read(vec![b'a', 0xff, b'b']), 10) {
        ReaderAction::Show(t) => assert_eq!(t, "a\u{fffd}b"),
        _ => panic!("expected text"),
    }
}

#[test]
fn reader_rotates_a_full_log() {
    assert!(matches!(reader_step(ReaderEvent::LogSize(11), 10), ReaderAction::NewLog));
    assert!(matches!(reader_step(ReaderEvent::LogSize(10), 10), ReaderAction::Wait));
}


#[test]
fn flashing_walks_its_phases() {
    let expected = [
        ("初始化烧录引擎", 5, "初始化烧录引擎（5%）"),
        ("连接 FES 设备", 20, "连接 FES 设备（20%）"),
        ("发送固件头", 35, "发送固件头（35%）"),
        ("写入固件数据", 75, "写入固件数据（75%）"),
        ("校验固件", 95, "校验固件（95%）"),
    ];
    for (i, (n, p, m)) in expected.iter().enumerate() {
        match flash_progress(i) {
            FlashProgress::Phase { name, percent, message } => {
                assert_eq!(name, *n);
                assert_eq!(percent, *p);
                assert_eq!(message, *m);
            }
            FlashProgress::Done => panic!("phase {i} missing"),
        }
    }
    assert!(matches!(flash_progress(5), FlashProgress::Done));
    assert!(matches!(flash_progress(100), FlashProgress::Done));
}

#[test]
fn flashing_start_message() {
    assert_eq!(flash_start_message("boot.img"), "开始烧录 boot.img");
    assert_eq!(file_name_or("C:\\fw\\boot.img", ""), "boot.img");
    assert_eq!(file_name_or("/", ""), "");
}

#[test]
fn quick_sending_starts_with_the_first_command() {
    assert!(matches!(send_start(3), SendNext::Write(0)));
    assert!(matches!(send_start(0), SendNext::Done(None)));
}

#[test]
fn quick_sending_waits_then_moves_on() {
    let s = send_step(0, 3, Ok(()), 250);
    assert_eq!(s.wait_ms, 250);
    assert!(matches!(s.next, SendNext::Write(1)));
    let s = send_step(2, 3, Ok(()), 0);
    assert_eq!(s.wait_ms, 0);
    assert!(matches!(s.next, SendNext::Done(None)));
}

#[test]
fn quick_sending_stops_at_the_first_failure() {
    let s = send_step(1, 3, Err("串口未打开".to_string()), 250);
    assert_eq!(s.wait_ms, 0);
    match s.next {
        SendNext::Done(Some(e)) => assert_eq!(e, "串口未打开"),
        _ => panic!("expected the error"),
    }
}

#[test]
fn arriving_text_is_recorded_only_while_recording() {
    assert!(matches!(log_move(false, true, true), LogMove::Skip));
    assert!(matches!(log_move(true, false, false), LogMove::Skip));
    assert!(matches!(log_move(true, true, true), LogMove::Append));
    assert!(matches!(log_move(true, true, false), LogMove::StartAndAppend));
}
