use meetwo::log_line::{format_capture, LineKind, LogPatterns};
use meetwo::pattern::{Pattern, PatternError};
use meetwo::tail::{messages_for_lines, LogTail};

fn patterns() -> LogPatterns {
    LogPatterns::new().expect("the patterns compile")
}

const PREFIX: &str = "[12:34:56] [Server thread/INFO] [net.minecraft.server.MinecraftServer/]: ";

#[test]
fn invalid_pattern_is_refused() {
    assert!(matches!(Pattern::new("foo(bar"), Err(PatternError::Invalid)));
    let p = Pattern::new("a+").unwrap();
    assert_eq!(p.source(), "a+");
}

#[test]
fn rcon_lines_are_forwarded_as_captured() {
    let p = patterns();
    let line = "[12:34:56] [Server thread/INFO]: [Not Secure] [Rcon] hello there";
    assert_eq!(p.line_message(line), Some("hello there".to_string()));
}

#[test]
fn start_line_reports_load_time() {
    let p = patterns();
    let line = "[12:34:56] [Server thread/INFO]: Dedicated server took 12.345 seconds to load";
    assert_eq!(p.line_message(line), Some("サーバー起動完了(12.345秒)".to_string()));
}

#[test]
fn stop_lines_report_shutdown() {
    let p = patterns();
    assert_eq!(
        p.line_message("[12:34:56] [Server thread/INFO]: Stopping the server"),
        Some("サーバー終了".to_string())
    );
    assert_eq!(p.line_message("Stopping server"), Some("サーバー終了".to_string()));
}

#[test]
fn advancement_lines_are_prefixed() {
    let p = patterns();
    let line = format!("{PREFIX}Steve has made the advancement [Stone Age]");
    assert_eq!(
        p.line_message(&line),
        Some("実績解除:Steve has made the advancement [Stone Age]".to_string())
    );
    let line = format!("{PREFIX}Alex has completed the challenge [Arbalistic]");
    assert_eq!(
        p.line_message(&line),
        Some("実績解除:Alex has completed the challenge [Arbalistic]".to_string())
    );
}

#[test]
fn death_lines_are_forwarded_as_captured() {
    let p = patterns();
    let line = format!("{PREFIX}Steve fell from a high place");
    assert_eq!(p.line_message(&line), Some("Steve fell from a high place".to_string()));
    let line = format!("{PREFIX}Alex was slain by Zombie");
    assert_eq!(p.line_message(&line), Some("Alex was slain by Zombie".to_string()));
}

#[test]
fn chat_lines_are_forwarded_as_captured() {
    let p = patterns();
    let line = format!("{PREFIX}<Steve>   hello world");
    assert_eq!(p.line_message(&line), Some("<Steve>   hello world".to_string()));
    let line = "[12:00:00] [Server thread/INFO] [minecraft/MinecraftServer/]: <Steve> hello";
    assert_eq!(p.line_message(line), Some("<Steve> hello".to_string()));
}

#[test]
fn join_and_leave_notices_are_forwarded_as_captured() {
    let p = patterns();
    let line = format!("{PREFIX}Steve joined the game");
    assert_eq!(p.line_message(&line), Some("Steve joined the game".to_string()));
    let line = format!("{PREFIX}Alex left the game");
    assert_eq!(p.line_message(&line), Some("Alex left the game".to_string()));
}

#[test]
fn unrecognised_lines_are_not_forwarded() {
    let p = patterns();
    assert_eq!(p.line_message("[12:34:56] [Server thread/INFO]: Preparing level \"world\""), None);
    assert_eq!(p.line_message(""), None);
}

#[test]
fn first_matching_pattern_decides() {
    let p = patterns();
    // an RCON line that also mentions stopping is forwarded as RCON text
    let line = "[Not Secure] [Rcon] Stopping the server";
    assert_eq!(p.line_message(line), Some("Stopping the server".to_string()));
    // a chat line that reads like a death is forwarded by the death pattern
    let line = format!("{PREFIX}<Steve> I died");
    assert_eq!(p.line_message(&line), Some("<Steve> I died".to_string()));
}

#[test]
fn chat_formatting_cases() {
    assert_eq!(format_capture(LineKind::Chat, "<a> b"), "<a> b");
    assert_eq!(format_capture(LineKind::Chat, "x joined the game"), "x joined the game");
    assert_eq!(format_capture(LineKind::Stop, "ignored"), "サーバー終了");
    assert_eq!(format_capture(LineKind::Start, "3"), "サーバー起動完了(3秒)");
    assert_eq!(format_capture(LineKind::Advancement, "x"), "実績解除:x");
    assert_eq!(format_capture(LineKind::Death, "x"), "x");
    assert_eq!(format_capture(LineKind::Rcon, "x"), "x");
}

#[test]
fn tail_starts_at_current_end() {
    let t = LogTail::new(Some(120));
    assert_eq!(t.offset(), 120);
    assert_eq!(t.partial(), "");
    let t = LogTail::new(None);
    assert_eq!(t.offset(), 0);
}

#[test]
fn tail_reads_only_appended_bytes() {
    let mut t = LogTail::new(Some(10));
    assert_eq!(t.begin_poll(10), None);
    assert_eq!(t.begin_poll(15), Some(10));
    let lines = t.take_chunk(15, "abc\nd");
    assert_eq!(lines, vec!["abc".to_string()]);
    assert_eq!(t.offset(), 15);
    assert_eq!(t.partial(), "d");
}

#[test]
fn tail_restarts_after_rotation() {
    let mut t = LogTail::new(Some(100));
    let _ = t.take_chunk(100, "half a line");
    assert_eq!(t.begin_poll(40), Some(0));
    assert_eq!(t.offset(), 0);
    assert_eq!(t.partial(), "");
    let mut t = LogTail::new(Some(100));
    assert_eq!(t.begin_poll(0), None);
    assert_eq!(t.offset(), 0);
}

#[test]
fn unfinished_line_waits_for_its_end() {
    let mut t = LogTail::new(None);
    assert!(t.take_chunk(3, "par").is_empty());
    assert_eq!(t.partial(), "par");
    let lines = t.take_chunk(9, "tial\r\nx");
    assert_eq!(lines, vec!["partial".to_string()]);
    assert_eq!(t.partial(), "x");
}

#[test]
fn chunking_does_not_change_lines() {
    let text = "one\r\ntwo\n\nthree\nfour";
    let mut whole = LogTail::new(None);
    let all = whole.take_chunk(1, text);
    for cut in 0..=text.len() {
        if !text.is_char_boundary(cut) {
            continue;
        }
        let mut t = LogTail::new(None);
        let mut got = t.take_chunk(1, &text[..cut]);
        got.extend(t.take_chunk(2, &text[cut..]));
        assert_eq!(got, all);
        assert_eq!(t.partial(), whole.partial());
    }
    assert_eq!(all, vec!["one", "two", "", "three"]);
    assert_eq!(whole.partial(), "four");
}

#[test]
fn messages_follow_line_order() {
    let p = patterns();
    let lines = vec![
        format!("{PREFIX}Steve joined the game"),
        "noise".to_string(),
        "Stopping the server".to_string(),
    ];
    assert_eq!(
        messages_for_lines(&p, &lines),
        vec!["Steve joined the game".to_string(), "サーバー終了".to_string()]
    );
}

#[test]
fn many_polls_give_the_lines_of_the_whole_text() {
    let text = "a\nbb\r\n\nccc\nd";
    let mut whole = LogTail::new(None);
    let all = whole.take_chunk(1, text);
    let n = text.len();
    for i in 0..=n {
        for j in i..=n {
            let mut t = LogTail::new(None);
            let mut got = t.take_chunk(1, &text[..i]);
            got.extend(t.take_chunk(2, &text[i..j]));
            got.extend(t.take_chunk(3, &text[j..]));
            assert_eq!(got, all);
            assert_eq!(t.partial(), "d");
        }
    }
}
