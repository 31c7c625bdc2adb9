use gdut_r1_by_rust::watch_table::{entry_fields, WatchEntry, WatchTable};
use gdut_r1_by_rust::watch_task::{
    build_telemetry, feed_command_byte, handle_cmd, write_reply, CommandAction, REPLY_EMPTY_FIELD, REPLY_NO_SEPARATOR,
};
use gdut_r1_by_rust::watch_value::{Access, WatchValue, WatchValueKind};

fn table(paths: &[(&str, Access)]) -> WatchTable {
    let mut t = WatchTable::new();
    for (p, a) in paths {
        let parts: Vec<&str> = p.split('.').collect();
        let (path, parent) = entry_fields(&parts);
        assert!(t.register(WatchEntry { path, parent, value_type: "i32", kind: WatchValueKind::I32, access: *a }));
    }
    t
}

fn value(text: &str) -> heapless::String<32> {
    let mut s = heapless::String::new();
    s.push_str(text).unwrap();
    s
}

#[test]
fn newline_completes_a_line() {
    let mut line: heapless::String<128> = heapless::String::new();
    for b in b"set a 1" {
        assert!(!feed_command_byte(&mut line, *b));
    }
    assert!(feed_command_byte(&mut line, b'\n'));
    assert_eq!(line.as_str(), "set a 1");
}

#[test]
fn line_keeps_at_most_128_bytes() {
    let mut line: heapless::String<128> = heapless::String::new();
    for _ in 0..200 {
        assert!(!feed_command_byte(&mut line, b'x'));
    }
    assert_eq!(line.len(), 128);
}

#[test]
fn high_bytes_become_latin1_characters() {
    let mut line: heapless::String<128> = heapless::String::new();
    feed_command_byte(&mut line, 0xE9);
    assert_eq!(line.as_str(), "\u{e9}");
    assert_eq!(line.len(), 2);
    // With one byte left, a two-byte character no longer fits.
    let mut line: heapless::String<128> = heapless::String::new();
    for _ in 0..127 {
        feed_command_byte(&mut line, b'y');
    }
    feed_command_byte(&mut line, 0xE9);
    assert_eq!(line.len(), 127);
    feed_command_byte(&mut line, b'z');
    assert_eq!(line.len(), 128);
}

/// Answers a line as the watch task does: a store is performed by the given
/// writer, which records what it was asked and reports whether it accepted.
fn answer(line: &str, t: &WatchTable, accept: bool, written: &mut Vec<(usize, String)>) -> Option<String> {
    match handle_cmd(line, t) {
        CommandAction::Ignore => None,
        CommandAction::Reply(text) => Some(text),
        CommandAction::Store(i, path, value) => {
            written.push((i, value.clone()));
            Some(write_reply(&path, &value, accept))
        }
    }
}

#[test]
fn set_command_writes_and_answers_ok() {
    let t = table(&[("arm.target_height", Access::ReadWrite)]);
    let mut written = Vec::new();
    let reply = answer("set arm.target_height 600.0", &t, true, &mut written);
    assert_eq!(reply.as_deref(), Some("OK arm.target_height=600.0\n"));
    assert_eq!(written, vec![(0, "600.0".to_string())]);
}

#[test]
fn set_command_errors() {
    let t = table(&[("a.rw", Access::ReadWrite), ("a.ro", Access::ReadOnly)]);
    let mut written = Vec::new();
    assert_eq!(answer("set bad_path 1", &t, true, &mut written).as_deref(), Some("ERR bad_path: not found\n"));
    assert_eq!(answer("set a.ro 1", &t, true, &mut written).as_deref(), Some("ERR a.ro: readonly\n"));
    assert_eq!(answer("set nospace", &t, true, &mut written).as_deref(), Some(REPLY_NO_SEPARATOR));
    assert_eq!(answer("set  5", &t, true, &mut written).as_deref(), Some(REPLY_EMPTY_FIELD));
    // None of these reached a variable.
    assert!(written.is_empty());
    assert_eq!(answer("set a.rw abc", &t, false, &mut written).as_deref(), Some("ERR a.rw: parse error\n"));
    assert_eq!(written, vec![(0, "abc".to_string())]);
    assert_eq!(REPLY_NO_SEPARATOR, "ERR parse: 需要 'set path value'\n");
    assert_eq!(REPLY_EMPTY_FIELD, "ERR parse: 空的 path 或 value\n");
}

#[test]
fn unknown_and_readonly_paths_are_never_stored() {
    let t = table(&[("a.ro", Access::ReadOnly), ("a.rw", Access::ReadWrite)]);
    assert!(matches!(handle_cmd("set bad_path 1", &t), CommandAction::Reply(_)));
    assert!(matches!(handle_cmd("set a.ro 1", &t), CommandAction::Reply(_)));
    match handle_cmd("set a.rw 1", &t) {
        CommandAction::Store(i, path, value) => {
            assert_eq!((i, path.as_str(), value.as_str()), (1, "a.rw", "1"));
        }
        _ => panic!("a writable entry is stored"),
    }
    assert_eq!(write_reply("a.rw", "1", true), "OK a.rw=1\n");
    assert_eq!(write_reply("a.rw", "x", false), "ERR a.rw: parse error\n");
}

#[test]
fn lines_that_are_no_command_get_no_answer() {
    let t = table(&[("a", Access::ReadWrite)]);
    assert!(matches!(handle_cmd("", &t), CommandAction::Ignore));
    assert!(matches!(handle_cmd("   \t ", &t), CommandAction::Ignore));
    assert!(matches!(handle_cmd("get a", &t), CommandAction::Ignore));
    assert!(matches!(handle_cmd("seta 1", &t), CommandAction::Ignore));
}

#[test]
fn command_is_trimmed_and_split_at_the_last_space() {
    let t = table(&[("a", Access::ReadWrite)]);
    let mut written = Vec::new();
    // The path runs up to the last space, so it keeps its trailing spaces.
    assert_eq!(answer("  set a   7 \r", &t, true, &mut written).as_deref(), Some("ERR a  : not found\n"));
    assert!(written.is_empty());
    assert_eq!(answer("\u{a0}set a \u{3000}7\u{85}", &t, true, &mut written).as_deref(), Some("OK a=7\n"));
    assert_eq!(written, vec![(0, "7".to_string())]);
    // A trailing space is trimmed away before the split.
    assert_eq!(answer("set a ", &t, true, &mut written).as_deref(), Some(REPLY_NO_SEPARATOR));
}

#[test]
fn telemetry_lists_path_equals_value() {
    let t = table(&[("battery", Access::ReadWrite), ("arm.speed", Access::ReadOnly), ("loops", Access::ReadOnly)]);
    let frame = build_telemetry(&t, 64, |i| match i {
        0 => Some(value("12")),
        1 => None,
        _ => Some(<i32 as WatchValue>::watch_read(&-3)),
    });
    assert_eq!(frame, b"battery=12\nloops=-3\n".to_vec());
    let frame = build_telemetry(&t, 1, |_| Some(value("5")));
    assert_eq!(frame, b"battery=5\n".to_vec());
    let frame = build_telemetry(&t, 0, |_| Some(value("5")));
    assert!(frame.is_empty());
}

#[test]
fn telemetry_stays_within_the_buffer() {
    let mut t = WatchTable::new();
    for i in 0..64 {
        let name = format!("{:0>60}", i);
        let (path, parent) = entry_fields(&[name.as_str()]);
        t.register(WatchEntry { path, parent, value_type: "u32", kind: WatchValueKind::U32, access: Access::ReadOnly });
    }
    let reads = std::cell::Cell::new(0usize);
    let frame = build_telemetry(&t, 64, |_| {
        reads.set(reads.get() + 1);
        Some(value(&"9".repeat(32)))
    });
    // Each line is 60 + 1 + 32 + 1 = 94 bytes; lines are added while 64 bytes remain.
    assert_eq!(frame.len(), 43 * 94);
    assert!(frame.len() <= 4096);
    assert_eq!(reads.get(), 43);
    assert!(frame.ends_with(b"=99999999999999999999999999999999\n"));
}
