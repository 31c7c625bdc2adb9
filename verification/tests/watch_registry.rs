use gdut_r1_by_rust::watch_config::WatchConfig;
use gdut_r1_by_rust::watch_table::{
    entry_fields, stored_result, write_target, path_from_parts, str_to_string64, WatchEntry, WatchTable,
};
use gdut_r1_by_rust::watch_value::{Access, WatchValue, WatchValueKind};

fn entry(path: &str, access: Access) -> WatchEntry {
    let parts: Vec<&str> = path.split('.').collect();
    let (p, parent) = entry_fields(&parts);
    WatchEntry { path: p, parent, value_type: "f32", kind: WatchValueKind::F32, access }
}

#[test]
fn default_config_matches_docs() {
    let c = WatchConfig::default();
    assert_eq!(c.mcu_freq_hz, 40);
    assert_eq!(c.host_freq_hz, 30);
    assert_eq!(c.period_ms, 25);
    assert_eq!(c.max_entries, 64);
}

#[test]
fn default_config_is_from_freq_40() {
    let a = WatchConfig::default();
    let b = WatchConfig::from_freq(40);
    assert_eq!((a.mcu_freq_hz, a.host_freq_hz, a.period_ms, a.max_entries), (b.mcu_freq_hz, b.host_freq_hz, b.period_ms, b.max_entries));
}

#[test]
fn from_freq_clamps_and_rounds_up() {
    let c = WatchConfig::from_freq(0);
    assert_eq!((c.mcu_freq_hz, c.host_freq_hz, c.period_ms), (1, 1, 1000));
    let c = WatchConfig::from_freq(2000);
    assert_eq!((c.mcu_freq_hz, c.host_freq_hz, c.period_ms), (1000, 750, 1));
    let c = WatchConfig::from_freq(3);
    assert_eq!((c.mcu_freq_hz, c.host_freq_hz, c.period_ms), (3, 3, 334));
    let c = WatchConfig::from_freq(100);
    assert_eq!((c.mcu_freq_hz, c.host_freq_hz, c.period_ms, c.max_entries), (100, 75, 10, 64));
    let c = WatchConfig::from_freq(7);
    assert_eq!((c.mcu_freq_hz, c.host_freq_hz, c.period_ms), (7, 6, 143));
}

#[test]
fn paths_join_with_dots() {
    let (p, parent) = entry_fields(&["arm", "target_height"]);
    assert_eq!(p.as_str(), "arm.target_height");
    assert_eq!(parent.as_str(), "arm");
    let (p, parent) = entry_fields(&["battery"]);
    assert_eq!(p.as_str(), "battery");
    assert_eq!(parent.as_str(), "");
    let (p, parent) = entry_fields(&["arm", "pitch", "rpm"]);
    assert_eq!(p.as_str(), "arm.pitch.rpm");
    assert_eq!(parent.as_str(), "arm.pitch");
    assert_eq!(path_from_parts(&[]).as_str(), "");
}

#[test]
fn long_paths_are_cut_to_64_bytes() {
    let long = "x".repeat(60);
    // The joined text is cut to its first 64 bytes.
    let p = path_from_parts(&[long.as_str(), "abcdef"]);
    assert_eq!(p.as_str(), format!("{}.abc", long));
    assert_eq!(p.len(), 64);
    let p = path_from_parts(&[long.as_str(), "abcdef", "ab"]);
    assert_eq!(p.as_str(), format!("{}.abc", long));
    // A path that fits is kept whole.
    let p = path_from_parts(&[&"z".repeat(30), &"w".repeat(33)]);
    assert_eq!(p.len(), 64);
    // The cut falls on a character boundary: a two-byte character that
    // would straddle byte 64 is left out whole.
    let p = path_from_parts(&[&"x".repeat(62), "\u{e9}\u{e9}"]);
    assert_eq!(p.as_str(), format!("{}.", "x".repeat(62)));
    let p = path_from_parts(&[&"x".repeat(61), "\u{e9}\u{e9}"]);
    assert_eq!(p.as_str(), format!("{}.\u{e9}", "x".repeat(61)));
    let (p, parent) = entry_fields(&[long.as_str(), "abcdef", "g"]);
    assert_eq!(p.as_str(), format!("{}.abc", long));
    assert_eq!(parent.as_str(), format!("{}.abc", long));
    let exact = "y".repeat(64);
    assert_eq!(str_to_string64(&exact).as_str(), exact);
    let over = "y".repeat(65);
    assert_eq!(str_to_string64(&over).as_str(), "");
}

#[test]
fn table_holds_at_most_64_entries() {
    let mut t = WatchTable::new();
    assert_eq!(t.len(), 0);
    for i in 0..64 {
        let name = format!("v{}", i);
        assert!(t.register(entry(&name, Access::ReadWrite)));
    }
    assert_eq!(t.len(), 64);
    assert!(!t.register(entry("extra", Access::ReadWrite)));
    assert_eq!(t.len(), 64);
    assert!(t.find_by_path("extra").is_none());
}

#[test]
fn register_then_get_and_find() {
    let mut t = WatchTable::new();
    assert!(t.register(entry("arm.height", Access::ReadWrite)));
    assert!(t.register(entry("arm.speed", Access::ReadOnly)));
    assert!(t.register(entry("arm.height", Access::ReadOnly)));
    assert_eq!(t.get(1).unwrap().path.as_str(), "arm.speed");
    assert!(t.get(3).is_none());
    let found = t.find_by_path("arm.height").unwrap();
    assert_eq!(found.access, Access::ReadWrite);
    assert_eq!(found.parent.as_str(), "arm");
    assert_eq!(t.position_of("arm.speed"), Some(1));
    assert!(t.find_by_path("arm").is_none());
}

#[test]
fn write_target_answers() {
    let mut t = WatchTable::new();
    t.register(entry("a.rw", Access::ReadWrite));
    t.register(entry("a.ro", Access::ReadOnly));
    t.register(entry("a.rw", Access::ReadOnly));
    assert_eq!(write_target(&t, "missing"), Err("not found"));
    assert_eq!(write_target(&t, "a.ro"), Err("readonly"));
    assert_eq!(write_target(&t, "a.rw"), Ok(0));
    assert_eq!(stored_result(true), Ok(()));
    assert_eq!(stored_result(false), Err("parse error"));
}

#[test]
fn integers_render_in_decimal() {
    assert_eq!(<i32 as WatchValue>::watch_read(&-42).as_str(), "-42");
    assert_eq!(<i32 as WatchValue>::watch_read(&0).as_str(), "0");
    assert_eq!(<u64 as WatchValue>::watch_read(&u64::MAX).as_str(), "18446744073709551615");
    assert_eq!(<i64 as WatchValue>::watch_read(&i64::MIN).as_str(), "-9223372036854775808");
    assert_eq!(<i8 as WatchValue>::watch_read(&-128).as_str(), "-128");
    assert_eq!(<u16 as WatchValue>::watch_read(&1000).as_str(), "1000");
    assert_eq!(<bool as WatchValue>::watch_read(&true).as_str(), "1");
    assert_eq!(<bool as WatchValue>::watch_read(&false).as_str(), "0");
}

#[test]
fn integers_parse_like_str_parse() {
    assert_eq!(<i32 as WatchValue>::watch_write("+17"), Some(17));
    assert_eq!(<i32 as WatchValue>::watch_write("-17"), Some(-17));
    assert_eq!(<i8 as WatchValue>::watch_write("-128"), Some(-128));
    assert_eq!(<i8 as WatchValue>::watch_write("128"), None);
    assert_eq!(<i8 as WatchValue>::watch_write("-0"), Some(0));
    assert_eq!(<u8 as WatchValue>::watch_write("-0"), None);
    assert_eq!(<u8 as WatchValue>::watch_write("255"), Some(255));
    assert_eq!(<u8 as WatchValue>::watch_write("256"), None);
    assert_eq!(<u32 as WatchValue>::watch_write("+"), None);
    assert_eq!(<i32 as WatchValue>::watch_write("-"), None);
    assert_eq!(<i32 as WatchValue>::watch_write(""), None);
    assert_eq!(<i32 as WatchValue>::watch_write(" 1"), None);
    assert_eq!(<i32 as WatchValue>::watch_write("12a"), None);
    assert_eq!(<u64 as WatchValue>::watch_write("18446744073709551615"), Some(u64::MAX));
    assert_eq!(<u64 as WatchValue>::watch_write("18446744073709551616"), None);
    assert_eq!(<u64 as WatchValue>::watch_write("99999999999999999999999999999"), None);
    assert_eq!(<i64 as WatchValue>::watch_write("-9223372036854775808"), Some(i64::MIN));
    assert_eq!(<u16 as WatchValue>::watch_write("0000000000000000000000000042"), Some(42));
    for s in ["+17", "-3", "0", "007", "65536", "-40000", "x", "4294967296"] {
        assert_eq!(<i32 as WatchValue>::watch_write(s), s.parse::<i32>().ok());
        assert_eq!(<u16 as WatchValue>::watch_write(s), s.parse::<u16>().ok());
        assert_eq!(<u32 as WatchValue>::watch_write(s), s.parse::<u32>().ok());
    }
}

#[test]
fn read_then_write_gives_the_value_back() {
    for v in [i64::MIN, -1, 0, 1, 42, i64::MAX] {
        let text = <i64 as WatchValue>::watch_read(&v);
        assert_eq!(<i64 as WatchValue>::watch_write(text.as_str()), Some(v));
    }
    for v in [0u8, 9, 10, 255] {
        let text = <u8 as WatchValue>::watch_read(&v);
        assert_eq!(<u8 as WatchValue>::watch_write(text.as_str()), Some(v));
    }
    for v in [false, true] {
        let text = <bool as WatchValue>::watch_read(&v);
        assert_eq!(<bool as WatchValue>::watch_write(text.as_str()), Some(v));
    }
}

#[test]
fn booleans_and_kinds() {
    assert_eq!(<bool as WatchValue>::watch_write("1"), Some(true));
    assert_eq!(<bool as WatchValue>::watch_write("0"), Some(false));
    assert_eq!(<bool as WatchValue>::watch_write("true"), None);
    assert_eq!(<bool as WatchValue>::watch_kind(), WatchValueKind::Bool);
    assert_eq!(<u32 as WatchValue>::watch_kind(), WatchValueKind::U32);
    assert_eq!(<i16 as WatchValue>::watch_type_name(), "i16");
    assert_eq!(<bool as WatchValue>::watch_type_name(), "bool");
}
