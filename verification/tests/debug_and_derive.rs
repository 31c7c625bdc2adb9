use gdut_r1_by_rust::debug_printer::DebugPrinter;
use gdut_r1_by_rust::derive_plan::{contains_str, inherit_access, plan_field, primitive_kind, str_eq, FieldPlan};
use gdut_r1_by_rust::watch_value::{Access, WatchValueKind};

#[test]
fn printer_collects_and_truncates() {
    let mut p = DebugPrinter::<8>::new();
    assert!(p.is_empty());
    p.push_bytes(b"abc");
    p.push_bytes(b"defghij");
    assert_eq!(p.as_bytes(), b"abcdefgh");
    assert_eq!(p.len(), 8);
    p.push_bytes(b"z");
    assert_eq!(p.as_bytes(), b"abcdefgh");
    assert_eq!(p.as_str(), "abcdefgh");
    p.clear();
    assert_eq!(p.len(), 0);
    assert!(p.is_empty());
}

#[test]
fn printer_fmt_replaces_contents() {
    let mut p = DebugPrinter::<16>::new();
    p.push_bytes(b"old");
    let out = p.fmt(&format!("X:{:.3},Y:{}\r\n", 1.5f32, 2)).to_vec();
    assert_eq!(out, b"X:1.500,Y:2\r\n".to_vec());
    assert_eq!(p.as_str(), "X:1.500,Y:2\r\n");
    let out = p.fmt("0123456789abcdefXYZ").to_vec();
    assert_eq!(out, b"0123456789abcdef".to_vec());
    p.write_str("more");
    assert_eq!(p.len(), 16);
}

#[test]
fn printer_reports_broken_utf8() {
    let mut p = DebugPrinter::<4>::new();
    p.write_str("ab\u{e9}\u{e9}");
    assert_eq!(p.as_bytes(), &[b'a', b'b', 0xC3, 0xA9]);
    assert_eq!(p.as_str(), "ab\u{e9}");
    let mut q = DebugPrinter::<3>::new();
    q.write_str("ab\u{e9}");
    assert_eq!(q.as_bytes(), &[b'a', b'b', 0xC3]);
    assert_eq!(q.as_str(), "(utf8 err)");
    let d: DebugPrinter<4> = Default::default();
    assert!(d.is_empty());
}

#[test]
fn primitive_types_have_kinds() {
    assert_eq!(primitive_kind("f32"), Some(("F32", "f32")));
    assert_eq!(primitive_kind("u64"), Some(("U64", "u64")));
    assert_eq!(primitive_kind("bool"), Some(("Bool", "bool")));
    assert_eq!(primitive_kind("String"), None);
    assert_eq!(primitive_kind("F32"), None);
}

#[test]
fn substring_search() {
    assert!(contains_str("readonly", "readonly"));
    assert!(contains_str("skip , readonly", "readonly"));
    assert!(contains_str("abc", ""));
    assert!(!contains_str("read", "readonly"));
    assert!(!contains_str("skip", "readonly"));
    assert!(contains_str("\u{e9}skip", "skip"));
    assert!(str_eq("arm", "arm"));
    assert!(!str_eq("arm", "ar"));
}

#[test]
fn fields_are_planned() {
    assert_eq!(plan_field("f32", false, false), FieldPlan::Primitive(WatchValueKind::F32, Access::ReadWrite));
    assert_eq!(plan_field("i16", false, true), FieldPlan::Primitive(WatchValueKind::I16, Access::ReadOnly));
    assert_eq!(plan_field("f32", true, false), FieldPlan::Skip);
    assert_eq!(plan_field("Motor", false, false), FieldPlan::Nested(Access::ReadWrite));
    assert_eq!(plan_field("Joint", false, true), FieldPlan::Nested(Access::ReadOnly));
    assert_eq!(plan_field("Joint", true, true), FieldPlan::Skip);
}

#[test]
fn readonly_is_carried_into_nested_fields() {
    // Arm { voltage: f32, pitch: Motor, #[watch(readonly)] joint: Joint }
    // with Joint { angle: f32 }: arm.joint.angle is read-only.
    let outer = match plan_field("Joint", false, true) {
        FieldPlan::Nested(a) => a,
        other => panic!("unexpected plan {:?}", other),
    };
    let inner = match plan_field("f32", false, false) {
        FieldPlan::Primitive(_, a) => a,
        other => panic!("unexpected plan {:?}", other),
    };
    assert_eq!(inherit_access(outer, inner), Access::ReadOnly);
    assert_eq!(inherit_access(Access::ReadWrite, Access::ReadWrite), Access::ReadWrite);
    assert_eq!(inherit_access(Access::ReadWrite, Access::ReadOnly), Access::ReadOnly);
    assert_eq!(inherit_access(Access::ReadOnly, Access::ReadOnly), Access::ReadOnly);
}

#[test]
fn printer_pieces_match_whole_text() {
    let mut pieces = DebugPrinter::<6>::new();
    pieces.write_str("ab");
    pieces.write_str("cde");
    pieces.write_str("fgh");
    let mut whole = DebugPrinter::<6>::new();
    let out = whole.fmt("abcdefgh").to_vec();
    assert_eq!(pieces.as_bytes(), b"abcdef");
    assert_eq!(out, pieces.as_bytes().to_vec());
}
