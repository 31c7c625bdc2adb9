//! What the `Watch` derive decides for each field of a structure: whether
//! its type is a primitive the watch tool codes, under which kind, and with
//! which access.
use vstd::prelude::*;
use vstd::string::StringSliceAdditionalSpecFns;
use vstd::utf8::encode_utf8_decode_utf8;

use crate::watch_table::bytes_equal;
use crate::watch_value::{Access, WatchValueKind};

verus! {

/// Whether two strings are equal.
pub fn str_eq(a: &str, b: &str) -> (r: bool)
    ensures
        r == (a@ == b@),
{
    let r = bytes_equal(a.as_bytes(), b.as_bytes());
    proof {
        encode_utf8_decode_utf8(a@);
        encode_utf8_decode_utf8(b@);
    }
    r
}

/// The kind name and type name of a primitive type name.
pub open spec fn primitive_kind_spec(name: Seq<char>) -> Option<(Seq<char>, Seq<char>)> {
    if name == "f32"@ {
        Some(("F32"@, "f32"@))
    } else if name == "f64"@ {
        Some(("F64"@, "f64"@))
    } else if name == "i8"@ {
        Some(("I8"@, "i8"@))
    } else if name == "i16"@ {
        Some(("I16"@, "i16"@))
    } else if name == "i32"@ {
        Some(("I32"@, "i32"@))
    } else if name == "i64"@ {
        Some(("I64"@, "i64"@))
    } else if name == "u8"@ {
        Some(("U8"@, "u8"@))
    } else if name == "u16"@ {
        Some(("U16"@, "u16"@))
    } else if name == "u32"@ {
        Some(("U32"@, "u32"@))
    } else if name == "u64"@ {
        Some(("U64"@, "u64"@))
    } else if name == "bool"@ {
        Some(("Bool"@, "bool"@))
    } else {
        None
    }
}

/// For a primitive type name, the name of its `WatchValueKind` variant and
/// the type name to record; `None` for any other type.
pub fn primitive_kind(type_label: &str) -> (r: Option<(&'static str, &'static str)>)
    ensures
        match primitive_kind_spec(type_label@) {
            Some((k, t)) => r matches Some((a, b)) && a@ == k && b@ == t,
            None => r is None,
        },
{
    if str_eq(type_label, "f32") {
        Some(("F32", "f32"))
    } else if str_eq(type_label, "f64") {
        Some(("F64", "f64"))
    } else if str_eq(type_label, "i8") {
        Some(("I8", "i8"))
    } else if str_eq(type_label, "i16") {
        Some(("I16", "i16"))
    } else if str_eq(type_label, "i32") {
        Some(("I32", "i32"))
    } else if str_eq(type_label, "i64") {
        Some(("I64", "i64"))
    } else if str_eq(type_label, "u8") {
        Some(("U8", "u8"))
    } else if str_eq(type_label, "u16") {
        Some(("U16", "u16"))
    } else if str_eq(type_label, "u32") {
        Some(("U32", "u32"))
    } else if str_eq(type_label, "u64") {
        Some(("U64", "u64"))
    } else if str_eq(type_label, "bool") {
        Some(("Bool", "bool"))
    } else {
        None
    }
}

/// Whether `needle` occurs in `haystack`, as `str::contains` decides for a
/// string pattern: its bytes form a contiguous run of the haystack's bytes.
pub fn contains_str(haystack: &str, needle: &str) -> (r: bool)
    ensures
        r == exists|i: int|
            0 <= i && i + needle.spec_bytes().len() <= haystack.spec_bytes().len()
                && #[trigger] haystack.spec_bytes().subrange(i, i + needle.spec_bytes().len())
                == needle.spec_bytes(),
{
    let h = haystack.as_bytes();
    let n = needle.as_bytes();
    if n.len() > h.len() {
        return false;
    }
    let hl = h.len();
    let last = hl - n.len();
    let mut i: usize = 0;
    loop
        invariant
            h@ == haystack.spec_bytes(),
            n@ == needle.spec_bytes(),
            n@.len() <= h@.len(),
            last == h@.len() - n@.len(),
            hl == h@.len(),
            i <= last,
            forall|j: int| 0 <= j < i ==> #[trigger] h@.subrange(j, j + n@.len()) != n@,
        decreases last - i,
    {
        let mut k: usize = 0;
        while k < n.len() && h[i + k] == n[k]
            invariant
                h@ == haystack.spec_bytes(),
                n@ == needle.spec_bytes(),
                i <= last,
                last == h@.len() - n@.len(),
                hl == h@.len(),
                k <= n@.len(),
                h@.subrange(i as int, i + k) == n@.take(k as int),
            decreases n@.len() - k,
        {
            proof {
                assert(h@.subrange(i as int, i + k + 1) =~= h@.subrange(i as int, i + k).push(h@[i + k]));
                assert(n@.take(k + 1) =~= n@.take(k as int).push(n@[k as int]));
            }
            k = k + 1;
        }
        if k == n.len() {
            proof {
                assert(n@.take(n@.len() as int) =~= n@);
            }
            return true;
        }
        proof {
            assert(h@.subrange(i as int, i + n@.len())[k as int] == h@[i + k]);
        }
        if i == last {
            return false;
        }
        i = i + 1;
    }
}

/// How the derive registers one field.
#[derive(Clone, Copy, Debug, PartialEq, Eq, Structural)]
pub enum FieldPlan {
    /// Marked `#[watch(skip)]`: not registered.
    Skip,
    /// A primitive: registered with its kind, writable unless marked
    /// `#[watch(readonly)]`.
    Primitive(WatchValueKind, Access),
    /// Any other type, registered under the field's path with the given
    /// access: a structure that derives `Watch` has its own fields
    /// registered there, each read-only when the access is, and a type
    /// that does not is shown as one read-only entry holding its name.
    Nested(Access),
}

/// The access of an entry registered inside a nested field: read-only when
/// the field is, its own access otherwise.
pub open spec fn inherited_access(outer: Access, inner: Access) -> Access {
    if outer == Access::ReadOnly {
        Access::ReadOnly
    } else {
        inner
    }
}

/// The access of an entry registered inside a field whose access is `outer`.
pub fn inherit_access(outer: Access, inner: Access) -> (a: Access)
    ensures
        a == inherited_access(outer, inner),
{
    match outer {
        Access::ReadOnly => Access::ReadOnly,
        Access::ReadWrite => inner,
    }
}

/// However deeply fields are nested, an entry below a read-only field is
/// read-only: carrying the access down through any chain of fields gives
/// read-only as soon as one of them is.
pub proof fn lemma_readonly_carries_down(outer: Access, middle: Access, inner: Access)
    ensures
        outer == Access::ReadOnly ==> inherited_access(outer, inherited_access(middle, inner))
            == Access::ReadOnly,
        middle == Access::ReadOnly ==> inherited_access(outer, inherited_access(middle, inner))
            == Access::ReadOnly,
        outer == Access::ReadWrite && middle == Access::ReadWrite ==> inherited_access(
            outer,
            inherited_access(middle, inner),
        ) == inner,
{
}

/// The watch kind of a primitive type name.
pub open spec fn primitive_watch_kind(name: Seq<char>) -> Option<WatchValueKind> {
    if name == "f32"@ {
        Some(WatchValueKind::F32)
    } else if name == "f64"@ {
        Some(WatchValueKind::F64)
    } else if name == "i8"@ {
        Some(WatchValueKind::I8)
    } else if name == "i16"@ {
        Some(WatchValueKind::I16)
    } else if name == "i32"@ {
        Some(WatchValueKind::I32)
    } else if name == "i64"@ {
        Some(WatchValueKind::I64)
    } else if name == "u8"@ {
        Some(WatchValueKind::U8)
    } else if name == "u16"@ {
        Some(WatchValueKind::U16)
    } else if name == "u32"@ {
        Some(WatchValueKind::U32)
    } else if name == "u64"@ {
        Some(WatchValueKind::U64)
    } else if name == "bool"@ {
        Some(WatchValueKind::Bool)
    } else {
        None
    }
}

/// The name of a `WatchValueKind` variant, as the derive writes it.
pub open spec fn kind_variant_name(kind: WatchValueKind) -> Seq<char> {
    match kind {
        WatchValueKind::F32 => "F32"@,
        WatchValueKind::F64 => "F64"@,
        WatchValueKind::I8 => "I8"@,
        WatchValueKind::I16 => "I16"@,
        WatchValueKind::I32 => "I32"@,
        WatchValueKind::I64 => "I64"@,
        WatchValueKind::U8 => "U8"@,
        WatchValueKind::U16 => "U16"@,
        WatchValueKind::U32 => "U32"@,
        WatchValueKind::U64 => "U64"@,
        WatchValueKind::Bool => "Bool"@,
        WatchValueKind::Str(_) => "Str"@,
    }
}

/// The Rust type that a value kind stands for.
pub open spec fn kind_type_name(kind: WatchValueKind) -> Seq<char> {
    match kind {
        WatchValueKind::F32 => "f32"@,
        WatchValueKind::F64 => "f64"@,
        WatchValueKind::I8 => "i8"@,
        WatchValueKind::I16 => "i16"@,
        WatchValueKind::I32 => "i32"@,
        WatchValueKind::I64 => "i64"@,
        WatchValueKind::U8 => "u8"@,
        WatchValueKind::U16 => "u16"@,
        WatchValueKind::U32 => "u32"@,
        WatchValueKind::U64 => "u64"@,
        WatchValueKind::Bool => "bool"@,
        WatchValueKind::Str(_) => "str"@,
    }
}

/// The kind the derive names for a primitive field agrees with the field's
/// type: the recorded type name is the type itself, the kind is the one
/// that stands for that type, and the variant name written is that kind's.
/// Exactly the primitive types get a kind.
pub proof fn lemma_primitive_kind_agrees(name: Seq<char>)
    ensures
        primitive_kind_spec(name) is Some <==> primitive_watch_kind(name) is Some,
        primitive_watch_kind(name) matches Some(kind) ==> kind_type_name(kind) == name,
        primitive_kind_spec(name) matches Some((k, t)) ==> t == name && k == kind_variant_name(
            primitive_watch_kind(name)->0,
        ),
{
}

/// The plan for a field whose type's last path segment is `type_ident`.
pub fn plan_field(type_ident: &str, skip: bool, readonly: bool) -> (p: FieldPlan)
    ensures
        skip ==> p == FieldPlan::Skip,
        !skip ==> match primitive_watch_kind(type_ident@) {
            Some(kind) => p == FieldPlan::Primitive(
                kind,
                if readonly {
                    Access::ReadOnly
                } else {
                    Access::ReadWrite
                },
            ),
            None => p == FieldPlan::Nested(
                if readonly {
                    Access::ReadOnly
                } else {
                    Access::ReadWrite
                },
            ),
        },
{
    if skip {
        return FieldPlan::Skip;
    }
    let access = if readonly {
        Access::ReadOnly
    } else {
        Access::ReadWrite
    };
    if str_eq(type_ident, "f32") {
        FieldPlan::Primitive(WatchValueKind::F32, access)
    } else if str_eq(type_ident, "f64") {
        FieldPlan::Primitive(WatchValueKind::F64, access)
    } else if str_eq(type_ident, "i8") {
        FieldPlan::Primitive(WatchValueKind::I8, access)
    } else if str_eq(type_ident, "i16") {
        FieldPlan::Primitive(WatchValueKind::I16, access)
    } else if str_eq(type_ident, "i32") {
        FieldPlan::Primitive(WatchValueKind::I32, access)
    } else if str_eq(type_ident, "i64") {
        FieldPlan::Primitive(WatchValueKind::I64, access)
    } else if str_eq(type_ident, "u8") {
        FieldPlan::Primitive(WatchValueKind::U8, access)
    } else if str_eq(type_ident, "u16") {
        FieldPlan::Primitive(WatchValueKind::U16, access)
    } else if str_eq(type_ident, "u32") {
        FieldPlan::Primitive(WatchValueKind::U32, access)
    } else if str_eq(type_ident, "u64") {
        FieldPlan::Primitive(WatchValueKind::U64, access)
    } else if str_eq(type_ident, "bool") {
        FieldPlan::Primitive(WatchValueKind::Bool, access)
    } else {
        FieldPlan::Nested(access)
    }
}

} // verus!
