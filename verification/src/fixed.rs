//! Trusted specifications of the fixed-capacity containers of `heapless`
//! that the watch registry and its line protocol are built on.
//!
//! `heapless::String<N>` holds a UTF-8 byte sequence of at most `N` bytes and
//! `heapless::Vec<T, N>` at most `N` items. Each contents function below
//! names what a value of one instantiation holds; the wrappers state what
//! each `heapless` method does to it, as the crate's source shows.
use vstd::prelude::*;
use vstd::string::StringSliceAdditionalSpecFns;
use vstd::utf8::{encode_utf8, is_ascii_chars, is_ascii_chars_encode_utf8};

use crate::watch_table::WatchEntry;

verus! {

#[verifier::external_type_specification]
#[verifier::external_body]
#[verifier::reject_recursive_types(T)]
pub struct ExHeaplessVec<T, const N: usize>(heapless::Vec<T, N>);

#[verifier::external_type_specification]
#[verifier::external_body]
pub struct ExHeaplessString<const N: usize>(heapless::String<N>);

/// The bytes held by a 64-byte string (watch paths).
pub uninterp spec fn path_bytes(s: heapless::String<64>) -> Seq<u8>;

/// The bytes held by a 32-byte string (rendered watch values).
pub uninterp spec fn value_bytes(s: heapless::String<32>) -> Seq<u8>;

/// The bytes held by a 128-byte string (a received command line).
pub uninterp spec fn line_bytes(s: heapless::String<128>) -> Seq<u8>;

/// The entries held by the 64-entry watch registry vector.
pub uninterp spec fn entry_seq(v: heapless::Vec<WatchEntry, 64>) -> Seq<WatchEntry>;

/// The UTF-8 encoding of one character.
pub open spec fn char_bytes(c: char) -> Seq<u8> {
    encode_utf8(seq![c])
}

/// An ASCII character is encoded as its own byte.
pub proof fn lemma_ascii_char_bytes(b: u8)
    requires
        b < 128,
    ensures
        char_bytes(b as char) == seq![b],
{
    let cs = seq![b as char];
    assert(is_ascii_chars(cs));
    is_ascii_chars_encode_utf8(cs);
}

// ---- heapless::String<64> ----

/// `heapless::String::<64>::new`: an empty string.
#[verifier::external_body]
pub(crate) fn path_new() -> (r: heapless::String<64>)
    ensures
        path_bytes(r) == Seq::<u8>::empty(),
{
    heapless::String::new()
}

/// `heapless::String::<64>::push`: appends the UTF-8 encoding of `c` when it
/// fits in the capacity, and otherwise fails and leaves the string unchanged.
#[verifier::external_body]
pub(crate) fn path_push(s: &mut heapless::String<64>, c: char) -> (r: Result<(), ()>)
    ensures
        r is Ok <==> path_bytes(*old(s)).len() + char_bytes(c).len() <= 64,
        r is Ok ==> path_bytes(*final(s)) == path_bytes(*old(s)) + char_bytes(c),
        r is Err ==> path_bytes(*final(s)) == path_bytes(*old(s)),
{
    s.push(c)
}

/// `heapless::String::<64>::push_str`: appends the bytes of `t` when they all
/// fit in the capacity, and otherwise fails and leaves the string unchanged.
#[verifier::external_body]
pub(crate) fn path_push_str(s: &mut heapless::String<64>, t: &str) -> (r: Result<(), ()>)
    ensures
        r is Ok <==> path_bytes(*old(s)).len() + t.spec_bytes().len() <= 64,
        r is Ok ==> path_bytes(*final(s)) == path_bytes(*old(s)) + t.spec_bytes(),
        r is Err ==> path_bytes(*final(s)) == path_bytes(*old(s)),
{
    s.push_str(t)
}

/// `heapless::String::<64>::as_str`: the held bytes, at most 64 of them.
#[verifier::external_body]
pub(crate) fn path_as_str(s: &heapless::String<64>) -> (r: &str)
    ensures
        r.spec_bytes() == path_bytes(*s),
        r.spec_bytes().len() <= 64,
{
    s.as_str()
}

// ---- heapless::String<32> ----

/// `heapless::String::<32>::new`: an empty string.
#[verifier::external_body]
pub(crate) fn value_new() -> (r: heapless::String<32>)
    ensures
        value_bytes(r) == Seq::<u8>::empty(),
{
    heapless::String::new()
}

/// `heapless::String::<32>::push`: appends the UTF-8 encoding of `c` when it
/// fits in the capacity, and otherwise fails and leaves the string unchanged.
#[verifier::external_body]
pub(crate) fn value_push(s: &mut heapless::String<32>, c: char) -> (r: Result<(), ()>)
    ensures
        r is Ok <==> value_bytes(*old(s)).len() + char_bytes(c).len() <= 32,
        r is Ok ==> value_bytes(*final(s)) == value_bytes(*old(s)) + char_bytes(c),
        r is Err ==> value_bytes(*final(s)) == value_bytes(*old(s)),
{
    s.push(c)
}

/// `heapless::String::<32>::as_str`: the held bytes, at most 32 of them.
#[verifier::external_body]
pub(crate) fn value_as_str(s: &heapless::String<32>) -> (r: &str)
    ensures
        r.spec_bytes() == value_bytes(*s),
        r.spec_bytes().len() <= 32,
{
    s.as_str()
}

// ---- heapless::String<128> ----

/// `heapless::String::<128>::push`: appends the UTF-8 encoding of `c` when it
/// fits in the capacity, and otherwise fails and leaves the string unchanged.
#[verifier::external_body]
pub(crate) fn line_push(s: &mut heapless::String<128>, c: char) -> (r: Result<(), ()>)
    ensures
        r is Ok <==> line_bytes(*old(s)).len() + char_bytes(c).len() <= 128,
        r is Ok ==> line_bytes(*final(s)) == line_bytes(*old(s)) + char_bytes(c),
        r is Err ==> line_bytes(*final(s)) == line_bytes(*old(s)),
{
    s.push(c)
}

/// `heapless::String::<128>::capacity`: the fixed capacity, 128 bytes.
#[verifier::external_body]
pub(crate) fn line_capacity(s: &heapless::String<128>) -> (r: usize)
    ensures
        r == 128,
{
    s.capacity()
}

/// `heapless::String::<128>::as_str`: the held bytes, at most 128 of them.
#[verifier::external_body]
pub(crate) fn line_as_str(s: &heapless::String<128>) -> (r: &str)
    ensures
        r.spec_bytes() == line_bytes(*s),
        r.spec_bytes().len() <= 128,
{
    s.as_str()
}

// ---- heapless::Vec<WatchEntry, 64> ----

/// `heapless::Vec::<WatchEntry, 64>::new`: an empty vector.
#[verifier::external_body]
pub(crate) fn entries_new() -> (r: heapless::Vec<WatchEntry, 64>)
    ensures
        entry_seq(r) == Seq::<WatchEntry>::empty(),
{
    heapless::Vec::new()
}

/// `heapless::Vec::<WatchEntry, 64>::push`: appends `item` when fewer than 64
/// entries are held; otherwise hands `item` back and leaves the vector as it
/// was. The vector never holds more than 64 entries.
#[verifier::external_body]
pub(crate) fn entries_push(v: &mut heapless::Vec<WatchEntry, 64>, item: WatchEntry) -> (r: Result<(), WatchEntry>)
    ensures
        r is Ok <==> entry_seq(*old(v)).len() < 64,
        r is Ok ==> entry_seq(*final(v)) == entry_seq(*old(v)).push(item),
        r matches Err(back) ==> back == item && entry_seq(*final(v)) == entry_seq(*old(v)),
        entry_seq(*final(v)).len() <= 64,
{
    v.push(item)
}

/// `heapless::Vec::<WatchEntry, 64>::as_slice`: the held entries, in order,
/// at most 64 of them.
#[verifier::external_body]
pub(crate) fn entries_as_slice(v: &heapless::Vec<WatchEntry, 64>) -> (r: &[WatchEntry])
    ensures
        r@ == entry_seq(*v),
        r@.len() <= 64,
{
    v.as_slice()
}

} // verus!
