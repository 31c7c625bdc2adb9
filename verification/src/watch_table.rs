//! The watch registry: entries with their dotted paths, a table of at most
//! 64 of them, lookup by path, and the checks that a write from the host
//! passes before it reaches a variable.
use vstd::prelude::*;
use vstd::string::StringSliceAdditionalSpecFns;
use vstd::utf8::encode_utf8;

use crate::fixed::{
    char_bytes, lemma_ascii_char_bytes, entries_as_slice, entries_new, entries_push, entry_seq, path_as_str,
    path_bytes, path_new, path_push, path_push_str,
};
use crate::watch_task::chars_of;
use crate::watch_value::{Access, WatchValueKind};

verus! {

/// Largest number of entries the registry holds.
pub const MAX_ENTRIES: usize = 64;

/// Capacity of a path, in bytes.
pub const PATH_CAPACITY: usize = 64;

/// One registered watch variable. The variable itself is reached through an
/// accessor that the caller keeps at the entry's index in the table.
pub struct WatchEntry {
    /// Dotted path, such as `arm.target_height`.
    pub path: heapless::String<64>,
    /// Path of the enclosing structure; empty at the top level.
    pub parent: heapless::String<64>,
    /// Name of the value's type, such as `f32`.
    pub value_type: &'static str,
    pub kind: WatchValueKind,
    pub access: Access,
}

impl WatchEntry {
    pub open spec fn path_view(&self) -> Seq<u8> {
        path_bytes(self.path)
    }

    pub open spec fn parent_view(&self) -> Seq<u8> {
        path_bytes(self.parent)
    }
}

/// The registry of watch entries, in registration order.
pub struct WatchTable {
    entries: heapless::Vec<WatchEntry, 64>,
}

/// The index of the first entry whose path is `path`, if any.
pub open spec fn first_with_path(entries: Seq<WatchEntry>, path: Seq<u8>) -> Option<int>
    decreases entries.len(),
{
    if entries.len() == 0 {
        None
    } else {
        match first_with_path(entries.drop_last(), path) {
            Some(i) => Some(i),
            None => if entries.last().path_view() == path {
                Some(entries.len() - 1)
            } else {
                None
            },
        }
    }
}

pub proof fn lemma_first_with_path(entries: Seq<WatchEntry>, path: Seq<u8>)
    ensures
        match first_with_path(entries, path) {
            Some(i) => 0 <= i < entries.len() && entries[i].path_view() == path && forall|j: int|
                0 <= j < i ==> #[trigger] entries[j].path_view() != path,
            None => forall|j: int| 0 <= j < entries.len() ==> #[trigger] entries[j].path_view() != path,
        },
    decreases entries.len(),
{
    if entries.len() > 0 {
        let init = entries.drop_last();
        lemma_first_with_path(init, path);
        match first_with_path(init, path) {
            Some(i) => {
                assert(entries[i] == init[i]);
                assert forall|j: int| 0 <= j < i implies #[trigger] entries[j].path_view() != path by {
                    assert(entries[j] == init[j]);
                }
            },
            None => {
                assert forall|j: int| 0 <= j < init.len() implies #[trigger] entries[j].path_view() != path by {
                    assert(entries[j] == init[j]);
                }
            },
        }
    }
}

/// When the first entry with a path lies in a prefix, it is the first one
/// of the whole sequence too.
proof fn lemma_first_prefix(s: Seq<WatchEntry>, k: int, path: Seq<u8>)
    requires
        0 <= k <= s.len(),
        first_with_path(s.take(k), path) is Some,
    ensures
        first_with_path(s, path) == first_with_path(s.take(k), path),
    decreases s.len() - k,
{
    if s.len() == k {
        assert(s.take(k) =~= s);
    } else {
        assert(s.drop_last().take(k) =~= s.take(k));
        lemma_first_prefix(s.drop_last(), k, path);
    }
}

/// Whether two byte sequences are equal.
pub fn bytes_equal(a: &[u8], b: &[u8]) -> (r: bool)
    ensures
        r == (a@ == b@),
{
    if a.len() != b.len() {
        return false;
    }
    let n = a.len();
    let mut i: usize = 0;
    while i < n
        invariant
            n == a@.len(),
            n == b@.len(),
            i <= n,
            a@.take(i as int) == b@.take(i as int),
        decreases n - i,
    {
        if a[i] != b[i] {
            proof {
                assert(a@[i as int] != b@[i as int]);
            }
            return false;
        }
        proof {
            assert(a@.take(i + 1) =~= a@.take(i as int).push(a@[i as int]));
            assert(b@.take(i + 1) =~= b@.take(i as int).push(b@[i as int]));
        }
        i = i + 1;
    }
    proof {
        assert(a@.take(n as int) =~= a@);
        assert(b@.take(n as int) =~= b@);
    }
    true
}

impl View for WatchTable {
    type V = Seq<WatchEntry>;

    closed spec fn view(&self) -> Seq<WatchEntry> {
        entry_seq(self.entries)
    }
}

impl WatchTable {
    /// An empty registry.
    pub fn new() -> (t: Self)
        ensures
            t@ == Seq::<WatchEntry>::empty(),
    {
        WatchTable { entries: entries_new() }
    }

    /// Appends `entry`; fails, leaving the table as it was, when the table
    /// already holds `MAX_ENTRIES` entries.
    pub fn register(&mut self, entry: WatchEntry) -> (ok: bool)
        ensures
            ok == (old(self)@.len() < MAX_ENTRIES),
            ok ==> final(self)@ == old(self)@.push(entry),
            !ok ==> final(self)@ == old(self)@,
            final(self)@.len() <= MAX_ENTRIES,
    {
        let r = entries_push(&mut self.entries, entry);
        r.is_ok()
    }

    /// The entry at `idx`, or `None` past the last entry.
    pub fn get(&self, idx: usize) -> (r: Option<&WatchEntry>)
        ensures
            idx < self@.len() ==> r == Some(&self@[idx as int]),
            idx >= self@.len() ==> r is None,
    {
        let s = entries_as_slice(&self.entries);
        if idx < s.len() {
            Some(&s[idx])
        } else {
            None
        }
    }

    /// The number of registered entries.
    pub fn len(&self) -> (n: usize)
        ensures
            n == self@.len(),
            n <= MAX_ENTRIES,
    {
        entries_as_slice(&self.entries).len()
    }

    /// The index of the first entry whose path is `path`.
    pub fn position_of(&self, path: &str) -> (r: Option<usize>)
        ensures
            match first_with_path(self@, path.spec_bytes()) {
                Some(i) => r == Some(i as usize),
                None => r is None,
            },
            r matches Some(k) ==> k < self@.len(),
            self@.len() <= MAX_ENTRIES,
    {
        let s = entries_as_slice(&self.entries);
        let want = path.as_bytes();
        let n = s.len();
        let mut i: usize = 0;
        while i < n
            invariant
                n == s@.len(),
                s@ == self@,
                want@ == path.spec_bytes(),
                i <= n,
                n <= MAX_ENTRIES,
                first_with_path(s@.take(i as int), want@) is None,
            decreases n - i,
        {
            let same = bytes_equal(path_as_str(&s[i].path).as_bytes(), want);
            proof {
                assert(s@.take(i + 1).drop_last() =~= s@.take(i as int));
            }
            if same {
                proof {
                    lemma_first_prefix(s@, i + 1, want@);
                }
                return Some(i);
            }
            i = i + 1;
        }
        proof {
            assert(s@.take(n as int) =~= s@);
        }
        None
    }

    /// The first entry whose path is `path`.
    pub fn find_by_path(&self, path: &str) -> (r: Option<&WatchEntry>)
        ensures
            match first_with_path(self@, path.spec_bytes()) {
                Some(i) => r == Some(&self@[i]),
                None => r is None,
            },
    {
        proof {
            lemma_first_with_path(self@, path.spec_bytes());
        }
        match self.position_of(path) {
            Some(i) => {
                let r = self.get(i);
                assert(r == Some(&self@[i as int]));
                r
            },
            None => None,
        }
    }
}

/// `acc` followed by `t` when the result fits in a path, `acc` otherwise.
pub open spec fn append_if_fits(acc: Seq<u8>, t: Seq<u8>) -> Seq<u8> {
    if acc.len() + t.len() <= PATH_CAPACITY {
        acc + t
    } else {
        acc
    }
}

/// The parts joined with `.` between them.
pub open spec fn dotted(parts: Seq<Seq<char>>) -> Seq<char>
    decreases parts.len(),
{
    if parts.len() == 0 {
        Seq::<char>::empty()
    } else if parts.len() == 1 {
        parts[0]
    } else {
        dotted(parts.drop_last()) + seq!['.'] + parts.last()
    }
}

/// The longest prefix of `cs` whose UTF-8 encoding fits in `cap` bytes.
pub open spec fn fitting_prefix(cs: Seq<char>, cap: int) -> Seq<char>
    decreases cs.len(),
{
    if cs.len() == 0 || encode_utf8(cs).len() <= cap {
        cs
    } else {
        fitting_prefix(cs.drop_last(), cap)
    }
}

/// The path that joining `parts` with `.` gives in a 64-byte string: the
/// joined text, silently cut to its first 64 bytes at a character boundary.
pub open spec fn joined_path(parts: Seq<Seq<char>>) -> Seq<u8> {
    encode_utf8(fitting_prefix(dotted(parts), PATH_CAPACITY as int))
}

/// The characters of each part.
pub open spec fn parts_chars(parts: Seq<&str>) -> Seq<Seq<char>> {
    parts.map_values(|p: &str| p@)
}

/// Encoding two character sequences one after the other gives the encoding
/// of the first followed by that of the second.
pub proof fn lemma_encode_concat(a: Seq<char>, b: Seq<char>)
    ensures
        encode_utf8(a + b) == encode_utf8(a) + encode_utf8(b),
    decreases a.len(),
{
    if a.len() == 0 {
        assert(a + b =~= b);
        assert(encode_utf8(a) + encode_utf8(b) =~= encode_utf8(b));
    } else {
        assert((a + b).drop_first() =~= a.drop_first() + b);
        assert((a + b)[0] == a[0]);
        lemma_encode_concat(a.drop_first(), b);
        assert(encode_utf8(a + b) =~= encode_utf8(a) + encode_utf8(b));
    }
}

/// The encoding of a prefix is a prefix of the encoding.
proof fn lemma_encode_prefix(cs: Seq<char>, k: int)
    requires
        0 <= k <= cs.len(),
    ensures
        encode_utf8(cs.take(k)) == encode_utf8(cs).take(encode_utf8(cs.take(k)).len() as int),
        encode_utf8(cs.take(k)).len() <= encode_utf8(cs).len(),
{
    assert(cs =~= cs.take(k) + cs.skip(k));
    lemma_encode_concat(cs.take(k), cs.skip(k));
    assert(encode_utf8(cs.take(k)) =~= encode_utf8(cs).take(encode_utf8(cs.take(k)).len() as int));
}

/// The fitting prefix is a prefix that fits, and nothing longer fits.
proof fn lemma_fitting_prefix(cs: Seq<char>, cap: int)
    requires
        cap >= 0,
    ensures
        fitting_prefix(cs, cap).len() <= cs.len(),
        fitting_prefix(cs, cap) == cs.take(fitting_prefix(cs, cap).len() as int),
        encode_utf8(fitting_prefix(cs, cap)).len() <= cap,
        fitting_prefix(cs, cap).len() < cs.len() ==> encode_utf8(
            cs.take(fitting_prefix(cs, cap).len() + 1int),
        ).len() > cap,
    decreases cs.len(),
{
    if cs.len() == 0 || encode_utf8(cs).len() <= cap {
        assert(cs.take(cs.len() as int) =~= cs);
    } else {
        let d = cs.drop_last();
        lemma_fitting_prefix(d, cap);
        let m = fitting_prefix(d, cap).len();
        assert(d.take(m as int) =~= cs.take(m as int));
        if m < d.len() {
            assert(d.take(m + 1int) =~= cs.take(m + 1int));
        } else {
            assert(cs.take(m + 1int) =~= cs);
        }
    }
}

/// Once a prefix no longer fits, what follows it changes nothing.
proof fn lemma_fitting_past(cs: Seq<char>, k: int, cap: int)
    requires
        0 <= k <= cs.len(),
        encode_utf8(cs.take(k)).len() > cap,
    ensures
        fitting_prefix(cs, cap) == fitting_prefix(cs.take(k), cap),
    decreases cs.len() - k,
{
    if k == cs.len() {
        assert(cs.take(k) =~= cs);
    } else {
        lemma_encode_prefix(cs, k);
        assert(cs.drop_last().take(k) =~= cs.take(k));
        lemma_fitting_past(cs.drop_last(), k, cap);
    }
}

/// The first `n` parts joined with `.`, as characters.
fn dotted_chars(parts: &[&str], n: usize) -> (r: Vec<char>)
    requires
        n <= parts@.len(),
    ensures
        r@ == dotted(parts_chars(parts@).take(n as int)),
{
    let ghost all = parts_chars(parts@);
    let mut out: Vec<char> = Vec::new();
    let mut i: usize = 0;
    proof {
        assert(all.take(0) =~= Seq::<Seq<char>>::empty());
    }
    while i < n
        invariant
            i <= n,
            n <= parts@.len(),
            all == parts_chars(parts@),
            out@ == dotted(all.take(i as int)),
        decreases n - i,
    {
        if i > 0 {
            out.push('.');
        }
        let ghost base = out@;
        let cs = chars_of(parts[i]);
        let mut j: usize = 0;
        while j < cs.len()
            invariant
                j <= cs@.len(),
                out@ == base + cs@.take(j as int),
            decreases cs@.len() - j,
        {
            out.push(cs[j]);
            proof {
                assert(cs@.take(j + 1) =~= cs@.take(j as int).push(cs@[j as int]));
                assert(base + cs@.take(j + 1) =~= (base + cs@.take(j as int)).push(cs@[j as int]));
            }
            j = j + 1;
        }
        proof {
            assert(cs@.take(cs@.len() as int) =~= cs@);
            assert(all[i as int] == parts@[i as int]@);
            let t = all.take(i + 1);
            assert(t.drop_last() =~= all.take(i as int));
            assert(t.last() == all[i as int]);
            if i == 0 {
                assert(base =~= Seq::<char>::empty());
                assert(out@ =~= t[0]);
            } else {
                assert(out@ =~= dotted(t.drop_last()) + seq!['.'] + t.last());
            }
        }
        i = i + 1;
    }
    out
}

/// Joins the first `n` parts with `.`, cutting the path short as
/// `joined_path` says.
fn build_path_prefix(parts: &[&str], n: usize) -> (r: heapless::String<64>)
    requires
        n <= parts@.len(),
    ensures
        path_bytes(r) == joined_path(parts_chars(parts@).take(n as int)),
{
    let cs = dotted_chars(parts, n);
    let ghost want = fitting_prefix(cs@, PATH_CAPACITY as int);
    let mut s = path_new();
    let mut k: usize = 0;
    let mut full = false;
    proof {
        assert(cs@.take(0) =~= Seq::<char>::empty());
    }
    while k < cs.len() && !full
        invariant
            k <= cs@.len(),
            want == fitting_prefix(cs@, PATH_CAPACITY as int),
            !full ==> path_bytes(s) == encode_utf8(cs@.take(k as int)) && encode_utf8(
                cs@.take(k as int),
            ).len() <= PATH_CAPACITY,
            full ==> path_bytes(s) == encode_utf8(want),
        decreases cs@.len() - k + (if full { 0int } else { 1int }),
    {
        let c = cs[k];
        let ghost before = path_bytes(s);
        proof {
            assert(cs@.take(k + 1) =~= cs@.take(k as int) + seq![c]);
            lemma_encode_concat(cs@.take(k as int), seq![c]);
        }
        match path_push(&mut s, c) {
            Ok(()) => {
                k = k + 1;
            },
            Err(()) => {
                proof {
                    let t = cs@.take(k + 1);
                    lemma_fitting_past(cs@, k + 1, PATH_CAPACITY as int);
                    assert(t.drop_last() =~= cs@.take(k as int));
                    assert(encode_utf8(t).len() > PATH_CAPACITY);
                    assert(fitting_prefix(t, PATH_CAPACITY as int) == fitting_prefix(
                        cs@.take(k as int),
                        PATH_CAPACITY as int,
                    ));
                }
                full = true;
            },
        }
    }
    proof {
        if !full {
            assert(cs@.take(cs@.len() as int) =~= cs@);
        }
    }
    s
}

/// Joins `parts` with `.` into a path, cutting it short as `joined_path` says.
fn build_path(parts: &[&str]) -> (r: heapless::String<64>)
    ensures
        path_bytes(r) == joined_path(parts_chars(parts@)),
{
    let r = build_path_prefix(parts, parts.len());
    proof {
        assert(parts_chars(parts@).take(parts@.len() as int) =~= parts_chars(parts@));
    }
    r
}

/// The path and the parent path of an entry whose path has the given parts:
/// the parent joins all parts but the last, and is empty for a single part.
pub fn entry_fields(path_parts: &[&str]) -> (r: (heapless::String<64>, heapless::String<64>))
    ensures
        path_bytes(r.0) == joined_path(parts_chars(path_parts@)),
        path_bytes(r.1) == if path_parts@.len() <= 1 {
            Seq::<u8>::empty()
        } else {
            joined_path(parts_chars(path_parts@).drop_last())
        },
{
    let path = build_path(path_parts);
    let parent = if path_parts.len() <= 1 {
        path_new()
    } else {
        let p = build_path_prefix(path_parts, path_parts.len() - 1);
        proof {
            assert(parts_chars(path_parts@).take(path_parts@.len() - 1) =~= parts_chars(
                path_parts@,
            ).drop_last());
        }
        p
    };
    (path, parent)
}

/// Joins `parts` with `.` into a path, silently cut short at 64 bytes.
pub fn path_from_parts(parts: &[&str]) -> (r: heapless::String<64>)
    ensures
        path_bytes(r) == joined_path(parts_chars(parts@)),
{
    build_path(parts)
}

/// `s` as a 64-byte string; empty when `s` does not fit.
pub fn str_to_string64(s: &str) -> (r: heapless::String<64>)
    ensures
        path_bytes(r) == append_if_fits(Seq::<u8>::empty(), s.spec_bytes()),
{
    let mut out = path_new();
    let _ = path_push_str(&mut out, s);
    proof {
        assert(Seq::<u8>::empty() + s.spec_bytes() =~= s.spec_bytes());
    }
    out
}

/// Where a write from the host to `path` goes: the index of the first entry
/// with that path when it is writable; `not found` when no entry has the
/// path and `readonly` when that entry is read-only. Nothing is written
/// here: the caller stores the value at the index it gets, and only then,
/// so an unknown or read-only path changes no variable.
pub fn write_target(table: &WatchTable, path: &str) -> (r: Result<usize, &'static str>)
    ensures
        match first_with_path(table@, path.spec_bytes()) {
            None => r == Err::<usize, &'static str>("not found"),
            Some(i) => if table@[i].access == Access::ReadOnly {
                r == Err::<usize, &'static str>("readonly")
            } else {
                r == Ok::<usize, &'static str>(i as usize)
            },
        },
        r matches Ok(i) ==> i < table@.len() && table@[i as int].access == Access::ReadWrite
            && table@[i as int].path_view() == path.spec_bytes(),
{
    proof {
        lemma_first_with_path(table@, path.spec_bytes());
    }
    match table.position_of(path) {
        None => Err("not found"),
        Some(i) => {
            let readonly = match table.get(i) {
                Some(e) => e.access == Access::ReadOnly,
                None => false,
            };
            assert(readonly == (table@[i as int].access == Access::ReadOnly));
            if readonly {
                Err("readonly")
            } else {
                Ok(i)
            }
        },
    }
}

/// The answer to a write that reached its variable: accepted when the text
/// parsed into a value of the variable's type, `parse error` otherwise.
pub fn stored_result(accepted: bool) -> (r: Result<(), &'static str>)
    ensures
        r == if accepted {
            Ok::<(), &'static str>(())
        } else {
            Err::<(), &'static str>("parse error")
        },
{
    if accepted {
        Ok(())
    } else {
        Err("parse error")
    }
}

/// Registering an entry makes it findable by its path: the lookup then
/// finds the earlier entry with that path if there is one, and the new
/// entry otherwise.
pub proof fn lemma_register_then_find(entries: Seq<WatchEntry>, e: WatchEntry)
    ensures
        first_with_path(entries.push(e), e.path_view()) == match first_with_path(
            entries,
            e.path_view(),
        ) {
            Some(i) => Some(i),
            None => Some(entries.len() as int),
        },
{
    assert(entries.push(e).drop_last() =~= entries);
}

/// Registering an entry leaves the lookup of every other path as it was
/// when the new entry has a different path.
pub proof fn lemma_register_keeps_other_paths(entries: Seq<WatchEntry>, e: WatchEntry, path: Seq<u8>)
    requires
        e.path_view() != path,
    ensures
        first_with_path(entries.push(e), path) == first_with_path(entries, path),
{
    assert(entries.push(e).drop_last() =~= entries);
}

/// A joined path is the dot-joined text cut short: it never exceeds the
/// capacity, it is a prefix of the whole encoded text, it is the whole text
/// when that fits, and when it is shorter, one more character would not fit.
pub proof fn lemma_joined_path_truncates(parts: Seq<Seq<char>>)
    ensures
        joined_path(parts).len() <= PATH_CAPACITY,
        joined_path(parts) == encode_utf8(dotted(parts)).take(joined_path(parts).len() as int),
        encode_utf8(dotted(parts)).len() <= PATH_CAPACITY ==> joined_path(parts) == encode_utf8(
            dotted(parts),
        ),
        ({
            let d = dotted(parts);
            let m = fitting_prefix(d, PATH_CAPACITY as int).len();
            m < d.len() ==> encode_utf8(d.take(m + 1int)).len() > PATH_CAPACITY
        }),
{
    let d = dotted(parts);
    lemma_fitting_prefix(d, PATH_CAPACITY as int);
    let m = fitting_prefix(d, PATH_CAPACITY as int).len();
    lemma_encode_prefix(d, m as int);
}

} // verus!
