//! The line protocol of the watch task: assembling received bytes into
//! command lines, answering `set path value` commands, and rendering the
//! periodic telemetry frame of `path=value` lines.
use vstd::prelude::*;
use vstd::string::*;
use vstd::utf8::encode_utf8;

use crate::fixed::{
    char_bytes, line_as_str, line_bytes, line_capacity, line_push, path_as_str, value_as_str,
    value_bytes,
};
use crate::watch_table::{first_with_path, lemma_first_with_path, write_target, WatchEntry, WatchTable};
use crate::watch_value::Access;

verus! {

/// Answer to a line with `set` but without a space between path and value.
pub const REPLY_NO_SEPARATOR: &'static str = "ERR parse: 需要 'set path value'\n";

/// Answer to a `set` line whose path or value is empty.
pub const REPLY_EMPTY_FIELD: &'static str = "ERR parse: 空的 path 或 value\n";

/// Unicode White_Space, the characters that `char::is_whitespace` accepts.
pub open spec fn is_ws(c: char) -> bool {
    let u = c as u32;
    ||| 0x09 <= u <= 0x0D
    ||| u == 0x20
    ||| u == 0x85
    ||| u == 0xA0
    ||| u == 0x1680
    ||| 0x2000 <= u <= 0x200A
    ||| u == 0x2028
    ||| u == 0x2029
    ||| u == 0x202F
    ||| u == 0x205F
    ||| u == 0x3000
}

/// `s` without its leading white space.
pub open spec fn trim_start(s: Seq<char>) -> Seq<char>
    decreases s.len(),
{
    if s.len() > 0 && is_ws(s[0]) {
        trim_start(s.drop_first())
    } else {
        s
    }
}

/// `s` without its trailing white space.
pub open spec fn trim_end(s: Seq<char>) -> Seq<char>
    decreases s.len(),
{
    if s.len() > 0 && is_ws(s.last()) {
        trim_end(s.drop_last())
    } else {
        s
    }
}

/// `s` without leading and trailing white space, as `str::trim` gives it.
pub open spec fn trim(s: Seq<char>) -> Seq<char> {
    trim_end(trim_start(s))
}

/// The index of the last space in `s`.
pub open spec fn last_space(s: Seq<char>) -> Option<int>
    decreases s.len(),
{
    if s.len() == 0 {
        None
    } else if s.last() == ' ' {
        Some(s.len() - 1)
    } else {
        last_space(s.drop_last())
    }
}

/// What a received line asks for.
pub enum ParsedCommand {
    /// Empty, or not a `set` command: nothing is answered.
    Ignore,
    /// `set` without a space between path and value.
    NoSeparator,
    /// `set` with an empty path or value.
    EmptyField,
    /// `set path value`.
    Write(Seq<char>, Seq<char>),
}

/// The prefix of a write command.
pub open spec fn set_prefix() -> Seq<char> {
    seq!['s', 'e', 't', ' ']
}

/// How a line is read: it is trimmed; it must start with `set `; the path
/// runs up to the last space and the value, trimmed, follows it.
pub open spec fn parse_command(line: Seq<char>) -> ParsedCommand {
    let t = trim(line);
    if t.len() < 4 || t.take(4) != set_prefix() {
        ParsedCommand::Ignore
    } else {
        let rest = t.skip(4);
        match last_space(rest) {
            None => ParsedCommand::NoSeparator,
            Some(k) => {
                let path = rest.take(k);
                let value = trim(rest.skip(k + 1));
                if path.len() == 0 || value.len() == 0 {
                    ParsedCommand::EmptyField
                } else {
                    ParsedCommand::Write(path, value)
                }
            },
        }
    }
}

/// The answer to an accepted write.
pub open spec fn ok_reply(path: Seq<char>, value: Seq<char>) -> Seq<char> {
    seq!['O', 'K', ' '] + path + seq!['='] + value + seq!['\n']
}

/// The answer to a refused write.
pub open spec fn err_reply(path: Seq<char>, reason: Seq<char>) -> Seq<char> {
    seq!['E', 'R', 'R', ' '] + path + seq![':', ' '] + reason + seq!['\n']
}

/// Whether `c` is white space, as `char::is_whitespace` decides.
pub fn is_whitespace(c: char) -> (r: bool)
    ensures
        r == is_ws(c),
{
    let u = c as u32;
    (0x09 <= u && u <= 0x0D) || u == 0x20 || u == 0x85 || u == 0xA0 || u == 0x1680 || (0x2000
        <= u && u <= 0x200A) || u == 0x2028 || u == 0x2029 || u == 0x202F || u == 0x205F || u
        == 0x3000
}

/// The characters of `s`, one by one.
pub(crate) fn chars_of(s: &str) -> (r: Vec<char>)
    ensures
        r@ == s@,
{
    let mut out: Vec<char> = Vec::new();
    for c in it: s.chars()
        invariant
            out@ == it.seq().take(it.index() as int),
    {
        out.push(c);
    }
    out
}

proof fn lemma_trim_start_skip(s: Seq<char>, a: int)
    requires
        0 <= a <= s.len(),
        forall|k: int| 0 <= k < a ==> is_ws(#[trigger] s[k]),
    ensures
        trim_start(s) == trim_start(s.skip(a)),
    decreases a,
{
    if a > 0 {
        assert(s.skip(1) =~= s.drop_first());
        lemma_trim_start_skip(s.drop_first(), a - 1);
        assert(s.drop_first().skip(a - 1) =~= s.skip(a));
    } else {
        assert(s.skip(0) =~= s);
    }
}

proof fn lemma_trim_end_take(s: Seq<char>, b: int)
    requires
        0 <= b <= s.len(),
        forall|k: int| b <= k < s.len() ==> is_ws(#[trigger] s[k]),
    ensures
        trim_end(s) == trim_end(s.take(b)),
    decreases s.len() - b,
{
    if b < s.len() {
        assert(s.take(s.len() - 1) =~= s.drop_last());
        lemma_trim_end_take(s.drop_last(), b);
        assert(s.drop_last().take(b) =~= s.take(b));
    } else {
        assert(s.take(b) =~= s);
    }
}

/// The bounds of `cs[from..to]` without its leading and trailing white space.
fn trim_bounds(cs: &Vec<char>, from: usize, to: usize) -> (r: (usize, usize))
    requires
        from <= to <= cs@.len(),
    ensures
        from <= r.0 <= r.1 <= to,
        cs@.subrange(r.0 as int, r.1 as int) == trim(cs@.subrange(from as int, to as int)),
{
    let ghost s = cs@.subrange(from as int, to as int);
    let mut a = from;
    while a < to && is_whitespace(cs[a])
        invariant
            from <= a <= to,
            to <= cs@.len(),
            s == cs@.subrange(from as int, to as int),
            forall|k: int| 0 <= k < a - from ==> is_ws(#[trigger] s[k]),
        decreases to - a,
    {
        a = a + 1;
    }
    let ghost t = cs@.subrange(a as int, to as int);
    proof {
        lemma_trim_start_skip(s, a - from);
        assert(s.skip(a - from) =~= t);
        if t.len() > 0 {
            assert(t[0] == cs@[a as int]);
        }
        assert(trim_start(t) == t);
    }
    let mut b = to;
    while b > a && is_whitespace(cs[b - 1])
        invariant
            from <= a <= b <= to,
            to <= cs@.len(),
            t == cs@.subrange(a as int, to as int),
            forall|k: int| b - a <= k < t.len() ==> is_ws(#[trigger] t[k]),
        decreases b,
    {
        b = b - 1;
    }
    proof {
        lemma_trim_end_take(t, b - a);
        let u = t.take(b - a);
        assert(u =~= cs@.subrange(a as int, b as int));
        if u.len() > 0 {
            assert(u.last() == cs@[b - 1]);
        }
        assert(trim_end(u) == u);
    }
    (a, b)
}

proof fn lemma_last_space_prefix(s: Seq<char>, j: int)
    requires
        0 <= j <= s.len(),
        forall|k: int| j <= k < s.len() ==> #[trigger] s[k] != ' ',
    ensures
        last_space(s) == last_space(s.take(j)),
    decreases s.len() - j,
{
    if j < s.len() {
        assert(s.take(s.len() - 1) =~= s.drop_last());
        lemma_last_space_prefix(s.drop_last(), j);
        assert(s.drop_last().take(j) =~= s.take(j));
    } else {
        assert(s.take(j) =~= s);
    }
}

/// The index, counted from `from`, of the last space in `cs[from..to]`.
fn last_space_in(cs: &Vec<char>, from: usize, to: usize) -> (r: Option<usize>)
    requires
        from <= to <= cs@.len(),
    ensures
        r matches Some(k) ==> last_space(cs@.subrange(from as int, to as int)) == Some(k as int)
            && from + k < to,
        r is None ==> last_space(cs@.subrange(from as int, to as int)) is None,
{
    let ghost s = cs@.subrange(from as int, to as int);
    let mut j = to;
    while j > from
        invariant
            from <= j <= to,
            to <= cs@.len(),
            s == cs@.subrange(from as int, to as int),
            forall|k: int| j - from <= k < s.len() ==> #[trigger] s[k] != ' ',
        decreases j,
    {
        if cs[j - 1] == ' ' {
            proof {
                lemma_last_space_prefix(s, j - from);
                assert(s.take(j - from).last() == cs@[j - 1]);
            }
            return Some(j - 1 - from);
        }
        j = j - 1;
    }
    proof {
        lemma_last_space_prefix(s, 0);
    }
    None
}

/// What a received line asks of the watch task.
pub enum CommandAction {
    /// Nothing is answered and nothing is written.
    Ignore,
    /// Send this reply; nothing is written.
    Reply(String),
    /// Store the value text (third field) in the entry at the index, then
    /// answer with `write_reply` for the path (second field) and that text.
    Store(usize, String, String),
}

/// Decides what one received line asks for: lines that are no `set` command
/// are ignored, malformed commands and writes to an unknown or read-only
/// path are answered without writing, and a write to a writable entry is
/// handed back as the entry's index with the path and the value text.
pub fn handle_cmd(line: &str, table: &WatchTable) -> (r: CommandAction)
    ensures
        match parse_command(line@) {
            ParsedCommand::Ignore => r is Ignore,
            ParsedCommand::NoSeparator => r matches CommandAction::Reply(t) && t@
                == REPLY_NO_SEPARATOR@,
            ParsedCommand::EmptyField => r matches CommandAction::Reply(t) && t@
                == REPLY_EMPTY_FIELD@,
            ParsedCommand::Write(path, value) => match first_with_path(
                table@,
                encode_utf8(path),
            ) {
                None => r matches CommandAction::Reply(t) && t@ == err_reply(path, "not found"@),
                Some(i) => if table@[i].access == Access::ReadOnly {
                    r matches CommandAction::Reply(t) && t@ == err_reply(path, "readonly"@)
                } else {
                    r matches CommandAction::Store(k, p, v) && k == i && p@ == path && v@ == value
                },
            },
        },
        r matches CommandAction::Store(k, _, _) ==> k < table@.len() && table@[k as int].access
            == Access::ReadWrite,
{
    let cs = chars_of(line);
    let (a, b) = trim_bounds(&cs, 0, cs.len());
    let ghost t = cs@.subrange(a as int, b as int);
    proof {
        assert(cs@.subrange(0, cs@.len() as int) =~= line@);
    }
    if b - a < 4 || cs[a] != 's' || cs[a + 1] != 'e' || cs[a + 2] != 't' || cs[a + 3] != ' ' {
        proof {
            if t.len() >= 4 {
                assert(t.take(4)[0] == cs@[a as int]);
                assert(t.take(4)[1] == cs@[a + 1]);
                assert(t.take(4)[2] == cs@[a + 2]);
                assert(t.take(4)[3] == cs@[a + 3]);
            }
        }
        return CommandAction::Ignore;
    }
    proof {
        assert(t.take(4) =~= set_prefix());
    }
    let rs = a + 4;
    let ghost rest = t.skip(4);
    proof {
        assert(rest =~= cs@.subrange(rs as int, b as int));
    }
    match last_space_in(&cs, rs, b) {
        None => {
            proof {
                reveal_strlit("ERR parse: 需要 'set path value'\n");
            }
            CommandAction::Reply(String::from_str(REPLY_NO_SEPARATOR))
        },
        Some(k) => {
            let sep = rs + k;
            let (va, vb) = trim_bounds(&cs, sep + 1, b);
            proof {
                assert(rest.take(k as int) =~= cs@.subrange(rs as int, sep as int));
                assert(rest.skip(k + 1) =~= cs@.subrange(sep + 1, b as int));
            }
            if k == 0 || va == vb {
                proof {
                    assert(last_space(rest) == Some(k as int));
                }
                return CommandAction::Reply(String::from_str(REPLY_EMPTY_FIELD));
            }
            let path = line.substring_char(rs, sep);
            let value = line.substring_char(va, vb);
            proof {
                assert(path@ =~= cs@.subrange(rs as int, sep as int));
                assert(value@ =~= cs@.subrange(va as int, vb as int));
            }
            proof {
                assert(parse_command(line@) == ParsedCommand::Write(path@, value@));
            }
            proof {
                lemma_first_with_path(table@, path.spec_bytes());
            }
            match write_target(table, path) {
                Ok(i) => CommandAction::Store(i, String::from_str(path), String::from_str(value)),
                Err(reason) => CommandAction::Reply(error_text(path, reason)),
            }
        },
    }
}

/// `ERR path: reason` and a newline.
fn error_text(path: &str, reason: &str) -> (t: String)
    ensures
        t@ == err_reply(path@, reason@),
{
    let mut reply = String::from_str("ERR ");
    reply.append(path);
    reply.append(": ");
    reply.append(reason);
    reply.append("\n");
    proof {
        reveal_strlit("ERR ");
        reveal_strlit(": ");
        reveal_strlit("\n");
        assert(reply@ =~= err_reply(path@, reason@));
    }
    reply
}

/// The answer to a stored write: `OK path=value` when the variable took the
/// text, `ERR path: parse error` when the text was no value of its type.
pub fn write_reply(path: &str, value: &str, accepted: bool) -> (t: String)
    ensures
        t@ == if accepted {
            ok_reply(path@, value@)
        } else {
            err_reply(path@, "parse error"@)
        },
{
    if accepted {
        let mut reply = String::from_str("OK ");
        reply.append(path);
        reply.append("=");
        reply.append(value);
        reply.append("\n");
        proof {
            reveal_strlit("OK ");
            reveal_strlit("=");
            reveal_strlit("\n");
            assert(reply@ =~= ok_reply(path@, value@));
        }
        reply
    } else {
        error_text(path, "parse error")
    }
}

// ---------------------------------------------------------------------------
// Received bytes
// ---------------------------------------------------------------------------

/// Adds one received byte to the command line being assembled and says
/// whether the line is complete. A newline completes the line and is not
/// stored; any other byte is stored as the character of that code point
/// while the line is shorter than its capacity and the character's encoding
/// still fits, and is dropped otherwise.
pub fn feed_command_byte(line: &mut heapless::String<128>, byte: u8) -> (complete: bool)
    ensures
        complete == (byte == 10),
        complete ==> line_bytes(*final(line)) == line_bytes(*old(line)),
        !complete ==> line_bytes(*final(line)) == if line_bytes(*old(line)).len() < 128
            && line_bytes(*old(line)).len() + char_bytes(byte as char).len() <= 128 {
            line_bytes(*old(line)) + char_bytes(byte as char)
        } else {
            line_bytes(*old(line))
        },
{
    if byte == 10 {
        return true;
    }
    let len = line_as_str(line).len();
    if len < line_capacity(line) {
        let _ = line_push(line, byte as char);
    }
    false
}

// ---------------------------------------------------------------------------
// Telemetry
// ---------------------------------------------------------------------------

/// Size of the telemetry frame buffer, in bytes.
pub const UP_BUF_SIZE: usize = 4096;

/// Room that must be left in the frame before another entry is read.
pub const LINE_RESERVE: usize = 64;

/// The telemetry line of one value: `path=value` and a newline.
pub open spec fn telemetry_line(path: Seq<u8>, value: Seq<u8>) -> Seq<u8> {
    path + seq![61u8] + value + seq![10u8]
}

/// Whether the frame still has room to read another entry.
pub open spec fn has_room(frame: Seq<u8>) -> bool {
    frame.len() + LINE_RESERVE <= UP_BUF_SIZE
}

/// The frame after one entry: with room to spare, the line of a value that
/// was read is appended when it fits in the buffer; otherwise the entry is
/// skipped.
pub open spec fn frame_step(frame: Seq<u8>, path: Seq<u8>, value: Option<Seq<u8>>) -> Seq<u8> {
    if !has_room(frame) {
        frame
    } else {
        match value {
            None => frame,
            Some(v) => if frame.len() + telemetry_line(path, v).len() > UP_BUF_SIZE {
                frame
            } else {
                frame + telemetry_line(path, v)
            },
        }
    }
}

/// The frame made of the entries with the given paths and read values.
pub open spec fn telemetry_frame(paths: Seq<Seq<u8>>, values: Seq<Option<Seq<u8>>>) -> Seq<u8>
    decreases paths.len(),
{
    if paths.len() == 0 {
        Seq::<u8>::empty()
    } else {
        frame_step(
            telemetry_frame(paths.drop_last(), values.drop_last()),
            paths.last(),
            values.last(),
        )
    }
}

/// The paths of the entries.
pub open spec fn entry_paths(entries: Seq<WatchEntry>) -> Seq<Seq<u8>> {
    entries.map_values(|e: WatchEntry| e.path_view())
}

/// The bytes of each value that was read.
pub open spec fn value_views(values: Seq<Option<heapless::String<32>>>) -> Seq<Option<Seq<u8>>> {
    values.map_values(
        |v: Option<heapless::String<32>>|
            match v {
                Some(s) => Some(value_bytes(s)),
                None => None,
            },
    )
}

/// The number of entries sent in one round.
pub open spec fn sent_count(table_len: int, max_entries: int) -> int {
    if table_len < max_entries {
        table_len
    } else {
        max_entries
    }
}

proof fn lemma_frame_grows(paths: Seq<Seq<u8>>, values: Seq<Option<Seq<u8>>>, k: int)
    requires
        0 <= k <= paths.len(),
        paths.len() == values.len(),
        !has_room(telemetry_frame(paths.take(k), values.take(k))),
    ensures
        telemetry_frame(paths, values) == telemetry_frame(paths.take(k), values.take(k)),
    decreases paths.len() - k,
{
    if k == paths.len() {
        assert(paths.take(k) =~= paths);
        assert(values.take(k) =~= values);
    } else {
        assert(paths.drop_last().take(k) =~= paths.take(k));
        assert(values.drop_last().take(k) =~= values.take(k));
        lemma_frame_grows(paths.drop_last(), values.drop_last(), k);
    }
}

/// Renders one telemetry frame: for each of the first `max_entries` entries
/// in order, `read_fn` is asked for the value's text, and `path=value` and a
/// newline are appended while the frame has room, as `telemetry_frame`
/// says; an entry is read only while the frame still has room.
pub fn build_telemetry<F: Fn(usize) -> Option<heapless::String<32>>>(
    table: &WatchTable,
    max_entries: usize,
    read_fn: F,
) -> (frame: Vec<u8>)
    requires
        forall|i: usize| call_requires(read_fn, (i,)),
    ensures
        frame@.len() <= UP_BUF_SIZE,
        exists|values: Seq<Option<heapless::String<32>>>|
            #![trigger value_views(values)]
            {
                let n = sent_count(table@.len() as int, max_entries as int);
                &&& values.len() == n
                &&& frame@ == telemetry_frame(
                    entry_paths(table@.take(n)),
                    value_views(values),
                )
                &&& forall|i: int|
                    0 <= i < n && has_room(
                        telemetry_frame(
                            entry_paths(table@.take(i)),
                            value_views(values.take(i)),
                        ),
                    ) ==> call_ensures(read_fn, (i as usize,), #[trigger] values[i])
            },
{
    let total = table.len();
    let n = if total < max_entries {
        total
    } else {
        max_entries
    };
    let ghost paths = entry_paths(table@.take(n as int));
    let mut frame: Vec<u8> = Vec::new();
    let ghost mut values: Seq<Option<heapless::String<32>>> = Seq::empty();
    let mut i: usize = 0;
    proof {
        assert(paths.take(0) =~= Seq::<Seq<u8>>::empty());
    }
    while i < n
        invariant_except_break
            i <= n,
            n <= table@.len(),
            n == sent_count(table@.len() as int, max_entries as int),
            paths == entry_paths(table@.take(n as int)),
            values.len() == i,
            frame@ == telemetry_frame(paths.take(i as int), value_views(values)),
            frame@.len() <= UP_BUF_SIZE,
            forall|k: int|
                0 <= k < i && has_room(
                    telemetry_frame(entry_paths(table@.take(k)), value_views(values.take(k))),
                ) ==> call_ensures(read_fn, (k as usize,), #[trigger] values[k]),
            forall|j: usize| call_requires(read_fn, (j,)),
        ensures
            i <= n,
            values.len() == i,
            frame@ == telemetry_frame(paths.take(i as int), value_views(values)),
            frame@.len() <= UP_BUF_SIZE,
            i < n ==> !has_room(frame@),
            forall|k: int|
                0 <= k < i && has_room(
                    telemetry_frame(entry_paths(table@.take(k)), value_views(values.take(k))),
                ) ==> call_ensures(read_fn, (k as usize,), #[trigger] values[k]),
        decreases n - i,
    {
        if frame.len() + LINE_RESERVE > UP_BUF_SIZE {
            break;
        }
        let entry = match table.get(i) {
            Some(e) => e,
            None => {
                break;
            },
        };
        let read = read_fn(i);
        let ghost before = frame@;
        match &read {
            Some(text) => {
                let pb = path_as_str(&entry.path).as_bytes();
                let vb = value_as_str(text).as_bytes();
                let needed = pb.len() + 1 + vb.len() + 1;
                if frame.len() + needed <= UP_BUF_SIZE {
                    frame.extend_from_slice(pb);
                    frame.push(61);
                    frame.extend_from_slice(vb);
                    frame.push(10);
                }
            },
            None => {},
        }
        proof {
            let vals2 = values.push(read);
            assert(paths.take(i + 1).drop_last() =~= paths.take(i as int));
            assert(value_views(vals2).drop_last() =~= value_views(values));
            assert(paths.take(i + 1).last() == table@[i as int].path_view());
            assert(value_views(vals2).last() == match read {
                Some(s) => Some(value_bytes(s)),
                None => None::<Seq<u8>>,
            });
            assert(table@.take(i as int) =~= table@.take(n as int).take(i as int));
            assert(entry_paths(table@.take(i as int)) =~= paths.take(i as int));
            assert(vals2.take(i as int) =~= values);
            assert forall|k: int|
                0 <= k < i + 1 && has_room(
                    telemetry_frame(entry_paths(table@.take(k)), value_views(vals2.take(k))),
                ) implies call_ensures(read_fn, (k as usize,), #[trigger] vals2[k]) by {
                if k < i {
                    assert(vals2.take(k) =~= values.take(k));
                    assert(vals2[k] == values[k]);
                }
            }
            if read is Some {
                assert(frame@ =~= frame_step(before, paths.take(i + 1).last(), value_views(vals2).last()));
            }
            values = vals2;
        }
        i = i + 1;
    }
    proof {
        if i < n {
            // The frame is full: the remaining entries are skipped unread.
            let rest = Seq::new((n - i) as nat, |k: int| None::<heapless::String<32>>);
            let all = values + rest;
            assert(all.take(i as int) =~= values);
            assert(value_views(all).take(i as int) =~= value_views(values));
            lemma_frame_grows(paths, value_views(all), i as int);
            assert forall|k: int|
                0 <= k < n && has_room(
                    telemetry_frame(entry_paths(table@.take(k)), value_views(all.take(k))),
                ) implies call_ensures(read_fn, (k as usize,), #[trigger] all[k]) by {
                if k < i {
                    assert(all.take(k) =~= values.take(k));
                    assert(all[k] == values[k]);
                } else {
                    let pk = paths.take(k);
                    let vk = value_views(all).take(k);
                    assert(pk.take(i as int) =~= paths.take(i as int));
                    assert(vk.take(i as int) =~= value_views(values));
                    lemma_frame_grows(pk, vk, i as int);
                    assert(entry_paths(table@.take(k)) =~= pk);
                    assert(value_views(all.take(k)) =~= vk);
                }
            }
            values = all;
        } else {
            assert(paths.take(n as int) =~= paths);
        }
    }
    frame
}

} // verus!
