use vstd::prelude::*;

use vstd::string::StrSliceExecFns;

use vstd::utf8::{decode_utf8, encode_utf8, encode_utf8_decode_utf8, encode_utf8_valid_utf8,
    valid_utf8};

use vstd::arithmetic::div_mod::{lemma_fundamental_div_mod, lemma_mod_bound,
    lemma_mod_mod};

use crate::task::{Priority, Task, TaskView, Timestamp};

verus! {

// The persisted document is a JSON array of task objects,
//     [{"name":"...","description":"...","priority":"Low","add_time":"..."}]
// written without any whitespace, strings escaped with a backslash before
// every quote and backslash, the timestamp in the fixed-width form
// YYYY-MM-DDTHH:MM:SS+HH:MM.  The functions below state the byte form of
// that document and the parse of it, and the round-trip lemmas tie the two
// together.

/// The byte at which one lowercase hexadecimal digit is printed.
pub open spec fn hex_dig(n: int) -> u8 {
    if n < 10 {
        (48 + n) as u8
    } else {
        (87 + n) as u8
    }
}

pub open spec fn is_hex(c: u8) -> bool {
    (48 <= c <= 57) || (97 <= c <= 102)
}

/// The numeric value of one lowercase hexadecimal digit byte.
pub open spec fn hex_val(c: u8) -> int {
    if c <= 57 {
        c - 48
    } else {
        c - 87
    }
}

/// The escaped form of one byte inside a JSON string: quote (34) and
/// backslash (92) gain a backslash prefix, a control byte (below 32) is
/// written in the six-byte \u00xx form, every other byte stands as is.
pub open spec fn esc_one(c: u8) -> Seq<u8> {
    if c == 34 || c == 92 {
        seq![92u8, c]
    } else if c < 32 {
        seq![92u8, 117u8, 48u8, 48u8, hex_dig(c as int / 16), hex_dig(c as int % 16)]
    } else {
        seq![c]
    }
}

/// The escaped form of a byte string.
pub open spec fn esc_bytes(s: Seq<u8>) -> Seq<u8>
    decreases s.len(),
{
    if s.len() == 0 {
        Seq::empty()
    } else {
        esc_one(s[0]) + esc_bytes(s.drop_first())
    }
}

/// The byte at which one decimal digit is printed.
pub open spec fn dig(n: int) -> u8 {
    (48 + n) as u8
}

/// The numeric value of one digit byte.
pub open spec fn dval(c: u8) -> int {
    c - 48
}

pub open spec fn is_dig(c: u8) -> bool {
    48 <= c <= 57
}

/// The fixed-width 25-byte timestamp rendering YYYY-MM-DDTHH:MM:SS+HH:MM.
#[verifier::opaque]
pub open spec fn render_time(t: Timestamp) -> Seq<u8> {
    let y = t.year as int;
    let a = if t.offset_minutes < 0 {
        -(t.offset_minutes as int)
    } else {
        t.offset_minutes as int
    };
    seq![
        dig(y / 1000),
        dig(y % 1000 / 100),
        dig(y % 100 / 10),
        dig(y % 10),
        45u8,
        dig(t.month as int / 10),
        dig(t.month as int % 10),
        45u8,
        dig(t.day as int / 10),
        dig(t.day as int % 10),
        84u8,
        dig(t.hour as int / 10),
        dig(t.hour as int % 10),
        58u8,
        dig(t.minute as int / 10),
        dig(t.minute as int % 10),
        58u8,
        dig(t.second as int / 10),
        dig(t.second as int % 10),
        (if t.offset_minutes < 0 {
            45u8
        } else {
            43u8
        }),
        dig(a / 60 / 10),
        dig(a / 60 % 10),
        58u8,
        dig(a % 60 / 10),
        dig(a % 60 % 10),
    ]
}

/// The byte form of a priority label.
pub open spec fn priority_bytes(p: Priority) -> Seq<u8> {
    match p {
        Priority::Low => seq![76u8, 111u8, 119u8],
        Priority::Medium => seq![77u8, 101u8, 100u8, 105u8, 117u8, 109u8],
        Priority::High => seq![72u8, 105u8, 103u8, 104u8],
    }
}

/// The bytes of `{"name":"`.
pub open spec fn key_name() -> Seq<u8> {
    seq![123u8, 34u8, 110u8, 97u8, 109u8, 101u8, 34u8, 58u8, 34u8]
}

/// The bytes of `,"description":"`.
pub open spec fn key_description() -> Seq<u8> {
    seq![44u8, 34u8, 100u8, 101u8, 115u8, 99u8, 114u8, 105u8, 112u8, 116u8, 105u8, 111u8, 110u8,
        34u8, 58u8, 34u8]
}

/// The bytes of `,"priority":"`.
pub open spec fn key_priority() -> Seq<u8> {
    seq![44u8, 34u8, 112u8, 114u8, 105u8, 111u8, 114u8, 105u8, 116u8, 121u8, 34u8, 58u8, 34u8]
}

/// The bytes of `","add_time":"`.
pub open spec fn key_add_time() -> Seq<u8> {
    seq![34u8, 44u8, 34u8, 97u8, 100u8, 100u8, 95u8, 116u8, 105u8, 109u8, 101u8, 34u8, 58u8, 34u8]
}

/// The bytes of `"}`.
pub open spec fn key_end() -> Seq<u8> {
    seq![34u8, 125u8]
}

/// The byte form of one task object.
#[verifier::opaque]
pub open spec fn render_task(t: TaskView) -> Seq<u8> {
    key_name() + esc_bytes(encode_utf8(t.name)) + seq![34u8] + key_description() + esc_bytes(
        encode_utf8(t.description),
    ) + seq![34u8] + key_priority() + priority_bytes(t.priority) + key_add_time() + render_time(
        t.add_time,
    ) + key_end()
}

/// The byte form of the comma-separated task objects.
pub open spec fn render_items(vs: Seq<TaskView>) -> Seq<u8>
    decreases vs.len(),
{
    if vs.len() == 0 {
        Seq::empty()
    } else if vs.len() == 1 {
        render_task(vs[0])
    } else {
        render_task(vs[0]) + seq![44u8] + render_items(vs.drop_first())
    }
}

/// The byte form of the whole document: the task objects inside brackets.
pub open spec fn render_doc(vs: Seq<TaskView>) -> Seq<u8> {
    seq![91u8] + render_items(vs) + seq![93u8]
}

/// Strips the literal `k` off the front of `b`.
pub open spec fn parse_expect(b: Seq<u8>, k: Seq<u8>) -> Option<Seq<u8>> {
    if k.is_prefix_of(b) {
        Some(b.skip(k.len() as int))
    } else {
        None
    }
}

/// Reads a string body up to and including its closing quote, undoing the
/// escapes; yields the content bytes and the rest. A \u escape is accepted
/// only below 128, where the named code point is the byte itself.
pub open spec fn parse_str_body(b: Seq<u8>) -> Option<(Seq<u8>, Seq<u8>)>
    decreases b.len(),
{
    if b.len() == 0 {
        None
    } else if b[0] == 34 {
        Some((Seq::empty(), b.drop_first()))
    } else if b[0] == 92 {
        if b.len() >= 2 && b[1] == 117 {
            if b.len() >= 6 && is_hex(b[2]) && is_hex(b[3]) && is_hex(b[4]) && is_hex(b[5]) {
                let v = 4096 * hex_val(b[2]) + 256 * hex_val(b[3]) + 16 * hex_val(b[4]) + hex_val(
                    b[5],
                );
                if v < 128 {
                    match parse_str_body(b.skip(6)) {
                        Some((c, r)) => Some((seq![v as u8] + c, r)),
                        None => None,
                    }
                } else {
                    None
                }
            } else {
                None
            }
        } else if b.len() >= 2 {
            match parse_str_body(b.skip(2)) {
                Some((c, r)) => Some((seq![b[1]] + c, r)),
                None => None,
            }
        } else {
            None
        }
    } else {
        match parse_str_body(b.drop_first()) {
            Some((c, r)) => Some((seq![b[0]] + c, r)),
            None => None,
        }
    }
}

/// Reads a priority label off the front of `b`.
pub open spec fn parse_priority(b: Seq<u8>) -> Option<(Priority, Seq<u8>)> {
    if priority_bytes(Priority::Low).is_prefix_of(b) {
        Some((Priority::Low, b.skip(3)))
    } else if priority_bytes(Priority::Medium).is_prefix_of(b) {
        Some((Priority::Medium, b.skip(6)))
    } else if priority_bytes(Priority::High).is_prefix_of(b) {
        Some((Priority::High, b.skip(4)))
    } else {
        None
    }
}

/// Reads the fixed-width timestamp off the front of `b`, refusing any
/// field out of range.
#[verifier::opaque]
pub open spec fn parse_time(b: Seq<u8>) -> Option<(Timestamp, Seq<u8>)> {
    if b.len() >= 25 && is_dig(b[0]) && is_dig(b[1]) && is_dig(b[2]) && is_dig(b[3]) && b[4] == 45
        && is_dig(b[5]) && is_dig(b[6]) && b[7] == 45 && is_dig(b[8]) && is_dig(b[9]) && b[10]
        == 84 && is_dig(b[11]) && is_dig(b[12]) && b[13] == 58 && is_dig(b[14]) && is_dig(b[15])
        && b[16] == 58 && is_dig(b[17]) && is_dig(b[18]) && (b[19] == 43 || b[19] == 45) && is_dig(
        b[20],
    ) && is_dig(b[21]) && b[22] == 58 && is_dig(b[23]) && is_dig(b[24]) {
        let year = 1000 * dval(b[0]) + 100 * dval(b[1]) + 10 * dval(b[2]) + dval(b[3]);
        let month = 10 * dval(b[5]) + dval(b[6]);
        let day = 10 * dval(b[8]) + dval(b[9]);
        let hour = 10 * dval(b[11]) + dval(b[12]);
        let minute = 10 * dval(b[14]) + dval(b[15]);
        let second = 10 * dval(b[17]) + dval(b[18]);
        let mag = 60 * (10 * dval(b[20]) + dval(b[21])) + 10 * dval(b[23]) + dval(b[24]);
        let offset = if b[19] == 45 {
            -mag
        } else {
            mag
        };
        let t = Timestamp {
            year: year as u16,
            month: month as u8,
            day: day as u8,
            hour: hour as u8,
            minute: minute as u8,
            second: second as u8,
            offset_minutes: offset as i16,
        };
        if t.wf() {
            Some((t, b.skip(25)))
        } else {
            None
        }
    } else {
        None
    }
}

/// Reads one task object off the front of `b`.
#[verifier::opaque]
pub open spec fn parse_task(b: Seq<u8>) -> Option<(TaskView, Seq<u8>)> {
    match parse_expect(b, key_name()) {
        None => None,
        Some(b1) => match parse_str_body(b1) {
            None => None,
            Some((name_bytes, b2)) => if !valid_utf8(name_bytes) {
                None
            } else {
                match parse_expect(b2, key_description()) {
                    None => None,
                    Some(b3) => match parse_str_body(b3) {
                        None => None,
                        Some((desc_bytes, b4)) => if !valid_utf8(desc_bytes) {
                            None
                        } else {
                            match parse_expect(b4, key_priority()) {
                                None => None,
                                Some(b5) => match parse_priority(b5) {
                                    None => None,
                                    Some((pri, b6)) => match parse_expect(b6, key_add_time()) {
                                        None => None,
                                        Some(b7) => match parse_time(b7) {
                                            None => None,
                                            Some((time, b8)) => match parse_expect(b8, key_end()) {
                                                None => None,
                                                Some(b9) => Some(
                                                    (
                                                        TaskView {
                                                            name: decode_utf8(name_bytes),
                                                            description: decode_utf8(desc_bytes),
                                                            priority: pri,
                                                            add_time: time,
                                                        },
                                                        b9,
                                                    ),
                                                ),
                                            },
                                        },
                                    },
                                },
                            }
                        },
                    },
                }
            },
        },
    }
}

/// Reads the task objects of a document after its opening bracket, demanding
/// the closing bracket as the last byte.
pub open spec fn parse_items(b: Seq<u8>) -> Option<Seq<TaskView>>
    decreases b.len(),
{
    match parse_task(b) {
        None => None,
        Some((t, r)) => if r.len() == 1 && r[0] == 93 {
            Some(seq![t])
        } else if r.len() >= 1 && r[0] == 44 {
            if r.len() < b.len() {
                match parse_items(r.drop_first()) {
                    None => None,
                    Some(ts) => Some(seq![t] + ts),
                }
            } else {
                None
            }
        } else {
            None
        },
    }
}

/// The parse of a whole document: `Some` exactly on the byte form this
/// library writes for a task sequence with in-range timestamps, escape
/// spellings inside strings aside.
pub open spec fn parse_doc(b: Seq<u8>) -> Option<Seq<TaskView>> {
    if b.len() == 0 || b[0] != 91 {
        None
    } else {
        let r = b.drop_first();
        if r.len() == 1 && r[0] == 93 {
            Some(Seq::empty())
        } else {
            parse_items(r)
        }
    }
}

proof fn lemma_expect_prefix(k: Seq<u8>, rest: Seq<u8>)
    ensures
        parse_expect(k + rest, k) == Some(rest),
{
    let b = k + rest;
    assert(b.subrange(0, k.len() as int) =~= k);
    assert(k.is_prefix_of(b));
    assert(b.skip(k.len() as int) =~= rest);
}

proof fn lemma_parse_esc(s: Seq<u8>, rest: Seq<u8>)
    ensures
        parse_str_body(esc_bytes(s) + seq![34u8] + rest) == Some((s, rest)),
    decreases s.len(),
{
    let b = esc_bytes(s) + seq![34u8] + rest;
    if s.len() == 0 {
        assert(b =~= seq![34u8] + rest);
        assert(b[0] == 34);
        assert(b.drop_first() =~= rest);
        assert(parse_str_body(b) == Some((Seq::<u8>::empty(), rest)));
        assert(s =~= Seq::<u8>::empty());
    } else {
        let tail = esc_bytes(s.drop_first()) + seq![34u8] + rest;
        lemma_parse_esc(s.drop_first(), rest);
        if s[0] == 34 || s[0] == 92 {
            assert(esc_bytes(s) =~= seq![92u8, s[0]] + esc_bytes(s.drop_first()));
            assert(b =~= seq![92u8, s[0]] + tail);
            assert(b[0] == 92);
            assert(b.len() >= 2);
            assert(b[1] == s[0]);
            assert(b[1] != 117);
            assert(b.skip(2) =~= tail);
            assert(seq![b[1]] + s.drop_first() =~= s);
        } else if s[0] < 32 {
            let c = s[0];
            let h1 = hex_dig(c as int / 16);
            let h0 = hex_dig(c as int % 16);
            assert(esc_bytes(s) =~= seq![92u8, 117u8, 48u8, 48u8, h1, h0] + esc_bytes(
                s.drop_first(),
            ));
            assert(b =~= seq![92u8, 117u8, 48u8, 48u8, h1, h0] + tail);
            assert(b[0] == 92 && b.len() >= 6 && b[1] == 117);
            assert(b[2] == 48 && b[3] == 48 && b[4] == h1 && b[5] == h0);
            lemma_fundamental_div_mod(c as int, 16);
            lemma_mod_bound(c as int, 16);
            assert(0 <= c as int / 16 <= 1);
            assert(is_hex(b[2]) && is_hex(b[3]) && is_hex(b[4]) && is_hex(b[5]));
            assert(hex_val(b[2]) == 0 && hex_val(b[3]) == 0);
            assert(hex_val(b[4]) == c as int / 16);
            assert(hex_val(b[5]) == c as int % 16);
            let v = 4096 * hex_val(b[2]) + 256 * hex_val(b[3]) + 16 * hex_val(b[4]) + hex_val(
                b[5],
            );
            assert(v == c as int);
            assert(v < 128);
            assert(b.skip(6) =~= tail);
            assert(seq![v as u8] + s.drop_first() =~= s);
        } else {
            assert(esc_bytes(s) =~= seq![s[0]] + esc_bytes(s.drop_first()));
            assert(b =~= seq![s[0]] + tail);
            assert(b[0] == s[0]);
            assert(b[0] != 34 && b[0] != 92);
            assert(b.drop_first() =~= tail);
            assert(seq![b[0]] + s.drop_first() =~= s);
        }
    }
}

proof fn lemma_parse_priority(p: Priority, rest: Seq<u8>)
    ensures
        parse_priority(priority_bytes(p) + rest) == Some((p, rest)),
{
    let b = priority_bytes(p) + rest;
    match p {
        Priority::Low => {
            lemma_expect_prefix(priority_bytes(Priority::Low), rest);
            assert(priority_bytes(Priority::Low).is_prefix_of(b));
            assert(b.skip(3) =~= rest);
        },
        Priority::Medium => {
            assert(b[0] == 77);
            if priority_bytes(Priority::Low).is_prefix_of(b) {
                assert(b.subrange(0, 3)[0] == b[0]);
                assert(false);
            }
            assert(b.subrange(0, 6) =~= priority_bytes(Priority::Medium));
            assert(priority_bytes(Priority::Medium).is_prefix_of(b));
            assert(b.skip(6) =~= rest);
        },
        Priority::High => {
            assert(b[0] == 72);
            if priority_bytes(Priority::Low).is_prefix_of(b) {
                assert(b.subrange(0, 3)[0] == b[0]);
                assert(false);
            }
            if priority_bytes(Priority::Medium).is_prefix_of(b) {
                assert(b.subrange(0, 6)[0] == b[0]);
                assert(false);
            }
            assert(b.subrange(0, 4) =~= priority_bytes(Priority::High));
            assert(priority_bytes(Priority::High).is_prefix_of(b));
            assert(b.skip(4) =~= rest);
        },
    }
}

/// For `0 <= n <= 9999`: the four rendered digits recombine to `n`.
proof fn lemma_four_digits(n: int)
    requires
        0 <= n <= 9999,
    ensures
        0 <= n / 1000 <= 9,
        0 <= n % 1000 / 100 <= 9,
        0 <= n % 100 / 10 <= 9,
        0 <= n % 10 <= 9,
        1000 * (n / 1000) + 100 * (n % 1000 / 100) + 10 * (n % 100 / 10) + n % 10 == n,
{
    lemma_fundamental_div_mod(n, 1000);
    lemma_mod_bound(n, 1000);
    lemma_fundamental_div_mod(n % 1000, 100);
    lemma_mod_bound(n % 1000, 100);
    lemma_mod_mod(n, 10, 100);
    lemma_fundamental_div_mod(n % 100, 10);
    lemma_mod_bound(n % 100, 10);
    lemma_mod_mod(n, 10, 10);
}

/// For `0 <= n <= 99`: the two rendered digits recombine to `n`.
proof fn lemma_two_digits(n: int)
    requires
        0 <= n <= 99,
    ensures
        0 <= n / 10 <= 9,
        0 <= n % 10 <= 9,
        10 * (n / 10) + n % 10 == n,
{
    lemma_fundamental_div_mod(n, 10);
    lemma_mod_bound(n, 10);
}

proof fn lemma_parse_render_time(t: Timestamp, rest: Seq<u8>)
    requires
        t.wf(),
    ensures
        parse_time(render_time(t) + rest) == Some((t, rest)),
{
    reveal(render_time);
    reveal(parse_time);
    let b = render_time(t) + rest;
    let y = t.year as int;
    let a = if t.offset_minutes < 0 {
        -(t.offset_minutes as int)
    } else {
        t.offset_minutes as int
    };
    lemma_four_digits(y);
    lemma_two_digits(t.month as int);
    lemma_two_digits(t.day as int);
    lemma_two_digits(t.hour as int);
    lemma_two_digits(t.minute as int);
    lemma_two_digits(t.second as int);
    lemma_fundamental_div_mod(a, 60);
    lemma_mod_bound(a, 60);
    lemma_two_digits(a / 60);
    lemma_two_digits(a % 60);
    assert(b.len() >= 25);
    assert forall|i: int| 0 <= i < 25 implies b[i] == render_time(t)[i] by {}
    assert(b.skip(25) =~= rest);
    assert(dval(dig(y / 1000)) == y / 1000);
    assert(parse_time(b) == Some((t, rest)));
}

#[verifier::rlimit(100)]
proof fn lemma_parse_render_task(t: TaskView, rest: Seq<u8>)
    requires
        t.add_time.wf(),
    ensures
        parse_task(render_task(t) + rest) == Some((t, rest)),
{
    reveal(render_task);
    reveal(parse_task);
    let e_name = esc_bytes(encode_utf8(t.name));
    let e_desc = esc_bytes(encode_utf8(t.description));
    let x8 = key_end() + rest;
    let x7 = render_time(t.add_time) + x8;
    let x6 = key_add_time() + x7;
    let x5 = priority_bytes(t.priority) + x6;
    let x4 = key_priority() + x5;
    let x3 = e_desc + seq![34u8] + x4;
    let x2 = key_description() + x3;
    let x1 = e_name + seq![34u8] + x2;
    let b = render_task(t) + rest;
    assert(b =~= key_name() + x1);
    lemma_expect_prefix(key_name(), x1);
    assert(x1 =~= e_name + seq![34u8] + x2);
    lemma_parse_esc(encode_utf8(t.name), x2);
    encode_utf8_valid_utf8(t.name);
    encode_utf8_decode_utf8(t.name);
    lemma_expect_prefix(key_description(), x3);
    assert(x3 =~= e_desc + seq![34u8] + x4);
    lemma_parse_esc(encode_utf8(t.description), x4);
    encode_utf8_valid_utf8(t.description);
    encode_utf8_decode_utf8(t.description);
    lemma_expect_prefix(key_priority(), x5);
    lemma_parse_priority(t.priority, x6);
    lemma_expect_prefix(key_add_time(), x7);
    lemma_parse_render_time(t.add_time, x8);
    lemma_expect_prefix(key_end(), rest);
    assert(parse_task(b) == Some(
        (
            TaskView {
                name: decode_utf8(encode_utf8(t.name)),
                description: decode_utf8(encode_utf8(t.description)),
                priority: t.priority,
                add_time: t.add_time,
            },
            rest,
        ),
    ));
    assert(t == (TaskView {
        name: t.name,
        description: t.description,
        priority: t.priority,
        add_time: t.add_time,
    }));
}

/// Every rendered task object is at least as long as its opening key.
proof fn lemma_render_task_len(t: TaskView)
    ensures
        render_task(t).len() >= 9,
{
    reveal(render_task);
    assert(key_name().len() == 9);
}

proof fn lemma_parse_render_items(vs: Seq<TaskView>)
    requires
        vs.len() >= 1,
        forall|i: int| 0 <= i < vs.len() ==> (#[trigger] vs[i]).add_time.wf(),
    ensures
        parse_items(render_items(vs) + seq![93u8]) == Some(vs),
    decreases vs.len(),
{
    let b = render_items(vs) + seq![93u8];
    if vs.len() == 1 {
        assert(b =~= render_task(vs[0]) + seq![93u8]);
        lemma_parse_render_task(vs[0], seq![93u8]);
        assert(parse_items(b) == Some(seq![vs[0]]));
        assert(seq![vs[0]] =~= vs);
    } else {
        let tail = seq![44u8] + render_items(vs.drop_first()) + seq![93u8];
        assert(b =~= render_task(vs[0]) + tail);
        lemma_parse_render_task(vs[0], tail);
        assert(tail[0] == 44);
        assert(tail.len() >= 2);
        lemma_render_task_len(vs[0]);
        assert(tail.len() < b.len());
        assert(tail.drop_first() =~= render_items(vs.drop_first()) + seq![93u8]);
        lemma_parse_render_items(vs.drop_first());
        assert(parse_items(b) == Some(seq![vs[0]] + vs.drop_first()));
        assert(seq![vs[0]] + vs.drop_first() =~= vs);
    }
}

/// Round trip of persistence: the parse of the rendered byte form of any
/// task sequence whose timestamps are in range yields exactly that sequence,
/// fields and order alike.
pub proof fn lemma_save_load_round_trip(vs: Seq<TaskView>)
    requires
        forall|i: int| 0 <= i < vs.len() ==> (#[trigger] vs[i]).add_time.wf(),
    ensures
        parse_doc(render_doc(vs)) == Some(vs),
{
    let b = render_doc(vs);
    assert(b[0] == 91);
    let r = b.drop_first();
    assert(r =~= render_items(vs) + seq![93u8]);
    if vs.len() == 0 {
        assert(r =~= seq![93u8]);
        assert(parse_doc(b) == Some(Seq::<TaskView>::empty()));
        assert(vs =~= Seq::<TaskView>::empty());
    } else {
        lemma_render_task_len(vs[0]);
        assert(render_items(vs).len() >= 9);
        assert(!(r.len() == 1 && r[0] == 93));
        lemma_parse_render_items(vs);
    }
}

proof fn lemma_esc_snoc(s: Seq<u8>, c: u8)
    ensures
        esc_bytes(s.push(c)) == esc_bytes(s) + esc_one(c),
    decreases s.len(),
{
    if s.len() == 0 {
        assert(s.push(c)[0] == c);
        assert(s.push(c).drop_first() =~= Seq::<u8>::empty());
        assert(esc_bytes(Seq::<u8>::empty()) =~= Seq::<u8>::empty());
        assert(esc_bytes(s.push(c)) =~= esc_one(c) + esc_bytes(s.push(c).drop_first()));
        assert(esc_bytes(s.push(c)) =~= esc_one(c));
        assert(esc_bytes(s) + esc_one(c) =~= esc_one(c));
    } else {
        assert(s.push(c)[0] == s[0]);
        assert(s.push(c).drop_first() =~= s.drop_first().push(c));
        lemma_esc_snoc(s.drop_first(), c);
        assert(esc_one(s[0]) + (esc_bytes(s.drop_first()) + esc_one(c)) =~= (esc_one(s[0])
            + esc_bytes(s.drop_first())) + esc_one(c));
    }
}

fn key_name_vec() -> (v: Vec<u8>)
    ensures
        v@ == key_name(),
{
    let mut v: Vec<u8> = Vec::new();
    v.push(123);
    v.push(34);
    v.push(110);
    v.push(97);
    v.push(109);
    v.push(101);
    v.push(34);
    v.push(58);
    v.push(34);
    assert(v@ =~= key_name());
    v
}

fn key_description_vec() -> (v: Vec<u8>)
    ensures
        v@ == key_description(),
{
    let mut v: Vec<u8> = Vec::new();
    v.push(44);
    v.push(34);
    v.push(100);
    v.push(101);
    v.push(115);
    v.push(99);
    v.push(114);
    v.push(105);
    v.push(112);
    v.push(116);
    v.push(105);
    v.push(111);
    v.push(110);
    v.push(34);
    v.push(58);
    v.push(34);
    assert(v@ =~= key_description());
    v
}

fn key_priority_vec() -> (v: Vec<u8>)
    ensures
        v@ == key_priority(),
{
    let mut v: Vec<u8> = Vec::new();
    v.push(44);
    v.push(34);
    v.push(112);
    v.push(114);
    v.push(105);
    v.push(111);
    v.push(114);
    v.push(105);
    v.push(116);
    v.push(121);
    v.push(34);
    v.push(58);
    v.push(34);
    assert(v@ =~= key_priority());
    v
}

fn key_add_time_vec() -> (v: Vec<u8>)
    ensures
        v@ == key_add_time(),
{
    let mut v: Vec<u8> = Vec::new();
    v.push(34);
    v.push(44);
    v.push(34);
    v.push(97);
    v.push(100);
    v.push(100);
    v.push(95);
    v.push(116);
    v.push(105);
    v.push(109);
    v.push(101);
    v.push(34);
    v.push(58);
    v.push(34);
    assert(v@ =~= key_add_time());
    v
}

fn low_vec() -> (v: Vec<u8>)
    ensures
        v@ == priority_bytes(Priority::Low),
{
    let mut v: Vec<u8> = Vec::new();
    v.push(76);
    v.push(111);
    v.push(119);
    assert(v@ =~= priority_bytes(Priority::Low));
    v
}

fn medium_vec() -> (v: Vec<u8>)
    ensures
        v@ == priority_bytes(Priority::Medium),
{
    let mut v: Vec<u8> = Vec::new();
    v.push(77);
    v.push(101);
    v.push(100);
    v.push(105);
    v.push(117);
    v.push(109);
    assert(v@ =~= priority_bytes(Priority::Medium));
    v
}

fn high_vec() -> (v: Vec<u8>)
    ensures
        v@ == priority_bytes(Priority::High),
{
    let mut v: Vec<u8> = Vec::new();
    v.push(72);
    v.push(105);
    v.push(103);
    v.push(104);
    assert(v@ =~= priority_bytes(Priority::High));
    v
}

/// The lowercase hexadecimal digit byte of `n`.
fn hex_digit(n: u8) -> (r: u8)
    requires
        n <= 15,
    ensures
        r == hex_dig(n as int),
{
    if n < 10 {
        48 + n
    } else {
        87 + n
    }
}

/// Appends the escaped bytes of `s` to `out`.
fn esc_append(out: &mut Vec<u8>, s: &String)
    ensures
        final(out)@ == old(out)@ + esc_bytes(encode_utf8(s@)),
{
    let bytes = s.as_str().as_bytes_vec();
    assert(bytes@ == encode_utf8(s@));
    let n = bytes.len();
    let mut i: usize = 0;
    while i < n
        invariant
            n == bytes@.len(),
            i <= n,
            bytes@ == encode_utf8(s@),
            out@ == old(out)@ + esc_bytes(bytes@.take(i as int)),
        decreases n - i,
    {
        let b = bytes[i];
        if b == 34 || b == 92 {
            out.push(92);
            out.push(b);
        } else if b < 32 {
            out.push(92);
            out.push(117);
            out.push(48);
            out.push(48);
            out.push(hex_digit(b / 16));
            out.push(hex_digit(b % 16));
        } else {
            out.push(b);
        }
        assert(out@ =~= (old(out)@ + esc_bytes(bytes@.take(i as int))) + esc_one(b));
        proof {
            lemma_esc_snoc(bytes@.take(i as int), b);
            assert(bytes@.take(i as int + 1) =~= bytes@.take(i as int).push(b));
            assert(old(out)@ + (esc_bytes(bytes@.take(i as int)) + esc_one(b)) =~= (old(out)@
                + esc_bytes(bytes@.take(i as int))) + esc_one(b));
            assert(out@ =~= old(out)@ + esc_bytes(bytes@.take(i as int + 1)));
        }
        i = i + 1;
    }
    assert(bytes@.take(n as int) =~= bytes@);
}

/// Appends the two digit bytes of `n` to `out`.
fn push_two(out: &mut Vec<u8>, n: u8)
    requires
        n <= 99,
    ensures
        final(out)@ == old(out)@ + seq![dig(n as int / 10), dig(n as int % 10)],
{
    out.push(48 + n / 10);
    out.push(48 + n % 10);
    assert(out@ =~= old(out)@ + seq![dig(n as int / 10), dig(n as int % 10)]);
}

/// Appends the four digit bytes of `n` to `out`.
fn push_four(out: &mut Vec<u8>, n: u16)
    requires
        n <= 9999,
    ensures
        final(out)@ == old(out)@ + seq![dig(n as int / 1000), dig(n as int % 1000 / 100), dig(
            n as int % 100 / 10,
        ), dig(n as int % 10)],
{
    out.push(48 + (n / 1000) as u8);
    out.push(48 + (n % 1000 / 100) as u8);
    out.push(48 + (n % 100 / 10) as u8);
    out.push(48 + (n % 10) as u8);
    assert(out@ =~= old(out)@ + seq![dig(n as int / 1000), dig(n as int % 1000 / 100), dig(
        n as int % 100 / 10,
    ), dig(n as int % 10)]);
}

/// Appends the 25-byte timestamp rendering to `out`.
#[verifier::rlimit(100)]
fn render_time_into(out: &mut Vec<u8>, t: Timestamp)
    requires
        t.wf(),
    ensures
        final(out)@ == old(out)@ + render_time(t),
{
    push_four(out, t.year);
    out.push(45);
    push_two(out, t.month);
    out.push(45);
    push_two(out, t.day);
    out.push(84);
    push_two(out, t.hour);
    out.push(58);
    push_two(out, t.minute);
    out.push(58);
    push_two(out, t.second);
    if t.offset_minutes < 0 {
        out.push(45);
    } else {
        out.push(43);
    }
    let mag: u16 = if t.offset_minutes < 0 {
        (-t.offset_minutes) as u16
    } else {
        t.offset_minutes as u16
    };
    let oh: u8 = (mag / 60) as u8;
    let om: u8 = (mag % 60) as u8;
    push_two(out, oh);
    out.push(58);
    push_two(out, om);
    proof {
        reveal(render_time);
        assert(out@ =~= old(out)@ + render_time(t));
    }
}

/// Appends the byte form of one task object to `out`.
#[verifier::rlimit(100)]
fn render_task_into(out: &mut Vec<u8>, t: &Task)
    requires
        t.add_time.wf(),
    ensures
        final(out)@ == old(out)@ + render_task(t.deep_view()),
{
    let mut k1 = key_name_vec();
    out.append(&mut k1);
    esc_append(out, &t.name);
    out.push(34);
    let mut k2 = key_description_vec();
    out.append(&mut k2);
    esc_append(out, &t.description);
    out.push(34);
    let mut k3 = key_priority_vec();
    out.append(&mut k3);
    match t.priority {
        Priority::Low => {
            let mut p = low_vec();
            out.append(&mut p);
        },
        Priority::Medium => {
            let mut p = medium_vec();
            out.append(&mut p);
        },
        Priority::High => {
            let mut p = high_vec();
            out.append(&mut p);
        },
    }
    let mut k4 = key_add_time_vec();
    out.append(&mut k4);
    render_time_into(out, t.add_time);
    out.push(34);
    out.push(125);
    proof {
        reveal(render_task);
        assert(out@ =~= old(out)@ + render_task(t.deep_view()));
    }
}

proof fn lemma_render_items_snoc(vs: Seq<TaskView>, t: TaskView)
    ensures
        render_items(vs.push(t)) == if vs.len() == 0 {
            render_task(t)
        } else {
            render_items(vs) + seq![44u8] + render_task(t)
        },
    decreases vs.len(),
{
    let w = vs.push(t);
    if vs.len() == 0 {
        assert(w.len() == 1);
        assert(w[0] == t);
    } else if vs.len() == 1 {
        assert(w.len() == 2);
        assert(w[0] == vs[0]);
        assert(w.drop_first() =~= seq![t]);
        assert(render_items(seq![t]) == render_task(t));
        assert(render_items(vs) == render_task(vs[0]));
    } else {
        assert(w[0] == vs[0]);
        assert(w.drop_first() =~= vs.drop_first().push(t));
        lemma_render_items_snoc(vs.drop_first(), t);
        assert(render_task(vs[0]) + seq![44u8] + ((render_items(vs.drop_first()) + seq![44u8])
            + render_task(t)) =~= ((render_task(vs[0]) + seq![44u8] + render_items(
            vs.drop_first(),
        )) + seq![44u8]) + render_task(t));
    }
}

/// Renders the whole task sequence as the persisted document's bytes.
pub fn render_tasks(tasks: &Vec<Task>) -> (out: Vec<u8>)
    requires
        forall|i: int| 0 <= i < tasks.deep_view().len() ==> (#[trigger] tasks.deep_view()[i]).add_time.wf(),
    ensures
        out@ == render_doc(tasks.deep_view()),
{
    let ghost dv = tasks.deep_view();
    let mut out: Vec<u8> = Vec::new();
    out.push(91);
    let n = tasks.len();
    let mut i: usize = 0;
    while i < n
        invariant
            n == tasks.len(),
            i <= n,
            dv == tasks.deep_view(),
            forall|j: int| 0 <= j < dv.len() ==> (#[trigger] dv[j]).add_time.wf(),
            out@ == seq![91u8] + render_items(dv.take(i as int)),
        decreases n - i,
    {
        assert(dv[i as int] == tasks[i as int].deep_view());
        if i > 0 {
            out.push(44);
        }
        render_task_into(&mut out, &tasks[i]);
        proof {
            lemma_render_items_snoc(dv.take(i as int), dv[i as int]);
            assert(dv.take(i as int + 1) =~= dv.take(i as int).push(dv[i as int]));
            assert(out@ =~= seq![91u8] + render_items(dv.take(i as int + 1)));
        }
        i = i + 1;
    }
    out.push(93);
    proof {
        assert(dv.take(n as int) =~= dv);
        assert(out@ =~= seq![91u8] + render_items(dv) + seq![93u8]);
    }
    out
}

/// Relies on std's `String::from_utf8`: it returns `Ok` exactly when the
/// bytes are valid UTF-8, and the returned string holds those very bytes.
#[verifier::external_body]
fn string_from_utf8(v: Vec<u8>) -> (r: Option<String>)
    ensures
        r is Some <==> valid_utf8(v@),
        r matches Some(s) ==> encode_utf8(s@) == v@,
{
    match String::from_utf8(v) {
        Ok(s) => Some(s),
        Err(_) => None,
    }
}

/// Strips the literal `k` off the document at `pos`.
fn expect_at(data: &Vec<u8>, pos: usize, k: &Vec<u8>) -> (r: Option<usize>)
    requires
        pos <= data@.len(),
    ensures
        match r {
            Some(p) => {
                &&& pos <= p <= data@.len()
                &&& p == pos + k@.len()
                &&& parse_expect(data@.skip(pos as int), k@) == Some(data@.skip(p as int))
            },
            None => parse_expect(data@.skip(pos as int), k@) is None,
        },
{
    let ghost s = data@.skip(pos as int);
    if data.len() - pos < k.len() {
        proof {
            assert(!k@.is_prefix_of(s));
        }
        return None;
    }
    let n = k.len();
    let mut i: usize = 0;
    while i < n
        invariant
            n == k@.len(),
            i <= n,
            pos + n <= data@.len(),
            data@.len() <= usize::MAX,
            s == data@.skip(pos as int),
            forall|j: int| 0 <= j < i ==> data@[pos + j] == k@[j],
        decreases n - i,
    {
        if data[pos + i] != k[i] {
            proof {
                if k@.is_prefix_of(s) {
                    assert(s.subrange(0, k@.len() as int)[i as int] == s[i as int]);
                    assert(s[i as int] == data@[pos + i]);
                    assert(false);
                }
            }
            return None;
        }
        i = i + 1;
    }
    proof {
        assert(s.subrange(0, k@.len() as int) =~= k@);
        assert(k@.is_prefix_of(s));
        assert(s.skip(k@.len() as int) =~= data@.skip(pos + k@.len()));
    }
    Some(pos + n)
}

/// Reads a string body at `pos` up to and including its closing quote.
fn parse_str_at(data: &Vec<u8>, pos: usize) -> (r: Option<(Vec<u8>, usize)>)
    requires
        pos <= data@.len(),
    ensures
        match r {
            Some((c, p)) => {
                &&& pos < p <= data@.len()
                &&& parse_str_body(data@.skip(pos as int)) == Some((c@, data@.skip(p as int)))
            },
            None => parse_str_body(data@.skip(pos as int)) is None,
        },
    decreases data@.len() - pos,
{
    let ghost s = data@.skip(pos as int);
    if pos >= data.len() {
        return None;
    }
    let b0 = data[pos];
    assert(s[0] == b0);
    if b0 == 34 {
        proof {
            assert(s.drop_first() =~= data@.skip(pos + 1));
        }
        let c: Vec<u8> = Vec::new();
        assert(c@ =~= Seq::<u8>::empty());
        return Some((c, pos + 1));
    }
    if b0 == 92 {
        if data.len() - pos < 2 {
            assert(s.len() < 2);
            return None;
        }
        let c1 = data[pos + 1];
        assert(s[1] == c1);
        if c1 == 117 {
            if data.len() - pos < 6 {
                assert(s.len() < 6);
                return None;
            }
            let h2 = data[pos + 2];
            let h3 = data[pos + 3];
            let h4 = data[pos + 4];
            let h5 = data[pos + 5];
            assert(s[2] == h2 && s[3] == h3 && s[4] == h4 && s[5] == h5);
            if !(is_hex_exec(h2) && is_hex_exec(h3) && is_hex_exec(h4) && is_hex_exec(h5)) {
                return None;
            }
            let value: u32 = 4096 * (hex_value(h2) as u32) + 256 * (hex_value(h3) as u32) + 16 * (
            hex_value(h4) as u32) + (hex_value(h5) as u32);
            if value >= 128 {
                return None;
            }
            return match parse_str_at(data, pos + 6) {
                Some((tail, p)) => {
                    proof {
                        assert(s.skip(6) =~= data@.skip(pos + 6));
                    }
                    let ghost tail_view = tail@;
                    let mut v: Vec<u8> = Vec::new();
                    v.push(value as u8);
                    let mut tail2 = tail;
                    v.append(&mut tail2);
                    assert(v@ =~= seq![(4096 * hex_val(s[2]) + 256 * hex_val(s[3]) + 16 * hex_val(
                        s[4],
                    ) + hex_val(s[5])) as u8] + tail_view);
                    Some((v, p))
                },
                None => {
                    proof {
                        assert(s.skip(6) =~= data@.skip(pos + 6));
                    }
                    None
                },
            };
        }
        match parse_str_at(data, pos + 2) {
            Some((tail, p)) => {
                proof {
                    assert(s.skip(2) =~= data@.skip(pos + 2));
                }
                let ghost tail_view = tail@;
                let mut v: Vec<u8> = Vec::new();
                v.push(c1);
                let mut tail2 = tail;
                v.append(&mut tail2);
                assert(v@ =~= seq![s[1]] + tail_view);
                Some((v, p))
            },
            None => {
                proof {
                    assert(s.skip(2) =~= data@.skip(pos + 2));
                }
                None
            },
        }
    } else {
        match parse_str_at(data, pos + 1) {
            Some((tail, p)) => {
                proof {
                    assert(s.drop_first() =~= data@.skip(pos + 1));
                }
                let ghost tail_view = tail@;
                let mut v: Vec<u8> = Vec::new();
                v.push(b0);
                let mut tail2 = tail;
                v.append(&mut tail2);
                assert(v@ =~= seq![s[0]] + tail_view);
                Some((v, p))
            },
            None => {
                proof {
                    assert(s.drop_first() =~= data@.skip(pos + 1));
                }
                None
            },
        }
    }
}

/// Reads a priority label at `pos`.
fn parse_priority_at(data: &Vec<u8>, pos: usize) -> (r: Option<(Priority, usize)>)
    requires
        pos <= data@.len(),
    ensures
        match r {
            Some((pri, p)) => {
                &&& pos < p <= data@.len()
                &&& parse_priority(data@.skip(pos as int)) == Some((pri, data@.skip(p as int)))
            },
            None => parse_priority(data@.skip(pos as int)) is None,
        },
{
    let low = low_vec();
    match expect_at(data, pos, &low) {
        Some(p) => {
            return Some((Priority::Low, p));
        },
        None => {
        },
    }
    let medium = medium_vec();
    match expect_at(data, pos, &medium) {
        Some(p) => {
            return Some((Priority::Medium, p));
        },
        None => {
        },
    }
    let high = high_vec();
    match expect_at(data, pos, &high) {
        Some(p) => {
            return Some((Priority::High, p));
        },
        None => {
        },
    }
    None
}

/// Whether `c` is a lowercase hexadecimal digit byte.
fn is_hex_exec(c: u8) -> (r: bool)
    ensures
        r == is_hex(c),
{
    (48 <= c && c <= 57) || (97 <= c && c <= 102)
}

/// The numeric value of a lowercase hexadecimal digit byte.
fn hex_value(c: u8) -> (v: u8)
    requires
        is_hex(c),
    ensures
        v == hex_val(c),
{
    if c <= 57 {
        c - 48
    } else {
        c - 87
    }
}

/// The numeric value of a digit byte, widened.
fn dv16(c: u8) -> (v: u16)
    requires
        is_dig(c),
    ensures
        v == dval(c),
{
    (c - 48) as u16
}

/// Reads the fixed-width timestamp at `pos`.
#[verifier::rlimit(100)]
fn parse_time_at(data: &Vec<u8>, pos: usize) -> (r: Option<(Timestamp, usize)>)
    requires
        pos <= data@.len(),
    ensures
        match r {
            Some((t, p)) => {
                &&& pos < p <= data@.len()
                &&& t.wf()
                &&& parse_time(data@.skip(pos as int)) == Some((t, data@.skip(p as int)))
            },
            None => parse_time(data@.skip(pos as int)) is None,
        },
{
    proof {
        reveal(parse_time);
    }
    let ghost s = data@.skip(pos as int);
    if data.len() - pos < 25 {
        assert(s.len() < 25);
        return None;
    }
    assert(forall|k: int| 0 <= k < 25 ==> s[k] == data@[pos + k]);
    let b0 = data[pos];
    let b1 = data[pos + 1];
    let b2 = data[pos + 2];
    let b3 = data[pos + 3];
    let b4 = data[pos + 4];
    let b5 = data[pos + 5];
    let b6 = data[pos + 6];
    let b7 = data[pos + 7];
    let b8 = data[pos + 8];
    let b9 = data[pos + 9];
    let b10 = data[pos + 10];
    let b11 = data[pos + 11];
    let b12 = data[pos + 12];
    let b13 = data[pos + 13];
    let b14 = data[pos + 14];
    let b15 = data[pos + 15];
    let b16 = data[pos + 16];
    let b17 = data[pos + 17];
    let b18 = data[pos + 18];
    let b19 = data[pos + 19];
    let b20 = data[pos + 20];
    let b21 = data[pos + 21];
    let b22 = data[pos + 22];
    let b23 = data[pos + 23];
    let b24 = data[pos + 24];
    let digits_ok = 48 <= b0 && b0 <= 57 && 48 <= b1 && b1 <= 57 && 48 <= b2 && b2 <= 57 && 48
        <= b3 && b3 <= 57 && b4 == 45 && 48 <= b5 && b5 <= 57 && 48 <= b6 && b6 <= 57 && b7 == 45
        && 48 <= b8 && b8 <= 57 && 48 <= b9 && b9 <= 57 && b10 == 84 && 48 <= b11 && b11 <= 57
        && 48 <= b12 && b12 <= 57 && b13 == 58 && 48 <= b14 && b14 <= 57 && 48 <= b15 && b15 <= 57
        && b16 == 58 && 48 <= b17 && b17 <= 57 && 48 <= b18 && b18 <= 57 && (b19 == 43 || b19
        == 45) && 48 <= b20 && b20 <= 57 && 48 <= b21 && b21 <= 57 && b22 == 58 && 48 <= b23 && b23
        <= 57 && 48 <= b24 && b24 <= 57;
    if !digits_ok {
        return None;
    }
    let year: u16 = 1000 * dv16(b0) + 100 * dv16(b1) + 10 * dv16(b2) + dv16(b3);
    let month: u8 = 10 * (b5 - 48) + (b6 - 48);
    let day: u8 = 10 * (b8 - 48) + (b9 - 48);
    let hour: u8 = 10 * (b11 - 48) + (b12 - 48);
    let minute: u8 = 10 * (b14 - 48) + (b15 - 48);
    let second: u8 = 10 * (b17 - 48) + (b18 - 48);
    let mag: u16 = 60 * (10 * dv16(b20) + dv16(b21)) + 10 * dv16(b23) + dv16(b24);
    let offset_minutes: i16 = if b19 == 45 {
        -(mag as i16)
    } else {
        mag as i16
    };
    let t = Timestamp { year, month, day, hour, minute, second, offset_minutes };
    if 1 <= month && month <= 12 && 1 <= day && day <= 31 && hour <= 23 && minute <= 59 && second
        <= 59 && -1439 <= offset_minutes && offset_minutes <= 1439 {
        proof {
            assert(s.skip(25) =~= data@.skip(pos + 25));
        }
        Some((t, pos + 25))
    } else {
        None
    }
}

/// Reads one task object at `pos`.
#[verifier::rlimit(100)]
fn parse_task_at(data: &Vec<u8>, pos: usize) -> (r: Option<(Task, usize)>)
    requires
        pos <= data@.len(),
    ensures
        match r {
            Some((t, p)) => {
                &&& pos < p <= data@.len()
                &&& t.add_time.wf()
                &&& parse_task(data@.skip(pos as int)) == Some((t.deep_view(), data@.skip(p as int)))
            },
            None => parse_task(data@.skip(pos as int)) is None,
        },
{
    proof {
        reveal(parse_task);
    }
    let k1 = key_name_vec();
    let p1 = match expect_at(data, pos, &k1) {
        Some(p) => p,
        None => {
            return None;
        },
    };
    let (name_bytes, p2) = match parse_str_at(data, p1) {
        Some(x) => x,
        None => {
            return None;
        },
    };
    let ghost name_bytes_view = name_bytes@;
    let name = match string_from_utf8(name_bytes) {
        Some(n) => n,
        None => {
            return None;
        },
    };
    proof {
        encode_utf8_decode_utf8(name@);
    }
    let k2 = key_description_vec();
    let p3 = match expect_at(data, p2, &k2) {
        Some(p) => p,
        None => {
            return None;
        },
    };
    let (desc_bytes, p4) = match parse_str_at(data, p3) {
        Some(x) => x,
        None => {
            return None;
        },
    };
    let ghost desc_bytes_view = desc_bytes@;
    let description = match string_from_utf8(desc_bytes) {
        Some(d) => d,
        None => {
            return None;
        },
    };
    proof {
        encode_utf8_decode_utf8(description@);
    }
    let k3 = key_priority_vec();
    let p5 = match expect_at(data, p4, &k3) {
        Some(p) => p,
        None => {
            return None;
        },
    };
    let (priority, p6) = match parse_priority_at(data, p5) {
        Some(x) => x,
        None => {
            return None;
        },
    };
    let k4 = key_add_time_vec();
    let p7 = match expect_at(data, p6, &k4) {
        Some(p) => p,
        None => {
            return None;
        },
    };
    let (add_time, p8) = match parse_time_at(data, p7) {
        Some(x) => x,
        None => {
            return None;
        },
    };
    let k5: Vec<u8> = {
        let mut v: Vec<u8> = Vec::new();
        v.push(34);
        v.push(125);
        assert(v@ =~= key_end());
        v
    };
    let p9 = match expect_at(data, p8, &k5) {
        Some(p) => p,
        None => {
            return None;
        },
    };
    let t = Task { name, description, priority, add_time };
    assert(t.deep_view() == (TaskView {
        name: decode_utf8(name_bytes_view),
        description: decode_utf8(desc_bytes_view),
        priority,
        add_time,
    }));
    Some((t, p9))
}

/// Reads the task objects at `pos`, demanding the closing bracket as the
/// document's last byte.
fn parse_items_at(data: &Vec<u8>, pos: usize) -> (r: Option<Vec<Task>>)
    requires
        pos <= data@.len(),
    ensures
        match r {
            Some(ts) => {
                &&& parse_items(data@.skip(pos as int)) == Some(ts.deep_view())
                &&& forall|i: int| 0 <= i < ts@.len() ==> (#[trigger] ts@[i]).add_time.wf()
            },
            None => parse_items(data@.skip(pos as int)) is None,
        },
    decreases data@.len() - pos,
{
    let ghost s = data@.skip(pos as int);
    let (t, p) = match parse_task_at(data, pos) {
        Some(x) => x,
        None => {
            return None;
        },
    };
    let ghost rest = data@.skip(p as int);
    if p < data.len() && data[p] == 93 {
        assert(rest[0] == 93);
        if p + 1 == data.len() {
            assert(rest.len() == 1);
            let mut v: Vec<Task> = Vec::new();
            v.push(t);
            assert(v.deep_view() =~= seq![t.deep_view()]);
            Some(v)
        } else {
            assert(rest.len() >= 2);
            None
        }
    } else if p < data.len() && data[p] == 44 {
        assert(rest[0] == 44);
        assert(rest.len() < s.len());
        proof {
            assert(rest.drop_first() =~= data@.skip(p + 1));
        }
        match parse_items_at(data, p + 1) {
            Some(more) => {
                let ghost more_view = more.deep_view();
                let mut v: Vec<Task> = Vec::new();
                v.push(t);
                let mut more2 = more;
                v.append(&mut more2);
                assert(v.deep_view() =~= seq![t.deep_view()] + more_view);
                Some(v)
            },
            None => None,
        }
    } else {
        proof {
            if rest.len() >= 1 {
                assert(rest[0] == data@[p as int]);
            }
        }
        None
    }
}

/// Parses a whole persisted document: `Some` exactly when the bytes have the
/// written form of a task sequence, in which case the tasks carry its fields
/// in its order.
pub fn parse_tasks(data: &Vec<u8>) -> (r: Option<Vec<Task>>)
    ensures
        match r {
            Some(ts) => {
                &&& parse_doc(data@) == Some(ts.deep_view())
                &&& forall|i: int| 0 <= i < ts@.len() ==> (#[trigger] ts@[i]).add_time.wf()
            },
            None => parse_doc(data@) is None,
        },
{
    if data.len() == 0 {
        return None;
    }
    if data[0] != 91 {
        return None;
    }
    proof {
        assert(data@.drop_first() =~= data@.skip(1));
    }
    if data.len() == 2 && data[1] == 93 {
        let v: Vec<Task> = Vec::new();
        assert(v.deep_view() =~= Seq::<TaskView>::empty());
        return Some(v);
    }
    proof {
        if data@.drop_first().len() == 1 && data@.drop_first()[0] == 93 {
            assert(data@.len() == 2 && data@[1] == 93);
            assert(false);
        }
    }
    parse_items_at(data, 1)
}

} // verus!
