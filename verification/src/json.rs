//! The persisted text form of a task list: a pretty-printed JSON array of
//! objects with the fields id, description, done, creation_date, removed,
//! in that order. The encoder emits one canonical form; the decoder accepts
//! that form and rejects everything else, which the loader treats as an
//! empty list. Decoding what the encoder produced gives the list back
//! exactly, and that is proved here.

use vstd::prelude::*;
use vstd::string::StrSliceExecFns;
use vstd::string::StringExecFns;

use crate::ext::push_char;
use crate::task::{views, Task, TaskView};

verus! {

// ---------------------------------------------------------------------
// The fixed pieces of the text form.
// ---------------------------------------------------------------------
pub open spec fn lit_empty() -> Seq<char> {
    seq!['[', ']']
}

pub open spec fn lit_arr_open() -> Seq<char> {
    seq!['[', '\n']
}

pub open spec fn lit_arr_close() -> Seq<char> {
    seq!['\n', ']']
}

pub open spec fn lit_sep() -> Seq<char> {
    seq![',', '\n']
}

pub open spec fn lit_obj_open() -> Seq<char> {
    seq![' ', ' ', '{', '\n', ' ', ' ', ' ', ' ', '"', 'i', 'd', '"', ':', ' ']
}

pub open spec fn lit_desc() -> Seq<char> {
    seq![
        ',',
        '\n',
        ' ',
        ' ',
        ' ',
        ' ',
        '"',
        'd',
        'e',
        's',
        'c',
        'r',
        'i',
        'p',
        't',
        'i',
        'o',
        'n',
        '"',
        ':',
        ' ',
    ]
}

pub open spec fn lit_done() -> Seq<char> {
    seq![',', '\n', ' ', ' ', ' ', ' ', '"', 'd', 'o', 'n', 'e', '"', ':', ' ']
}

pub open spec fn lit_date() -> Seq<char> {
    seq![
        ',',
        '\n',
        ' ',
        ' ',
        ' ',
        ' ',
        '"',
        'c',
        'r',
        'e',
        'a',
        't',
        'i',
        'o',
        'n',
        '_',
        'd',
        'a',
        't',
        'e',
        '"',
        ':',
        ' ',
    ]
}

pub open spec fn lit_removed() -> Seq<char> {
    seq![',', '\n', ' ', ' ', ' ', ' ', '"', 'r', 'e', 'm', 'o', 'v', 'e', 'd', '"', ':', ' ']
}

pub open spec fn lit_obj_close() -> Seq<char> {
    seq!['\n', ' ', ' ', '}']
}

pub open spec fn lit_true() -> Seq<char> {
    seq!['t', 'r', 'u', 'e']
}

pub open spec fn lit_false() -> Seq<char> {
    seq!['f', 'a', 'l', 's', 'e']
}

// ---------------------------------------------------------------------
// Hexadecimal digits, for the \u00XX escapes of control characters.
// ---------------------------------------------------------------------
pub open spec fn hex_digit(d: int) -> char {
    if d == 0 {
        '0'
    } else if d == 1 {
        '1'
    } else if d == 2 {
        '2'
    } else if d == 3 {
        '3'
    } else if d == 4 {
        '4'
    } else if d == 5 {
        '5'
    } else if d == 6 {
        '6'
    } else if d == 7 {
        '7'
    } else if d == 8 {
        '8'
    } else if d == 9 {
        '9'
    } else if d == 10 {
        'a'
    } else if d == 11 {
        'b'
    } else if d == 12 {
        'c'
    } else if d == 13 {
        'd'
    } else if d == 14 {
        'e'
    } else {
        'f'
    }
}

pub open spec fn hex_val(c: char) -> int {
    if c == '0' {
        0
    } else if c == '1' {
        1
    } else if c == '2' {
        2
    } else if c == '3' {
        3
    } else if c == '4' {
        4
    } else if c == '5' {
        5
    } else if c == '6' {
        6
    } else if c == '7' {
        7
    } else if c == '8' {
        8
    } else if c == '9' {
        9
    } else if c == 'a' {
        10
    } else if c == 'b' {
        11
    } else if c == 'c' {
        12
    } else if c == 'd' {
        13
    } else if c == 'e' {
        14
    } else if c == 'f' {
        15
    } else {
        -1
    }
}

pub open spec fn is_hex(c: char) -> bool {
    hex_val(c) >= 0
}

proof fn lemma_hex_round_trip(d: int)
    requires
        0 <= d < 16,
    ensures
        hex_val(hex_digit(d)) == d,
{
}

// ---------------------------------------------------------------------
// Escaping characters inside a JSON string.
// ---------------------------------------------------------------------
/// The text standing for one character of a field value. Quote and
/// backslash take a backslash; the common control characters take their
/// short escapes; the remaining control characters take \u00XX; everything
/// else stands for itself.
pub open spec fn escape_char(c: char) -> Seq<char> {
    if c == '"' {
        seq!['\\', '"']
    } else if c == '\\' {
        seq!['\\', '\\']
    } else if c == '\n' {
        seq!['\\', 'n']
    } else if c == '\r' {
        seq!['\\', 'r']
    } else if c == '\t' {
        seq!['\\', 't']
    } else if c == '\u{8}' {
        seq!['\\', 'b']
    } else if c == '\u{c}' {
        seq!['\\', 'f']
    } else if (c as u32) < 0x20 {
        seq!['\\', 'u', '0', '0', hex_digit(c as u32 as int / 16), hex_digit(c as u32 as int % 16)]
    } else {
        seq![c]
    }
}

pub open spec fn escape_all(s: Seq<char>) -> Seq<char>
    decreases s.len(),
{
    if s.len() == 0 {
        Seq::empty()
    } else {
        escape_char(s[0]) + escape_all(s.skip(1))
    }
}

pub open spec fn encode_string(s: Seq<char>) -> Seq<char> {
    seq!['"'] + escape_all(s) + seq!['"']
}

pub open spec fn encode_bool(b: bool) -> Seq<char> {
    if b {
        lit_true()
    } else {
        lit_false()
    }
}

/// The canonical text of one task: an indented object with the five
/// fields in a fixed order.
pub open spec fn encode_task(t: crate::task::TaskView) -> Seq<char> {
    lit_obj_open() + encode_string(t.id) + lit_desc() + encode_string(t.description) + lit_done()
        + encode_bool(t.done) + lit_date() + encode_string(t.creation_date) + lit_removed()
        + encode_bool(t.removed) + lit_obj_close()
}

/// The tasks after the first, each preceded by the separator.
pub open spec fn encode_rest(ts: Seq<crate::task::TaskView>) -> Seq<char>
    decreases ts.len(),
{
    if ts.len() == 0 {
        Seq::empty()
    } else {
        lit_sep() + encode_task(ts[0]) + encode_rest(ts.skip(1))
    }
}

/// The canonical text of a whole list.
pub open spec fn encode_list(ts: Seq<crate::task::TaskView>) -> Seq<char> {
    if ts.len() == 0 {
        lit_empty()
    } else {
        lit_arr_open() + encode_task(ts[0]) + encode_rest(ts.skip(1)) + lit_arr_close()
    }
}

// ---------------------------------------------------------------------
// Decoding.
// ---------------------------------------------------------------------
/// The control character with code `v`.
pub open spec fn char_code(v: int) -> char {
    if v == 0 {
        '\u{0}'
    } else if v == 1 {
        '\u{1}'
    } else if v == 2 {
        '\u{2}'
    } else if v == 3 {
        '\u{3}'
    } else if v == 4 {
        '\u{4}'
    } else if v == 5 {
        '\u{5}'
    } else if v == 6 {
        '\u{6}'
    } else if v == 7 {
        '\u{7}'
    } else if v == 8 {
        '\u{8}'
    } else if v == 9 {
        '\u{9}'
    } else if v == 10 {
        '\u{a}'
    } else if v == 11 {
        '\u{b}'
    } else if v == 12 {
        '\u{c}'
    } else if v == 13 {
        '\u{d}'
    } else if v == 14 {
        '\u{e}'
    } else if v == 15 {
        '\u{f}'
    } else if v == 16 {
        '\u{10}'
    } else if v == 17 {
        '\u{11}'
    } else if v == 18 {
        '\u{12}'
    } else if v == 19 {
        '\u{13}'
    } else if v == 20 {
        '\u{14}'
    } else if v == 21 {
        '\u{15}'
    } else if v == 22 {
        '\u{16}'
    } else if v == 23 {
        '\u{17}'
    } else if v == 24 {
        '\u{18}'
    } else if v == 25 {
        '\u{19}'
    } else if v == 26 {
        '\u{1a}'
    } else if v == 27 {
        '\u{1b}'
    } else if v == 28 {
        '\u{1c}'
    } else if v == 29 {
        '\u{1d}'
    } else if v == 30 {
        '\u{1e}'
    } else {
        '\u{1f}'
    }
}

proof fn lemma_char_code_round_trip(c: char)
    requires
        (c as u32) < 0x20,
    ensures
        char_code(c as u32 as int) == c,
{
    assert(char_code(c as u32 as int) as u32 == c as u32);
}

/// The rest of `s` after an expected fixed piece, or nothing if `s` does
/// not start with that piece.
pub open spec fn expect(s: Seq<char>, lit: Seq<char>) -> Option<Seq<char>> {
    if lit.len() <= s.len() && s.take(lit.len() as int) == lit {
        Some(s.skip(lit.len() as int))
    } else {
        None
    }
}

/// Decodes one escape; `s` starts right after the backslash.
pub open spec fn decode_escape(s: Seq<char>) -> Option<(char, Seq<char>)> {
    if s.len() == 0 {
        None
    } else if s[0] == '"' {
        Some(('"', s.skip(1)))
    } else if s[0] == '\\' {
        Some(('\\', s.skip(1)))
    } else if s[0] == 'n' {
        Some(('\n', s.skip(1)))
    } else if s[0] == 'r' {
        Some(('\r', s.skip(1)))
    } else if s[0] == 't' {
        Some(('\t', s.skip(1)))
    } else if s[0] == 'b' {
        Some(('\u{8}', s.skip(1)))
    } else if s[0] == 'f' {
        Some(('\u{c}', s.skip(1)))
    } else if s[0] == 'u' {
        if s.len() < 5 {
            None
        } else if s[1] == '0' && s[2] == '0' && is_hex(s[3]) && is_hex(s[4]) && 16 * hex_val(s[3])
            + hex_val(s[4]) < 0x20 {
            Some((char_code(16 * hex_val(s[3]) + hex_val(s[4])), s.skip(5)))
        } else {
            None
        }
    } else {
        None
    }
}

/// Decodes the inside of a JSON string up to and over its closing quote;
/// returns the value and what follows the quote.
pub open spec fn decode_string_body(s: Seq<char>) -> Option<(Seq<char>, Seq<char>)>
    decreases s.len(),
{
    if s.len() == 0 {
        None
    } else if s[0] == '"' {
        Some((Seq::empty(), s.skip(1)))
    } else if s[0] == '\\' {
        match decode_escape(s.skip(1)) {
            None => None,
            Some((c, rest)) => if rest.len() < s.len() {
                match decode_string_body(rest) {
                    None => None,
                    Some((t, r2)) => Some((seq![c] + t, r2)),
                }
            } else {
                None
            },
        }
    } else {
        match decode_string_body(s.skip(1)) {
            None => None,
            Some((t, r2)) => Some((seq![s[0]] + t, r2)),
        }
    }
}

pub open spec fn decode_string(s: Seq<char>) -> Option<(Seq<char>, Seq<char>)> {
    if s.len() >= 1 && s[0] == '"' {
        decode_string_body(s.skip(1))
    } else {
        None
    }
}

pub open spec fn decode_bool(s: Seq<char>) -> Option<(bool, Seq<char>)> {
    match expect(s, lit_true()) {
        Some(r) => Some((true, r)),
        None => match expect(s, lit_false()) {
            Some(r) => Some((false, r)),
            None => None,
        },
    }
}

/// Decodes one task object, fields in the fixed order.
#[verifier::opaque]
pub open spec fn decode_task(s: Seq<char>) -> Option<(crate::task::TaskView, Seq<char>)> {
    match expect(s, lit_obj_open()) {
        None => None,
        Some(r1) => match decode_string(r1) {
            None => None,
            Some((id, r2)) => match expect(r2, lit_desc()) {
                None => None,
                Some(r3) => match decode_string(r3) {
                    None => None,
                    Some((description, r4)) => match expect(r4, lit_done()) {
                        None => None,
                        Some(r5) => match decode_bool(r5) {
                            None => None,
                            Some((done, r6)) => match expect(r6, lit_date()) {
                                None => None,
                                Some(r7) => match decode_string(r7) {
                                    None => None,
                                    Some((creation_date, r8)) => match expect(r8, lit_removed()) {
                                        None => None,
                                        Some(r9) => match decode_bool(r9) {
                                            None => None,
                                            Some((removed, r10)) => match expect(
                                                r10,
                                                lit_obj_close(),
                                            ) {
                                                None => None,
                                                Some(r11) => Some(
                                                    (
                                                        (crate::task::TaskView {
                                                            id,
                                                            description,
                                                            done,
                                                            creation_date,
                                                            removed,
                                                        }),
                                                        r11,
                                                    ),
                                                ),
                                            },
                                        },
                                    },
                                },
                            },
                        },
                    },
                },
            },
        },
    }
}

/// Decodes the tasks after the first: each preceded by the separator.
pub open spec fn decode_rest(s: Seq<char>) -> Option<(Seq<crate::task::TaskView>, Seq<char>)>
    decreases s.len(),
{
    match expect(s, lit_sep()) {
        None => Some((Seq::empty(), s)),
        Some(r1) => match decode_task(r1) {
            None => None,
            Some((t, r2)) => if r2.len() < s.len() {
                match decode_rest(r2) {
                    None => None,
                    Some((ts, r3)) => Some((seq![t] + ts, r3)),
                }
            } else {
                None
            },
        },
    }
}

/// Decodes a whole document: the canonical text of a task list, with
/// nothing before or after it.
pub open spec fn decode_list(s: Seq<char>) -> Option<Seq<crate::task::TaskView>> {
    if s == lit_empty() {
        Some(Seq::empty())
    } else {
        match expect(s, lit_arr_open()) {
            None => None,
            Some(r1) => match decode_task(r1) {
                None => None,
                Some((t0, r2)) => match decode_rest(r2) {
                    None => None,
                    Some((ts, r3)) => match expect(r3, lit_arr_close()) {
                        None => None,
                        Some(r4) => if r4.len() == 0 {
                            Some(seq![t0] + ts)
                        } else {
                            None
                        },
                    },
                },
            },
        }
    }
}

/// What loading a document yields: the decoded list, or an empty list when
/// the text is not a task list. A parse failure is silently an empty list.
pub open spec fn load_spec(text: Seq<char>) -> Seq<crate::task::TaskView> {
    match decode_list(text) {
        Some(l) => l,
        None => Seq::empty(),
    }
}

// ---------------------------------------------------------------------
// Decoding undoes encoding.
// ---------------------------------------------------------------------
proof fn lemma_add_assoc<A>(x: Seq<A>, y: Seq<A>, z: Seq<A>)
    ensures
        (x + y) + z == x + (y + z),
{
    assert((x + y) + z =~= x + (y + z));
}

proof fn lemma_expect_prefix(lit: Seq<char>, rest: Seq<char>)
    ensures
        expect(lit + rest, lit) == Some(rest),
{
    assert((lit + rest).take(lit.len() as int) =~= lit);
    assert((lit + rest).skip(lit.len() as int) =~= rest);
}

proof fn lemma_decode_body_of_encode(s: Seq<char>, rest: Seq<char>)
    ensures
        decode_string_body(escape_all(s) + seq!['"'] + rest) == Some((s, rest)),
    decreases s.len(),
{
    let inp = escape_all(s) + seq!['"'] + rest;
    if s.len() == 0 {
        assert(inp =~= seq!['"'] + rest);
        assert(inp[0] == '"');
        assert(inp.skip(1) =~= rest);
        assert(s =~= Seq::<char>::empty());
    } else {
        let c = s[0];
        let e = escape_char(c);
        let tail = escape_all(s.skip(1)) + seq!['"'] + rest;
        assert(inp =~= e + tail);
        lemma_decode_body_of_encode(s.skip(1), rest);
        assert(seq![c] + s.skip(1) =~= s);
        if c == '"' {
            let arg = inp.skip(1);
            assert(inp[0] == '\\' && arg[0] == '"');
            assert(arg.skip(1) =~= tail);
        } else if c == '\\' {
            let arg = inp.skip(1);
            assert(inp[0] == '\\' && arg[0] == '\\');
            assert(arg.skip(1) =~= tail);
        } else if c == '\n' {
            let arg = inp.skip(1);
            assert(inp[0] == '\\' && arg[0] == 'n');
            assert(arg.skip(1) =~= tail);
        } else if c == '\r' {
            let arg = inp.skip(1);
            assert(inp[0] == '\\' && arg[0] == 'r');
            assert(arg.skip(1) =~= tail);
        } else if c == '\t' {
            let arg = inp.skip(1);
            assert(inp[0] == '\\' && arg[0] == 't');
            assert(arg.skip(1) =~= tail);
        } else if c == '\u{8}' {
            let arg = inp.skip(1);
            assert(inp[0] == '\\' && arg[0] == 'b');
            assert(arg.skip(1) =~= tail);
        } else if c == '\u{c}' {
            let arg = inp.skip(1);
            assert(inp[0] == '\\' && arg[0] == 'f');
            assert(arg.skip(1) =~= tail);
        } else if (c as u32) < 0x20 {
            let v = c as u32 as int;
            let arg = inp.skip(1);
            assert(inp[0] == '\\');
            assert(arg[0] == 'u' && arg[1] == '0' && arg[2] == '0');
            assert(arg[3] == hex_digit(v / 16) && arg[4] == hex_digit(v % 16));
            lemma_hex_round_trip(v / 16);
            lemma_hex_round_trip(v % 16);
            assert(16 * hex_val(arg[3]) + hex_val(arg[4]) == v);
            lemma_char_code_round_trip(c);
            assert(arg.skip(5) =~= tail);
            assert(decode_escape(arg) == Some((c, arg.skip(5))));
        } else {
            assert(inp[0] == c);
            assert(inp.skip(1) =~= tail);
        }
    }
}

proof fn lemma_decode_string_of_encode(s: Seq<char>, rest: Seq<char>)
    ensures
        decode_string(encode_string(s) + rest) == Some((s, rest)),
{
    let inp = encode_string(s) + rest;
    assert(inp[0] == '"');
    assert(inp.skip(1) =~= escape_all(s) + seq!['"'] + rest);
    lemma_decode_body_of_encode(s, rest);
}

proof fn lemma_decode_bool_of_encode(b: bool, rest: Seq<char>)
    ensures
        decode_bool(encode_bool(b) + rest) == Some((b, rest)),
{
    if b {
        lemma_expect_prefix(lit_true(), rest);
    } else {
        let inp = lit_false() + rest;
        assert(inp.take(4)[0] == 'f');
        assert(expect(inp, lit_true()) is None);
        lemma_expect_prefix(lit_false(), rest);
    }
}

#[verifier::rlimit(100)]
proof fn lemma_decode_task_of_encode(t: crate::task::TaskView, rest: Seq<char>)
    ensures
        decode_task(encode_task(t) + rest) == Some((t, rest)),
{
    let a10 = encode_bool(t.removed) + (lit_obj_close() + rest);
    let a9 = lit_removed() + a10;
    let a8 = encode_string(t.creation_date) + a9;
    let a7 = lit_date() + a8;
    let a6 = encode_bool(t.done) + a7;
    let a5 = lit_done() + a6;
    let a4 = encode_string(t.description) + a5;
    let a3 = lit_desc() + a4;
    let a2 = encode_string(t.id) + a3;
    let inp = encode_task(t) + rest;
    reveal(decode_task);
    assert(inp =~= lit_obj_open() + a2);
    lemma_expect_prefix(lit_obj_open(), a2);
    lemma_decode_string_of_encode(t.id, a3);
    lemma_expect_prefix(lit_desc(), a4);
    lemma_decode_string_of_encode(t.description, a5);
    lemma_expect_prefix(lit_done(), a6);
    lemma_decode_bool_of_encode(t.done, a7);
    lemma_expect_prefix(lit_date(), a8);
    lemma_decode_string_of_encode(t.creation_date, a9);
    lemma_expect_prefix(lit_removed(), a10);
    lemma_decode_bool_of_encode(t.removed, lit_obj_close() + rest);
    lemma_expect_prefix(lit_obj_close(), rest);
}

#[verifier::rlimit(100)]
proof fn lemma_decode_rest_of_encode(ts: Seq<crate::task::TaskView>, rest: Seq<char>)
    requires
        rest.len() >= 1,
        rest[0] != ',',
    ensures
        decode_rest(encode_rest(ts) + rest) == Some((ts, rest)),
    decreases ts.len(),
{
    let inp = encode_rest(ts) + rest;
    if ts.len() == 0 {
        assert(inp =~= rest);
        if lit_sep().len() <= rest.len() {
            assert(rest.take(2)[0] == rest[0]);
        }
        assert(expect(rest, lit_sep()) is None);
        assert(ts =~= Seq::<crate::task::TaskView>::empty());
    } else {
        let a2 = encode_rest(ts.skip(1)) + rest;
        let a1 = encode_task(ts[0]) + a2;
        lemma_add_assoc(lit_sep() + encode_task(ts[0]), encode_rest(ts.skip(1)), rest);
        lemma_add_assoc(lit_sep(), encode_task(ts[0]), a2);
        assert(inp == lit_sep() + a1);
        lemma_expect_prefix(lit_sep(), a1);
        assert(expect(inp, lit_sep()) == Some(a1));
        lemma_decode_task_of_encode(ts[0], a2);
        assert(a2.len() < inp.len());
        lemma_decode_rest_of_encode(ts.skip(1), rest);
        assert(seq![ts[0]] + ts.skip(1) =~= ts);
    }
}

#[verifier::rlimit(100)]
proof fn lemma_decode_of_encode(ts: Seq<crate::task::TaskView>)
    ensures
        decode_list(encode_list(ts)) == Some(ts),
{
    let inp = encode_list(ts);
    if ts.len() == 0 {
        assert(ts =~= Seq::<crate::task::TaskView>::empty());
    } else {
        let a2 = encode_rest(ts.skip(1)) + lit_arr_close();
        let a1 = encode_task(ts[0]) + a2;
        lemma_add_assoc(lit_arr_open() + encode_task(ts[0]), encode_rest(ts.skip(1)), lit_arr_close());
        lemma_add_assoc(lit_arr_open(), encode_task(ts[0]), a2);
        assert(inp == lit_arr_open() + a1);
        assert(inp[1] == '\n');
        assert(inp != lit_empty());
        lemma_expect_prefix(lit_arr_open(), a1);
        lemma_decode_task_of_encode(ts[0], a2);
        lemma_decode_rest_of_encode(ts.skip(1), lit_arr_close());
        assert(lit_arr_close() =~= lit_arr_close() + Seq::<char>::empty());
        lemma_expect_prefix(lit_arr_close(), Seq::<char>::empty());
        assert(seq![ts[0]] + ts.skip(1) =~= ts);
    }
}

/// The round trip: loading the canonical text of any task list gives the
/// list back exactly, field for field.
pub proof fn lemma_json_round_trip(ts: Seq<crate::task::TaskView>)
    ensures
        load_spec(encode_list(ts)) == ts,
{
    lemma_decode_of_encode(ts);
}

// ---------------------------------------------------------------------
// The executable encoder.
// ---------------------------------------------------------------------
#[verifier::rlimit(100)]
proof fn lemma_escape_all_snoc(t: Seq<char>, c: char)
    ensures
        escape_all(t.push(c)) == escape_all(t) + escape_char(c),
    decreases t.len(),
{
    assert(t.push(c)[0] == if t.len() == 0 { c } else { t[0] });
    if t.len() == 0 {
        assert(t.push(c).skip(1) =~= Seq::<char>::empty());
        assert(escape_all(Seq::<char>::empty()) == Seq::<char>::empty());
        assert(escape_all(t.push(c)) == escape_char(c) + Seq::<char>::empty());
        assert(escape_all(t.push(c)) =~= escape_all(t) + escape_char(c));
    } else {
        lemma_escape_all_snoc(t.skip(1), c);
        assert(t.push(c).skip(1) =~= t.skip(1).push(c));
        assert(escape_all(t.push(c)) == escape_char(t[0]) + (escape_all(t.skip(1)) + escape_char(
            c,
        )));
        lemma_add_assoc(escape_char(t[0]), escape_all(t.skip(1)), escape_char(c));
        assert(escape_all(t) == escape_char(t[0]) + escape_all(t.skip(1)));
    }
}

#[verifier::rlimit(100)]
proof fn lemma_encode_rest_snoc(ts: Seq<TaskView>, t: TaskView)
    ensures
        encode_rest(ts.push(t)) == encode_rest(ts) + lit_sep() + encode_task(t),
    decreases ts.len(),
{
    assert(ts.push(t)[0] == if ts.len() == 0 { t } else { ts[0] });
    if ts.len() == 0 {
        assert(ts.push(t).skip(1) =~= Seq::<TaskView>::empty());
        assert(encode_rest(Seq::<TaskView>::empty()) == Seq::<char>::empty());
        assert(encode_rest(ts.push(t)) == lit_sep() + encode_task(t) + Seq::<char>::empty());
        assert(encode_rest(ts.push(t)) =~= encode_rest(ts) + lit_sep() + encode_task(t));
    } else {
        lemma_encode_rest_snoc(ts.skip(1), t);
        assert(ts.push(t).skip(1) =~= ts.skip(1).push(t));
        assert(encode_rest(ts.push(t)) == lit_sep() + encode_task(ts[0]) + (encode_rest(ts.skip(1))
            + (lit_sep() + encode_task(t))));
        lemma_add_assoc(lit_sep() + encode_task(ts[0]), encode_rest(ts.skip(1)), lit_sep()
            + encode_task(t));
        lemma_add_assoc(encode_rest(ts), lit_sep(), encode_task(t));
        assert(encode_rest(ts) == lit_sep() + encode_task(ts[0]) + encode_rest(ts.skip(1)));
    }
}

fn hex_digit_of(d: u8) -> (r: char)
    requires
        d < 16,
    ensures
        r == hex_digit(d as int),
{
    if d == 0 {
        '0'
    } else if d == 1 {
        '1'
    } else if d == 2 {
        '2'
    } else if d == 3 {
        '3'
    } else if d == 4 {
        '4'
    } else if d == 5 {
        '5'
    } else if d == 6 {
        '6'
    } else if d == 7 {
        '7'
    } else if d == 8 {
        '8'
    } else if d == 9 {
        '9'
    } else if d == 10 {
        'a'
    } else if d == 11 {
        'b'
    } else if d == 12 {
        'c'
    } else if d == 13 {
        'd'
    } else if d == 14 {
        'e'
    } else {
        'f'
    }
}

fn push_escaped(out: &mut String, c: char)
    ensures
        final(out)@ == old(out)@ + escape_char(c),
{
    if c == '"' {
        push_char(out, '\\');
        push_char(out, '"');
        proof {
            assert(out@ =~= old(out)@ + escape_char(c));
        }
    } else if c == '\\' {
        push_char(out, '\\');
        push_char(out, '\\');
        proof {
            assert(out@ =~= old(out)@ + escape_char(c));
        }
    } else if c == '\n' {
        push_char(out, '\\');
        push_char(out, 'n');
        proof {
            assert(out@ =~= old(out)@ + escape_char(c));
        }
    } else if c == '\r' {
        push_char(out, '\\');
        push_char(out, 'r');
        proof {
            assert(out@ =~= old(out)@ + escape_char(c));
        }
    } else if c == '\t' {
        push_char(out, '\\');
        push_char(out, 't');
        proof {
            assert(out@ =~= old(out)@ + escape_char(c));
        }
    } else if c == '\u{8}' {
        push_char(out, '\\');
        push_char(out, 'b');
        proof {
            assert(out@ =~= old(out)@ + escape_char(c));
        }
    } else if c == '\u{c}' {
        push_char(out, '\\');
        push_char(out, 'f');
        proof {
            assert(out@ =~= old(out)@ + escape_char(c));
        }
    } else if (c as u32) < 0x20 {
        let v = c as u32;
        push_char(out, '\\');
        push_char(out, 'u');
        push_char(out, '0');
        push_char(out, '0');
        push_char(out, hex_digit_of((v / 16) as u8));
        push_char(out, hex_digit_of((v % 16) as u8));
        proof {
            assert(out@ =~= old(out)@ + escape_char(c));
        }
    } else {
        push_char(out, c);
        proof {
            assert(out@ =~= old(out)@ + escape_char(c));
        }
    }
}

fn append_escaped(out: &mut String, s: &str)
    ensures
        final(out)@ == old(out)@ + escape_all(s@),
{
    let n = s.unicode_len();
    proof {
        assert(s@.take(0) =~= Seq::<char>::empty());
        assert(out@ =~= old(out)@ + escape_all(s@.take(0)));
    }
    let mut i: usize = 0;
    while i < n
        invariant
            i <= n,
            n == s@.len(),
            out@ == old(out)@ + escape_all(s@.take(i as int)),
        decreases n - i,
    {
        let c = s.get_char(i);
        push_escaped(out, c);
        proof {
            lemma_escape_all_snoc(s@.take(i as int), c);
            assert(s@.take(i + 1) =~= s@.take(i as int).push(c));
            assert(out@ =~= old(out)@ + escape_all(s@.take(i + 1)));
        }
        i = i + 1;
    }
    proof {
        assert(s@.take(n as int) =~= s@);
    }
}

fn append_json_string(out: &mut String, s: &str)
    ensures
        final(out)@ == old(out)@ + encode_string(s@),
{
    push_char(out, '"');
    append_escaped(out, s);
    push_char(out, '"');
    proof {
        assert(out@ =~= old(out)@ + encode_string(s@));
    }
}

fn append_bool(out: &mut String, b: bool)
    ensures
        final(out)@ == old(out)@ + encode_bool(b),
{
    if b {
        out.append("true");
        proof {
            reveal_strlit("true");
            assert("true"@ =~= lit_true());
        }
    } else {
        out.append("false");
        proof {
            reveal_strlit("false");
            assert("false"@ =~= lit_false());
        }
    }
}

#[verifier::rlimit(100)]
fn append_task_json(out: &mut String, t: &Task)
    ensures
        final(out)@ == old(out)@ + encode_task(t@),
{
    out.append("  {\n    \"id\": ");
    proof {
        reveal_strlit("  {\n    \"id\": ");
        assert("  {\n    \"id\": "@ =~= lit_obj_open());
    }
    append_json_string(out, t.id.as_str());
    out.append(",\n    \"description\": ");
    proof {
        reveal_strlit(",\n    \"description\": ");
        assert(",\n    \"description\": "@ =~= lit_desc());
    }
    append_json_string(out, t.description.as_str());
    out.append(",\n    \"done\": ");
    proof {
        reveal_strlit(",\n    \"done\": ");
        assert(",\n    \"done\": "@ =~= lit_done());
    }
    append_bool(out, t.done);
    out.append(",\n    \"creation_date\": ");
    proof {
        reveal_strlit(",\n    \"creation_date\": ");
        assert(",\n    \"creation_date\": "@ =~= lit_date());
    }
    append_json_string(out, t.creation_date.as_str());
    out.append(",\n    \"removed\": ");
    proof {
        reveal_strlit(",\n    \"removed\": ");
        assert(",\n    \"removed\": "@ =~= lit_removed());
    }
    append_bool(out, t.removed);
    out.append("\n  }");
    proof {
        reveal_strlit("\n  }");
        assert("\n  }"@ =~= lit_obj_close());
        assert(out@ =~= old(out)@ + encode_task(t@));
    }
}

/// The canonical pretty-printed JSON text of the whole list, ready to be
/// written over the persisted file.
pub fn tasks_to_json(tasks: &Vec<Task>) -> (r: String)
    ensures
        r@ == encode_list(views(tasks@)),
{
    let ghost v = views(tasks@);
    if tasks.len() == 0 {
        let r = String::from_str("[]");
        proof {
            reveal_strlit("[]");
            assert(r@ =~= lit_empty());
        }
        r
    } else {
        let mut out = String::new();
        out.append("[\n");
        proof {
            reveal_strlit("[\n");
            assert(out@ =~= lit_arr_open());
        }
        append_tasks_json(&mut out, tasks);
        proof {
            assert(v.subrange(1, v.len() as int) =~= v.skip(1));
        }
        out.append("\n]");
        proof {
            reveal_strlit("\n]");
            assert("\n]"@ =~= lit_arr_close());
            assert(out@ =~= encode_list(v));
        }
        out
    }
}

// ---------------------------------------------------------------------
// The executable parser.
// ---------------------------------------------------------------------
fn hex_val_of(c: char) -> (r: Option<u8>)
    ensures
        match r {
            Some(v) => is_hex(c) && hex_val(c) == v as int && v < 16,
            None => !is_hex(c),
        },
{
    if c == '0' {
        Some(0)
    } else if c == '1' {
        Some(1)
    } else if c == '2' {
        Some(2)
    } else if c == '3' {
        Some(3)
    } else if c == '4' {
        Some(4)
    } else if c == '5' {
        Some(5)
    } else if c == '6' {
        Some(6)
    } else if c == '7' {
        Some(7)
    } else if c == '8' {
        Some(8)
    } else if c == '9' {
        Some(9)
    } else if c == 'a' {
        Some(10)
    } else if c == 'b' {
        Some(11)
    } else if c == 'c' {
        Some(12)
    } else if c == 'd' {
        Some(13)
    } else if c == 'e' {
        Some(14)
    } else if c == 'f' {
        Some(15)
    } else {
        None
    }
}

fn char_of_code(v: u8) -> (r: char)
    requires
        v < 32,
    ensures
        r == char_code(v as int),
{
    if v == 0 {
        '\u{0}'
    } else if v == 1 {
        '\u{1}'
    } else if v == 2 {
        '\u{2}'
    } else if v == 3 {
        '\u{3}'
    } else if v == 4 {
        '\u{4}'
    } else if v == 5 {
        '\u{5}'
    } else if v == 6 {
        '\u{6}'
    } else if v == 7 {
        '\u{7}'
    } else if v == 8 {
        '\u{8}'
    } else if v == 9 {
        '\u{9}'
    } else if v == 10 {
        '\u{a}'
    } else if v == 11 {
        '\u{b}'
    } else if v == 12 {
        '\u{c}'
    } else if v == 13 {
        '\u{d}'
    } else if v == 14 {
        '\u{e}'
    } else if v == 15 {
        '\u{f}'
    } else if v == 16 {
        '\u{10}'
    } else if v == 17 {
        '\u{11}'
    } else if v == 18 {
        '\u{12}'
    } else if v == 19 {
        '\u{13}'
    } else if v == 20 {
        '\u{14}'
    } else if v == 21 {
        '\u{15}'
    } else if v == 22 {
        '\u{16}'
    } else if v == 23 {
        '\u{17}'
    } else if v == 24 {
        '\u{18}'
    } else if v == 25 {
        '\u{19}'
    } else if v == 26 {
        '\u{1a}'
    } else if v == 27 {
        '\u{1b}'
    } else if v == 28 {
        '\u{1c}'
    } else if v == 29 {
        '\u{1d}'
    } else if v == 30 {
        '\u{1e}'
    } else {
        '\u{1f}'
    }
}

/// Checks that the text at `i` continues with `lit`; gives the index just
/// past it.
fn expect_lit(s: &str, i: usize, lit: &str) -> (r: Option<usize>)
    requires
        i <= s@.len(),
    ensures
        match r {
            Some(j) => i <= j <= s@.len() && expect(s@.skip(i as int), lit@) == Some(
                s@.skip(j as int),
            ),
            None => expect(s@.skip(i as int), lit@) is None,
        },
{
    let n = s.unicode_len();
    let m = lit.unicode_len();
    if n - i < m {
        proof {
            assert(s@.skip(i as int).len() < lit@.len());
        }
        return None;
    }
    let mut k: usize = 0;
    while k < m
        invariant
            k <= m,
            i + m <= n,
            n == s@.len(),
            m == lit@.len(),
            forall|q: int| 0 <= q < k ==> s@[i + q] == lit@[q],
        decreases m - k,
    {
        let a = s.get_char(i + k);
        let b = lit.get_char(k);
        if a != b {
            proof {
                let sk = s@.skip(i as int);
                assert(sk.take(m as int)[k as int] == s@[i + k]);
                assert(sk.take(m as int) != lit@);
            }
            return None;
        }
        k = k + 1;
    }
    proof {
        let sk = s@.skip(i as int);
        assert forall|q: int| 0 <= q < m implies sk.take(m as int)[q] == lit@[q] by {
            assert(sk.take(m as int)[q] == s@[i + q]);
        }
        assert(sk.take(m as int) =~= lit@);
        assert(sk.skip(m as int) =~= s@.skip((i + m) as int));
    }
    Some(i + m)
}

/// Reads the inside of a JSON string starting at `i`, appending the
/// decoded characters to `out`; gives the index just past the closing
/// quote.
fn parse_string_body(s: &str, i: usize, out: &mut String) -> (r: Option<usize>)
    requires
        i <= s@.len(),
    ensures
        match r {
            Some(j) => {
                &&& i <= j <= s@.len()
                &&& decode_string_body(s@.skip(i as int)) is Some
                &&& final(out)@ == old(out)@ + (decode_string_body(s@.skip(i as int))->0).0
                &&& (decode_string_body(s@.skip(i as int))->0).1 == s@.skip(j as int)
            },
            None => decode_string_body(s@.skip(i as int)) is None,
        },
    decreases s@.len() - i,
{
    let n = s.unicode_len();
    if i == n {
        return None;
    }
    let c = s.get_char(i);
    proof {
        assert(s@.skip(i as int)[0] == c);
    }
    if c == '"' {
        proof {
            assert(s@.skip(i as int).skip(1) =~= s@.skip(i + 1));
            assert(out@ + Seq::<char>::empty() =~= out@);
        }
        return Some(i + 1);
    }
    if c == '\\' {
        if i + 1 == n {
            proof {
                assert(s@.skip(i as int).skip(1) =~= s@.skip(i + 1));
                assert(s@.skip(i + 1).len() == 0);
            }
            return None;
        }
        let e = s.get_char(i + 1);
        proof {
            assert(s@.skip(i as int).skip(1) =~= s@.skip(i + 1));
            assert(s@.skip(i + 1)[0] == e);
        }
        if e == '"' || e == '\\' || e == 'n' || e == 'r' || e == 't' || e == 'b' || e == 'f' {
            let dc = if e == '"' {
                '"'
            } else if e == '\\' {
                '\\'
            } else if e == 'n' {
                '\n'
            } else if e == 'r' {
                '\r'
            } else if e == 't' {
                '\t'
            } else if e == 'b' {
                '\u{8}'
            } else {
                '\u{c}'
            };
            proof {
                assert(decode_escape(s@.skip(i + 1)) == Some((dc, s@.skip(i + 1).skip(1))));
                assert(s@.skip(i + 1).skip(1) =~= s@.skip(i + 2));
                assert(s@.skip(i + 2).len() < s@.skip(i as int).len());
            }
            push_char(out, dc);
            match parse_string_body(s, i + 2, out) {
                Some(j) => {
                    proof {
                        let t = (decode_string_body(s@.skip(i + 2))->0).0;
                        assert(old(out)@.push(dc) + t =~= old(out)@ + (seq![dc] + t));
                    }
                    Some(j)
                },
                None => None,
            }
        } else if e == 'u' {
            if n - i < 6 {
                proof {
                    assert(s@.skip(i + 1).len() < 5);
                }
                return None;
            }
            let d1 = s.get_char(i + 2);
            let d2 = s.get_char(i + 3);
            let h1 = s.get_char(i + 4);
            let h0 = s.get_char(i + 5);
            proof {
                assert(s@.skip(i + 1)[1] == d1);
                assert(s@.skip(i + 1)[2] == d2);
                assert(s@.skip(i + 1)[3] == h1);
                assert(s@.skip(i + 1)[4] == h0);
            }
            if d1 != '0' || d2 != '0' {
                return None;
            }
            let v1 = match hex_val_of(h1) {
                Some(v) => v,
                None => {
                    return None;
                },
            };
            let v0 = match hex_val_of(h0) {
                Some(v) => v,
                None => {
                    return None;
                },
            };
            let v = 16 * v1 + v0;
            if v >= 0x20 {
                return None;
            }
            let dc = char_of_code(v);
            proof {
                assert(decode_escape(s@.skip(i + 1)) == Some((dc, s@.skip(i + 1).skip(5))));
                assert(s@.skip(i + 1).skip(5) =~= s@.skip(i + 6));
                assert(s@.skip(i + 6).len() < s@.skip(i as int).len());
            }
            push_char(out, dc);
            match parse_string_body(s, i + 6, out) {
                Some(j) => {
                    proof {
                        let t = (decode_string_body(s@.skip(i + 6))->0).0;
                        assert(old(out)@.push(dc) + t =~= old(out)@ + (seq![dc] + t));
                    }
                    Some(j)
                },
                None => None,
            }
        } else {
            return None;
        }
    } else {
        proof {
            assert(s@.skip(i as int).skip(1) =~= s@.skip(i + 1));
        }
        push_char(out, c);
        match parse_string_body(s, i + 1, out) {
            Some(j) => {
                proof {
                    let t = (decode_string_body(s@.skip(i + 1))->0).0;
                    assert(old(out)@.push(c) + t =~= old(out)@ + (seq![c] + t));
                }
                Some(j)
            },
            None => None,
        }
    }
}

/// Reads a whole JSON string starting at `i`; gives the decoded value and
/// the index just past the closing quote.
fn parse_string(s: &str, i: usize) -> (r: Option<(String, usize)>)
    requires
        i <= s@.len(),
    ensures
        match r {
            Some(p) => i <= p.1 <= s@.len() && decode_string(s@.skip(i as int)) == Some(
                (p.0@, s@.skip(p.1 as int)),
            ),
            None => decode_string(s@.skip(i as int)) is None,
        },
{
    let n = s.unicode_len();
    if i == n {
        return None;
    }
    if s.get_char(i) != '"' {
        proof {
            assert(s@.skip(i as int)[0] != '"');
        }
        return None;
    }
    proof {
        assert(s@.skip(i as int)[0] == '"');
        assert(s@.skip(i as int).skip(1) =~= s@.skip(i + 1));
    }
    let mut out = String::new();
    match parse_string_body(s, i + 1, &mut out) {
        Some(j) => {
            proof {
                assert(out@ =~= Seq::<char>::empty() + (decode_string_body(s@.skip(i + 1))->0).0);
            }
            Some((out, j))
        },
        None => None,
    }
}

fn parse_bool(s: &str, i: usize) -> (r: Option<(bool, usize)>)
    requires
        i <= s@.len(),
    ensures
        match r {
            Some(p) => i <= p.1 <= s@.len() && decode_bool(s@.skip(i as int)) == Some(
                (p.0, s@.skip(p.1 as int)),
            ),
            None => decode_bool(s@.skip(i as int)) is None,
        },
{
    proof {
        reveal_strlit("true");
        reveal_strlit("false");
        assert("true"@ =~= lit_true());
        assert("false"@ =~= lit_false());
    }
    match expect_lit(s, i, "true") {
        Some(j) => Some((true, j)),
        None => match expect_lit(s, i, "false") {
            Some(j) => Some((false, j)),
            None => None,
        },
    }
}

/// Reads one task object starting at `i`.
#[verifier::rlimit(100)]
fn parse_task(s: &str, i: usize) -> (r: Option<(Task, usize)>)
    requires
        i <= s@.len(),
    ensures
        match r {
            Some(p) => i <= p.1 <= s@.len() && decode_task(s@.skip(i as int)) == Some(
                (p.0@, s@.skip(p.1 as int)),
            ),
            None => decode_task(s@.skip(i as int)) is None,
        },
{
    proof {
        reveal_strlit("  {\n    \"id\": ");
        assert("  {\n    \"id\": "@ =~= lit_obj_open());
        reveal_strlit(",\n    \"description\": ");
        assert(",\n    \"description\": "@ =~= lit_desc());
        reveal_strlit(",\n    \"done\": ");
        assert(",\n    \"done\": "@ =~= lit_done());
        reveal_strlit(",\n    \"creation_date\": ");
        assert(",\n    \"creation_date\": "@ =~= lit_date());
        reveal_strlit(",\n    \"removed\": ");
        assert(",\n    \"removed\": "@ =~= lit_removed());
        reveal_strlit("\n  }");
        assert("\n  }"@ =~= lit_obj_close());
    }
    let i1 = match expect_lit(s, i, "  {\n    \"id\": ") {
        Some(j) => j,
        None => {
            proof {
                reveal(decode_task);
            }
            return None;
        },
    };
    let (id, i2) = match parse_string(s, i1) {
        Some(p) => p,
        None => {
            proof {
                reveal(decode_task);
            }
            return None;
        },
    };
    let i3 = match expect_lit(s, i2, ",\n    \"description\": ") {
        Some(j) => j,
        None => {
            proof {
                reveal(decode_task);
            }
            return None;
        },
    };
    let (description, i4) = match parse_string(s, i3) {
        Some(p) => p,
        None => {
            proof {
                reveal(decode_task);
            }
            return None;
        },
    };
    let i5 = match expect_lit(s, i4, ",\n    \"done\": ") {
        Some(j) => j,
        None => {
            proof {
                reveal(decode_task);
            }
            return None;
        },
    };
    let (done, i6) = match parse_bool(s, i5) {
        Some(p) => p,
        None => {
            proof {
                reveal(decode_task);
            }
            return None;
        },
    };
    let i7 = match expect_lit(s, i6, ",\n    \"creation_date\": ") {
        Some(j) => j,
        None => {
            proof {
                reveal(decode_task);
            }
            return None;
        },
    };
    let (creation_date, i8) = match parse_string(s, i7) {
        Some(p) => p,
        None => {
            proof {
                reveal(decode_task);
            }
            return None;
        },
    };
    let i9 = match expect_lit(s, i8, ",\n    \"removed\": ") {
        Some(j) => j,
        None => {
            proof {
                reveal(decode_task);
            }
            return None;
        },
    };
    let (removed, i10) = match parse_bool(s, i9) {
        Some(p) => p,
        None => {
            proof {
                reveal(decode_task);
            }
            return None;
        },
    };
    let i11 = match expect_lit(s, i10, "\n  }") {
        Some(j) => j,
        None => {
            proof {
                reveal(decode_task);
            }
            return None;
        },
    };
    let t = Task { id, description, done, creation_date, removed };
    proof {
        reveal(decode_task);
        assert(decode_task(s@.skip(i as int)) == Some((t@, s@.skip(i11 as int))));
    }
    Some((t, i11))
}

/// Reads the tasks after the first, each behind a separator, appending
/// them to `acc`.
fn parse_rest(s: &str, i: usize, acc: &mut Vec<Task>) -> (r: Option<usize>)
    requires
        i <= s@.len(),
    ensures
        match r {
            Some(j) => {
                &&& i <= j <= s@.len()
                &&& decode_rest(s@.skip(i as int)) is Some
                &&& views(final(acc)@) == views(old(acc)@) + (decode_rest(s@.skip(i as int))->0).0
                &&& (decode_rest(s@.skip(i as int))->0).1 == s@.skip(j as int)
            },
            None => decode_rest(s@.skip(i as int)) is None,
        },
    decreases s@.len() - i,
{
    proof {
        reveal_strlit(",\n");
        assert(",\n"@ =~= lit_sep());
    }
    match expect_lit(s, i, ",\n") {
        None => {
            proof {
                assert(views(acc@) =~= views(acc@) + Seq::<TaskView>::empty());
            }
            Some(i)
        },
        Some(i1) => {
            match parse_task(s, i1) {
                None => None,
                Some((t, i2)) => {
                    proof {
                        assert(s@.skip(i1 as int) == s@.skip(i as int).skip(2));
                        assert(s@.skip(i2 as int).len() < s@.skip(i as int).len());
                    }
                    acc.push(t);
                    let ghost mid = acc@;
                    match parse_rest(s, i2, acc) {
                        None => None,
                        Some(j) => {
                            proof {
                                let ts = (decode_rest(s@.skip(i2 as int))->0).0;
                                assert(views(mid) =~= views(old(acc)@).push(t@));
                                assert(views(old(acc)@).push(t@) + ts =~= views(old(acc)@) + (
                                seq![t@] + ts));
                            }
                            Some(j)
                        },
                    }
                },
            }
        },
    }
}

/// Reads a whole document. Nothing may precede or follow the list.
fn parse_list(s: &str) -> (r: Option<Vec<Task>>)
    ensures
        match r {
            Some(v) => decode_list(s@) == Some(views(v@)),
            None => decode_list(s@) is None,
        },
{
    let n = s.unicode_len();
    if n == 2 && s.get_char(0) == '[' && s.get_char(1) == ']' {
        let v: Vec<Task> = Vec::new();
        proof {
            assert(s@ =~= lit_empty());
            assert(views(v@) =~= Seq::<TaskView>::empty());
        }
        return Some(v);
    }
    proof {
        if s@ == lit_empty() {
            assert(s@.len() == 2);
            assert(s@[0] == '[' && s@[1] == ']');
            assert(false);
        }
        reveal_strlit("[\n");
        assert("[\n"@ =~= lit_arr_open());
        assert(s@.skip(0) =~= s@);
    }
    let i1 = match expect_lit(s, 0, "[\n") {
        Some(j) => j,
        None => {
            return None;
        },
    };
    let (t0, i2) = match parse_task(s, i1) {
        Some(p) => p,
        None => {
            return None;
        },
    };
    let mut v: Vec<Task> = Vec::new();
    v.push(t0);
    proof {
        assert(views(v@) =~= seq![t0@]);
    }
    let i3 = match parse_rest(s, i2, &mut v) {
        Some(j) => j,
        None => {
            return None;
        },
    };
    proof {
        reveal_strlit("\n]");
        assert("\n]"@ =~= lit_arr_close());
    }
    let i4 = match expect_lit(s, i3, "\n]") {
        Some(j) => j,
        None => {
            return None;
        },
    };
    if i4 < n {
        proof {
            assert(s@.skip(i4 as int).len() > 0);
        }
        return None;
    }
    proof {
        assert(s@.skip(i4 as int).len() == 0);
        let ts = (decode_rest(s@.skip(i2 as int))->0).0;
        assert(views(v@) == seq![t0@] + ts);
        assert(decode_list(s@) == Some(seq![t0@] + ts));
    }
    Some(v)
}

/// Decodes a persisted document into a task list. Text that is not the
/// canonical form of a task list yields the empty list, as does an absent
/// or unreadable file, passed as None: a corrupt store is silently an
/// empty store.
pub fn load_tasks(content: Option<&str>) -> (r: Vec<Task>)
    ensures
        match content {
            Some(text) => views(r@) == load_spec(text@),
            None => views(r@) == Seq::<TaskView>::empty(),
        },
{
    match content {
        None => {
            let v: Vec<Task> = Vec::new();
            proof {
                assert(views(v@) =~= Seq::<TaskView>::empty());
            }
            v
        },
        Some(text) => match parse_list(text) {
            Some(v) => v,
            None => {
                let v: Vec<Task> = Vec::new();
                proof {
                    assert(views(v@) =~= Seq::<TaskView>::empty());
                }
                v
            },
        },
    }
}

/// Appends the first task and then each later one behind a separator.
fn append_tasks_json(out: &mut String, tasks: &Vec<Task>)
    requires
        tasks@.len() >= 1,
    ensures
        final(out)@ == old(out)@ + encode_task(views(tasks@)[0]) + encode_rest(
            views(tasks@).subrange(1, views(tasks@).len() as int),
        ),
{
    let ghost v = views(tasks@);
    append_task_json(out, &tasks[0]);
    let mut i: usize = 1;
    proof {
        assert(v.subrange(1, 1) =~= Seq::<TaskView>::empty());
        assert(out@ =~= old(out)@ + encode_task(v[0]) + encode_rest(v.subrange(1, 1)));
    }
    while i < tasks.len()
        invariant
            1 <= i <= tasks@.len(),
            v == views(tasks@),
            v.len() == tasks@.len(),
            out@ == old(out)@ + encode_task(v[0]) + encode_rest(v.subrange(1, i as int)),
        decreases tasks@.len() - i,
    {
        out.append(",\n");
        proof {
            reveal_strlit(",\n");
            assert(",\n"@ =~= lit_sep());
        }
        append_task_json(out, &tasks[i]);
        proof {
            lemma_encode_rest_snoc(v.subrange(1, i as int), v[i as int]);
            assert(v.subrange(1, i + 1) =~= v.subrange(1, i as int).push(v[i as int]));
            assert(out@ =~= old(out)@ + encode_task(v[0]) + encode_rest(v.subrange(1, i + 1)));
        }
        i = i + 1;
    }
}

} // verus!
