//! The canonical JSON form of a task list, with a verified writer and a
//! verified reader.
//!
//! A list is written as a JSON array of objects, each object holding the
//! keys `title`, `completed` and `sub_items` in that order, with no spaces
//! or line breaks between tokens. Inside a string literal, `"` and `\` are
//! escaped with a backslash, the five control characters with short escapes
//! use them (`\b`, `\t`, `\n`, `\f`, `\r`), and every other control
//! character below space becomes `\u00` followed by two lowercase hex
//! digits. Every task list has exactly one canonical form, and the reader
//! accepts exactly the canonical forms.

use vstd::prelude::*;
use vstd::pervasive::arbitrary;
use crate::todoitem::{TaskView, TodoItem, task_view, tasks_view};

verus! {

broadcast use {
    vstd::seq::group_seq_axioms,
    vstd::std_specs::vec::group_vec_axioms,
    vstd::utf8::char_u32_cast,
};

/// The lowercase hexadecimal digit with value `n`.
pub open spec fn spec_hex_char(n: int) -> char {
    if n == 0 {
        '0'
    } else if n == 1 {
        '1'
    } else if n == 2 {
        '2'
    } else if n == 3 {
        '3'
    } else if n == 4 {
        '4'
    } else if n == 5 {
        '5'
    } else if n == 6 {
        '6'
    } else if n == 7 {
        '7'
    } else if n == 8 {
        '8'
    } else if n == 9 {
        '9'
    } else if n == 10 {
        'a'
    } else if n == 11 {
        'b'
    } else if n == 12 {
        'c'
    } else if n == 13 {
        'd'
    } else if n == 14 {
        'e'
    } else if n == 15 {
        'f'
    } else {
        arbitrary()
    }
}

/// How one character appears inside a canonical JSON string literal.
pub open spec fn spec_escape_char(c: char) -> Seq<char> {
    if c == '"' {
        seq!['\\', '"']
    } else if c == '\\' {
        seq!['\\', '\\']
    } else if c == '\u{8}' {
        seq!['\\', 'b']
    } else if c == '\t' {
        seq!['\\', 't']
    } else if c == '\n' {
        seq!['\\', 'n']
    } else if c == '\u{c}' {
        seq!['\\', 'f']
    } else if c == '\r' {
        seq!['\\', 'r']
    } else if (c as u32) < 32 {
        seq!['\\', 'u', '0', '0', spec_hex_char((c as u32) as int / 16), spec_hex_char(
            (c as u32) as int % 16,
        )]
    } else {
        seq![c]
    }
}

/// The body of a canonical JSON string literal: each character escaped.
pub open spec fn spec_escape_string(s: Seq<char>) -> Seq<char>
    decreases s.len(),
{
    if s.len() == 0 {
        Seq::empty()
    } else {
        spec_escape_char(s[0]) + spec_escape_string(s.subrange(1, s.len() as int))
    }
}

/// A canonical JSON string literal, quotes included.
pub open spec fn spec_string_lit(s: Seq<char>) -> Seq<char> {
    seq!['"'] + spec_escape_string(s) + seq!['"']
}

/// A JSON boolean literal.
pub open spec fn spec_bool_lit(b: bool) -> Seq<char> {
    if b {
        seq!['t', 'r', 'u', 'e']
    } else {
        seq!['f', 'a', 'l', 's', 'e']
    }
}

/// The canonical JSON object for one task.
pub open spec fn spec_serialize_task(t: TaskView) -> Seq<char>
    decreases t, 0int,
{
    seq!['{', '"', 't', 'i', 't', 'l', 'e', '"', ':'] + spec_string_lit(t.title) + seq![
        ',',
        '"',
        'c',
        'o',
        'm',
        'p',
        'l',
        'e',
        't',
        'e',
        'd',
        '"',
        ':',
    ] + spec_bool_lit(t.completed) + seq![
        ',',
        '"',
        's',
        'u',
        'b',
        '_',
        'i',
        't',
        'e',
        'm',
        's',
        '"',
        ':',
    ] + spec_serialize_tasks(t.sub_items) + seq!['}']
}

/// The canonical JSON array for a task list, brackets included.
pub open spec fn spec_serialize_tasks(vs: Seq<TaskView>) -> Seq<char>
    decreases vs, 1int,
{
    seq!['['] + spec_serialize_tasks_inner(vs) + seq![']']
}

/// The elements of the array, separated by commas.
pub open spec fn spec_serialize_tasks_inner(vs: Seq<TaskView>) -> Seq<char>
    decreases vs, 0int,
{
    if vs.len() == 0 {
        Seq::empty()
    } else if vs.len() == 1 {
        spec_serialize_task(vs[0])
    } else {
        spec_serialize_task(vs[0]) + seq![','] + spec_serialize_tasks_inner(
            vs.subrange(1, vs.len() as int),
        )
    }
}

/// The lowercase hexadecimal digit with value `n`.
fn hex_char(n: u8) -> (r: char)
    requires
        n < 16,
    ensures
        r == spec_hex_char(n as int),
{
    if n < 10 {
        (48u8 + n) as char
    } else {
        (97u8 + (n - 10)) as char
    }
}

/// Appends the canonical escape of one character.
fn push_escaped_char(c: char, out: &mut Vec<char>)
    ensures
        final(out)@ == old(out)@ + spec_escape_char(c),
{
    if c == '"' {
        out.push('\\');
        out.push('"');
    } else if c == '\\' {
        out.push('\\');
        out.push('\\');
    } else if c == '\u{8}' {
        out.push('\\');
        out.push('b');
    } else if c == '\t' {
        out.push('\\');
        out.push('t');
    } else if c == '\n' {
        out.push('\\');
        out.push('n');
    } else if c == '\u{c}' {
        out.push('\\');
        out.push('f');
    } else if c == '\r' {
        out.push('\\');
        out.push('r');
    } else if (c as u32) < 32 {
        let n = c as u32;
        out.push('\\');
        out.push('u');
        out.push('0');
        out.push('0');
        out.push(hex_char((n / 16) as u8));
        out.push(hex_char((n % 16) as u8));
    } else {
        out.push(c);
    }
    proof {
        assert(out@ =~= old(out)@ + spec_escape_char(c));
    }
}

/// Escaping a string one character longer appends that character's escape.
proof fn lemma_escape_string_snoc(s: Seq<char>, c: char)
    ensures
        spec_escape_string(s.push(c)) == spec_escape_string(s) + spec_escape_char(c),
    decreases s.len(),
{
    let e = s.push(c);
    assert(e.len() == s.len() + 1);
    if s.len() == 0 {
        assert(e[0] == c);
        assert(e.subrange(1, e.len() as int) =~= Seq::<char>::empty());
        assert(spec_escape_string(Seq::<char>::empty()) == Seq::<char>::empty());
        assert(s =~= Seq::<char>::empty());
        assert(spec_escape_string(s.push(c)) =~= spec_escape_string(s) + spec_escape_char(c));
    } else {
        lemma_escape_string_snoc(s.subrange(1, s.len() as int), c);
        assert(e[0] == s[0]);
        assert(e.subrange(1, e.len() as int) =~= s.subrange(1, s.len() as int).push(c));
        assert(spec_escape_string(s.push(c)) =~= spec_escape_string(s) + spec_escape_char(c));
    }
}

/// Appends the canonical string literal for `s`, quotes included.
fn push_string_lit(s: &str, out: &mut Vec<char>)
    ensures
        final(out)@ == old(out)@ + spec_string_lit(s@),
{
    out.push('"');
    let n = s.unicode_len();
    let mut k: usize = 0;
    while k < n
        invariant
            n == s@.len(),
            k <= n,
            out@ == old(out)@ + seq!['"'] + spec_escape_string(s@.subrange(0, k as int)),
        decreases n - k,
    {
        let c = s.get_char(k);
        proof {
            lemma_escape_string_snoc(s@.subrange(0, k as int), c);
            assert(s@.subrange(0, k as int).push(c) =~= s@.subrange(0, k as int + 1));
        }
        push_escaped_char(c, out);
        k = k + 1;
    }
    out.push('"');
    proof {
        assert(s@.subrange(0, n as int) =~= s@);
        assert(out@ =~= old(out)@ + spec_string_lit(s@));
    }
}

/// One serialized element more, at the end of the array body.
proof fn lemma_tasks_inner_snoc(vs: Seq<TaskView>, v: TaskView)
    ensures
        vs.len() == 0 ==> spec_serialize_tasks_inner(vs.push(v)) == spec_serialize_task(v),
        vs.len() > 0 ==> spec_serialize_tasks_inner(vs.push(v)) == spec_serialize_tasks_inner(vs)
            + seq![','] + spec_serialize_task(v),
    decreases vs.len(),
{
    let e = vs.push(v);
    if vs.len() == 0 {
        assert(e.len() == 1);
        assert(e[0] == v);
    } else {
        lemma_tasks_inner_snoc(vs.subrange(1, vs.len() as int), v);
        assert(e[0] == vs[0]);
        assert(e.subrange(1, e.len() as int) =~= vs.subrange(1, vs.len() as int).push(v));
        if vs.len() == 1 {
            assert(vs.subrange(1, vs.len() as int).len() == 0);
            assert(spec_serialize_tasks_inner(e) =~= spec_serialize_tasks_inner(vs) + seq![',']
                + spec_serialize_task(v));
        } else {
            assert(spec_serialize_tasks_inner(e) =~= spec_serialize_tasks_inner(vs) + seq![',']
                + spec_serialize_task(v));
        }
    }
}

/// Appends `"title":` preceded by the opening brace.
fn push_title_key(out: &mut Vec<char>)
    ensures
        final(out)@ == old(out)@ + seq!['{', '"', 't', 'i', 't', 'l', 'e', '"', ':'],
{
    out.push('{');
    out.push('"');
    out.push('t');
    out.push('i');
    out.push('t');
    out.push('l');
    out.push('e');
    out.push('"');
    out.push(':');
    proof {
        assert(out@ =~= old(out)@ + seq!['{', '"', 't', 'i', 't', 'l', 'e', '"', ':']);
    }
}

/// Appends `,"completed":`.
fn push_completed_key(out: &mut Vec<char>)
    ensures
        final(out)@ == old(out)@ + seq![
            ',', '"', 'c', 'o', 'm', 'p', 'l', 'e', 't', 'e', 'd', '"', ':',
        ],
{
    out.push(',');
    out.push('"');
    out.push('c');
    out.push('o');
    out.push('m');
    out.push('p');
    out.push('l');
    out.push('e');
    out.push('t');
    out.push('e');
    out.push('d');
    out.push('"');
    out.push(':');
    proof {
        assert(out@ =~= old(out)@ + seq![
            ',', '"', 'c', 'o', 'm', 'p', 'l', 'e', 't', 'e', 'd', '"', ':',
        ]);
    }
}

/// Appends `,"sub_items":`.
fn push_sub_items_key(out: &mut Vec<char>)
    ensures
        final(out)@ == old(out)@ + seq![
            ',', '"', 's', 'u', 'b', '_', 'i', 't', 'e', 'm', 's', '"', ':',
        ],
{
    out.push(',');
    out.push('"');
    out.push('s');
    out.push('u');
    out.push('b');
    out.push('_');
    out.push('i');
    out.push('t');
    out.push('e');
    out.push('m');
    out.push('s');
    out.push('"');
    out.push(':');
    proof {
        assert(out@ =~= old(out)@ + seq![
            ',', '"', 's', 'u', 'b', '_', 'i', 't', 'e', 'm', 's', '"', ':',
        ]);
    }
}

/// Appends a JSON boolean literal.
fn push_bool_lit(b: bool, out: &mut Vec<char>)
    ensures
        final(out)@ == old(out)@ + spec_bool_lit(b),
{
    if b {
        out.push('t');
        out.push('r');
        out.push('u');
        out.push('e');
    } else {
        out.push('f');
        out.push('a');
        out.push('l');
        out.push('s');
        out.push('e');
    }
    proof {
        assert(out@ =~= old(out)@ + spec_bool_lit(b));
    }
}

/// Appends the canonical object for one task.
#[verifier::rlimit(30)]
fn serialize_task_into(t: &TodoItem, out: &mut Vec<char>)
    ensures
        final(out)@ == old(out)@ + spec_serialize_task(task_view(*t)),
    decreases *t, 0int,
{
    let ghost g0 = out@;
    push_title_key(out);
    push_string_lit(t.title.as_str(), out);
    push_completed_key(out);
    push_bool_lit(t.completed, out);
    push_sub_items_key(out);
    serialize_tasks_into(&t.sub_items, out);
    out.push('}');
    proof {
        assert(task_view(*t).sub_items =~= tasks_view(t.sub_items@));
        assert(out@ =~= g0 + spec_serialize_task(task_view(*t)));
    }
}

/// Appends the canonical array for a task list.
fn serialize_tasks_into(items: &Vec<TodoItem>, out: &mut Vec<char>)
    ensures
        final(out)@ == old(out)@ + spec_serialize_tasks(tasks_view(items@)),
    decreases *items, 1int,
{
    let ghost vs = tasks_view(items@);
    out.push('[');
    let n = items.len();
    let mut i: usize = 0;
    while i < n
        invariant
            n == items@.len(),
            i <= n,
            vs == tasks_view(items@),
            vs.len() == n,
            out@ == old(out)@ + seq!['['] + spec_serialize_tasks_inner(vs.subrange(0, i as int)),
        decreases n - i,
    {
        if i > 0 {
            out.push(',');
        }
        proof {
            assert(decreases_to!(*items => items@[i as int]));
        }
        serialize_task_into(&items[i], out);
        proof {
            lemma_tasks_inner_snoc(vs.subrange(0, i as int), vs[i as int]);
            assert(vs.subrange(0, i as int).push(vs[i as int]) =~= vs.subrange(0, i as int + 1));
            assert(out@ =~= old(out)@ + seq!['['] + spec_serialize_tasks_inner(
                vs.subrange(0, i as int + 1),
            ));
        }
        i = i + 1;
    }
    out.push(']');
    proof {
        assert(vs.subrange(0, n as int) =~= vs);
        assert(out@ =~= old(out)@ + spec_serialize_tasks(vs));
    }
}

/// The canonical JSON form of a task list, as characters.
pub(crate) fn serialize_items(items: &Vec<TodoItem>) -> (r: Vec<char>)
    ensures
        r@ == spec_serialize_tasks(tasks_view(items@)),
{
    let mut out: Vec<char> = Vec::new();
    serialize_tasks_into(items, &mut out);
    out
}


/// Does `s` begin with `p`?
pub open spec fn has_prefix(s: Seq<char>, p: Seq<char>) -> bool {
    p.len() <= s.len() && s.subrange(0, p.len() as int) == p
}

/// The value of a lowercase hexadecimal digit, or a negative number.
pub open spec fn spec_hex_val(c: char) -> int {
    if c == '0' {
        0
    } else if c == '1' {
        1
    } else if c == '2' {
        2
    } else if c == '3' {
        3
    } else if c == '4' {
        4
    } else if c == '5' {
        5
    } else if c == '6' {
        6
    } else if c == '7' {
        7
    } else if c == '8' {
        8
    } else if c == '9' {
        9
    } else if c == 'a' {
        10
    } else if c == 'b' {
        11
    } else if c == 'c' {
        12
    } else if c == 'd' {
        13
    } else if c == 'e' {
        14
    } else if c == 'f' {
        15
    } else {
        -1
    }
}

/// Reads one canonical escape sequence at the head of `s` (the backslash
/// included): the character it denotes and how many characters it spans.
pub open spec fn spec_parse_escape(s: Seq<char>) -> Option<(char, int)> {
    if s.len() < 2 || s[0] != '\\' {
        None
    } else if s[1] == '"' {
        Some(('"', 2))
    } else if s[1] == '\\' {
        Some(('\\', 2))
    } else if s[1] == 'b' {
        Some(('\u{8}', 2))
    } else if s[1] == 't' {
        Some(('\t', 2))
    } else if s[1] == 'n' {
        Some(('\n', 2))
    } else if s[1] == 'f' {
        Some(('\u{c}', 2))
    } else if s[1] == 'r' {
        Some(('\r', 2))
    } else if s[1] == 'u' && s.len() >= 6 && s[2] == '0' && s[3] == '0' && spec_hex_val(s[4]) >= 0
        && spec_hex_val(s[5]) >= 0 {
        let v = 16 * spec_hex_val(s[4]) + spec_hex_val(s[5]);
        if v < 32 && v != 8 && v != 9 && v != 10 && v != 12 && v != 13 {
            Some((((v as u8) as char), 6))
        } else {
            None
        }
    } else {
        None
    }
}

/// Reads the body of a canonical string literal up to and over its closing
/// quote: the decoded characters and the remaining input.
pub open spec fn spec_parse_str_inner(s: Seq<char>) -> Option<(Seq<char>, Seq<char>)>
    decreases s.len(),
{
    if s.len() == 0 {
        None
    } else if s[0] == '"' {
        Some((Seq::empty(), s.subrange(1, s.len() as int)))
    } else if s[0] == '\\' {
        match spec_parse_escape(s) {
            Some((c, k)) => if 1 <= k <= s.len() {
                match spec_parse_str_inner(s.subrange(k, s.len() as int)) {
                    Some((t, r)) => Some((seq![c] + t, r)),
                    None => None,
                }
            } else {
                None
            },
            None => None,
        }
    } else if (s[0] as u32) >= 32 {
        match spec_parse_str_inner(s.subrange(1, s.len() as int)) {
            Some((t, r)) => Some((seq![s[0]] + t, r)),
            None => None,
        }
    } else {
        None
    }
}

/// Reads a JSON boolean literal: its value and the remaining input.
pub open spec fn spec_parse_bool(s: Seq<char>) -> Option<(bool, Seq<char>)> {
    if has_prefix(s, spec_bool_lit(true)) {
        Some((true, s.subrange(4, s.len() as int)))
    } else if has_prefix(s, spec_bool_lit(false)) {
        Some((false, s.subrange(5, s.len() as int)))
    } else {
        None
    }
}

/// Reads one canonical task object: its model and the remaining input.
pub open spec fn spec_parse_task(s: Seq<char>) -> Option<(TaskView, Seq<char>)>
    decreases s.len(),
{
    if has_prefix(s, seq!['{', '"', 't', 'i', 't', 'l', 'e', '"', ':', '"']) {
        match spec_parse_str_inner(s.subrange(10, s.len() as int)) {
            Some((title, s2)) => if has_prefix(s2, seq![
                ',',
                '"',
                'c',
                'o',
                'm',
                'p',
                'l',
                'e',
                't',
                'e',
                'd',
                '"',
                ':',
            ]) {
                match spec_parse_bool(s2.subrange(13, s2.len() as int)) {
                    Some((b, s4)) => if has_prefix(s4, seq![
                        ',',
                        '"',
                        's',
                        'u',
                        'b',
                        '_',
                        'i',
                        't',
                        'e',
                        'm',
                        's',
                        '"',
                        ':',
                    ]) {
                        let s5 = s4.subrange(13, s4.len() as int);
                        if s5.len() < s.len() {
                            match spec_parse_tasks(s5) {
                                Some((subs, s6)) => if has_prefix(s6, seq!['}']) {
                                    Some(
                                        (
                                            TaskView { title, completed: b, sub_items: subs },
                                            s6.subrange(1, s6.len() as int),
                                        ),
                                    )
                                } else {
                                    None
                                },
                                None => None,
                            }
                        } else {
                            None
                        }
                    } else {
                        None
                    },
                    None => None,
                }
            } else {
                None
            },
            None => None,
        }
    } else {
        None
    }
}

/// Reads a canonical task array: the models and the remaining input.
pub open spec fn spec_parse_tasks(s: Seq<char>) -> Option<(Seq<TaskView>, Seq<char>)>
    decreases s.len(),
{
    if has_prefix(s, seq!['[', ']']) {
        Some((Seq::empty(), s.subrange(2, s.len() as int)))
    } else if has_prefix(s, seq!['[']) {
        match spec_parse_task(s.subrange(1, s.len() as int)) {
            Some((v, s2)) => if s2.len() < s.len() {
                match spec_parse_tasks_rest(s2) {
                    Some((vs, s3)) => Some((seq![v] + vs, s3)),
                    None => None,
                }
            } else {
                None
            },
            None => None,
        }
    } else {
        None
    }
}

/// Reads the tail of a task array after its first element: either the
/// closing bracket, or a comma and a further element, repeatedly.
pub open spec fn spec_parse_tasks_rest(s: Seq<char>) -> Option<(Seq<TaskView>, Seq<char>)>
    decreases s.len(),
{
    if has_prefix(s, seq![']']) {
        Some((Seq::empty(), s.subrange(1, s.len() as int)))
    } else if has_prefix(s, seq![',']) {
        match spec_parse_task(s.subrange(1, s.len() as int)) {
            Some((v, s2)) => if s2.len() < s.len() {
                match spec_parse_tasks_rest(s2) {
                    Some((vs, s3)) => Some((seq![v] + vs, s3)),
                    None => None,
                }
            } else {
                None
            },
            None => None,
        }
    } else {
        None
    }
}

/// Reads a whole input as a canonical task array, demanding that nothing
/// follow it.
pub open spec fn spec_parse_items(s: Seq<char>) -> Option<Seq<TaskView>> {
    match spec_parse_tasks(s) {
        Some((vs, rest)) => if rest.len() == 0 {
            Some(vs)
        } else {
            None
        },
        None => None,
    }
}

/// Splitting a concatenation at the length of its first part.
proof fn lemma_split_concat(a: Seq<char>, b: Seq<char>)
    ensures
        has_prefix(a + b, a),
        (a + b).subrange(a.len() as int, (a + b).len() as int) == b,
{
    assert((a + b).subrange(0, a.len() as int) =~= a);
    assert((a + b).subrange(a.len() as int, (a + b).len() as int) =~= b);
}

/// Reading a hexadecimal digit back gives the value it was written from.
proof fn lemma_hex_round_trip(v: int)
    requires
        0 <= v < 16,
    ensures
        spec_hex_val(spec_hex_char(v)) == v,
{
}

/// Reading an escape sequence back gives the character it was written from.
proof fn lemma_parse_escape_of_escape(c: char, rest: Seq<char>)
    requires
        c == '"' || c == '\\' || (c as u32) < 32,
    ensures
        spec_parse_escape(spec_escape_char(c) + rest) == Some(
            (c, spec_escape_char(c).len() as int),
        ),
{
    let e = spec_escape_char(c);
    let s = e + rest;
    if c == '"' || c == '\\' || c == '\u{8}' || c == '\t' || c == '\n' || c == '\u{c}' || c
        == '\r' {
        assert(s[0] == e[0] && s[1] == e[1]);
    } else {
        let v = (c as u32) as int;
        assert(v < 32 && v != 8 && v != 9 && v != 10 && v != 12 && v != 13);
        assert(e === seq!['\\', 'u', '0', '0', spec_hex_char(v / 16), spec_hex_char(v % 16)]);
        assert(s[0] == e[0] && s[1] == e[1] && s[2] == e[2] && s[3] == e[3] && s[4] == e[4] && s[5]
            == e[5]);
        lemma_hex_round_trip(v / 16);
        lemma_hex_round_trip(v % 16);
        assert(16 * spec_hex_val(s[4]) + spec_hex_val(s[5]) == v);
        assert(((v as u8) as char) as u32 == c as u32);
        assert((v as u8) as char == c);
    }
}

/// Reading a string body back gives the characters it was written from.
proof fn lemma_parse_str_of_escape(t: Seq<char>, rest: Seq<char>)
    ensures
        spec_parse_str_inner(spec_escape_string(t) + (seq!['"'] + rest)) == Some((t, rest)),
    decreases t.len(),
{
    let s = spec_escape_string(t) + (seq!['"'] + rest);
    if t.len() == 0 {
        assert(s =~= seq!['"'] + rest);
        assert(s[0] == '"');
        assert(s.subrange(1, s.len() as int) =~= rest);
    } else {
        let c = t[0];
        let t1 = t.subrange(1, t.len() as int);
        let s_next = spec_escape_string(t1) + (seq!['"'] + rest);
        assert(s =~= spec_escape_char(c) + s_next);
        lemma_parse_str_of_escape(t1, rest);
        if c == '"' || c == '\\' || (c as u32) < 32 {
            lemma_parse_escape_of_escape(c, s_next);
            let k = spec_escape_char(c).len() as int;
            assert(spec_escape_char(c)[0] == '\\');
            assert(s[0] == '\\');
            assert(spec_parse_escape(s) == Some((c, k)));
            assert(1 <= k <= s.len());
            lemma_split_concat(spec_escape_char(c), s_next);
            assert(s.subrange(k, s.len() as int) == s_next);
            assert(spec_parse_str_inner(s) == Some((seq![c] + t1, rest)));
        } else {
            assert(spec_escape_char(c) =~= seq![c]);
            assert(s[0] == c);
            assert((s[0] as u32) >= 32);
            assert(s.subrange(1, s.len() as int) =~= s_next);
            assert(spec_parse_str_inner(s) == Some((seq![c] + t1, rest)));
        }
        assert(seq![c] + t1 =~= t);
    }
}

/// Reading a boolean literal back gives the value it was written from.
proof fn lemma_parse_bool_of_lit(b: bool, rest: Seq<char>)
    ensures
        spec_parse_bool(spec_bool_lit(b) + rest) == Some((b, rest)),
{
    let s = spec_bool_lit(b) + rest;
    lemma_split_concat(spec_bool_lit(b), rest);
    if b {
        assert(s.subrange(4, s.len() as int) == rest);
    } else {
        assert(s[0] == 'f');
        if has_prefix(s, spec_bool_lit(true)) {
            assert(s.subrange(0, 4)[0] == s[0]);
            assert(false);
        }
        assert(s.subrange(5, s.len() as int) == rest);
    }
}

/// The canonical text that follows a task array's first element: for each
/// further element a comma and its object, then the closing bracket.
spec fn spec_tasks_rest_lit(vs: Seq<TaskView>) -> Seq<char>
    decreases vs,
{
    if vs.len() == 0 {
        seq![']']
    } else {
        seq![','] + spec_serialize_task(vs[0]) + spec_tasks_rest_lit(
            vs.subrange(1, vs.len() as int),
        )
    }
}

/// The array body plus the closing bracket, split at the first element.
proof fn lemma_inner_bracket(vs: Seq<TaskView>)
    requires
        vs.len() > 0,
    ensures
        spec_serialize_tasks_inner(vs) + seq![']'] == spec_serialize_task(vs[0])
            + spec_tasks_rest_lit(vs.subrange(1, vs.len() as int)),
    decreases vs.len(),
{
    let vs1 = vs.subrange(1, vs.len() as int);
    if vs.len() == 1 {
        assert(vs1.len() == 0);
        assert(spec_serialize_tasks_inner(vs) + seq![']'] =~= spec_serialize_task(vs[0])
            + spec_tasks_rest_lit(vs1));
    } else {
        lemma_inner_bracket(vs1);
        let a = spec_serialize_task(vs[0]);
        let m = spec_serialize_tasks_inner(vs1);
        let b = spec_tasks_rest_lit(vs1.subrange(1, vs1.len() as int));
        assert(spec_serialize_tasks_inner(vs) == a + seq![','] + m);
        assert(m + seq![']'] == spec_serialize_task(vs1[0]) + b);
        assert((a + seq![','] + m) + seq![']'] =~= a + seq![','] + (m + seq![']']));
        assert(a + seq![','] + (spec_serialize_task(vs1[0]) + b) =~= a + spec_tasks_rest_lit(vs1));
        assert(spec_serialize_tasks_inner(vs) + seq![']'] == a + spec_tasks_rest_lit(vs1));
    }
}

/// Reading a task object back gives the task it was written from.
#[verifier::rlimit(100)]
proof fn lemma_parse_task_of_serialize(v: TaskView, rest: Seq<char>)
    ensures
        spec_parse_task(spec_serialize_task(v) + rest) == Some((v, rest)),
    decreases v, 0int,
{
    let s = spec_serialize_task(v) + rest;
    let p10 = seq!['{', '"', 't', 'i', 't', 'l', 'e', '"', ':', '"'];
    let k2 = seq![',', '"', 'c', 'o', 'm', 'p', 'l', 'e', 't', 'e', 'd', '"', ':'];
    let k3 = seq![',', '"', 's', 'u', 'b', '_', 'i', 't', 'e', 'm', 's', '"', ':'];
    let tail2 = k2 + spec_bool_lit(v.completed) + k3 + spec_serialize_tasks(v.sub_items) + seq![
        '}',
    ] + rest;
    let k1 = seq!['{', '"', 't', 'i', 't', 'l', 'e', '"', ':'];
    let lit = spec_string_lit(v.title);
    assert(spec_serialize_task(v) == k1 + lit + k2 + spec_bool_lit(v.completed) + k3
        + spec_serialize_tasks(v.sub_items) + seq!['}']);
    assert(lit == seq!['"'] + spec_escape_string(v.title) + seq!['"']);
    assert(s =~= p10 + (spec_escape_string(v.title) + (seq!['"'] + tail2)));
    lemma_split_concat(p10, spec_escape_string(v.title) + (seq!['"'] + tail2));
    assert(has_prefix(s, p10));
    assert(s.subrange(10, s.len() as int) == spec_escape_string(v.title) + (seq!['"'] + tail2));
    lemma_parse_str_of_escape(v.title, tail2);
    let tail3 = spec_bool_lit(v.completed) + (k3 + spec_serialize_tasks(v.sub_items) + seq![
        '}',
    ] + rest);
    assert(tail2 =~= k2 + tail3);
    lemma_split_concat(k2, tail3);
    assert(has_prefix(tail2, k2));
    assert(tail2.subrange(13, tail2.len() as int) == tail3);
    let tail4 = k3 + spec_serialize_tasks(v.sub_items) + seq!['}'] + rest;
    assert(tail3 =~= spec_bool_lit(v.completed) + tail4);
    lemma_parse_bool_of_lit(v.completed, tail4);
    assert(spec_parse_bool(tail3) == Some((v.completed, tail4)));
    let tail5 = spec_serialize_tasks(v.sub_items) + (seq!['}'] + rest);
    assert(tail4 =~= k3 + tail5);
    lemma_split_concat(k3, tail5);
    assert(has_prefix(tail4, k3));
    assert(tail4.subrange(13, tail4.len() as int) == tail5);
    assert(tail5.len() < s.len());
    lemma_parse_tasks_of_serialize(v.sub_items, seq!['}'] + rest);
    assert(spec_parse_tasks(tail5) == Some((v.sub_items, seq!['}'] + rest)));
    let tail6 = seq!['}'] + rest;
    lemma_split_concat(seq!['}'], rest);
    assert(has_prefix(tail6, seq!['}']));
    assert(tail6.subrange(1, tail6.len() as int) == rest);
    assert(TaskView { title: v.title, completed: v.completed, sub_items: v.sub_items } == v);
    assert(spec_parse_task(s) == Some((v, rest)));
}

/// Reading a task array back gives the list it was written from.
proof fn lemma_parse_tasks_of_serialize(vs: Seq<TaskView>, rest: Seq<char>)
    ensures
        spec_parse_tasks(spec_serialize_tasks(vs) + rest) == Some((vs, rest)),
    decreases vs, 1int,
{
    let s = spec_serialize_tasks(vs) + rest;
    if vs.len() == 0 {
        assert(s =~= seq!['[', ']'] + rest);
        lemma_split_concat(seq!['[', ']'], rest);
        assert(has_prefix(s, seq!['[', ']']));
        assert(s.subrange(2, s.len() as int) == rest);
        assert(Seq::<TaskView>::empty() =~= vs);
    } else {
        let vs1 = vs.subrange(1, vs.len() as int);
        lemma_inner_bracket(vs);
        let s2in = spec_tasks_rest_lit(vs1) + rest;
        let a = spec_serialize_task(vs[0]);
        let m = spec_serialize_tasks_inner(vs);
        assert(s =~= seq!['['] + ((m + seq![']']) + rest));
        assert(m + seq![']'] == a + spec_tasks_rest_lit(vs1));
        assert((a + spec_tasks_rest_lit(vs1)) + rest =~= a + s2in);
        assert(s == seq!['['] + (a + s2in));
        // the second character is the opening brace of the first object
        assert(spec_serialize_task(vs[0])[0] == '{');
        assert(s[1] == '{');
        if has_prefix(s, seq!['[', ']']) {
            assert(s.subrange(0, 2)[1] == s[1]);
            assert(false);
        }
        lemma_split_concat(seq!['['], spec_serialize_task(vs[0]) + s2in);
        assert(has_prefix(s, seq!['[']));
        assert(s.subrange(1, s.len() as int) == spec_serialize_task(vs[0]) + s2in);
        lemma_parse_task_of_serialize(vs[0], s2in);
        assert(s2in.len() < s.len());
        lemma_parse_tasks_rest_of_lit(vs1, rest);
        assert(spec_parse_tasks_rest(s2in) == Some((vs1, rest)));
        assert(seq![vs[0]] + vs1 =~= vs);
    }
}

/// Reading an array tail back gives the elements it was written from.
proof fn lemma_parse_tasks_rest_of_lit(vs: Seq<TaskView>, rest: Seq<char>)
    ensures
        spec_parse_tasks_rest(spec_tasks_rest_lit(vs) + rest) == Some((vs, rest)),
    decreases vs, 0int,
{
    let s = spec_tasks_rest_lit(vs) + rest;
    if vs.len() == 0 {
        assert(s =~= seq![']'] + rest);
        lemma_split_concat(seq![']'], rest);
        assert(has_prefix(s, seq![']']));
        assert(s.subrange(1, s.len() as int) == rest);
        assert(Seq::<TaskView>::empty() =~= vs);
    } else {
        let vs1 = vs.subrange(1, vs.len() as int);
        let s2in = spec_tasks_rest_lit(vs1) + rest;
        assert(s =~= seq![','] + (spec_serialize_task(vs[0]) + s2in));
        assert(s[0] == ',');
        if has_prefix(s, seq![']']) {
            assert(s.subrange(0, 1)[0] == s[0]);
            assert(false);
        }
        lemma_split_concat(seq![','], spec_serialize_task(vs[0]) + s2in);
        assert(has_prefix(s, seq![',']));
        assert(s.subrange(1, s.len() as int) == spec_serialize_task(vs[0]) + s2in);
        lemma_parse_task_of_serialize(vs[0], s2in);
        assert(s2in.len() < s.len());
        lemma_parse_tasks_rest_of_lit(vs1, rest);
        assert(spec_parse_tasks_rest(s2in) == Some((vs1, rest)));
        assert(seq![vs[0]] + vs1 =~= vs);
    }
}

/// Law: reading the canonical form of any task list back yields exactly
/// that list, field for field and at every depth.
pub proof fn lemma_round_trip(vs: Seq<TaskView>)
    ensures
        spec_parse_items(spec_serialize_tasks(vs)) == Some(vs),
{
    lemma_parse_tasks_of_serialize(vs, Seq::empty());
    assert(spec_serialize_tasks(vs) + Seq::<char>::empty() =~= spec_serialize_tasks(vs));
}

/// Law: the canonical form is one-to-one; two task lists with the same
/// canonical form are the same list.
pub proof fn lemma_serialize_injective(vs1: Seq<TaskView>, vs2: Seq<TaskView>)
    requires
        spec_serialize_tasks(vs1) == spec_serialize_tasks(vs2),
    ensures
        vs1 == vs2,
{
    lemma_round_trip(vs1);
    lemma_round_trip(vs2);
}

/// The input from position `i` on.
pub(crate) open spec fn suffix_from(s: Seq<char>, i: int) -> Seq<char> {
    s.subrange(i, s.len() as int)
}

/// A later suffix is a subrange of an earlier one.
proof fn lemma_suffix_sub(s: Seq<char>, i: int, k: int)
    requires
        0 <= i,
        0 <= k,
        i + k <= s.len(),
    ensures
        suffix_from(s, i).subrange(k, suffix_from(s, i).len() as int) == suffix_from(s, i + k),
{
    assert(suffix_from(s, i).subrange(k, suffix_from(s, i).len() as int) =~= suffix_from(s, i + k));
}

/// Relies on `String::from_iter` over the characters of a vector: the
/// resulting string holds exactly those characters, in order.
#[verifier::external_body]
fn chars_to_string(cs: &Vec<char>) -> (r: String)
    ensures
        r@ == cs@,
{
    cs.iter().copied().collect()
}

/// Whether the input at position `i` continues with the characters of `p`.
fn starts_with_at(s: &Vec<char>, i: usize, p: &str) -> (r: bool)
    requires
        i <= s@.len(),
    ensures
        r == has_prefix(suffix_from(s@, i as int), p@),
{
    let m = p.unicode_len();
    let n = s.len();
    if n - i < m {
        return false;
    }
    let mut k: usize = 0;
    while k < m
        invariant
            i + m <= n,
            k <= m,
            m == p@.len(),
            n == s@.len(),
            forall|q: int| 0 <= q < k ==> s@[i + q] == p@[q],
        decreases m - k,
    {
        if s[i + k] != p.get_char(k) {
            proof {
                if has_prefix(suffix_from(s@, i as int), p@) {
                    assert(suffix_from(s@, i as int).subrange(0, m as int)[k as int]
                        == suffix_from(s@, i as int)[k as int]);
                    assert(false);
                }
            }
            return false;
        }
        k = k + 1;
    }
    proof {
        assert(suffix_from(s@, i as int).subrange(0, m as int) =~= p@);
    }
    true
}

/// The value of a lowercase hexadecimal digit, or a negative number.
fn hex_val(c: char) -> (r: i32)
    ensures
        r as int == spec_hex_val(c),
{
    let u = c as u32;
    if 48 <= u && u <= 57 {
        (u - 48) as i32
    } else if 97 <= u && u <= 102 {
        (u - 87) as i32
    } else {
        -1
    }
}

/// Reads one canonical escape sequence at position `i`.
fn parse_escape_at(s: &Vec<char>, i: usize) -> (r: Option<(char, usize)>)
    requires
        i <= s@.len(),
    ensures
        r is None ==> spec_parse_escape(suffix_from(s@, i as int)) is None,
        r matches Some((c, j)) ==> i < j <= s@.len() && spec_parse_escape(
            suffix_from(s@, i as int),
        ) == Some((c, j - i)),
{
    let ghost su = suffix_from(s@, i as int);
    let n = s.len();
    if n - i < 2 {
        return None;
    }
    proof {
        assert(su[0] == s@[i as int] && su[1] == s@[i as int + 1]);
    }
    if s[i] != '\\' {
        return None;
    }
    let c1 = s[i + 1];
    if c1 == '"' {
        Some(('"', i + 2))
    } else if c1 == '\\' {
        Some(('\\', i + 2))
    } else if c1 == 'b' {
        Some(('\u{8}', i + 2))
    } else if c1 == 't' {
        Some(('\t', i + 2))
    } else if c1 == 'n' {
        Some(('\n', i + 2))
    } else if c1 == 'f' {
        Some(('\u{c}', i + 2))
    } else if c1 == 'r' {
        Some(('\r', i + 2))
    } else if c1 == 'u' {
        if n - i < 6 {
            return None;
        }
        proof {
            assert(su[2] == s@[i as int + 2] && su[3] == s@[i as int + 3] && su[4] == s@[
                i as int + 4
            ] && su[5] == s@[i as int + 5]);
        }
        if s[i + 2] != '0' || s[i + 3] != '0' {
            return None;
        }
        let h = hex_val(s[i + 4]);
        let l = hex_val(s[i + 5]);
        if h < 0 || l < 0 {
            return None;
        }
        let v = 16 * h + l;
        if v < 32 && v != 8 && v != 9 && v != 10 && v != 12 && v != 13 {
            Some(((v as u8) as char, i + 6))
        } else {
            None
        }
    } else {
        None
    }
}

/// Reads a canonical string literal body from position `i` (just after the
/// opening quote) up to and over its closing quote.
fn parse_str_at(s: &Vec<char>, i: usize) -> (r: Option<(Vec<char>, usize)>)
    requires
        i <= s@.len(),
    ensures
        r is None ==> spec_parse_str_inner(suffix_from(s@, i as int)) is None,
        r matches Some((t, j)) ==> i < j <= s@.len() && spec_parse_str_inner(
            suffix_from(s@, i as int),
        ) == Some((t@, suffix_from(s@, j as int))),
{
    let ghost orig = spec_parse_str_inner(suffix_from(s@, i as int));
    let mut acc: Vec<char> = Vec::new();
    let mut k: usize = i;
    let n = s.len();
    loop
        invariant
            i <= k <= n,
            n == s@.len(),
            (match spec_parse_str_inner(suffix_from(s@, k as int)) {
                Some((t, r)) => orig == Some((acc@ + t, r)),
                None => orig is None,
            }),
            orig == spec_parse_str_inner(suffix_from(s@, i as int)),
        decreases n - k,
    {
        let ghost su = suffix_from(s@, k as int);
        if k >= n {
            proof {
                assert(su.len() == 0);
            }
            return None;
        }
        proof {
            assert(su[0] == s@[k as int]);
        }
        let c = s[k];
        if c == '"' {
            proof {
                lemma_suffix_sub(s@, k as int, 1);
                assert(spec_parse_str_inner(su) == Some(
                    (Seq::<char>::empty(), suffix_from(s@, k as int + 1)),
                ));
                assert(acc@ + Seq::<char>::empty() =~= acc@);
            }
            return Some((acc, k + 1));
        } else if c == '\\' {
            match parse_escape_at(s, k) {
                Some((ch, j2)) => {
                    let ghost acc0 = acc@;
                    acc.push(ch);
                    proof {
                        lemma_suffix_sub(s@, k as int, j2 - k);
                        assert(1 <= j2 - k <= su.len());
                        match spec_parse_str_inner(suffix_from(s@, j2 as int)) {
                            Some((t2, r2)) => {
                                assert(spec_parse_str_inner(su) == Some((seq![ch] + t2, r2)));
                                assert(acc0 + (seq![ch] + t2) =~= acc@ + t2);
                            },
                            None => {
                                assert(spec_parse_str_inner(su) is None);
                            },
                        }
                    }
                    k = j2;
                },
                None => {
                    proof {
                        assert(spec_parse_str_inner(su) is None);
                    }
                    return None;
                },
            }
        } else if (c as u32) >= 32 {
            let ghost acc0 = acc@;
            acc.push(c);
            proof {
                lemma_suffix_sub(s@, k as int, 1);
                match spec_parse_str_inner(suffix_from(s@, k as int + 1)) {
                    Some((t2, r2)) => {
                        assert(spec_parse_str_inner(su) == Some((seq![c] + t2, r2)));
                        assert(acc0 + (seq![c] + t2) =~= acc@ + t2);
                    },
                    None => {
                        assert(spec_parse_str_inner(su) is None);
                    },
                }
            }
            k = k + 1;
        } else {
            proof {
                assert(spec_parse_str_inner(su) is None);
            }
            return None;
        }
    }
}

/// Reads a JSON boolean literal at position `i`.
fn parse_bool_at(s: &Vec<char>, i: usize) -> (r: Option<(bool, usize)>)
    requires
        i <= s@.len(),
    ensures
        r is None ==> spec_parse_bool(suffix_from(s@, i as int)) is None,
        r matches Some((b, j)) ==> i < j <= s@.len() && spec_parse_bool(suffix_from(s@, i as int))
            == Some((b, suffix_from(s@, j as int))),
{
    let n = s.len();
    let t = starts_with_at(s, i, "true");
    let f = if t {
        false
    } else {
        starts_with_at(s, i, "false")
    };
    proof {
        reveal_strlit("true");
        reveal_strlit("false");
        assert("true"@ =~= spec_bool_lit(true));
        assert("false"@ =~= spec_bool_lit(false));
    }
    if t {
        proof {
            lemma_suffix_sub(s@, i as int, 4);
            assert(i + 4 <= n);
        }
        Some((true, i + 4))
    } else if f {
        proof {
            lemma_suffix_sub(s@, i as int, 5);
            assert(i + 5 <= n);
        }
        Some((false, i + 5))
    } else {
        None
    }
}

/// Reads one canonical task object at position `i`.
#[verifier::rlimit(60)]
fn parse_task_at(s: &Vec<char>, i: usize) -> (r: Option<(TodoItem, usize)>)
    requires
        i <= s@.len(),
    ensures
        r is None ==> spec_parse_task(suffix_from(s@, i as int)) is None,
        r matches Some((t, j)) ==> i < j <= s@.len() && spec_parse_task(suffix_from(s@, i as int))
            == Some((task_view(t), suffix_from(s@, j as int))),
    decreases s@.len() - i,
{
    let ghost su = suffix_from(s@, i as int);
    let ghost p10 = seq!['{', '"', 't', 'i', 't', 'l', 'e', '"', ':', '"'];
    let ghost k2 = seq![',', '"', 'c', 'o', 'm', 'p', 'l', 'e', 't', 'e', 'd', '"', ':'];
    let ghost k3 = seq![',', '"', 's', 'u', 'b', '_', 'i', 't', 'e', 'm', 's', '"', ':'];
    let n = s.len();
    let head = starts_with_at(s, i, "{\"title\":\"");
    proof {
        reveal_strlit("{\"title\":\"");
        assert("{\"title\":\""@ =~= p10);
    }
    if !head {
        return None;
    }
    proof {
        lemma_suffix_sub(s@, i as int, 10);
    }
    let sr = parse_str_at(s, i + 10);
    let (title_chars, j1) = match sr {
        Some(x) => x,
        None => {
            return None;
        },
    };
    let ghost s2 = suffix_from(s@, j1 as int);
    let ok2 = starts_with_at(s, j1, ",\"completed\":");
    proof {
        reveal_strlit(",\"completed\":");
        assert(",\"completed\":"@ =~= k2);
    }
    if !ok2 {
        return None;
    }
    proof {
        lemma_suffix_sub(s@, j1 as int, 13);
        assert(j1 + 13 <= n);
        assert(s2.subrange(13, s2.len() as int) == suffix_from(s@, j1 as int + 13));
    }
    let br = parse_bool_at(s, j1 + 13);
    let (b, j3) = match br {
        Some(x) => x,
        None => {
            return None;
        },
    };
    let ghost s4 = suffix_from(s@, j3 as int);
    let ok3 = starts_with_at(s, j3, ",\"sub_items\":");
    proof {
        reveal_strlit(",\"sub_items\":");
        assert(",\"sub_items\":"@ =~= k3);
    }
    if !ok3 {
        return None;
    }
    proof {
        lemma_suffix_sub(s@, j3 as int, 13);
        assert(j3 + 13 <= n);
        assert(s4.subrange(13, s4.len() as int) == suffix_from(s@, j3 as int + 13));
        assert(suffix_from(s@, j3 as int + 13).len() < su.len());
    }
    let tr = parse_tasks_at(s, j3 + 13);
    let (subs, j5) = match tr {
        Some(x) => x,
        None => {
            return None;
        },
    };
    let ghost s6 = suffix_from(s@, j5 as int);
    let tail = starts_with_at(s, j5, "}");
    proof {
        reveal_strlit("}");
        assert("}"@ =~= seq!['}']);
    }
    if !tail {
        return None;
    }
    proof {
        lemma_suffix_sub(s@, j5 as int, 1);
        assert(s6.subrange(1, s6.len() as int) == suffix_from(s@, j5 as int + 1));
    }
    let title = chars_to_string(&title_chars);
    let item = TodoItem { title, completed: b, sub_items: subs };
    proof {
        assert(task_view(item).sub_items =~= tasks_view(item.sub_items@));
        assert(task_view(item) =~= TaskView {
            title: title_chars@,
            completed: b,
            sub_items: tasks_view(subs@),
        });
        assert(spec_parse_task(su) == Some((task_view(item), suffix_from(s@, j5 as int + 1))));
    }
    Some((item, j5 + 1))
}

/// Reads a canonical task array at position `i`.
fn parse_tasks_at(s: &Vec<char>, i: usize) -> (r: Option<(Vec<TodoItem>, usize)>)
    requires
        i <= s@.len(),
    ensures
        r is None ==> spec_parse_tasks(suffix_from(s@, i as int)) is None,
        r matches Some((items, j)) ==> i < j <= s@.len() && spec_parse_tasks(
            suffix_from(s@, i as int),
        ) == Some((tasks_view(items@), suffix_from(s@, j as int))),
    decreases s@.len() - i,
{
    let ghost su = suffix_from(s@, i as int);
    let n = s.len();
    let empty_list = starts_with_at(s, i, "[]");
    let open_only = if empty_list {
        true
    } else {
        starts_with_at(s, i, "[")
    };
    proof {
        reveal_strlit("[]");
        reveal_strlit("[");
        assert("[]"@ =~= seq!['[', ']']);
        assert("["@ =~= seq!['[']);
    }
    if empty_list {
        proof {
            lemma_suffix_sub(s@, i as int, 2);
            assert(tasks_view(Seq::<TodoItem>::empty()) =~= Seq::<TaskView>::empty());
        }
        let items: Vec<TodoItem> = Vec::new();
        proof {
            assert(items@ =~= Seq::<TodoItem>::empty());
        }
        return Some((items, i + 2));
    }
    if !open_only {
        return None;
    }
    proof {
        lemma_suffix_sub(s@, i as int, 1);
    }
    match parse_task_at(s, i + 1) {
        Some((t0, j1)) => {
            let mut items: Vec<TodoItem> = Vec::new();
            items.push(t0);
            let ghost first = items@;
            match parse_tasks_rest_at(s, j1, &mut items) {
                Some(j2) => {
                    proof {
                        let p = spec_parse_tasks_rest(suffix_from(s@, j1 as int))->Some_0;
                        assert(tasks_view(items@) =~= seq![task_view(t0)] + p.0);
                        assert(spec_parse_tasks(su) == Some(
                            (tasks_view(items@), suffix_from(s@, j2 as int)),
                        ));
                    }
                    Some((items, j2))
                },
                None => None,
            }
        },
        None => None,
    }
}

/// Reads the tail of a task array at position `i`, appending each further
/// element to `items`.
fn parse_tasks_rest_at(s: &Vec<char>, i: usize, items: &mut Vec<TodoItem>) -> (r: Option<usize>)
    requires
        i <= s@.len(),
    ensures
        r is None ==> spec_parse_tasks_rest(suffix_from(s@, i as int)) is None,
        r matches Some(j) ==> i < j <= s@.len() && (spec_parse_tasks_rest(
            suffix_from(s@, i as int),
        ) matches Some(p) && p.1 == suffix_from(s@, j as int) && tasks_view(final(items)@)
            == tasks_view(old(items)@) + p.0),
    decreases s@.len() - i,
{
    let ghost su = suffix_from(s@, i as int);
    let n = s.len();
    let closing = starts_with_at(s, i, "]");
    let comma = if closing {
        false
    } else {
        starts_with_at(s, i, ",")
    };
    proof {
        reveal_strlit("]");
        reveal_strlit(",");
        assert("]"@ =~= seq![']']);
        assert(","@ =~= seq![',']);
    }
    if closing {
        proof {
            lemma_suffix_sub(s@, i as int, 1);
            assert(tasks_view(items@) + Seq::<TaskView>::empty() =~= tasks_view(items@));
        }
        return Some(i + 1);
    }
    if !comma {
        return None;
    }
    proof {
        lemma_suffix_sub(s@, i as int, 1);
    }
    match parse_task_at(s, i + 1) {
        Some((t, j1)) => {
            let ghost before = items@;
            items.push(t);
            proof {
                assert(tasks_view(items@) =~= tasks_view(before) + seq![task_view(t)]);
            }
            let ghost mid = items@;
            match parse_tasks_rest_at(s, j1, items) {
                Some(j2) => {
                    proof {
                        let p = spec_parse_tasks_rest(suffix_from(s@, j1 as int))->Some_0;
                        assert(tasks_view(items@) == tasks_view(mid) + p.0);
                        assert(tasks_view(before) + (seq![task_view(t)] + p.0) =~= (tasks_view(
                            before,
                        ) + seq![task_view(t)]) + p.0);
                        assert(spec_parse_tasks_rest(su) matches Some(q) && q.0 == seq![
                            task_view(t),
                        ] + p.0 && q.1 == p.1);
                    }
                    Some(j2)
                },
                None => None,
            }
        },
        None => None,
    }
}

/// Reads a whole character sequence as the canonical form of a task list.
pub(crate) fn parse_items(s: &Vec<char>) -> (r: Option<Vec<TodoItem>>)
    ensures
        r is None ==> spec_parse_items(s@) is None,
        r matches Some(items) ==> spec_parse_items(s@) == Some(tasks_view(items@)),
{
    proof {
        assert(suffix_from(s@, 0) =~= s@);
    }
    match parse_tasks_at(s, 0) {
        Some((items, j)) => {
            if j == s.len() {
                proof {
                    assert(suffix_from(s@, j as int).len() == 0);
                }
                Some(items)
            } else {
                proof {
                    assert(suffix_from(s@, j as int).len() != 0);
                }
                None
            }
        },
        None => None,
    }
}

/// Whether two character vectors hold the same characters in order.
pub(crate) fn chars_equal(a: &Vec<char>, b: &Vec<char>) -> (r: bool)
    ensures
        r == (a@ == b@),
{
    let n = a.len();
    if n != b.len() {
        return false;
    }
    let mut k: usize = 0;
    while k < n
        invariant
            k <= n,
            n == a@.len(),
            n == b@.len(),
            forall|q: int| 0 <= q < k ==> a@[q] == b@[q],
        decreases n - k,
    {
        if a[k] != b[k] {
            return false;
        }
        k = k + 1;
    }
    proof {
        assert(a@ =~= b@);
    }
    true
}

} // verus!
