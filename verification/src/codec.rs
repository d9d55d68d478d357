//! The persisted document: a pretty-printed JSON encoding of the store, with
//! a writer, a parser, and the proof that parsing a written document yields
//! the store it came from.

use vstd::prelude::*;
use vstd::string::StrSliceExecFns;
use crate::todo::{Priority, StoreV, Task, TaskV, TodoError, TodoList, empty_store};

verus! {

// ---------------------------------------------------------------------------
// Characters
// ---------------------------------------------------------------------------
/// The sixteen hexadecimal digits, lower case.
pub open spec fn hex_digit(n: int) -> char {
    if n == 0 {
        '0'
    } else if n == 1 {
        '1'
    } else if n == 2 {
        '2'
    } else if n == 3 {
        '3'
    } else if n == 4 {
        '4'
    } else if n == 5 {
        '5'
    } else if n == 6 {
        '6'
    } else if n == 7 {
        '7'
    } else if n == 8 {
        '8'
    } else if n == 9 {
        '9'
    } else if n == 10 {
        'a'
    } else if n == 11 {
        'b'
    } else if n == 12 {
        'c'
    } else if n == 13 {
        'd'
    } else if n == 14 {
        'e'
    } else {
        'f'
    }
}

pub open spec fn is_digit(c: char) -> bool {
    48 <= c as u32 <= 57
}

pub open spec fn digit_val(c: char) -> int {
    c as u32 - 48
}

pub open spec fn is_hex(c: char) -> bool {
    is_digit(c) || (97 <= c as u32 <= 102)
}

pub open spec fn hex_val(c: char) -> int {
    if is_digit(c) {
        digit_val(c)
    } else {
        c as u32 - 87
    }
}

// ---------------------------------------------------------------------------
// Emission: the document a store is written as
// ---------------------------------------------------------------------------
/// How one character appears inside a JSON string literal: quote and backslash
/// get a backslash, control characters get their short escape or a `\u00..`
/// form, everything else stands as itself.
pub open spec fn esc_char(c: char) -> Seq<char> {
    if c == '"' {
        seq!['\\', '"']
    } else if c == '\\' {
        seq!['\\', '\\']
    } else if c == '\u{8}' {
        seq!['\\', 'b']
    } else if c == '\t' {
        seq!['\\', 't']
    } else if c == '\n' {
        seq!['\\', 'n']
    } else if c == '\u{c}' {
        seq!['\\', 'f']
    } else if c == '\r' {
        seq!['\\', 'r']
    } else if (c as u32) < 0x20 {
        seq!['\\', 'u', '0', '0', hex_digit((c as u32 / 16) as int), hex_digit((c as u32 % 16) as int)]
    } else {
        seq![c]
    }
}

pub open spec fn esc_str(s: Seq<char>) -> Seq<char>
    decreases s.len(),
{
    if s.len() == 0 {
        Seq::empty()
    } else {
        esc_char(s[0]) + esc_str(s.drop_first())
    }
}

/// A JSON string literal: the escaped characters between quotes.
pub open spec fn quoted(s: Seq<char>) -> Seq<char> {
    seq!['"'] + esc_str(s) + seq!['"']
}

/// Decimal digits of `n`, most significant first, no leading zeros.
pub open spec fn dec_digits(n: nat) -> Seq<char>
    decreases n,
{
    if n < 10 {
        seq![hex_digit(n as int)]
    } else {
        dec_digits(n / 10) + seq![hex_digit((n % 10) as int)]
    }
}

pub open spec fn bool_chars(b: bool) -> Seq<char> {
    if b {
        "true"@
    } else {
        "false"@
    }
}

/// The tag a priority is written as.
pub open spec fn prio_chars(p: Priority) -> Seq<char> {
    match p {
        Priority::Low => "Low"@,
        Priority::Medium => "Medium"@,
        Priority::High => "High"@,
    }
}

/// One task object, indented for its place in the document.
pub open spec fn spec_task_json(t: TaskV) -> Seq<char> {
    "{\n      \"id\": "@ + dec_digits(t.id as nat) + ",\n      \"description\": "@ + quoted(
        t.description,
    ) + ",\n      \"completed\": "@ + bool_chars(t.completed) + ",\n      \"priority\": "@
        + quoted(prio_chars(t.priority)) + ",\n      \"created_at\": "@ + quoted(t.created_at)
        + "\n    }"@
}

/// Second and later array entries, then the closing bracket.
pub open spec fn spec_tasks_tail_json(ts: Seq<TaskV>) -> Seq<char>
    decreases ts.len(),
{
    if ts.len() == 0 {
        "\n  ]"@
    } else {
        ",\n    "@ + spec_task_json(ts[0]) + spec_tasks_tail_json(ts.drop_first())
    }
}

/// The whole task array.
pub open spec fn spec_tasks_json(ts: Seq<TaskV>) -> Seq<char> {
    if ts.len() == 0 {
        "[]"@
    } else {
        "[\n    "@ + spec_task_json(ts[0]) + spec_tasks_tail_json(ts.drop_first())
    }
}

/// The whole document a store is persisted as.
pub open spec fn spec_doc_json(s: StoreV) -> Seq<char> {
    "{\n  \"tasks\": "@ + spec_tasks_json(s.tasks) + ",\n  \"next_id\": "@ + dec_digits(
        s.next_id as nat,
    ) + "\n}"@
}

// ---------------------------------------------------------------------------
// Parsing: which documents are accepted, and as what
// ---------------------------------------------------------------------------
/// Expect the exact characters `p` at position `i`; the position after them.
pub open spec fn sp_lit(t: Seq<char>, i: int, p: Seq<char>) -> Option<int> {
    if 0 <= i && i + p.len() <= t.len() && t.subrange(i, i + p.len()) == p {
        Some(i + p.len())
    } else {
        None
    }
}

/// String-literal body from position `i` (the opening quote already behind):
/// the unescaped content collected onto `acc`, and the position after the
/// closing quote. `\u` escapes must name a scalar value below the surrogates
/// or above them and within four digits.
pub open spec fn sp_str_body(t: Seq<char>, i: int, acc: Seq<char>) -> Option<(Seq<char>, int)>
    decreases t.len() - i,
{
    if i < 0 || i >= t.len() {
        None
    } else {
        let c = t[i];
        if c == '"' {
            Some((acc, i + 1))
        } else if c == '\\' {
            if i + 1 >= t.len() {
                None
            } else {
                let e = t[i + 1];
                if e == '"' {
                    sp_str_body(t, i + 2, acc.push('"'))
                } else if e == '\\' {
                    sp_str_body(t, i + 2, acc.push('\\'))
                } else if e == '/' {
                    sp_str_body(t, i + 2, acc.push('/'))
                } else if e == 'b' {
                    sp_str_body(t, i + 2, acc.push('\u{8}'))
                } else if e == 'f' {
                    sp_str_body(t, i + 2, acc.push('\u{c}'))
                } else if e == 'n' {
                    sp_str_body(t, i + 2, acc.push('\n'))
                } else if e == 'r' {
                    sp_str_body(t, i + 2, acc.push('\r'))
                } else if e == 't' {
                    sp_str_body(t, i + 2, acc.push('\t'))
                } else if e == 'u' {
                    if i + 6 <= t.len() && is_hex(t[i + 2]) && is_hex(t[i + 3]) && is_hex(t[i + 4])
                        && is_hex(t[i + 5]) {
                        let v = hex_val(t[i + 2]) * 4096 + hex_val(t[i + 3]) * 256 + hex_val(
                            t[i + 4],
                        ) * 16 + hex_val(t[i + 5]);
                        if v < 0xD800 || v >= 0xE000 {
                            sp_str_body(t, i + 6, acc.push(v as char))
                        } else {
                            None
                        }
                    } else {
                        None
                    }
                } else {
                    None
                }
            }
        } else if (c as u32) < 0x20 {
            None
        } else {
            sp_str_body(t, i + 1, acc.push(c))
        }
    }
}

/// A whole string literal at position `i`, opening quote included.
pub open spec fn sp_string(t: Seq<char>, i: int) -> Option<(Seq<char>, int)> {
    if 0 <= i < t.len() && t[i] == '"' {
        sp_str_body(t, i + 1, Seq::empty())
    } else {
        None
    }
}

/// Consume decimal digits from `i`, extending the value `acc`; the value and
/// the position after the last digit.
pub open spec fn sp_digits(t: Seq<char>, i: int, acc: int) -> (int, int)
    decreases t.len() - i,
{
    if 0 <= i < t.len() && is_digit(t[i]) {
        sp_digits(t, i + 1, acc * 10 + digit_val(t[i]))
    } else {
        (acc, i)
    }
}

/// A nonnegative decimal number without leading zeros.
pub open spec fn sp_number(t: Seq<char>, i: int) -> Option<(int, int)> {
    if !(0 <= i < t.len() && is_digit(t[i])) {
        None
    } else if t[i] == '0' && i + 1 < t.len() && is_digit(t[i + 1]) {
        None
    } else {
        Some(sp_digits(t, i, 0))
    }
}

pub open spec fn sp_bool(t: Seq<char>, i: int) -> Option<(bool, int)> {
    match sp_lit(t, i, "true"@) {
        Some(j) => Some((true, j)),
        None => match sp_lit(t, i, "false"@) {
            Some(j) => Some((false, j)),
            None => None,
        },
    }
}

/// A priority tag: a string literal whose content is one of the three tags.
pub open spec fn sp_priority(t: Seq<char>, i: int) -> Option<(Priority, int)> {
    match sp_string(t, i) {
        None => None,
        Some((s, j)) => if s == "Low"@ {
            Some((Priority::Low, j))
        } else if s == "Medium"@ {
            Some((Priority::Medium, j))
        } else if s == "High"@ {
            Some((Priority::High, j))
        } else {
            None
        },
    }
}

/// One task object, in the exact field order and layout the writer uses.
/// The identifier must fit the machine's word.
pub open spec fn sp_task(t: Seq<char>, i: int) -> Option<(TaskV, int)> {
    match sp_lit(t, i, "{\n      \"id\": "@) {
        None => None,
        Some(j1) => match sp_number(t, j1) {
            None => None,
            Some((id, j2)) => if id > usize::MAX {
                None
            } else {
                match sp_lit(t, j2, ",\n      \"description\": "@) {
                    None => None,
                    Some(j3) => match sp_string(t, j3) {
                        None => None,
                        Some((desc, j4)) => match sp_lit(t, j4, ",\n      \"completed\": "@) {
                            None => None,
                            Some(j5) => match sp_bool(t, j5) {
                                None => None,
                                Some((done, j6)) => match sp_lit(
                                    t,
                                    j6,
                                    ",\n      \"priority\": "@,
                                ) {
                                    None => None,
                                    Some(j7) => match sp_priority(t, j7) {
                                        None => None,
                                        Some((prio, j8)) => match sp_lit(
                                            t,
                                            j8,
                                            ",\n      \"created_at\": "@,
                                        ) {
                                            None => None,
                                            Some(j9) => match sp_string(t, j9) {
                                                None => None,
                                                Some((at, j10)) => match sp_lit(
                                                    t,
                                                    j10,
                                                    "\n    }"@,
                                                ) {
                                                    None => None,
                                                    Some(j11) => Some(
                                                        (
                                                            TaskV {
                                                                id: id,
                                                                description: desc,
                                                                completed: done,
                                                                priority: prio,
                                                                created_at: at,
                                                            },
                                                            j11,
                                                        ),
                                                    ),
                                                },
                                            },
                                        },
                                    },
                                },
                            },
                        },
                    },
                }
            },
        },
    }
}

/// Array entries after the first, up to and including the closing bracket.
pub open spec fn sp_tasks_rest(t: Seq<char>, i: int, acc: Seq<TaskV>) -> Option<
    (Seq<TaskV>, int),
>
    decreases t.len() - i,
{
    match sp_lit(t, i, "\n  ]"@) {
        Some(j) => Some((acc, j)),
        None => match sp_lit(t, i, ",\n    "@) {
            None => None,
            Some(j) => match sp_task(t, j) {
                None => None,
                Some((tk, k)) => if i < k <= t.len() {
                    sp_tasks_rest(t, k, acc.push(tk))
                } else {
                    None
                },
            },
        },
    }
}

/// The whole task array.
pub open spec fn sp_tasks(t: Seq<char>, i: int) -> Option<(Seq<TaskV>, int)> {
    match sp_lit(t, i, "["@) {
        None => None,
        Some(j) => match sp_lit(t, j, "]"@) {
            Some(k) => Some((Seq::empty(), k)),
            None => match sp_lit(t, j, "\n    "@) {
                None => None,
                Some(j2) => match sp_task(t, j2) {
                    None => None,
                    Some((tk, j3)) => if j2 < j3 {
                        sp_tasks_rest(t, j3, seq![tk])
                    } else {
                        None
                    },
                },
            },
        },
    }
}

/// The whole document: the task array and the counter, which must fit the
/// machine's word, and nothing after the closing brace.
pub open spec fn sp_doc(t: Seq<char>) -> Option<StoreV> {
    match sp_lit(t, 0, "{\n  \"tasks\": "@) {
        None => None,
        Some(i) => match sp_tasks(t, i) {
            None => None,
            Some((tks, j)) => match sp_lit(t, j, ",\n  \"next_id\": "@) {
                None => None,
                Some(k) => match sp_number(t, k) {
                    None => None,
                    Some((n, m)) => if n > usize::MAX {
                        None
                    } else {
                        match sp_lit(t, m, "\n}"@) {
                            None => None,
                            Some(e) => if e == t.len() {
                                Some(StoreV { tasks: tks, next_id: n })
                            } else {
                                None
                            },
                        }
                    },
                },
            },
        },
    }
}

// ---------------------------------------------------------------------------
// Executable parser
// ---------------------------------------------------------------------------
/// Relies on char::from_u32: `Some` exactly for scalar values, that is
/// everything up to 0x10FFFF except the surrogate range.
pub assume_specification[ char::from_u32 ](v: u32) -> (r: Option<char>)
    ensures
        r == (if v < 0xD800 || (0xE000 <= v && v <= 0x10FFFF) {
            Some(v as char)
        } else {
            None::<char>
        }),
;

fn p_lit(t: &Vec<char>, i: usize, p: &str) -> (r: Option<usize>)
    ensures
        r is Some <==> sp_lit(t@, i as int, p@) is Some,
        r matches Some(j) ==> sp_lit(t@, i as int, p@) == Some(j as int) && j == i + p@.len()
            && j <= t@.len(),
{
    let m = p.unicode_len();
    if i > t.len() || m > t.len() - i {
        return None;
    }
    let mut k: usize = 0;
    while k < m
        invariant
            m == p@.len(),
            i + m <= t@.len(),
            t@.len() <= usize::MAX,
            k <= m,
            forall|q: int| 0 <= q < k ==> t@[i + q] == p@[q],
        decreases m - k,
    {
        if t[i + k] != p.get_char(k) {
            proof {
                assert(t@.subrange(i as int, i + m as int)[k as int] != p@[k as int]);
            }
            return None;
        }
        k += 1;
    }
    proof {
        assert(t@.subrange(i as int, i + m as int) =~= p@);
    }
    Some(i + m)
}

fn hex_val_e(c: char) -> (r: Option<u32>)
    ensures
        r is Some <==> is_hex(c),
        r matches Some(v) ==> v as int == hex_val(c) && v < 16,
{
    let u = c as u32;
    if 48 <= u && u <= 57 {
        Some(u - 48)
    } else if 97 <= u && u <= 102 {
        Some(u - 87)
    } else {
        None
    }
}

fn p_str_body(t: &Vec<char>, i: usize, acc: Vec<char>) -> (r: Option<(Vec<char>, usize)>)
    requires
        i <= t@.len(),
    ensures
        r is Some <==> sp_str_body(t@, i as int, acc@) is Some,
        r matches Some((s, j)) ==> sp_str_body(t@, i as int, acc@) == Some((s@, j as int)) && i < j
            <= t@.len(),
    decreases t@.len() - i,
{
    if i >= t.len() {
        return None;
    }
    let c = t[i];
    if c == '"' {
        Some((acc, i + 1))
    } else if c == '\\' {
        if t.len() - i < 2 {
            return None;
        }
        let e = t[i + 1];
        let mut a = acc;
        if e == '"' {
            a.push('"');
            p_str_body(t, i + 2, a)
        } else if e == '\\' {
            a.push('\\');
            p_str_body(t, i + 2, a)
        } else if e == '/' {
            a.push('/');
            p_str_body(t, i + 2, a)
        } else if e == 'b' {
            a.push('\u{8}');
            p_str_body(t, i + 2, a)
        } else if e == 'f' {
            a.push('\u{c}');
            p_str_body(t, i + 2, a)
        } else if e == 'n' {
            a.push('\n');
            p_str_body(t, i + 2, a)
        } else if e == 'r' {
            a.push('\r');
            p_str_body(t, i + 2, a)
        } else if e == 't' {
            a.push('\t');
            p_str_body(t, i + 2, a)
        } else if e == 'u' {
            if t.len() - i < 6 {
                return None;
            }
            let h1 = hex_val_e(t[i + 2]);
            let h2 = hex_val_e(t[i + 3]);
            let h3 = hex_val_e(t[i + 4]);
            let h4 = hex_val_e(t[i + 5]);
            match (h1, h2, h3, h4) {
                (Some(v1), Some(v2), Some(v3), Some(v4)) => {
                    let v: u32 = v1 * 4096 + v2 * 256 + v3 * 16 + v4;
                    if v < 0xD800 || v >= 0xE000 {
                        match char::from_u32(v) {
                            Some(ch) => {
                                a.push(ch);
                                p_str_body(t, i + 6, a)
                            },
                            None => {
                                proof {
                                    assert(false);
                                }
                                None
                            },
                        }
                    } else {
                        None
                    }
                },
                _ => None,
            }
        } else {
            None
        }
    } else if (c as u32) < 0x20 {
        None
    } else {
        let mut a = acc;
        a.push(c);
        p_str_body(t, i + 1, a)
    }
}

fn p_string(t: &Vec<char>, i: usize) -> (r: Option<(Vec<char>, usize)>)
    ensures
        r is Some <==> sp_string(t@, i as int) is Some,
        r matches Some((s, j)) ==> sp_string(t@, i as int) == Some((s@, j as int)) && i < j
            <= t@.len(),
{
    if i < t.len() && t[i] == '"' {
        p_str_body(t, i + 1, Vec::new())
    } else {
        None
    }
}

/// Every digit consumed only grows the accumulated value.
proof fn lemma_sp_digits_mono(t: Seq<char>, i: int, acc: int)
    requires
        acc >= 0,
    ensures
        sp_digits(t, i, acc).0 >= acc,
        sp_digits(t, i, acc).1 >= i,
    decreases t.len() - i,
{
    if 0 <= i < t.len() && is_digit(t[i]) {
        lemma_sp_digits_mono(t, i + 1, acc * 10 + digit_val(t[i]));
    }
}

fn p_digits(t: &Vec<char>, i: usize, acc: usize) -> (r: Option<(usize, usize)>)
    requires
        i <= t@.len(),
    ensures
        r is Some <==> sp_digits(t@, i as int, acc as int).0 <= usize::MAX,
        r matches Some(p) ==> sp_digits(t@, i as int, acc as int) == (p.0 as int, p.1 as int)
            && i <= p.1 <= t@.len(),
    decreases t@.len() - i,
{
    if i < t.len() {
        let c = t[i];
        let u = c as u32;
        if 48 <= u && u <= 57 {
            let d = (u - 48) as usize;
            let acc2 = match acc.checked_mul(10) {
                Some(m) => m.checked_add(d),
                None => None,
            };
            match acc2 {
                Some(a2) => {
                    return p_digits(t, i + 1, a2);
                },
                None => {
                    proof {
                        lemma_sp_digits_mono(t@, i as int + 1, acc * 10 + d);
                    }
                    return None;
                },
            }
        }
    }
    Some((acc, i))
}

fn p_number(t: &Vec<char>, i: usize) -> (r: Option<(usize, usize)>)
    requires
        i <= t@.len(),
    ensures
        r is Some <==> (sp_number(t@, i as int) matches Some(p) && p.0 <= usize::MAX),
        r matches Some(p) ==> sp_number(t@, i as int) == Some((p.0 as int, p.1 as int)) && i < p.1
            <= t@.len(),
{
    if !(i < t.len()) {
        return None;
    }
    let c = t[i];
    let u = c as u32;
    if !(48 <= u && u <= 57) {
        return None;
    }
    if c == '0' && i + 1 < t.len() {
        let c2 = t[i + 1];
        let u2 = c2 as u32;
        if 48 <= u2 && u2 <= 57 {
            return None;
        }
    }
    proof {
        lemma_sp_digits_mono(t@, i as int, 0);
    }
    let r = p_digits(t, i, 0);
    proof {
        lemma_sp_digits_mono(t@, i as int + 1, digit_val(t@[i as int]));
        assert(sp_digits(t@, i as int, 0).1 >= i + 1);
    }
    r
}

fn p_bool(t: &Vec<char>, i: usize) -> (r: Option<(bool, usize)>)
    ensures
        r is Some <==> sp_bool(t@, i as int) is Some,
        r matches Some((b, j)) ==> sp_bool(t@, i as int) == Some((b, j as int)) && i < j
            <= t@.len(),
{
    proof {
        reveal_strlit("true");
        reveal_strlit("false");
    }
    match p_lit(t, i, "true") {
        Some(j) => Some((true, j)),
        None => match p_lit(t, i, "false") {
            Some(j) => Some((false, j)),
            None => None,
        },
    }
}

/// Whether the characters of `v` are exactly those of `p`.
fn eq_lit(v: &Vec<char>, p: &str) -> (r: bool)
    ensures
        r == (v@ == p@),
{
    let m = p.unicode_len();
    if v.len() != m {
        return false;
    }
    let mut k: usize = 0;
    while k < m
        invariant
            m == p@.len(),
            v@.len() == m,
            k <= m,
            forall|q: int| 0 <= q < k ==> v@[q] == p@[q],
        decreases m - k,
    {
        if v[k] != p.get_char(k) {
            return false;
        }
        k += 1;
    }
    proof {
        assert(v@ =~= p@);
    }
    true
}

fn p_priority(t: &Vec<char>, i: usize) -> (r: Option<(Priority, usize)>)
    ensures
        r is Some <==> sp_priority(t@, i as int) is Some,
        r matches Some((p, j)) ==> sp_priority(t@, i as int) == Some((p, j as int)) && i < j
            <= t@.len(),
{
    match p_string(t, i) {
        None => None,
        Some((s, j)) => {
            if eq_lit(&s, "Low") {
                Some((Priority::Low, j))
            } else if eq_lit(&s, "Medium") {
                Some((Priority::Medium, j))
            } else if eq_lit(&s, "High") {
                Some((Priority::High, j))
            } else {
                None
            }
        },
    }
}

fn p_task(t: &Vec<char>, i: usize) -> (r: Option<(Task, usize)>)
    ensures
        r is Some <==> sp_task(t@, i as int) is Some,
        r matches Some((tk, j)) ==> sp_task(t@, i as int) == Some((tk@, j as int)) && i < j
            <= t@.len(),
{
    let j1 = match p_lit(t, i, "{\n      \"id\": ") {
        None => {
            return None;
        },
        Some(j) => j,
    };
    let (id, j2) = match p_number(t, j1) {
        None => {
            return None;
        },
        Some(p) => p,
    };
    let j3 = match p_lit(t, j2, ",\n      \"description\": ") {
        None => {
            return None;
        },
        Some(j) => j,
    };
    let (desc, j4) = match p_string(t, j3) {
        None => {
            return None;
        },
        Some(p) => p,
    };
    let j5 = match p_lit(t, j4, ",\n      \"completed\": ") {
        None => {
            return None;
        },
        Some(j) => j,
    };
    let (done, j6) = match p_bool(t, j5) {
        None => {
            return None;
        },
        Some(p) => p,
    };
    let j7 = match p_lit(t, j6, ",\n      \"priority\": ") {
        None => {
            return None;
        },
        Some(j) => j,
    };
    let (prio, j8) = match p_priority(t, j7) {
        None => {
            return None;
        },
        Some(p) => p,
    };
    let j9 = match p_lit(t, j8, ",\n      \"created_at\": ") {
        None => {
            return None;
        },
        Some(j) => j,
    };
    let (at, j10) = match p_string(t, j9) {
        None => {
            return None;
        },
        Some(p) => p,
    };
    let j11 = match p_lit(t, j10, "\n    }") {
        None => {
            return None;
        },
        Some(j) => j,
    };
    let task = Task {
        id,
        description: chars_to_string(&desc),
        completed: done,
        priority: prio,
        created_at: chars_to_string(&at),
    };
    Some((task, j11))
}

fn p_tasks_rest(t: &Vec<char>, i: usize, acc: Vec<Task>) -> (r: Option<(Vec<Task>, usize)>)
    requires
        i <= t@.len(),
    ensures
        r is Some <==> sp_tasks_rest(t@, i as int, acc@.map_values(|x: Task| x@)) is Some,
        r matches Some((ts, j)) ==> sp_tasks_rest(t@, i as int, acc@.map_values(|x: Task| x@))
            == Some((ts@.map_values(|x: Task| x@), j as int)) && j <= t@.len(),
    decreases t@.len() - i,
{
    let ghost sacc = acc@.map_values(|x: Task| x@);
    match p_lit(t, i, "\n  ]") {
        Some(j) => Some((acc, j)),
        None => {
            let j = match p_lit(t, i, ",\n    ") {
                None => {
                    return None;
                },
                Some(j) => j,
            };
            let (tk, k) = match p_task(t, j) {
                None => {
                    return None;
                },
                Some(p) => p,
            };
            let mut a = acc;
            a.push(tk);
            proof {
                assert(a@.map_values(|x: Task| x@) =~= sacc.push(tk@));
            }
            p_tasks_rest(t, k, a)
        },
    }
}

fn p_tasks(t: &Vec<char>, i: usize) -> (r: Option<(Vec<Task>, usize)>)
    ensures
        r is Some <==> sp_tasks(t@, i as int) is Some,
        r matches Some((ts, j)) ==> sp_tasks(t@, i as int) == Some(
            (ts@.map_values(|x: Task| x@), j as int),
        ) && j <= t@.len(),
{
    let j = match p_lit(t, i, "[") {
        None => {
            return None;
        },
        Some(j) => j,
    };
    match p_lit(t, j, "]") {
        Some(k) => {
            let empty: Vec<Task> = Vec::new();
            proof {
                assert(empty@.map_values(|x: Task| x@) =~= Seq::<TaskV>::empty());
            }
            Some((empty, k))
        },
        None => {
            let j2 = match p_lit(t, j, "\n    ") {
                None => {
                    return None;
                },
                Some(j2) => j2,
            };
            let (tk, j3) = match p_task(t, j2) {
                None => {
                    return None;
                },
                Some(p) => p,
            };
            let mut first: Vec<Task> = Vec::new();
            first.push(tk);
            proof {
                assert(first@.map_values(|x: Task| x@) =~= seq![tk@]);
            }
            p_tasks_rest(t, j3, first)
        },
    }
}

fn p_doc(t: &Vec<char>) -> (r: Option<TodoList>)
    ensures
        r is Some <==> sp_doc(t@) is Some,
        r matches Some(l) ==> sp_doc(t@) == Some(l@),
{
    let i = match p_lit(t, 0, "{\n  \"tasks\": ") {
        None => {
            return None;
        },
        Some(i) => i,
    };
    let (tks, j) = match p_tasks(t, i) {
        None => {
            return None;
        },
        Some(p) => p,
    };
    let k = match p_lit(t, j, ",\n  \"next_id\": ") {
        None => {
            return None;
        },
        Some(k) => k,
    };
    let (n, m) = match p_number(t, k) {
        None => {
            return None;
        },
        Some(p) => p,
    };
    let e = match p_lit(t, m, "\n}") {
        None => {
            return None;
        },
        Some(e) => e,
    };
    if e != t.len() {
        return None;
    }
    Some(TodoList { tasks: tks, next_id: n })
}

fn str_to_chars(s: &str) -> (v: Vec<char>)
    ensures
        v@ == s@,
{
    let n = s.unicode_len();
    let mut v: Vec<char> = Vec::new();
    let mut k: usize = 0;
    while k < n
        invariant
            n == s@.len(),
            k <= n,
            v@ == s@.take(k as int),
        decreases n - k,
    {
        v.push(s.get_char(k));
        proof {
            assert(v@ =~= s@.take(k + 1 as int));
        }
        k += 1;
    }
    proof {
        assert(v@ =~= s@);
    }
    v
}

impl TodoList {
    /// Rebuild a store from the persisted document's content; `None` stands
    /// for a document that does not exist and yields the empty store. Content
    /// that is not a well-formed document is reported as `Json`.
    pub fn load(content: Option<&str>) -> (r: Result<TodoList, TodoError>)
        ensures
            content is None ==> (r matches Ok(l) && l@ == empty_store()),
            content matches Some(c) ==> match sp_doc(c@) {
                Some(v) => r matches Ok(l) && l@ == v,
                None => r == Err::<TodoList, TodoError>(TodoError::Json),
            },
    {
        match content {
            None => {
                let l = TodoList::new();
                proof {
                    assert(l@ =~= empty_store());
                }
                Ok(l)
            },
            Some(c) => {
                let v = str_to_chars(c);
                match p_doc(&v) {
                    Some(l) => Ok(l),
                    None => Err(TodoError::Json),
                }
            },
        }
    }
}

// ---------------------------------------------------------------------------
// Executable writer
// ---------------------------------------------------------------------------
/// Relies on `String`'s `FromIterator` over `char`: the collected string holds
/// exactly the characters of `v`, in order.
#[verifier::external_body]
fn chars_to_string(v: &Vec<char>) -> (r: String)
    ensures
        r@ == v@,
{
    v.iter().collect()
}

fn push_lit(out: &mut Vec<char>, p: &str)
    ensures
        final(out)@ == old(out)@ + p@,
{
    let n = p.unicode_len();
    let mut k: usize = 0;
    while k < n
        invariant
            n == p@.len(),
            k <= n,
            out@ == old(out)@ + p@.take(k as int),
        decreases n - k,
    {
        out.push(p.get_char(k));
        proof {
            assert(out@ =~= old(out)@ + p@.take(k + 1 as int));
        }
        k += 1;
    }
    proof {
        assert(out@ =~= old(out)@ + p@);
    }
}

fn hex_digit_e(n: u32) -> (c: char)
    requires
        n < 16,
    ensures
        c == hex_digit(n as int),
{
    match n {
        0 => '0',
        1 => '1',
        2 => '2',
        3 => '3',
        4 => '4',
        5 => '5',
        6 => '6',
        7 => '7',
        8 => '8',
        9 => '9',
        10 => 'a',
        11 => 'b',
        12 => 'c',
        13 => 'd',
        14 => 'e',
        _ => 'f',
    }
}

fn push_num(out: &mut Vec<char>, n: usize)
    ensures
        final(out)@ == old(out)@ + dec_digits(n as nat),
    decreases n,
{
    if n < 10 {
        out.push(hex_digit_e(n as u32));
        proof {
            assert(out@ =~= old(out)@ + dec_digits(n as nat));
        }
    } else {
        push_num(out, n / 10);
        out.push(hex_digit_e((n % 10) as u32));
        proof {
            assert(out@ =~= old(out)@ + dec_digits(n as nat));
        }
    }
}

fn push_esc_char(out: &mut Vec<char>, c: char)
    ensures
        final(out)@ == old(out)@ + esc_char(c),
{
    if c == '"' {
        out.push('\\');
        out.push('"');
    } else if c == '\\' {
        out.push('\\');
        out.push('\\');
    } else if c == '\u{8}' {
        out.push('\\');
        out.push('b');
    } else if c == '\t' {
        out.push('\\');
        out.push('t');
    } else if c == '\n' {
        out.push('\\');
        out.push('n');
    } else if c == '\u{c}' {
        out.push('\\');
        out.push('f');
    } else if c == '\r' {
        out.push('\\');
        out.push('r');
    } else if (c as u32) < 0x20 {
        out.push('\\');
        out.push('u');
        out.push('0');
        out.push('0');
        out.push(hex_digit_e(c as u32 / 16));
        out.push(hex_digit_e(c as u32 % 16));
    } else {
        out.push(c);
    }
    proof {
        assert(out@ =~= old(out)@ + esc_char(c));
    }
}

fn push_quoted(out: &mut Vec<char>, s: &str)
    ensures
        final(out)@ == old(out)@ + quoted(s@),
{
    out.push('"');
    proof {
        assert(s@.skip(0) =~= s@);
        assert(out@ + esc_str(s@.skip(0)) =~= old(out)@ + seq!['"'] + esc_str(s@));
    }
    let n = s.unicode_len();
    let mut k: usize = 0;
    while k < n
        invariant
            n == s@.len(),
            k <= n,
            out@ + esc_str(s@.skip(k as int)) == old(out)@ + seq!['"'] + esc_str(s@),
        decreases n - k,
    {
        proof {
            assert(s@.skip(k as int).drop_first() =~= s@.skip(k + 1 as int));
            assert(esc_str(s@.skip(k as int)) == esc_char(s@[k as int]) + esc_str(
                s@.skip(k + 1 as int),
            ));
        }
        push_esc_char(out, s.get_char(k));
        proof {
            assert(out@ + esc_str(s@.skip(k + 1 as int)) =~= old(out)@ + seq!['"'] + esc_str(s@));
        }
        k += 1;
    }
    proof {
        assert(esc_str(s@.skip(n as int)) =~= Seq::<char>::empty());
        assert(out@ =~= old(out)@ + seq!['"'] + esc_str(s@));
    }
    out.push('"');
    proof {
        assert(out@ =~= old(out)@ + quoted(s@));
    }
}

fn push_task(out: &mut Vec<char>, t: &Task)
    ensures
        final(out)@ == old(out)@ + spec_task_json(t@),
{
    push_lit(out, "{\n      \"id\": ");
    push_num(out, t.id);
    push_lit(out, ",\n      \"description\": ");
    push_quoted(out, t.description.as_str());
    push_lit(out, ",\n      \"completed\": ");
    if t.completed {
        push_lit(out, "true");
    } else {
        push_lit(out, "false");
    }
    push_lit(out, ",\n      \"priority\": ");
    match t.priority {
        Priority::Low => push_quoted(out, "Low"),
        Priority::Medium => push_quoted(out, "Medium"),
        Priority::High => push_quoted(out, "High"),
    }
    push_lit(out, ",\n      \"created_at\": ");
    push_quoted(out, t.created_at.as_str());
    push_lit(out, "\n    }");
    proof {
        assert(out@ =~= old(out)@ + spec_task_json(t@));
    }
}

// ---------------------------------------------------------------------------
// Round trip: parsing a written document yields the written store
// ---------------------------------------------------------------------------
/// A slice known to hold `a + b` splits into a slice holding `a` and one
/// holding `b`.
proof fn lemma_split(t: Seq<char>, i: int, a: Seq<char>, b: Seq<char>)
    requires
        0 <= i,
        i + a.len() + b.len() <= t.len(),
        t.subrange(i, i + a.len() + b.len()) == a + b,
    ensures
        t.subrange(i, i + a.len()) == a,
        t.subrange(i + a.len(), i + a.len() + b.len()) == b,
{
    assert(t.subrange(i, i + a.len()) =~= a) by {
        assert(forall|k: int|
            0 <= k < a.len() + b.len() ==> t[i + k] == #[trigger] (a + b)[k]) by {
            assert(forall|k: int|
                0 <= k < a.len() + b.len() ==> t.subrange(i, i + a.len() + b.len())[k] == (a
                    + b)[k]);
        }
    }
    assert forall|q: int|
        0 <= q < b.len() implies t.subrange(i + a.len(), i + a.len() + b.len())[q] == b[q] by {
        assert(t.subrange(i, i + a.len() + b.len())[a.len() + q] == (a + b)[a.len() + q]);
        assert((a + b)[a.len() + q] == b[q]);
    }
    assert(t.subrange(i + a.len(), i + a.len() + b.len()) =~= b);
}

/// `hex_digit` writes each value below sixteen as a digit `hex_val` reads back.
proof fn lemma_hex_digit_val(m: int)
    requires
        0 <= m < 16,
    ensures
        is_hex(hex_digit(m)),
        hex_val(hex_digit(m)) == m,
        m < 10 ==> is_digit(hex_digit(m)) && digit_val(hex_digit(m)) == m,
        1 <= m < 10 ==> hex_digit(m) != '0',
{
}

/// Escaped string bodies parse back to what was escaped, position included.
proof fn lemma_rt_str_body(t: Seq<char>, i: int, s: Seq<char>, acc: Seq<char>)
    requires
        0 <= i,
        i + esc_str(s).len() + 1 <= t.len(),
        t.subrange(i, i + esc_str(s).len() + 1) == esc_str(s) + seq!['"'],
    ensures
        sp_str_body(t, i, acc) == Some((acc + s, i + esc_str(s).len() + 1)),
    decreases s.len(),
{
    if s.len() == 0 {
        assert(esc_str(s) =~= Seq::<char>::empty());
        assert(t[i] == (esc_str(s) + seq!['"'])[0]);
        assert(acc + s =~= acc);
    } else {
        let c = s[0];
        let e0 = esc_char(c);
        let rest = esc_str(s.drop_first());
        assert(esc_str(s) == e0 + rest);
        assert(t.subrange(i, i + e0.len() + (rest.len() + 1)) =~= e0 + (rest + seq!['"'])) by {
            assert((e0 + rest) + seq!['"'] =~= e0 + (rest + seq!['"']));
        }
        lemma_split(t, i, e0, rest + seq!['"']);
        let i2 = i + e0.len();
        assert(t.subrange(i2, i2 + rest.len() + 1) == rest + seq!['"']);
        assert(forall|k: int| 0 <= k < e0.len() ==> t[i + k] == #[trigger] e0[k]) by {
            assert(forall|k: int|
                0 <= k < e0.len() ==> t.subrange(i, i + e0.len())[k] == e0[k]);
        }
        if c == '"' || c == '\\' {
            assert(t[i] == '\\');
            lemma_rt_str_body(t, i + 2, s.drop_first(), acc.push(c));
            assert(acc.push(c) + s.drop_first() =~= acc + s);
        } else if c == '\u{8}' || c == '\t' || c == '\n' || c == '\u{c}' || c == '\r' {
            assert(t[i] == '\\');
            lemma_rt_str_body(t, i + 2, s.drop_first(), acc.push(c));
            assert(acc.push(c) + s.drop_first() =~= acc + s);
        } else if (c as u32) < 0x20 {
            assert(t[i] == '\\' && t[i + 1] == 'u' && t[i + 2] == '0' && t[i + 3] == '0');
            let hi = c as u32 / 16;
            let lo = c as u32 % 16;
            lemma_hex_digit_val(hi as int);
            lemma_hex_digit_val(lo as int);
            assert(t[i + 4] == hex_digit(hi as int) && t[i + 5] == hex_digit(lo as int));
            let v = hex_val(t[i + 2]) * 4096 + hex_val(t[i + 3]) * 256 + hex_val(t[i + 4]) * 16
                + hex_val(t[i + 5]);
            assert(v == c as u32);
            assert((v as char) == c) by {
                vstd::utf8::char_u32_cast(c, v as u32);
            }
            lemma_rt_str_body(t, i + 6, s.drop_first(), acc.push(c));
            assert(acc.push(c) + s.drop_first() =~= acc + s);
        } else {
            assert(t[i] == c) by {
                assert(t[i + 0] == e0[0]);
            }
            assert(t[i] != '"' && t[i] != '\\' && !((t[i] as u32) < 0x20));
            lemma_rt_str_body(t, i + 1, s.drop_first(), acc.push(c));
            assert(acc.push(c) + s.drop_first() =~= acc + s);
        }
    }
}

/// Quoted strings parse back to their content.
proof fn lemma_rt_quoted(t: Seq<char>, i: int, s: Seq<char>)
    requires
        0 <= i,
        i + quoted(s).len() <= t.len(),
        t.subrange(i, i + quoted(s).len()) == quoted(s),
    ensures
        sp_string(t, i) == Some((s, i + quoted(s).len())),
{
    assert(t.subrange(i, i + 1 + (esc_str(s).len() + 1)) =~= seq!['"'] + (esc_str(s)
        + seq!['"'])) by {
        assert(quoted(s) =~= seq!['"'] + (esc_str(s) + seq!['"']));
    }
    lemma_split(t, i, seq!['"'], esc_str(s) + seq!['"']);
    assert(t[i] == '"') by {
        assert(t.subrange(i, i + 1)[0] == seq!['"'][0]);
    }
    lemma_rt_str_body(t, i + 1, s, Seq::empty());
    assert(Seq::<char>::empty() + s =~= s);
}

spec fn pow10(k: nat) -> int
    decreases k,
{
    if k == 0 {
        1
    } else {
        10 * pow10((k - 1) as nat)
    }
}

/// A written number's digits never start with a zero unless the number is one
/// digit, and they do start with a digit.
proof fn lemma_dec_digits_first(n: nat)
    ensures
        dec_digits(n).len() >= 1,
        is_digit(dec_digits(n)[0]),
        n >= 10 ==> dec_digits(n)[0] != '0',
        n >= 1 ==> dec_digits(n)[0] != '0',
    decreases n,
{
    if n < 10 {
        lemma_hex_digit_val(n as int);
    } else {
        lemma_dec_digits_first(n / 10);
        assert(dec_digits(n)[0] == dec_digits(n / 10)[0]);
    }
}

/// Consuming a written number's digits multiplies what was already
/// accumulated and adds the number.
proof fn lemma_rt_digits(t: Seq<char>, i: int, n: nat, acc: int)
    requires
        0 <= i,
        i + dec_digits(n).len() <= t.len(),
        t.subrange(i, i + dec_digits(n).len()) == dec_digits(n),
        acc >= 0,
    ensures
        sp_digits(t, i, acc) == sp_digits(
            t,
            i + dec_digits(n).len(),
            acc * pow10(dec_digits(n).len() as nat) + n,
        ),
    decreases n,
{
    if n < 10 {
        lemma_hex_digit_val(n as int);
        assert(t[i] == hex_digit(n as int)) by {
            assert(t.subrange(i, i + 1)[0] == dec_digits(n)[0]);
        }
        assert(pow10(1) == 10) by {
            assert(pow10(0) == 1);
        }
        assert(sp_digits(t, i, acc) == sp_digits(t, i + 1, acc * 10 + n));
    } else {
        let d1 = dec_digits(n / 10);
        let l1 = d1.len();
        let dig = hex_digit((n % 10) as int);
        assert(dec_digits(n) == d1 + seq![dig]);
        lemma_split(t, i, d1, seq![dig]);
        lemma_rt_digits(t, i, n / 10, acc);
        let x = acc * pow10(l1 as nat) + n / 10;
        assert(x >= 0) by {
            lemma_pow10_pos(l1 as nat);
            assert(acc * pow10(l1 as nat) >= 0) by (nonlinear_arith)
                requires
                    acc >= 0,
                    pow10(l1 as nat) >= 1,
            ;
        }
        lemma_hex_digit_val((n % 10) as int);
        assert(t[i + l1] == dig) by {
            assert(t.subrange(i + l1, i + l1 + 1)[0] == dig);
        }
        assert(sp_digits(t, i + l1, x) == sp_digits(t, i + l1 + 1, x * 10 + n % 10));
        assert(x * 10 + n % 10 == acc * pow10((l1 + 1) as nat) + n) by {
            assert(pow10((l1 + 1) as nat) == 10 * pow10(l1 as nat));
            assert((acc * pow10(l1 as nat) + n / 10) * 10 == acc * (10 * pow10(l1 as nat)) + (n
                / 10) * 10) by (nonlinear_arith);
            assert((n / 10) * 10 + n % 10 == n);
        }
    }
}

proof fn lemma_pow10_pos(k: nat)
    ensures
        pow10(k) >= 1,
    decreases k,
{
    if k > 0 {
        lemma_pow10_pos((k - 1) as nat);
    }
}

/// A written number, followed by anything but a digit, parses back to itself.
proof fn lemma_rt_number(t: Seq<char>, i: int, n: nat)
    requires
        0 <= i,
        i + dec_digits(n).len() <= t.len(),
        t.subrange(i, i + dec_digits(n).len()) == dec_digits(n),
        i + dec_digits(n).len() == t.len() || !is_digit(t[i + dec_digits(n).len()]),
    ensures
        sp_number(t, i) == Some((n as int, i + dec_digits(n).len())),
{
    lemma_dec_digits_first(n);
    let l = dec_digits(n).len();
    assert(forall|k: int| 0 <= k < l ==> t[i + k] == #[trigger] dec_digits(n)[k]) by {
        assert(forall|k: int| 0 <= k < l ==> t.subrange(i, i + l)[k] == dec_digits(n)[k]);
    }
    assert(t[i] == dec_digits(n)[0]);
    if t[i] == '0' {
        assert(n == 0) by {
            if n >= 1 {
                assert(dec_digits(n)[0] != '0');
            }
        }
        assert(l == 1);
    }
    lemma_rt_digits(t, i, n, 0);
    assert(0 * pow10(l as nat) == 0) by (nonlinear_arith);
    assert(sp_digits(t, i + l, 0 * pow10(l as nat) + n) == (n as int, i + l));
}

/// A written boolean parses back to itself.
proof fn lemma_rt_bool(t: Seq<char>, i: int, b: bool)
    requires
        0 <= i,
        i + bool_chars(b).len() <= t.len(),
        t.subrange(i, i + bool_chars(b).len()) == bool_chars(b),
    ensures
        sp_bool(t, i) == Some((b, i + bool_chars(b).len())),
{
    reveal_strlit("true");
    reveal_strlit("false");
    if b {
        assert(sp_lit(t, i, "true"@) == Some(i + 4));
    } else {
        assert(t[i] == 'f') by {
            assert(t.subrange(i, i + 5)[0] == "false"@[0]);
        }
        assert(sp_lit(t, i, "true"@) is None) by {
            if i + 4 <= t.len() && t.subrange(i, i + 4) == "true"@ {
                assert(t.subrange(i, i + 4)[0] == 't');
            }
        }
        assert(sp_lit(t, i, "false"@) == Some(i + 5));
    }
}

/// A written priority tag parses back to itself.
proof fn lemma_rt_priority(t: Seq<char>, i: int, p: Priority)
    requires
        0 <= i,
        i + quoted(prio_chars(p)).len() <= t.len(),
        t.subrange(i, i + quoted(prio_chars(p)).len()) == quoted(prio_chars(p)),
    ensures
        sp_priority(t, i) == Some((p, i + quoted(prio_chars(p)).len())),
{
    reveal_strlit("Low");
    reveal_strlit("Medium");
    reveal_strlit("High");
    lemma_rt_quoted(t, i, prio_chars(p));
}
/// Stores whose identifiers and counter fit the machine's word; every value a
/// `TodoList` can hold is such a store.
pub open spec fn bounded_store(s: StoreV) -> bool {
    &&& 0 <= s.next_id <= usize::MAX
    &&& forall|k: int| 0 <= k < s.tasks.len() ==> 0 <= #[trigger] s.tasks[k].id <= usize::MAX
}

/// Every store a `TodoList` holds is bounded: identifiers and counter are
/// machine words, so the round-trip law covers every store the library can
/// hold.
pub proof fn lemma_list_view_bounded(l: &TodoList)
    ensures
        bounded_store(l@),
{
    assert forall|k: int| 0 <= k < l@.tasks.len() implies 0 <= #[trigger] l@.tasks[k].id
        <= usize::MAX by {
        assert(l@.tasks[k] == l.tasks@[k]@);
    }
}

/// A written task object parses back to the task it was written from.
#[verifier::rlimit(100)]
#[verifier::spinoff_prover]
proof fn lemma_rt_task(t: Seq<char>, i: int, tv: TaskV)
    requires
        0 <= i,
        i + spec_task_json(tv).len() <= t.len(),
        t.subrange(i, i + spec_task_json(tv).len()) == spec_task_json(tv),
        0 <= tv.id <= usize::MAX,
    ensures
        sp_task(t, i) == Some((tv, i + spec_task_json(tv).len())),
{
    reveal_strlit("{\n      \"id\": ");
    reveal_strlit(",\n      \"description\": ");
    reveal_strlit(",\n      \"completed\": ");
    reveal_strlit(",\n      \"priority\": ");
    reveal_strlit(",\n      \"created_at\": ");
    reveal_strlit("\n    }");
    let c1 = "{\n      \"id\": "@;
    let v1 = dec_digits(tv.id as nat);
    let c2 = ",\n      \"description\": "@;
    let v2 = quoted(tv.description);
    let c3 = ",\n      \"completed\": "@;
    let v3 = bool_chars(tv.completed);
    let c4 = ",\n      \"priority\": "@;
    let v4 = quoted(prio_chars(tv.priority));
    let c5 = ",\n      \"created_at\": "@;
    let v5 = quoted(tv.created_at);
    let c6 = "\n    }"@;
    let s10 = v5 + c6;
    let s9 = c5 + s10;
    let s8 = v4 + s9;
    let s7 = c4 + s8;
    let s6 = v3 + s7;
    let s5 = c3 + s6;
    let s4 = v2 + s5;
    let s3 = c2 + s4;
    let s2 = v1 + s3;
    let s1 = c1 + s2;
    assert(spec_task_json(tv) =~= s1);
    lemma_split(t, i, c1, s2);
    let p1 = i + c1.len();
    assert(sp_lit(t, i, c1) == Some(p1));
    lemma_split(t, p1, v1, s3);
    let p2 = p1 + v1.len();
    lemma_split(t, p2, c2, s4);
    let p3 = p2 + c2.len();
    assert(t[p2] == ',') by {
        assert(t.subrange(p2, p2 + c2.len())[0] == c2[0]);
    }
    lemma_rt_number(t, p1, tv.id as nat);
    assert(sp_number(t, p1) == Some((tv.id, p2)));
    assert(sp_lit(t, p2, c2) == Some(p3));
    lemma_split(t, p3, v2, s5);
    let p4 = p3 + v2.len();
    lemma_rt_quoted(t, p3, tv.description);
    lemma_split(t, p4, c3, s6);
    let p5 = p4 + c3.len();
    assert(sp_lit(t, p4, c3) == Some(p5));
    lemma_split(t, p5, v3, s7);
    let p6 = p5 + v3.len();
    lemma_rt_bool(t, p5, tv.completed);
    lemma_split(t, p6, c4, s8);
    let p7 = p6 + c4.len();
    assert(sp_lit(t, p6, c4) == Some(p7));
    lemma_split(t, p7, v4, s9);
    let p8 = p7 + v4.len();
    lemma_rt_priority(t, p7, tv.priority);
    lemma_split(t, p8, c5, s10);
    let p9 = p8 + c5.len();
    assert(sp_lit(t, p8, c5) == Some(p9));
    lemma_split(t, p9, v5, c6);
    let p10 = p9 + v5.len();
    lemma_rt_quoted(t, p9, tv.created_at);
    let p11 = p10 + c6.len();
    assert(sp_lit(t, p10, c6) == Some(p11));
    assert(sp_task(t, i) == Some(
        (
            TaskV {
                id: tv.id,
                description: tv.description,
                completed: tv.completed,
                priority: tv.priority,
                created_at: tv.created_at,
            },
            p11,
        ),
    ));
    assert(TaskV {
        id: tv.id,
        description: tv.description,
        completed: tv.completed,
        priority: tv.priority,
        created_at: tv.created_at,
    } =~= tv);
}

/// Written array entries after the first parse back to the tasks they were
/// written from, appended to whatever was already collected.
#[verifier::rlimit(100)]
#[verifier::spinoff_prover]
proof fn lemma_rt_tasks_tail(t: Seq<char>, i: int, ts: Seq<TaskV>, acc: Seq<TaskV>)
    requires
        0 <= i,
        i + spec_tasks_tail_json(ts).len() <= t.len(),
        t.subrange(i, i + spec_tasks_tail_json(ts).len()) == spec_tasks_tail_json(ts),
        forall|k: int| 0 <= k < ts.len() ==> 0 <= #[trigger] ts[k].id <= usize::MAX,
    ensures
        sp_tasks_rest(t, i, acc) == Some((acc + ts, i + spec_tasks_tail_json(ts).len())),
    decreases ts.len(),
{
    reveal_strlit("\n  ]");
    reveal_strlit(",\n    ");
    if ts.len() == 0 {
        assert(sp_lit(t, i, "\n  ]"@) == Some(i + 4));
        assert(acc + ts =~= acc);
    } else {
        let c0 = ",\n    "@;
        let e1 = spec_task_json(ts[0]);
        let rest = spec_tasks_tail_json(ts.drop_first());
        assert(spec_tasks_tail_json(ts) =~= c0 + (e1 + rest));
        lemma_split(t, i, c0, e1 + rest);
        let p1 = i + c0.len();
        lemma_split(t, p1, e1, rest);
        let p2 = p1 + e1.len();
        assert(t[i] == ',') by {
            assert(t.subrange(i, i + c0.len())[0] == c0[0]);
        }
        assert(sp_lit(t, i, "\n  ]"@) is None) by {
            if 0 <= i && i + 4 <= t.len() && t.subrange(i, i + 4) == "\n  ]"@ {
                assert(t.subrange(i, i + 4)[0] == '\n');
            }
        }
        assert(sp_lit(t, i, c0) == Some(p1));
        assert(0 <= ts[0].id <= usize::MAX);
        lemma_rt_task(t, p1, ts[0]);
        lemma_rt_tasks_tail(t, p2, ts.drop_first(), acc.push(ts[0]));
        assert(acc.push(ts[0]) + ts.drop_first() =~= acc + ts);
    }
}

/// A written task array parses back to the tasks it was written from.
#[verifier::rlimit(100)]
#[verifier::spinoff_prover]
proof fn lemma_rt_tasks(t: Seq<char>, i: int, ts: Seq<TaskV>)
    requires
        0 <= i,
        i + spec_tasks_json(ts).len() <= t.len(),
        t.subrange(i, i + spec_tasks_json(ts).len()) == spec_tasks_json(ts),
        forall|k: int| 0 <= k < ts.len() ==> 0 <= #[trigger] ts[k].id <= usize::MAX,
    ensures
        sp_tasks(t, i) == Some((ts, i + spec_tasks_json(ts).len())),
{
    reveal_strlit("[");
    reveal_strlit("]");
    reveal_strlit("[]");
    reveal_strlit("\n    ");
    reveal_strlit("[\n    ");
    if ts.len() == 0 {
        assert(spec_tasks_json(ts) =~= "["@ + "]"@);
        lemma_split(t, i, "["@, "]"@);
        assert(sp_lit(t, i, "["@) == Some(i + 1));
        assert(sp_lit(t, i + 1, "]"@) == Some(i + 2));
        assert(Seq::<TaskV>::empty() =~= ts);
    } else {
        let c0 = "\n    "@;
        let e1 = spec_task_json(ts[0]);
        let rest = spec_tasks_tail_json(ts.drop_first());
        assert(spec_tasks_json(ts) =~= "["@ + (c0 + (e1 + rest)));
        lemma_split(t, i, "["@, c0 + (e1 + rest));
        let p1 = i + 1;
        lemma_split(t, p1, c0, e1 + rest);
        let p2 = p1 + c0.len();
        lemma_split(t, p2, e1, rest);
        let p3 = p2 + e1.len();
        assert(sp_lit(t, i, "["@) == Some(p1));
        assert(t[p1] == '\n') by {
            assert(t.subrange(p1, p1 + c0.len())[0] == c0[0]);
        }
        assert(sp_lit(t, p1, "]"@) is None) by {
            if p1 + 1 <= t.len() && t.subrange(p1, p1 + 1) == "]"@ {
                assert(t.subrange(p1, p1 + 1)[0] == ']');
            }
        }
        assert(sp_lit(t, p1, c0) == Some(p2));
        assert(0 <= ts[0].id <= usize::MAX);
        lemma_rt_task(t, p2, ts[0]);
        lemma_rt_tasks_tail(t, p3, ts.drop_first(), seq![ts[0]]);
        assert(seq![ts[0]] + ts.drop_first() =~= ts);
    }
}

/// Round-trip law: a saved document parses back to the very store it was
/// written from, so saving what was loaded from a saved document reproduces
/// the document, character for character.
#[verifier::rlimit(100)]
#[verifier::spinoff_prover]
pub proof fn lemma_save_load_round_trip(s: StoreV)
    requires
        bounded_store(s),
    ensures
        sp_doc(spec_doc_json(s)) == Some(s),
        spec_doc_json(match sp_doc(spec_doc_json(s)) {
            Some(v) => v,
            None => s,
        }) == spec_doc_json(s),
{
    reveal_strlit("{\n  \"tasks\": ");
    reveal_strlit(",\n  \"next_id\": ");
    reveal_strlit("\n}");
    let t = spec_doc_json(s);
    let c1 = "{\n  \"tasks\": "@;
    let v1 = spec_tasks_json(s.tasks);
    let c2 = ",\n  \"next_id\": "@;
    let v2 = dec_digits(s.next_id as nat);
    let c3 = "\n}"@;
    let s4 = v2 + c3;
    let s3 = c2 + s4;
    let s2 = v1 + s3;
    let s1 = c1 + s2;
    assert(t =~= s1);
    assert(t.subrange(0, t.len() as int) =~= s1);
    lemma_split(t, 0, c1, s2);
    let p1 = c1.len() as int;
    assert(sp_lit(t, 0, c1) == Some(p1));
    lemma_split(t, p1, v1, s3);
    let p2 = p1 + v1.len();
    lemma_rt_tasks(t, p1, s.tasks);
    lemma_split(t, p2, c2, s4);
    let p3 = p2 + c2.len();
    assert(sp_lit(t, p2, c2) == Some(p3));
    lemma_split(t, p3, v2, c3);
    let p4 = p3 + v2.len();
    assert(t[p4] == '\n') by {
        assert(t.subrange(p4, p4 + c3.len())[0] == c3[0]);
    }
    lemma_rt_number(t, p3, s.next_id as nat);
    let p5 = p4 + c3.len();
    assert(sp_lit(t, p4, c3) == Some(p5));
    assert(p5 == t.len());
    assert(StoreV { tasks: s.tasks, next_id: s.next_id } =~= s);
}

impl TodoList {
    /// Render the full store as its persisted document: a stable, pretty
    /// JSON object holding the task array and the counter.
    pub fn save(&self) -> (r: String)
        ensures
            r@ == spec_doc_json(self@),
    {
        let ghost ts = self@.tasks;
        let mut out: Vec<char> = Vec::new();
        push_lit(&mut out, "{\n  \"tasks\": ");
        let n = self.tasks.len();
        if n == 0 {
            push_lit(&mut out, "[]");
            proof {
                assert(out@ =~= "{\n  \"tasks\": "@ + spec_tasks_json(ts));
            }
        } else {
            push_lit(&mut out, "[\n    ");
            push_task(&mut out, &self.tasks[0]);
            let mut k: usize = 1;
            while k < n
                invariant
                    n == self.tasks.len(),
                    1 <= k <= n,
                    ts == self@.tasks,
                    ts.len() == n,
                    forall|j: int| 0 <= j < n ==> ts[j] == #[trigger] self.tasks@[j]@,
                    out@ + spec_tasks_tail_json(ts.skip(k as int)) == "{\n  \"tasks\": "@
                        + spec_tasks_json(ts),
                decreases n - k,
            {
                proof {
                    assert(ts.skip(k as int).drop_first() =~= ts.skip(k + 1 as int));
                    assert(ts.skip(k as int)[0] == ts[k as int]);
                }
                push_lit(&mut out, ",\n    ");
                push_task(&mut out, &self.tasks[k]);
                proof {
                    assert(out@ + spec_tasks_tail_json(ts.skip(k + 1 as int)) =~= "{\n  \"tasks\": "@
                        + spec_tasks_json(ts));
                }
                k += 1;
            }
            push_lit(&mut out, "\n  ]");
            proof {
                assert(ts.skip(n as int) =~= Seq::<TaskV>::empty());
                assert(out@ =~= "{\n  \"tasks\": "@ + spec_tasks_json(ts));
            }
        }
        push_lit(&mut out, ",\n  \"next_id\": ");
        push_num(&mut out, self.next_id);
        push_lit(&mut out, "\n}");
        proof {
            assert(out@ =~= spec_doc_json(self@));
        }
        chars_to_string(&out)
    }
}

} // verus!
