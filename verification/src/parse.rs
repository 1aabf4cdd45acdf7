//! Reading a store document back into a task collection.
//!
//! The grammar is the store format of [`crate::json`]: a JSON array of task
//! objects. Whitespace between tokens is free; the six members of a task
//! object must come in canonical order, but the three optional ones may be
//! absent, and an optional member may hold `null` instead of a string.

use vstd::prelude::*;

use vstd::seq_lib::lemma_concat_associative;
use vstd::string::StrSliceExecFns;
use vstd::string::StringExecFns;

use crate::json::{push_char, JVal};
use crate::task::{opt_view, tasks_view, Task, TaskView};

verus! {

pub open spec fn is_ws(c: char) -> bool {
    c == ' ' || c == '\n' || c == '\t' || c == '\r'
}

/// The first index at or past `i` that does not hold whitespace.
pub open spec fn skip_ws(s: Seq<char>, i: int) -> int
    decreases s.len() - i when 0 <= i <= s.len()
{
    if i < s.len() && is_ws(s[i]) {
        skip_ws(s, i + 1)
    } else {
        i
    }
}

pub proof fn lemma_skip_ws_bounds(s: Seq<char>, i: int)
    requires
        0 <= i <= s.len(),
    ensures
        i <= skip_ws(s, i) <= s.len(),
    decreases s.len() - i,
{
    if i < s.len() && is_ws(s[i]) {
        lemma_skip_ws_bounds(s, i + 1);
    }
}

pub open spec fn is_digit(c: char) -> bool {
    48 <= c as u32 <= 57
}

pub open spec fn digit_val(c: char) -> int {
    c as u32 - 48
}

/// The first index at or past `i` that does not hold a decimal digit.
pub open spec fn digit_run_end(s: Seq<char>, i: int) -> int
    decreases s.len() - i when 0 <= i <= s.len()
{
    if i < s.len() && is_digit(s[i]) {
        digit_run_end(s, i + 1)
    } else {
        i
    }
}

pub proof fn lemma_digit_run_bounds(s: Seq<char>, i: int)
    requires
        0 <= i <= s.len(),
    ensures
        i <= digit_run_end(s, i) <= s.len(),
    decreases s.len() - i,
{
    if i < s.len() && is_digit(s[i]) {
        lemma_digit_run_bounds(s, i + 1);
    }
}

/// The value of a run of decimal digits, most significant first.
pub open spec fn num_val(ds: Seq<char>) -> int
    decreases ds.len(),
{
    if ds.len() == 0 {
        0
    } else {
        num_val(ds.drop_last()) * 10 + digit_val(ds.last())
    }
}

/// A number of the store format: a run of decimal digits whose value fits
/// `u32` (the ID type). Anything else — a sign, a fraction, an exponent, a
/// value out of range — is rejected.
pub open spec fn parse_number(s: Seq<char>, i: int) -> Option<(u32, int)> {
    let e = digit_run_end(s, i);
    if e == i {
        None
    } else {
        let v = num_val(s.subrange(i, e));
        if v <= u32::MAX {
            Some(((v as u32), e))
        } else {
            None
        }
    }
}

/// The character a short escape stands for.
pub open spec fn esc_code(e: char) -> Option<char> {
    if e == '"' {
        Some('"')
    } else if e == '\\' {
        Some('\\')
    } else if e == '/' {
        Some('/')
    } else if e == 'n' {
        Some('\n')
    } else if e == 't' {
        Some('\t')
    } else if e == 'r' {
        Some('\r')
    } else if e == 'b' {
        Some('\u{08}')
    } else if e == 'f' {
        Some('\u{0c}')
    } else {
        None
    }
}

/// The value of a hexadecimal digit, or -1 for any other character.
pub open spec fn hex_val(c: char) -> int {
    if is_digit(c) {
        digit_val(c)
    } else if c == 'a' || c == 'A' {
        10
    } else if c == 'b' || c == 'B' {
        11
    } else if c == 'c' || c == 'C' {
        12
    } else if c == 'd' || c == 'D' {
        13
    } else if c == 'e' || c == 'E' {
        14
    } else if c == 'f' || c == 'F' {
        15
    } else {
        -1
    }
}

/// The control character with the given code point (below 0x20).
pub open spec fn ctrl_char(v: int) -> char {
    if v == 0x00 { '\u{00}' } else if v == 0x01 { '\u{01}' } else if v == 0x02 { '\u{02}' }
    else if v == 0x03 { '\u{03}' } else if v == 0x04 { '\u{04}' } else if v == 0x05 { '\u{05}' }
    else if v == 0x06 { '\u{06}' } else if v == 0x07 { '\u{07}' } else if v == 0x08 { '\u{08}' }
    else if v == 0x09 { '\u{09}' } else if v == 0x0a { '\u{0a}' } else if v == 0x0b { '\u{0b}' }
    else if v == 0x0c { '\u{0c}' } else if v == 0x0d { '\u{0d}' } else if v == 0x0e { '\u{0e}' }
    else if v == 0x0f { '\u{0f}' } else if v == 0x10 { '\u{10}' } else if v == 0x11 { '\u{11}' }
    else if v == 0x12 { '\u{12}' } else if v == 0x13 { '\u{13}' } else if v == 0x14 { '\u{14}' }
    else if v == 0x15 { '\u{15}' } else if v == 0x16 { '\u{16}' } else if v == 0x17 { '\u{17}' }
    else if v == 0x18 { '\u{18}' } else if v == 0x19 { '\u{19}' } else if v == 0x1a { '\u{1a}' }
    else if v == 0x1b { '\u{1b}' } else if v == 0x1c { '\u{1c}' } else if v == 0x1d { '\u{1d}' }
    else if v == 0x1e { '\u{1e}' } else { '\u{1f}' }
}

/// The body of a string literal, starting just past the opening quote:
/// the text it denotes and the index just past the closing quote. Unicode
/// escapes are accepted for control characters only (`\u00XX` below 0x20),
/// which is all the writing side ever emits.
pub open spec fn parse_string_body(s: Seq<char>, i: int) -> Option<(Seq<char>, int)>
    decreases s.len() - i when 0 <= i <= s.len()
{
    if i >= s.len() {
        None
    } else if s[i] == '"' {
        Some((Seq::<char>::empty(), i + 1))
    } else if s[i] == '\\' {
        if i + 2 <= s.len() {
            if s[i + 1] == 'u' {
                if i + 6 <= s.len() && s[i + 2] == '0' && s[i + 3] == '0' && hex_val(s[i + 4]) >= 0
                    && hex_val(s[i + 5]) >= 0 && hex_val(s[i + 4]) * 16 + hex_val(s[i + 5]) < 0x20 {
                    let c = ctrl_char(hex_val(s[i + 4]) * 16 + hex_val(s[i + 5]));
                    match parse_string_body(s, i + 6) {
                        Some((rest, e)) => Some((seq![c] + rest, e)),
                        None => None,
                    }
                } else {
                    None
                }
            } else {
                match esc_code(s[i + 1]) {
                    Some(c) => match parse_string_body(s, i + 2) {
                        Some((rest, e)) => Some((seq![c] + rest, e)),
                        None => None,
                    },
                    None => None,
                }
            }
        } else {
            None
        }
    } else {
        match parse_string_body(s, i + 1) {
            Some((rest, e)) => Some((seq![s[i]] + rest, e)),
            None => None,
        }
    }
}

pub proof fn lemma_string_body_advance(s: Seq<char>, i: int)
    requires
        0 <= i <= s.len(),
    ensures
        match parse_string_body(s, i) {
            Some((t, e)) => i < e <= s.len(),
            None => true,
        },
    decreases s.len() - i,
{
    if i < s.len() {
        if s[i] == '"' {
        } else if s[i] == '\\' {
            if i + 2 <= s.len() {
                if s[i + 1] == 'u' {
                    if i + 6 <= s.len() {
                        lemma_string_body_advance(s, i + 6);
                    }
                } else {
                    lemma_string_body_advance(s, i + 2);
                }
            }
        } else {
            lemma_string_body_advance(s, i + 1);
        }
    }
}

/// Whether the characters of `w` stand at `i` in `s`.
pub open spec fn match_lit(s: Seq<char>, i: int, w: Seq<char>) -> bool {
    i + w.len() <= s.len() && s.subrange(i, i + w.len()) == w
}

/// A scalar value of the store format: a string, a number, a boolean
/// literal, or `null`.
pub open spec fn parse_value(s: Seq<char>, i: int) -> Option<(JVal, int)> {
    if i >= s.len() {
        None
    } else if s[i] == '"' {
        match parse_string_body(s, i + 1) {
            Some((t, e)) => Some((JVal::Str(t), e)),
            None => None,
        }
    } else if is_digit(s[i]) {
        match parse_number(s, i) {
            Some((n, e)) => Some((JVal::Num(n), e)),
            None => None,
        }
    } else if match_lit(s, i, "true"@) {
        Some((JVal::Bool(true), i + 4))
    } else if match_lit(s, i, "false"@) {
        Some((JVal::Bool(false), i + 5))
    } else if match_lit(s, i, "null"@) {
        Some((JVal::Null, i + 4))
    } else {
        None
    }
}

pub proof fn lemma_value_advance(s: Seq<char>, i: int)
    requires
        0 <= i <= s.len(),
    ensures
        match parse_value(s, i) {
            Some((v, e)) => i < e <= s.len(),
            None => true,
        },
{
    reveal_strlit("true");
    reveal_strlit("false");
    reveal_strlit("null");
    if i < s.len() {
        if s[i] == '"' {
            lemma_string_body_advance(s, i + 1);
        } else if is_digit(s[i]) {
            lemma_digit_run_bounds(s, i + 1);
            assert(digit_run_end(s, i) == digit_run_end(s, i + 1));
        }
    }
}

/// One `"key": value` member of a task object.
pub open spec fn parse_member(s: Seq<char>, i: int) -> Option<((Seq<char>, JVal), int)> {
    if i < s.len() && s[i] == '"' {
        match parse_string_body(s, i + 1) {
            Some((key, j)) => {
                let k = skip_ws(s, j);
                if k < s.len() && s[k] == ':' {
                    match parse_value(s, skip_ws(s, k + 1)) {
                        Some((v, e)) => Some(((key, v), e)),
                        None => None,
                    }
                } else {
                    None
                }
            },
            None => None,
        }
    } else {
        None
    }
}

pub proof fn lemma_member_advance(s: Seq<char>, i: int)
    requires
        0 <= i <= s.len(),
    ensures
        match parse_member(s, i) {
            Some((m, e)) => i < e <= s.len(),
            None => true,
        },
{
    if i < s.len() && s[i] == '"' {
        lemma_string_body_advance(s, i + 1);
        match parse_string_body(s, i + 1) {
            Some((key, j)) => {
                lemma_skip_ws_bounds(s, j);
                let k = skip_ws(s, j);
                if k < s.len() && s[k] == ':' {
                    lemma_skip_ws_bounds(s, k + 1);
                    lemma_value_advance(s, skip_ws(s, k + 1));
                }
            },
            None => {},
        }
    }
}

/// The members that follow the first one: `, member` repeated, closed by
/// `}`. Returns the members and the index just past the brace.
pub open spec fn parse_members_rest(s: Seq<char>, i: int) -> Option<(Seq<(Seq<char>, JVal)>, int)>
    decreases s.len() - i when 0 <= i <= s.len() via parse_members_rest_dec
{
    let j = skip_ws(s, i);
    if j < s.len() && s[j] == '}' {
        Some((Seq::<(Seq<char>, JVal)>::empty(), j + 1))
    } else if j < s.len() && s[j] == ',' {
        let k = skip_ws(s, j + 1);
        match parse_member(s, k) {
            Some((m, e)) => match parse_members_rest(s, e) {
                Some((ms, e2)) => Some((seq![m] + ms, e2)),
                None => None,
            },
            None => None,
        }
    } else {
        None
    }
}

#[via_fn]
proof fn parse_members_rest_dec(s: Seq<char>, i: int) {
    lemma_skip_ws_bounds(s, i);
    let j = skip_ws(s, i);
    if j < s.len() && s[j] == ',' {
        lemma_skip_ws_bounds(s, j + 1);
        lemma_member_advance(s, skip_ws(s, j + 1));
    }
}

pub proof fn lemma_members_rest_advance(s: Seq<char>, i: int)
    requires
        0 <= i <= s.len(),
    ensures
        match parse_members_rest(s, i) {
            Some((ms, e)) => i < e <= s.len(),
            None => true,
        },
    decreases s.len() - i,
{
    lemma_skip_ws_bounds(s, i);
    let j = skip_ws(s, i);
    if j < s.len() && s[j] == ',' {
        lemma_skip_ws_bounds(s, j + 1);
        let k = skip_ws(s, j + 1);
        lemma_member_advance(s, k);
        match parse_member(s, k) {
            Some((m, e)) => {
                lemma_members_rest_advance(s, e);
            },
            None => {},
        }
    }
}

/// A task object: `{` then its members, in canonical order. Returns the
/// member list and the index just past the closing brace.
pub open spec fn parse_object(s: Seq<char>, i: int) -> Option<(Seq<(Seq<char>, JVal)>, int)> {
    if i < s.len() && s[i] == '{' {
        let j = skip_ws(s, i + 1);
        if j < s.len() && s[j] == '}' {
            Some((Seq::<(Seq<char>, JVal)>::empty(), j + 1))
        } else {
            match parse_member(s, j) {
                Some((m, e)) => match parse_members_rest(s, e) {
                    Some((ms, e2)) => Some((seq![m] + ms, e2)),
                    None => None,
                },
                None => None,
            }
        }
    } else {
        None
    }
}

pub proof fn lemma_object_advance(s: Seq<char>, i: int)
    requires
        0 <= i <= s.len(),
    ensures
        match parse_object(s, i) {
            Some((ms, e)) => i < e <= s.len(),
            None => true,
        },
{
    if i < s.len() && s[i] == '{' {
        lemma_skip_ws_bounds(s, i + 1);
        let j = skip_ws(s, i + 1);
        if !(j < s.len() && s[j] == '}') {
            lemma_member_advance(s, j);
            match parse_member(s, j) {
                Some((m, e)) => {
                    lemma_members_rest_advance(s, e);
                },
                None => {},
            }
        }
    }
}

/// An optional text member: the text when the next member carries the given
/// key (or an unset field when it carries `null`); an unset field, without
/// advancing, when the key differs; a rejection when the key is there but
/// its value is neither a string nor `null`.
pub open spec fn jval_opt_text(v: JVal) -> Option<Option<Seq<char>>> {
    match v {
        JVal::Str(t) => Some(Some(t)),
        JVal::Null => Some(None),
        _ => None,
    }
}

pub open spec fn take_opt(
    ms: Seq<(Seq<char>, JVal)>,
    idx: int,
    key: Seq<char>,
) -> Option<(Option<Seq<char>>, int)> {
    if 0 <= idx < ms.len() && ms[idx].0 == key {
        match jval_opt_text(ms[idx].1) {
            Some(d) => Some((d, idx + 1)),
            None => None,
        }
    } else {
        Some((None, idx))
    }
}

/// The task a member list denotes: `id` (number) and `title` (string)
/// first, `complete` (boolean) last, the three optional text members in
/// between, in order, each possibly absent or null. Any other shape is
/// rejected.
pub open spec fn task_of_members(ms: Seq<(Seq<char>, JVal)>) -> Option<TaskView> {
    if ms.len() < 3 {
        None
    } else if !(ms[0].0 == "id"@ && ms[1].0 == "title"@) {
        None
    } else {
        match (ms[0].1, ms[1].1) {
            (JVal::Num(n), JVal::Str(title)) => match take_opt(ms, 2, "description"@) {
                Some((d, i3)) => match take_opt(ms, i3, "class"@) {
                    Some((c, i4)) => match take_opt(ms, i4, "due_date"@) {
                        Some((dd, i5)) => {
                            if i5 == ms.len() - 1 && ms[i5].0 == "complete"@ {
                                match ms[i5].1 {
                                    JVal::Bool(b) => Some(
                                        TaskView {
                                            id: n,
                                            title: title,
                                            description: d,
                                            class: c,
                                            due_date: dd,
                                            complete: b,
                                        },
                                    ),
                                    _ => None,
                                }
                            } else {
                                None
                            }
                        },
                        None => None,
                    },
                    None => None,
                },
                None => None,
            },
            _ => None,
        }
    }
}

/// One task: its object parsed, then its members read as a task record.
pub open spec fn parse_task(s: Seq<char>, i: int) -> Option<(TaskView, int)> {
    match parse_object(s, i) {
        Some((ms, e)) => match task_of_members(ms) {
            Some(t) => Some((t, e)),
            None => None,
        },
        None => None,
    }
}

pub proof fn lemma_task_advance(s: Seq<char>, i: int)
    requires
        0 <= i <= s.len(),
    ensures
        match parse_task(s, i) {
            Some((t, e)) => i < e <= s.len(),
            None => true,
        },
{
    lemma_object_advance(s, i);
}

/// The tasks that follow the first one: `, task` repeated, closed by `]`.
pub open spec fn parse_tasks_rest(s: Seq<char>, i: int) -> Option<(Seq<TaskView>, int)>
    decreases s.len() - i when 0 <= i <= s.len() via parse_tasks_rest_dec
{
    let j = skip_ws(s, i);
    if j < s.len() && s[j] == ']' {
        Some((Seq::<TaskView>::empty(), j + 1))
    } else if j < s.len() && s[j] == ',' {
        let k = skip_ws(s, j + 1);
        match parse_task(s, k) {
            Some((t, e)) => match parse_tasks_rest(s, e) {
                Some((ts, e2)) => Some((seq![t] + ts, e2)),
                None => None,
            },
            None => None,
        }
    } else {
        None
    }
}

#[via_fn]
proof fn parse_tasks_rest_dec(s: Seq<char>, i: int) {
    lemma_skip_ws_bounds(s, i);
    let j = skip_ws(s, i);
    if j < s.len() && s[j] == ',' {
        lemma_skip_ws_bounds(s, j + 1);
        lemma_task_advance(s, skip_ws(s, j + 1));
    }
}

/// A whole store document: a JSON array of task objects, possibly empty,
/// with nothing but whitespace after it.
pub open spec fn parse_doc(s: Seq<char>) -> Option<Seq<TaskView>> {
    if s.len() == 0 {
        None
    } else {
        let i = skip_ws(s, 0);
        if i < s.len() && s[i] == '[' {
            let j = skip_ws(s, i + 1);
            if j < s.len() && s[j] == ']' {
                if skip_ws(s, j + 1) == s.len() {
                    Some(Seq::<TaskView>::empty())
                } else {
                    None
                }
            } else {
                match parse_task(s, j) {
                    Some((t, e)) => match parse_tasks_rest(s, e) {
                        Some((ts, e2)) => {
                            if skip_ws(s, e2) == s.len() {
                                Some(seq![t] + ts)
                            } else {
                                None
                            }
                        },
                        None => None,
                    },
                    None => None,
                }
            }
        } else {
            None
        }
    }
}

// ------------------------------------------------------------------
// The executable parser. Each function returns exactly what its spec
// counterpart denotes.
// ------------------------------------------------------------------

/// A parsed scalar, held in executable form.
pub enum PJson {
    Num(u32),
    Str(String),
    Bool(bool),
    Null,
}

impl View for PJson {
    type V = JVal;

    open spec fn view(&self) -> JVal {
        match self {
            PJson::Num(n) => JVal::Num(*n),
            PJson::Str(s) => JVal::Str(s@),
            PJson::Bool(b) => JVal::Bool(*b),
            PJson::Null => JVal::Null,
        }
    }
}

/// The members of an object, as their mathematical values.
pub open spec fn mview(ms: Seq<(String, PJson)>) -> Seq<(Seq<char>, JVal)> {
    ms.map(|_i: int, m: (String, PJson)| (m.0@, m.1@))
}

pub open spec fn prepend_text(p: Seq<char>, r: Option<(Seq<char>, int)>) -> Option<
    (Seq<char>, int),
> {
    match r {
        Some((t, e)) => Some((p + t, e)),
        None => None,
    }
}

pub open spec fn prepend_members(
    p: Seq<(Seq<char>, JVal)>,
    r: Option<(Seq<(Seq<char>, JVal)>, int)>,
) -> Option<(Seq<(Seq<char>, JVal)>, int)> {
    match r {
        Some((ms, e)) => Some((p + ms, e)),
        None => None,
    }
}

/// What remains of the whole document once a prefix of the array has been
/// read: the rest of the tasks, then nothing but whitespace.
pub open spec fn doc_rest(s: Seq<char>, p: Seq<TaskView>, i: int) -> Option<Seq<TaskView>> {
    match parse_tasks_rest(s, i) {
        Some((ts, e)) => if skip_ws(s, e) == s.len() {
            Some(p + ts)
        } else {
            None
        },
        None => None,
    }
}

fn is_ws_at(s: &str, j: usize) -> (b: bool)
    requires
        j < s@.len(),
    ensures
        b == is_ws(s@[j as int]),
{
    let c = s.get_char(j);
    c == ' ' || c == '\n' || c == '\t' || c == '\r'
}

fn is_digit_at(s: &str, j: usize) -> (b: bool)
    requires
        j < s@.len(),
    ensures
        b == is_digit(s@[j as int]),
{
    let v = s.get_char(j) as u32;
    48 <= v && v <= 57
}

fn skip_ws_exec(s: &str, i: usize) -> (r: usize)
    requires
        i <= s@.len(),
    ensures
        r as int == skip_ws(s@, i as int),
        i <= r <= s@.len(),
{
    let n = s.unicode_len();
    let mut j: usize = i;
    while j < n && is_ws_at(s, j)
        invariant
            i <= j <= n,
            n == s@.len(),
            skip_ws(s@, i as int) == skip_ws(s@, j as int),
        decreases n - j,
    {
        j += 1;
    }
    j
}

fn match_lit_exec(s: &str, i: usize, w: &str) -> (b: bool)
    requires
        i <= s@.len(),
    ensures
        b == match_lit(s@, i as int, w@),
{
    let n = s.unicode_len();
    let wn = w.unicode_len();
    if n - i < wn {
        return false;
    }
    let mut k: usize = 0;
    while k < wn
        invariant
            i + wn <= n,
            n == s@.len(),
            wn == w@.len(),
            0 <= k <= wn,
            forall|t: int| 0 <= t < k ==> s@[i + t] == w@[t],
        decreases wn - k,
    {
        if s.get_char(i + k) != w.get_char(k) {
            proof {
                assert(s@.subrange(i as int, i + w@.len())[k as int] == s@[i + k]);
            }
            return false;
        }
        k += 1;
    }
    proof {
        assert(s@.subrange(i as int, i + w@.len()) =~= w@);
    }
    true
}

fn str_eq_exec(a: &str, b: &str) -> (r: bool)
    ensures
        r == (a@ == b@),
{
    let an = a.unicode_len();
    let bn = b.unicode_len();
    if an != bn {
        return false;
    }
    let mut k: usize = 0;
    while k < an
        invariant
            an == a@.len(),
            an == b@.len(),
            0 <= k <= an,
            forall|t: int| 0 <= t < k ==> a@[t] == b@[t],
        decreases an - k,
    {
        if a.get_char(k) != b.get_char(k) {
            return false;
        }
        k += 1;
    }
    proof {
        assert(a@ =~= b@);
    }
    true
}

fn hex_val_exec(c: char) -> (r: i32)
    ensures
        r as int == hex_val(c),
{
    let v = c as u32;
    if 48 <= v && v <= 57 {
        (v - 48) as i32
    } else if c == 'a' || c == 'A' {
        10
    } else if c == 'b' || c == 'B' {
        11
    } else if c == 'c' || c == 'C' {
        12
    } else if c == 'd' || c == 'D' {
        13
    } else if c == 'e' || c == 'E' {
        14
    } else if c == 'f' || c == 'F' {
        15
    } else {
        -1
    }
}

fn ctrl_char_exec(v: u32) -> (c: char)
    requires
        v < 0x20,
    ensures
        c == ctrl_char(v as int),
{
    if v == 0x00 { '\u{00}' } else if v == 0x01 { '\u{01}' } else if v == 0x02 { '\u{02}' }
    else if v == 0x03 { '\u{03}' } else if v == 0x04 { '\u{04}' } else if v == 0x05 { '\u{05}' }
    else if v == 0x06 { '\u{06}' } else if v == 0x07 { '\u{07}' } else if v == 0x08 { '\u{08}' }
    else if v == 0x09 { '\u{09}' } else if v == 0x0a { '\u{0a}' } else if v == 0x0b { '\u{0b}' }
    else if v == 0x0c { '\u{0c}' } else if v == 0x0d { '\u{0d}' } else if v == 0x0e { '\u{0e}' }
    else if v == 0x0f { '\u{0f}' } else if v == 0x10 { '\u{10}' } else if v == 0x11 { '\u{11}' }
    else if v == 0x12 { '\u{12}' } else if v == 0x13 { '\u{13}' } else if v == 0x14 { '\u{14}' }
    else if v == 0x15 { '\u{15}' } else if v == 0x16 { '\u{16}' } else if v == 0x17 { '\u{17}' }
    else if v == 0x18 { '\u{18}' } else if v == 0x19 { '\u{19}' } else if v == 0x1a { '\u{1a}' }
    else if v == 0x1b { '\u{1b}' } else if v == 0x1c { '\u{1c}' } else if v == 0x1d { '\u{1d}' }
    else if v == 0x1e { '\u{1e}' } else { '\u{1f}' }
}

fn esc_code_exec(e: char) -> (r: Option<char>)
    ensures
        r == esc_code(e),
{
    if e == '"' {
        Some('"')
    } else if e == '\\' {
        Some('\\')
    } else if e == '/' {
        Some('/')
    } else if e == 'n' {
        Some('\n')
    } else if e == 't' {
        Some('\t')
    } else if e == 'r' {
        Some('\r')
    } else if e == 'b' {
        Some('\u{08}')
    } else if e == 'f' {
        Some('\u{0c}')
    } else {
        None
    }
}

fn parse_number_exec(s: &str, i: usize) -> (r: Option<(u32, usize)>)
    requires
        i <= s@.len(),
    ensures
        match r {
            Some((v, e)) => parse_number(s@, i as int) == Some((v, e as int)) && i < e <= s@.len(),
            None => parse_number(s@, i as int) is None,
        },
{
    let n = s.unicode_len();
    let mut j: usize = i;
    let mut acc: u64 = 0;
    let mut big = false;
    proof {
        assert(s@.subrange(i as int, i as int) =~= Seq::<char>::empty());
    }
    while j < n && is_digit_at(s, j)
        invariant
            i <= j <= n,
            n == s@.len(),
            digit_run_end(s@, i as int) == digit_run_end(s@, j as int),
            !big ==> acc == num_val(s@.subrange(i as int, j as int)) && acc <= u32::MAX,
            big ==> num_val(s@.subrange(i as int, j as int)) > u32::MAX,
        decreases n - j,
    {
        let c = s.get_char(j);
        let d = (c as u32 - 48) as u64;
        proof {
            assert(s@.subrange(i as int, j + 1).drop_last() =~= s@.subrange(i as int, j as int));
            assert(s@.subrange(i as int, j + 1).last() == s@[j as int]);
        }
        if !big {
            acc = acc * 10 + d;
            if acc > u32::MAX as u64 {
                big = true;
            }
        }
        j += 1;
    }
    proof {
        assert(digit_run_end(s@, j as int) == j);
    }
    if j == i {
        return None;
    }
    if big {
        return None;
    }
    Some((acc as u32, j))
}

fn parse_string_body_exec(s: &str, i: usize) -> (r: Option<(String, usize)>)
    requires
        i <= s@.len(),
    ensures
        match r {
            Some((t, e)) => parse_string_body(s@, i as int) == Some((t@, e as int)) && i < e
                <= s@.len(),
            None => parse_string_body(s@, i as int) is None,
        },
{
    let n = s.unicode_len();
    let mut out = String::new();
    let mut cur: usize = i;
    proof {
        assert(prepend_text(out@, parse_string_body(s@, i as int)) == prepend_text(
            Seq::<char>::empty(),
            parse_string_body(s@, i as int),
        ));
        match parse_string_body(s@, i as int) {
            Some((t, e)) => {
                assert(Seq::<char>::empty() + t =~= t);
            },
            None => {},
        }
    }
    while cur < n
        invariant
            i <= cur <= n,
            n == s@.len(),
            parse_string_body(s@, i as int) == prepend_text(
                out@,
                parse_string_body(s@, cur as int),
            ),
        decreases n - cur,
    {
        let c = s.get_char(cur);
        if c == '"' {
            proof {
                assert(out@ + Seq::<char>::empty() =~= out@);
            }
            return Some((out, cur + 1));
        }
        if c == '\\' {
            if n - cur < 2 {
                return None;
            }
            let e = s.get_char(cur + 1);
            if e == 'u' {
                if n - cur < 6 {
                    return None;
                }
                let c2 = s.get_char(cur + 2);
                let c3 = s.get_char(cur + 3);
                let h4 = hex_val_exec(s.get_char(cur + 4));
                let h5 = hex_val_exec(s.get_char(cur + 5));
                if !(c2 == '0' && c3 == '0' && h4 >= 0 && h5 >= 0 && h4 * 16 + h5 < 0x20) {
                    return None;
                }
                let v: u32 = (h4 as u32) * 16 + (h5 as u32);
                let cc = ctrl_char_exec(v);
                proof {
                    match parse_string_body(s@, cur + 6) {
                        Some((rest, e2)) => {
                            lemma_concat_associative(out@, seq![cc], rest);
                        },
                        None => {},
                    }
                }
                push_char(&mut out, cc);
                cur = cur + 6;
            } else {
                match esc_code_exec(e) {
                    Some(cc) => {
                        proof {
                            match parse_string_body(s@, cur + 2) {
                                Some((rest, e2)) => {
                                    lemma_concat_associative(out@, seq![cc], rest);
                                },
                                None => {},
                            }
                        }
                        push_char(&mut out, cc);
                        cur = cur + 2;
                    },
                    None => {
                        return None;
                    },
                }
            }
        } else {
            proof {
                match parse_string_body(s@, cur + 1) {
                    Some((rest, e2)) => {
                        lemma_concat_associative(out@, seq![c], rest);
                    },
                    None => {},
                }
            }
            push_char(&mut out, c);
            cur = cur + 1;
        }
    }
    None
}

fn parse_value_exec(s: &str, i: usize) -> (r: Option<(PJson, usize)>)
    requires
        i <= s@.len(),
    ensures
        match r {
            Some((v, e)) => parse_value(s@, i as int) == Some((v@, e as int)) && i < e <= s@.len(),
            None => parse_value(s@, i as int) is None,
        },
{
    let n = s.unicode_len();
    if i >= n {
        return None;
    }
    let c = s.get_char(i);
    if c == '"' {
        match parse_string_body_exec(s, i + 1) {
            Some((t, e)) => Some((PJson::Str(t), e)),
            None => None,
        }
    } else if is_digit_at(s, i) {
        match parse_number_exec(s, i) {
            Some((v, e)) => Some((PJson::Num(v), e)),
            None => None,
        }
    } else if match_lit_exec(s, i, "true") {
        proof {
            reveal_strlit("true");
        }
        Some((PJson::Bool(true), i + 4))
    } else if match_lit_exec(s, i, "false") {
        proof {
            reveal_strlit("false");
        }
        Some((PJson::Bool(false), i + 5))
    } else if match_lit_exec(s, i, "null") {
        proof {
            reveal_strlit("null");
        }
        Some((PJson::Null, i + 4))
    } else {
        None
    }
}

fn parse_member_exec(s: &str, i: usize) -> (r: Option<((String, PJson), usize)>)
    requires
        i <= s@.len(),
    ensures
        match r {
            Some((m, e)) => parse_member(s@, i as int) == Some(((m.0@, m.1@), e as int)) && i < e
                <= s@.len(),
            None => parse_member(s@, i as int) is None,
        },
{
    let n = s.unicode_len();
    if i >= n {
        return None;
    }
    if s.get_char(i) != '"' {
        return None;
    }
    match parse_string_body_exec(s, i + 1) {
        Some((key, j)) => {
            let k = skip_ws_exec(s, j);
            if k < n && s.get_char(k) == ':' {
                let v0 = skip_ws_exec(s, k + 1);
                match parse_value_exec(s, v0) {
                    Some((v, e)) => Some(((key, v), e)),
                    None => None,
                }
            } else {
                None
            }
        },
        None => None,
    }
}

fn parse_object_exec(s: &str, i: usize) -> (r: Option<(Vec<(String, PJson)>, usize)>)
    requires
        i <= s@.len(),
    ensures
        match r {
            Some((ms, e)) => parse_object(s@, i as int) == Some((mview(ms@), e as int)) && i < e
                <= s@.len(),
            None => parse_object(s@, i as int) is None,
        },
{
    let n = s.unicode_len();
    if i >= n {
        return None;
    }
    if s.get_char(i) != '{' {
        return None;
    }
    let j = skip_ws_exec(s, i + 1);
    if j < n && s.get_char(j) == '}' {
        let ms: Vec<(String, PJson)> = Vec::new();
        proof {
            assert(mview(ms@) =~= Seq::<(Seq<char>, JVal)>::empty());
        }
        return Some((ms, j + 1));
    }
    match parse_member_exec(s, j) {
        None => None,
        Some((m, e)) => {
            let mut ms: Vec<(String, PJson)> = Vec::new();
            let ghost m0 = (m.0@, m.1@);
            ms.push(m);
            let mut cur = e;
            proof {
                assert(mview(ms@) =~= seq![m0]);
            }
            loop
                invariant
                    i < cur <= n,
                    n == s@.len(),
                    parse_object(s@, i as int) == prepend_members(
                        mview(ms@),
                        parse_members_rest(s@, cur as int),
                    ),
                decreases n - cur,
            {
                let j2 = skip_ws_exec(s, cur);
                if j2 < n && s.get_char(j2) == '}' {
                    proof {
                        assert(mview(ms@) + Seq::<(Seq<char>, JVal)>::empty() =~= mview(ms@));
                    }
                    return Some((ms, j2 + 1));
                }
                if !(j2 < n && s.get_char(j2) == ',') {
                    return None;
                }
                let k = skip_ws_exec(s, j2 + 1);
                match parse_member_exec(s, k) {
                    None => {
                        return None;
                    },
                    Some((m2, e2)) => {
                        let ghost m2v = (m2.0@, m2.1@);
                        let ghost msv = mview(ms@);
                        ms.push(m2);
                        proof {
                            assert(mview(ms@) =~= msv + seq![m2v]);
                            match parse_members_rest(s@, e2 as int) {
                                Some((rest, e3)) => {
                                    lemma_concat_associative(msv, seq![m2v], rest);
                                },
                                None => {},
                            }
                        }
                        cur = e2;
                    },
                }
            }
        },
    }
}

fn take_opt_exec(ms: &Vec<(String, PJson)>, idx: usize, key: &str) -> (r: Option<
    (Option<String>, usize),
>)
    requires
        idx <= ms@.len(),
    ensures
        match r {
            Some(p) => take_opt(mview(ms@), idx as int, key@) == Some(
                (opt_view(p.0), p.1 as int),
            ) && idx <= p.1 <= ms@.len(),
            None => take_opt(mview(ms@), idx as int, key@) is None,
        },
{
    if idx < ms.len() && str_eq_exec(ms[idx].0.as_str(), key) {
        match &ms[idx].1 {
            PJson::Str(t) => Some((Some(t.clone()), idx + 1)),
            PJson::Null => Some((None, idx + 1)),
            _ => None,
        }
    } else {
        Some((None, idx))
    }
}

fn task_of_members_exec(ms: &Vec<(String, PJson)>) -> (r: Option<Task>)
    ensures
        match r {
            Some(t) => task_of_members(mview(ms@)) == Some(t@),
            None => task_of_members(mview(ms@)) is None,
        },
{
    if ms.len() < 3 {
        return None;
    }
    if !str_eq_exec(ms[0].0.as_str(), "id") {
        return None;
    }
    if !str_eq_exec(ms[1].0.as_str(), "title") {
        return None;
    }
    let idv = match &ms[0].1 {
        PJson::Num(x) => *x,
        _ => {
            return None;
        },
    };
    let title = match &ms[1].1 {
        PJson::Str(t) => t.clone(),
        _ => {
            return None;
        },
    };
    let (description, i3) = match take_opt_exec(ms, 2, "description") {
        Some(p) => p,
        None => {
            return None;
        },
    };
    let (class, i4) = match take_opt_exec(ms, i3, "class") {
        Some(p) => p,
        None => {
            return None;
        },
    };
    let (due_date, i5) = match take_opt_exec(ms, i4, "due_date") {
        Some(p) => p,
        None => {
            return None;
        },
    };
    if i5 != ms.len() - 1 {
        return None;
    }
    if !str_eq_exec(ms[i5].0.as_str(), "complete") {
        return None;
    }
    let b = match &ms[i5].1 {
        PJson::Bool(x) => *x,
        _ => {
            return None;
        },
    };
    Some(
        Task {
            id: idv,
            title: title,
            description: description,
            class: class,
            due_date: due_date,
            complete: b,
        },
    )
}

fn parse_task_exec(s: &str, i: usize) -> (r: Option<(Task, usize)>)
    requires
        i <= s@.len(),
    ensures
        match r {
            Some((t, e)) => parse_task(s@, i as int) == Some((t@, e as int)) && i < e <= s@.len(),
            None => parse_task(s@, i as int) is None,
        },
{
    match parse_object_exec(s, i) {
        None => None,
        Some((ms, e)) => match task_of_members_exec(&ms) {
            Some(t) => Some((t, e)),
            None => None,
        },
    }
}

/// Reads a whole store document. Returns the collection it denotes, in
/// order, or nothing when the text is not a well-formed store document.
pub fn parse_tasks(s: &str) -> (r: Option<Vec<Task>>)
    ensures
        match r {
            Some(ts) => parse_doc(s@) == Some(tasks_view(ts@)),
            None => parse_doc(s@) is None,
        },
{
    let n = s.unicode_len();
    if n == 0 {
        return None;
    }
    let i0 = skip_ws_exec(s, 0);
    if !(i0 < n && s.get_char(i0) == '[') {
        return None;
    }
    let j0 = skip_ws_exec(s, i0 + 1);
    if j0 < n && s.get_char(j0) == ']' {
        let tail = skip_ws_exec(s, j0 + 1);
        if tail == n {
            let ts: Vec<Task> = Vec::new();
            proof {
                assert(tasks_view(ts@) =~= Seq::<TaskView>::empty());
            }
            return Some(ts);
        } else {
            return None;
        }
    }
    match parse_task_exec(s, j0) {
        None => None,
        Some((t0, e0)) => {
            let ghost t0v = t0@;
            let mut acc: Vec<Task> = Vec::new();
            acc.push(t0);
            let mut cur = e0;
            proof {
                assert(tasks_view(acc@) =~= seq![t0v]);
            }
            loop
                invariant
                    0 < cur <= n,
                    n == s@.len(),
                    parse_doc(s@) == doc_rest(s@, tasks_view(acc@), cur as int),
                decreases n - cur,
            {
                let j2 = skip_ws_exec(s, cur);
                if j2 < n && s.get_char(j2) == ']' {
                    let tail = skip_ws_exec(s, j2 + 1);
                    if tail == n {
                        proof {
                            assert(tasks_view(acc@) + Seq::<TaskView>::empty() =~= tasks_view(
                                acc@,
                            ));
                        }
                        return Some(acc);
                    } else {
                        return None;
                    }
                }
                if !(j2 < n && s.get_char(j2) == ',') {
                    return None;
                }
                let k = skip_ws_exec(s, j2 + 1);
                match parse_task_exec(s, k) {
                    None => {
                        return None;
                    },
                    Some((t, e)) => {
                        let ghost tv = t@;
                        let ghost accv = tasks_view(acc@);
                        acc.push(t);
                        proof {
                            assert(tasks_view(acc@) =~= accv + seq![tv]);
                            match parse_tasks_rest(s@, e as int) {
                                Some((rest, e3)) => {
                                    lemma_concat_associative(accv, seq![tv], rest);
                                },
                                None => {},
                            }
                        }
                        cur = e;
                    },
                }
            }
        },
    }
}

} // verus!
