//! The store document model: what the on-disk JSON text of a task
//! collection is, character by character. The collection is kept as a
//! pretty-printed JSON array; each task is an object with the keys `id`
//! (unsigned integer), `title` (string), `description`, `class`, `due_date`
//! (string or null) and `complete` (boolean), in that order.

use vstd::prelude::*;

use crate::task::TaskView;

verus! {

/// Relies on String::push: appends the one given character to the string.
#[verifier::external_body]
pub(crate) fn push_char(out: &mut String, c: char)
    ensures
        final(out)@ == old(out)@ + seq![c],
{
    out.push(c);
}

/// A parsed JSON scalar, as far as the store format needs one.
pub enum JVal {
    Num(u32),
    Str(Seq<char>),
    Bool(bool),
    Null,
}

pub open spec fn digit_char(d: int) -> char {
    if d == 0 {
        '0'
    } else if d == 1 {
        '1'
    } else if d == 2 {
        '2'
    } else if d == 3 {
        '3'
    } else if d == 4 {
        '4'
    } else if d == 5 {
        '5'
    } else if d == 6 {
        '6'
    } else if d == 7 {
        '7'
    } else if d == 8 {
        '8'
    } else {
        '9'
    }
}

/// The decimal digits of a nonnegative number, most significant first.
pub open spec fn digits_of(n: int) -> Seq<char>
    decreases n when n >= 0
{
    if n < 10 {
        seq![digit_char(n)]
    } else {
        digits_of(n / 10) + seq![digit_char(n % 10)]
    }
}

/// The lower-case hexadecimal digit of a nibble.
pub open spec fn hex_char(d: int) -> char {
    if d < 10 {
        digit_char(d)
    } else if d == 10 {
        'a'
    } else if d == 11 {
        'b'
    } else if d == 12 {
        'c'
    } else if d == 13 {
        'd'
    } else if d == 14 {
        'e'
    } else {
        'f'
    }
}

/// How one character appears inside a JSON string literal: quote, backslash
/// and control characters are escaped, everything else stands as itself.
pub open spec fn esc_char(c: char) -> Seq<char> {
    if c == '"' {
        seq!['\\', '"']
    } else if c == '\\' {
        seq!['\\', '\\']
    } else if c == '\n' {
        seq!['\\', 'n']
    } else if c == '\t' {
        seq!['\\', 't']
    } else if c == '\r' {
        seq!['\\', 'r']
    } else if (c as u32) < 0x20 {
        seq!['\\', 'u', '0', '0', hex_char(c as u32 as int / 16), hex_char(c as u32 as int % 16)]
    } else {
        seq![c]
    }
}

/// A text escaped for use inside a JSON string literal.
pub open spec fn esc(s: Seq<char>) -> Seq<char>
    decreases s.len(),
{
    if s.len() == 0 {
        Seq::<char>::empty()
    } else {
        esc_char(s[0]) + esc(s.drop_first())
    }
}

/// A JSON string literal: the escaped text between double quotes.
pub open spec fn quoted(s: Seq<char>) -> Seq<char> {
    seq!['"'] + esc(s) + seq!['"']
}

/// An optional text field: a string literal, or `null` when unset.
pub open spec fn json_of_opt(v: Option<Seq<char>>) -> Seq<char> {
    match v {
        Some(s) => quoted(s),
        None => "null"@,
    }
}

/// One task as a pretty-printed JSON object, indented for its place inside
/// the array: the six members in canonical order.
pub open spec fn json_of_task(t: TaskView) -> Seq<char> {
    "{\n    \"id\": "@ + digits_of(t.id as int) + ",\n    \"title\": \""@ + esc(t.title)
        + "\",\n    \"description\": "@ + json_of_opt(t.description) + ",\n    \"class\": "@
        + json_of_opt(t.class) + ",\n    \"due_date\": "@ + json_of_opt(t.due_date)
        + ",\n    \"complete\": "@ + (if t.complete {
        "true"@
    } else {
        "false"@
    }) + "\n  }"@
}

/// The comma-separated task objects of a non-empty array, without the
/// surrounding brackets.
pub open spec fn json_tasks_body(ts: Seq<TaskView>) -> Seq<char>
    decreases ts.len(),
{
    if ts.len() == 0 {
        Seq::<char>::empty()
    } else if ts.len() == 1 {
        json_of_task(ts[0])
    } else {
        json_of_task(ts[0]) + ",\n  "@ + json_tasks_body(ts.drop_first())
    }
}

/// The whole store document for a collection.
pub open spec fn json_of_tasks(ts: Seq<TaskView>) -> Seq<char> {
    if ts.len() == 0 {
        "[]"@
    } else {
        "[\n  "@ + json_tasks_body(ts) + "\n]"@
    }
}

} // verus!
