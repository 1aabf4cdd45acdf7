//! The store round trip: a document written for a collection reads back as
//! exactly that collection.

use vstd::prelude::*;
use vstd::seq_lib::lemma_concat_associative;

use crate::json::{digits_of, esc, esc_char, hex_char, json_of_opt, json_of_task, json_of_tasks,
    json_tasks_body, quoted, JVal};
use crate::parse::{ctrl_char, digit_run_end, digit_val, hex_val, is_digit, is_ws, match_lit,
    num_val, parse_doc, parse_member, parse_members_rest, parse_number, parse_object,
    parse_string_body, parse_task, parse_tasks_rest, parse_value, skip_ws, take_opt,
    task_of_members};
use crate::task::TaskView;

verus! {

proof fn lemma_lit_chars(s: Seq<char>, i: int, w: Seq<char>)
    requires
        0 <= i,
        match_lit(s, i, w),
    ensures
        forall|k: int| 0 <= k < w.len() ==> s[i + k] == w[k],
{
    assert forall|k: int| 0 <= k < w.len() implies s[i + k] == w[k] by {
        assert(w[k] == s.subrange(i, i + w.len())[k]);
    }
}

proof fn lemma_skip_ws_run(s: Seq<char>, i: int, w: Seq<char>)
    requires
        0 <= i,
        i + w.len() < s.len(),
        s.subrange(i, i + w.len()) == w,
        forall|k: int| 0 <= k < w.len() ==> is_ws(#[trigger] w[k]),
        !is_ws(s[i + w.len()]),
    ensures
        skip_ws(s, i) == i + w.len(),
    decreases w.len(),
{
    if w.len() == 0 {
    } else {
        assert(s[i] == w[0]) by {
            assert(w[0] == s.subrange(i, i + w.len())[0]);
        }
        assert(s.subrange(i + 1, i + w.len()) =~= w.drop_first()) by {
            assert forall|k: int| 0 <= k < w.len() - 1 implies s.subrange(
                i + 1,
                i + w.len(),
            )[k] == w.drop_first()[k] by {
                assert(w[k + 1] == s.subrange(i, i + w.len())[k + 1]);
            }
        }
        lemma_skip_ws_run(s, i + 1, w.drop_first());
    }
}

proof fn lemma_digit_run_at(s: Seq<char>, i: int, ds: Seq<char>)
    requires
        0 <= i,
        i + ds.len() <= s.len(),
        s.subrange(i, i + ds.len()) == ds,
        forall|k: int| 0 <= k < ds.len() ==> is_digit(#[trigger] ds[k]),
        i + ds.len() == s.len() || !is_digit(s[i + ds.len()]),
    ensures
        digit_run_end(s, i) == i + ds.len(),
    decreases ds.len(),
{
    if ds.len() == 0 {
    } else {
        assert(s[i] == ds[0]) by {
            assert(ds[0] == s.subrange(i, i + ds.len())[0]);
        }
        assert(s.subrange(i + 1, i + ds.len()) =~= ds.drop_first()) by {
            assert forall|k: int| 0 <= k < ds.len() - 1 implies s.subrange(
                i + 1,
                i + ds.len(),
            )[k] == ds.drop_first()[k] by {
                assert(ds[k + 1] == s.subrange(i, i + ds.len())[k + 1]);
            }
        }
        lemma_digit_run_at(s, i + 1, ds.drop_first());
    }
}

proof fn lemma_digits_of(n: int)
    requires
        n >= 0,
    ensures
        digits_of(n).len() >= 1,
        forall|k: int| 0 <= k < digits_of(n).len() ==> is_digit(#[trigger] digits_of(n)[k]),
        num_val(digits_of(n)) == n,
    decreases n,
{
    if n < 10 {
        let ds = seq![crate::json::digit_char(n)];
        assert(ds.drop_last() =~= Seq::<char>::empty());
        assert(num_val(ds) == num_val(Seq::<char>::empty()) * 10 + digit_val(ds.last()));
        assert(num_val(Seq::<char>::empty()) == 0);
        assert(digit_val(crate::json::digit_char(n)) == n);
    } else {
        lemma_digits_of(n / 10);
        let ds = digits_of(n / 10) + seq![crate::json::digit_char(n % 10)];
        assert(ds.drop_last() =~= digits_of(n / 10));
        assert(ds.last() == crate::json::digit_char(n % 10));
        assert(digit_val(crate::json::digit_char(n % 10)) == n % 10);
        assert(num_val(ds) == num_val(digits_of(n / 10)) * 10 + digit_val(ds.last()));
        assert(forall|k: int| 0 <= k < ds.len() - 1 ==> ds[k] == digits_of(n / 10)[k]);
    }
}

proof fn lemma_parse_number_at(s: Seq<char>, i: int, n: u32)
    requires
        0 <= i,
        match_lit(s, i, digits_of(n as int)),
        i + digits_of(n as int).len() == s.len() || !is_digit(s[i + digits_of(n as int).len()]),
    ensures
        parse_number(s, i) == Some((n, i + digits_of(n as int).len())),
{
    lemma_digits_of(n as int);
    lemma_digit_run_at(s, i, digits_of(n as int));
}

proof fn lemma_ctrl_char_inverse(c: char)
    requires
        (c as u32) < 0x20,
    ensures
        ctrl_char(c as u32 as int) == c,
{
    let v = c as u32;
    if v == 0x00 { assert(c == '\u{00}'); } else if v == 0x01 { assert(c == '\u{01}'); }
    else if v == 0x02 { assert(c == '\u{02}'); } else if v == 0x03 { assert(c == '\u{03}'); }
    else if v == 0x04 { assert(c == '\u{04}'); } else if v == 0x05 { assert(c == '\u{05}'); }
    else if v == 0x06 { assert(c == '\u{06}'); } else if v == 0x07 { assert(c == '\u{07}'); }
    else if v == 0x08 { assert(c == '\u{08}'); } else if v == 0x09 { assert(c == '\u{09}'); }
    else if v == 0x0a { assert(c == '\u{0a}'); } else if v == 0x0b { assert(c == '\u{0b}'); }
    else if v == 0x0c { assert(c == '\u{0c}'); } else if v == 0x0d { assert(c == '\u{0d}'); }
    else if v == 0x0e { assert(c == '\u{0e}'); } else if v == 0x0f { assert(c == '\u{0f}'); }
    else if v == 0x10 { assert(c == '\u{10}'); } else if v == 0x11 { assert(c == '\u{11}'); }
    else if v == 0x12 { assert(c == '\u{12}'); } else if v == 0x13 { assert(c == '\u{13}'); }
    else if v == 0x14 { assert(c == '\u{14}'); } else if v == 0x15 { assert(c == '\u{15}'); }
    else if v == 0x16 { assert(c == '\u{16}'); } else if v == 0x17 { assert(c == '\u{17}'); }
    else if v == 0x18 { assert(c == '\u{18}'); } else if v == 0x19 { assert(c == '\u{19}'); }
    else if v == 0x1a { assert(c == '\u{1a}'); } else if v == 0x1b { assert(c == '\u{1b}'); }
    else if v == 0x1c { assert(c == '\u{1c}'); } else if v == 0x1d { assert(c == '\u{1d}'); }
    else if v == 0x1e { assert(c == '\u{1e}'); } else { assert(c == '\u{1f}'); }
}

/// Parsing a string literal gives back what was escaped into it.
proof fn lemma_parse_string_at(s: Seq<char>, i: int, t: Seq<char>)
    requires
        0 <= i,
        i + esc(t).len() + 1 <= s.len(),
        s.subrange(i, i + esc(t).len() + 1) == esc(t) + seq!['"'],
    ensures
        parse_string_body(s, i) == Some((t, i + esc(t).len() + 1)),
    decreases t.len(),
{
    let p = esc(t) + seq!['"'];
    assert forall|k: int| 0 <= k < p.len() implies s[i + k] == p[k] by {
        assert(p[k] == s.subrange(i, i + p.len())[k]);
    }
    if t.len() == 0 {
        assert(s[i + 0] == p[0]);
        assert(s[i] == '"');
    } else {
        let t0 = t[0];
        let tr = t.drop_first();
        let e0 = esc_char(t0);
        assert(esc(t) == e0 + esc(tr));
        let l0 = e0.len();
        lemma_concat_associative(e0, esc(tr), seq!['"']);
        assert(p == e0 + (esc(tr) + seq!['"']));
        assert forall|k: int| 0 <= k < l0 implies s[i + k] == e0[k] by {
            assert(s[i + k] == p[k]);
        }
        assert(s.subrange(i + l0, i + l0 + esc(tr).len() + 1) =~= esc(tr) + seq!['"']) by {
            assert forall|k: int| 0 <= k < esc(tr).len() + 1 implies s.subrange(
                i + l0,
                i + l0 + esc(tr).len() + 1,
            )[k] == (esc(tr) + seq!['"'])[k] by {
                assert(s[i + (l0 + k)] == p[l0 + k]);
            }
        }
        lemma_parse_string_at(s, i + l0, tr);
        assert(seq![t0] + tr =~= t);
        assert(s[i + 0] == p[0]);
        if l0 >= 2 {
            assert(s[i + 1] == p[1]);
        }
        if l0 == 6 {
            assert(s[i + 2] == p[2]);
            assert(s[i + 3] == p[3]);
            assert(s[i + 4] == p[4]);
            assert(s[i + 5] == p[5]);
        }
        if t0 == '"' {
            assert(s[i] == '\\' && s[i + 1] == '"');
        } else if t0 == '\\' {
            assert(s[i] == '\\' && s[i + 1] == '\\');
        } else if t0 == '\n' {
            assert(s[i] == '\\' && s[i + 1] == 'n');
        } else if t0 == '\t' {
            assert(s[i] == '\\' && s[i + 1] == 't');
        } else if t0 == '\r' {
            assert(s[i] == '\\' && s[i + 1] == 'r');
        } else if (t0 as u32) < 0x20 {
            let v = t0 as u32 as int;
            assert(e0 == seq!['\\', 'u', '0', '0', hex_char(v / 16), hex_char(v % 16)]);
            assert(s[i] == '\\' && s[i + 1] == 'u' && s[i + 2] == '0' && s[i + 3] == '0');
            assert(s[i + 4] == hex_char(v / 16) && s[i + 5] == hex_char(v % 16));
            assert(hex_val(hex_char(v / 16)) == v / 16);
            assert(hex_val(hex_char(v % 16)) == v % 16);
            assert(hex_val(s[i + 4]) * 16 + hex_val(s[i + 5]) == v);
            lemma_ctrl_char_inverse(t0);
            assert(ctrl_char(v) == t0);
        } else {
            assert(s[i] == t0);
        }
    }
}

/// A quoted string is read as a string value.
proof fn lemma_value_str_at(s: Seq<char>, i: int, t: Seq<char>)
    requires
        0 <= i,
        match_lit(s, i, quoted(t)),
    ensures
        parse_value(s, i) == Some((JVal::Str(t), i + quoted(t).len())),
{
    lemma_lit_chars(s, i, quoted(t));
    assert(s[i] == '"') by {
        assert(s.subrange(i, i + quoted(t).len())[0] == s[i]);
        assert(quoted(t)[0] == '"');
    }
    lemma_concat_associative(seq!['"'], esc(t), seq!['"']);
    assert(quoted(t) == seq!['"'] + (esc(t) + seq!['"']));
    assert(s.subrange(i + 1, i + 1 + esc(t).len() + 1) =~= esc(t) + seq!['"']) by {
        assert forall|k: int| 0 <= k < esc(t).len() + 1 implies s.subrange(
            i + 1,
            i + 1 + esc(t).len() + 1,
        )[k] == (esc(t) + seq!['"'])[k] by {
            assert(s[i + (1 + k)] == quoted(t)[1 + k]);
        }
    }
    lemma_parse_string_at(s, i + 1, t);
}

/// A digit run is read as a number value when no digit follows it.
proof fn lemma_value_num_at(s: Seq<char>, i: int, n: u32)
    requires
        0 <= i,
        match_lit(s, i, digits_of(n as int)),
        i + digits_of(n as int).len() == s.len() || !is_digit(s[i + digits_of(n as int).len()]),
    ensures
        parse_value(s, i) == Some((JVal::Num(n), i + digits_of(n as int).len())),
{
    lemma_digits_of(n as int);
    lemma_lit_chars(s, i, digits_of(n as int));
    assert(is_digit(s[i])) by {
        assert(s.subrange(i, i + digits_of(n as int).len())[0] == s[i]);
        assert(s[i] == digits_of(n as int)[0]);
    }
    assert(s[i] != '"');
    lemma_parse_number_at(s, i, n);
}

/// `true` and `false` are read as the boolean values.
proof fn lemma_value_bool_at(s: Seq<char>, i: int, b: bool)
    requires
        0 <= i,
        match_lit(s, i, if b {
            "true"@
        } else {
            "false"@
        }),
    ensures
        parse_value(s, i) == Some(
            (JVal::Bool(b), i + if b {
                "true"@.len() as int
            } else {
                "false"@.len() as int
            }),
        ),
{
    reveal_strlit("true");
    reveal_strlit("false");
    if b {
        lemma_lit_chars(s, i, "true"@);
        assert(s[i] == 't') by {
            assert(s.subrange(i, i + "true"@.len())[0] == s[i]);
        }
        assert(!is_digit(s[i]));
    } else {
        lemma_lit_chars(s, i, "false"@);
        assert(s[i] == 'f') by {
            assert(s.subrange(i, i + "false"@.len())[0] == s[i]);
        }
        assert(!is_digit(s[i]));
        assert(!match_lit(s, i, "true"@)) by {
            if match_lit(s, i, "true"@) {
                assert(s.subrange(i, i + 4)[0] == s[i]);
            }
        }
    }
}

/// `null` is read as the null value.
proof fn lemma_value_null_at(s: Seq<char>, i: int)
    requires
        0 <= i,
        match_lit(s, i, "null"@),
    ensures
        parse_value(s, i) == Some((JVal::Null, i + "null"@.len())),
{
    reveal_strlit("true");
    reveal_strlit("false");
    reveal_strlit("null");
    lemma_lit_chars(s, i, "null"@);
    assert(s[i] == 'n') by {
        assert(s.subrange(i, i + "null"@.len())[0] == s[i]);
    }
    assert(!is_digit(s[i]));
    assert(!match_lit(s, i, "true"@)) by {
        if match_lit(s, i, "true"@) {
            assert(s.subrange(i, i + 4)[0] == s[i]);
        }
    }
    assert(!match_lit(s, i, "false"@)) by {
        if match_lit(s, i, "false"@) {
            assert(s.subrange(i, i + 5)[0] == s[i]);
        }
    }
}

/// How an optional field's value is rendered, as a parsed scalar.
pub open spec fn jv_opt(v: Option<Seq<char>>) -> JVal {
    match v {
        Some(t) => JVal::Str(t),
        None => JVal::Null,
    }
}

/// An optional field's text is read back as the matching scalar.
proof fn lemma_value_opt_at(s: Seq<char>, i: int, o: Option<Seq<char>>)
    requires
        0 <= i,
        match_lit(s, i, json_of_opt(o)),
    ensures
        parse_value(s, i) == Some((jv_opt(o), i + json_of_opt(o).len())),
{
    match o {
        Some(t) => {
            lemma_value_str_at(s, i, t);
        },
        None => {
            lemma_value_null_at(s, i);
        },
    }
}

/// One `"key": value` member as written by the serializer.
pub open spec fn member_text(key: Seq<char>, val: Seq<char>) -> Seq<char> {
    seq!['"'] + key + "\": "@ + val
}

/// A character that the escaper leaves as itself.
pub open spec fn is_plain(c: char) -> bool {
    c != '"' && c != '\\' && (c as u32) >= 0x20
}

proof fn lemma_esc_plain(t: Seq<char>)
    requires
        forall|k: int| 0 <= k < t.len() ==> is_plain(#[trigger] t[k]),
    ensures
        esc(t) == t,
    decreases t.len(),
{
    if t.len() == 0 {
        assert(esc(t) =~= t);
    } else {
        assert(is_plain(t[0]));
        assert(esc_char(t[0]) == seq![t[0]]);
        lemma_esc_plain(t.drop_first());
        assert(seq![t[0]] + t.drop_first() =~= t);
    }
}

proof fn lemma_lit_split(s: Seq<char>, i: int, a: Seq<char>, b: Seq<char>)
    requires
        0 <= i,
        match_lit(s, i, a + b),
    ensures
        match_lit(s, i, a),
        match_lit(s, i + a.len(), b),
{
    let ab = a + b;
    lemma_lit_chars(s, i, ab);
    assert(s.subrange(i, i + a.len()) =~= a) by {
        assert forall|k: int| 0 <= k < a.len() implies s.subrange(i, i + a.len())[k] == a[k] by {
            assert(s[i + k] == ab[k]);
        }
    }
    assert(s.subrange(i + a.len(), i + a.len() + b.len()) =~= b) by {
        assert forall|k: int| 0 <= k < b.len() implies s.subrange(
            i + a.len(),
            i + a.len() + b.len(),
        )[k] == b[k] by {
            assert(s[i + (a.len() + k)] == ab[a.len() + k]);
        }
    }
}

proof fn lemma_lit_join(s: Seq<char>, i: int, a: Seq<char>, b: Seq<char>)
    requires
        0 <= i,
        match_lit(s, i, a),
        match_lit(s, i + a.len(), b),
    ensures
        match_lit(s, i, a + b),
{
    lemma_lit_chars(s, i, a);
    lemma_lit_chars(s, i + a.len(), b);
    assert(s.subrange(i, i + (a + b).len()) =~= a + b) by {
        assert forall|k: int| 0 <= k < a.len() + b.len() implies s.subrange(
            i,
            i + (a + b).len(),
        )[k] == (a + b)[k] by {
            if k < a.len() {
                assert(s[i + k] == a[k]);
            } else {
                assert(s[i + a.len() + (k - a.len())] == b[k - a.len()]);
                assert(i + k == i + a.len() + (k - a.len()));
            }
        }
    }
}

proof fn lemma_lit_sub(s: Seq<char>, i: int, a: Seq<char>, lo: int, hi: int)
    requires
        0 <= i,
        match_lit(s, i, a),
        0 <= lo <= hi <= a.len(),
    ensures
        match_lit(s, i + lo, a.subrange(lo, hi)),
{
    lemma_lit_chars(s, i, a);
    assert(s.subrange(i + lo, i + lo + (hi - lo)) =~= a.subrange(lo, hi)) by {
        assert forall|k: int| 0 <= k < hi - lo implies s.subrange(
            i + lo,
            i + lo + (hi - lo),
        )[k] == a.subrange(lo, hi)[k] by {
            assert(s[i + (lo + k)] == a[lo + k]);
        }
    }
}

proof fn lemma_lit_char0(s: Seq<char>, i: int, w: Seq<char>)
    requires
        0 <= i,
        match_lit(s, i, w),
        w.len() > 0,
    ensures
        s[i] == w[0],
        i < s.len(),
{
    assert(s.subrange(i, i + w.len())[0] == s[i]);
}

/// A `"key": value` member parses as the pair it denotes.
proof fn lemma_member_at(s: Seq<char>, i: int, key: Seq<char>, vtext: Seq<char>, v: JVal)
    requires
        0 <= i,
        match_lit(s, i, member_text(key, vtext)),
        esc(key) == key,
        vtext.len() > 0,
        !is_ws(vtext[0]),
        parse_value(s, i + key.len() + 4) == Some((v, i + member_text(key, vtext).len())),
    ensures
        parse_member(s, i) == Some(((key, v), i + member_text(key, vtext).len())),
{
    reveal_strlit("\": ");
    let kl = key.len();
    let mt = member_text(key, vtext);
    assert(mt.len() == kl + 4 + vtext.len());
    lemma_lit_split(s, i, seq!['"'] + key + "\": "@, vtext);
    lemma_lit_split(s, i, seq!['"'] + key, "\": "@);
    lemma_lit_split(s, i, seq!['"'], key);
    lemma_lit_char0(s, i, seq!['"']);
    // the key and its closing quote form the string literal the parser reads
    assert("\": "@[0] == '"');
    lemma_lit_sub(s, i + 1 + kl, "\": "@, 0, 1);
    assert("\": "@.subrange(0, 1) =~= seq!['"']);
    lemma_lit_join(s, i + 1, key, seq!['"']);
    assert(esc(key) + seq!['"'] == key + seq!['"']);
    assert(s.subrange(i + 1, i + 1 + esc(key).len() + 1) == esc(key) + seq!['"']);
    lemma_parse_string_at(s, i + 1, key);
    // the colon stands right after the closing quote
    lemma_lit_sub(s, i + 1 + kl, "\": "@, 1, 2);
    assert("\": "@.subrange(1, 2) =~= seq![':']);
    lemma_lit_char0(s, i + kl + 2, seq![':']);
    assert(!is_ws(':'));
    assert(skip_ws(s, i + kl + 2) == i + kl + 2);
    // one space, then the value
    lemma_lit_sub(s, i + 1 + kl, "\": "@, 2, 3);
    assert("\": "@.subrange(2, 3) =~= seq![' ']);
    lemma_lit_char0(s, i + kl + 4, vtext);
    lemma_skip_ws_run(s, i + kl + 3, seq![' ']);
    assert(parse_member(s, i) == Some(((key, v), i + mt.len())));
}

/// The member values a task is written with.
pub open spec fn members_of_task(t: TaskView) -> Seq<(Seq<char>, JVal)> {
    seq![
        ("id"@, JVal::Num(t.id)),
        ("title"@, JVal::Str(t.title)),
        ("description"@, jv_opt(t.description)),
        ("class"@, jv_opt(t.class)),
        ("due_date"@, jv_opt(t.due_date)),
        ("complete"@, JVal::Bool(t.complete)),
    ]
}

/// Reading the written members back as a task yields the task itself.
proof fn lemma_task_of_members(t: TaskView)
    ensures
        task_of_members(members_of_task(t)) == Some(t),
{
    let ms = members_of_task(t);
    assert(take_opt(ms, 2, "description"@) == Some((t.description, 3int)));
    assert(take_opt(ms, 3, "class"@) == Some((t.class, 4int)));
    assert(take_opt(ms, 4, "due_date"@) == Some((t.due_date, 5int)));
}

/// Whether an optional field's text starts like a value.
proof fn lemma_opt_text_head(o: Option<Seq<char>>)
    ensures
        json_of_opt(o).len() > 0,
        !is_ws(json_of_opt(o)[0]),
{
    reveal_strlit("null");
    match o {
        Some(t) => {
            assert(quoted(t)[0] == '"');
        },
        None => {
            assert("null"@[0] == 'n');
        },
    }
}

// The positions of the atoms of a written task object, relative to its
// start.
pub open spec fn p_d(p: int, t: TaskView) -> int {
    p + "{\n    \"id\": "@.len()
}

pub open spec fn p_a2(p: int, t: TaskView) -> int {
    p_d(p, t) + digits_of(t.id as int).len()
}

pub open spec fn p_e(p: int, t: TaskView) -> int {
    p_a2(p, t) + ",\n    \"title\": \""@.len()
}

pub open spec fn p_a3(p: int, t: TaskView) -> int {
    p_e(p, t) + esc(t.title).len()
}

pub open spec fn p_o1(p: int, t: TaskView) -> int {
    p_a3(p, t) + "\",\n    \"description\": "@.len()
}

pub open spec fn p_a4(p: int, t: TaskView) -> int {
    p_o1(p, t) + json_of_opt(t.description).len()
}

pub open spec fn p_o2(p: int, t: TaskView) -> int {
    p_a4(p, t) + ",\n    \"class\": "@.len()
}

pub open spec fn p_a5(p: int, t: TaskView) -> int {
    p_o2(p, t) + json_of_opt(t.class).len()
}

pub open spec fn p_o3(p: int, t: TaskView) -> int {
    p_a5(p, t) + ",\n    \"due_date\": "@.len()
}

pub open spec fn p_a6(p: int, t: TaskView) -> int {
    p_o3(p, t) + json_of_opt(t.due_date).len()
}

pub open spec fn p_b(p: int, t: TaskView) -> int {
    p_a6(p, t) + ",\n    \"complete\": "@.len()
}

pub open spec fn p_a7(p: int, t: TaskView) -> int {
    p_b(p, t) + (if t.complete {
        "true"@
    } else {
        "false"@
    }).len()
}

proof fn lemma_task_atoms(s: Seq<char>, p: int, t: TaskView)
    requires
        0 <= p,
        match_lit(s, p, json_of_task(t)),
    ensures
        match_lit(s, p, "{\n    \"id\": "@),
        match_lit(s, p_d(p, t), digits_of(t.id as int)),
        match_lit(s, p_a2(p, t), ",\n    \"title\": \""@),
        match_lit(s, p_e(p, t), esc(t.title)),
        match_lit(s, p_a3(p, t), "\",\n    \"description\": "@),
        match_lit(s, p_o1(p, t), json_of_opt(t.description)),
        match_lit(s, p_a4(p, t), ",\n    \"class\": "@),
        match_lit(s, p_o2(p, t), json_of_opt(t.class)),
        match_lit(s, p_a5(p, t), ",\n    \"due_date\": "@),
        match_lit(s, p_o3(p, t), json_of_opt(t.due_date)),
        match_lit(s, p_a6(p, t), ",\n    \"complete\": "@),
        match_lit(s, p_b(p, t), if t.complete {
            "true"@
        } else {
            "false"@
        }),
        match_lit(s, p_a7(p, t), "\n  }"@),
        p_a7(p, t) + "\n  }"@.len() == p + json_of_task(t).len(),
{
    let a1 = "{\n    \"id\": "@;
    let d = digits_of(t.id as int);
    let a2 = ",\n    \"title\": \""@;
    let e = esc(t.title);
    let a3 = "\",\n    \"description\": "@;
    let o1 = json_of_opt(t.description);
    let a4 = ",\n    \"class\": "@;
    let o2 = json_of_opt(t.class);
    let a5 = ",\n    \"due_date\": "@;
    let o3 = json_of_opt(t.due_date);
    let a6 = ",\n    \"complete\": "@;
    let b = if t.complete { "true"@ } else { "false"@ };
    let a7 = "\n  }"@;
    assert(json_of_task(t) == a1 + d + a2 + e + a3 + o1 + a4 + o2 + a5 + o3 + a6 + b + a7);
    lemma_lit_split(s, p, a1 + d + a2 + e + a3 + o1 + a4 + o2 + a5 + o3 + a6 + b, a7);
    lemma_lit_split(s, p, a1 + d + a2 + e + a3 + o1 + a4 + o2 + a5 + o3 + a6, b);
    lemma_lit_split(s, p, a1 + d + a2 + e + a3 + o1 + a4 + o2 + a5 + o3, a6);
    lemma_lit_split(s, p, a1 + d + a2 + e + a3 + o1 + a4 + o2 + a5, o3);
    lemma_lit_split(s, p, a1 + d + a2 + e + a3 + o1 + a4 + o2, a5);
    lemma_lit_split(s, p, a1 + d + a2 + e + a3 + o1 + a4, o2);
    lemma_lit_split(s, p, a1 + d + a2 + e + a3 + o1, a4);
    lemma_lit_split(s, p, a1 + d + a2 + e + a3, o1);
    lemma_lit_split(s, p, a1 + d + a2 + e, a3);
    lemma_lit_split(s, p, a1 + d + a2, e);
    lemma_lit_split(s, p, a1 + d, a2);
    lemma_lit_split(s, p, a1, d);
}

proof fn lemma_member1_at(s: Seq<char>, p: int, t: TaskView)
    requires
        0 <= p,
        match_lit(s, p, json_of_task(t)),
    ensures
        parse_member(s, p + 6) == Some((("id"@, JVal::Num(t.id)), p_a2(p, t))),
{
    reveal_strlit("{\n    \"id\": ");
    reveal_strlit(",\n    \"title\": \"");
    reveal_strlit("id");
    reveal_strlit("\": ");
    lemma_task_atoms(s, p, t);
    let a1 = "{\n    \"id\": "@;
    let d = digits_of(t.id as int);
    lemma_digits_of(t.id as int);
    assert(esc("id"@) == "id"@) by {
        assert(forall|k: int| 0 <= k < "id"@.len() ==> is_plain(#[trigger] "id"@[k]));
        lemma_esc_plain("id"@);
    }
    lemma_lit_sub(s, p, a1, 6, 12);
    lemma_lit_join(s, p + 6, a1.subrange(6, 12), d);
    assert(a1.subrange(6, 12) =~= seq!['"'] + "id"@ + "\": "@);
    assert(member_text("id"@, d) == a1.subrange(6, 12) + d);
    lemma_lit_char0(s, p_a2(p, t), ",\n    \"title\": \""@);
    assert(!is_digit(s[p_a2(p, t)]));
    lemma_value_num_at(s, p_d(p, t), t.id);
    assert(is_digit(d[0]));
    assert(!is_ws(d[0]));
    lemma_member_at(s, p + 6, "id"@, d, JVal::Num(t.id));
}

proof fn lemma_member2_at(s: Seq<char>, p: int, t: TaskView)
    requires
        0 <= p,
        match_lit(s, p, json_of_task(t)),
    ensures
        parse_member(s, p_a2(p, t) + 6) == Some((("title"@, JVal::Str(t.title)), p_a3(p, t) + 1)),
{
    reveal_strlit(",\n    \"title\": \"");
    reveal_strlit("\",\n    \"description\": ");
    reveal_strlit("title");
    reveal_strlit("\": ");
    lemma_task_atoms(s, p, t);
    let a2 = ",\n    \"title\": \""@;
    let e = esc(t.title);
    let a3 = "\",\n    \"description\": "@;
    let pa2 = p_a2(p, t);
    assert(esc("title"@) == "title"@) by {
        assert(forall|k: int| 0 <= k < "title"@.len() ==> is_plain(#[trigger] "title"@[k]));
        lemma_esc_plain("title"@);
    }
    lemma_lit_sub(s, pa2, a2, 6, 16);
    lemma_lit_join(s, pa2 + 6, a2.subrange(6, 16), e);
    lemma_lit_sub(s, p_a3(p, t), a3, 0, 1);
    lemma_lit_join(s, pa2 + 6, a2.subrange(6, 16) + e, a3.subrange(0, 1));
    assert(member_text("title"@, quoted(t.title)) =~= a2.subrange(6, 16) + e + a3.subrange(0, 1));
    lemma_lit_sub(s, pa2, a2, 15, 16);
    lemma_lit_join(s, pa2 + 15, a2.subrange(15, 16), e);
    lemma_lit_join(s, pa2 + 15, a2.subrange(15, 16) + e, a3.subrange(0, 1));
    assert(quoted(t.title) =~= a2.subrange(15, 16) + e + a3.subrange(0, 1));
    lemma_value_str_at(s, pa2 + 15, t.title);
    assert(!is_ws(quoted(t.title)[0])) by {
        assert(quoted(t.title)[0] == '"');
    }
    lemma_member_at(s, pa2 + 6, "title"@, quoted(t.title), JVal::Str(t.title));
}

proof fn lemma_member3_at(s: Seq<char>, p: int, t: TaskView)
    requires
        0 <= p,
        match_lit(s, p, json_of_task(t)),
    ensures
        parse_member(s, p_a3(p, t) + 7) == Some(
            (("description"@, jv_opt(t.description)), p_a4(p, t)),
        ),
{
    reveal_strlit("\",\n    \"description\": ");
    reveal_strlit("description");
    reveal_strlit("\": ");
    lemma_task_atoms(s, p, t);
    let a3 = "\",\n    \"description\": "@;
    let o1 = json_of_opt(t.description);
    let pa3 = p_a3(p, t);
    assert(esc("description"@) == "description"@) by {
        assert(forall|k: int| 0 <= k < "description"@.len() ==> is_plain(
            #[trigger] "description"@[k],
        ));
        lemma_esc_plain("description"@);
    }
    lemma_opt_text_head(t.description);
    lemma_lit_sub(s, pa3, a3, 7, 22);
    lemma_lit_join(s, pa3 + 7, a3.subrange(7, 22), o1);
    assert(a3.subrange(7, 22) =~= seq!['"'] + "description"@ + "\": "@);
    assert(member_text("description"@, o1) == a3.subrange(7, 22) + o1);
    lemma_value_opt_at(s, p_o1(p, t), t.description);
    lemma_member_at(s, pa3 + 7, "description"@, o1, jv_opt(t.description));
}

proof fn lemma_member4_at(s: Seq<char>, p: int, t: TaskView)
    requires
        0 <= p,
        match_lit(s, p, json_of_task(t)),
    ensures
        parse_member(s, p_a4(p, t) + 6) == Some((("class"@, jv_opt(t.class)), p_a5(p, t))),
{
    reveal_strlit(",\n    \"class\": ");
    reveal_strlit("class");
    reveal_strlit("\": ");
    lemma_task_atoms(s, p, t);
    let a4 = ",\n    \"class\": "@;
    let o2 = json_of_opt(t.class);
    let pa4 = p_a4(p, t);
    assert(esc("class"@) == "class"@) by {
        assert(forall|k: int| 0 <= k < "class"@.len() ==> is_plain(#[trigger] "class"@[k]));
        lemma_esc_plain("class"@);
    }
    lemma_opt_text_head(t.class);
    lemma_lit_sub(s, pa4, a4, 6, 15);
    lemma_lit_join(s, pa4 + 6, a4.subrange(6, 15), o2);
    assert(a4.subrange(6, 15) =~= seq!['"'] + "class"@ + "\": "@);
    assert(member_text("class"@, o2) == a4.subrange(6, 15) + o2);
    lemma_value_opt_at(s, p_o2(p, t), t.class);
    lemma_member_at(s, pa4 + 6, "class"@, o2, jv_opt(t.class));
}

proof fn lemma_member5_at(s: Seq<char>, p: int, t: TaskView)
    requires
        0 <= p,
        match_lit(s, p, json_of_task(t)),
    ensures
        parse_member(s, p_a5(p, t) + 6) == Some((("due_date"@, jv_opt(t.due_date)), p_a6(p, t))),
{
    reveal_strlit(",\n    \"due_date\": ");
    reveal_strlit("due_date");
    reveal_strlit("\": ");
    lemma_task_atoms(s, p, t);
    let a5 = ",\n    \"due_date\": "@;
    let o3 = json_of_opt(t.due_date);
    let pa5 = p_a5(p, t);
    assert(esc("due_date"@) == "due_date"@) by {
        assert(forall|k: int| 0 <= k < "due_date"@.len() ==> is_plain(#[trigger] "due_date"@[k]));
        lemma_esc_plain("due_date"@);
    }
    lemma_opt_text_head(t.due_date);
    lemma_lit_sub(s, pa5, a5, 6, 18);
    lemma_lit_join(s, pa5 + 6, a5.subrange(6, 18), o3);
    assert(a5.subrange(6, 18) =~= seq!['"'] + "due_date"@ + "\": "@);
    assert(member_text("due_date"@, o3) == a5.subrange(6, 18) + o3);
    lemma_value_opt_at(s, p_o3(p, t), t.due_date);
    lemma_member_at(s, pa5 + 6, "due_date"@, o3, jv_opt(t.due_date));
}

proof fn lemma_member6_at(s: Seq<char>, p: int, t: TaskView)
    requires
        0 <= p,
        match_lit(s, p, json_of_task(t)),
    ensures
        parse_member(s, p_a6(p, t) + 6) == Some(
            (("complete"@, JVal::Bool(t.complete)), p_a7(p, t)),
        ),
{
    reveal_strlit(",\n    \"complete\": ");
    reveal_strlit("complete");
    reveal_strlit("\": ");
    reveal_strlit("true");
    reveal_strlit("false");
    lemma_task_atoms(s, p, t);
    let a6 = ",\n    \"complete\": "@;
    let b = if t.complete { "true"@ } else { "false"@ };
    let pa6 = p_a6(p, t);
    assert(esc("complete"@) == "complete"@) by {
        assert(forall|k: int| 0 <= k < "complete"@.len() ==> is_plain(#[trigger] "complete"@[k]));
        lemma_esc_plain("complete"@);
    }
    lemma_lit_sub(s, pa6, a6, 6, 18);
    lemma_lit_join(s, pa6 + 6, a6.subrange(6, 18), b);
    assert(a6.subrange(6, 18) =~= seq!['"'] + "complete"@ + "\": "@);
    assert(member_text("complete"@, b) == a6.subrange(6, 18) + b);
    lemma_value_bool_at(s, p_b(p, t), t.complete);
    assert(!is_ws(b[0])) by {
        lemma_lit_char0(s, p_b(p, t), b);
    }
    lemma_member_at(s, pa6 + 6, "complete"@, b, JVal::Bool(t.complete));
}

/// The whitespace gaps of a written task object, as the parser crosses them.
proof fn lemma_task_gaps(s: Seq<char>, p: int, t: TaskView)
    requires
        0 <= p,
        match_lit(s, p, json_of_task(t)),
    ensures
        s[p] == '{',
        p < s.len(),
        skip_ws(s, p + 1) == p + 6,
        p + 6 < s.len() && s[p + 6] == '"',
        s[p_a2(p, t)] == ',' && p_a2(p, t) < s.len(),
        skip_ws(s, p_a2(p, t)) == p_a2(p, t),
        skip_ws(s, p_a2(p, t) + 1) == p_a2(p, t) + 6,
        s[p_a3(p, t) + 1] == ',' && p_a3(p, t) + 1 < s.len(),
        skip_ws(s, p_a3(p, t) + 1) == p_a3(p, t) + 1,
        skip_ws(s, p_a3(p, t) + 2) == p_a3(p, t) + 7,
        s[p_a4(p, t)] == ',' && p_a4(p, t) < s.len(),
        skip_ws(s, p_a4(p, t)) == p_a4(p, t),
        skip_ws(s, p_a4(p, t) + 1) == p_a4(p, t) + 6,
        s[p_a5(p, t)] == ',' && p_a5(p, t) < s.len(),
        skip_ws(s, p_a5(p, t)) == p_a5(p, t),
        skip_ws(s, p_a5(p, t) + 1) == p_a5(p, t) + 6,
        s[p_a6(p, t)] == ',' && p_a6(p, t) < s.len(),
        skip_ws(s, p_a6(p, t)) == p_a6(p, t),
        skip_ws(s, p_a6(p, t) + 1) == p_a6(p, t) + 6,
        skip_ws(s, p_a7(p, t)) == p_a7(p, t) + 3,
        p_a7(p, t) + 3 < s.len() && s[p_a7(p, t) + 3] == '}',
        p_a7(p, t) + 4 == p + json_of_task(t).len(),
{
    reveal_strlit("{\n    \"id\": ");
    reveal_strlit(",\n    \"title\": \"");
    reveal_strlit("\",\n    \"description\": ");
    reveal_strlit(",\n    \"class\": ");
    reveal_strlit(",\n    \"due_date\": ");
    reveal_strlit(",\n    \"complete\": ");
    reveal_strlit("\n  }");
    lemma_task_atoms(s, p, t);
    let a1 = "{\n    \"id\": "@;
    let a2 = ",\n    \"title\": \""@;
    let a3 = "\",\n    \"description\": "@;
    let a4 = ",\n    \"class\": "@;
    let a5 = ",\n    \"due_date\": "@;
    let a6 = ",\n    \"complete\": "@;
    let a7 = "\n  }"@;

    lemma_lit_char0(s, p, a1);
    lemma_lit_sub(s, p, a1, 1, 6);
    assert(a1.subrange(1, 6) =~= seq!['\n', ' ', ' ', ' ', ' ']);
    lemma_lit_sub(s, p, a1, 6, 7);
    lemma_lit_char0(s, p + 6, a1.subrange(6, 7));
    assert(s[p + 6] == '"');
    lemma_skip_ws_run(s, p + 1, a1.subrange(1, 6));

    lemma_lit_char0(s, p_a2(p, t), a2);
    lemma_lit_sub(s, p_a2(p, t), a2, 1, 6);
    assert(a2.subrange(1, 6) =~= seq!['\n', ' ', ' ', ' ', ' ']);
    lemma_lit_sub(s, p_a2(p, t), a2, 6, 7);
    lemma_lit_char0(s, p_a2(p, t) + 6, a2.subrange(6, 7));
    assert(s[p_a2(p, t) + 6] == '"');
    lemma_skip_ws_run(s, p_a2(p, t) + 1, a2.subrange(1, 6));

    lemma_lit_sub(s, p_a3(p, t), a3, 1, 2);
    lemma_lit_char0(s, p_a3(p, t) + 1, a3.subrange(1, 2));
    assert(s[p_a3(p, t) + 1] == ',');
    lemma_lit_sub(s, p_a3(p, t), a3, 2, 7);
    assert(a3.subrange(2, 7) =~= seq!['\n', ' ', ' ', ' ', ' ']);
    lemma_lit_sub(s, p_a3(p, t), a3, 7, 8);
    lemma_lit_char0(s, p_a3(p, t) + 7, a3.subrange(7, 8));
    assert(s[p_a3(p, t) + 7] == '"');
    lemma_skip_ws_run(s, p_a3(p, t) + 2, a3.subrange(2, 7));

    lemma_lit_char0(s, p_a4(p, t), a4);
    lemma_lit_sub(s, p_a4(p, t), a4, 1, 6);
    assert(a4.subrange(1, 6) =~= seq!['\n', ' ', ' ', ' ', ' ']);
    lemma_lit_sub(s, p_a4(p, t), a4, 6, 7);
    lemma_lit_char0(s, p_a4(p, t) + 6, a4.subrange(6, 7));
    assert(s[p_a4(p, t) + 6] == '"');
    lemma_skip_ws_run(s, p_a4(p, t) + 1, a4.subrange(1, 6));

    lemma_lit_char0(s, p_a5(p, t), a5);
    lemma_lit_sub(s, p_a5(p, t), a5, 1, 6);
    assert(a5.subrange(1, 6) =~= seq!['\n', ' ', ' ', ' ', ' ']);
    lemma_lit_sub(s, p_a5(p, t), a5, 6, 7);
    lemma_lit_char0(s, p_a5(p, t) + 6, a5.subrange(6, 7));
    assert(s[p_a5(p, t) + 6] == '"');
    lemma_skip_ws_run(s, p_a5(p, t) + 1, a5.subrange(1, 6));

    lemma_lit_char0(s, p_a6(p, t), a6);
    lemma_lit_sub(s, p_a6(p, t), a6, 1, 6);
    assert(a6.subrange(1, 6) =~= seq!['\n', ' ', ' ', ' ', ' ']);
    lemma_lit_sub(s, p_a6(p, t), a6, 6, 7);
    lemma_lit_char0(s, p_a6(p, t) + 6, a6.subrange(6, 7));
    assert(s[p_a6(p, t) + 6] == '"');
    lemma_skip_ws_run(s, p_a6(p, t) + 1, a6.subrange(1, 6));

    lemma_lit_sub(s, p_a7(p, t), a7, 0, 3);
    assert(a7.subrange(0, 3) =~= seq!['\n', ' ', ' ']);
    lemma_lit_sub(s, p_a7(p, t), a7, 3, 4);
    lemma_lit_char0(s, p_a7(p, t) + 3, a7.subrange(3, 4));
    assert(s[p_a7(p, t) + 3] == '}');
    lemma_skip_ws_run(s, p_a7(p, t), a7.subrange(0, 3));
}

/// A written task object parses back into exactly its six members.
proof fn lemma_object_of_task(s: Seq<char>, p: int, t: TaskView)
    requires
        0 <= p,
        match_lit(s, p, json_of_task(t)),
    ensures
        parse_object(s, p) == Some((members_of_task(t), p + json_of_task(t).len())),
{
    lemma_task_gaps(s, p, t);
    lemma_member1_at(s, p, t);
    lemma_member2_at(s, p, t);
    lemma_member3_at(s, p, t);
    lemma_member4_at(s, p, t);
    lemma_member5_at(s, p, t);
    lemma_member6_at(s, p, t);
    let pend = p + json_of_task(t).len();
    let m3 = ("description"@, jv_opt(t.description));
    let m4 = ("class"@, jv_opt(t.class));
    let m5 = ("due_date"@, jv_opt(t.due_date));
    let m6 = ("complete"@, JVal::Bool(t.complete));
    let e0: Seq<(Seq<char>, JVal)> = Seq::empty();
    assert(parse_members_rest(s, p_a7(p, t)) == Some((e0, pend)));
    assert(parse_members_rest(s, p_a6(p, t)) == Some((seq![m6] + e0, pend)));
    assert(parse_members_rest(s, p_a5(p, t)) == Some((seq![m5] + (seq![m6] + e0), pend)));
    assert(parse_members_rest(s, p_a4(p, t)) == Some(
        (seq![m4] + (seq![m5] + (seq![m6] + e0)), pend),
    ));
    assert(parse_members_rest(s, p_a3(p, t) + 1) == Some(
        (seq![m3] + (seq![m4] + (seq![m5] + (seq![m6] + e0))), pend),
    ));
    assert(parse_members_rest(s, p_a2(p, t)) == Some(
        (
            seq![("title"@, JVal::Str(t.title))] + (seq![m3] + (seq![m4] + (seq![m5] + (seq![m6]
                + e0)))),
            pend,
        ),
    ));
    assert(s[p + 6] != '}');
    assert(parse_object(s, p) == Some(
        (
            seq![("id"@, JVal::Num(t.id))] + (seq![("title"@, JVal::Str(t.title))] + (seq![m3] + (
            seq![m4] + (seq![m5] + (seq![m6] + e0))))),
            pend,
        ),
    ));
    assert(seq![("id"@, JVal::Num(t.id))] + (seq![("title"@, JVal::Str(t.title))] + (seq![m3] + (
    seq![m4] + (seq![m5] + (seq![m6] + e0))))) =~= members_of_task(t));
}

/// A written task object parses back as the task itself.
proof fn lemma_parse_task_at(s: Seq<char>, p: int, t: TaskView)
    requires
        0 <= p,
        match_lit(s, p, json_of_task(t)),
    ensures
        parse_task(s, p) == Some((t, p + json_of_task(t).len())),
{
    lemma_object_of_task(s, p, t);
    lemma_task_of_members(t);
}

/// The document text that follows the first task of a non-empty array:
/// `, task` repeated, then the closing bracket on its own line.
pub open spec fn rest_text(ts: Seq<TaskView>) -> Seq<char>
    decreases ts.len(),
{
    if ts.len() == 0 {
        "\n]"@
    } else {
        ",\n  "@ + json_of_task(ts[0]) + rest_text(ts.drop_first())
    }
}

proof fn lemma_body_rest(ts: Seq<TaskView>)
    requires
        ts.len() >= 1,
    ensures
        json_tasks_body(ts) + "\n]"@ == json_of_task(ts[0]) + rest_text(ts.drop_first()),
    decreases ts.len(),
{
    if ts.len() == 1 {
        assert(json_tasks_body(ts) == json_of_task(ts[0]));
    } else {
        let dr = ts.drop_first();
        lemma_body_rest(dr);
        assert(rest_text(dr) =~= ",\n  "@ + (json_tasks_body(dr) + "\n]"@));
        assert((json_of_task(ts[0]) + ",\n  "@ + json_tasks_body(dr)) + "\n]"@ =~= json_of_task(
            ts[0],
        ) + rest_text(dr));
    }
}

proof fn lemma_task_first_char(s: Seq<char>, p: int, t: TaskView)
    requires
        0 <= p,
        match_lit(s, p, json_of_task(t)),
    ensures
        p < s.len(),
        s[p] == '{',
{
    reveal_strlit("{\n    \"id\": ");
    let a1 = "{\n    \"id\": "@;
    assert(json_of_task(t)[0] == a1[0]);
    lemma_lit_char0(s, p, json_of_task(t));
}

proof fn lemma_tasks_rest_at(s: Seq<char>, i: int, rest: Seq<TaskView>)
    requires
        0 <= i,
        match_lit(s, i, rest_text(rest)),
        i + rest_text(rest).len() == s.len(),
    ensures
        parse_tasks_rest(s, i) == Some((rest, s.len() as int)),
    decreases rest.len(),
{
    reveal_strlit("\n]");
    reveal_strlit(",\n  ");
    if rest.len() == 0 {
        lemma_lit_sub(s, i, "\n]"@, 0, 1);
        assert("\n]"@.subrange(0, 1) =~= seq!['\n']);
        lemma_lit_sub(s, i, "\n]"@, 1, 2);
        lemma_lit_char0(s, i + 1, "\n]"@.subrange(1, 2));
        assert(s[i + 1] == ']');
        lemma_skip_ws_run(s, i, "\n]"@.subrange(0, 1));
        assert(skip_ws(s, i) == i + 1);
        assert(rest =~= Seq::<TaskView>::empty());
        assert(i + 2 == s.len());
    } else {
        let t0 = rest[0];
        let jt = json_of_task(t0);
        let rt = rest_text(rest.drop_first());
        assert(rest_text(rest) == ",\n  "@ + jt + rt);
        lemma_lit_split(s, i, ",\n  "@ + jt, rt);
        lemma_lit_split(s, i, ",\n  "@, jt);
        assert(",\n  "@.len() == 4);
        let pj = i + 4;
        lemma_lit_char0(s, i, ",\n  "@);
        assert(s[i] == ',');
        assert(skip_ws(s, i) == i);
        lemma_lit_sub(s, i, ",\n  "@, 1, 4);
        assert(",\n  "@.subrange(1, 4) =~= seq!['\n', ' ', ' ']);
        lemma_task_first_char(s, pj, t0);
        assert(!is_ws(s[pj]));
        lemma_skip_ws_run(s, i + 1, ",\n  "@.subrange(1, 4));
        assert(skip_ws(s, i + 1) == pj);
        lemma_parse_task_at(s, pj, t0);
        lemma_tasks_rest_at(s, pj + jt.len(), rest.drop_first());
        assert(s[i] != ']');
        assert(parse_tasks_rest(s, i) == Some((seq![t0] + rest.drop_first(), s.len() as int)));
        assert(seq![t0] + rest.drop_first() =~= rest);
    }
}

/// Round trip: the store document written for any collection parses back
/// as exactly that collection — same IDs, fields, order and completion
/// flags.
#[verifier::rlimit(100)]
pub proof fn lemma_store_round_trip(ts: Seq<TaskView>)
    ensures
        parse_doc(json_of_tasks(ts)) == Some(ts),
{
    reveal_strlit("[]");
    reveal_strlit("[\n  ");
    let s = json_of_tasks(ts);
    if ts.len() == 0 {
        assert(s == "[]"@);
        assert(s.len() == 2 && s[0] == '[' && s[1] == ']');
        assert(skip_ws(s, 0) == 0);
        assert(skip_ws(s, 1) == 1);
        assert(skip_ws(s, 2) == 2);
        assert(ts =~= Seq::<TaskView>::empty());
    } else {
        let jt = json_of_task(ts[0]);
        let rt = rest_text(ts.drop_first());
        let body = json_tasks_body(ts);
        lemma_body_rest(ts);
        lemma_concat_associative("[\n  "@, body, "\n]"@);
        lemma_concat_associative("[\n  "@, jt, rt);
        assert(s == ("[\n  "@ + jt) + rt);
        assert(match_lit(s, 0, ("[\n  "@ + jt) + rt)) by {
            assert(s.subrange(0, s.len() as int) =~= s);
        }
        lemma_lit_split(s, 0, "[\n  "@ + jt, rt);
        lemma_lit_split(s, 0, "[\n  "@, jt);
        assert("[\n  "@.len() == 4);
        lemma_lit_char0(s, 0, "[\n  "@);
        assert(s[0] == '[');
        assert(skip_ws(s, 0) == 0);
        lemma_lit_sub(s, 0, "[\n  "@, 1, 4);
        assert("[\n  "@.subrange(1, 4) =~= seq!['\n', ' ', ' ']);
        lemma_task_first_char(s, 4, ts[0]);
        assert(!is_ws(s[4]));
        lemma_skip_ws_run(s, 1, "[\n  "@.subrange(1, 4));
        assert(skip_ws(s, 1) == 4);
        assert(s[4] == '{' && s[4] != ']');
        lemma_parse_task_at(s, 4, ts[0]);
        lemma_tasks_rest_at(s, 4 + jt.len() as int, ts.drop_first());
        assert(skip_ws(s, s.len() as int) == s.len());
        assert(seq![ts[0]] + ts.drop_first() =~= ts);
    }
}

} // verus!
