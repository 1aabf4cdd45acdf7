//! Writing a task collection out as its store document.

use vstd::prelude::*;
use vstd::seq_lib::lemma_concat_associative;
use vstd::string::StrSliceExecFns;
use vstd::string::StringExecFns;

use crate::json::{digit_char, digits_of, esc, esc_char, hex_char, json_of_opt, json_of_task,
    json_of_tasks, json_tasks_body, push_char, quoted};
use crate::task::{opt_view, tasks_view, Task, TaskView};

verus! {

fn digit_char_exec(d: u32) -> (c: char)
    requires
        d < 10,
    ensures
        c == digit_char(d as int),
{
    if d == 0 {
        '0'
    } else if d == 1 {
        '1'
    } else if d == 2 {
        '2'
    } else if d == 3 {
        '3'
    } else if d == 4 {
        '4'
    } else if d == 5 {
        '5'
    } else if d == 6 {
        '6'
    } else if d == 7 {
        '7'
    } else if d == 8 {
        '8'
    } else {
        '9'
    }
}

fn hex_char_exec(d: u32) -> (c: char)
    requires
        d < 16,
    ensures
        c == hex_char(d as int),
{
    if d < 10 {
        digit_char_exec(d)
    } else if d == 10 {
        'a'
    } else if d == 11 {
        'b'
    } else if d == 12 {
        'c'
    } else if d == 13 {
        'd'
    } else if d == 14 {
        'e'
    } else {
        'f'
    }
}

fn write_digits(out: &mut String, n: u32)
    ensures
        final(out)@ == old(out)@ + digits_of(n as int),
    decreases n,
{
    if n >= 10 {
        write_digits(out, n / 10);
        push_char(out, digit_char_exec(n % 10));
        proof {
            lemma_concat_associative(old(out)@, digits_of(n as int / 10), seq![
                digit_char(n as int % 10),
            ]);
        }
    } else {
        push_char(out, digit_char_exec(n));
    }
}

proof fn lemma_esc_push(a: Seq<char>, c: char)
    ensures
        esc(a.push(c)) == esc(a) + esc_char(c),
    decreases a.len(),
{
    if a.len() == 0 {
        assert(a.push(c) =~= seq![c]);
        assert(seq![c].drop_first() =~= Seq::<char>::empty());
        assert(esc(seq![c]) == esc_char(c) + esc(Seq::<char>::empty()));
        assert(esc_char(c) + Seq::<char>::empty() =~= esc_char(c));
        assert(esc(a) + esc_char(c) =~= esc_char(c));
    } else {
        assert(a.push(c).drop_first() =~= a.drop_first().push(c));
        lemma_esc_push(a.drop_first(), c);
        lemma_concat_associative(esc_char(a[0]), esc(a.drop_first()), esc_char(c));
        assert(esc(a.push(c)) == esc_char(a[0]) + esc(a.drop_first().push(c)));
    }
}

fn write_escaped(out: &mut String, s: &str)
    ensures
        final(out)@ == old(out)@ + esc(s@),
{
    let n = s.unicode_len();
    let mut i: usize = 0;
    proof {
        assert(s@.subrange(0, 0) =~= Seq::<char>::empty());
        assert(out@ + esc(s@.subrange(0, 0)) =~= out@);
    }
    while i < n
        invariant
            n == s@.len(),
            0 <= i <= n,
            out@ == old(out)@ + esc(s@.subrange(0, i as int)),
        decreases n - i,
    {
        let ghost pre = s@.subrange(0, i as int);
        let c = s.get_char(i);
        proof {
            assert(pre.push(c) =~= s@.subrange(0, i + 1));
            lemma_esc_push(pre, c);
            lemma_concat_associative(old(out)@, esc(pre), esc_char(c));
        }
        if c == '"' {
            out.append("\\\"");
            proof {
                reveal_strlit("\\\"");
                assert("\\\""@ =~= esc_char(c));
            }
        } else if c == '\\' {
            out.append("\\\\");
            proof {
                reveal_strlit("\\\\");
                assert("\\\\"@ =~= esc_char(c));
            }
        } else if c == '\n' {
            out.append("\\n");
            proof {
                reveal_strlit("\\n");
                assert("\\n"@ =~= esc_char(c));
            }
        } else if c == '\t' {
            out.append("\\t");
            proof {
                reveal_strlit("\\t");
                assert("\\t"@ =~= esc_char(c));
            }
        } else if c == '\r' {
            out.append("\\r");
            proof {
                reveal_strlit("\\r");
                assert("\\r"@ =~= esc_char(c));
            }
        } else if (c as u32) < 0x20 {
            let v = c as u32;
            out.append("\\u00");
            push_char(out, hex_char_exec(v / 16));
            push_char(out, hex_char_exec(v % 16));
            proof {
                reveal_strlit("\\u00");
                assert("\\u00"@ + seq![hex_char(v as int / 16)] + seq![hex_char(v as int % 16)]
                    =~= esc_char(c));
                assert(out@ =~= old(out)@ + esc(pre) + esc_char(c));
            }
        } else {
            push_char(out, c);
            assert(seq![c] =~= esc_char(c));
        }
        proof {
            assert(out@ =~= old(out)@ + esc(s@.subrange(0, i + 1)));
        }
        i += 1;
    }
    proof {
        assert(s@.subrange(0, n as int) =~= s@);
    }
}

/// An optional field as store text: a quoted string literal, or `null`.
fn write_opt(o: &Option<String>) -> (m: String)
    ensures
        m@ == json_of_opt(opt_view(*o)),
{
    let mut m = String::new();
    match o {
        Some(s) => {
            push_char(&mut m, '"');
            proof {
                assert(Seq::<char>::empty() + seq!['"'] =~= seq!['"']);
            }
            write_escaped(&mut m, s.as_str());
            push_char(&mut m, '"');
            proof {
                assert(m@ =~= quoted(s@));
            }
        },
        None => {
            m.append("null");
            proof {
                assert(Seq::<char>::empty() + "null"@ =~= "null"@);
            }
        },
    }
    m
}

/// One task as its store object.
fn write_task(t: &Task) -> (m: String)
    ensures
        m@ == json_of_task(t@),
{
    let mut m = String::new();
    m.append("{\n    \"id\": ");
    proof {
        assert(Seq::<char>::empty() + "{\n    \"id\": "@ =~= "{\n    \"id\": "@);
    }
    write_digits(&mut m, t.id);
    m.append(",\n    \"title\": \"");
    write_escaped(&mut m, t.title.as_str());
    m.append("\",\n    \"description\": ");
    let d = write_opt(&t.description);
    m.append(d.as_str());
    m.append(",\n    \"class\": ");
    let c = write_opt(&t.class);
    m.append(c.as_str());
    m.append(",\n    \"due_date\": ");
    let dd = write_opt(&t.due_date);
    m.append(dd.as_str());
    m.append(",\n    \"complete\": ");
    if t.complete {
        m.append("true");
    } else {
        m.append("false");
    }
    m.append("\n  }");
    proof {
        assert(m@ =~= json_of_task(t@));
    }
    m
}

proof fn lemma_body_push(ts: Seq<TaskView>, t: TaskView)
    ensures
        json_tasks_body(ts.push(t)) == if ts.len() == 0 {
            json_of_task(t)
        } else {
            json_tasks_body(ts) + ",\n  "@ + json_of_task(t)
        },
    decreases ts.len(),
{
    if ts.len() == 0 {
        assert(ts.push(t)[0] == t);
    } else if ts.len() == 1 {
        assert(ts.push(t).drop_first() =~= ts.drop_first().push(t));
        assert(ts.drop_first().push(t) =~= seq![t]);
        assert(json_tasks_body(seq![t]) == json_of_task(t));
        assert(json_tasks_body(ts) == json_of_task(ts[0]));
    } else {
        assert(ts.push(t).drop_first() =~= ts.drop_first().push(t));
        lemma_body_push(ts.drop_first(), t);
        assert(json_tasks_body(ts.push(t)) == json_of_task(ts[0]) + ",\n  "@ + (
        json_tasks_body(ts.drop_first()) + ",\n  "@ + json_of_task(t)));
        assert(json_of_task(ts[0]) + ",\n  "@ + (json_tasks_body(ts.drop_first()) + ",\n  "@
            + json_of_task(t)) =~= json_tasks_body(ts) + ",\n  "@ + json_of_task(t));
    }
}

/// The whole collection as its pretty-printed store document.
pub fn serialize_tasks(task_list: &Vec<Task>) -> (out: String)
    ensures
        out@ == json_of_tasks(tasks_view(task_list@)),
{
    let ghost tv = tasks_view(task_list@);
    let mut out = String::new();
    if task_list.len() == 0 {
        out.append("[]");
        proof {
            assert(Seq::<char>::empty() + "[]"@ =~= "[]"@);
        }
        return out;
    }
    out.append("[\n  ");
    proof {
        assert(Seq::<char>::empty() + "[\n  "@ =~= "[\n  "@);
        assert(tv.subrange(0, 0) =~= Seq::<TaskView>::empty());
    }
    let mut k: usize = 0;
    while k < task_list.len()
        invariant
            tv == tasks_view(task_list@),
            tv.len() == task_list.len(),
            0 < task_list.len(),
            0 <= k <= task_list.len(),
            out@ == "[\n  "@ + json_tasks_body(tv.subrange(0, k as int)),
        decreases task_list.len() - k,
    {
        let ghost pre = tv.subrange(0, k as int);
        proof {
            assert(pre.push(tv[k as int]) =~= tv.subrange(0, k + 1));
            lemma_body_push(pre, tv[k as int]);
        }
        if k > 0 {
            out.append(",\n  ");
        }
        let m = write_task(&task_list[k]);
        out.append(m.as_str());
        proof {
            assert(out@ =~= "[\n  "@ + json_tasks_body(tv.subrange(0, k + 1)));
        }
        k += 1;
    }
    out.append("\n]");
    proof {
        assert(tv.subrange(0, tv.len() as int) =~= tv);
        assert(out@ =~= json_of_tasks(tv));
    }
    out
}

} // verus!
