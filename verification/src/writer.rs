use crate::chars::str_chars;
use crate::digits::push_digits;
use crate::json::esc;
use crate::json::esc_char;
use crate::json::hex_char;
use crate::json::lemma_esc_concat;
use crate::json::lemma_esc_single;
use crate::json::ser_items;
use crate::json::ser_task;
use crate::json::ser_tasks;
use crate::task::Task;
use crate::task::TaskList;
use vstd::prelude::*;
use vstd::string::StringExecFns;

verus! {

/// The lower-case character of one hexadecimal digit value.
fn hex_char_exec(d: u32) -> (c: char)
    requires
        d < 16,
    ensures
        c == hex_char(d as nat),
{
    if d == 0 {
        '0'
    } else if d == 1 {
        '1'
    } else if d == 2 {
        '2'
    } else if d == 3 {
        '3'
    } else if d == 4 {
        '4'
    } else if d == 5 {
        '5'
    } else if d == 6 {
        '6'
    } else if d == 7 {
        '7'
    } else if d == 8 {
        '8'
    } else if d == 9 {
        '9'
    } else if d == 10 {
        'a'
    } else if d == 11 {
        'b'
    } else if d == 12 {
        'c'
    } else if d == 13 {
        'd'
    } else if d == 14 {
        'e'
    } else {
        'f'
    }
}

/// Append the JSON escape of one character to `out`.
fn push_esc_char(out: &mut String, c: char)
    ensures
        final(out)@ == old(out)@ + esc_char(c),
{
    if c == '"' {
        out.push('\\');
        out.push('"');
    } else if c == '\\' {
        out.push('\\');
        out.push('\\');
    } else if c == '\n' {
        out.push('\\');
        out.push('n');
    } else if c == '\r' {
        out.push('\\');
        out.push('r');
    } else if c == '\t' {
        out.push('\\');
        out.push('t');
    } else {
        let u = c as u32;
        if u < 32 {
            out.push('\\');
            out.push('u');
            out.push('0');
            out.push('0');
            out.push(hex_char_exec(u / 16));
            out.push(hex_char_exec(u % 16));
        } else {
            out.push(c);
        }
    }
    proof {
        assert(final(out)@ =~= old(out)@ + esc_char(c));
    }
}

/// Append the JSON escape of a whole description to `out`.
fn push_escaped(out: &mut String, s: &str)
    ensures
        final(out)@ == old(out)@ + esc(s@),
{
    let v = str_chars(s);
    let mut i: usize = 0;
    while i < v.len()
        invariant
            i <= v.len(),
            v@ == s@,
            out@ == old(out)@ + esc(s@.subrange(0, i as int)),
        decreases v.len() - i,
    {
        let c = v[i];
        push_esc_char(out, c);
        proof {
            assert(s@.subrange(0, i + 1) =~= s@.subrange(0, i as int) + seq![s@[i as int]]);
            lemma_esc_concat(s@.subrange(0, i as int), seq![s@[i as int]]);
            lemma_esc_single(s@[i as int]);
            assert(out@ =~= old(out)@ + esc(s@.subrange(0, i + 1)));
        }
        i = i + 1;
    }
    proof {
        assert(s@.subrange(0, s@.len() as int) =~= s@);
    }
}

/// Append the JSON object of one task to `out`.
fn push_task(out: &mut String, t: &Task)
    ensures
        final(out)@ == old(out)@ + ser_task(t@),
{
    out.append("\n  {\n    \"id\": ");
    push_digits(out, t.id);
    out.append(",\n    \"description\": \"");
    push_escaped(out, t.description.as_str());
    out.append("\",\n    \"completed\": ");
    if t.completed {
        out.append("true");
    } else {
        out.append("false");
    }
    out.append("\n  }");
    proof {
        assert(final(out)@ =~= old(out)@ + ser_task(t@));
    }
}

/// The JSON text of a whole task list: `[]` for the empty list, otherwise a
/// pretty-printed array with one object per task, fields in the order `id`,
/// `description`, `completed`.
pub fn serialize_tasks(list: &TaskList) -> (r: String)
    ensures
        r@ == ser_tasks(list@),
{
    let mut out = String::new();
    if list.tasks.len() == 0 {
        out.append("[]");
        return out;
    }
    out.append("[");
    push_task(&mut out, &list.tasks[0]);
    proof {
        reveal_strlit("[");
        assert("["@ =~= seq!['[']);
        assert(list@.subrange(0, 1)[0] == list@[0]);
        assert(out@ =~= seq!['['] + ser_items(list@.subrange(0, 1)));
    }
    let mut k: usize = 1;
    while k < list.tasks.len()
        invariant
            1 <= k <= list@.len(),
            list@.len() == list.tasks.len(),
            out@ == seq!['['] + ser_items(list@.subrange(0, k as int)),
        decreases list.tasks.len() - k,
    {
        out.append(",");
        push_task(&mut out, &list.tasks[k]);
        proof {
            reveal_strlit(",");
            assert(","@ =~= seq![',']);
            let p = list@.subrange(0, k + 1);
            assert(p.drop_last() =~= list@.subrange(0, k as int));
            assert(p.last() == list@[k as int]);
            assert(out@ =~= seq!['['] + ser_items(p));
        }
        k = k + 1;
    }
    out.append("\n]");
    proof {
        assert(list@.subrange(0, list@.len() as int) =~= list@);
        assert(out@ =~= ser_tasks(list@));
    }
    out
}

} // verus!
