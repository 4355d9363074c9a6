use crate::digits::digit_char;
use crate::digits::digit_val;
use crate::digits::is_digit;
use vstd::prelude::*;

verus! {

/// The whitespace characters that may separate JSON tokens.
pub open spec fn is_ws(c: char) -> bool {
    c == ' ' || c == '\n' || c == '\r' || c == '\t'
}

/// Whether `c` is a hexadecimal digit (either case).
pub open spec fn is_hex(c: char) -> bool {
    is_digit(c) || c == 'a' || c == 'b' || c == 'c' || c == 'd' || c == 'e' || c == 'f' || c == 'A'
        || c == 'B' || c == 'C' || c == 'D' || c == 'E' || c == 'F'
}

/// Numeric value of a hexadecimal digit character.
pub open spec fn hex_val(c: char) -> nat
    recommends
        is_hex(c),
{
    if is_digit(c) {
        digit_val(c)
    } else if c == 'a' || c == 'A' {
        10
    } else if c == 'b' || c == 'B' {
        11
    } else if c == 'c' || c == 'C' {
        12
    } else if c == 'd' || c == 'D' {
        13
    } else if c == 'e' || c == 'E' {
        14
    } else {
        15
    }
}

/// Lower-case character of a hexadecimal digit value.
pub open spec fn hex_char(d: nat) -> char
    recommends
        d < 16,
{
    if d < 10 {
        digit_char(d)
    } else if d == 10 {
        'a'
    } else if d == 11 {
        'b'
    } else if d == 12 {
        'c'
    } else if d == 13 {
        'd'
    } else if d == 14 {
        'e'
    } else {
        'f'
    }
}

/// The hexadecimal digit characters are hexadecimal digits and carry their
/// own value.
pub proof fn lemma_hex_char_val(d: nat)
    requires
        d < 16,
    ensures
        is_hex(hex_char(d)),
        hex_val(hex_char(d)) == d,
{
    if d < 10 {
        crate::digits::lemma_digit_char_val(d);
    }
}

/// How one character of a description is written inside a JSON string:
/// quote and backslash get a backslash escape, the common control characters
/// their short escapes, the remaining control characters a `\u00XX` escape,
/// and every other character stands as itself.
pub open spec fn esc_char(c: char) -> Seq<char> {
    if c == '"' {
        seq!['\\', '"']
    } else if c == '\\' {
        seq!['\\', '\\']
    } else if c == '\n' {
        seq!['\\', 'n']
    } else if c == '\r' {
        seq!['\\', 'r']
    } else if c == '\t' {
        seq!['\\', 't']
    } else if (c as u32) < 32 {
        seq!['\\', 'u', '0', '0', hex_char((c as u32) as nat / 16), hex_char((c as u32) as nat % 16)]
    } else {
        seq![c]
    }
}

/// How a whole description is written inside a JSON string.
pub open spec fn esc(s: Seq<char>) -> Seq<char>
    decreases s.len(),
{
    if s.len() == 0 {
        Seq::empty()
    } else {
        esc_char(s[0]) + esc(s.drop_first())
    }
}

/// Escaping a concatenation escapes the parts.
pub proof fn lemma_esc_concat(a: Seq<char>, b: Seq<char>)
    ensures
        esc(a + b) == esc(a) + esc(b),
    decreases a.len(),
{
    if a.len() == 0 {
        assert(a + b =~= b);
        assert(esc(a) + esc(b) =~= esc(b));
    } else {
        lemma_esc_concat(a.drop_first(), b);
        assert((a + b).drop_first() =~= a.drop_first() + b);
        assert((a + b)[0] == a[0]);
        assert(esc_char(a[0]) + (esc(a.drop_first()) + esc(b)) =~= (esc_char(a[0]) + esc(
            a.drop_first(),
        )) + esc(b));
    }
}

/// Escaping one character alone.
pub proof fn lemma_esc_single(c: char)
    ensures
        esc(seq![c]) == esc_char(c),
{
    assert(seq![c].len() == 1);
    assert(seq![c][0] == c);
    assert(seq![c].drop_first() =~= Seq::<char>::empty());
    assert(esc(seq![c]) == esc_char(c) + esc(Seq::<char>::empty()));
    assert(esc_char(c) + Seq::<char>::empty() =~= esc_char(c));
}

/// The text before the id of a task object.
pub open spec fn pre_id() -> Seq<char> {
    "\n  {\n    \"id\": "@
}

/// The text between the id and the description of a task object.
pub open spec fn pre_desc() -> Seq<char> {
    ",\n    \"description\": \""@
}

/// The text between the description and the completion flag of a task object.
pub open spec fn pre_completed() -> Seq<char> {
    "\",\n    \"completed\": "@
}

/// The text closing a task object.
pub open spec fn post_task() -> Seq<char> {
    "\n  }"@
}

/// How a completion flag is written.
pub open spec fn ser_bool(b: bool) -> Seq<char> {
    if b {
        "true"@
    } else {
        "false"@
    }
}

/// How one task is written: a pretty-printed JSON object with the fields
/// `id`, `description` and `completed`, in that order.
pub open spec fn ser_task(t: crate::task::TaskView) -> Seq<char> {
    pre_id() + crate::digits::dec_digits(t.id) + pre_desc() + esc(t.description) + pre_completed()
        + ser_bool(t.completed) + post_task()
}

/// How a non-empty run of tasks is written: the tasks separated by commas.
pub open spec fn ser_items(l: Seq<crate::task::TaskView>) -> Seq<char>
    decreases l.len(),
{
    if l.len() <= 1 {
        if l.len() == 0 {
            Seq::empty()
        } else {
            ser_task(l[0])
        }
    } else {
        ser_items(l.drop_last()) + seq![','] + ser_task(l.last())
    }
}

/// How a whole task list is written: `[]` for the empty list, otherwise a
/// pretty-printed JSON array of task objects.
pub open spec fn ser_tasks(l: Seq<crate::task::TaskView>) -> Seq<char> {
    if l.len() == 0 {
        "[]"@
    } else {
        seq!['['] + ser_items(l) + "\n]"@
    }
}

/// A non-empty run of tasks, read from the front: the first task, then, if
/// any tasks remain, a comma and the rest.
pub proof fn lemma_ser_items_front(l: Seq<crate::task::TaskView>)
    requires
        l.len() >= 1,
    ensures
        l.len() == 1 ==> ser_items(l) == ser_task(l[0]),
        l.len() > 1 ==> ser_items(l) == ser_task(l[0]) + seq![','] + ser_items(l.drop_first()),
    decreases l.len(),
{
    if l.len() > 1 {
        lemma_ser_items_front(l.drop_last());
        let d = l.drop_first();
        assert(d.last() == l.last());
        assert(d.drop_last() =~= l.drop_last().drop_first());
        assert(l.drop_last()[0] == l[0]);
        if l.len() == 2 {
            assert(ser_items(l.drop_last()) == ser_task(l[0]));
            assert(d =~= seq![l.last()]);
            assert(ser_items(d) == ser_task(d[0]));
            assert(ser_task(l[0]) + seq![','] + ser_task(l.last()) == ser_items(l));
        } else {
            assert(ser_items(l.drop_last()) == ser_task(l[0]) + seq![','] + ser_items(
                l.drop_last().drop_first(),
            ));
            assert(ser_items(d) == ser_items(d.drop_last()) + seq![','] + ser_task(d.last()));
            assert(ser_items(l) == (ser_task(l[0]) + seq![','] + ser_items(d.drop_last()))
                + seq![','] + ser_task(l.last()));
            assert((ser_task(l[0]) + seq![','] + ser_items(d.drop_last())) + seq![','] + ser_task(
                l.last(),
            ) =~= ser_task(l[0]) + seq![','] + (ser_items(d.drop_last()) + seq![','] + ser_task(
                d.last(),
            )));
        }
    }
}

} // verus!
