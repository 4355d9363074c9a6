use crate::chars::chars_to_string;
use crate::chars::str_chars;
use crate::digits::digit_val;
use crate::digits::digit_val_exec;
use crate::digits::is_digit;
use crate::json::hex_val;
use crate::json::is_hex;
use crate::json::is_ws;
use crate::task::Task;
use crate::task::TaskList;
use crate::task::TaskView;
use crate::task::tasks_view;
use vstd::prelude::*;

verus! {

/// First index at or after `i` that does not hold whitespace.
pub open spec fn sp_ws(s: Seq<char>, i: int) -> int
    decreases s.len() - i,
{
    if 0 <= i < s.len() && is_ws(s[i]) {
        sp_ws(s, i + 1)
    } else {
        i
    }
}

/// Whether the text `lit` stands at index `j` of `s`.
pub open spec fn lit_at(s: Seq<char>, j: int, lit: Seq<char>) -> bool {
    0 <= j && j + lit.len() <= s.len() && s.subrange(j, j + lit.len() as int) == lit
}

/// Skip whitespace, then read the exact text `lit`: the index past it.
pub open spec fn sp_tok(s: Seq<char>, i: int, lit: Seq<char>) -> Option<int> {
    let j = sp_ws(s, i);
    if lit_at(s, j, lit) {
        Some(j + lit.len() as int)
    } else {
        None
    }
}

/// Read a run of digits into an accumulator, rejecting values that do not
/// fit in `usize`.
pub open spec fn sp_num_loop(s: Seq<char>, i: int, acc: nat) -> Option<(nat, int)>
    decreases s.len() - i,
{
    if 0 <= i < s.len() && is_digit(s[i]) {
        let a2 = acc * 10 + digit_val(s[i]);
        if a2 > usize::MAX as nat {
            None
        } else {
            sp_num_loop(s, i + 1, a2)
        }
    } else {
        Some((acc, i))
    }
}

/// Skip whitespace, then read a non-negative decimal integer: at least one
/// digit, no leading zero except for `0` itself, value within `usize`.
pub open spec fn sp_num(s: Seq<char>, i: int) -> Option<(nat, int)> {
    let j = sp_ws(s, i);
    if 0 <= j < s.len() && is_digit(s[j]) {
        if s[j] == '0' && j + 1 < s.len() && is_digit(s[j + 1]) {
            None
        } else {
            sp_num_loop(s, j, 0)
        }
    } else {
        None
    }
}

/// Read the body of a JSON string, from just after the opening quote to just
/// past the closing quote, into an accumulator. The escapes `\"`, `\\`,
/// `\/`, `\n`, `\r`, `\t`, `\b`, `\f` and `\u00XX` are understood; a bare
/// control character, a `\u` escape above `00FF`, and any other escape are
/// malformed.
pub open spec fn sp_str(s: Seq<char>, i: int, acc: Seq<char>) -> Option<(Seq<char>, int)>
    decreases s.len() - i,
{
    if !(0 <= i < s.len()) {
        None
    } else {
        let c = s[i];
        if c == '"' {
            Some((acc, i + 1))
        } else if c == '\\' {
            if i + 1 < s.len() {
                let e = s[i + 1];
                if e == '"' {
                    sp_str(s, i + 2, acc.push('"'))
                } else if e == '\\' {
                    sp_str(s, i + 2, acc.push('\\'))
                } else if e == '/' {
                    sp_str(s, i + 2, acc.push('/'))
                } else if e == 'n' {
                    sp_str(s, i + 2, acc.push('\n'))
                } else if e == 'r' {
                    sp_str(s, i + 2, acc.push('\r'))
                } else if e == 't' {
                    sp_str(s, i + 2, acc.push('\t'))
                } else if e == 'b' {
                    sp_str(s, i + 2, acc.push('\u{8}'))
                } else if e == 'f' {
                    sp_str(s, i + 2, acc.push('\u{c}'))
                } else if e == 'u' {
                    if i + 5 < s.len() && s[i + 2] == '0' && s[i + 3] == '0' && is_hex(s[i + 4])
                        && is_hex(s[i + 5]) {
                        let u = 16 * hex_val(s[i + 4]) + hex_val(s[i + 5]);
                        sp_str(s, i + 6, acc.push((u as u8) as char))
                    } else {
                        None
                    }
                } else {
                    None
                }
            } else {
                None
            }
        } else if (c as u32) < 32 {
            None
        } else {
            sp_str(s, i + 1, acc.push(c))
        }
    }
}

/// Skip whitespace, then read `true` or `false`.
pub open spec fn sp_bool(s: Seq<char>, i: int) -> Option<(bool, int)> {
    match sp_tok(s, i, "true"@) {
        Some(j) => Some((true, j)),
        None => match sp_tok(s, i, "false"@) {
            Some(j) => Some((false, j)),
            None => None,
        },
    }
}

/// Read one task object: braces around the fields `id`, `description` and
/// `completed`, in that order, with any whitespace between tokens.
pub open spec fn sp_task(s: Seq<char>, i: int) -> Option<(TaskView, int)> {
    match sp_tok(s, i, "{"@) {
        None => None,
        Some(a) => match sp_tok(s, a, "\"id\""@) {
            None => None,
            Some(b) => match sp_tok(s, b, ":"@) {
                None => None,
                Some(c) => match sp_num(s, c) {
                    None => None,
                    Some((id, d)) => match sp_tok(s, d, ","@) {
                        None => None,
                        Some(e) => match sp_tok(s, e, "\"description\""@) {
                            None => None,
                            Some(f) => match sp_tok(s, f, ":"@) {
                                None => None,
                                Some(g) => match sp_tok(s, g, "\""@) {
                                    None => None,
                                    Some(h) => match sp_str(s, h, Seq::empty()) {
                                        None => None,
                                        Some((desc, p)) => match sp_tok(s, p, ","@) {
                                            None => None,
                                            Some(q) => match sp_tok(s, q, "\"completed\""@) {
                                                None => None,
                                                Some(r) => match sp_tok(s, r, ":"@) {
                                                    None => None,
                                                    Some(u) => match sp_bool(s, u) {
                                                        None => None,
                                                        Some((done, w)) => match sp_tok(
                                                            s,
                                                            w,
                                                            "}"@,
                                                        ) {
                                                            None => None,
                                                            Some(z) => Some(
                                                                (
                                                                    TaskView {
                                                                        id: id,
                                                                        description: desc,
                                                                        completed: done,
                                                                    },
                                                                    z,
                                                                ),
                                                            ),
                                                        },
                                                    },
                                                },
                                            },
                                        },
                                    },
                                },
                            },
                        },
                    },
                },
            },
        },
    }
}

/// Read a non-empty run of task objects separated by commas, up to and past
/// the closing bracket of the array.
pub open spec fn sp_items(s: Seq<char>, i: int) -> Option<(Seq<TaskView>, int)>
    decreases s.len() - i,
{
    match sp_task(s, i) {
        None => None,
        Some((t, j)) => match sp_tok(s, j, ","@) {
            Some(k) => if i < k <= s.len() {
                match sp_items(s, k) {
                    None => None,
                    Some((rest, m)) => Some((seq![t] + rest, m)),
                }
            } else {
                None
            },
            None => match sp_tok(s, j, "]"@) {
                Some(k) => Some((seq![t], k)),
                None => None,
            },
        },
    }
}

/// Read a whole task document: a JSON array of task objects, possibly
/// empty, with nothing but whitespace after it.
pub open spec fn sp_tasks(s: Seq<char>) -> Option<Seq<TaskView>> {
    match sp_tok(s, 0, "["@) {
        None => None,
        Some(a) => match sp_tok(s, a, "]"@) {
            Some(b) => if sp_ws(s, b) == s.len() {
                Some(Seq::empty())
            } else {
                None
            },
            None => match sp_items(s, a) {
                None => None,
                Some((l, m)) => if sp_ws(s, m) == s.len() {
                    Some(l)
                } else {
                    None
                },
            },
        },
    }
}

/// Whether `c` is a whitespace character.
fn is_ws_exec(c: char) -> (b: bool)
    ensures
        b == is_ws(c),
{
    c == ' ' || c == '\n' || c == '\r' || c == '\t'
}

/// Value of a hexadecimal digit character, or none for any other character.
fn hex_val_exec(c: char) -> (r: Option<u8>)
    ensures
        r matches Some(h) ==> is_hex(c) && h as nat == hex_val(c) && h < 16,
        r is None ==> !is_hex(c),
{
    match digit_val_exec(c) {
        Some(d) => Some(d as u8),
        None => {
            if c == 'a' || c == 'A' {
                Some(10)
            } else if c == 'b' || c == 'B' {
                Some(11)
            } else if c == 'c' || c == 'C' {
                Some(12)
            } else if c == 'd' || c == 'D' {
                Some(13)
            } else if c == 'e' || c == 'E' {
                Some(14)
            } else if c == 'f' || c == 'F' {
                Some(15)
            } else {
                None
            }
        },
    }
}

/// First index at or after `start` that does not hold whitespace.
fn skip_ws(v: &Vec<char>, start: usize) -> (j: usize)
    requires
        start <= v.len(),
    ensures
        start <= j <= v.len(),
        j as int == sp_ws(v@, start as int),
{
    let mut i = start;
    while i < v.len() && is_ws_exec(v[i])
        invariant
            start <= i <= v.len(),
            sp_ws(v@, start as int) == sp_ws(v@, i as int),
        decreases v.len() - i,
    {
        i = i + 1;
    }
    i
}

/// Skip whitespace, then read the exact text `lit`.
fn expect_tok(v: &Vec<char>, start: usize, lit: &str) -> (r: Option<usize>)
    requires
        start <= v.len(),
    ensures
        r matches Some(j) ==> start <= j <= v.len() && j as int >= start + lit@.len() && sp_tok(
            v@,
            start as int,
            lit@,
        ) == Some(j as int),
        r is None ==> sp_tok(v@, start as int, lit@) is None,
{
    let j = skip_ws(v, start);
    let l = str_chars(lit);
    if v.len() - j < l.len() {
        proof {
            assert(!lit_at(v@, j as int, lit@));
        }
        return None;
    }
    let mut k: usize = 0;
    while k < l.len()
        invariant
            k <= l.len(),
            l@ == lit@,
            j + l.len() <= v.len(),
            j as int == sp_ws(v@, start as int),
            start <= j,
            forall|m: int| 0 <= m < k ==> v@[j + m] == lit@[m],
        decreases l.len() - k,
    {
        if v[j + k] != l[k] {
            proof {
                let sub = v@.subrange(j as int, j + lit@.len());
                assert(sub[k as int] == v@[j + k]);
                assert(sub != lit@) by {
                    if sub == lit@ {
                        assert(sub[k as int] == lit@[k as int]);
                    }
                }
                assert(!lit_at(v@, j as int, lit@));
            }
            return None;
        }
        k = k + 1;
    }
    proof {
        assert(v@.subrange(j as int, j + lit@.len()) =~= lit@);
        assert(lit_at(v@, j as int, lit@));
    }
    Some(j + l.len())
}

/// Skip whitespace, then read a non-negative decimal integer.
fn parse_num(v: &Vec<char>, start: usize) -> (r: Option<(usize, usize)>)
    requires
        start <= v.len(),
    ensures
        r matches Some(p) ==> start <= p.1 <= v.len() && sp_num(v@, start as int) == Some(
            (p.0 as nat, p.1 as int),
        ),
        r is None ==> sp_num(v@, start as int) is None,
{
    let j = skip_ws(v, start);
    if j >= v.len() {
        return None;
    }
    let first = v[j];
    if digit_val_exec(first).is_none() {
        return None;
    }
    if first == '0' && j + 1 < v.len() && digit_val_exec(v[j + 1]).is_some() {
        return None;
    }
    let mut i = j;
    let mut acc: usize = 0;
    loop
        invariant
            start <= j <= i <= v.len(),
            j as int == sp_ws(v@, start as int),
            j < v@.len() && is_digit(v@[j as int]),
            !(v@[j as int] == '0' && j + 1 < v@.len() && is_digit(v@[j + 1])),
            sp_num_loop(v@, j as int, 0) == sp_num_loop(v@, i as int, acc as nat),
        decreases v.len() - i,
    {
        if i >= v.len() {
            proof {
                assert(sp_num_loop(v@, i as int, acc as nat) == Some((acc as nat, i as int)));
            }
            return Some((acc, i));
        }
        let d = match digit_val_exec(v[i]) {
            Some(d) => d,
            None => {
                proof {
                    assert(sp_num_loop(v@, i as int, acc as nat) == Some((acc as nat, i as int)));
                }
                return Some((acc, i));
            },
        };
        let step = match acc.checked_mul(10) {
            Some(m) => m.checked_add(d),
            None => None,
        };
        match step {
            Some(nacc) => {
                acc = nacc;
                i = i + 1;
            },
            None => {
                proof {
                    assert(acc * 10 + digit_val(v@[i as int]) > usize::MAX as nat);
                    assert(sp_num_loop(v@, i as int, acc as nat) is None);
                }
                return None;
            },
        }
    }
}

/// Read the body of a JSON string, from just after the opening quote.
fn parse_str(v: &Vec<char>, start: usize) -> (r: Option<(Vec<char>, usize)>)
    requires
        start <= v.len(),
    ensures
        r matches Some(p) ==> start <= p.1 <= v.len() && sp_str(v@, start as int, Seq::empty())
            == Some((p.0@, p.1 as int)),
        r is None ==> sp_str(v@, start as int, Seq::empty()) is None,
{
    let mut acc: Vec<char> = Vec::new();
    let mut i = start;
    loop
        invariant
            start <= i <= v.len(),
            sp_str(v@, start as int, Seq::empty()) == sp_str(v@, i as int, acc@),
        decreases v.len() - i,
    {
        if i >= v.len() {
            return None;
        }
        let c = v[i];
        if c == '"' {
            return Some((acc, i + 1));
        } else if c == '\\' {
            if i + 1 >= v.len() {
                return None;
            }
            let e = v[i + 1];
            if e == '"' {
                acc.push('"');
                i = i + 2;
            } else if e == '\\' {
                acc.push('\\');
                i = i + 2;
            } else if e == '/' {
                acc.push('/');
                i = i + 2;
            } else if e == 'n' {
                acc.push('\n');
                i = i + 2;
            } else if e == 'r' {
                acc.push('\r');
                i = i + 2;
            } else if e == 't' {
                acc.push('\t');
                i = i + 2;
            } else if e == 'b' {
                acc.push('\u{8}');
                i = i + 2;
            } else if e == 'f' {
                acc.push('\u{c}');
                i = i + 2;
            } else if e == 'u' {
                if v.len() - i <= 5 {
                    return None;
                }
                if !(v[i + 2] == '0' && v[i + 3] == '0') {
                    return None;
                }
                let h1 = match hex_val_exec(v[i + 4]) {
                    Some(h) => h,
                    None => {
                        return None;
                    },
                };
                let h2 = match hex_val_exec(v[i + 5]) {
                    Some(h) => h,
                    None => {
                        return None;
                    },
                };
                let u: u8 = 16 * h1 + h2;
                acc.push(u as char);
                proof {
                    assert(u as nat == 16 * hex_val(v@[i + 4]) + hex_val(v@[i + 5]));
                }
                i = i + 6;
            } else {
                return None;
            }
        } else {
            let u = c as u32;
            if u < 32 {
                return None;
            }
            acc.push(c);
            i = i + 1;
        }
    }
}

/// Skip whitespace, then read `true` or `false`.
fn parse_bool(v: &Vec<char>, start: usize) -> (r: Option<(bool, usize)>)
    requires
        start <= v.len(),
    ensures
        r matches Some(p) ==> start <= p.1 <= v.len() && sp_bool(v@, start as int) == Some(
            (p.0, p.1 as int),
        ),
        r is None ==> sp_bool(v@, start as int) is None,
{
    match expect_tok(v, start, "true") {
        Some(j) => Some((true, j)),
        None => match expect_tok(v, start, "false") {
            Some(j) => Some((false, j)),
            None => None,
        },
    }
}

/// Read one task object.
fn parse_task(v: &Vec<char>, start: usize) -> (r: Option<(Task, usize)>)
    requires
        start <= v.len(),
    ensures
        r matches Some(p) ==> start <= p.1 <= v.len() && sp_task(v@, start as int) == Some(
            (p.0@, p.1 as int),
        ),
        r is None ==> sp_task(v@, start as int) is None,
{
    let a = match expect_tok(v, start, "{") {
        Some(x) => x,
        None => {
            return None;
        },
    };
    let b = match expect_tok(v, a, "\"id\"") {
        Some(x) => x,
        None => {
            return None;
        },
    };
    let c = match expect_tok(v, b, ":") {
        Some(x) => x,
        None => {
            return None;
        },
    };
    let (id, d) = match parse_num(v, c) {
        Some(x) => x,
        None => {
            return None;
        },
    };
    let e = match expect_tok(v, d, ",") {
        Some(x) => x,
        None => {
            return None;
        },
    };
    let f = match expect_tok(v, e, "\"description\"") {
        Some(x) => x,
        None => {
            return None;
        },
    };
    let g = match expect_tok(v, f, ":") {
        Some(x) => x,
        None => {
            return None;
        },
    };
    let h = match expect_tok(v, g, "\"") {
        Some(x) => x,
        None => {
            return None;
        },
    };
    let (desc, p) = match parse_str(v, h) {
        Some(x) => x,
        None => {
            return None;
        },
    };
    let q = match expect_tok(v, p, ",") {
        Some(x) => x,
        None => {
            return None;
        },
    };
    let rr = match expect_tok(v, q, "\"completed\"") {
        Some(x) => x,
        None => {
            return None;
        },
    };
    let u = match expect_tok(v, rr, ":") {
        Some(x) => x,
        None => {
            return None;
        },
    };
    let (done, w) = match parse_bool(v, u) {
        Some(x) => x,
        None => {
            return None;
        },
    };
    let z = match expect_tok(v, w, "}") {
        Some(x) => x,
        None => {
            return None;
        },
    };
    let t = Task { id, description: chars_to_string(&desc), completed: done };
    Some((t, z))
}

/// Read a non-empty run of task objects, up to and past the closing bracket.
fn parse_items(v: &Vec<char>, start: usize) -> (r: Option<(Vec<Task>, usize)>)
    requires
        start <= v.len(),
    ensures
        r matches Some(p) ==> start <= p.1 <= v.len() && sp_items(v@, start as int) == Some(
            (tasks_view(p.0@), p.1 as int),
        ),
        r is None ==> sp_items(v@, start as int) is None,
{
    let mut out: Vec<Task> = Vec::new();
    let mut i = start;
    loop
        invariant
            start <= i <= v.len(),
            match sp_items(v@, i as int) {
                Some(p) => sp_items(v@, start as int) == Some(
                    (tasks_view(out@) + p.0, p.1),
                ),
                None => sp_items(v@, start as int) is None,
            },
        decreases v.len() - i,
    {
        let (t, j) = match parse_task(v, i) {
            Some(x) => x,
            None => {
                return None;
            },
        };
        match expect_tok(v, j, ",") {
            Some(k) => {
                proof {
                    reveal_strlit(",");
                    assert(i < k <= v@.len());
                    assert(tasks_view(out@.push(t)) =~= tasks_view(out@).push(t@));
                    assert forall|rest: Seq<TaskView>, m: int|
                        sp_items(v@, k as int) == Some::<(Seq<TaskView>, int)>(
                            (rest, m),
                        ) implies tasks_view(out@) + (seq![t@] + rest) =~= tasks_view(out@.push(t))
                        + rest by {}
                }
                out.push(t);
                i = k;
            },
            None => {
                match expect_tok(v, j, "]") {
                    Some(k) => {
                        proof {
                            assert(tasks_view(out@.push(t)) =~= tasks_view(out@).push(t@));
                            assert(tasks_view(out@) + seq![t@] =~= tasks_view(out@.push(t)));
                        }
                        out.push(t);
                        return Some((out, k));
                    },
                    None => {
                        return None;
                    },
                }
            },
        }
    }
}

/// Read a whole task document. Succeeds exactly where the text is a JSON
/// array of task objects as this library writes them, with any whitespace
/// between tokens; the parsed list is returned.
pub fn parse_tasks(s: &str) -> (r: Option<TaskList>)
    ensures
        r matches Some(list) ==> sp_tasks(s@) == Some(list@),
        r is None ==> sp_tasks(s@) is None,
{
    let v = str_chars(s);
    let a = match expect_tok(&v, 0, "[") {
        Some(x) => x,
        None => {
            return None;
        },
    };
    match expect_tok(&v, a, "]") {
        Some(b) => {
            let e = skip_ws(&v, b);
            if e == v.len() {
                let list = TaskList::new();
                Some(list)
            } else {
                None
            }
        },
        None => {
            let (ts, m) = match parse_items(&v, a) {
                Some(x) => x,
                None => {
                    return None;
                },
            };
            let e = skip_ws(&v, m);
            if e == v.len() {
                let list = TaskList { tasks: ts };
                Some(list)
            } else {
                None
            }
        },
    }
}

/// What loading the store yields, given what the file held: a missing file
/// stands for the empty list; malformed contents degrade to the empty list
/// with a warning flag set; well-formed contents yield the parsed list.
pub fn load_tasks(content: Option<&str>) -> (r: (TaskList, bool))
    ensures
        content is None ==> r.0@ == Seq::<TaskView>::empty() && !r.1,
        content matches Some(s) ==> match sp_tasks(s@) {
            Some(l) => r.0@ == l && !r.1,
            None => r.0@ == Seq::<TaskView>::empty() && r.1,
        },
{
    match content {
        None => (TaskList::new(), false),
        Some(s) => match parse_tasks(s) {
            Some(list) => (list, false),
            None => (TaskList::new(), true),
        },
    }
}

} // verus!
