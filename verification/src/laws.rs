use crate::digits::dec_digits;
use crate::digits::digit_val;
use crate::digits::digits_val;
use crate::digits::is_digit;
use crate::digits::lemma_dec_digits_val;
use crate::digits::lemma_digits_val_cons;
use crate::digits::lemma_pow10_pos;
use crate::digits::pow10;
use crate::json::esc;
use crate::json::esc_char;
use crate::json::hex_char;
use crate::json::hex_val;
use crate::json::is_hex;
use crate::json::is_ws;
use crate::json::lemma_hex_char_val;
use crate::json::lemma_ser_items_front;
use crate::json::post_task;
use crate::json::pre_completed;
use crate::json::pre_desc;
use crate::json::pre_id;
use crate::json::ser_bool;
use crate::json::ser_items;
use crate::json::ser_task;
use crate::json::ser_tasks;
use crate::reader::lit_at;
use crate::reader::sp_num;
use crate::reader::sp_num_loop;
use crate::reader::sp_str;
use crate::reader::sp_items;
use crate::reader::sp_task;
use crate::reader::sp_tasks;
use crate::reader::sp_tok;
use crate::reader::sp_ws;
use crate::task::TaskView;
use vstd::prelude::*;

verus! {

/// Skipping whitespace stops exactly at the end of a whitespace run.
pub proof fn lemma_ws_run(s: Seq<char>, i: int, m: int)
    requires
        0 <= i <= m <= s.len(),
        forall|k: int| i <= k < m ==> is_ws(s[k]),
        m == s.len() || !is_ws(s[m]),
    ensures
        sp_ws(s, i) == m,
    decreases m - i,
{
    if i < m {
        lemma_ws_run(s, i + 1, m);
    }
}

/// A token parse succeeds on a whitespace run followed by the token's text.
pub proof fn lemma_tok_at(s: Seq<char>, i: int, m: int, lit: Seq<char>)
    requires
        0 <= i <= m,
        m + lit.len() <= s.len(),
        forall|k: int| i <= k < m ==> is_ws(s[k]),
        lit.len() > 0,
        !is_ws(lit[0]),
        s.subrange(m, m + lit.len() as int) == lit,
    ensures
        sp_tok(s, i, lit) == Some(m + lit.len() as int),
{
    assert(s.subrange(m, m + lit.len() as int)[0] == s[m]);
    assert(s[m] == lit[0]);
    lemma_ws_run(s, i, m);
    assert(lit_at(s, m, lit));
}

/// The digit loop over a maximal digit run yields the run's value, weighted
/// under the accumulator.
proof fn lemma_num_loop_run(s: Seq<char>, a: int, b: int, acc: nat)
    requires
        0 <= a <= b <= s.len(),
        forall|k: int| a <= k < b ==> is_digit(s[k]),
        b == s.len() || !is_digit(s[b]),
        acc * pow10((b - a) as nat) + digits_val(s.subrange(a, b)) <= usize::MAX as nat,
    ensures
        sp_num_loop(s, a, acc) == Some(
            ((acc * pow10((b - a) as nat) + digits_val(s.subrange(a, b))) as nat, b),
        ),
    decreases b - a,
{
    let m = (b - a) as nat;
    let run = s.subrange(a, b);
    if a == b {
        assert(run =~= Seq::<char>::empty());
        assert(pow10(0) == 1);
        assert(acc * 1 == acc) by (nonlinear_arith);
    } else {
        let d = digit_val(s[a]);
        let p = pow10((m - 1) as nat);
        let rest = digits_val(s.subrange(a + 1, b));
        assert(run[0] == s[a]);
        assert(run.drop_first() =~= s.subrange(a + 1, b));
        lemma_digits_val_cons(run);
        assert(digits_val(run) == d * p + rest);
        assert(pow10(m) == 10 * p);
        let total = acc * pow10(m) + digits_val(run);
        let a2 = acc * 10 + d;
        assert(acc * (10 * p) + (d * p + rest) == (acc * 10 + d) * p + rest) by (nonlinear_arith);
        assert(total == a2 * p + rest);
        lemma_pow10_pos((m - 1) as nat);
        assert(a2 <= a2 * p) by (nonlinear_arith)
            requires
                p >= 1,
                a2 >= 0,
        ;
        assert(a2 <= usize::MAX as nat);
        lemma_num_loop_run(s, a + 1, b, a2);
        assert(sp_num_loop(s, a, acc) == sp_num_loop(s, a + 1, a2));
    }
}

/// A number parse over a whitespace run followed by the decimal digits of
/// `n` and a non-digit yields `n`.
pub proof fn lemma_num_at(s: Seq<char>, i: int, m: int, n: nat)
    requires
        0 <= i <= m,
        m + dec_digits(n).len() <= s.len(),
        forall|k: int| i <= k < m ==> is_ws(s[k]),
        s.subrange(m, m + dec_digits(n).len() as int) == dec_digits(n),
        m + dec_digits(n).len() == s.len() || !is_digit(s[m + dec_digits(n).len()]),
        n <= usize::MAX as nat,
    ensures
        sp_num(s, i) == Some((n, m + dec_digits(n).len() as int)),
{
    let dd = dec_digits(n);
    let e = m + dd.len() as int;
    lemma_dec_digits_val(n);
    assert forall|k: int| m <= k < e implies is_digit(s[k]) by {
        assert(s.subrange(m, e)[k - m] == s[k]);
        assert(dd[k - m] == s[k]);
    }
    assert(s[m] == dd[0]);
    lemma_ws_run(s, i, m);
    if s[m] == '0' {
        assert(n == 0);
        assert(dd.len() == 1);
    }
    assert(!(s[m] == '0' && m + 1 < s.len() && is_digit(s[m + 1])));
    lemma_num_loop_run(s, m, e, 0);
    assert(0 * pow10(dd.len()) == 0) by (nonlinear_arith);
    assert(digits_val(s.subrange(m, e)) == n);
    assert(sp_num(s, i) == sp_num_loop(s, m, 0));
}

/// A string-body parse over the escape of a description followed by the
/// closing quote yields the description appended to the accumulator.
pub proof fn lemma_str_at(s: Seq<char>, h: int, d: Seq<char>, acc: Seq<char>)
    requires
        0 <= h,
        h + esc(d).len() < s.len(),
        s.subrange(h, h + esc(d).len() as int) == esc(d),
        s[h + esc(d).len()] == '"',
    ensures
        sp_str(s, h, acc) == Some((acc + d, h + esc(d).len() + 1)),
    decreases d.len(),
{
    if d.len() == 0 {
        assert(esc(d).len() == 0);
        assert(s[h] == '"');
        assert(acc + d =~= acc);
    } else {
        let c = d[0];
        let df = d.drop_first();
        let ec = esc_char(c);
        assert(esc(d) == ec + esc(df));
        let e = h + esc(d).len() as int;
        assert forall|k: int| h <= k < e implies s[k] == esc(d)[k - h] by {
            assert(s.subrange(h, e)[k - h] == s[k]);
        }
        assert forall|k: int| 0 <= k < ec.len() implies s[h + k] == ec[k] by {
            assert(esc(d)[k] == ec[k]);
        }
        let h2 = h + ec.len() as int;
        assert(s.subrange(h2, h2 + esc(df).len() as int) =~= esc(df)) by {
            assert forall|k: int| 0 <= k < esc(df).len() implies s.subrange(
                h2,
                h2 + esc(df).len() as int,
            )[k] == esc(df)[k] by {
                assert(s.subrange(h2, h2 + esc(df).len() as int)[k] == s[h2 + k]);
                assert(esc(d)[ec.len() + k] == esc(df)[k]);
            }
        }
        if c == '"' || c == '\\' || c == '\n' || c == '\r' || c == '\t' {
            assert(s[h] == '\\');
            lemma_str_at(s, h + 2, df, acc.push(c));
            assert(acc.push(c) + df =~= acc + d);
        } else if (c as u32) < 32 {
            let cu = c as u32;
            let hi = hex_char(cu as nat / 16);
            let lo = hex_char(cu as nat % 16);
            assert(ec == seq!['\\', 'u', '0', '0', hi, lo]);
            assert(s[h] == '\\' && s[h + 1] == 'u' && s[h + 2] == '0' && s[h + 3] == '0');
            assert(s[h + 4] == hi && s[h + 5] == lo);
            lemma_hex_char_val(cu as nat / 16);
            lemma_hex_char_val(cu as nat % 16);
            assert(is_hex(s[h + 4]) && is_hex(s[h + 5]));
            let u = 16 * hex_val(s[h + 4]) + hex_val(s[h + 5]);
            assert(u == 16 * (cu as nat / 16) + cu as nat % 16);
            assert(16 * (cu as nat / 16) + cu as nat % 16 == cu as nat) by (nonlinear_arith);
            let c2 = (u as u8) as char;
            assert(c2 as u32 == cu);
            vstd::utf8::char_u32_cast(c, c2 as u32);
            vstd::utf8::char_u32_cast(c2, c2 as u32);
            assert(c2 == c);
            lemma_str_at(s, h + 6, df, acc.push(c));
            assert(acc.push(c) + df =~= acc + d);
        } else {
            assert(ec == seq![c]);
            assert(s[h] == c);
            lemma_str_at(s, h + 1, df, acc.push(c));
            assert(acc.push(c) + df =~= acc + d);
        }
    }
}

/// A subrange of a subrange, read off the outer sequence.
proof fn lemma_sub_sub(s: Seq<char>, i: int, n: int, x: int, y: int)
    requires
        0 <= i,
        i + n <= s.len(),
        0 <= x <= y <= n,
    ensures
        s.subrange(i + x, i + y) == s.subrange(i, i + n).subrange(x, y),
{
    assert(s.subrange(i + x, i + y) =~= s.subrange(i, i + n).subrange(x, y));
}

/// Every character under an all-whitespace stretch of text is whitespace.
proof fn lemma_all_ws(s: Seq<char>, a: int, b: int, w: Seq<char>)
    requires
        0 <= a <= b <= s.len(),
        s.subrange(a, b) == w,
        forall|k: int| 0 <= k < w.len() ==> is_ws(w[k]),
    ensures
        forall|k: int| a <= k < b ==> is_ws(s[k]),
{
    assert forall|k: int| a <= k < b implies is_ws(s[k]) by {
        assert(s.subrange(a, b)[k - a] == s[k]);
    }
}

/// A task parse over the exact text that the writer emits for a task yields
/// that task and stops at the end of that text.
#[verifier::rlimit(100)]
pub proof fn lemma_task_at(s: Seq<char>, i: int, t: TaskView)
    requires
        0 <= i,
        i + ser_task(t).len() <= s.len(),
        s.subrange(i, i + ser_task(t).len() as int) == ser_task(t),
        t.id <= usize::MAX as nat,
    ensures
        sp_task(s, i) == Some((t, i + ser_task(t).len() as int)),
{
    reveal_strlit("\n  {\n    \"id\": ");
    reveal_strlit(",\n    \"description\": \"");
    reveal_strlit("\",\n    \"completed\": ");
    reveal_strlit("\n  }");
    reveal_strlit("{");
    reveal_strlit("\"id\"");
    reveal_strlit(":");
    reveal_strlit(",");
    reveal_strlit("\"description\"");
    reveal_strlit("\"");
    reveal_strlit("\"completed\"");
    reveal_strlit("true");
    reveal_strlit("false");
    reveal_strlit("}");
    let p1 = pre_id();
    let p2 = pre_desc();
    let p3 = pre_completed();
    let p4 = post_task();
    let dd = dec_digits(t.id);
    let ed = esc(t.description);
    let bb = ser_bool(t.completed);
    let dn = dd.len() as int;
    let en = ed.len() as int;
    let bn = bb.len() as int;
    let r = ser_task(t);
    let lr = r.len() as int;
    assert(p1.len() == 15);
    assert(p2.len() == 22);
    assert(p3.len() == 20);
    assert(p4.len() == 4);
    assert(lr == 61 + dn + en + bn);
    assert(s.subrange(i, i + lr) == r);
    // the opening brace, with its leading newline and indent
    lemma_sub_sub(s, i, lr, 0, 3);
    assert(r.subrange(0, 3) =~= seq!['\n', ' ', ' ']);
    lemma_all_ws(s, i, i + 3, seq!['\n', ' ', ' ']);
    lemma_sub_sub(s, i, lr, 3, 4);
    assert(r.subrange(3, 4) =~= "{"@);
    lemma_tok_at(s, i, i + 3, "{"@);
    let a = i + 4;
    // the id key
    lemma_sub_sub(s, i, lr, 4, 9);
    assert(r.subrange(4, 9) =~= seq!['\n', ' ', ' ', ' ', ' ']);
    lemma_all_ws(s, a, i + 9, seq!['\n', ' ', ' ', ' ', ' ']);
    lemma_sub_sub(s, i, lr, 9, 13);
    assert(r.subrange(9, 13) =~= "\"id\""@);
    lemma_tok_at(s, a, i + 9, "\"id\""@);
    let b = i + 13;
    // the colon after the id key
    lemma_sub_sub(s, i, lr, 13, 14);
    assert(r.subrange(13, 14) =~= ":"@);
    lemma_tok_at(s, b, b, ":"@);
    let c = i + 14;
    // the id's digits, stopped by the comma that follows them
    lemma_sub_sub(s, i, lr, 14, 15);
    assert(r.subrange(14, 15) =~= seq![' ']);
    lemma_all_ws(s, c, i + 15, seq![' ']);
    lemma_sub_sub(s, i, lr, 15, 15 + dn);
    assert(r.subrange(15, 15 + dn) =~= dd);
    lemma_sub_sub(s, i, lr, 15 + dn, 16 + dn);
    assert(r.subrange(15 + dn, 16 + dn) =~= ","@);
    assert(s[i + 15 + dn] == ',') by {
        assert(s.subrange(i + 15 + dn, i + 16 + dn)[0] == s[i + 15 + dn]);
    }
    lemma_num_at(s, c, i + 15, t.id);
    let d = i + 15 + dn;
    // the comma between the id and the description
    lemma_tok_at(s, d, d, ","@);
    let e = d + 1;
    // the description key
    lemma_sub_sub(s, i, lr, 16 + dn, 21 + dn);
    assert(r.subrange(16 + dn, 21 + dn) =~= seq!['\n', ' ', ' ', ' ', ' ']);
    lemma_all_ws(s, e, e + 5, seq!['\n', ' ', ' ', ' ', ' ']);
    lemma_sub_sub(s, i, lr, 21 + dn, 34 + dn);
    assert(r.subrange(21 + dn, 34 + dn) =~= "\"description\""@);
    lemma_tok_at(s, e, e + 5, "\"description\""@);
    let f = d + 19;
    // the colon after the description key
    lemma_sub_sub(s, i, lr, 34 + dn, 35 + dn);
    assert(r.subrange(34 + dn, 35 + dn) =~= ":"@);
    lemma_tok_at(s, f, f, ":"@);
    let g = d + 20;
    // the opening quote of the description
    lemma_sub_sub(s, i, lr, 35 + dn, 36 + dn);
    assert(r.subrange(35 + dn, 36 + dn) =~= seq![' ']);
    lemma_all_ws(s, g, g + 1, seq![' ']);
    lemma_sub_sub(s, i, lr, 36 + dn, 37 + dn);
    assert(r.subrange(36 + dn, 37 + dn) =~= "\""@);
    lemma_tok_at(s, g, g + 1, "\""@);
    let h = d + 22;
    // the escaped description, stopped by its closing quote
    lemma_sub_sub(s, i, lr, 37 + dn, 37 + dn + en);
    assert(r.subrange(37 + dn, 37 + dn + en) =~= ed);
    lemma_sub_sub(s, i, lr, 37 + dn + en, 38 + dn + en);
    assert(r.subrange(37 + dn + en, 38 + dn + en) =~= seq!['"']);
    assert(s[h + en] == '"') by {
        assert(s.subrange(h + en, h + en + 1)[0] == s[h + en]);
    }
    lemma_str_at(s, h, t.description, Seq::empty());
    assert(Seq::<char>::empty() + t.description =~= t.description);
    let p = h + en + 1;
    // the comma between the description and the flag
    lemma_sub_sub(s, i, lr, 38 + dn + en, 39 + dn + en);
    assert(r.subrange(38 + dn + en, 39 + dn + en) =~= ","@);
    lemma_tok_at(s, p, p, ","@);
    let q = p + 1;
    // the completed key
    lemma_sub_sub(s, i, lr, 39 + dn + en, 44 + dn + en);
    assert(r.subrange(39 + dn + en, 44 + dn + en) =~= seq!['\n', ' ', ' ', ' ', ' ']);
    lemma_all_ws(s, q, q + 5, seq!['\n', ' ', ' ', ' ', ' ']);
    lemma_sub_sub(s, i, lr, 44 + dn + en, 55 + dn + en);
    assert(r.subrange(44 + dn + en, 55 + dn + en) =~= "\"completed\""@);
    lemma_tok_at(s, q, q + 5, "\"completed\""@);
    let rr = p + 17;
    // the colon after the completed key
    lemma_sub_sub(s, i, lr, 55 + dn + en, 56 + dn + en);
    assert(r.subrange(55 + dn + en, 56 + dn + en) =~= ":"@);
    lemma_tok_at(s, rr, rr, ":"@);
    let u = p + 18;
    // the flag itself
    lemma_sub_sub(s, i, lr, 56 + dn + en, 57 + dn + en);
    assert(r.subrange(56 + dn + en, 57 + dn + en) =~= seq![' ']);
    lemma_all_ws(s, u, u + 1, seq![' ']);
    lemma_sub_sub(s, i, lr, 57 + dn + en, 57 + dn + en + bn);
    assert(r.subrange(57 + dn + en, 57 + dn + en + bn) =~= bb);
    let m = u + 1;
    assert(s.subrange(m, m + bn) == bb);
    assert(s[m] == bb[0]) by {
        assert(s.subrange(m, m + bn)[0] == s[m]);
    }
    assert(!is_ws(s[m]));
    lemma_ws_run(s, u, m);
    if t.completed {
        lemma_tok_at(s, u, m, "true"@);
    } else {
        assert(s.subrange(m, m + 5) == bb);
        assert(s[m] == 'f') by {
            assert(s.subrange(m, m + 5)[0] == s[m]);
        }
        assert(!lit_at(s, m, "true"@)) by {
            if lit_at(s, m, "true"@) {
                assert(s.subrange(m, m + 4)[0] == s[m]);
            }
        }
        lemma_tok_at(s, u, m, "false"@);
    }
    let w = u + 1 + bn;
    // the closing brace, with its leading newline and indent
    lemma_sub_sub(s, i, lr, 57 + dn + en + bn, 60 + dn + en + bn);
    assert(r.subrange(57 + dn + en + bn, 60 + dn + en + bn) =~= seq!['\n', ' ', ' ']);
    lemma_all_ws(s, w, w + 3, seq!['\n', ' ', ' ']);
    lemma_sub_sub(s, i, lr, 60 + dn + en + bn, 61 + dn + en + bn);
    assert(r.subrange(60 + dn + en + bn, 61 + dn + en + bn) =~= "}"@);
    lemma_tok_at(s, w, w + 3, "}"@);
    let z = i + lr;
    assert(sp_task(s, i) == Some(
        (TaskView { id: t.id, description: t.description, completed: t.completed }, z),
    ));
    assert(TaskView { id: t.id, description: t.description, completed: t.completed } =~= t);
}

/// A run-of-tasks parse over the exact text that the writer emits for a
/// non-empty list, followed by the closing newline and bracket, yields the
/// list and stops past the bracket.
pub proof fn lemma_items_at(s: Seq<char>, i: int, l: Seq<TaskView>)
    requires
        l.len() >= 1,
        forall|k: int| 0 <= k < l.len() ==> l[k].id <= usize::MAX as nat,
        0 <= i,
        i + ser_items(l).len() + 2 <= s.len(),
        s.subrange(i, i + ser_items(l).len() as int) == ser_items(l),
        s[i + ser_items(l).len()] == '\n',
        s[i + ser_items(l).len() + 1] == ']',
    ensures
        sp_items(s, i) == Some((l, i + ser_items(l).len() + 2)),
    decreases l.len(),
{
    reveal_strlit(",");
    reveal_strlit("]");
    lemma_ser_items_front(l);
    let it = ser_items(l);
    let ln = it.len() as int;
    let t0 = ser_task(l[0]);
    let tn = t0.len() as int;
    if l.len() == 1 {
        lemma_task_at(s, i, l[0]);
        let j = i + ln;
        lemma_ws_run(s, j, j + 1);
        assert(!lit_at(s, j + 1, ","@)) by {
            if lit_at(s, j + 1, ","@) {
                assert(s.subrange(j + 1, j + 2)[0] == s[j + 1]);
            }
        }
        assert(sp_tok(s, j, ","@) is None);
        assert(s.subrange(j + 1, j + 2) =~= "]"@) by {
            assert(s.subrange(j + 1, j + 2)[0] == s[j + 1]);
        }
        lemma_tok_at(s, j, j + 1, "]"@);
        assert(seq![l[0]] =~= l);
    } else {
        assert(it == t0 + seq![','] + ser_items(l.drop_first()));
        lemma_sub_sub(s, i, ln, 0, tn);
        assert(it.subrange(0, tn) =~= t0);
        lemma_task_at(s, i, l[0]);
        let j = i + tn;
        lemma_sub_sub(s, i, ln, tn, tn + 1);
        assert(it.subrange(tn, tn + 1) =~= ","@);
        lemma_tok_at(s, j, j, ","@);
        let k = j + 1;
        let df = l.drop_first();
        let rn = ser_items(df).len() as int;
        assert(ln == tn + 1 + rn);
        lemma_sub_sub(s, i, ln, tn + 1, ln);
        assert(it.subrange(tn + 1, ln) =~= ser_items(df));
        assert(forall|m: int| 0 <= m < df.len() ==> df[m] == l[m + 1]);
        lemma_items_at(s, k, df);
        assert(sp_items(s, k) == Some((df, k + rn + 2)));
        assert(seq![l[0]] + df =~= l);
        assert(sp_items(s, i) == Some((seq![l[0]] + df, k + rn + 2)));
    }
}

/// Round trip of the store text: the text the writer emits for any task
/// list is read back by the reader as exactly that list.
pub proof fn lemma_round_trip(l: Seq<TaskView>)
    requires
        forall|k: int| 0 <= k < l.len() ==> l[k].id <= usize::MAX as nat,
    ensures
        sp_tasks(ser_tasks(l)) == Some(l),
{
    reveal_strlit("[]");
    reveal_strlit("[");
    reveal_strlit("]");
    reveal_strlit("\n]");
    reveal_strlit("\n  {\n    \"id\": ");
    let s = ser_tasks(l);
    if l.len() == 0 {
        assert(s.len() == 2 && s[0] == '[' && s[1] == ']');
        assert(s.subrange(0, 1) =~= "["@);
        lemma_tok_at(s, 0, 0, "["@);
        assert(s.subrange(1, 2) =~= "]"@);
        lemma_tok_at(s, 1, 1, "]"@);
        lemma_ws_run(s, 2, 2);
        assert(sp_tasks(s) == Some(Seq::<TaskView>::empty()));
        assert(Seq::<TaskView>::empty() =~= l);
    } else {
        lemma_ser_items_front(l);
        let it = ser_items(l);
        let ln = it.len() as int;
        let t0 = ser_task(l[0]);
        assert(s == seq!['['] + it + "\n]"@);
        assert(s.len() == ln + 3);
        assert(s[0] == '[');
        assert(s.subrange(0, 1) =~= "["@);
        lemma_tok_at(s, 0, 0, "["@);
        // the bracket cannot close at once: the first task's text follows
        assert(s.subrange(1, 1 + ln) =~= it);
        assert(it.subrange(0, t0.len() as int) =~= t0) by {
            if l.len() == 1 {
            } else {
                assert(it == t0 + seq![','] + ser_items(l.drop_first()));
            }
        }
        assert forall|k: int| 0 <= k < 4 implies s[1 + k] == pre_id()[k] by {
            assert(s.subrange(1, 1 + ln)[k] == s[1 + k]);
            assert(it.subrange(0, t0.len() as int)[k] == it[k]);
            assert(t0[k] == pre_id()[k]);
        }
        assert(is_ws(s[1]) && is_ws(s[2]) && is_ws(s[3]) && !is_ws(s[4]));
        lemma_ws_run(s, 1, 4);
        assert(!lit_at(s, 4, "]"@)) by {
            if lit_at(s, 4, "]"@) {
                assert(s.subrange(4, 5)[0] == s[4]);
            }
        }
        assert(sp_tok(s, 1, "]"@) is None);
        assert(s[1 + ln] == '\n' && s[1 + ln + 1] == ']');
        lemma_items_at(s, 1, l);
        lemma_ws_run(s, ln + 3, ln + 3);
        assert(sp_tasks(s) == Some(l));
    }
}

} // verus!
