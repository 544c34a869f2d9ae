//! Writing values as JSON text and reading them back.
use vstd::prelude::*;
use vstd::string::StringExecFns;
use crate::json::{
    char_of, code_of, escape, escape_char, hex4, hex_digit, hex_value, is_number,
    is_number_char, lemma_escape_push, lemma_render_items_push, lemma_render_members_push,
    matches_at, number_end, number_run, number_step, parse_chars,
    parse_elements, parse_escape, parse_json, parse_members, parse_value, quote, render,
    render_items, render_members, wf, lemma_parse_json_render, lemma_parse_json_wf,
};
use crate::text::{chars_of, is_ws_char, skip_ws, string_of};
use crate::value::{JsonValue, Value};

verus! {

broadcast use {vstd::std_specs::vec::group_vec_axioms, vstd::seq::group_seq_axioms};

/// Models of a sequence of values.
pub open spec fn models(vs: Seq<Value>) -> Seq<JsonValue> {
    Seq::new(vs.len(), |k: int| vs[k].model())
}

/// Models of a sequence of object members.
pub open spec fn member_models(ms: Seq<(String, Value)>) -> Seq<(Seq<char>, JsonValue)> {
    Seq::new(ms.len(), |k: int| (ms[k].0@, ms[k].1.model()))
}

/// The model of an array holds the models of its items.
pub proof fn lemma_array_model(items: Vec<Value>)
    ensures
        Value::Array(items).model() == JsonValue::Array(models(items@)),
{
    assert(Value::Array(items).model()->Array_0 =~= models(items@));
}

/// The model of an object holds the keys and models of its members.
pub proof fn lemma_object_model(ms: Vec<(String, Value)>)
    ensures
        Value::Object(ms).model() == JsonValue::Object(member_models(ms@)),
{
    assert(Value::Object(ms).model()->Object_0 =~= member_models(ms@));
}

fn hex_digit_char(n: u32) -> (r: char)
    requires
        n < 16,
    ensures
        r == hex_digit(n as int),
{
    if n == 0 { '0' } else if n == 1 { '1' } else if n == 2 { '2' } else if n == 3 { '3' }
    else if n == 4 { '4' } else if n == 5 { '5' } else if n == 6 { '6' } else if n == 7 { '7' }
    else if n == 8 { '8' } else if n == 9 { '9' } else if n == 10 { 'a' } else if n == 11 { 'b' }
    else if n == 12 { 'c' } else if n == 13 { 'd' } else if n == 14 { 'e' } else { 'f' }
}

fn write_escaped_char(c: char, out: &mut String)
    ensures
        final(out)@ == old(out)@ + escape_char(c),
{
    let ghost start = out@;
    let code = code_point(c);
    if c == '"' {
        out.push('\\');
        out.push('"');
    } else if c == '\\' {
        out.push('\\');
        out.push('\\');
    } else if c == '\n' {
        out.push('\\');
        out.push('n');
    } else if c == '\r' {
        out.push('\\');
        out.push('r');
    } else if c == '\t' {
        out.push('\\');
        out.push('t');
    } else if c == '\x08' {
        out.push('\\');
        out.push('b');
    } else if c == '\x0c' {
        out.push('\\');
        out.push('f');
    } else if code < 0x20 {
        out.push('\\');
        out.push('u');
        out.push('0');
        out.push('0');
        out.push(hex_digit_char(code / 16));
        out.push(hex_digit_char(code % 16));
    } else {
        out.push(c);
    }
    assert(out@ =~= start + escape_char(c));
}

/// Appends the string literal for `s`.
fn write_quoted(s: &str, out: &mut String)
    ensures
        final(out)@ == old(out)@ + quote(s@),
{
    let ghost start = out@;
    let cs = chars_of(s);
    out.push('"');
    let mut k: usize = 0;
    while k < cs.len()
        invariant
            k <= cs@.len(),
            cs@ == s@,
            out@ == start + seq!['"'] + escape(cs@.take(k as int)),
        decreases cs@.len() - k,
    {
        write_escaped_char(cs[k], out);
        proof {
            lemma_escape_push(cs@.take(k as int), cs@[k as int]);
            assert(cs@.take(k + 1) =~= cs@.take(k as int).push(cs@[k as int]));
        }
        k = k + 1;
    }
    out.push('"');
    assert(cs@.take(k as int) =~= s@);
    assert(out@ =~= start + quote(s@));
}

/// Appends the compact JSON text of `v`.
fn write_value(v: &Value, out: &mut String)
    ensures
        final(out)@ == old(out)@ + render(v.model()),
    decreases v,
{
    let ghost start = out@;
    match v {
        Value::Null => {
            out.push('n');
            out.push('u');
            out.push('l');
            out.push('l');
        },
        Value::Bool(b) => {
            if *b {
                out.push('t');
                out.push('r');
                out.push('u');
                out.push('e');
            } else {
                out.push('f');
                out.push('a');
                out.push('l');
                out.push('s');
                out.push('e');
            }
        },
        Value::Number(t) => {
            out.append(t.as_str());
        },
        Value::Str(t) => {
            write_quoted(t.as_str(), out);
        },
        Value::Array(items) => {
            proof {
                lemma_array_model(*items);
            }
            let ghost ms = models(items@);
            out.push('[');
            let mut k: usize = 0;
            while k < items.len()
                invariant
                    k <= items@.len(),
                    ms == models(items@),
                    *v == Value::Array(*items),
                    out@ == start + seq!['['] + render_items(ms.take(k as int)),
                decreases items@.len() - k,
            {
                if k > 0 {
                    out.push(',');
                }
                proof {
                    assert(decreases_to!(*v => (*v)->Array_0));
                    assert(decreases_to!((*v)->Array_0 => (*v)->Array_0[k as int]));
                }
                write_value(&items[k], out);
                proof {
                    lemma_render_items_push(ms.take(k as int), ms[k as int]);
                    assert(ms.take(k + 1) =~= ms.take(k as int).push(ms[k as int]));
                }
                k = k + 1;
            }
            out.push(']');
            assert(ms.take(k as int) =~= ms);
        },
        Value::Object(members) => {
            proof {
                lemma_object_model(*members);
            }
            let ghost ms = member_models(members@);
            out.push('{');
            let mut k: usize = 0;
            while k < members.len()
                invariant
                    k <= members@.len(),
                    ms == member_models(members@),
                    *v == Value::Object(*members),
                    out@ == start + seq!['{'] + render_members(ms.take(k as int)),
                decreases members@.len() - k,
            {
                if k > 0 {
                    out.push(',');
                }
                let m = &members[k];
                proof {
                    assert(decreases_to!(*v => (*v)->Object_0));
                    assert(decreases_to!((*v)->Object_0 => (*v)->Object_0[k as int]));
                    assert(decreases_to!((*v)->Object_0[k as int] => (*v)->Object_0[k as int].1));
                }
                write_quoted(m.0.as_str(), out);
                out.push(':');
                write_value(&m.1, out);
                proof {
                    lemma_render_members_push(ms.take(k as int), ms[k as int]);
                    assert(ms.take(k + 1) =~= ms.take(k as int).push(ms[k as int]));
                }
                k = k + 1;
            }
            out.push('}');
            assert(ms.take(k as int) =~= ms);
        },
    }
    assert(out@ =~= start + render(v.model()));
}

/// The compact JSON text of `v`.
pub fn to_json(v: &Value) -> (r: String)
    ensures
        r@ == render(v.model()),
{
    let mut out = String::new();
    write_value(v, &mut out);
    assert(out@ =~= render(v.model()));
    out
}

/// `char::from_u32` gives the character with the given scalar value, if there is one.
pub assume_specification[ core::char::from_u32 ](i: u32) -> (r: Option<char>)
    ensures
        r is Some <==> (i < 0xD800 || (0xE000 <= i && i < 0x110000)),
        r matches Some(c) ==> c as int == i as int,
;

/// The scalar value of `c`.
fn code_point(c: char) -> (r: u32)
    ensures
        r as int == c as int,
{
    assert((c as int) < 0x110000);
    #[verifier::truncate]
    (c as u32)
}

/// A parse result seen through the value model.
pub open spec fn parsed(r: Option<(Value, usize)>) -> Option<(JsonValue, int)> {
    match r {
        Some((v, e)) => Some((v.model(), e as int)),
        None => None,
    }
}

fn skip_ws_at(s: &Vec<char>, i: usize) -> (r: usize)
    requires
        i <= s@.len(),
    ensures
        r == skip_ws(s@, i as int),
        i <= r <= s@.len(),
{
    let mut j = i;
    while j < s.len() && is_ws_char(s[j])
        invariant
            i <= j <= s@.len(),
            skip_ws(s@, i as int) == skip_ws(s@, j as int),
        decreases s@.len() - j,
    {
        j = j + 1;
    }
    j
}

fn is_number_char_exec(c: char) -> (r: bool)
    ensures
        r == is_number_char(c),
{
    ('0' <= c && c <= '9') || c == '-' || c == '+' || c == '.' || c == 'e' || c == 'E'
}

fn number_end_at(s: &Vec<char>, i: usize) -> (r: usize)
    requires
        i <= s@.len(),
    ensures
        r == number_end(s@, i as int),
        i <= r <= s@.len(),
{
    let mut j = i;
    while j < s.len() && is_number_char_exec(s[j])
        invariant
            i <= j <= s@.len(),
            number_end(s@, i as int) == number_end(s@, j as int),
        decreases s@.len() - j,
    {
        j = j + 1;
    }
    j
}

fn number_step_exec(state: u8, c: char) -> (r: Option<u8>)
    requires
        state <= 8,
    ensures
        r matches Some(x) ==> x <= 8 && number_step(state as nat, c) == Some(x as nat),
        r is None ==> number_step(state as nat, c) is None,
{
    let digit = '0' <= c && c <= '9';
    if state == 0 && c == '-' {
        Some(1)
    } else if (state == 0 || state == 1) && c == '0' {
        Some(2)
    } else if (state == 0 || state == 1) && '1' <= c && c <= '9' {
        Some(3)
    } else if state == 3 && digit {
        Some(3)
    } else if (state == 2 || state == 3) && c == '.' {
        Some(4)
    } else if (state == 4 || state == 5) && digit {
        Some(5)
    } else if (state == 2 || state == 3 || state == 5) && (c == 'e' || c == 'E') {
        Some(6)
    } else if state == 6 && (c == '+' || c == '-') {
        Some(7)
    } else if (state == 6 || state == 7 || state == 8) && digit {
        Some(8)
    } else {
        None
    }
}

/// Whether `s[from..to]` is a JSON number.
fn is_number_at(s: &Vec<char>, from: usize, to: usize) -> (r: bool)
    requires
        from <= to <= s@.len(),
    ensures
        r == is_number(s@.subrange(from as int, to as int)),
{
    let ghost t = s@.subrange(from as int, to as int);
    let mut state: u8 = 0;
    let mut ok = true;
    let mut k = from;
    while k < to
        invariant
            from <= k <= to <= s@.len(),
            t == s@.subrange(from as int, to as int),
            state <= 8,
            ok ==> number_run(t, k - from) == Some(state as nat),
            !ok ==> number_run(t, k - from) is None,
        decreases to - k,
    {
        if ok {
            match number_step_exec(state, s[k]) {
                Some(x) => {
                    state = x;
                },
                None => {
                    ok = false;
                },
            }
        }
        assert(t[k - from] == s@[k as int]);
        k = k + 1;
    }
    ok && (state == 2 || state == 3 || state == 5 || state == 8)
}

fn hex_value_exec(c: char) -> (r: Option<u32>)
    ensures
        r matches Some(x) ==> hex_value(c) == Some(x as int) && x < 16,
        r is None ==> hex_value(c) is None,
{
    let code = code_point(c);
    if '0' <= c && c <= '9' {
        Some(code - ('0' as u32))
    } else if 'a' <= c && c <= 'f' {
        Some(code - ('a' as u32) + 10)
    } else if 'A' <= c && c <= 'F' {
        Some(code - ('A' as u32) + 10)
    } else {
        None
    }
}

fn hex4_at(s: &Vec<char>, i: usize) -> (r: Option<u32>)
    ensures
        r matches Some(x) ==> hex4(s@, i as int) == Some(x as int) && x < 0x10000,
        r is None ==> hex4(s@, i as int) is None,
{
    if i <= s.len() && 4 <= s.len() - i {
        match (hex_value_exec(s[i]), hex_value_exec(s[i + 1]), hex_value_exec(s[i + 2]), hex_value_exec(s[i + 3])) {
            (Some(a), Some(b), Some(c), Some(d)) => Some(((a * 16 + b) * 16 + c) * 16 + d),
            _ => None,
        }
    } else {
        None
    }
}

proof fn lemma_char_of(c: char, code: int)
    requires
        c as int == code,
    ensures
        char_of(code) == c,
{
    assert(code_of(c) == code);
}

fn parse_escape_at(s: &Vec<char>, i: usize) -> (r: Option<(char, usize)>)
    ensures
        r matches Some((c, j)) ==> parse_escape(s@, i as int) == Some((c, j as int)),
        r is None ==> parse_escape(s@, i as int) is None,
{
    if !(i < s.len() && 1 < s.len() - i && s[i] == '\\') {
        return None;
    }
    let e = s[i + 1];
    if e == '"' || e == '\\' || e == '/' {
        Some((e, i + 2))
    } else if e == 'b' {
        Some(('\x08', i + 2))
    } else if e == 'f' {
        Some(('\x0c', i + 2))
    } else if e == 'n' {
        Some(('\n', i + 2))
    } else if e == 'r' {
        Some(('\r', i + 2))
    } else if e == 't' {
        Some(('\t', i + 2))
    } else if e == 'u' {
        match hex4_at(s, i + 2) {
            Some(h) => if 0xD800 <= h && h < 0xDC00 {
                if 7 < s.len() - i && s[i + 6] == '\\' && s[i + 7] == 'u' {
                    match hex4_at(s, i + 8) {
                        Some(l) => if 0xDC00 <= l && l < 0xE000 {
                            let code = 0x10000 + (h - 0xD800) * 1024 + (l - 0xDC00);
                            match core::char::from_u32(code) {
                                Some(c) => {
                                    proof {
                                        lemma_char_of(c, code as int);
                                    }
                                    Some((c, i + 12))
                                },
                                None => None,
                            }
                        } else {
                            None
                        },
                        None => None,
                    }
                } else {
                    None
                }
            } else if 0xDC00 <= h && h < 0xE000 {
                None
            } else {
                match core::char::from_u32(h) {
                    Some(c) => {
                        proof {
                            lemma_char_of(c, h as int);
                        }
                        Some((c, i + 6))
                    },
                    None => None,
                }
            },
            None => None,
        }
    } else {
        None
    }
}

/// The characters of the string literal whose body starts at `i`.
fn parse_chars_at(s: &Vec<char>, i: usize) -> (r: Option<(String, usize)>)
    ensures
        r matches Some((t, e)) ==> parse_chars(s@, i as int, Seq::empty()) == Some((t@, e as int)),
        r is None ==> parse_chars(s@, i as int, Seq::empty()) is None,
{
    let mut acc = String::new();
    let mut j = i;
    loop
        invariant
            i <= j,
            parse_chars(s@, i as int, Seq::empty()) == parse_chars(s@, j as int, acc@),
        decreases s@.len() - j,
    {
        if j >= s.len() {
            return None;
        }
        let c = s[j];
        if c == '"' {
            return Some((acc, j + 1));
        } else if c == '\\' {
            match parse_escape_at(s, j) {
                Some((ch, k)) => {
                    if k <= j || k > s.len() {
                        assert(k <= j || k as int > s@.len());
                        return None;
                    }
                    acc.push(ch);
                    j = k;
                },
                None => {
                    return None;
                },
            }
        } else if code_point(c) < 0x20 {
            return None;
        } else {
            acc.push(c);
            j = j + 1;
        }
    }
}

/// The JSON value that starts exactly at `i`, and where it ends.
fn parse_value_at(s: &Vec<char>, i: usize) -> (r: Option<(Value, usize)>)
    requires
        i <= s@.len(),
    ensures
        parsed(r) == parse_value(s@, i as int),
    decreases s@.len() - i,
{
    if i >= s.len() {
        return None;
    }
    let c = s[i];
    if c == 'n' {
        let ok = 3 < s.len() - i && s[i + 1] == 'u' && s[i + 2] == 'l' && s[i + 3] == 'l';
        assert(ok == matches_at(s@, i as int, seq!['n', 'u', 'l', 'l'])) by {
            if matches_at(s@, i as int, seq!['n', 'u', 'l', 'l']) {
                assert(s@[i + 1] == seq!['n', 'u', 'l', 'l'][1]);
                assert(s@[i + 2] == seq!['n', 'u', 'l', 'l'][2]);
                assert(s@[i + 3] == seq!['n', 'u', 'l', 'l'][3]);
            }
        }
        if ok { Some((Value::Null, i + 4)) } else { None }
    } else if c == 't' {
        let ok = 3 < s.len() - i && s[i + 1] == 'r' && s[i + 2] == 'u' && s[i + 3] == 'e';
        assert(ok == matches_at(s@, i as int, seq!['t', 'r', 'u', 'e'])) by {
            if matches_at(s@, i as int, seq!['t', 'r', 'u', 'e']) {
                assert(s@[i + 1] == seq!['t', 'r', 'u', 'e'][1]);
                assert(s@[i + 2] == seq!['t', 'r', 'u', 'e'][2]);
                assert(s@[i + 3] == seq!['t', 'r', 'u', 'e'][3]);
            }
        }
        if ok { Some((Value::Bool(true), i + 4)) } else { None }
    } else if c == 'f' {
        let ok = 4 < s.len() - i && s[i + 1] == 'a' && s[i + 2] == 'l' && s[i + 3] == 's'
            && s[i + 4] == 'e';
        assert(ok == matches_at(s@, i as int, seq!['f', 'a', 'l', 's', 'e'])) by {
            if matches_at(s@, i as int, seq!['f', 'a', 'l', 's', 'e']) {
                assert(s@[i + 1] == seq!['f', 'a', 'l', 's', 'e'][1]);
                assert(s@[i + 2] == seq!['f', 'a', 'l', 's', 'e'][2]);
                assert(s@[i + 3] == seq!['f', 'a', 'l', 's', 'e'][3]);
                assert(s@[i + 4] == seq!['f', 'a', 'l', 's', 'e'][4]);
            }
        }
        if ok { Some((Value::Bool(false), i + 5)) } else { None }
    } else if c == '"' {
        match parse_chars_at(s, i + 1) {
            Some((t, e)) => Some((Value::Str(t), e)),
            None => None,
        }
    } else if c == '[' {
        let j = skip_ws_at(s, i + 1);
        if j < s.len() && s[j] == ']' {
            let items: Vec<Value> = Vec::new();
            proof {
                lemma_array_model(items);
                assert(models(items@) =~= Seq::empty());
            }
            return Some((Value::Array(items), j + 1));
        }
        parse_elements_at(s, i, j)
    } else if c == '{' {
        let j = skip_ws_at(s, i + 1);
        if j < s.len() && s[j] == '}' {
            let members: Vec<(String, Value)> = Vec::new();
            proof {
                lemma_object_model(members);
                assert(member_models(members@) =~= Seq::empty());
            }
            return Some((Value::Object(members), j + 1));
        }
        parse_members_at(s, i, j)
    } else if c == '-' || ('0' <= c && c <= '9') {
        let e = number_end_at(s, i);
        if is_number_at(s, i, e) {
            Some((Value::Number(string_of(s, i, e)), e))
        } else {
            None
        }
    } else {
        None
    }
}

/// The elements of the array opened at `open`, the first of which starts at `j`.
fn parse_elements_at(s: &Vec<char>, open: usize, j: usize) -> (r: Option<(Value, usize)>)
    requires
        open < j <= s@.len(),
    ensures
        parsed(r) == parse_elements(s@, j as int, Seq::empty()),
    decreases s@.len() - open, 0nat,
{
    let mut acc: Vec<Value> = Vec::new();
    let mut pos = j;
    assert(models(acc@) =~= Seq::empty());
    loop
        invariant
            open < pos <= s@.len(),
            parse_elements(s@, j as int, Seq::empty()) == parse_elements(s@, pos as int, models(acc@)),
        decreases s@.len() - pos,
    {
        if pos >= s.len() {
            return None;
        }
        match parse_value_at(s, pos) {
            Some((v, e)) => {
                if !(pos < e && e <= s.len()) {
                    return None;
                }
                let k = skip_ws_at(s, e);
                proof {
                    assert(models(acc@.push(v)) =~= models(acc@).push(v.model()));
                }
                if k < s.len() && s[k] == ',' {
                    acc.push(v);
                    pos = skip_ws_at(s, k + 1);
                } else if k < s.len() && s[k] == ']' {
                    acc.push(v);
                    proof {
                        lemma_array_model(acc);
                    }
                    return Some((Value::Array(acc), k + 1));
                } else {
                    return None;
                }
            },
            None => {
                return None;
            },
        }
    }
}

/// The members of the object opened at `open`, the first of which starts at `j`.
fn parse_members_at(s: &Vec<char>, open: usize, j: usize) -> (r: Option<(Value, usize)>)
    requires
        open < j <= s@.len(),
    ensures
        parsed(r) == parse_members(s@, j as int, Seq::empty()),
    decreases s@.len() - open, 0nat,
{
    let mut acc: Vec<(String, Value)> = Vec::new();
    let mut pos = j;
    assert(member_models(acc@) =~= Seq::empty());
    loop
        invariant
            open < pos <= s@.len(),
            parse_members(s@, j as int, Seq::empty()) == parse_members(s@, pos as int, member_models(acc@)),
        decreases s@.len() - pos,
    {
        if !(pos < s.len() && s[pos] == '"') {
            return None;
        }
        let (key, e) = match parse_chars_at(s, pos + 1) {
            Some(found) => found,
            None => {
                return None;
            },
        };
        if !(pos < e && e <= s.len()) {
            return None;
        }
        let k = skip_ws_at(s, e);
        if !(k < s.len() && s[k] == ':') {
            return None;
        }
        let m = skip_ws_at(s, k + 1);
        match parse_value_at(s, m) {
            Some((v, e2)) => {
                if !(m < e2 && e2 <= s.len()) {
                    return None;
                }
                let n = skip_ws_at(s, e2);
                proof {
                    assert(member_models(acc@.push((key, v))) =~= member_models(acc@).push((key@, v.model())));
                }
                if n < s.len() && s[n] == ',' {
                    acc.push((key, v));
                    pos = skip_ws_at(s, n + 1);
                } else if n < s.len() && s[n] == '}' {
                    acc.push((key, v));
                    proof {
                        lemma_object_model(acc);
                    }
                    return Some((Value::Object(acc), n + 1));
                } else {
                    return None;
                }
            },
            None => {
                return None;
            },
        }
    }
}

/// The value denoted by the JSON text `text`, if it is one.
pub fn parse_json_text(text: &str) -> (r: Option<Value>)
    ensures
        r matches Some(v) ==> parse_json(text@) == Some(v.model()) && v.wf(),
        r is None <==> parse_json(text@) is None,
{
    let s = chars_of(text);
    proof {
        if parse_json(text@) is Some {
            lemma_parse_json_wf(text@);
        }
    }
    let i = skip_ws_at(&s, 0);
    match parse_value_at(&s, i) {
        Some((v, e)) => {
            if e <= s.len() && skip_ws_at(&s, e) == s.len() {
                Some(v)
            } else {
                None
            }
        },
        None => None,
    }
}

// ---------------------------------------------------------------- the wire encoding

/// How a value has to be sent to the remote API.
#[derive(Clone, Copy, Debug, PartialEq, Eq)]
pub struct Classification {
    /// A boolean, a number or a string.
    pub is_primitive: bool,
    /// A string, which travels without quotes.
    pub is_string: bool,
}

impl Classification {
    /// Structured values are sent as HCL expressions.
    pub fn is_hcl(&self) -> (r: bool)
        ensures
            r == !self.is_primitive,
    {
        !self.is_primitive
    }
}

/// The value could not be read back.
#[derive(Clone, Copy, Debug, PartialEq, Eq)]
pub enum CodecError {
    InvalidJson,
}

pub open spec fn is_primitive(v: JsonValue) -> bool {
    v is Bool || v is Number || v is Str
}

pub open spec fn is_string(v: JsonValue) -> bool {
    v is Str
}

/// The `hcl` flag sent with a value.
pub open spec fn is_hcl(v: JsonValue) -> bool {
    !is_primitive(v)
}

/// The raw text sent for a value: a string as it is, anything else as JSON.
pub open spec fn encoding(v: JsonValue) -> Seq<char> {
    match v {
        JsonValue::Str(s) => s,
        _ => render(v),
    }
}

/// The value that raw text stands for.
pub open spec fn decoding(is_string: bool, raw: Seq<char>) -> Option<JsonValue> {
    if is_string {
        Some(JsonValue::Str(raw))
    } else {
        parse_json(raw)
    }
}

/// Whether `v` is a scalar, and whether it is a string.
pub fn classify(v: &Value) -> (r: Classification)
    ensures
        r.is_primitive == is_primitive(v.model()),
        r.is_string == is_string(v.model()),
{
    match v {
        Value::Bool(_) | Value::Number(_) => Classification { is_primitive: true, is_string: false },
        Value::Str(_) => Classification { is_primitive: true, is_string: true },
        Value::Null | Value::Array(_) | Value::Object(_) => Classification {
            is_primitive: false,
            is_string: false,
        },
    }
}

/// The raw text sent for `v`: a string as it is, anything else as compact JSON.
pub fn encode(v: &Value) -> (r: String)
    ensures
        r@ == encoding(v.model()),
{
    match v {
        Value::Str(s) => s.clone(),
        _ => to_json(v),
    }
}

/// Reads raw text back; `is_string` says whether the encoded value was a string.
/// The `hcl` flag does not change the result: a structured value and a scalar
/// that is not a string are both read as JSON.
pub fn decode(_is_hcl: bool, is_string: bool, raw: &str) -> (r: Result<Value, CodecError>)
    ensures
        match decoding(is_string, raw@) {
            Some(w) => r matches Ok(v) && v.model() == w,
            None => r is Err,
        },
        r matches Ok(v) ==> v.wf(),
{
    if is_string {
        Ok(Value::Str(String::from_str(raw)))
    } else {
        match parse_json_text(raw) {
            Some(v) => Ok(v),
            None => Err(CodecError::InvalidJson),
        }
    }
}

/// Decoding the encoding of a well-formed value, with its classification,
/// gives the value back.
pub proof fn lemma_round_trip(v: JsonValue)
    requires
        wf(v),
    ensures
        decoding(is_string(v), encoding(v)) == Some(v),
{
    if !is_string(v) {
        lemma_parse_json_render(v);
    }
}

/// The classification depends on the value alone: equal values are
/// classified alike.
pub proof fn lemma_classification_is_a_function(a: JsonValue, b: JsonValue)
    requires
        a == b,
    ensures
        is_primitive(a) == is_primitive(b),
        is_string(a) == is_string(b),
        is_hcl(a) == is_hcl(b),
{
}

impl Value {
    /// A number from its text, if the text is a JSON number.
    pub fn number(text: &str) -> (r: Option<Value>)
        ensures
            r is Some <==> is_number(text@),
            r matches Some(v) ==> v.model() == JsonValue::Number(text@),
    {
        let cs = chars_of(text);
        if is_number_at(&cs, 0, cs.len()) {
            assert(cs@.subrange(0, cs@.len() as int) =~= text@);
            Some(Value::Number(String::from_str(text)))
        } else {
            assert(cs@.subrange(0, cs@.len() as int) =~= text@);
            None
        }
    }

    /// Every number in the value is a JSON number.
    pub open spec fn wf(&self) -> bool {
        wf(self.model())
    }
}

impl Value {
    /// A copy of the value.
    pub fn deep_clone(&self) -> (r: Value)
        ensures
            r.model() == self.model(),
        decreases self,
    {
        match self {
            Value::Null => Value::Null,
            Value::Bool(b) => Value::Bool(*b),
            Value::Number(t) => Value::Number(t.clone()),
            Value::Str(t) => Value::Str(t.clone()),
            Value::Array(items) => {
                let mut out: Vec<Value> = Vec::new();
                let mut k: usize = 0;
                while k < items.len()
                    invariant
                        k <= items@.len(),
                        *self == Value::Array(*items),
                        models(out@) == models(items@).take(k as int),
                    decreases items@.len() - k,
                {
                    proof {
                        assert(decreases_to!(*self => (*self)->Array_0));
                        assert(decreases_to!((*self)->Array_0 => (*self)->Array_0[k as int]));
                    }
                    let c = items[k].deep_clone();
                    let ghost before = out@;
                    out.push(c);
                    assert(out@ == before.push(c));
                    assert(models(before).len() == k);
                    assert forall|i: int| 0 <= i < k + 1 implies #[trigger] models(out@)[i] == models(items@).take(k + 1)[i] by {
                        if i < k {
                            assert(models(before)[i] == models(items@).take(k as int)[i]);
                        }
                    }
                    assert(models(out@) =~= models(items@).take(k + 1));
                    k = k + 1;
                }
                proof {
                    lemma_array_model(out);
                    lemma_array_model(*items);
                    assert(models(items@).take(k as int) =~= models(items@));
                }
                Value::Array(out)
            },
            Value::Object(members) => {
                let mut out: Vec<(String, Value)> = Vec::new();
                let mut k: usize = 0;
                while k < members.len()
                    invariant
                        k <= members@.len(),
                        *self == Value::Object(*members),
                        member_models(out@) == member_models(members@).take(k as int),
                    decreases members@.len() - k,
                {
                    proof {
                        assert(decreases_to!(*self => (*self)->Object_0));
                        assert(decreases_to!((*self)->Object_0 => (*self)->Object_0[k as int]));
                        assert(decreases_to!((*self)->Object_0[k as int] => (*self)->Object_0[k as int].1));
                    }
                    let c = members[k].1.deep_clone();
                    let key = members[k].0.clone();
                    let ghost before = out@;
                    out.push((key, c));
                    assert(out@ == before.push((key, c)));
                    assert(member_models(before).len() == k);
                    assert forall|i: int| 0 <= i < k + 1 implies #[trigger] member_models(out@)[i] == member_models(members@).take(k + 1)[i] by {
                        if i < k {
                            assert(member_models(before)[i] == member_models(members@).take(k as int)[i]);
                        }
                    }
                    assert(member_models(out@) =~= member_models(members@).take(k + 1));
                    k = k + 1;
                }
                proof {
                    lemma_object_model(out);
                    lemma_object_model(*members);
                    assert(member_models(members@).take(k as int) =~= member_models(members@));
                }
                Value::Object(out)
            },
        }
    }
}

} // verus!
