//! JSON text: the canonical rendering of a value, the grammar that reads
//! JSON text back, and the proof that reading a rendering gives the value.
use vstd::prelude::*;
use crate::value::JsonValue;
use crate::text::{is_ws, skip_ws, lemma_skip_ws_bounds};

verus! {

broadcast use {vstd::seq::group_seq_axioms, lemma_skip_ws_bounds};

// ---------------------------------------------------------------- numbers

pub open spec fn is_digit(c: char) -> bool {
    '0' <= c && c <= '9'
}

/// Characters that may occur in a JSON number.
pub open spec fn is_number_char(c: char) -> bool {
    is_digit(c) || c == '-' || c == '+' || c == '.' || c == 'e' || c == 'E'
}

/// One transition of the automaton that recognises JSON numbers.
/// States: 0 start, 1 after `-`, 2 leading `0`, 3 integer digits, 4 after `.`,
/// 5 fraction digits, 6 after `e`, 7 after the exponent sign, 8 exponent digits.
pub open spec fn number_step(state: nat, c: char) -> Option<nat> {
    if state == 0 && c == '-' {
        Some(1)
    } else if (state == 0 || state == 1) && c == '0' {
        Some(2)
    } else if (state == 0 || state == 1) && '1' <= c && c <= '9' {
        Some(3)
    } else if state == 3 && is_digit(c) {
        Some(3)
    } else if (state == 2 || state == 3) && c == '.' {
        Some(4)
    } else if (state == 4 || state == 5) && is_digit(c) {
        Some(5)
    } else if (state == 2 || state == 3 || state == 5) && (c == 'e' || c == 'E') {
        Some(6)
    } else if state == 6 && (c == '+' || c == '-') {
        Some(7)
    } else if (state == 6 || state == 7 || state == 8) && is_digit(c) {
        Some(8)
    } else {
        None
    }
}

pub open spec fn number_run(t: Seq<char>, n: int) -> Option<nat>
    decreases n,
{
    if n <= 0 {
        Some(0)
    } else {
        match number_run(t, n - 1) {
            Some(st) => number_step(st, t[n - 1]),
            None => None,
        }
    }
}

pub open spec fn is_final_number_state(st: nat) -> bool {
    st == 2 || st == 3 || st == 5 || st == 8
}

/// `t` is a JSON number: `-`? (`0` | [1-9][0-9]*) (`.` [0-9]+)? ([eE] [+-]? [0-9]+)?
pub open spec fn is_number(t: Seq<char>) -> bool {
    match number_run(t, t.len() as int) {
        Some(st) => is_final_number_state(st),
        None => false,
    }
}

// ---------------------------------------------------------------- well-formed values

/// Every number of `v` is a JSON number.
pub open spec fn wf(v: JsonValue) -> bool
    decreases v,
{
    match v {
        JsonValue::Number(t) => is_number(t),
        JsonValue::Array(items) => wf_items(items),
        JsonValue::Object(ms) => wf_members(ms),
        _ => true,
    }
}

pub open spec fn wf_items(items: Seq<JsonValue>) -> bool
    decreases items,
{
    items.len() == 0 || (wf(items[0]) && wf_items(items.drop_first()))
}

pub open spec fn wf_members(ms: Seq<(Seq<char>, JsonValue)>) -> bool
    decreases ms,
{
    ms.len() == 0 || (wf(ms[0].1) && wf_members(ms.drop_first()))
}

/// A sequence of values is well formed exactly when each of them is.
pub proof fn lemma_wf_items(items: Seq<JsonValue>)
    ensures
        wf_items(items) <==> forall|k: int| 0 <= k < items.len() ==> #[trigger] wf(items[k]),
    decreases items.len(),
{
    if items.len() > 0 {
        let rest = items.drop_first();
        lemma_wf_items(rest);
        if wf_items(items) {
            assert(wf(items[0]) && wf_items(rest));
            assert forall|k: int| 0 <= k < items.len() implies #[trigger] wf(items[k]) by {
                if k > 0 {
                    assert(items[k] == rest[k - 1]);
                }
            }
        }
        if forall|k: int| 0 <= k < items.len() ==> #[trigger] wf(items[k]) {
            assert forall|k: int| 0 <= k < rest.len() implies #[trigger] wf(rest[k]) by {
                assert(rest[k] == items[k + 1]);
            }
            assert(wf(items[0]));
            assert(wf_items(rest));
            assert(wf_items(items));
        }
    }
}

/// Object members are well formed exactly when each value is.
pub proof fn lemma_wf_members(ms: Seq<(Seq<char>, JsonValue)>)
    ensures
        wf_members(ms) <==> forall|k: int| 0 <= k < ms.len() ==> #[trigger] wf(ms[k].1),
    decreases ms.len(),
{
    if ms.len() > 0 {
        let rest = ms.drop_first();
        lemma_wf_members(rest);
        if wf_members(ms) {
            assert(wf(ms[0].1) && wf_members(rest));
            assert forall|k: int| 0 <= k < ms.len() implies #[trigger] wf(ms[k].1) by {
                if k > 0 {
                    assert(ms[k] == rest[k - 1]);
                }
            }
        }
        if forall|k: int| 0 <= k < ms.len() ==> #[trigger] wf(ms[k].1) {
            assert forall|k: int| 0 <= k < rest.len() implies #[trigger] wf(rest[k].1) by {
                assert(rest[k] == ms[k + 1]);
            }
            assert(wf(ms[0].1));
            assert(wf_members(rest));
            assert(wf_members(ms));
        }
    }
}

// ---------------------------------------------------------------- rendering

pub open spec fn hex_digit(n: int) -> char {
    if n == 0 { '0' } else if n == 1 { '1' } else if n == 2 { '2' } else if n == 3 { '3' }
    else if n == 4 { '4' } else if n == 5 { '5' } else if n == 6 { '6' } else if n == 7 { '7' }
    else if n == 8 { '8' } else if n == 9 { '9' } else if n == 10 { 'a' } else if n == 11 { 'b' }
    else if n == 12 { 'c' } else if n == 13 { 'd' } else if n == 14 { 'e' } else { 'f' }
}

/// How one character of a string is written between the quotes.
pub open spec fn escape_char(c: char) -> Seq<char> {
    if c == '"' {
        seq!['\\', '"']
    } else if c == '\\' {
        seq!['\\', '\\']
    } else if c == '\n' {
        seq!['\\', 'n']
    } else if c == '\r' {
        seq!['\\', 'r']
    } else if c == '\t' {
        seq!['\\', 't']
    } else if c == '\x08' {
        seq!['\\', 'b']
    } else if c == '\x0c' {
        seq!['\\', 'f']
    } else if (c as int) < 0x20 {
        seq!['\\', 'u', '0', '0', hex_digit(c as int / 16), hex_digit(c as int % 16)]
    } else {
        seq![c]
    }
}

pub open spec fn escape(s: Seq<char>) -> Seq<char>
    decreases s.len(),
{
    if s.len() == 0 {
        Seq::empty()
    } else {
        escape_char(s[0]) + escape(s.drop_first())
    }
}

/// A string literal.
pub open spec fn quote(s: Seq<char>) -> Seq<char> {
    seq!['"'] + escape(s) + seq!['"']
}

/// Compact JSON text of `v`; object members keep their order.
pub open spec fn render(v: JsonValue) -> Seq<char>
    decreases v,
{
    match v {
        JsonValue::Null => seq!['n', 'u', 'l', 'l'],
        JsonValue::Bool(b) => if b { seq!['t', 'r', 'u', 'e'] } else { seq!['f', 'a', 'l', 's', 'e'] },
        JsonValue::Number(t) => t,
        JsonValue::Str(s) => quote(s),
        JsonValue::Array(items) => seq!['['] + render_items(items) + seq![']'],
        JsonValue::Object(ms) => seq!['{'] + render_members(ms) + seq!['}'],
    }
}

pub open spec fn render_items(items: Seq<JsonValue>) -> Seq<char>
    decreases items,
{
    if items.len() == 0 {
        Seq::empty()
    } else if items.len() == 1 {
        render(items[0])
    } else {
        render(items[0]) + seq![','] + render_items(items.drop_first())
    }
}

pub open spec fn render_member(m: (Seq<char>, JsonValue)) -> Seq<char>
    decreases m,
{
    quote(m.0) + seq![':'] + render(m.1)
}

pub open spec fn render_members(ms: Seq<(Seq<char>, JsonValue)>) -> Seq<char>
    decreases ms,
{
    if ms.len() == 0 {
        Seq::empty()
    } else if ms.len() == 1 {
        render_member(ms[0])
    } else {
        render_member(ms[0]) + seq![','] + render_members(ms.drop_first())
    }
}

// ---------------------------------------------------------------- reading

/// The end of the run of number characters that starts at `i`.
pub open spec fn number_end(s: Seq<char>, i: int) -> int
    decreases s.len() - i,
{
    if 0 <= i < s.len() && is_number_char(s[i]) {
        number_end(s, i + 1)
    } else {
        i
    }
}

/// `s[i..]` starts with `t`.
pub open spec fn matches_at(s: Seq<char>, i: int, t: Seq<char>) -> bool {
    &&& 0 <= i
    &&& i + t.len() <= s.len()
    &&& forall|k: int| 0 <= k < t.len() ==> s[i + k] == #[trigger] t[k]
}

pub open spec fn hex_value(c: char) -> Option<int> {
    if '0' <= c && c <= '9' {
        Some(c as int - '0' as int)
    } else if 'a' <= c && c <= 'f' {
        Some(c as int - 'a' as int + 10)
    } else if 'A' <= c && c <= 'F' {
        Some(c as int - 'A' as int + 10)
    } else {
        None
    }
}

/// Four hexadecimal digits at `i`.
pub open spec fn hex4(s: Seq<char>, i: int) -> Option<int> {
    if 0 <= i && i + 4 <= s.len() {
        match (hex_value(s[i]), hex_value(s[i + 1]), hex_value(s[i + 2]), hex_value(s[i + 3])) {
            (Some(a), Some(b), Some(c), Some(d)) => Some(((a * 16 + b) * 16 + c) * 16 + d),
            _ => None,
        }
    } else {
        None
    }
}

/// The scalar value of `c`.
pub open spec fn code_of(c: char) -> int {
    c as int
}

/// The character whose scalar value is `code`.
pub open spec fn char_of(code: int) -> char {
    choose|c: char| #[trigger] code_of(c) == code
}

/// An escape sequence `\x` at `i`: the character it stands for and where it ends.
pub open spec fn parse_escape(s: Seq<char>, i: int) -> Option<(char, int)> {
    if !(0 <= i && i + 1 < s.len() && s[i] == '\\') {
        None
    } else {
        let e = s[i + 1];
        if e == '"' || e == '\\' || e == '/' {
            Some((e, i + 2))
        } else if e == 'b' {
            Some(('\x08', i + 2))
        } else if e == 'f' {
            Some(('\x0c', i + 2))
        } else if e == 'n' {
            Some(('\n', i + 2))
        } else if e == 'r' {
            Some(('\r', i + 2))
        } else if e == 't' {
            Some(('\t', i + 2))
        } else if e == 'u' {
            match hex4(s, i + 2) {
                Some(h) => if 0xD800 <= h < 0xDC00 {
                    if i + 7 < s.len() && s[i + 6] == '\\' && s[i + 7] == 'u' {
                        match hex4(s, i + 8) {
                            Some(l) => if 0xDC00 <= l < 0xE000 {
                                Some((char_of(0x10000 + (h - 0xD800) * 1024 + (l - 0xDC00)), i + 12))
                            } else {
                                None
                            },
                            None => None,
                        }
                    } else {
                        None
                    }
                } else if 0xDC00 <= h < 0xE000 {
                    None
                } else {
                    Some((char_of(h), i + 6))
                },
                None => None,
            }
        } else {
            None
        }
    }
}

/// The characters of a string literal from `i` (just after the opening quote)
/// appended to `acc`, and the position after the closing quote.
pub open spec fn parse_chars(s: Seq<char>, i: int, acc: Seq<char>) -> Option<(Seq<char>, int)>
    decreases s.len() - i,
{
    if !(0 <= i < s.len()) {
        None
    } else if s[i] == '"' {
        Some((acc, i + 1))
    } else if s[i] == '\\' {
        match parse_escape(s, i) {
            Some((c, j)) => if i < j { parse_chars(s, j, acc.push(c)) } else { None },
            None => None,
        }
    } else if (s[i] as int) < 0x20 {
        None
    } else {
        parse_chars(s, i + 1, acc.push(s[i]))
    }
}

/// The JSON value that starts exactly at `i`, and where it ends.
pub open spec fn parse_value(s: Seq<char>, i: int) -> Option<(JsonValue, int)>
    decreases s.len() - i, 0nat,
{
    if !(0 <= i < s.len()) {
        None
    } else {
        let c = s[i];
        if c == 'n' {
            if matches_at(s, i, seq!['n', 'u', 'l', 'l']) { Some((JsonValue::Null, i + 4)) } else { None }
        } else if c == 't' {
            if matches_at(s, i, seq!['t', 'r', 'u', 'e']) { Some((JsonValue::Bool(true), i + 4)) } else { None }
        } else if c == 'f' {
            if matches_at(s, i, seq!['f', 'a', 'l', 's', 'e']) {
                Some((JsonValue::Bool(false), i + 5))
            } else {
                None
            }
        } else if c == '"' {
            match parse_chars(s, i + 1, Seq::empty()) {
                Some((t, e)) => Some((JsonValue::Str(t), e)),
                None => None,
            }
        } else if c == '[' {
            let j = skip_ws(s, i + 1);
            if j < s.len() && s[j] == ']' {
                Some((JsonValue::Array(Seq::empty()), j + 1))
            } else {
                parse_elements(s, j, Seq::empty())
            }
        } else if c == '{' {
            let j = skip_ws(s, i + 1);
            if j < s.len() && s[j] == '}' {
                Some((JsonValue::Object(Seq::empty()), j + 1))
            } else {
                parse_members(s, j, Seq::empty())
            }
        } else if c == '-' || is_digit(c) {
            let e = number_end(s, i);
            if is_number(s.subrange(i, e)) { Some((JsonValue::Number(s.subrange(i, e)), e)) } else { None }
        } else {
            None
        }
    }
}

/// Array elements from `j`, after those already read into `acc`, up to the closing bracket.
pub open spec fn parse_elements(s: Seq<char>, j: int, acc: Seq<JsonValue>) -> Option<(JsonValue, int)>
    decreases s.len() - j, 1nat,
{
    if !(0 <= j < s.len()) {
        None
    } else {
        match parse_value(s, j) {
            Some((v, e)) => if !(j < e <= s.len()) {
                None
            } else {
                let k = skip_ws(s, e);
                if k < s.len() && s[k] == ',' {
                    parse_elements(s, skip_ws(s, k + 1), acc.push(v))
                } else if k < s.len() && s[k] == ']' {
                    Some((JsonValue::Array(acc.push(v)), k + 1))
                } else {
                    None
                }
            },
            None => None,
        }
    }
}

/// Object members from `j`, after those already read into `acc`, up to the closing brace.
pub open spec fn parse_members(
    s: Seq<char>,
    j: int,
    acc: Seq<(Seq<char>, JsonValue)>,
) -> Option<(JsonValue, int)>
    decreases s.len() - j, 1nat,
{
    if !(0 <= j < s.len() && s[j] == '"') {
        None
    } else {
        match parse_chars(s, j + 1, Seq::empty()) {
            Some((key, e)) => {
                let k = skip_ws(s, e);
                if !(j < e <= s.len() && k < s.len() && s[k] == ':') {
                    None
                } else {
                    let m = skip_ws(s, k + 1);
                    match parse_value(s, m) {
                        Some((v, e2)) => if !(m < e2 <= s.len()) {
                            None
                        } else {
                            let n = skip_ws(s, e2);
                            if n < s.len() && s[n] == ',' {
                                parse_members(s, skip_ws(s, n + 1), acc.push((key, v)))
                            } else if n < s.len() && s[n] == '}' {
                                Some((JsonValue::Object(acc.push((key, v))), n + 1))
                            } else {
                                None
                            }
                        },
                        None => None,
                    }
                }
            },
            None => None,
        }
    }
}

/// The value denoted by the JSON text `s`, if `s` is one; whitespace may surround it.
pub open spec fn parse_json(s: Seq<char>) -> Option<JsonValue> {
    match parse_value(s, skip_ws(s, 0)) {
        Some((v, e)) => if skip_ws(s, e) == s.len() { Some(v) } else { None },
        None => None,
    }
}

// ---------------------------------------------------------------- reading a rendering

/// After position `k` no number can continue.
pub open spec fn boundary(s: Seq<char>, k: int) -> bool {
    k == s.len() || (0 <= k < s.len() && !is_number_char(s[k]))
}

proof fn lemma_matches_split(s: Seq<char>, i: int, a: Seq<char>, b: Seq<char>)
    requires
        matches_at(s, i, a + b),
    ensures
        matches_at(s, i, a),
        matches_at(s, i + a.len(), b),
{
    assert forall|k: int| 0 <= k < a.len() implies s[i + k] == #[trigger] a[k] by {
        assert((a + b)[k] == a[k]);
    }
    assert forall|k: int| 0 <= k < b.len() implies s[i + a.len() + k] == #[trigger] b[k] by {
        assert((a + b)[a.len() + k] == b[k]);
    }
}

proof fn lemma_number_run(t: Seq<char>, n: int)
    requires
        0 <= n <= t.len(),
        number_run(t, n) is Some,
    ensures
        forall|k: int| 0 <= k < n ==> is_number_char(#[trigger] t[k]),
        (number_run(t, n) == Some(0nat)) <==> n == 0,
        n > 0 ==> (t[0] == '-' || is_digit(t[0])),
    decreases n,
{
    if n > 0 {
        lemma_number_run(t, n - 1);
    }
}

/// A JSON number is a non-empty run of number characters starting with `-` or a digit.
pub proof fn lemma_number_shape(t: Seq<char>)
    requires
        is_number(t),
    ensures
        t.len() > 0,
        t[0] == '-' || is_digit(t[0]),
        forall|k: int| 0 <= k < t.len() ==> is_number_char(#[trigger] t[k]),
{
    lemma_number_run(t, t.len() as int);
}

proof fn lemma_number_end(s: Seq<char>, i: int, j: int, e: int)
    requires
        0 <= i <= j <= e <= s.len(),
        forall|k: int| i <= k < e ==> is_number_char(#[trigger] s[k]),
        boundary(s, e),
    ensures
        number_end(s, j) == e,
    decreases e - j,
{
    if j < e {
        lemma_number_end(s, i, j + 1, e);
    }
}

/// The first character of a rendering opens a token.
proof fn lemma_first_char(w: JsonValue)
    requires
        wf(w),
    ensures
        render(w).len() > 0,
        !is_ws(render(w)[0]),
        render(w)[0] != ']' && render(w)[0] != '}' && render(w)[0] != ',',
{
    if let JsonValue::Number(t) = w {
        lemma_number_shape(t);
    }
}

proof fn lemma_render_items_first(items: Seq<JsonValue>)
    requires
        items.len() > 0,
        wf(items[0]),
    ensures
        render_items(items).len() > 0,
        render_items(items)[0] == render(items[0])[0],
        !is_ws(render_items(items)[0]),
{
    lemma_first_char(items[0]);
}

proof fn lemma_hex_digit(n: int)
    requires
        0 <= n < 16,
    ensures
        hex_value(hex_digit(n)) == Some(n),
{
}

proof fn lemma_parse_escaped_char(s: Seq<char>, i: int, c: char)
    requires
        matches_at(s, i, escape_char(c)),
        escape_char(c).len() > 1,
    ensures
        parse_escape(s, i) == Some((c, i + escape_char(c).len())),
{
    if c != '"' && c != '\\' && c != '\n' && c != '\r' && c != '\t' && c != '\x08' && c != '\x0c' {
        let n = c as int;
        lemma_hex_digit(n / 16);
        lemma_hex_digit(n % 16);
        assert(s[i + 2] == '0' && s[i + 3] == '0');
        assert(s[i + 4] == hex_digit(n / 16) && s[i + 5] == hex_digit(n % 16));
        assert(hex4(s, i + 2) == Some(n));
        assert(code_of(c) == n);
        assert(char_of(n) == c);
    }
}

proof fn lemma_parse_chars(s: Seq<char>, i: int, t: Seq<char>, acc: Seq<char>)
    requires
        matches_at(s, i, escape(t) + seq!['"']),
    ensures
        parse_chars(s, i, acc) == Some((acc + t, i + escape(t).len() + 1)),
    decreases t.len(),
{
    if t.len() == 0 {
        assert(s[i] == (escape(t) + seq!['"'])[0]);
        assert(acc + t =~= acc);
    } else {
        let c = t[0];
        let rest = t.drop_first();
        assert(escape(t) + seq!['"'] =~= escape_char(c) + (escape(rest) + seq!['"']));
        lemma_matches_split(s, i, escape_char(c), escape(rest) + seq!['"']);
        let j = i + escape_char(c).len();
        if escape_char(c).len() > 1 {
            lemma_parse_escaped_char(s, i, c);
            assert(s[i] == escape_char(c)[0]);
        } else {
            assert(s[i] == escape_char(c)[0]);
        }
        lemma_parse_chars(s, j, rest, acc.push(c));
        assert(acc.push(c) + rest =~= acc + t);
    }
}

#[verifier::rlimit(40)]
proof fn lemma_parse_render(s: Seq<char>, i: int, w: JsonValue)
    requires
        wf(w),
        matches_at(s, i, render(w)),
        boundary(s, i + render(w).len()),
    ensures
        parse_value(s, i) == Some((w, i + render(w).len())),
    decreases w,
{
    lemma_first_char(w);
    assert(s[i] == render(w)[0]);
    match w {
        JsonValue::Null => {
            assert(render(w).len() == 4);
        },
        JsonValue::Bool(b) => {
        },
        JsonValue::Number(t) => {
            lemma_number_shape(t);
            assert forall|k: int| i <= k < i + t.len() implies is_number_char(#[trigger] s[k]) by {
                assert(s[i + (k - i)] == t[k - i]);
            }
            lemma_number_end(s, i, i, i + t.len());
            assert(s.subrange(i, i + t.len()) =~= t);
        },
        JsonValue::Str(t) => {
            assert(quote(t) =~= seq!['"'] + (escape(t) + seq!['"']));
            lemma_matches_split(s, i, seq!['"'], escape(t) + seq!['"']);
            lemma_parse_chars(s, i + 1, t, Seq::empty());
            assert(Seq::<char>::empty() + t =~= t);
        },
        JsonValue::Array(items) => {
            let body = render_items(items);
            assert(render(w) =~= seq!['['] + (body + seq![']']));
            lemma_matches_split(s, i, seq!['['], body + seq![']']);
            if items.len() == 0 {
                assert(body =~= Seq::<char>::empty());
                assert(s[i + 1 + 0] == (body + seq![']'])[0]);
                assert(skip_ws(s, i + 1) == i + 1);
                assert(items =~= Seq::<JsonValue>::empty());
            } else {
                lemma_wf_items(items);
                assert(wf(items[0]));
                lemma_render_items_first(items);
                lemma_first_char(items[0]);
                assert(s[i + 1 + 0] == (body + seq![']'])[0]);
                assert(skip_ws(s, i + 1) == i + 1);
                lemma_parse_elements(s, i + 1, items, Seq::empty());
                assert(Seq::<JsonValue>::empty() + items =~= items);
            }
        },
        JsonValue::Object(ms) => {
            let body = render_members(ms);
            assert(render(w) =~= seq!['{'] + (body + seq!['}']));
            lemma_matches_split(s, i, seq!['{'], body + seq!['}']);
            if ms.len() == 0 {
                assert(body =~= Seq::<char>::empty());
                assert(s[i + 1 + 0] == (body + seq!['}'])[0]);
                assert(skip_ws(s, i + 1) == i + 1);
                assert(ms =~= Seq::<(Seq<char>, JsonValue)>::empty());
            } else {
                lemma_render_members_first(ms);
                assert(s[i + 1 + 0] == (body + seq!['}'])[0]);
                assert(skip_ws(s, i + 1) == i + 1);
                lemma_wf_members(ms);
                lemma_parse_members(s, i + 1, ms, Seq::empty());
                assert(Seq::<(Seq<char>, JsonValue)>::empty() + ms =~= ms);
            }
        },
    }
}

proof fn lemma_parse_elements(s: Seq<char>, j: int, items: Seq<JsonValue>, acc: Seq<JsonValue>)
    requires
        items.len() > 0,
        forall|k: int| 0 <= k < items.len() ==> #[trigger] wf(items[k]),
        matches_at(s, j, render_items(items) + seq![']']),
    ensures
        parse_elements(s, j, acc) == Some(
            (JsonValue::Array(acc + items), j + render_items(items).len() + 1),
        ),
    decreases items,
{
    let w0 = items[0];
    let r0 = render(w0);
    let rest = items.drop_first();
    let e = j + r0.len();
    lemma_first_char(w0);
    if items.len() == 1 {
        lemma_matches_split(s, j, r0, seq![']']);
        assert(s[e + 0] == seq![']'][0]);
        lemma_parse_render(s, j, w0);
        assert(skip_ws(s, e) == e);
        assert(acc.push(w0) =~= acc + items);
    } else {
        let tail = render_items(rest);
        assert(render_items(items) + seq![']'] =~= r0 + (seq![','] + (tail + seq![']'])));
        lemma_matches_split(s, j, r0, seq![','] + (tail + seq![']']));
        lemma_matches_split(s, e, seq![','], tail + seq![']']);
        assert(s[e + 0] == seq![','][0]);
        lemma_parse_render(s, j, w0);
        assert(wf(rest[0]) && rest[0] == items[1]);
        lemma_render_items_first(rest);
        assert(s[e + 1 + 0] == (tail + seq![']'])[0]);
        assert(skip_ws(s, e) == e);
        assert(skip_ws(s, e + 1) == e + 1);
        assert(forall|k: int| 0 <= k < rest.len() ==> #[trigger] rest[k] == items[k + 1]);
        assert forall|k: int| 0 <= k < rest.len() implies #[trigger] wf(rest[k]) by {
            assert(wf(items[k + 1]));
        }
        lemma_parse_elements(s, e + 1, rest, acc.push(w0));
        assert(acc.push(w0) + rest =~= acc + items);
    }
}

proof fn lemma_parse_members(
    s: Seq<char>,
    j: int,
    ms: Seq<(Seq<char>, JsonValue)>,
    acc: Seq<(Seq<char>, JsonValue)>,
)
    requires
        ms.len() > 0,
        forall|k: int| 0 <= k < ms.len() ==> #[trigger] wf(ms[k].1),
        matches_at(s, j, render_members(ms) + seq!['}']),
    ensures
        parse_members(s, j, acc) == Some(
            (JsonValue::Object(acc + ms), j + render_members(ms).len() + 1),
        ),
    decreases ms,
{
    let m0 = ms[0];
    let key = m0.0;
    let v = m0.1;
    let rest = ms.drop_first();
    let after = if ms.len() == 1 {
        seq!['}']
    } else {
        seq![','] + (render_members(rest) + seq!['}'])
    };
    assert(render_member(m0) =~= seq!['"'] + ((escape(key) + seq!['"']) + (seq![':'] + render(v))));
    if ms.len() == 1 {
        assert(render_members(ms) == render_member(m0));
    } else {
        assert(render_members(ms) == render_member(m0) + seq![','] + render_members(rest));
    }
    assert(render_members(ms) + seq!['}'] =~= seq!['"'] + ((escape(key) + seq!['"']) + (seq![':'] + (render(v) + after))));
    lemma_matches_split(s, j, seq!['"'], (escape(key) + seq!['"']) + (seq![':'] + (render(v) + after)));
    lemma_matches_split(s, j + 1, escape(key) + seq!['"'], seq![':'] + (render(v) + after));
    let e = j + 1 + escape(key).len() + 1;
    lemma_matches_split(s, e, seq![':'], render(v) + after);
    lemma_matches_split(s, e + 1, render(v), after);
    assert(s[j + 0] == seq!['"'][0]);
    assert(s[e + 0] == seq![':'][0]);
    lemma_parse_chars(s, j + 1, key, Seq::empty());
    assert(Seq::<char>::empty() + key =~= key);
    assert(wf(ms[0].1));
    lemma_first_char(v);
    assert(s[e + 1 + 0] == render(v)[0]);
    let e2 = e + 1 + render(v).len();
    assert(s[e2 + 0] == after[0]);
    lemma_parse_render(s, e + 1, v);
    if ms.len() == 1 {
        assert(acc.push((key, v)) =~= acc + ms);
    } else {
        let tail = render_members(rest);
        lemma_matches_split(s, e2, seq![','], tail + seq!['}']);
        lemma_render_members_first(rest);
        assert(s[e2 + 1 + 0] == (tail + seq!['}'])[0]);
        assert(skip_ws(s, e2) == e2);
        assert(skip_ws(s, e2 + 1) == e2 + 1);
        assert(forall|k: int| 0 <= k < rest.len() ==> #[trigger] rest[k] == ms[k + 1]);
        assert forall|k: int| 0 <= k < rest.len() implies #[trigger] wf(rest[k].1) by {
            assert(wf(ms[k + 1].1));
        }
        lemma_parse_members(s, e2 + 1, rest, acc.push((key, v)));
        assert(acc.push((key, v)) + rest =~= acc + ms);
    }
}

proof fn lemma_render_members_first(ms: Seq<(Seq<char>, JsonValue)>)
    requires
        ms.len() > 0,
    ensures
        render_members(ms).len() > 0,
        render_members(ms)[0] == '"',
{
    let m0 = ms[0];
    assert(render_member(m0) =~= seq!['"'] + (escape(m0.0) + seq!['"'] + seq![':'] + render(m0.1)));
    assert(render_member(m0)[0] == '"');
    if ms.len() > 1 {
        assert(render_members(ms) == render_member(m0) + seq![','] + render_members(ms.drop_first()));
        assert((render_member(m0) + seq![','] + render_members(ms.drop_first()))[0] == render_member(m0)[0]);
    }
}

/// Reading the rendering of a well-formed value gives the value back.
pub proof fn lemma_parse_json_render(w: JsonValue)
    requires
        wf(w),
    ensures
        parse_json(render(w)) == Some(w),
{
    let s = render(w);
    lemma_first_char(w);
    assert(matches_at(s, 0, render(w)));
    lemma_parse_render(s, 0, w);
}

// ---------------------------------------------------------------- rendering piece by piece

/// Escaping goes character by character.
pub proof fn lemma_escape_push(t: Seq<char>, c: char)
    ensures
        escape(t.push(c)) == escape(t) + escape_char(c),
    decreases t.len(),
{
    if t.len() == 0 {
        assert(t.push(c).drop_first() =~= Seq::<char>::empty());
        assert(escape(t.push(c).drop_first()) == Seq::<char>::empty());
        assert(t.push(c)[0] == c);
        assert(escape(t.push(c)) =~= escape(t) + escape_char(c));
    } else {
        lemma_escape_push(t.drop_first(), c);
        assert(t.push(c).drop_first() =~= t.drop_first().push(c));
        assert(t.push(c)[0] == t[0]);
        assert(escape(t.push(c)) == escape_char(t[0]) + escape(t.drop_first().push(c)));
        assert(escape(t) == escape_char(t[0]) + escape(t.drop_first()));
        assert(escape(t.push(c)) =~= escape(t) + escape_char(c));
    }
}

/// Rendering array items goes item by item, with commas between.
pub proof fn lemma_render_items_push(xs: Seq<JsonValue>, x: JsonValue)
    ensures
        render_items(xs.push(x)) == if xs.len() == 0 {
            render(x)
        } else {
            render_items(xs) + seq![','] + render(x)
        },
    decreases xs.len(),
{
    if xs.len() == 1 {
        assert(xs.push(x).drop_first() =~= seq![x]);
        assert(render_items(seq![x]) == render(seq![x][0]));
    } else if xs.len() > 1 {
        lemma_render_items_push(xs.drop_first(), x);
        assert(xs.push(x).drop_first() =~= xs.drop_first().push(x));
        assert(render_items(xs.push(x)) =~= render_items(xs) + seq![','] + render(x));
    }
}

/// Rendering object members goes member by member, with commas between.
pub proof fn lemma_render_members_push(ms: Seq<(Seq<char>, JsonValue)>, m: (Seq<char>, JsonValue))
    ensures
        render_members(ms.push(m)) == if ms.len() == 0 {
            render_member(m)
        } else {
            render_members(ms) + seq![','] + render_member(m)
        },
    decreases ms.len(),
{
    if ms.len() == 1 {
        assert(ms.push(m).drop_first() =~= seq![m]);
        assert(render_members(seq![m]) == render_member(seq![m][0]));
    } else if ms.len() > 1 {
        lemma_render_members_push(ms.drop_first(), m);
        assert(ms.push(m).drop_first() =~= ms.drop_first().push(m));
        assert(render_members(ms.push(m)) =~= render_members(ms) + seq![','] + render_member(m));
    }
}

// ---------------------------------------------------------------- what reading gives

proof fn lemma_wf_items_push(items: Seq<JsonValue>, x: JsonValue)
    requires
        wf_items(items),
        wf(x),
    ensures
        wf_items(items.push(x)),
{
    lemma_wf_items(items);
    lemma_wf_items(items.push(x));
    assert forall|k: int| 0 <= k < items.push(x).len() implies #[trigger] wf(items.push(x)[k]) by {
        if k < items.len() {
            assert(items.push(x)[k] == items[k]);
        }
    }
}

proof fn lemma_wf_members_push(ms: Seq<(Seq<char>, JsonValue)>, m: (Seq<char>, JsonValue))
    requires
        wf_members(ms),
        wf(m.1),
    ensures
        wf_members(ms.push(m)),
{
    lemma_wf_members(ms);
    lemma_wf_members(ms.push(m));
    assert forall|k: int| 0 <= k < ms.push(m).len() implies #[trigger] wf(ms.push(m)[k].1) by {
        if k < ms.len() {
            assert(ms.push(m)[k] == ms[k]);
        }
    }
}

proof fn lemma_parse_value_wf(s: Seq<char>, i: int)
    requires
        parse_value(s, i) is Some,
    ensures
        wf((parse_value(s, i)->0).0),
    decreases s.len() - i, 0nat,
{
    let c = s[i];
    if c == '[' {
        let j = skip_ws(s, i + 1);
        if !(j < s.len() && s[j] == ']') {
            lemma_parse_elements_wf(s, j, Seq::empty());
        }
    } else if c == '{' {
        let j = skip_ws(s, i + 1);
        if !(j < s.len() && s[j] == '}') {
            lemma_parse_members_wf(s, j, Seq::empty());
        }
    }
}

proof fn lemma_parse_elements_wf(s: Seq<char>, j: int, acc: Seq<JsonValue>)
    requires
        parse_elements(s, j, acc) is Some,
        wf_items(acc),
    ensures
        wf((parse_elements(s, j, acc)->0).0),
    decreases s.len() - j, 1nat,
{
    let (v, e) = parse_value(s, j)->0;
    lemma_parse_value_wf(s, j);
    lemma_wf_items_push(acc, v);
    let k = skip_ws(s, e);
    if k < s.len() && s[k] == ',' {
        lemma_parse_elements_wf(s, skip_ws(s, k + 1), acc.push(v));
    }
}

proof fn lemma_parse_members_wf(s: Seq<char>, j: int, acc: Seq<(Seq<char>, JsonValue)>)
    requires
        parse_members(s, j, acc) is Some,
        wf_members(acc),
    ensures
        wf((parse_members(s, j, acc)->0).0),
    decreases s.len() - j, 1nat,
{
    let (key, e) = parse_chars(s, j + 1, Seq::empty())->0;
    let k = skip_ws(s, e);
    let m = skip_ws(s, k + 1);
    let (v, e2) = parse_value(s, m)->0;
    lemma_parse_value_wf(s, m);
    lemma_wf_members_push(acc, (key, v));
    let n = skip_ws(s, e2);
    if n < s.len() && s[n] == ',' {
        lemma_parse_members_wf(s, skip_ws(s, n + 1), acc.push((key, v)));
    }
}

/// Every value read from JSON text is well formed, so its rendering reads
/// back to it.
pub proof fn lemma_parse_json_wf(s: Seq<char>)
    requires
        parse_json(s) is Some,
    ensures
        wf(parse_json(s)->0),
        parse_json(render(parse_json(s)->0)) == parse_json(s),
{
    lemma_parse_value_wf(s, skip_ws(s, 0));
    lemma_parse_json_render(parse_json(s)->0);
}

} // verus!
