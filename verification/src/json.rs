//! JSON text for the audit trail: string literals (through `serde_json`),
//! decimal integers, booleans, and flat objects whose members are written in
//! the order given.
use crate::text::{append_chars, chars_of, join, join_exec, string_from_chars, string_views};
use vstd::prelude::*;

verus! {

// ---------------------------------------------------------------------------
// String literals.
// ---------------------------------------------------------------------------

/// The lowercase hexadecimal digit for `n < 16`.
pub open spec fn hex_digit(n: u32) -> char {
    if n < 10 {
        (0x30 + n) as char
    } else {
        (0x61 + n - 10) as char
    }
}

/// How `serde_json` writes one character inside a string literal: `"` and `\`
/// and the control characters below U+0020 are escaped, every other character
/// is written as it is.
pub open spec fn json_escape_char(c: char) -> Seq<char> {
    let u = c as u32;
    if c == '"' {
        seq!['\\', '"']
    } else if c == '\\' {
        seq!['\\', '\\']
    } else if u == 0x08 {
        seq!['\\', 'b']
    } else if u == 0x09 {
        seq!['\\', 't']
    } else if u == 0x0A {
        seq!['\\', 'n']
    } else if u == 0x0C {
        seq!['\\', 'f']
    } else if u == 0x0D {
        seq!['\\', 'r']
    } else if u < 0x20 {
        seq!['\\', 'u', '0', '0', hex_digit(u / 16), hex_digit(u % 16)]
    } else {
        seq![c]
    }
}

/// The escaped body of a JSON string literal.
pub open spec fn json_escape(s: Seq<char>) -> Seq<char>
    decreases s.len(),
{
    if s.len() == 0 {
        seq![]
    } else {
        json_escape_char(s[0]) + json_escape(s.drop_first())
    }
}

/// The JSON string literal for `s`: the escaped text between double quotes.
pub open spec fn json_quote(s: Seq<char>) -> Seq<char> {
    seq!['"'] + json_escape(s) + seq!['"']
}

proof fn lemma_json_escape_plain(s: Seq<char>)
    requires
        forall|i: int|
            0 <= i < s.len() ==> #[trigger] s[i] != '"' && s[i] != '\\' && s[i] as u32 >= 0x20,
    ensures
        json_escape(s) == s,
    decreases s.len(),
{
    if s.len() > 0 {
        assert(forall|i: int| 0 <= i < s.drop_first().len() ==> s.drop_first()[i] == s[i + 1]);
        lemma_json_escape_plain(s.drop_first());
        assert(json_escape_char(s[0]) == seq![s[0]]);
        assert(json_escape(s) =~= s);
    } else {
        assert(json_escape(s) =~= s);
    }
}

/// Text with no `"`, no backslash and no control character is quoted as it
/// is, between two double quotes.
pub proof fn lemma_json_quote_plain(s: Seq<char>)
    requires
        forall|i: int|
            0 <= i < s.len() ==> #[trigger] s[i] != '"' && s[i] != '\\' && s[i] as u32 >= 0x20,
    ensures
        json_quote(s) == seq!['"'] + s + seq!['"'],
{
    lemma_json_escape_plain(s);
}

/// The JSON string literal for `s` (`serde_json::to_string` on a `str`).
#[verifier::external_body]
pub(crate) fn json_string(s: &str) -> (q: String)
    ensures
        q@ == json_quote(s@),
{
    serde_json::to_string(s).unwrap_or_default()
}

/// Whether every character of `s` is at or above U+0020, so that the text
/// holds no line break or other control character.
pub open spec fn printable(s: Seq<char>) -> bool {
    forall|i: int| 0 <= i < s.len() ==> (#[trigger] s[i]) as u32 >= 0x20
}

pub proof fn lemma_printable_concat(a: Seq<char>, b: Seq<char>)
    requires
        printable(a),
        printable(b),
    ensures
        printable(a + b),
{
    assert forall|i: int| 0 <= i < (a + b).len() implies (#[trigger] (a + b)[i]) as u32 >= 0x20 by {
        if i < a.len() {
            assert((a + b)[i] == a[i]);
        } else {
            assert((a + b)[i] == b[i - a.len()]);
        }
    }
}

proof fn lemma_json_escape_printable(s: Seq<char>)
    ensures
        printable(json_escape(s)),
    decreases s.len(),
{
    if s.len() > 0 {
        lemma_json_escape_printable(s.drop_first());
        let c = s[0];
        let u = c as u32;
        let e = json_escape_char(c);
        if u < 0x20 && c != '"' && c != '\\' && u != 0x08 && u != 0x09 && u != 0x0A && u != 0x0C
            && u != 0x0D {
            assert(u / 16 < 2);
            assert(u % 16 < 16);
        }
        assert(printable(e));
        lemma_printable_concat(e, json_escape(s.drop_first()));
    }
}

/// A JSON string literal never holds a control character, whatever it encodes;
/// in particular it never holds a line break.
pub proof fn lemma_json_quote_printable(s: Seq<char>)
    ensures
        printable(json_quote(s)),
{
    lemma_json_escape_printable(s);
    lemma_printable_concat(seq!['"'], json_escape(s));
    lemma_printable_concat(seq!['"'] + json_escape(s), seq!['"']);
}

// ---------------------------------------------------------------------------
// Numbers and booleans.
// ---------------------------------------------------------------------------

/// The decimal digit for `n < 10`.
pub open spec fn digit(n: nat) -> char {
    (0x30 + n) as char
}

/// The decimal representation of `n`, without leading zeros.
pub open spec fn decimal(n: nat) -> Seq<char>
    decreases n,
{
    if n < 10 {
        seq![digit(n)]
    } else {
        decimal(n / 10).push(digit(n % 10))
    }
}

fn digit_exec(n: u64) -> (c: char)
    requires
        n < 10,
    ensures
        c == digit(n as nat),
{
    match n {
        0 => '0',
        1 => '1',
        2 => '2',
        3 => '3',
        4 => '4',
        5 => '5',
        6 => '6',
        7 => '7',
        8 => '8',
        _ => '9',
    }
}

/// Appends the decimal representation of `n` to `out`.
pub fn push_decimal(out: &mut Vec<char>, n: u64)
    ensures
        final(out)@ == old(out)@ + decimal(n as nat),
    decreases n,
{
    if n >= 10 {
        push_decimal(out, n / 10);
    }
    out.push(digit_exec(n % 10));
    assert(old(out)@ + decimal(n as nat) =~= final(out)@) by {
        if n >= 10 {
            assert(decimal(n as nat) == decimal((n / 10) as nat).push(digit((n % 10) as nat)));
        }
    }
}

/// The decimal representation of `n` (`u64::to_string`).
pub fn decimal_string(n: u64) -> (s: String)
    ensures
        s@ == decimal(n as nat),
{
    let mut v: Vec<char> = Vec::new();
    push_decimal(&mut v, n);
    assert(v@ =~= decimal(n as nat));
    string_from_chars(&v)
}

pub open spec fn json_bool(b: bool) -> Seq<char> {
    if b {
        seq!['t', 'r', 'u', 'e']
    } else {
        seq!['f', 'a', 'l', 's', 'e']
    }
}

pub fn json_bool_string(b: bool) -> (s: String)
    ensures
        s@ == json_bool(b),
{
    let mut v: Vec<char> = Vec::new();
    if b {
        v.push('t');
        v.push('r');
        v.push('u');
        v.push('e');
    } else {
        v.push('f');
        v.push('a');
        v.push('l');
        v.push('s');
        v.push('e');
    }
    assert(v@ =~= json_bool(b));
    string_from_chars(&v)
}

// ---------------------------------------------------------------------------
// Objects.
// ---------------------------------------------------------------------------

/// One object member: the quoted key, a colon, and the rendered value.
pub open spec fn json_member(key: Seq<char>, value: Seq<char>) -> Seq<char> {
    json_quote(key) + seq![':'] + value
}

pub open spec fn json_members(fields: Seq<(Seq<char>, Seq<char>)>) -> Seq<Seq<char>> {
    fields.map_values(|f: (Seq<char>, Seq<char>)| json_member(f.0, f.1))
}

/// A compact JSON object with the given members, in the given order.
pub open spec fn json_object(fields: Seq<(Seq<char>, Seq<char>)>) -> Seq<char> {
    seq!['{'] + join(json_members(fields), seq![',']) + seq!['}']
}

/// The views of `(key, rendered value)` pairs.
pub open spec fn field_views(fields: Seq<(String, String)>) -> Seq<(Seq<char>, Seq<char>)> {
    fields.map_values(|f: (String, String)| (f.0@, f.1@))
}

/// Renders a compact JSON object from `(key, rendered value)` pairs, keys
/// written as JSON string literals, members in the given order.
pub fn render_object(fields: &Vec<(String, String)>) -> (s: String)
    ensures
        s@ == json_object(field_views(fields@)),
{
    let ghost fv = field_views(fields@);
    let mut members: Vec<String> = Vec::new();
    let mut i: usize = 0;
    while i < fields.len()
        invariant
            i <= fields.len(),
            fv == field_views(fields@),
            members@.len() == i,
            forall|j: int| 0 <= j < i ==> #[trigger] members@[j]@ == json_member(fv[j].0, fv[j].1),
        decreases fields.len() - i,
    {
        let key = json_string(fields[i].0.as_str());
        let mut m = chars_of(key.as_str());
        m.push(':');
        let v = chars_of(fields[i].1.as_str());
        append_chars(&mut m, &v);
        assert(m@ =~= json_member(fv[i as int].0, fv[i as int].1));
        members.push(string_from_chars(&m));
        i += 1;
    }
    assert(string_views(members@) =~= json_members(fv));
    let comma: Vec<char> = vec![','];
    assert(comma@ =~= seq![',']);
    let comma_s = string_from_chars(&comma);
    let body = join_exec(&members, comma_s.as_str());
    let mut out: Vec<char> = Vec::new();
    out.push('{');
    let bc = chars_of(body.as_str());
    append_chars(&mut out, &bc);
    out.push('}');
    assert(out@ =~= json_object(fv));
    string_from_chars(&out)
}


/// Decimal digits are printable.
pub proof fn lemma_decimal_printable(n: nat)
    ensures
        printable(decimal(n)),
    decreases n,
{
    if n >= 10 {
        lemma_decimal_printable(n / 10);
        lemma_printable_concat(decimal(n / 10), seq![digit(n % 10)]);
        assert(decimal(n / 10).push(digit(n % 10)) =~= decimal(n / 10) + seq![digit(n % 10)]);
    }
}

/// The number a string of decimal digits stands for, most significant digit
/// first.
pub open spec fn digits_value(s: Seq<char>) -> nat
    decreases s.len(),
{
    if s.len() == 0 {
        0
    } else {
        digits_value(s.drop_last()) * 10 + (s.last() as u32 - 0x30) as nat
    }
}

/// The decimal text of `n` is a non-empty run of ASCII digits, with no
/// leading zero unless `n` is zero, that reads back as `n`.
pub proof fn lemma_decimal_reads_back(n: nat)
    ensures
        decimal(n).len() > 0,
        forall|i: int| 0 <= i < decimal(n).len() ==> 0x30 <= #[trigger] decimal(n)[i] as u32 <= 0x39,
        n > 0 ==> decimal(n)[0] != '0',
        digits_value(decimal(n)) == n,
    decreases n,
{
    if n >= 10 {
        lemma_decimal_reads_back(n / 10);
        let d = decimal(n / 10);
        assert(decimal(n) == d.push(digit(n % 10)));
        assert(d.push(digit(n % 10)).drop_last() =~= d);
        assert(d.push(digit(n % 10))[0] == d[0]);
        let c = digit(n % 10);
        assert(c as u32 == 0x30 + n % 10);
        assert(digits_value(d.push(c)) == digits_value(d) * 10 + (c as u32 - 0x30) as nat);
        assert((n / 10) * 10 + n % 10 == n) by (nonlinear_arith);
        assert(digits_value(d) * 10 == (n / 10) * 10);
        assert((c as u32 - 0x30) as nat == n % 10);
        assert(digits_value(decimal(n)) == n);
    } else {
        assert(seq![digit(n)].drop_last() =~= Seq::<char>::empty());
        assert(digit(n) as u32 == 0x30 + n);
        assert(digits_value(Seq::<char>::empty()) == 0);
        assert(seq![digit(n)].last() == digit(n));
        assert(digits_value(seq![digit(n)]) == n);
    }
}

proof fn lemma_join_printable(parts: Seq<Seq<char>>, sep: Seq<char>)
    requires
        printable(sep),
        forall|i: int| 0 <= i < parts.len() ==> printable(#[trigger] parts[i]),
    ensures
        printable(join(parts, sep)),
    decreases parts.len(),
{
    if parts.len() > 1 {
        lemma_join_printable(parts.drop_last(), sep);
        lemma_printable_concat(join(parts.drop_last(), sep), sep);
        lemma_printable_concat(join(parts.drop_last(), sep) + sep, parts.last());
    }
}

/// An object whose values are printable is printable: keys are string
/// literals, and the braces, colons and commas are printable.
pub proof fn lemma_json_object_printable(fields: Seq<(Seq<char>, Seq<char>)>)
    requires
        forall|i: int| 0 <= i < fields.len() ==> printable(#[trigger] fields[i].1),
    ensures
        printable(json_object(fields)),
{
    let ms = json_members(fields);
    assert forall|i: int| 0 <= i < ms.len() implies printable(#[trigger] ms[i]) by {
        lemma_json_quote_printable(fields[i].0);
        lemma_printable_concat(json_quote(fields[i].0), seq![':']);
        lemma_printable_concat(json_quote(fields[i].0) + seq![':'], fields[i].1);
    }
    lemma_join_printable(ms, seq![',']);
    lemma_printable_concat(seq!['{'], join(ms, seq![',']));
    lemma_printable_concat(seq!['{'] + join(ms, seq![',']), seq!['}']);
}


/// `a` sorts before `b` at their first differing character (character codes
/// compared, which is the byte order of their UTF-8 encodings).
pub open spec fn key_before(a: Seq<char>, b: Seq<char>) -> bool {
    exists|i: int|
        0 <= i < a.len() && i < b.len() && a.take(i) == b.take(i) && ((#[trigger] a[i]) as u32)
            < (b[i] as u32)
}

/// The keys of `fields` are in strictly ascending order, the order in which a
/// `serde_json` map writes its members.
pub open spec fn keys_ascending(fields: Seq<(Seq<char>, Seq<char>)>) -> bool {
    forall|i: int| 0 <= i < fields.len() - 1 ==> #[trigger] key_before(fields[i].0, fields[i + 1].0)
}

} // verus!
