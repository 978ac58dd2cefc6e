//! The wire form of a log record: one serialized structured record per line.
//!
//! A record is written with its fields in stored (key-sorted) order, without
//! spaces, with string escapes for the quote, the backslash and control
//! characters; the decoder accepts the usual liberal form (any field order,
//! whitespace between tokens). A number that is not an integer with a 64-bit
//! magnitude is carried through as its exact wire text.

use vstd::prelude::*;

use crate::json::JVal;
use crate::json::Record;
use crate::json::RecordField;

verus! {

/// Relies on str::chars, which yields the characters of the string in order.
#[verifier::external_body]
pub(crate) fn str_to_chars(s: &str) -> (r: Vec<char>)
    ensures
        r@ == s@,
{
    s.chars().collect()
}

/// Relies on String's FromIterator<char> impl, which concatenates the
/// characters in order.
#[verifier::external_body]
pub(crate) fn chars_to_string(v: &Vec<char>) -> (r: String)
    ensures
        r@ == v@,
{
    v.iter().collect()
}

/// The character for one decimal digit.
pub open spec fn digit_char(d: nat) -> char {
    if d == 0 {
        '0'
    } else if d == 1 {
        '1'
    } else if d == 2 {
        '2'
    } else if d == 3 {
        '3'
    } else if d == 4 {
        '4'
    } else if d == 5 {
        '5'
    } else if d == 6 {
        '6'
    } else if d == 7 {
        '7'
    } else if d == 8 {
        '8'
    } else {
        '9'
    }
}

/// Decimal digits of `n`, most significant first, no leading zeros.
pub open spec fn dec_digits(n: nat) -> Seq<char>
    decreases n,
{
    if n < 10 {
        seq![digit_char(n)]
    } else {
        dec_digits(n / 10) + seq![digit_char(n % 10)]
    }
}

/// The wire form of one string character.
pub open spec fn esc_char(c: char) -> Seq<char> {
    if c == '"' {
        seq!['\\', '"']
    } else if c == '\\' {
        seq!['\\', '\\']
    } else if c == '\n' {
        seq!['\\', 'n']
    } else if c == '\r' {
        seq!['\\', 'r']
    } else if c == '\t' {
        seq!['\\', 't']
    } else if (c as u32) < 32 {
        seq!['\\', 'u', '0', '0', hex_char((c as nat) / 16), hex_char((c as nat) % 16)]
    } else {
        seq![c]
    }
}

/// The character for one lowercase hexadecimal digit.
pub open spec fn hex_char(d: nat) -> char {
    if d < 10 {
        digit_char(d)
    } else if d == 10 {
        'a'
    } else if d == 11 {
        'b'
    } else if d == 12 {
        'c'
    } else if d == 13 {
        'd'
    } else if d == 14 {
        'e'
    } else {
        'f'
    }
}

/// The wire form of a string's characters.
pub open spec fn esc_str(s: Seq<char>) -> Seq<char>
    decreases s.len(),
{
    if s.len() == 0 {
        seq![]
    } else {
        esc_char(s[0]) + esc_str(s.drop_first())
    }
}

/// The wire form of a value.
pub open spec fn ser_val(v: JVal) -> Seq<char>
    decreases v,
{
    match v {
        JVal::Null => seq!['n', 'u', 'l', 'l'],
        JVal::Bool(b) => if b {
            seq!['t', 'r', 'u', 'e']
        } else {
            seq!['f', 'a', 'l', 's', 'e']
        },
        JVal::Num { neg, mag } => if neg && mag > 0 {
            seq!['-'] + dec_digits(mag as nat)
        } else {
            dec_digits(mag as nat)
        },
        JVal::NumText(t) => t@,
        JVal::Str(s) => seq!['"'] + esc_str(s@) + seq!['"'],
        JVal::Arr(vs) => seq!['['] + ser_elems(vs@) + seq![']'],
        JVal::Obj(r) => seq!['{'] + ser_fields(r.fields@) + seq!['}'],
    }
}

/// The wire form of an array's elements, comma-separated.
pub open spec fn ser_elems(vs: Seq<JVal>) -> Seq<char>
    decreases vs,
{
    if vs.len() == 0 {
        seq![]
    } else if vs.len() == 1 {
        ser_val(vs[0])
    } else {
        ser_val(vs[0]) + seq![','] + ser_elems(vs.drop_first())
    }
}

/// The wire form of a record's fields, comma-separated, in stored order.
pub open spec fn ser_fields(fs: Seq<RecordField>) -> Seq<char>
    decreases fs,
{
    if fs.len() == 0 {
        seq![]
    } else if fs.len() == 1 {
        ser_field(fs[0])
    } else {
        ser_field(fs[0]) + seq![','] + ser_fields(fs.drop_first())
    }
}

/// The wire form of one field: quoted name, colon, value.
pub open spec fn ser_field(f: RecordField) -> Seq<char>
    decreases f,
{
    seq!['"'] + esc_str(f.key@) + seq!['"', ':'] + ser_val(f.val)
}

/// The wire form of a whole record.
pub open spec fn ser_record(r: Record) -> Seq<char> {
    seq!['{'] + ser_fields(r.fields@) + seq!['}']
}

pub proof fn lemma_esc_str_snoc(s: Seq<char>)
    requires
        s.len() >= 1,
    ensures
        esc_str(s) == esc_str(s.drop_last()) + esc_char(s.last()),
    decreases s.len(),
{
    if s.len() == 1 {
        assert(s.drop_first() =~= Seq::<char>::empty());
        assert(s.drop_last() =~= Seq::<char>::empty());
        assert(esc_str(s.drop_last()) + esc_char(s.last()) =~= esc_char(s[0])
            + esc_str(s.drop_first()));
    } else {
        lemma_esc_str_snoc(s.drop_first());
        assert(s.drop_first().drop_last() =~= s.drop_last().drop_first());
        assert(s.drop_first().last() == s.last());
        assert(esc_char(s[0]) + (esc_str(s.drop_last().drop_first()) + esc_char(s.last()))
            =~= (esc_char(s.drop_last()[0]) + esc_str(s.drop_last().drop_first()))
            + esc_char(s.last()));
    }
}

pub proof fn lemma_ser_elems_snoc(s: Seq<JVal>)
    requires
        s.len() >= 2,
    ensures
        ser_elems(s) == ser_elems(s.drop_last()) + seq![','] + ser_val(s.last()),
    decreases s.len(),
{
    reveal_with_fuel(ser_elems, 3);
    if s.len() == 2 {
        assert(s.drop_first().len() == 1);
        assert(s.drop_first()[0] == s.last());
        assert(s.drop_last().len() == 1);
        assert(s.drop_last()[0] == s[0]);
        assert((ser_val(s[0]) + seq![',']) + ser_val(s.last()) =~= ser_val(s[0]) + seq![',']
            + ser_val(s.last()));
    } else {
        lemma_ser_elems_snoc(s.drop_first());
        assert(s.drop_first().drop_last() =~= s.drop_last().drop_first());
        assert(s.drop_first().last() == s.last());
        assert(s.drop_last()[0] == s[0]);
        assert(s.drop_last().len() >= 2);
        assert(ser_val(s[0]) + seq![','] + ((ser_elems(s.drop_last().drop_first()) + seq![','])
            + ser_val(s.last())) =~= ((ser_val(s[0]) + seq![',']
            + ser_elems(s.drop_last().drop_first())) + seq![',']) + ser_val(s.last()));
    }
}

pub proof fn lemma_ser_fields_snoc(s: Seq<RecordField>)
    requires
        s.len() >= 2,
    ensures
        ser_fields(s) == ser_fields(s.drop_last()) + seq![','] + ser_field(s.last()),
    decreases s.len(),
{
    reveal_with_fuel(ser_fields, 3);
    if s.len() == 2 {
        assert(s.drop_first().len() == 1);
        assert(s.drop_first()[0] == s.last());
        assert(s.drop_last().len() == 1);
        assert(s.drop_last()[0] == s[0]);
        assert((ser_field(s[0]) + seq![',']) + ser_field(s.last()) =~= ser_field(s[0]) + seq![',']
            + ser_field(s.last()));
    } else {
        lemma_ser_fields_snoc(s.drop_first());
        assert(s.drop_first().drop_last() =~= s.drop_last().drop_first());
        assert(s.drop_first().last() == s.last());
        assert(s.drop_last()[0] == s[0]);
        assert(s.drop_last().len() >= 2);
        assert(ser_field(s[0]) + seq![','] + ((ser_fields(s.drop_last().drop_first()) + seq![','])
            + ser_field(s.last())) =~= ((ser_field(s[0]) + seq![',']
            + ser_fields(s.drop_last().drop_first())) + seq![',']) + ser_field(s.last()));
    }
}

/// One decimal digit as a character.
fn digit_to_char(d: u64) -> (c: char)
    requires
        d < 10,
    ensures
        c == digit_char(d as nat),
{
    match d {
        0 => '0',
        1 => '1',
        2 => '2',
        3 => '3',
        4 => '4',
        5 => '5',
        6 => '6',
        7 => '7',
        8 => '8',
        _ => '9',
    }
}

/// One lowercase hexadecimal digit as a character.
fn hex_to_char(d: u64) -> (c: char)
    requires
        d < 16,
    ensures
        c == hex_char(d as nat),
{
    if d < 10 {
        digit_to_char(d)
    } else {
        match d {
            10 => 'a',
            11 => 'b',
            12 => 'c',
            13 => 'd',
            14 => 'e',
            _ => 'f',
        }
    }
}

/// Appends the decimal digits of `n` to `out`.
pub fn write_u64(n: u64, out: &mut Vec<char>)
    ensures
        final(out)@ == old(out)@ + dec_digits(n as nat),
    decreases n,
{
    if n < 10 {
        out.push(digit_to_char(n));
        proof {
            assert(out@ =~= old(out)@ + dec_digits(n as nat));
        }
    } else {
        write_u64(n / 10, out);
        out.push(digit_to_char(n % 10));
        proof {
            assert(out@ =~= old(out)@ + dec_digits(n as nat));
        }
    }
}

/// Appends the characters of `t` to `out`.
fn write_chars(t: &Vec<char>, out: &mut Vec<char>)
    ensures
        final(out)@ == old(out)@ + t@,
{
    let mut i: usize = 0;
    while i < t.len()
        invariant
            i <= t@.len(),
            out@ == old(out)@ + t@.take(i as int),
        decreases t@.len() - i,
    {
        out.push(t[i]);
        proof {
            assert(out@ =~= old(out)@ + t@.take(i + 1));
        }
        i = i + 1;
    }
    proof {
        assert(old(out)@ + t@.take(t@.len() as int) =~= old(out)@ + t@);
    }
}

/// Appends the wire form of one string character to `out`.
fn write_escaped_char(c: char, out: &mut Vec<char>)
    ensures
        final(out)@ == old(out)@ + esc_char(c),
{
    if c == '"' {
        out.push('\\');
        out.push('"');
    } else if c == '\\' {
        out.push('\\');
        out.push('\\');
    } else if c == '\n' {
        out.push('\\');
        out.push('n');
    } else if c == '\r' {
        out.push('\\');
        out.push('r');
    } else if c == '\t' {
        out.push('\\');
        out.push('t');
    } else if (c as u32) < 32 {
        out.push('\\');
        out.push('u');
        out.push('0');
        out.push('0');
        let n = c as u32;
        out.push(hex_to_char((n / 16) as u64));
        out.push(hex_to_char((n % 16) as u64));
    } else {
        out.push(c);
    }
    proof {
        assert(out@ =~= old(out)@ + esc_char(c));
    }
}

/// Appends the wire form of a string (quotes and escapes) to `out`.
fn write_string(s: &Vec<char>, out: &mut Vec<char>)
    ensures
        final(out)@ == old(out)@ + seq!['"'] + esc_str(s@) + seq!['"'],
{
    out.push('"');
    let mut i: usize = 0;
    while i < s.len()
        invariant
            i <= s@.len(),
            out@ == old(out)@ + seq!['"'] + esc_str(s@.take(i as int)),
        decreases s@.len() - i,
    {
        write_escaped_char(s[i], out);
        proof {
            let t = s@.take(i + 1);
            assert(t.drop_last() =~= s@.take(i as int));
            assert(t.last() == s@[i as int]);
            lemma_esc_str_snoc(t);
        }
        i = i + 1;
    }
    proof {
        assert(s@.take(s@.len() as int) =~= s@);
    }
    out.push('"');
}

/// Appends the wire form of a value to `out`.
pub fn write_val(v: &JVal, out: &mut Vec<char>)
    ensures
        final(out)@ == old(out)@ + ser_val(*v),
    decreases v,
{
    match v {
        JVal::Null => {
            out.push('n');
            out.push('u');
            out.push('l');
            out.push('l');
            proof {
                assert(out@ =~= old(out)@ + ser_val(*v));
            }
        },
        JVal::Bool(b) => {
            if *b {
                out.push('t');
                out.push('r');
                out.push('u');
                out.push('e');
            } else {
                out.push('f');
                out.push('a');
                out.push('l');
                out.push('s');
                out.push('e');
            }
            proof {
                assert(out@ =~= old(out)@ + ser_val(*v));
            }
        },
        JVal::Num { neg, mag } => {
            if *neg && *mag > 0 {
                out.push('-');
            }
            write_u64(*mag, out);
            proof {
                assert(out@ =~= old(out)@ + ser_val(*v));
            }
        },
        JVal::NumText(t) => {
            write_chars(t, out);
            proof {
                assert(out@ =~= old(out)@ + ser_val(*v));
            }
        },
        JVal::Str(s) => {
            write_string(s, out);
            proof {
                assert(out@ =~= old(out)@ + ser_val(*v));
            }
        },
        JVal::Arr(vs) => {
            out.push('[');
            let mut i: usize = 0;
            while i < vs.len()
                invariant
                    *v == JVal::Arr(*vs),
                    i <= vs@.len(),
                    out@ == old(out)@ + seq!['['] + ser_elems(vs@.take(i as int)),
                decreases vs@.len() - i,
            {
                if i > 0 {
                    out.push(',');
                }
                proof {
                    broadcast use vstd::std_specs::vec::axiom_vec_index_decreases;
                    assert(decreases_to!(*v => v->Arr_0));
                    assert(decreases_to!(*vs => vs[i as int]));
                }
                write_val(&vs[i], out);
                proof {
                    let t = vs@.take(i + 1);
                    assert(t.drop_last() =~= vs@.take(i as int));
                    assert(t.last() == vs@[i as int]);
                    if i == 0 {
                        assert(t.len() == 1 && t[0] == vs@[0]);
                        assert(out@ =~= old(out)@ + seq!['['] + ser_elems(t));
                    } else {
                        lemma_ser_elems_snoc(t);
                        assert(out@ =~= old(out)@ + seq!['['] + ser_elems(t));
                    }
                }
                i = i + 1;
            }
            proof {
                assert(vs@.take(vs@.len() as int) =~= vs@);
            }
            out.push(']');
            proof {
                assert(out@ =~= old(out)@ + ser_val(*v));
            }
        },
        JVal::Obj(r) => {
            write_record(r, out);
            proof {
                assert(out@ =~= old(out)@ + ser_val(*v));
            }
        },
    }
}

/// Appends the wire form of a record to `out`.
pub fn write_record(r: &Record, out: &mut Vec<char>)
    ensures
        final(out)@ == old(out)@ + ser_record(*r),
    decreases r,
{
    out.push('{');
    let mut i: usize = 0;
    while i < r.fields.len()
        invariant
            i <= r.fields@.len(),
            out@ == old(out)@ + seq!['{'] + ser_fields(r.fields@.take(i as int)),
        decreases r.fields@.len() - i,
    {
        if i > 0 {
            out.push(',');
        }
        write_string(&r.fields[i].key, out);
        out.push(':');
        write_val(&r.fields[i].val, out);
        proof {
            let t = r.fields@.take(i + 1);
            assert(t.drop_last() =~= r.fields@.take(i as int));
            assert(t.last() == r.fields@[i as int]);
            assert(out@ =~= old(out)@ + seq!['{'] + ser_fields(r.fields@.take(i as int))
                + (if i > 0 { seq![','] } else { seq![] }) + ser_field(r.fields@[i as int]));
            if i == 0 {
                assert(t.len() == 1 && t[0] == r.fields@[0]);
                assert(out@ =~= old(out)@ + seq!['{'] + ser_fields(t));
            } else {
                lemma_ser_fields_snoc(t);
                assert(out@ =~= old(out)@ + seq!['{'] + ser_fields(t));
            }
        }
        i = i + 1;
    }
    proof {
        assert(r.fields@.take(r.fields@.len() as int) =~= r.fields@);
    }
    out.push('}');
    proof {
        assert(out@ =~= old(out)@ + ser_record(*r));
    }
}

/// The wire text of a record: its fields in stored order, without spaces.
pub fn record_to_string(r: &Record) -> (s: String)
    ensures
        s@ == ser_record(*r),
{
    let mut out: Vec<char> = Vec::new();
    write_record(r, &mut out);
    proof {
        assert(out@ =~= ser_record(*r));
    }
    chars_to_string(&out)
}

/// Why a line could not be decoded into a record.
#[derive(Clone, Copy, Debug, PartialEq, Eq, Structural)]
pub enum DecodeError {
    /// The line is not well-formed structured data.
    Syntax,
    /// The line is well-formed but its top-level value is not an object.
    NotAnObject,
}

/// The position of the first non-whitespace character at or after `i`.
fn skip_ws(s: &Vec<char>, i: usize) -> (j: usize)
    requires
        i <= s@.len(),
    ensures
        i <= j <= s@.len(),
{
    let mut p: usize = i;
    loop
        invariant
            i <= p <= s@.len(),
        decreases s@.len() - p,
    {
        if p >= s.len() {
            return p;
        }
        let c = s[p];
        if !(c == ' ' || c == '\t' || c == '\n' || c == '\r') {
            return p;
        }
        p = p + 1;
    }
}

/// The value of one hexadecimal digit character, if it is one.
fn hex_digit_val(c: char) -> (r: Option<u32>)
    ensures
        r matches Some(v) ==> v < 16,
{
    let n = c as u32;
    if 48 <= n && n <= 57 {
        Some(n - 48)
    } else if 97 <= n && n <= 102 {
        Some(n - 87)
    } else if 65 <= n && n <= 70 {
        Some(n - 55)
    } else {
        None
    }
}

/// Relies on char::from_u32, which is Some for every code point outside the
/// surrogate range.
#[verifier::external_body]
fn char_from_code(n: u32) -> (r: char)
    requires
        n < 0xD800 || (0xE000 <= n && n <= 0x10FFFF),
    ensures
        r as u32 == n,
{
    char::from_u32(n).unwrap_or(' ')
}

/// Decodes a quoted string starting at the opening quote at `i`; returns the
/// characters and the position after the closing quote.
fn parse_string(s: &Vec<char>, i: usize) -> (r: Result<(Vec<char>, usize), DecodeError>)
    ensures
        r matches Ok(t) ==> i < t.1 <= s@.len(),
{
    if i >= s.len() || s[i] != '"' {
        return Err(DecodeError::Syntax);
    }
    let mut out: Vec<char> = Vec::new();
    let mut p: usize = i + 1;
    loop
        invariant
            i < p <= s@.len(),
        decreases s@.len() - p,
    {
        if p >= s.len() {
            return Err(DecodeError::Syntax);
        }
        let c = s[p];
        if c == '"' {
            return Ok((out, p + 1));
        }
        if c == '\\' {
            if s.len() - p < 2 {
                return Err(DecodeError::Syntax);
            }
            let e = s[p + 1];
            if e == '"' {
                out.push('"');
                p = p + 2;
            } else if e == '\\' {
                out.push('\\');
                p = p + 2;
            } else if e == '/' {
                out.push('/');
                p = p + 2;
            } else if e == 'n' {
                out.push('\n');
                p = p + 2;
            } else if e == 'r' {
                out.push('\r');
                p = p + 2;
            } else if e == 't' {
                out.push('\t');
                p = p + 2;
            } else if e == 'b' {
                out.push('\u{0008}');
                p = p + 2;
            } else if e == 'f' {
                out.push('\u{000C}');
                p = p + 2;
            } else if e == 'u' {
                if s.len() - p < 6 {
                    return Err(DecodeError::Syntax);
                }
                let h0 = hex_digit_val(s[p + 2]);
                let h1 = hex_digit_val(s[p + 3]);
                let h2 = hex_digit_val(s[p + 4]);
                let h3 = hex_digit_val(s[p + 5]);
                match (h0, h1, h2, h3) {
                    (Some(a), Some(b), Some(c2), Some(d)) => {
                        let code: u32 = a * 4096 + b * 256 + c2 * 16 + d;
                        if 0xD800 <= code && code < 0xE000 {
                            // a lone surrogate escape is not a character
                            return Err(DecodeError::Syntax);
                        }
                        out.push(char_from_code(code));
                        p = p + 6;
                    },
                    _ => {
                        return Err(DecodeError::Syntax);
                    },
                }
            } else {
                return Err(DecodeError::Syntax);
            }
        } else if (c as u32) < 32 {
            return Err(DecodeError::Syntax);
        } else {
            out.push(c);
            p = p + 1;
        }
    }
}

/// Decodes a number starting at `i`: an integer with a 64-bit magnitude
/// becomes an integer value; any other well-formed number (fractional, with
/// an exponent, or larger) keeps its exact wire text.
fn parse_number(s: &Vec<char>, i: usize) -> (r: Result<(JVal, usize), DecodeError>)
    ensures
        r matches Ok(t) ==> i < t.1 <= s@.len() && (t.0 is Num || t.0 is NumText),
{
    let mut p: usize = i;
    if p >= s.len() {
        return Err(DecodeError::Syntax);
    }
    let neg = s[p] == '-';
    if neg {
        p = p + 1;
    }
    if p >= s.len() {
        return Err(DecodeError::Syntax);
    }
    let first = s[p] as u32;
    if !(48 <= first && first <= 57) {
        return Err(DecodeError::Syntax);
    }
    let int_start = p;
    p = p + 1;
    if first == 48 {
        // a leading zero stands alone in the integer part
        if p < s.len() {
            let n = s[p] as u32;
            if 48 <= n && n <= 57 {
                return Err(DecodeError::Syntax);
            }
        }
    } else {
        loop
            invariant
                i < p <= s@.len(),
            decreases s@.len() - p,
        {
            if p >= s.len() {
                break;
            }
            let n = s[p] as u32;
            if !(48 <= n && n <= 57) {
                break;
            }
            p = p + 1;
        }
    }
    let int_end = p;
    let mut plain = true;
    if p < s.len() && s[p] == '.' {
        plain = false;
        p = p + 1;
        if p >= s.len() {
            return Err(DecodeError::Syntax);
        }
        let n = s[p] as u32;
        if !(48 <= n && n <= 57) {
            return Err(DecodeError::Syntax);
        }
        loop
            invariant
                i < p <= s@.len(),
            decreases s@.len() - p,
        {
            if p >= s.len() {
                break;
            }
            let n2 = s[p] as u32;
            if !(48 <= n2 && n2 <= 57) {
                break;
            }
            p = p + 1;
        }
    }
    if p < s.len() && (s[p] == 'e' || s[p] == 'E') {
        plain = false;
        p = p + 1;
        if p < s.len() && (s[p] == '+' || s[p] == '-') {
            p = p + 1;
        }
        if p >= s.len() {
            return Err(DecodeError::Syntax);
        }
        let n = s[p] as u32;
        if !(48 <= n && n <= 57) {
            return Err(DecodeError::Syntax);
        }
        loop
            invariant
                i < p <= s@.len(),
            decreases s@.len() - p,
        {
            if p >= s.len() {
                break;
            }
            let n2 = s[p] as u32;
            if !(48 <= n2 && n2 <= 57) {
                break;
            }
            p = p + 1;
        }
    }
    if plain {
        // read the integer value, if it fits 64 bits
        let mut mag: u64 = 0;
        let mut fits = true;
        let mut k = int_start;
        while k < int_end
            invariant
                int_start <= k <= int_end <= s@.len(),
            decreases int_end - k,
        {
            let n = s[k] as u32;
            let d: u64 = if 48 <= n && n <= 57 {
                (n - 48) as u64
            } else {
                0
            };
            let grown = match mag.checked_mul(10) {
                Some(m) => m.checked_add(d),
                None => None,
            };
            match grown {
                Some(m) => {
                    mag = m;
                },
                None => {
                    fits = false;
                },
            }
            k = k + 1;
        }
        if fits {
            return Ok((JVal::Num { neg, mag }, p));
        }
    }
    let mut t: Vec<char> = Vec::new();
    let mut k = i;
    while k < p
        invariant
            i <= k <= p <= s@.len(),
        decreases p - k,
    {
        t.push(s[k]);
        k = k + 1;
    }
    Ok((JVal::NumText(t), p))
}

/// Decodes one value starting at or after `i`, skipping leading whitespace;
/// returns the value and the position after it.
pub fn parse_value(s: &Vec<char>, i: usize) -> (r: Result<(JVal, usize), DecodeError>)
    requires
        i <= s@.len(),
    ensures
        r matches Ok(t) ==> i < t.1 <= s@.len() && (t.0 is Obj ==> t.0->Obj_0.wf()),
    decreases s@.len() - i,
{
    let start = skip_ws(s, i);
    if start >= s.len() {
        return Err(DecodeError::Syntax);
    }
    let c = s[start];
    if c == 'n' {
        if s.len() - start >= 4 && s[start + 1] == 'u' && s[start + 2] == 'l' && s[start + 3]
            == 'l' {
            Ok((JVal::Null, start + 4))
        } else {
            Err(DecodeError::Syntax)
        }
    } else if c == 't' {
        if s.len() - start >= 4 && s[start + 1] == 'r' && s[start + 2] == 'u' && s[start + 3]
            == 'e' {
            Ok((JVal::Bool(true), start + 4))
        } else {
            Err(DecodeError::Syntax)
        }
    } else if c == 'f' {
        if s.len() - start >= 5 && s[start + 1] == 'a' && s[start + 2] == 'l' && s[start + 3]
            == 's' && s[start + 4] == 'e' {
            Ok((JVal::Bool(false), start + 5))
        } else {
            Err(DecodeError::Syntax)
        }
    } else if c == '"' {
        match parse_string(s, start) {
            Ok((cs, j)) => Ok((JVal::Str(cs), j)),
            Err(e) => Err(e),
        }
    } else if c == '-' || (48 <= (c as u32) && (c as u32) <= 57) {
        parse_number(s, start)
    } else if c == '[' {
        let mut elems: Vec<JVal> = Vec::new();
        let mut p: usize = skip_ws(s, start + 1);
        if p < s.len() && s[p] == ']' {
            return Ok((JVal::Arr(elems), p + 1));
        }
        loop
            invariant
                i < p <= s@.len(),
            decreases s@.len() - p,
        {
            let (v, q) = match parse_value(s, p) {
                Ok(t) => t,
                Err(e) => {
                    return Err(e);
                },
            };
            elems.push(v);
            let q2 = skip_ws(s, q);
            if q2 >= s.len() {
                return Err(DecodeError::Syntax);
            }
            if s[q2] == ',' {
                p = q2 + 1;
            } else if s[q2] == ']' {
                return Ok((JVal::Arr(elems), q2 + 1));
            } else {
                return Err(DecodeError::Syntax);
            }
        }
    } else if c == '{' {
        let mut rec = Record::new();
        let mut p: usize = skip_ws(s, start + 1);
        if p < s.len() && s[p] == '}' {
            return Ok((JVal::Obj(rec), p + 1));
        }
        loop
            invariant
                i < p <= s@.len(),
                rec.wf(),
            decreases s@.len() - p,
        {
            if p >= s.len() {
                return Err(DecodeError::Syntax);
            }
            let (key, q) = match parse_string(s, p) {
                Ok(t) => t,
                Err(e) => {
                    return Err(e);
                },
            };
            let q2 = skip_ws(s, q);
            if q2 >= s.len() || s[q2] != ':' {
                return Err(DecodeError::Syntax);
            }
            let (v, q3) = match parse_value(s, q2 + 1) {
                Ok(t) => t,
                Err(e) => {
                    return Err(e);
                },
            };
            rec.insert(key, v);
            let q4 = skip_ws(s, q3);
            if q4 >= s.len() {
                return Err(DecodeError::Syntax);
            }
            if s[q4] == ',' {
                p = skip_ws(s, q4 + 1);
            } else if s[q4] == '}' {
                return Ok((JVal::Obj(rec), q4 + 1));
            } else {
                return Err(DecodeError::Syntax);
            }
        }
    } else {
        Err(DecodeError::Syntax)
    }
}

/// Decodes one serialized line as a log record: the line must be one
/// well-formed object with nothing but whitespace around it.
pub fn parse_record(line: &str) -> (r: Result<Record, DecodeError>)
    ensures
        r matches Ok(rec) ==> rec.wf(),
{
    let s = str_to_chars(line);
    match parse_value(&s, 0) {
        Err(e) => Err(e),
        Ok((v, j)) => {
            let j2 = skip_ws(&s, j);
            if j2 < s.len() {
                return Err(DecodeError::Syntax);
            }
            match v {
                JVal::Obj(rec) => Ok(rec),
                _ => Err(DecodeError::NotAnObject),
            }
        },
    }
}

} // verus!
