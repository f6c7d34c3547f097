//! The persistence text format: a compact JSON rendering of documents and of
//! the configuration registry, written and read by this module alone. The
//! encoder is specified exactly; the decoder accepts a text only when
//! re-encoding its result reproduces that text, so everything a decoder
//! returns renders back to its input.

use vstd::prelude::*;

use crate::tree::{groups_view, Info, InfoModel};
use crate::value::{entries_view, values_view, ValModel, Value};

verus! {

broadcast use vstd::std_specs::vec::group_vec_axioms;

/// The decimal digit character for `d` (`d < 10`).
pub open spec fn digit_char(d: nat) -> char {
    if d == 0 {
        '0'
    } else if d == 1 {
        '1'
    } else if d == 2 {
        '2'
    } else if d == 3 {
        '3'
    } else if d == 4 {
        '4'
    } else if d == 5 {
        '5'
    } else if d == 6 {
        '6'
    } else if d == 7 {
        '7'
    } else if d == 8 {
        '8'
    } else {
        '9'
    }
}

/// The numeric value of a decimal digit character, or 10 for any other char.
pub open spec fn digit_val(c: char) -> nat {
    if c == '0' {
        0
    } else if c == '1' {
        1
    } else if c == '2' {
        2
    } else if c == '3' {
        3
    } else if c == '4' {
        4
    } else if c == '5' {
        5
    } else if c == '6' {
        6
    } else if c == '7' {
        7
    } else if c == '8' {
        8
    } else if c == '9' {
        9
    } else {
        10
    }
}

/// The canonical decimal digits of `n`, most significant first.
pub open spec fn dec_digits(n: nat) -> Seq<char>
    decreases n,
{
    if n < 10 {
        seq![digit_char(n)]
    } else {
        dec_digits(n / 10).push(digit_char(n % 10))
    }
}

/// The value of a digit string read most significant first.
pub open spec fn digits_val(s: Seq<char>) -> nat
    decreases s.len(),
{
    if s.len() == 0 {
        0
    } else {
        digits_val(s.drop_last()) * 10 + digit_val(s.last())
    }
}

/// Every character of `s` is a decimal digit.
pub open spec fn all_digits(s: Seq<char>) -> bool {
    forall|i: int| 0 <= i < s.len() ==> digit_val(s[i]) < 10
}

/// Reading back the canonical digits of `n` yields `n`, the digits are all
/// decimal, and the leading digit of a multi-digit rendering is never zero.
pub proof fn lemma_dec_digits_val(n: nat)
    ensures
        digits_val(dec_digits(n)) == n,
        all_digits(dec_digits(n)),
        dec_digits(n).len() >= 1,
        n > 0 ==> digit_val(dec_digits(n)[0]) > 0,
    decreases n,
{
    if n < 10 {
        assert(dec_digits(n) =~= seq![digit_char(n)]);
        assert(dec_digits(n).drop_last() =~= Seq::<char>::empty());
        assert(dec_digits(n).last() == digit_char(n));
        assert(digit_val(digit_char(n)) == n);
        assert(digits_val(dec_digits(n)) == digits_val(Seq::<char>::empty()) * 10 + digit_val(
            digit_char(n),
        ));
    } else {
        lemma_dec_digits_val(n / 10);
        let d = dec_digits(n / 10);
        assert(dec_digits(n) == d.push(digit_char(n % 10)));
        assert(d.push(digit_char(n % 10)).drop_last() =~= d);
        assert(digits_val(dec_digits(n)) == digits_val(d) * 10 + digit_val(digit_char(n % 10)));
        assert(digit_val(digit_char(n % 10)) == n % 10);
        assert((n / 10) * 10 + n % 10 == n) by (nonlinear_arith);
        assert(forall|i: int|
            0 <= i < d.len() ==> dec_digits(n)[i] == d[i]);
    }
}

/// A prefix of a digit string never reads back larger than the whole.
pub proof fn lemma_digits_val_prefix(s: Seq<char>, i: int)
    requires
        0 <= i <= s.len(),
    ensures
        digits_val(s.take(i)) <= digits_val(s),
    decreases s.len() - i,
{
    if i == s.len() {
        assert(s.take(i) =~= s);
    } else {
        lemma_digits_val_prefix(s, i + 1);
        assert(s.take(i + 1).drop_last() =~= s.take(i));
        assert(digits_val(s.take(i + 1)) == digits_val(s.take(i)) * 10 + digit_val(
            s.take(i + 1).last(),
        ));
    }
}

/// The text of a signed integer: a minus sign and the magnitude's digits.
pub open spec fn int_text(n: int) -> Seq<char> {
    if n < 0 {
        seq!['-'] + dec_digits((-n) as nat)
    } else {
        dec_digits(n as nat)
    }
}

/// The lower-case hexadecimal digit character for `d` (`d < 16`).
pub open spec fn hex_char(d: nat) -> char {
    if d < 10 {
        digit_char(d)
    } else if d == 10 {
        'a'
    } else if d == 11 {
        'b'
    } else if d == 12 {
        'c'
    } else if d == 13 {
        'd'
    } else if d == 14 {
        'e'
    } else {
        'f'
    }
}

/// How one character is written inside a quoted string: the backslash and the
/// quote get a backslash prefix, a control character becomes its four-digit
/// `\u` escape, everything else stands as itself.
pub open spec fn esc_char(c: char) -> Seq<char> {
    if c == '\\' || c == '"' {
        seq!['\\', c]
    } else if (c as u32) < 0x20 {
        seq![
            '\\',
            'u',
            '0',
            '0',
            hex_char(((c as u32) / 16) as nat),
            hex_char(((c as u32) % 16) as nat),
        ]
    } else {
        seq![c]
    }
}

/// A character sequence with every character escaped.
pub open spec fn esc_text(s: Seq<char>) -> Seq<char>
    decreases s.len(),
{
    if s.len() == 0 {
        Seq::empty()
    } else {
        esc_char(s[0]) + esc_text(s.drop_first())
    }
}

/// The text of a quoted string.
pub open spec fn str_text(s: Seq<char>) -> Seq<char> {
    seq!['"'] + esc_text(s) + seq!['"']
}

/// The text of a value.
pub open spec fn val_text(v: ValModel) -> Seq<char>
    decreases v,
{
    match v {
        ValModel::Null => seq!['n', 'u', 'l', 'l'],
        ValModel::Bool(b) => if b {
            seq!['t', 'r', 'u', 'e']
        } else {
            seq!['f', 'a', 'l', 's', 'e']
        },
        ValModel::Int(n) => int_text(n),
        ValModel::Str(s) => str_text(s),
        ValModel::Arr(items) => seq!['['] + arr_text(items) + seq![']'],
        ValModel::Obj(es) => seq!['{'] + obj_text(es) + seq!['}'],
    }
}

/// The comma-separated texts of array elements.
pub open spec fn arr_text(items: Seq<ValModel>) -> Seq<char>
    decreases items,
{
    if items.len() == 0 {
        Seq::empty()
    } else if items.len() == 1 {
        val_text(items[0])
    } else {
        val_text(items[0]) + seq![','] + arr_text(items.drop_first())
    }
}

/// The comma-separated `"key":value` texts of object entries.
pub open spec fn obj_text(es: Seq<(Seq<char>, ValModel)>) -> Seq<char>
    decreases es,
{
    if es.len() == 0 {
        Seq::empty()
    } else if es.len() == 1 {
        entry_text(es[0])
    } else {
        entry_text(es[0]) + seq![','] + obj_text(es.drop_first())
    }
}

/// The text of one object entry.
pub open spec fn entry_text(e: (Seq<char>, ValModel)) -> Seq<char>
    decreases e,
{
    str_text(e.0) + seq![':'] + val_text(e.1)
}

/// Escaping distributes over appending one character.
proof fn lemma_esc_text_snoc(s: Seq<char>, c: char)
    ensures
        esc_text(s.push(c)) == esc_text(s) + esc_char(c),
    decreases s.len(),
{
    if s.len() == 0 {
        assert(s.push(c)[0] == c);
        assert(s.push(c).drop_first() =~= Seq::<char>::empty());
        assert(esc_text(s.push(c)) == esc_char(c) + esc_text(s.push(c).drop_first()));
        assert(esc_text(Seq::<char>::empty()) =~= Seq::<char>::empty());
        assert(esc_text(s.push(c)) =~= esc_text(s) + esc_char(c));
    } else {
        assert(s.push(c)[0] == s[0]);
        assert(s.push(c).drop_first() =~= s.drop_first().push(c));
        lemma_esc_text_snoc(s.drop_first(), c);
        assert(esc_text(s.push(c)) == esc_char(s[0]) + esc_text(s.drop_first().push(c)));
        assert(esc_text(s.push(c)) == esc_char(s[0]) + (esc_text(s.drop_first()) + esc_char(c)));
        assert(esc_text(s) == esc_char(s[0]) + esc_text(s.drop_first()));
        assert(esc_text(s.push(c)) =~= esc_text(s) + esc_char(c));
    }
}

/// Array text after appending one more element.
proof fn lemma_arr_text_snoc(items: Seq<ValModel>, v: ValModel)
    ensures
        arr_text(items.push(v)) == if items.len() == 0 {
            val_text(v)
        } else {
            arr_text(items) + seq![','] + val_text(v)
        },
    decreases items.len(),
{
    if items.len() == 0 {
        assert(arr_text(items.push(v)) =~= val_text(v));
    } else {
        assert(items.push(v).drop_first() =~= items.drop_first().push(v));
        assert(items.push(v)[0] == items[0]);
        lemma_arr_text_snoc(items.drop_first(), v);
        if items.len() == 1 {
            assert(arr_text(items.push(v)) =~= arr_text(items) + seq![','] + val_text(v));
        } else {
            assert(arr_text(items.push(v)) =~= arr_text(items) + seq![','] + val_text(v));
        }
    }
}

/// Object text after appending one more entry.
proof fn lemma_obj_text_snoc(es: Seq<(Seq<char>, ValModel)>, e: (Seq<char>, ValModel))
    ensures
        obj_text(es.push(e)) == if es.len() == 0 {
            entry_text(e)
        } else {
            obj_text(es) + seq![','] + entry_text(e)
        },
    decreases es.len(),
{
    if es.len() == 0 {
        assert(obj_text(es.push(e)) =~= entry_text(e));
    } else {
        assert(es.push(e).drop_first() =~= es.drop_first().push(e));
        assert(es.push(e)[0] == es[0]);
        lemma_obj_text_snoc(es.drop_first(), e);
        assert(obj_text(es.push(e)) =~= obj_text(es) + seq![','] + entry_text(e));
    }
}

/// Relies on `str::chars`: the characters of a string slice, in order.
#[verifier::external_body]
pub fn chars_of(s: &str) -> (r: Vec<char>)
    ensures
        r@ == s@,
{
    s.chars().collect()
}

/// Relies on `String: FromIterator<char>`: collecting characters builds the
/// string holding exactly those characters in order.
#[verifier::external_body]
pub fn string_of(cs: Vec<char>) -> (r: String)
    ensures
        r@ == cs@,
{
    cs.into_iter().collect()
}

/// Append the canonical decimal digits of `n`.
pub fn write_u64(out: &mut Vec<char>, n: u64)
    ensures
        final(out)@ == old(out)@ + dec_digits(n as nat),
    decreases n,
{
    if n < 10 {
        let c: char = match n {
            0 => '0',
            1 => '1',
            2 => '2',
            3 => '3',
            4 => '4',
            5 => '5',
            6 => '6',
            7 => '7',
            8 => '8',
            _ => '9',
        };
        assert(c == digit_char(n as nat));
        out.push(c);
        assert(out@ =~= old(out)@ + dec_digits(n as nat));
    } else {
        write_u64(out, n / 10);
        let d = n % 10;
        let c: char = match d {
            0 => '0',
            1 => '1',
            2 => '2',
            3 => '3',
            4 => '4',
            5 => '5',
            6 => '6',
            7 => '7',
            8 => '8',
            _ => '9',
        };
        assert(c == digit_char((n % 10) as nat));
        out.push(c);
        assert(out@ =~= old(out)@ + dec_digits(n as nat));
    }
}

/// Append the decimal text of `n`, minus sign included.
pub fn write_i64(out: &mut Vec<char>, n: i64)
    ensures
        final(out)@ == old(out)@ + int_text(n as int),
{
    if n < 0 {
        out.push('-');
        let m: u64 = if n == -0x8000_0000_0000_0000i64 {
            0x8000_0000_0000_0000u64
        } else {
            (-n) as u64
        };
        assert(m as nat == (-(n as int)) as nat);
        write_u64(out, m);
        assert(out@ =~= old(out)@ + int_text(n as int));
    } else {
        write_u64(out, n as u64);
    }
}

/// The lower-case hexadecimal digit character for `d`.
fn hex_digit_char(d: u8) -> (r: char)
    requires
        d < 16,
    ensures
        r == hex_char(d as nat),
{
    match d {
        0 => '0',
        1 => '1',
        2 => '2',
        3 => '3',
        4 => '4',
        5 => '5',
        6 => '6',
        7 => '7',
        8 => '8',
        9 => '9',
        10 => 'a',
        11 => 'b',
        12 => 'c',
        13 => 'd',
        14 => 'e',
        _ => 'f',
    }
}

/// Append the escaped form of every character of `s`.
#[verifier::loop_isolation(false)]
pub fn write_escaped(out: &mut Vec<char>, s: &str)
    ensures
        final(out)@ == old(out)@ + esc_text(s@),
{
    let cs = chars_of(s);
    let ghost base = out@;
    let mut i: usize = 0;
    while i < cs.len()
        invariant
            i <= cs.len(),
            out@ == base + esc_text(cs@.take(i as int)),
        decreases cs.len() - i,
    {
        let c = cs[i];
        if c == '\\' || c == '"' {
            out.push('\\');
            out.push(c);
        } else if (c as u32) < 0x20 {
            let code = c as u32;
            out.push('\\');
            out.push('u');
            out.push('0');
            out.push('0');
            out.push(hex_digit_char((code / 16) as u8));
            out.push(hex_digit_char((code % 16) as u8));
        } else {
            out.push(c);
        }
        proof {
            assert(cs@.take(i as int).push(c) =~= cs@.take(i as int + 1));
            lemma_esc_text_snoc(cs@.take(i as int), c);
            assert(out@ =~= base + esc_text(cs@.take(i as int + 1)));
        }
        i += 1;
    }
    proof {
        assert(cs@.take(i as int) =~= cs@);
    }
}

/// Append the quoted, escaped text of `s`.
pub fn write_string(out: &mut Vec<char>, s: &str)
    ensures
        final(out)@ == old(out)@ + str_text(s@),
{
    out.push('"');
    write_escaped(out, s);
    out.push('"');
    assert(out@ =~= old(out)@ + str_text(s@));
}

/// Append the text of `v`.
#[verifier::loop_isolation(false)]
pub fn write_value(out: &mut Vec<char>, v: &Value)
    ensures
        final(out)@ == old(out)@ + val_text(v@),
    decreases *v,
{
    match v {
        Value::Null => {
            out.push('n');
            out.push('u');
            out.push('l');
            out.push('l');
            assert(out@ =~= old(out)@ + val_text(v@));
        },
        Value::Bool(b) => {
            if *b {
                out.push('t');
                out.push('r');
                out.push('u');
                out.push('e');
            } else {
                out.push('f');
                out.push('a');
                out.push('l');
                out.push('s');
                out.push('e');
            }
            assert(out@ =~= old(out)@ + val_text(v@));
        },
        Value::Int(n) => {
            write_i64(out, *n);
        },
        Value::Str(s) => {
            write_string(out, s.as_str());
        },
        Value::Arr(items) => {
            let ghost models = values_view(items@);
            out.push('[');
            let ghost base = out@;
            let mut j: usize = 0;
            while j < items.len()
                invariant
                    j <= items.len(),
                    out@ == base + arr_text(models.take(j as int)),
                decreases items.len() - j,
            {
                if j > 0 {
                    out.push(',');
                }
                proof {
                    assert(decreases_to!(*v => *items));
                    assert(decreases_to!(*items => items@[j as int]));
                }
                write_value(out, &items[j]);
                proof {
                    assert(models.take(j as int).push(models[j as int]) =~= models.take(
                        j as int + 1,
                    ));
                    lemma_arr_text_snoc(models.take(j as int), models[j as int]);
                    assert(out@ =~= base + arr_text(models.take(j as int + 1)));
                }
                j += 1;
            }
            out.push(']');
            proof {
                assert(models.take(j as int) =~= models);
                assert(out@ =~= old(out)@ + val_text(v@));
            }
        },
        Value::Obj(entries) => {
            let ghost models = entries_view(entries@);
            out.push('{');
            let ghost base = out@;
            let mut j: usize = 0;
            while j < entries.len()
                invariant
                    j <= entries.len(),
                    out@ == base + obj_text(models.take(j as int)),
                decreases entries.len() - j,
            {
                if j > 0 {
                    out.push(',');
                }
                write_string(out, entries[j].0.as_str());
                out.push(':');
                proof {
                    assert(decreases_to!(*v => *entries));
                    assert(decreases_to!(*entries => entries@[j as int]));
                    assert(decreases_to!(entries@[j as int] => entries@[j as int].1));
                }
                write_value(out, &entries[j].1);
                proof {
                    assert(models.take(j as int).push(models[j as int]) =~= models.take(
                        j as int + 1,
                    ));
                    lemma_obj_text_snoc(models.take(j as int), models[j as int]);
                    assert(out@ =~= base + obj_text(models.take(j as int + 1)));
                }
                j += 1;
            }
            out.push('}');
            proof {
                assert(models.take(j as int) =~= models);
                assert(out@ =~= old(out)@ + val_text(v@));
            }
        },
    }
}

/// The decimal value of a digit character.
fn digit_of(c: char) -> (r: Option<u64>)
    ensures
        match r {
            Some(d) => d == digit_val(c) && d < 10,
            None => digit_val(c) == 10,
        },
{
    match c {
        '0' => Some(0),
        '1' => Some(1),
        '2' => Some(2),
        '3' => Some(3),
        '4' => Some(4),
        '5' => Some(5),
        '6' => Some(6),
        '7' => Some(7),
        '8' => Some(8),
        '9' => Some(9),
        _ => None,
    }
}

/// The number a marker text denotes: the value of its digits when the whole
/// text is digits and that value fits, and `0` for any other text — the same
/// reading an absent marker gets.
pub open spec fn marker_value(s: Seq<char>) -> u64 {
    if s.len() > 0 && all_digits(s) && digits_val(s) <= u64::MAX {
        digits_val(s) as u64
    } else {
        0
    }
}

/// Reading back the canonical rendering of `n` yields `n`.
pub proof fn lemma_marker_value_canonical(n: u64)
    ensures
        marker_value(dec_digits(n as nat)) == n,
{
    lemma_dec_digits_val(n as nat);
}

/// Read a whole character sequence as a decimal number, exactly as
/// [`marker_value`] says.
#[verifier::loop_isolation(false)]
pub fn parse_u64_loose(s: &Vec<char>) -> (r: u64)
    ensures
        r == marker_value(s@),
{
    if s.len() == 0 {
        return 0;
    }
    let mut acc: u64 = 0;
    let mut pos: usize = 0;
    proof {
        assert(s@.take(0) =~= Seq::<char>::empty());
    }
    while pos < s.len()
        invariant
            pos <= s.len(),
            acc == digits_val(s@.take(pos as int)),
            all_digits(s@.take(pos as int)),
        decreases s.len() - pos,
    {
        let d = match digit_of(s[pos]) {
            Some(d) => d,
            None => {
                proof {
                    assert(!all_digits(s@)) by {
                        assert(digit_val(s@[pos as int]) == 10);
                    }
                }
                return 0;
            },
        };
        proof {
            assert(s@.take(pos as int + 1).drop_last() =~= s@.take(pos as int));
            assert(s@.take(pos as int + 1).last() == s@[pos as int]);
        }
        let shifted = match acc.checked_mul(10) {
            Some(x) => x,
            None => {
                proof {
                    lemma_digits_val_prefix(s@, pos as int + 1);
                    assert(digits_val(s@) > u64::MAX);
                }
                return 0;
            },
        };
        let next = match shifted.checked_add(d) {
            Some(x) => x,
            None => {
                proof {
                    lemma_digits_val_prefix(s@, pos as int + 1);
                    assert(digits_val(s@) > u64::MAX);
                }
                return 0;
            },
        };
        proof {
            assert(forall|k: int|
                0 <= k < pos as int + 1 ==> #[trigger] digit_val(s@.take(pos as int + 1)[k])
                    < 10);
        }
        acc = next;
        pos += 1;
    }
    proof {
        assert(s@.take(pos as int) =~= s@);
    }
    acc
}

/// Read a quoted string starting at position `i`, returning the unescaped
/// content and the position after the closing quote.
#[verifier::loop_isolation(false)]
fn parse_string(s: &Vec<char>, i: usize) -> (r: Option<(String, usize)>)
    ensures
        r matches Some(p) ==> i < p.1 && p.1 <= s.len(),
{
    if i >= s.len() {
        return None;
    }
    if s[i] != '"' {
        return None;
    }
    let mut out: Vec<char> = Vec::new();
    let mut pos: usize = i + 1;
    while pos < s.len()
        invariant
            i < pos <= s.len(),
        decreases s.len() - pos,
    {
        let c = s[pos];
        if c == '"' {
            return Some((string_of(out), pos + 1));
        }
        if c == '\\' {
            if pos + 1 >= s.len() {
                return None;
            }
            let d = s[pos + 1];
            if d == '\\' || d == '"' {
                out.push(d);
                pos += 2;
            } else if d == 'u' {
                if s.len() - pos < 6 {
                    return None;
                }
                if s[pos + 2] != '0' || s[pos + 3] != '0' {
                    return None;
                }
                let hi = match hex_digit_val(s[pos + 4]) {
                    Some(h) => h,
                    None => {
                        return None;
                    },
                };
                let lo = match hex_digit_val(s[pos + 5]) {
                    Some(h) => h,
                    None => {
                        return None;
                    },
                };
                let code = hi * 16 + lo;
                let unescaped = match control_char(code) {
                    Some(c) => c,
                    None => {
                        return None;
                    },
                };
                out.push(unescaped);
                pos += 6;
            } else {
                return None;
            }
        } else {
            out.push(c);
            pos += 1;
        }
    }
    None
}

/// The value of a lower-case hexadecimal digit character.
fn hex_digit_val(c: char) -> (r: Option<u8>)
    ensures
        r matches Some(d) ==> d < 16 && hex_char(d as nat) == c,
{
    match c {
        '0' => Some(0),
        '1' => Some(1),
        '2' => Some(2),
        '3' => Some(3),
        '4' => Some(4),
        '5' => Some(5),
        '6' => Some(6),
        '7' => Some(7),
        '8' => Some(8),
        '9' => Some(9),
        'a' => Some(10),
        'b' => Some(11),
        'c' => Some(12),
        'd' => Some(13),
        'e' => Some(14),
        'f' => Some(15),
        _ => None,
    }
}

/// The control character with the given code, for codes below `0x20`.
fn control_char(code: u8) -> (r: Option<char>)
    ensures
        r matches Some(c) ==> c as u32 == code && (c as u32) < 0x20,
{
    match code {
        0 => Some('\u{0}'),
        1 => Some('\u{1}'),
        2 => Some('\u{2}'),
        3 => Some('\u{3}'),
        4 => Some('\u{4}'),
        5 => Some('\u{5}'),
        6 => Some('\u{6}'),
        7 => Some('\u{7}'),
        8 => Some('\u{8}'),
        9 => Some('\u{9}'),
        10 => Some('\u{a}'),
        11 => Some('\u{b}'),
        12 => Some('\u{c}'),
        13 => Some('\u{d}'),
        14 => Some('\u{e}'),
        15 => Some('\u{f}'),
        16 => Some('\u{10}'),
        17 => Some('\u{11}'),
        18 => Some('\u{12}'),
        19 => Some('\u{13}'),
        20 => Some('\u{14}'),
        21 => Some('\u{15}'),
        22 => Some('\u{16}'),
        23 => Some('\u{17}'),
        24 => Some('\u{18}'),
        25 => Some('\u{19}'),
        26 => Some('\u{1a}'),
        27 => Some('\u{1b}'),
        28 => Some('\u{1c}'),
        29 => Some('\u{1d}'),
        30 => Some('\u{1e}'),
        31 => Some('\u{1f}'),
        _ => None,
    }
}

/// Read a decimal number (optionally signed) starting at position `i`.
#[verifier::loop_isolation(false)]
fn parse_number(s: &Vec<char>, i: usize) -> (r: Option<(i64, usize)>)
    ensures
        r matches Some(p) ==> i < p.1 && p.1 <= s.len(),
{
    if i >= s.len() {
        return None;
    }
    let neg = s[i] == '-';
    let mut pos: usize = if neg {
        i + 1
    } else {
        i
    };
    let mut acc: u64 = 0;
    let mut any = false;
    while pos < s.len()
        invariant
            i <= pos <= s.len(),
            neg ==> pos > i,
            any ==> pos > i,
        decreases s.len() - pos,
    {
        let d = match digit_of(s[pos]) {
            Some(d) => d,
            None => {
                break ;
            },
        };
        let shifted = match acc.checked_mul(10) {
            Some(x) => x,
            None => {
                return None;
            },
        };
        acc = match shifted.checked_add(d) {
            Some(x) => x,
            None => {
                return None;
            },
        };
        any = true;
        pos += 1;
    }
    if !any {
        return None;
    }
    if neg {
        if acc > 0x8000_0000_0000_0000u64 {
            return None;
        }
        if acc == 0x8000_0000_0000_0000u64 {
            Some((-0x8000_0000_0000_0000i64, pos))
        } else {
            Some((-(acc as i64), pos))
        }
    } else {
        if acc > 0x7fff_ffff_ffff_ffffu64 {
            return None;
        }
        Some((acc as i64, pos))
    }
}

/// Read one value starting at position `i`, returning it and the position
/// after its text. What is returned is only trusted after re-rendering (see
/// [`data_from_text`] and [`registry_from_text`]).
#[verifier::loop_isolation(false)]
fn parse_value(s: &Vec<char>, i: usize) -> (r: Option<(Value, usize)>)
    ensures
        r matches Some(p) ==> i < p.1 && p.1 <= s.len(),
    decreases s.len() - i,
{
    if i >= s.len() {
        return None;
    }
    let c = s[i];
    if c == 'n' {
        if s.len() - i >= 4 && s[i + 1] == 'u' && s[i + 2] == 'l' && s[i + 3] == 'l' {
            Some((Value::Null, i + 4))
        } else {
            None
        }
    } else if c == 't' {
        if s.len() - i >= 4 && s[i + 1] == 'r' && s[i + 2] == 'u' && s[i + 3] == 'e' {
            Some((Value::Bool(true), i + 4))
        } else {
            None
        }
    } else if c == 'f' {
        if s.len() - i >= 5 && s[i + 1] == 'a' && s[i + 2] == 'l' && s[i + 3] == 's' && s[i + 4]
            == 'e' {
            Some((Value::Bool(false), i + 5))
        } else {
            None
        }
    } else if c == '"' {
        match parse_string(s, i) {
            Some((st, j)) => Some((Value::Str(st), j)),
            None => None,
        }
    } else if c == '[' {
        let mut items: Vec<Value> = Vec::new();
        let mut pos: usize = i + 1;
        if pos < s.len() && s[pos] == ']' {
            return Some((Value::Arr(items), pos + 1));
        }
        while pos < s.len()
            invariant
                i < pos <= s.len(),
            decreases s.len() - pos,
        {
            match parse_value(s, pos) {
                None => {
                    return None;
                },
                Some((v, j)) => {
                    items.push(v);
                    pos = j;
                },
            }
            if pos < s.len() && s[pos] == ',' {
                pos += 1;
                if pos >= s.len() {
                    return None;
                }
            } else if pos < s.len() && s[pos] == ']' {
                return Some((Value::Arr(items), pos + 1));
            } else {
                return None;
            }
        }
        None
    } else if c == '{' {
        let mut entries: Vec<(String, Value)> = Vec::new();
        let mut pos: usize = i + 1;
        if pos < s.len() && s[pos] == '}' {
            return Some((Value::Obj(entries), pos + 1));
        }
        while pos < s.len()
            invariant
                i < pos <= s.len(),
            decreases s.len() - pos,
        {
            let (key, j) = match parse_string(s, pos) {
                None => {
                    return None;
                },
                Some(p) => p,
            };
            if j >= s.len() || s[j] != ':' {
                return None;
            }
            pos = j + 1;
            match parse_value(s, pos) {
                None => {
                    return None;
                },
                Some((v, k)) => {
                    entries.push((key, v));
                    pos = k;
                },
            }
            if pos < s.len() && s[pos] == ',' {
                pos += 1;
                if pos >= s.len() {
                    return None;
                }
            } else if pos < s.len() && s[pos] == '}' {
                return Some((Value::Obj(entries), pos + 1));
            } else {
                return None;
            }
        }
        None
    } else {
        match parse_number(s, i) {
            Some((n, j)) => Some((Value::Int(n), j)),
            None => None,
        }
    }
}

/// Two character vectors hold the same characters.
#[verifier::loop_isolation(false)]
fn chars_eq(a: &Vec<char>, b: &Vec<char>) -> (r: bool)
    ensures
        r == (a@ == b@),
{
    if a.len() != b.len() {
        return false;
    }
    let mut i: usize = 0;
    while i < a.len()
        invariant
            i <= a.len(),
            a@.len() == b@.len(),
            forall|k: int| 0 <= k < i ==> a@[k] == b@[k],
        decreases a.len() - i,
    {
        if a[i] != b[i] {
            return false;
        }
        i += 1;
    }
    proof {
        assert(a@ =~= b@);
    }
    true
}

/// Read a whole string as a decimal number, exactly as [`marker_value`]
/// says: the digits' value for an all-digit text that fits, `0` otherwise.
pub fn parse_u64_text(s: &str) -> (r: u64)
    ensures
        r == marker_value(s@),
        forall|n: u64| s@ == dec_digits(n as nat) ==> r == n,
{
    proof {
        assert forall|n: u64| s@ == dec_digits(n as nat) implies marker_value(s@) == n by {
            lemma_marker_value_canonical(n);
        }
    }
    let cs = chars_of(s);
    parse_u64_loose(&cs)
}

/// Read a whole string as a canonically rendered decimal number: `Some(n)`
/// exactly reproduces the text as `n`'s rendering.
pub fn parse_u64_strict(s: &str) -> (r: Option<u64>)
    ensures
        r matches Some(n) ==> s@ == dec_digits(n as nat),
        forall|n: u64| s@ == dec_digits(n as nat) ==> r == Some(n),
{
    let cs = chars_of(s);
    let m = parse_u64_loose(&cs);
    proof {
        assert forall|n: u64| s@ == dec_digits(n as nat) implies m == n by {
            lemma_marker_value_canonical(n);
        }
    }
    let mut rendered: Vec<char> = Vec::new();
    write_u64(&mut rendered, m);
    if chars_eq(&rendered, &cs) {
        Some(m)
    } else {
        None
    }
}

/// The text of `v`, as a string.
pub fn encode_value(v: &Value) -> (r: String)
    ensures
        r@ == val_text(v@),
{
    let mut out: Vec<char> = Vec::new();
    write_value(&mut out, v);
    string_of(out)
}

/// The value form of one uniqueness group's field list.
pub open spec fn fields_as_val(fields: Seq<Seq<char>>) -> ValModel {
    ValModel::Arr(Seq::new(fields.len(), |i: int| ValModel::Str(fields[i])))
}

/// The value form of the named uniqueness groups.
pub open spec fn groups_as_val(groups: Seq<(Seq<char>, Seq<Seq<char>>)>) -> ValModel {
    ValModel::Obj(Seq::new(groups.len(), |i: int| (groups[i].0, fields_as_val(groups[i].1))))
}

/// The value form of one collection configuration.
pub open spec fn info_as_val(info: InfoModel) -> ValModel {
    ValModel::Obj(
        seq![
            ("sequence_field"@, ValModel::Str(info.sequence_field)),
            ("unique_fields"@, groups_as_val(info.unique_fields)),
            ("capacity"@, ValModel::Int(info.capacity)),
        ],
    )
}

/// The value form of the registry file: collection name to configuration.
pub open spec fn registry_entries_val(infos: Seq<(Seq<char>, InfoModel)>) -> Seq<
    (Seq<char>, ValModel),
> {
    Seq::new(infos.len(), |i: int| (infos[i].0, info_as_val(infos[i].1)))
}

/// The text of the registry file.
pub open spec fn registry_text(infos: Seq<(Seq<char>, InfoModel)>) -> Seq<char> {
    val_text(ValModel::Obj(registry_entries_val(infos)))
}

/// The value form of a collection's data file: decimal sequence number (as a
/// string key) to document.
pub open spec fn data_entries_val(entries: Seq<(u64, ValModel)>) -> Seq<(Seq<char>, ValModel)> {
    Seq::new(entries.len(), |i: int| (dec_digits(entries[i].0 as nat), entries[i].1))
}

/// The text of a collection's data file.
pub open spec fn data_text(entries: Seq<(u64, ValModel)>) -> Seq<char> {
    val_text(ValModel::Obj(data_entries_val(entries)))
}

/// Append the text of one configuration.
#[verifier::rlimit(100)]
#[verifier::loop_isolation(false)]
pub fn write_info(out: &mut Vec<char>, info: &Info)
    ensures
        final(out)@ == old(out)@ + val_text(info_as_val(info@)),
{
    let ghost whole = old(out)@;
    out.push('{');
    write_string(out, "sequence_field");
    out.push(':');
    write_string(out, info.sequence_field.as_str());
    out.push(',');
    write_string(out, "unique_fields");
    out.push(':');
    out.push('{');
    let ghost gv = groups_view(info.unique_fields@);
    let ghost gmodels = Seq::new(gv.len(), |i: int| (gv[i].0, fields_as_val(gv[i].1)));
    let ghost gbase = out@;
    let mut g: usize = 0;
    while g < info.unique_fields.len()
        invariant
            g <= info.unique_fields.len(),
            out@ == gbase + obj_text(gmodels.take(g as int)),
        decreases info.unique_fields.len() - g,
    {
        if g > 0 {
            out.push(',');
        }
        write_string(out, info.unique_fields[g].0.as_str());
        out.push(':');
        out.push('[');
        let fields = &info.unique_fields[g].1;
        let ghost fv = fields.deep_view();
        let ghost fmodels = Seq::new(fv.len(), |i: int| ValModel::Str(fv[i]));
        let ghost fbase = out@;
        let mut f: usize = 0;
        while f < fields.len()
            invariant
                f <= fields.len(),
                out@ == fbase + arr_text(fmodels.take(f as int)),
            decreases fields.len() - f,
        {
            if f > 0 {
                out.push(',');
            }
            write_string(out, fields[f].as_str());
            proof {
                assert(fmodels.take(f as int).push(fmodels[f as int]) =~= fmodels.take(
                    f as int + 1,
                ));
                lemma_arr_text_snoc(fmodels.take(f as int), fmodels[f as int]);
                assert(out@ =~= fbase + arr_text(fmodels.take(f as int + 1)));
            }
            f += 1;
        }
        out.push(']');
        proof {
            assert(fmodels.take(f as int) =~= fmodels);
            assert(entry_text(gmodels[g as int]) =~= str_text(gv[g as int].0) + seq![':'] + (
            seq!['['] + arr_text(fmodels) + seq![']']));
            assert(gmodels.take(g as int).push(gmodels[g as int]) =~= gmodels.take(g as int + 1));
            lemma_obj_text_snoc(gmodels.take(g as int), gmodels[g as int]);
            assert(out@ =~= gbase + obj_text(gmodels.take(g as int + 1)));
        }
        g += 1;
    }
    out.push('}');
    out.push(',');
    write_string(out, "capacity");
    out.push(':');
    write_u64(out, info.capacity as u64);
    out.push('}');
    proof {
        reveal_with_fuel(obj_text, 4);
        assert(gmodels.take(g as int) =~= gmodels);
        let es = seq![
            ("sequence_field"@, ValModel::Str(info@.sequence_field)),
            ("unique_fields"@, groups_as_val(info@.unique_fields)),
            ("capacity"@, ValModel::Int(info@.capacity)),
        ];
        let tail = es.drop_first();
        let tail2 = tail.drop_first();
        assert(tail =~= seq![
            ("unique_fields"@, groups_as_val(info@.unique_fields)),
            ("capacity"@, ValModel::Int(info@.capacity)),
        ]);
        assert(tail2 =~= seq![("capacity"@, ValModel::Int(info@.capacity))]);
        assert(obj_text(tail2) == entry_text(es[2]));
        assert(obj_text(tail) == entry_text(es[1]) + seq![','] + obj_text(tail2));
        assert(obj_text(es) == entry_text(es[0]) + seq![','] + obj_text(tail));
        assert(entry_text(es[0]) == str_text("sequence_field"@) + seq![':'] + str_text(
            info@.sequence_field,
        ));
        assert(groups_as_val(info@.unique_fields) == ValModel::Obj(gmodels)) by {
            assert(gv == info@.unique_fields);
        }
        assert(entry_text(es[1]) == str_text("unique_fields"@) + seq![':'] + (seq!['{']
            + obj_text(gmodels) + seq!['}']));
        assert(int_text(info@.capacity) == dec_digits(info.capacity as nat));
        assert(entry_text(es[2]) == str_text("capacity"@) + seq![':'] + dec_digits(
            info.capacity as nat,
        ));
        assert(val_text(info_as_val(info@)) == seq!['{'] + obj_text(es) + seq!['}']);
        assert(out@ =~= whole + val_text(info_as_val(info@)));
    }
}

/// The registry file's text for a configuration list.
#[verifier::loop_isolation(false)]
pub fn render_registry(infos: &Vec<(String, Info)>) -> (r: String)
    ensures
        r@ == registry_text(crate::tree::infos_view(infos@)),
{
    let ghost models = registry_entries_val(crate::tree::infos_view(infos@));
    let mut out: Vec<char> = Vec::new();
    out.push('{');
    let ghost base = out@;
    let mut i: usize = 0;
    while i < infos.len()
        invariant
            i <= infos.len(),
            out@ == base + obj_text(models.take(i as int)),
        decreases infos.len() - i,
    {
        if i > 0 {
            out.push(',');
        }
        write_string(&mut out, infos[i].0.as_str());
        out.push(':');
        write_info(&mut out, &infos[i].1);
        proof {
            assert(models.take(i as int).push(models[i as int]) =~= models.take(i as int + 1));
            lemma_obj_text_snoc(models.take(i as int), models[i as int]);
            assert(out@ =~= base + obj_text(models.take(i as int + 1)));
        }
        i += 1;
    }
    out.push('}');
    proof {
        assert(models.take(i as int) =~= models);
        assert(out@ =~= registry_text(crate::tree::infos_view(infos@)));
    }
    string_of(out)
}

/// The data file's text for a document entry list.
#[verifier::loop_isolation(false)]
pub fn render_data(data: &Vec<(u64, Value)>) -> (r: String)
    ensures
        r@ == data_text(crate::tree::data_view(data@)),
{
    let ghost models = data_entries_val(crate::tree::data_view(data@));
    let mut out: Vec<char> = Vec::new();
    out.push('{');
    let ghost base = out@;
    let mut i: usize = 0;
    while i < data.len()
        invariant
            i <= data.len(),
            out@ == base + obj_text(models.take(i as int)),
        decreases data.len() - i,
    {
        if i > 0 {
            out.push(',');
        }
        let mut key: Vec<char> = Vec::new();
        write_u64(&mut key, data[i].0);
        let keys = string_of(key);
        write_string(&mut out, keys.as_str());
        out.push(':');
        write_value(&mut out, &data[i].1);
        proof {
            assert(models.take(i as int).push(models[i as int]) =~= models.take(i as int + 1));
            lemma_obj_text_snoc(models.take(i as int), models[i as int]);
            assert(out@ =~= base + obj_text(models.take(i as int + 1)));
        }
        i += 1;
    }
    out.push('}');
    proof {
        assert(models.take(i as int) =~= models);
        assert(out@ =~= data_text(crate::tree::data_view(data@)));
    }
    string_of(out)
}

/// Shape a parsed value into a configuration; what comes back is only
/// trusted after re-rendering (see [`registry_from_text`]).
fn info_from_value(v: Value) -> (r: Option<Info>)
{
    let (sf_e, uf_e, cap_e) = match v {
        Value::Obj(mut entries) => {
            if entries.len() != 3 {
                return None;
            }
            let cap_e = match entries.pop() {
                Some(e) => e,
                None => {
                    return None;
                },
            };
            let uf_e = match entries.pop() {
                Some(e) => e,
                None => {
                    return None;
                },
            };
            let sf_e = match entries.pop() {
                Some(e) => e,
                None => {
                    return None;
                },
            };
            (sf_e, uf_e, cap_e)
        },
        _ => {
            return None;
        },
    };
    let sequence_field = match sf_e.1 {
        Value::Str(s) => s,
        _ => {
            return None;
        },
    };
    let capacity: u32 = match cap_e.1 {
        Value::Int(n) => {
            if 0 <= n && n <= 0xffff_ffffi64 {
                n as u32
            } else {
                return None;
            }
        },
        _ => {
            return None;
        },
    };
    let mut unique_fields: Vec<(String, Vec<String>)> = Vec::new();
    match uf_e.1 {
        Value::Obj(groups) => {
            let mut gs = groups;
            while gs.len() > 0
                decreases gs.len(),
            {
                let (name, gval) = gs.remove(0);
                let mut fields: Vec<String> = Vec::new();
                match gval {
                    Value::Arr(items) => {
                        let mut its = items;
                        while its.len() > 0
                            decreases its.len(),
                        {
                            match its.remove(0) {
                                Value::Str(s) => fields.push(s),
                                _ => {
                                    return None;
                                },
                            }
                        }
                    },
                    _ => {
                        return None;
                    },
                }
                unique_fields.push((name, fields));
            }
        },
        _ => {
            return None;
        },
    }
    Some(Info { sequence_field, unique_fields, capacity })
}

/// Read the registry file. Only a text that is exactly the rendering of the
/// returned configuration list is accepted, so what comes back renders to the
/// bytes read; the empty registry's rendering is always accepted.
#[verifier::loop_isolation(false)]
pub fn registry_from_text(s: &str) -> (r: Option<Vec<(String, Info)>>)
    ensures
        r matches Some(infos) ==> s@ == registry_text(crate::tree::infos_view(infos@)),
        s@ == registry_text(Seq::<(Seq<char>, InfoModel)>::empty()) ==> r is Some,
{
    let cs = chars_of(s);
    let empty_obj = cs.len() == 2 && cs[0] == '{' && cs[1] == '}';
    proof {
        assert(registry_entries_val(Seq::<(Seq<char>, InfoModel)>::empty()) =~= Seq::<(
            Seq<char>,
            ValModel,
        )>::empty());
        assert(registry_text(Seq::<(Seq<char>, InfoModel)>::empty()) =~= seq!['{', '}']);
        assert(s@ == registry_text(Seq::<(Seq<char>, InfoModel)>::empty()) ==> empty_obj) by {
            if s@ == registry_text(Seq::<(Seq<char>, InfoModel)>::empty()) {
                assert(cs@ =~= seq!['{', '}']);
            }
        }
    }
    if empty_obj {
        let infos: Vec<(String, Info)> = Vec::new();
        proof {
            assert(crate::tree::infos_view(infos@) =~= Seq::<(Seq<char>, InfoModel)>::empty());
            assert(s@ =~= registry_text(crate::tree::infos_view(infos@)));
        }
        return Some(infos);
    }
    let parsed = match parse_value(&cs, 0) {
        None => {
            return None;
        },
        Some((v, j)) => {
            if j != cs.len() {
                return None;
            }
            v
        },
    };
    let mut infos: Vec<(String, Info)> = Vec::new();
    match parsed {
        Value::Obj(entries) => {
            let mut es = entries;
            while es.len() > 0
                decreases es.len(),
            {
                let (name, iv) = es.remove(0);
                match info_from_value(iv) {
                    Some(info) => infos.push((name, info)),
                    None => {
                        return None;
                    },
                }
            }
        },
        _ => {
            return None;
        },
    }
    let rendered = render_registry(&infos);
    let rcs = chars_of(rendered.as_str());
    if chars_eq(&rcs, &cs) {
        Some(infos)
    } else {
        None
    }
}

/// Read a data file. Only a text that is exactly the rendering of the
/// returned document entry list is accepted, so what comes back renders to
/// the bytes read; the empty collection's rendering is always accepted.
#[verifier::loop_isolation(false)]
pub fn data_from_text(s: &str) -> (r: Option<Vec<(u64, Value)>>)
    ensures
        r matches Some(data) ==> s@ == data_text(crate::tree::data_view(data@)),
        s@ == data_text(Seq::<(u64, ValModel)>::empty()) ==> r is Some,
{
    let cs = chars_of(s);
    let empty_obj = cs.len() == 2 && cs[0] == '{' && cs[1] == '}';
    proof {
        assert(data_entries_val(Seq::<(u64, ValModel)>::empty()) =~= Seq::<(
            Seq<char>,
            ValModel,
        )>::empty());
        assert(data_text(Seq::<(u64, ValModel)>::empty()) =~= seq!['{', '}']);
        assert(s@ == data_text(Seq::<(u64, ValModel)>::empty()) ==> empty_obj) by {
            if s@ == data_text(Seq::<(u64, ValModel)>::empty()) {
                assert(cs@ =~= seq!['{', '}']);
            }
        }
    }
    if empty_obj {
        let data: Vec<(u64, Value)> = Vec::new();
        proof {
            assert(crate::tree::data_view(data@) =~= Seq::<(u64, ValModel)>::empty());
            assert(s@ =~= data_text(crate::tree::data_view(data@)));
        }
        return Some(data);
    }
    let parsed = match parse_value(&cs, 0) {
        None => {
            return None;
        },
        Some((v, j)) => {
            if j != cs.len() {
                return None;
            }
            v
        },
    };
    let mut data: Vec<(u64, Value)> = Vec::new();
    match parsed {
        Value::Obj(entries) => {
            let mut es = entries;
            while es.len() > 0
                decreases es.len(),
            {
                let (key, v) = es.remove(0);
                let kcs = chars_of(key.as_str());
                let k = parse_u64_loose(&kcs);
                data.push((k, v));
            }
        },
        _ => {
            return None;
        },
    }
    let rendered = render_data(&data);
    let rcs = chars_of(rendered.as_str());
    if chars_eq(&rcs, &cs) {
        Some(data)
    } else {
        None
    }
}

/// Every value's text holds at least one character.
pub proof fn lemma_val_text_len(v: ValModel)
    ensures
        val_text(v).len() >= 1,
{
    match v {
        ValModel::Int(n) => {
            if n < 0 {
                lemma_dec_digits_val((-n) as nat);
            } else {
                lemma_dec_digits_val(n as nat);
            }
        },
        _ => {},
    }
}

/// A collection with documents renders longer than the empty object's two
/// braces.
pub proof fn lemma_data_text_nonempty(entries: Seq<(u64, ValModel)>)
    requires
        entries.len() > 0,
    ensures
        data_text(entries).len() > 2,
{
    let es = data_entries_val(entries);
    lemma_val_text_len(es[0].1);
    assert(entry_text(es[0]).len() >= 4);
    if es.len() == 1 {
        assert(obj_text(es).len() >= 1);
    } else {
        assert(obj_text(es).len() >= 1);
    }
}

/// A registry with entries renders longer than the empty object's two braces.
pub proof fn lemma_registry_text_nonempty(infos: Seq<(Seq<char>, InfoModel)>)
    requires
        infos.len() > 0,
    ensures
        registry_text(infos).len() > 2,
{
    let es = registry_entries_val(infos);
    lemma_val_text_len(es[0].1);
    assert(entry_text(es[0]).len() >= 4);
    assert(obj_text(es).len() >= 1);
}

/// The text of a sequence-marker file.
pub fn render_sequence(n: u64) -> (r: String)
    ensures
        r@ == dec_digits(n as nat),
{
    let mut out: Vec<char> = Vec::new();
    write_u64(&mut out, n);
    string_of(out)
}

} // verus!
