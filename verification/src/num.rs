//! The decimal model behind the numeric field editor.
//!
//! A numeric edit operates on the canonical decimal text of the current
//! value: a digit key appends one character and the text is reparsed, and
//! backspace drops the last character and reparses. An unparsable or
//! overflowing buffer resets the value to zero. The spec functions here give
//! that text-level meaning; the executable operations compute the same
//! values arithmetically and are proved equal to the text-level account.

use vstd::prelude::*;

use crate::keys::{KeyCode, KeyEvent};
use crate::text::string_push;

verus! {

pub open spec fn in_i32(v: int) -> bool {
    -0x8000_0000 <= v <= 0x7fff_ffff
}

/// The character for one decimal digit.
pub open spec fn digit_char(d: int) -> char {
    if d == 0 {
        '0'
    } else if d == 1 {
        '1'
    } else if d == 2 {
        '2'
    } else if d == 3 {
        '3'
    } else if d == 4 {
        '4'
    } else if d == 5 {
        '5'
    } else if d == 6 {
        '6'
    } else if d == 7 {
        '7'
    } else if d == 8 {
        '8'
    } else {
        '9'
    }
}

pub open spec fn is_digit_char(c: char) -> bool {
    48 <= c as int <= 57
}

pub open spec fn char_digit(c: char) -> int {
    c as int - 48
}

/// Decimal digits of a nonnegative value, most significant first.
pub open spec fn dec_digits(n: int) -> Seq<char>
    decreases n,
{
    if n < 10 {
        seq![digit_char(n)]
    } else {
        dec_digits(n / 10).push(digit_char(n % 10))
    }
}

/// The canonical decimal text of a signed value.
pub open spec fn dec_str(v: int) -> Seq<char> {
    if v < 0 {
        seq!['-'] + dec_digits(-v)
    } else {
        dec_digits(v)
    }
}

pub open spec fn all_digits(s: Seq<char>) -> bool {
    forall|i: int| 0 <= i < s.len() ==> is_digit_char(#[trigger] s[i])
}

/// The value of a digit-only text, most significant first.
pub open spec fn digits_value(s: Seq<char>) -> int
    decreases s.len(),
{
    if s.len() == 0 {
        0
    } else {
        digits_value(s.drop_last()) * 10 + char_digit(s.last())
    }
}

/// What running the standard `i32` parser on `s` yields: an optional sign
/// followed by at least one digit, and a value within `i32` range; anything
/// else fails.
pub open spec fn parse_i32(s: Seq<char>) -> Option<int> {
    let neg = s.len() > 0 && s[0] == '-';
    let ds = if s.len() > 0 && (s[0] == '-' || s[0] == '+') {
        s.drop_first()
    } else {
        s
    };
    if ds.len() == 0 || !all_digits(ds) {
        None
    } else {
        let v = if neg {
            -digits_value(ds)
        } else {
            digits_value(ds)
        };
        if in_i32(v) {
            Some(v)
        } else {
            None
        }
    }
}

/// A failed parse resets the field to zero.
pub open spec fn parse_i32_or_zero(s: Seq<char>) -> int {
    match parse_i32(s) {
        Some(v) => v,
        None => 0,
    }
}

/// Appending digit `d` to the canonical buffer of `v` and reparsing.
pub open spec fn buffer_push_digit(v: int, d: int) -> int {
    parse_i32_or_zero(dec_str(v).push(digit_char(d)))
}

/// Dropping the last character of the canonical buffer of `v` and reparsing.
pub open spec fn buffer_backspace(v: int) -> int {
    parse_i32_or_zero(dec_str(v).drop_last())
}

proof fn lemma_dec_digits_props(n: int)
    requires
        n >= 0,
    ensures
        dec_digits(n).len() >= 1,
        all_digits(dec_digits(n)),
        digits_value(dec_digits(n)) == n,
    decreases n,
{
    if n < 10 {
        assert(dec_digits(n) =~= seq![digit_char(n)]);
        assert(dec_digits(n).drop_last() =~= Seq::<char>::empty());
        assert(digits_value(Seq::<char>::empty()) == 0);
        assert(digits_value(dec_digits(n)) == digits_value(dec_digits(n).drop_last()) * 10
            + char_digit(dec_digits(n).last()));
        assert(char_digit(digit_char(n)) == n);
    } else {
        lemma_dec_digits_props(n / 10);
        let prefix = dec_digits(n / 10);
        let c = digit_char(n % 10);
        assert(dec_digits(n) == prefix.push(c));
        assert(prefix.push(c).drop_last() =~= prefix);
        assert(prefix.push(c).last() == c);
        assert(char_digit(c) == n % 10);
        assert(digits_value(dec_digits(n)) == (n / 10) * 10 + n % 10);
        assert((n / 10) * 10 + n % 10 == n) by (nonlinear_arith);
        assert forall|i: int| 0 <= i < dec_digits(n).len() implies is_digit_char(
            #[trigger] dec_digits(n)[i],
        ) by {
            if i < prefix.len() {
                assert(dec_digits(n)[i] == prefix[i]);
            } else {
                assert(dec_digits(n)[i] == c);
            }
        }
    }
}

/// Parsing the canonical text of an `i32` value gives the value back.
pub proof fn lemma_parse_canonical(v: int)
    requires
        in_i32(v),
    ensures
        parse_i32(dec_str(v)) == Some(v),
{
    if v >= 0 {
        lemma_dec_digits_props(v);
        let s = dec_digits(v);
        assert(is_digit_char(s[0]));
        assert(s[0] != '-' && s[0] != '+');
    } else {
        lemma_dec_digits_props(-v);
        let s = seq!['-'] + dec_digits(-v);
        assert(s[0] == '-');
        assert(s.drop_first() =~= dec_digits(-v));
    }
}

/// The arithmetic meaning of appending one digit: shift the value by one
/// decimal place toward its sign, or reset to zero on overflow.
pub open spec fn push_digit_val(v: int, d: int) -> int {
    let w = if v >= 0 {
        v * 10 + d
    } else {
        v * 10 - d
    };
    if in_i32(w) {
        w
    } else {
        0
    }
}

/// The arithmetic meaning of one backspace: a single digit (with or without
/// sign) becomes the empty buffer, hence zero; otherwise the last digit is
/// cut off, truncating toward zero.
pub open spec fn backspace_val(v: int) -> int {
    if -9 <= v <= 9 {
        0
    } else if v >= 0 {
        v / 10
    } else {
        -((-v) / 10)
    }
}

/// Appending a digit to the canonical buffer computes `push_digit_val`.
pub proof fn lemma_push_digit(v: int, d: int)
    requires
        in_i32(v),
        0 <= d <= 9,
    ensures
        buffer_push_digit(v, d) == push_digit_val(v, d),
{
    let c = digit_char(d);
    assert(is_digit_char(c) && char_digit(c) == d);
    if v >= 0 {
        lemma_dec_digits_props(v);
        let s = dec_digits(v).push(c);
        assert(s[0] == dec_digits(v)[0]);
        assert(is_digit_char(s[0]));
        assert(s[0] != '-' && s[0] != '+');
        assert(s.drop_last() =~= dec_digits(v));
        assert(digits_value(s) == v * 10 + d);
        assert(all_digits(s)) by {
            assert(forall|i: int| 0 <= i < s.len() - 1 ==> s[i] == dec_digits(v)[i]);
        }
    } else {
        lemma_dec_digits_props(-v);
        let s = (seq!['-'] + dec_digits(-v)).push(c);
        assert(s[0] == '-');
        let ds = s.drop_first();
        assert(ds =~= dec_digits(-v).push(c));
        assert(ds.drop_last() =~= dec_digits(-v));
        assert(digits_value(ds) == (-v) * 10 + d);
        assert(all_digits(ds)) by {
            assert(forall|i: int| 0 <= i < ds.len() - 1 ==> ds[i] == dec_digits(-v)[i]);
        }
        assert(-digits_value(ds) == v * 10 - d) by (nonlinear_arith)
            requires
                digits_value(ds) == (-v) * 10 + d,
        ;
    }
}

/// One backspace on the canonical buffer computes `backspace_val`.
pub proof fn lemma_backspace(v: int)
    requires
        in_i32(v),
    ensures
        buffer_backspace(v) == backspace_val(v),
{
    if 0 <= v <= 9 {
        assert(dec_str(v) =~= seq![digit_char(v)]);
        assert(dec_str(v).drop_last() =~= Seq::<char>::empty());
    } else if -9 <= v < 0 {
        assert(dec_str(v) =~= seq!['-'] + dec_digits(-v));
        assert(dec_digits(-v) =~= seq![digit_char(-v)]);
        let s = dec_str(v).drop_last();
        assert(s =~= seq!['-']);
        assert(s[0] == '-');
        assert(s.drop_first() =~= Seq::<char>::empty());
    } else if v >= 10 {
        lemma_dec_digits_props(v / 10);
        assert(dec_digits(v) == dec_digits(v / 10).push(digit_char(v % 10)));
        let s = dec_digits(v).drop_last();
        assert(s =~= dec_digits(v / 10));
        assert(is_digit_char(s[0]));
        assert(s[0] != '-' && s[0] != '+');
    } else {
        // v <= -10
        lemma_dec_digits_props((-v) / 10);
        assert(dec_digits(-v) == dec_digits((-v) / 10).push(digit_char((-v) % 10)));
        let s = dec_str(v).drop_last();
        assert(s =~= seq!['-'] + dec_digits((-v) / 10));
        assert(s[0] == '-');
        assert(s.drop_first() =~= dec_digits((-v) / 10));
    }
}

/// The character for digit `d`, as executable code.
pub fn digit_char_of(d: u32) -> (c: char)
    requires
        d <= 9,
    ensures
        c == digit_char(d as int),
{
    match d {
        0 => '0',
        1 => '1',
        2 => '2',
        3 => '3',
        4 => '4',
        5 => '5',
        6 => '6',
        7 => '7',
        8 => '8',
        _ => '9',
    }
}

pub fn is_ascii_digit_char(c: char) -> (r: bool)
    ensures
        r == is_digit_char(c),
{
    let u = c as u32;
    48 <= u && u <= 57
}

/// Appending digit key `c` to the buffer of `v`: the new field value.
pub fn numeric_push_digit(v: i32, c: char) -> (r: i32)
    requires
        is_digit_char(c),
    ensures
        r as int == buffer_push_digit(v as int, char_digit(c)),
{
    let d: i64 = (c as u32 as i64) - 48;
    let w: i64 = if v >= 0 {
        (v as i64) * 10 + d
    } else {
        (v as i64) * 10 - d
    };
    proof {
        lemma_push_digit(v as int, char_digit(c));
    }
    if -0x8000_0000i64 <= w && w <= 0x7fff_ffffi64 {
        w as i32
    } else {
        0
    }
}

/// One backspace on the buffer of `v`: the new field value.
pub fn numeric_backspace(v: i32) -> (r: i32)
    ensures
        r as int == buffer_backspace(v as int),
{
    proof {
        lemma_backspace(v as int);
    }
    if -9 <= v && v <= 9 {
        0
    } else {
        let mag: u32 = if v >= 0 {
            v as u32
        } else {
            (-(v as i64)) as u32
        };
        let q: u32 = mag / 10;
        if v >= 0 {
            q as i32
        } else {
            -(q as i32)
        }
    }
}

/// What one keystroke asks of a numeric field edit.
#[derive(Clone, Copy, Debug, PartialEq)]
pub enum NumericAction {
    /// Confirm: commit the buffered value and leave the mode.
    Commit,
    /// Cancel: discard the buffer and leave the mode.
    Cancel,
    /// The buffer was reshaped to this value.
    Edit(i32),
    /// The key means nothing in a numeric edit.
    Ignore,
}

pub enum NumericActionView {
    Commit,
    Cancel,
    Edit(int),
    Ignore,
}

impl View for NumericAction {
    type V = NumericActionView;

    open spec fn view(&self) -> NumericActionView {
        match *self {
            NumericAction::Commit => NumericActionView::Commit,
            NumericAction::Cancel => NumericActionView::Cancel,
            NumericAction::Edit(v) => NumericActionView::Edit(v as int),
            NumericAction::Ignore => NumericActionView::Ignore,
        }
    }
}

/// The key discipline every numeric field edit shares: confirm commits,
/// cancel reverts, a digit appends to the buffer, backspace shortens it,
/// and anything else is ignored.
pub open spec fn numeric_edit_spec(value: int, ev: KeyEvent) -> NumericActionView {
    match ev.code {
        KeyCode::Enter => NumericActionView::Commit,
        KeyCode::Esc => NumericActionView::Cancel,
        KeyCode::Backspace => NumericActionView::Edit(buffer_backspace(value)),
        KeyCode::Char(c) => if is_digit_char(c) {
            NumericActionView::Edit(buffer_push_digit(value, char_digit(c)))
        } else {
            NumericActionView::Ignore
        },
        _ => NumericActionView::Ignore,
    }
}

/// Interpret one keystroke against the buffered value `value`.
pub fn numeric_edit(value: i32, ev: KeyEvent) -> (r: NumericAction)
    ensures
        r@ == numeric_edit_spec(value as int, ev),
{
    match ev.code {
        KeyCode::Enter => NumericAction::Commit,
        KeyCode::Esc => NumericAction::Cancel,
        KeyCode::Backspace => NumericAction::Edit(numeric_backspace(value)),
        KeyCode::Char(c) => {
            if is_ascii_digit_char(c) {
                NumericAction::Edit(numeric_push_digit(value, c))
            } else {
                NumericAction::Ignore
            }
        },
        _ => NumericAction::Ignore,
    }
}

/// The canonical decimal text of `v`, as a fresh `String`.
pub fn i32_to_string(v: i32) -> (r: String)
    ensures
        r@ == dec_str(v as int),
{
    let neg = v < 0;
    let mut m: u32 = if v >= 0 {
        v as u32
    } else {
        (-(v as i64)) as u32
    };
    let ghost m0 = m as int;
    let mut rev: Vec<char> = Vec::new();
    if m == 0 {
        rev.push('0');
        proof {
            assert(dec_digits(0) =~= seq!['0']);
            assert(rev@.reverse() =~= seq!['0']);
        }
    } else {
        while m > 0
            invariant
                m >= 0,
                m0 >= 0,
                dec_digits(m0) =~= if m > 0 {
                    dec_digits(m as int) + rev@.reverse()
                } else {
                    rev@.reverse()
                },
            decreases m,
        {
            let c = digit_char_of(m % 10);
            let ghost rev_old = rev@;
            rev.push(c);
            proof {
                assert(rev@.reverse() =~= seq![c] + rev_old.reverse());
            }
            if m >= 10 {
                proof {
                    assert(dec_digits(m as int) == dec_digits(m as int / 10).push(c));
                    assert(dec_digits(m as int / 10).push(c) + rev_old.reverse() =~= dec_digits(
                        m as int / 10,
                    ) + (seq![c] + rev_old.reverse()));
                }
            } else {
                proof {
                    assert(dec_digits(m as int) =~= seq![c]);
                    assert(seq![c] + rev_old.reverse() =~= rev@.reverse());
                }
            }
            m = m / 10;
        }
    }
    assert(dec_digits(m0) =~= rev@.reverse());
    let mut s = String::new();
    if neg {
        string_push(&mut s, '-');
    }
    let ghost sign: Seq<char> = if neg {
        seq!['-']
    } else {
        Seq::empty()
    };
    assert(s@ =~= sign + rev@.skip(rev@.len() as int).reverse());
    let mut i: usize = rev.len();
    while i > 0
        invariant
            i <= rev.len(),
            s@ =~= sign + rev@.skip(i as int).reverse(),
        decreases i,
    {
        i = i - 1;
        string_push(&mut s, rev[i]);
        proof {
            assert(rev@.skip(i as int) =~= seq![rev@[i as int]] + rev@.skip(i as int + 1));
            assert(rev@.skip(i as int).reverse() =~= rev@.skip(i as int + 1).reverse().push(
                rev@[i as int],
            ));
        }
    }
    proof {
        assert(rev@.skip(0) =~= rev@);
        if v >= 0 {
            assert(s@ =~= dec_str(v as int));
        } else {
            assert(s@ =~= dec_str(v as int));
        }
    }
    s
}

} // verus!
