//! Sequential invoice numbers.
//!
//! An invoice number is the fixed prefix `SQ` followed by the decimal
//! digits of a sequence number, zero-padded to eight digits. The next
//! number is derived from the last one on file: strip the prefix, read
//! the digits, add one; when there is no prior number, or its remainder
//! is not a number, the sequence restarts at one.

use vstd::prelude::*;
use vstd::arithmetic::div_mod::{
    lemma_div_nonincreasing, lemma_div_is_strictly_smaller, lemma_fundamental_div_mod,
};

verus! {

/// Whether `c` is a decimal digit.
pub open spec fn is_digit_char(c: char) -> bool {
    c == '0' || c == '1' || c == '2' || c == '3' || c == '4' || c == '5' || c == '6' || c == '7'
        || c == '8' || c == '9'
}

/// The numeric value of a decimal digit character.
pub open spec fn digit_of_char(c: char) -> nat {
    if c == '0' {
        0
    } else if c == '1' {
        1
    } else if c == '2' {
        2
    } else if c == '3' {
        3
    } else if c == '4' {
        4
    } else if c == '5' {
        5
    } else if c == '6' {
        6
    } else if c == '7' {
        7
    } else if c == '8' {
        8
    } else {
        9
    }
}

/// The decimal digit character of a value below ten.
pub open spec fn char_of_digit(d: nat) -> char {
    if d == 0 {
        '0'
    } else if d == 1 {
        '1'
    } else if d == 2 {
        '2'
    } else if d == 3 {
        '3'
    } else if d == 4 {
        '4'
    } else if d == 5 {
        '5'
    } else if d == 6 {
        '6'
    } else if d == 7 {
        '7'
    } else if d == 8 {
        '8'
    } else {
        '9'
    }
}

/// Whether every character of `s` is a decimal digit.
pub open spec fn all_digits(s: Seq<char>) -> bool {
    forall|i: int| 0 <= i < s.len() ==> is_digit_char(s[i])
}

/// The number the digit string `s` denotes, read big-endian.
pub open spec fn digits_value(s: Seq<char>) -> nat
    decreases s.len(),
{
    if s.len() == 0 {
        0
    } else {
        digits_value(s.drop_last()) * 10 + digit_of_char(s.last())
    }
}

/// The decimal digits of `n`, zero-padded on the left to at least
/// `width` characters.
pub open spec fn padded_digits(n: nat, width: nat) -> Seq<char>
    decreases n + width,
{
    if n <= 9 && width <= 1 {
        seq![char_of_digit(n)]
    } else {
        proof {
            lemma_div_nonincreasing(n as int, 10);
            if n >= 10 {
                lemma_div_is_strictly_smaller(n as int, 10);
            }
        }
        let rest = if width == 0 {
            0
        } else {
            (width - 1) as nat
        };
        padded_digits(n / 10, rest).push(char_of_digit(n % 10))
    }
}

/// The invoice number of sequence number `n`: `SQ` and eight or more
/// padded digits.
pub open spec fn spec_invoice_number(n: nat) -> Seq<char> {
    seq!['S', 'Q'] + padded_digits(n, 8)
}

/// The remainder of a stored number after the fixed `SQ` prefix; a
/// string without that prefix is kept whole.
pub open spec fn spec_strip_prefix(s: Seq<char>) -> Seq<char> {
    if s.len() >= 2 && s[0] == 'S' && s[1] == 'Q' {
        s.subrange(2, s.len() as int)
    } else {
        s
    }
}

/// The sequence number that follows a stored invoice number: its digits
/// plus one, or one when the remainder is empty, not all digits, or too
/// large to step.
pub open spec fn spec_next_sequence(last: Option<Seq<char>>) -> nat {
    match last {
        None => 1,
        Some(s) => {
            let rem = spec_strip_prefix(s);
            if rem.len() > 0 && all_digits(rem) && digits_value(rem) < u64::MAX {
                digits_value(rem) + 1
            } else {
                1
            }
        },
    }
}

/// Every padded digit string is non-empty and consists of digits.
pub proof fn lemma_padded_digits_shape(n: nat, width: nat)
    ensures
        padded_digits(n, width).len() >= 1,
        padded_digits(n, width).len() >= width,
        all_digits(padded_digits(n, width)),
    decreases n + width,
{
    if n <= 9 && width <= 1 {
    } else {
        lemma_div_nonincreasing(n as int, 10);
        if n >= 10 {
            lemma_div_is_strictly_smaller(n as int, 10);
        }
        let rest = if width == 0 {
            0
        } else {
            (width - 1) as nat
        };
        lemma_padded_digits_shape(n / 10, rest);
        let p = padded_digits(n / 10, rest);
        let whole = p.push(char_of_digit(n % 10));
        assert(forall|i: int| 0 <= i < p.len() ==> whole[i] == p[i]);
        assert(is_digit_char(char_of_digit(n % 10)));
    }
}

/// Reading back the padded digits of `n` gives `n`: the digit encoding
/// is lossless, whatever the padding width.
pub proof fn lemma_padded_digits_value(n: nat, width: nat)
    ensures
        digits_value(padded_digits(n, width)) == n,
    decreases n + width,
{
    if n <= 9 && width <= 1 {
        let s1 = seq![char_of_digit(n)];
        assert(s1.drop_last() =~= Seq::<char>::empty());
        assert(digits_value(s1.drop_last()) == 0);
        assert(digits_value(s1) == digit_of_char(char_of_digit(n)));
        assert(digit_of_char(char_of_digit(n)) == n);
    } else {
        lemma_div_nonincreasing(n as int, 10);
        if n >= 10 {
            lemma_div_is_strictly_smaller(n as int, 10);
        }
        let rest = if width == 0 {
            0
        } else {
            (width - 1) as nat
        };
        lemma_padded_digits_value(n / 10, rest);
        let p = padded_digits(n / 10, rest);
        let whole = p.push(char_of_digit(n % 10));
        assert(whole.drop_last() =~= p);
        assert(whole.last() == char_of_digit(n % 10));
        assert(0 <= n % 10 < 10);
        assert(digit_of_char(char_of_digit(n % 10)) == n % 10);
        assert(digits_value(whole) == digits_value(p) * 10 + (n % 10));
        lemma_fundamental_div_mod(n as int, 10);
    }
}

/// Distinct sequence numbers give distinct invoice numbers: the
/// generated numbers can never collide.
pub proof fn lemma_invoice_number_injective(m: nat, n: nat)
    requires
        spec_invoice_number(m) == spec_invoice_number(n),
    ensures
        m == n,
{
    let pm = padded_digits(m, 8);
    let pn = padded_digits(n, 8);
    assert(pm =~= spec_invoice_number(m).subrange(2, spec_invoice_number(m).len() as int));
    assert(pn =~= spec_invoice_number(n).subrange(2, spec_invoice_number(n).len() as int));
    lemma_padded_digits_value(m, 8);
    lemma_padded_digits_value(n, 8);
}

/// Stepping a generated number parses back to the very next sequence
/// number: numbering never loses or repeats a value while it can grow.
pub proof fn lemma_sequence_roundtrip(n: nat)
    requires
        n < u64::MAX,
    ensures
        spec_next_sequence(Some(spec_invoice_number(n))) == n + 1,
{
    let s = spec_invoice_number(n);
    lemma_padded_digits_shape(n, 8);
    lemma_padded_digits_value(n, 8);
    assert(s[0] == 'S' && s[1] == 'Q');
    assert(spec_strip_prefix(s) =~= padded_digits(n, 8));
}

/// The sequence number a stored invoice number denotes: the value of
/// its digits after the `SQ` prefix.
pub open spec fn number_value(s: Seq<char>) -> nat {
    digits_value(spec_strip_prefix(s))
}

/// Whether `s` is a number this library generated: the canonical
/// rendering of its own sequence number, which fits a `u64`.
pub open spec fn wf_number(s: Seq<char>) -> bool {
    &&& number_value(s) <= u64::MAX
    &&& s == spec_invoice_number(number_value(s))
}

/// Every generated invoice number is well formed and reads back as its
/// own sequence number.
pub proof fn lemma_generated_number_wf(n: nat)
    requires
        n <= u64::MAX,
    ensures
        wf_number(spec_invoice_number(n)),
        number_value(spec_invoice_number(n)) == n,
{
    let s = spec_invoice_number(n);
    lemma_padded_digits_shape(n, 8);
    lemma_padded_digits_value(n, 8);
    assert(s[0] == 'S' && s[1] == 'Q');
    assert(spec_strip_prefix(s) =~= padded_digits(n, 8));
}

/// What a well-formed stored number looks like after the prefix: a
/// non-empty digit string denoting the number's own sequence value.
pub proof fn lemma_wf_number_facts(s: Seq<char>)
    requires
        wf_number(s),
    ensures
        spec_strip_prefix(s).len() > 0,
        all_digits(spec_strip_prefix(s)),
        digits_value(spec_strip_prefix(s)) == number_value(s),
{
    let n = number_value(s);
    lemma_padded_digits_shape(n, 8);
    assert(s[0] == 'S' && s[1] == 'Q');
    assert(spec_strip_prefix(s) =~= padded_digits(n, 8));
}

/// Appends the decimal digit character of `d` to `out`.
fn push_digit_char(out: &mut String, d: u64)
    requires
        d <= 9,
    ensures
        final(out)@ == old(out)@ + seq![char_of_digit(d as nat)],
{
    if d == 0 {
        out.append("0");
        proof {
            reveal_strlit("0");
            assert(old(out)@ + "0"@ =~= old(out)@ + seq![char_of_digit(d as nat)]);
        }
    } else if d == 1 {
        out.append("1");
        proof {
            reveal_strlit("1");
            assert(old(out)@ + "1"@ =~= old(out)@ + seq![char_of_digit(d as nat)]);
        }
    } else if d == 2 {
        out.append("2");
        proof {
            reveal_strlit("2");
            assert(old(out)@ + "2"@ =~= old(out)@ + seq![char_of_digit(d as nat)]);
        }
    } else if d == 3 {
        out.append("3");
        proof {
            reveal_strlit("3");
            assert(old(out)@ + "3"@ =~= old(out)@ + seq![char_of_digit(d as nat)]);
        }
    } else if d == 4 {
        out.append("4");
        proof {
            reveal_strlit("4");
            assert(old(out)@ + "4"@ =~= old(out)@ + seq![char_of_digit(d as nat)]);
        }
    } else if d == 5 {
        out.append("5");
        proof {
            reveal_strlit("5");
            assert(old(out)@ + "5"@ =~= old(out)@ + seq![char_of_digit(d as nat)]);
        }
    } else if d == 6 {
        out.append("6");
        proof {
            reveal_strlit("6");
            assert(old(out)@ + "6"@ =~= old(out)@ + seq![char_of_digit(d as nat)]);
        }
    } else if d == 7 {
        out.append("7");
        proof {
            reveal_strlit("7");
            assert(old(out)@ + "7"@ =~= old(out)@ + seq![char_of_digit(d as nat)]);
        }
    } else if d == 8 {
        out.append("8");
        proof {
            reveal_strlit("8");
            assert(old(out)@ + "8"@ =~= old(out)@ + seq![char_of_digit(d as nat)]);
        }
    } else {
        out.append("9");
        proof {
            reveal_strlit("9");
            assert(old(out)@ + "9"@ =~= old(out)@ + seq![char_of_digit(d as nat)]);
        }
    }
}

/// Appends the zero-padded decimal digits of `n` to `out`.
pub(crate) fn push_padded_digits(out: &mut String, n: u64, width: u32)
    ensures
        final(out)@ == old(out)@ + padded_digits(n as nat, width as nat),
    decreases n + width,
{
    if n <= 9 && width <= 1 {
        push_digit_char(out, n);
    } else {
        proof {
            lemma_div_nonincreasing(n as int, 10);
            if n >= 10 {
                lemma_div_is_strictly_smaller(n as int, 10);
            }
        }
        let rest: u32 = if width == 0 {
            0
        } else {
            width - 1
        };
        push_padded_digits(out, n / 10, rest);
        push_digit_char(out, n % 10);
        proof {
            let p = padded_digits((n / 10) as nat, rest as nat);
            let c = char_of_digit((n % 10) as nat);
            assert((old(out)@ + p) + seq![c] =~= old(out)@ + p.push(c));
        }
    }
}

/// The invoice number of sequence number `seqno`: `SQ` followed by the
/// digits, zero-padded to eight.
pub fn format_invoice_number(seqno: u64) -> (r: String)
    ensures
        r@ == spec_invoice_number(seqno as nat),
{
    let mut out = String::from_str("SQ");
    proof {
        reveal_strlit("SQ");
        assert(out@ =~= seq!['S', 'Q']);
    }
    push_padded_digits(&mut out, seqno, 8);
    out
}

/// Reads a non-empty all-digit string as a number. `None` exactly when
/// the string is empty, holds a non-digit, or denotes a value beyond
/// `u64::MAX`.
pub fn parse_digits_u64(s: &str) -> (r: Option<u64>)
    ensures
        r is Some <==> s@.len() > 0 && all_digits(s@) && digits_value(s@) <= u64::MAX,
        r is Some ==> r->Some_0 == digits_value(s@),
{
    let len = s.unicode_len();
    if len == 0 {
        return None;
    }
    let mut acc: u64 = 0;
    let mut i: usize = 0;
    proof {
        assert(s@.take(0) =~= Seq::<char>::empty());
    }
    while i < len
        invariant
            0 <= i <= len,
            len == s@.len(),
            all_digits(s@.take(i as int)),
            acc == digits_value(s@.take(i as int)),
        decreases len - i,
    {
        let c = s.get_char(i);
        let d: u64 = match c {
            '0' => 0,
            '1' => 1,
            '2' => 2,
            '3' => 3,
            '4' => 4,
            '5' => 5,
            '6' => 6,
            '7' => 7,
            '8' => 8,
            '9' => 9,
            _ => {
                return None;
            },
        };
        proof {
            assert(s@.take(i + 1).drop_last() =~= s@.take(i as int));
            assert(s@.take(i + 1).last() == s@[i as int]);
        }
        let wide: u128 = (acc as u128) * 10 + (d as u128);
        if wide > u64::MAX as u128 {
            proof {
                assert(digits_value(s@.take(i + 1)) == acc * 10 + digit_of_char(s@[i as int]));
                assert(digits_value(s@.take(i + 1)) == wide);
                lemma_digits_value_monotone(s@, i + 1, s@.len() as int);
                assert(s@.take(s@.len() as int) =~= s@);
            }
            return None;
        }
        acc = wide as u64;
        i = i + 1;
    }
    proof {
        assert(s@.take(len as int) =~= s@);
    }
    Some(acc)
}

/// A longer digit prefix never denotes a smaller number.
pub(crate) proof fn lemma_digits_value_monotone(s: Seq<char>, i: int, j: int)
    requires
        0 <= i <= j <= s.len(),
    ensures
        digits_value(s.take(i)) <= digits_value(s.take(j)),
    decreases j - i,
{
    if i < j {
        lemma_digits_value_monotone(s, i, j - 1);
        assert(s.take(j).drop_last() =~= s.take(j - 1));
    }
}

/// The digits of a stored invoice number after its `SQ` prefix, read as
/// a number. `None` exactly when the remainder is empty, holds a
/// non-digit, or denotes a value beyond `u64::MAX`.
pub fn sequence_value(s: &str) -> (r: Option<u64>)
    ensures
        r is Some <==> spec_strip_prefix(s@).len() > 0 && all_digits(spec_strip_prefix(s@))
            && number_value(s@) <= u64::MAX,
        r is Some ==> r->Some_0 == number_value(s@),
{
    let len = s.unicode_len();
    let rem: &str = if len >= 2 {
        let c0 = s.get_char(0);
        let c1 = s.get_char(1);
        if c0 == 'S' && c1 == 'Q' {
            s.substring_char(2, len)
        } else {
            s
        }
    } else {
        s
    };
    proof {
        assert(rem@ =~= spec_strip_prefix(s@));
    }
    parse_digits_u64(rem)
}

/// The sequence number the next invoice gets, derived from the last
/// stored invoice number, if any.
pub fn next_sequence(last: Option<&str>) -> (r: u64)
    ensures
        r == spec_next_sequence(match last {
            Some(s) => Some(s@),
            None => None,
        }),
        r >= 1,
{
    match last {
        None => 1,
        Some(s) => {
            match sequence_value(s) {
                Some(n) => {
                    if n < u64::MAX {
                        n + 1
                    } else {
                        1
                    }
                },
                None => 1,
            }
        },
    }
}

/// The invoice number that follows the last stored one: parse, step,
/// format. With no prior number this is `SQ00000001`.
pub fn next_invoice_number(last: Option<&str>) -> (r: String)
    ensures
        r@ == spec_invoice_number(spec_next_sequence(match last {
            Some(s) => Some(s@),
            None => None,
        }) as nat),
{
    let n = next_sequence(last);
    format_invoice_number(n)
}

} // verus!
