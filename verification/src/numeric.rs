//! Decimal rendering of port numbers and parsing of address octets.

use vstd::prelude::*;

verus! {

/// The character for a single decimal digit.
pub open spec fn digit_char(d: nat) -> char {
    if d == 0 {
        '0'
    } else if d == 1 {
        '1'
    } else if d == 2 {
        '2'
    } else if d == 3 {
        '3'
    } else if d == 4 {
        '4'
    } else if d == 5 {
        '5'
    } else if d == 6 {
        '6'
    } else if d == 7 {
        '7'
    } else if d == 8 {
        '8'
    } else {
        '9'
    }
}

/// The decimal digit sequence of `n`, most significant digit first and
/// without leading zeros (a single `'0'` for zero).
pub open spec fn dec_seq(n: nat) -> Seq<char>
    decreases n,
{
    if n < 10 {
        seq![digit_char(n)]
    } else {
        dec_seq(n / 10).push(digit_char(n % 10))
    }
}

/// One decimal digit as a string slice.
fn digit_str(d: u16) -> (r: &'static str)
    requires
        d < 10,
    ensures
        r@ == seq![digit_char(d as nat)],
{
    proof {
        reveal_strlit("0");
        reveal_strlit("1");
        reveal_strlit("2");
        reveal_strlit("3");
        reveal_strlit("4");
        reveal_strlit("5");
        reveal_strlit("6");
        reveal_strlit("7");
        reveal_strlit("8");
        reveal_strlit("9");
    }
    let r: &'static str = if d == 0 {
        "0"
    } else if d == 1 {
        "1"
    } else if d == 2 {
        "2"
    } else if d == 3 {
        "3"
    } else if d == 4 {
        "4"
    } else if d == 5 {
        "5"
    } else if d == 6 {
        "6"
    } else if d == 7 {
        "7"
    } else if d == 8 {
        "8"
    } else {
        "9"
    };
    proof {
        assert(r@ =~= seq![digit_char(d as nat)]);
    }
    r
}

/// Render `n` in decimal.
pub fn u16_string(n: u16) -> (r: String)
    ensures
        r@ == dec_seq(n as nat),
    decreases n,
{
    if n < 10 {
        String::from_str(digit_str(n))
    } else {
        let mut s = u16_string(n / 10);
        s.append(digit_str(n % 10));
        proof {
            assert(dec_seq((n / 10) as nat) + seq![digit_char((n % 10) as nat)] =~= dec_seq(
                (n / 10) as nat,
            ).push(digit_char((n % 10) as nat)));
            assert((n as nat) / 10 == (n / 10) as nat);
            assert((n as nat) % 10 == (n % 10) as nat);
        }
        s
    }
}

/// A decimal digit character.
pub open spec fn is_dec_digit(c: char) -> bool {
    48 <= c as int && c as int <= 57
}

/// The numeric value of a decimal digit character.
pub open spec fn digit_val(c: char) -> int {
    c as int - 48
}

/// The value of a sequence of decimal digit characters, most significant
/// first.
pub open spec fn dec_val(s: Seq<char>) -> int
    decreases s.len(),
{
    if s.len() == 0 {
        0
    } else {
        dec_val(s.drop_last()) * 10 + digit_val(s.last())
    }
}

/// The digit portion of a decimal numeral: everything after an optional
/// leading `'+'`.
pub open spec fn numeral_digits(s: Seq<char>) -> Seq<char> {
    if s.len() > 0 && s[0] == '+' {
        s.skip(1)
    } else {
        s
    }
}

/// Whether `s` is a decimal numeral (optional `'+'`, then at least one
/// digit) whose value fits in a `u8`.
pub open spec fn parse_u8_ok(s: Seq<char>) -> bool {
    let d = numeral_digits(s);
    d.len() > 0 && (forall|i: int| 0 <= i < d.len() ==> is_dec_digit(d[i])) && dec_val(d) <= 255
}

proof fn lemma_dec_val_nonneg(s: Seq<char>)
    requires
        forall|i: int| 0 <= i < s.len() ==> is_dec_digit(s[i]),
    ensures
        dec_val(s) >= 0,
    decreases s.len(),
{
    if s.len() > 0 {
        lemma_dec_val_nonneg(s.drop_last());
    }
}

/// The value of a digit string is at least the value of any of its prefixes.
proof fn lemma_dec_val_prefix(s: Seq<char>, j: int)
    requires
        0 <= j <= s.len(),
        forall|i: int| 0 <= i < s.len() ==> is_dec_digit(s[i]),
    ensures
        dec_val(s) >= dec_val(s.take(j)),
    decreases s.len() - j,
{
    if j < s.len() {
        let t = s.take(j + 1);
        assert(t.drop_last() =~= s.take(j));
        assert(forall|i: int| 0 <= i < s.take(j).len() ==> is_dec_digit(s.take(j)[i]));
        lemma_dec_val_nonneg(s.take(j));
        assert(dec_val(t) == dec_val(s.take(j)) * 10 + digit_val(s[j]));
        assert(dec_val(t) >= dec_val(s.take(j)));
        lemma_dec_val_prefix(s, j + 1);
        assert(s.take(s.len() as int) =~= s);
    } else {
        assert(s.take(j) =~= s);
    }
}

/// Parse a `u8` from a decimal numeral: an optional `'+'`, then one or
/// more digits, with a value of at most 255.
pub fn parse_u8(s: &str) -> (r: Option<u8>)
    ensures
        match r {
            Some(v) => parse_u8_ok(s@) && v as int == dec_val(numeral_digits(s@)),
            None => !parse_u8_ok(s@),
        },
{
    let len = s.unicode_len();
    let start: usize = if len > 0 && s.get_char(0) == '+' {
        1
    } else {
        0
    };
    let ghost d = numeral_digits(s@);
    proof {
        assert(d =~= s@.subrange(start as int, len as int));
    }
    if len == start {
        return None;
    }
    let mut acc: u32 = 0;
    let mut i: usize = start;
    while i < len
        invariant
            len == s@.len(),
            start <= i <= len,
            start < len,
            d == numeral_digits(s@),
            d =~= s@.subrange(start as int, len as int),
            forall|k: int| 0 <= k < i - start ==> is_dec_digit(d[k]),
            acc <= 255,
            acc as int == dec_val(d.take(i - start)),
        decreases len - i,
    {
        let c = s.get_char(i);
        let cv = c as u32;
        proof {
            assert(d[i - start] == c);
        }
        if cv < 48 || cv > 57 {
            proof {
                assert(!is_dec_digit(d[i - start]));
            }
            return None;
        }
        let ghost old_acc = acc;
        acc = acc * 10 + (cv - 48);
        proof {
            assert(d.take(i - start + 1).drop_last() =~= d.take(i - start));
            assert(d.take(i - start + 1).last() == c);
            assert(dec_val(d.take(i - start + 1)) == old_acc * 10 + digit_val(c));
            assert(acc as int == dec_val(d.take(i - start + 1)));
        }
        if acc > 255 {
            proof {
                if forall|k: int| 0 <= k < d.len() ==> is_dec_digit(d[k]) {
                    lemma_dec_val_prefix(d, i - start + 1);
                    assert(dec_val(d) > 255);
                }
            }
            return None;
        }
        i = i + 1;
    }
    proof {
        assert(d.take((len - start) as int) =~= d);
    }
    Some(acc as u8)
}

} // verus!
