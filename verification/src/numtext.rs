//! Decimal text of integers: the canonical rendering used for attribute
//! values, and the reading of signed decimal text used by the enumerator
//! conflict resolver.

use vstd::prelude::*;
use vstd::string::StrSliceExecFns;
use vstd::string::StringExecFns;

verus! {

/// The character for one decimal digit.
pub open spec fn dec_digit(d: int) -> char {
    if d == 0 {
        '0'
    } else if d == 1 {
        '1'
    } else if d == 2 {
        '2'
    } else if d == 3 {
        '3'
    } else if d == 4 {
        '4'
    } else if d == 5 {
        '5'
    } else if d == 6 {
        '6'
    } else if d == 7 {
        '7'
    } else if d == 8 {
        '8'
    } else {
        '9'
    }
}

/// Canonical decimal text of a natural number: no sign, no leading zeros.
pub open spec fn nat_dec(n: nat) -> Seq<char>
    decreases n,
{
    if n < 10 {
        seq![dec_digit(n as int)]
    } else {
        nat_dec(n / 10) + seq![dec_digit((n % 10) as int)]
    }
}

/// Canonical decimal text of an integer: a leading minus sign for
/// negative values, then the digits without leading zeros.
pub open spec fn int_dec(n: int) -> Seq<char> {
    if n < 0 {
        seq!['-'] + nat_dec((-n) as nat)
    } else {
        nat_dec(n as nat)
    }
}

pub open spec fn is_dec_digit(c: char) -> bool {
    '0' as int <= c as int <= '9' as int
}

pub open spec fn dec_digit_val(c: char) -> int {
    c as int - '0' as int
}

/// The value of a digit string, most significant digit first.
pub open spec fn digits_val(s: Seq<char>) -> int
    decreases s.len(),
{
    if s.len() == 0 {
        0
    } else {
        digits_val(s.drop_last()) * 10 + dec_digit_val(s.last())
    }
}

pub open spec fn all_dec_digits(s: Seq<char>) -> bool {
    forall|i: int| 0 <= i < s.len() ==> is_dec_digit(#[trigger] s[i])
}

/// Signed decimal text: an optional plus or minus sign followed by at
/// least one digit.
pub open spec fn is_dec_int(s: Seq<char>) -> bool {
    if s.len() > 0 && (s[0] == '-' || s[0] == '+') {
        s.len() >= 2 && all_dec_digits(s.subrange(1, s.len() as int))
    } else {
        s.len() >= 1 && all_dec_digits(s)
    }
}

/// The value denoted by signed decimal text.
pub open spec fn dec_val(s: Seq<char>) -> int {
    if s.len() > 0 && s[0] == '-' {
        -digits_val(s.subrange(1, s.len() as int))
    } else if s.len() > 0 && s[0] == '+' {
        digits_val(s.subrange(1, s.len() as int))
    } else {
        digits_val(s)
    }
}

/// Signed decimal text whose value fits a 32-bit signed integer.
pub open spec fn is_dec_i32(s: Seq<char>) -> bool {
    is_dec_int(s) && i32::MIN <= dec_val(s) <= i32::MAX
}

/// A digit string's value is never negative.
pub proof fn lemma_digits_val_nonneg(s: Seq<char>)
    requires
        all_dec_digits(s),
    ensures
        digits_val(s) >= 0,
    decreases s.len(),
{
    if s.len() > 0 {
        assert(forall|i: int| 0 <= i < s.len() - 1 ==> s.drop_last()[i] == s[i]);
        lemma_digits_val_nonneg(s.drop_last());
    }
}

/// Reading one more digit cannot shrink the value.
pub proof fn lemma_digits_val_prefix(s: Seq<char>, i: int)
    requires
        all_dec_digits(s),
        0 <= i < s.len(),
    ensures
        digits_val(s.subrange(0, i)) <= digits_val(s.subrange(0, i + 1)) <= digits_val(s),
    decreases s.len() - i,
{
    let a = s.subrange(0, i);
    let b = s.subrange(0, i + 1);
    assert(b.drop_last() =~= a);
    assert(forall|j: int| 0 <= j < b.len() ==> b[j] == s[j]);
    lemma_digits_val_nonneg(a);
    assert(digits_val(b) == digits_val(a) * 10 + dec_digit_val(s[i]));
    assert(digits_val(a) * 10 >= digits_val(a)) by (nonlinear_arith)
        requires
            digits_val(a) >= 0,
    ;
    if i + 1 == s.len() {
        assert(b =~= s);
    } else {
        lemma_digits_val_prefix(s, i + 1);
    }
}

fn digit_str(d: u64) -> (r: &'static str)
    requires
        d < 10,
    ensures
        r@ == seq![dec_digit(d as int)],
{
    proof {
        reveal_strlit("0");
        reveal_strlit("1");
        reveal_strlit("2");
        reveal_strlit("3");
        reveal_strlit("4");
        reveal_strlit("5");
        reveal_strlit("6");
        reveal_strlit("7");
        reveal_strlit("8");
        reveal_strlit("9");
    }
    if d == 0 {
        "0"
    } else if d == 1 {
        "1"
    } else if d == 2 {
        "2"
    } else if d == 3 {
        "3"
    } else if d == 4 {
        "4"
    } else if d == 5 {
        "5"
    } else if d == 6 {
        "6"
    } else if d == 7 {
        "7"
    } else if d == 8 {
        "8"
    } else {
        "9"
    }
}

/// The canonical decimal text of an unsigned machine integer.
pub fn u64_to_dec(n: u64) -> (r: String)
    ensures
        r@ == nat_dec(n as nat),
    decreases n,
{
    if n < 10 {
        digit_str(n).to_owned()
    } else {
        let mut r = u64_to_dec(n / 10);
        r.append(digit_str(n % 10));
        r
    }
}

pub fn usize_to_dec(n: usize) -> (r: String)
    ensures
        r@ == nat_dec(n as nat),
{
    u64_to_dec(n as u64)
}

/// The canonical decimal text of a 32-bit signed integer.
pub fn i32_to_dec(n: i32) -> (r: String)
    ensures
        r@ == int_dec(n as int),
{
    if n >= 0 {
        u64_to_dec(n as u64)
    } else {
        let mag: u64 = ((-(n as i64)) as u64);
        let mut r = "-".to_owned();
        r.append(u64_to_dec(mag).as_str());
        proof {
            reveal_strlit("-");
            assert("-"@ =~= seq!['-']);
            assert(r@ =~= int_dec(n as int));
        }
        r
    }
}

/// Read signed decimal text as a 32-bit signed integer.
pub fn parse_i32(s: &str) -> (r: i32)
    requires
        is_dec_i32(s@),
    ensures
        r as int == dec_val(s@),
{
    let len = s.unicode_len();
    let first = s.get_char(0);
    let negative: bool = first == '-';
    let signed: bool = negative || first == '+';
    let start: usize = if signed { 1 } else { 0 };
    let ghost digits = if signed {
        s@.subrange(1, s@.len() as int)
    } else {
        s@
    };
    proof {
        if signed {
            assert(digits =~= s@.subrange(0, s@.len() as int).subrange(1, s@.len() as int));
        }
        lemma_digits_val_nonneg(digits);
    }
    let mut acc: i64 = 0;
    let mut i: usize = start;
    while i < len
        invariant
            start <= i <= len,
            len == s@.len(),
            negative == (s@[0] == '-'),
            signed == (s@[0] == '-' || s@[0] == '+'),
            start == if signed { 1int } else { 0int },
            digits == if signed {
                s@.subrange(1, s@.len() as int)
            } else {
                s@
            },
            is_dec_i32(s@),
            all_dec_digits(digits),
            acc as int == digits_val(digits.subrange(0, i - start)),
            0 <= acc as int <= 0x8000_0000,
        decreases len - i,
    {
        let c = s.get_char(i);
        proof {
            assert(digits[i - start] == s@[i as int]);
            assert(is_dec_digit(c));
            let pre = digits.subrange(0, i - start);
            let cur = digits.subrange(0, i - start + 1);
            assert(cur.drop_last() =~= pre);
            assert(cur.last() == c);
            lemma_digits_val_prefix(digits, i - start);
            if negative {
                assert(dec_val(s@) == -digits_val(digits));
                assert(digits_val(cur) <= digits_val(digits));
                assert(digits_val(digits) <= 0x8000_0000);
            } else {
                assert(dec_val(s@) == digits_val(digits));
                assert(digits_val(cur) <= digits_val(digits));
                assert(digits_val(digits) <= 0x7fff_ffff);
            }
        }
        let d: i64 = (c as u32 as i64) - ('0' as u32 as i64);
        acc = acc * 10 + d;
        i += 1;
    }
    proof {
        assert(digits.subrange(0, len - start) =~= digits);
    }
    if negative {
        (-acc) as i32
    } else {
        acc as i32
    }
}

} // verus!
