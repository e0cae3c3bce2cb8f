//! Decimal and hexadecimal notation of numbers.
use crate::text;
use vstd::prelude::*;
use vstd::slice::slice_subrange;

verus! {

/// The digit of a value below sixteen, in upper case.
pub open spec fn digit_char(d: nat) -> char {
    if d < 10 {
        (d + 48) as char
    } else {
        (d + 55) as char
    }
}

/// A number in the given base, most significant digit first, without leading zeros.
pub open spec fn notation(n: nat, base: nat) -> Seq<char>
    decreases n,
{
    if base < 2 || n < base {
        seq![digit_char(n)]
    } else {
        proof {
            assert(n / base < n) by (nonlinear_arith)
                requires
                    n >= base,
                    base >= 2,
            ;
        }
        notation(n / base, base).push(digit_char(n % base))
    }
}

/// A number in decimal notation.
pub open spec fn decimal(n: nat) -> Seq<char> {
    notation(n, 10)
}

/// A number in upper-case hexadecimal notation.
pub open spec fn hex(n: nat) -> Seq<char> {
    notation(n, 16)
}

/// An integer in decimal notation, with a minus sign where it is negative.
pub open spec fn signed_decimal(n: int) -> Seq<char> {
    if n < 0 {
        seq!['-'] + decimal((-n) as nat)
    } else {
        decimal(n as nat)
    }
}

fn digit(d: u64) -> (r: char)
    requires
        d < 16,
    ensures
        r == digit_char(d as nat),
{
    if d < 10 {
        ((d as u8) + 48u8) as char
    } else {
        ((d as u8) + 55u8) as char
    }
}

fn write_number(n: u64, base: u64) -> (r: Vec<char>)
    requires
        base == 10 || base == 16,
    ensures
        r@ == notation(n as nat, base as nat),
    decreases n,
{
    if n < base {
        let mut out: Vec<char> = Vec::new();
        out.push(digit(n));
        assert(out@ == seq![digit_char(n as nat)]);
        out
    } else {
        let mut out = write_number(n / base, base);
        out.push(digit(n % base));
        out
    }
}

/// Writes a number in decimal notation.
pub fn to_decimal(n: u64) -> (r: String)
    ensures
        r@ == decimal(n as nat),
{
    let v = write_number(n, 10);
    text::to_text(v.as_slice())
}

/// Writes a number in upper-case hexadecimal notation.
pub fn to_hex(n: u64) -> (r: String)
    ensures
        r@ == hex(n as nat),
{
    let v = write_number(n, 16);
    text::to_text(v.as_slice())
}

/// Writes an integer in decimal notation.
pub fn to_signed_decimal(n: i64) -> (r: String)
    ensures
        r@ == signed_decimal(n as int),
{
    let mut out: Vec<char> = Vec::new();
    if n < 0 {
        out.push('-');
        let m: u64 = (-(n as i128)) as u64;
        let v = write_number(m, 10);
        text::push_chars(&mut out, v.as_slice());
        assert(out@ == seq!['-'] + decimal(m as nat));
    } else {
        let v = write_number(n as u64, 10);
        text::push_chars(&mut out, v.as_slice());
        assert(out@ == decimal(n as nat));
    }
    text::to_text(out.as_slice())
}

/// All characters are decimal digits.
pub open spec fn all_digits(s: Seq<char>) -> bool {
    forall|i: int| 0 <= i < s.len() ==> '0' <= #[trigger] s[i] && s[i] <= '9'
}

/// The value of a row of decimal digits.
pub open spec fn digits_value(s: Seq<char>) -> nat
    decreases s.len(),
{
    if s.len() == 0 {
        0
    } else {
        10 * digits_value(s.drop_last()) + (s.last() as u32 - 48) as nat
    }
}

/// The number that a row of digits names, unless it is empty, holds anything else, or is above
/// `max`.
pub open spec fn digits_number(s: Seq<char>, max: nat) -> Option<nat> {
    if s.len() > 0 && all_digits(s) && digits_value(s) <= max {
        Some(digits_value(s))
    } else {
        None
    }
}

/// The unsigned number that a text names: digits, with an optional plus sign in front.
pub open spec fn unsigned(s: Seq<char>, max: nat) -> Option<nat> {
    if s.len() > 0 && s[0] == '+' {
        digits_number(s.subrange(1, s.len() as int), max)
    } else {
        digits_number(s, max)
    }
}

/// The 64-bit integer that a text names: digits, with an optional sign in front.
pub open spec fn signed(s: Seq<char>) -> Option<int> {
    if s.len() > 0 && s[0] == '-' {
        match digits_number(s.subrange(1, s.len() as int), 0x8000_0000_0000_0000) {
            Some(n) => Some(-(n as int)),
            None => None,
        }
    } else {
        match unsigned(s, i64::MAX as nat) {
            Some(n) => Some(n as int),
            None => None,
        }
    }
}

proof fn lemma_digits_grow(s: Seq<char>, k: int)
    requires
        0 <= k <= s.len(),
        all_digits(s),
    ensures
        digits_value(s.take(k)) <= digits_value(s),
    decreases s.len() - k,
{
    if k < s.len() {
        let t = s.take(k + 1);
        assert(t.drop_last() == s.take(k));
        assert(t.last() == s[k]);
        lemma_digits_grow(s, k + 1);
    } else {
        assert(s.take(k) == s);
    }
}

fn read_digits(s: &[char], max: u64) -> (r: Option<u64>)
    ensures
        match r {
            Some(n) => digits_number(s@, max as nat) == Some(n as nat),
            None => digits_number(s@, max as nat) is None,
        },
{
    if s.len() == 0 {
        return None;
    }
    let mut value: u64 = 0;
    let mut i: usize = 0;
    while i < s.len()
        invariant
            i <= s@.len(),
            forall|k: int| 0 <= k < i ==> '0' <= #[trigger] s@[k] && s@[k] <= '9',
            value == digits_value(s@.take(i as int)),
            value <= max,
        decreases s@.len() - i,
    {
        let c: char = s[i];
        if c < '0' || '9' < c {
            return None;
        }
        let d: u64 = (c as u8 - 48u8) as u64;
        let next: u128 = (value as u128) * 10 + (d as u128);
        let ghost t = s@.take(i + 1);
        assert(t.drop_last() == s@.take(i as int));
        assert(next == digits_value(t));
        if next > max as u128 {
            proof {
                if all_digits(s@) {
                    lemma_digits_grow(s@, i + 1);
                }
            }
            return None;
        }
        value = next as u64;
        i = i + 1;
    }
    assert(s@.take(i as int) == s@);
    Some(value)
}

/// Reads an unsigned number that is at most `max`.
pub fn parse_unsigned(s: &[char], max: u64) -> (r: Option<u64>)
    ensures
        match r {
            Some(n) => unsigned(s@, max as nat) == Some(n as nat),
            None => unsigned(s@, max as nat) is None,
        },
{
    if s.len() > 0 && s[0] == '+' {
        read_digits(slice_subrange(s, 1, s.len()), max)
    } else {
        read_digits(s, max)
    }
}

/// Reads a 64-bit integer.
pub fn parse_signed(s: &[char]) -> (r: Option<i64>)
    ensures
        match r {
            Some(n) => signed(s@) == Some(n as int),
            None => signed(s@) is None,
        },
{
    if s.len() > 0 && s[0] == '-' {
        match read_digits(slice_subrange(s, 1, s.len()), 0x8000_0000_0000_0000) {
            Some(n) => Some((-(n as i128)) as i64),
            None => None,
        }
    } else {
        match parse_unsigned(s, i64::MAX as u64) {
            Some(n) => Some(n as i64),
            None => None,
        }
    }
}

// ---------------------------------------------------------------------------
// Laws
// ---------------------------------------------------------------------------

/// What a digit of either notation stands for.
pub open spec fn digit_worth(c: char) -> nat {
    if '0' <= c && c <= '9' {
        (c as u32 - 48) as nat
    } else {
        (c as u32 - 55) as nat
    }
}

/// The worth of a row of digits in the given base.
pub open spec fn worth(s: Seq<char>, base: nat) -> nat
    decreases s.len(),
{
    if s.len() == 0 {
        0
    } else {
        base * worth(s.drop_last(), base) + digit_worth(s.last())
    }
}

/// A digit of the base.
pub open spec fn is_digit_of(c: char, base: nat) -> bool {
    ('0' <= c && c <= '9' && c as u32 - 48 < base) || ('A' <= c && c <= 'F' && c as u32 - 55 < base)
}

/// The digits that are written for a number are worth that number; there is at least one, all are
/// digits of the base, and the first is not zero unless it is the only one.
pub proof fn law_notation_is_worth_its_number(n: nat, base: nat)
    requires
        2 <= base <= 16,
    ensures
        notation(n, base).len() > 0,
        worth(notation(n, base), base) == n,
        forall|i: int|
            0 <= i < notation(n, base).len() ==> is_digit_of(#[trigger] notation(n, base)[i], base),
        notation(n, base)[0] == '0' ==> notation(n, base).len() == 1,
    decreases n,
{
    let s = notation(n, base);
    if n < base {
        assert(s.drop_last() =~= Seq::<char>::empty());
        assert(s.last() == digit_char(n));
        assert(worth(s.drop_last(), base) == 0);
        assert(base * 0 == 0);
    } else {
        assert(n / base < n && n / base > 0 && n == base * (n / base) + n % base && n % base < base)
            by (nonlinear_arith)
            requires
                n >= base,
                base >= 2,
        ;
        law_notation_is_worth_its_number(n / base, base);
        let p = notation(n / base, base);
        assert(s.drop_last() =~= p);
        assert(s[0] == p[0]);
        if p[0] == '0' {
            assert(p.drop_last() =~= Seq::<char>::empty());
            assert(p.last() == '0');
            assert(worth(p.drop_last(), base) == 0);
            assert(base * 0 == 0) by (nonlinear_arith);
            assert(worth(p, base) == base * worth(p.drop_last(), base) + digit_worth(p.last()));
            assert(false);
        }
    }
}

proof fn lemma_worth_is_value(s: Seq<char>)
    requires
        all_digits(s),
    ensures
        digits_value(s) == worth(s, 10),
    decreases s.len(),
{
    if s.len() > 0 {
        assert forall|i: int| 0 <= i < s.drop_last().len() implies '0' <= #[trigger] s.drop_last()[i]
            && s.drop_last()[i] <= '9' by {
            assert(s.drop_last()[i] == s[i]);
        }
        lemma_worth_is_value(s.drop_last());
    }
}

/// A decimal number has only digits, and no sign.
pub proof fn lemma_decimal_digits(n: nat)
    ensures
        decimal(n).len() > 0,
        all_digits(decimal(n)),
        digits_value(decimal(n)) == n,
{
    law_notation_is_worth_its_number(n, 10);
    let s = decimal(n);
    assert forall|i: int| 0 <= i < s.len() implies '0' <= #[trigger] s[i] && s[i] <= '9' by {
        assert(is_digit_of(s[i], 10));
    }
    lemma_worth_is_value(s);
}

/// A number that was written in decimal notation is read back, up to the bound and no further.
pub proof fn law_decimal_reads_back(n: nat, max: nat)
    ensures
        unsigned(decimal(n), max) == (if n <= max {
            Some(n)
        } else {
            None
        }),
{
    lemma_decimal_digits(n);
    assert(decimal(n)[0] != '+');
}

/// An integer that was written in decimal notation is read back.
pub proof fn law_signed_reads_back(n: i64)
    ensures
        signed(signed_decimal(n as int)) == Some(n as int),
{
    if n < 0 {
        let m = (-(n as int)) as nat;
        lemma_decimal_digits(m);
        let s = signed_decimal(n as int);
        assert(s.subrange(1, s.len() as int) =~= decimal(m));
    } else {
        lemma_decimal_digits(n as nat);
        assert(decimal(n as nat)[0] != '-');
        law_decimal_reads_back(n as nat, i64::MAX as nat);
    }
}

/// What is read as a number is a row of digits, at least one, worth what was read and not above the
/// bound. Every such row is read.
pub proof fn law_only_numbers_are_read(s: Seq<char>, max: nat)
    requires
        s.len() > 0 ==> s[0] != '+',
    ensures
        unsigned(s, max) is Some <==> s.len() > 0 && worth(s, 10) <= max && (forall|i: int|
            0 <= i < s.len() ==> '0' <= #[trigger] s[i] && s[i] <= '9'),
        unsigned(s, max) matches Some(n) ==> n == worth(s, 10),
{
    if all_digits(s) {
        lemma_worth_is_value(s);
    }
}

/// A plus sign in front of a row of digits changes nothing; two are no number.
pub proof fn law_plus_sign_changes_nothing(s: Seq<char>, max: nat)
    ensures
        unsigned(seq!['+'] + s, max) == (if s.len() > 0 && s[0] == '+' {
            None
        } else {
            unsigned(s, max)
        }),
{
    let t = seq!['+'] + s;
    assert(t.subrange(1, t.len() as int) =~= s);
}

} // verus!
