//! Numbers written and read in decimal and hexadecimal.

use crate::text::is_digit;
use vstd::prelude::*;

verus! {

pub open spec fn digit(n: nat) -> char {
    (48 + n % 10) as char
}

/// The decimal digits of `n`, without leading zeros.
pub open spec fn dec(n: nat) -> Seq<char>
    decreases n,
{
    if n < 10 {
        seq![digit(n)]
    } else {
        dec(n / 10).push(digit(n % 10))
    }
}

pub fn append_dec(out: &mut String, n: u64)
    ensures
        final(out)@ == old(out)@ + dec(n as nat),
    decreases n,
{
    if n >= 10 {
        append_dec(out, n / 10);
    }
    let ghost before = out@;
    let d: u8 = 48 + (n % 10) as u8;
    out.push(d as char);
    proof {
        assert(d as char == digit((n % 10) as nat));
        if n >= 10 {
            assert(before.push(d as char) =~= old(out)@ + dec((n / 10) as nat).push(d as char));
        } else {
            assert(digit((n % 10) as nat) == digit(n as nat));
            assert(before.push(d as char) =~= old(out)@ + seq![d as char]);
        }
    }
}

/// Appends the decimal digits of a number of any size.
pub fn append_dec_wide(out: &mut String, n: u128)
    ensures
        final(out)@ == old(out)@ + dec(n as nat),
    decreases n,
{
    if n >= 10 {
        append_dec_wide(out, n / 10);
    }
    let ghost before = out@;
    let d: u8 = 48 + (n % 10) as u8;
    out.push(d as char);
    proof {
        assert(d as char == digit((n % 10) as nat));
        if n >= 10 {
            assert(before.push(d as char) =~= old(out)@ + dec((n / 10) as nat).push(d as char));
        } else {
            assert(digit((n % 10) as nat) == digit(n as nat));
            assert(before.push(d as char) =~= old(out)@ + seq![d as char]);
        }
    }
}

pub fn decimal(n: u64) -> (r: String)
    ensures
        r@ == dec(n as nat),
{
    let mut out = String::new();
    append_dec(&mut out, n);
    proof {
        assert(Seq::<char>::empty() + dec(n as nat) =~= dec(n as nat));
    }
    out
}

/// The value of a run of decimal digits.
pub open spec fn digits_value(s: Seq<char>) -> nat
    decreases s.len(),
{
    if s.len() == 0 {
        0
    } else {
        digits_value(s.drop_last()) * 10 + (s.last() as int - 48) as nat
    }
}

pub open spec fn all_digits(s: Seq<char>) -> bool {
    forall|i: int| 0 <= i < s.len() ==> is_digit(#[trigger] s[i])
}

pub open spec fn without_plus(s: Seq<char>) -> Seq<char> {
    if s.len() > 0 && s[0] == '+' {
        s.drop_first()
    } else {
        s
    }
}

/// An unsigned number of at most `max`: one or more decimal digits, behind an
/// optional `+`.
pub open spec fn parse_unsigned(s: Seq<char>, max: nat) -> Option<nat> {
    let body = without_plus(s);
    if body.len() > 0 && all_digits(body) && digits_value(body) <= max {
        Some(digits_value(body))
    } else {
        None
    }
}

proof fn lemma_digits_value_grows(s: Seq<char>, k: int)
    requires
        0 <= k <= s.len(),
    ensures
        digits_value(s.take(k)) <= digits_value(s),
    decreases s.len(),
{
    if k == s.len() {
        assert(s.take(k) =~= s);
    } else {
        lemma_digits_value_grows(s.drop_last(), k);
        assert(s.drop_last().take(k) =~= s.take(k));
    }
}

fn digit_of(c: char) -> (r: Option<u64>)
    ensures
        match r {
            Some(d) => is_digit(c) && d == c as int - 48 && d < 10,
            None => !is_digit(c),
        },
{
    let n: u32 = c as u32;
    if 48 <= n && n <= 57 {
        Some((n - 48) as u64)
    } else {
        None
    }
}

pub fn parse_u64(s: &[char]) -> (r: Option<u64>)
    ensures
        match r {
            Some(v) => parse_unsigned(s@, u64::MAX as nat) == Some(v as nat),
            None => parse_unsigned(s@, u64::MAX as nat) is None,
        },
{
    let from: usize = if s.len() > 0 && s[0] == '+' {
        1
    } else {
        0
    };
    let ghost body = without_plus(s@);
    proof {
        assert(body =~= s@.skip(from as int));
    }
    if s.len() == from {
        return None;
    }
    let mut value: u64 = 0;
    let mut i: usize = from;
    proof {
        assert(body.take(0) =~= seq![]);
    }
    while i < s.len()
        invariant
            from <= i <= s@.len(),
            body == s@.skip(from as int),
            body == without_plus(s@),
            value == digits_value(body.take(i - from)),
            forall|j: int| 0 <= j < i - from ==> is_digit(#[trigger] body[j]),
        decreases s@.len() - i,
    {
        proof {
            assert(body[i - from] == s@[i as int]);
            assert(body.take(i + 1 - from).drop_last() =~= body.take(i - from));
            lemma_digits_value_grows(body, i + 1 - from);
        }
        let d: u64 = match digit_of(s[i]) {
            Some(d) => d,
            None => {
                return None;
            },
        };
        if value > (u64::MAX - d) / 10 {
            return None;
        }
        value = value * 10 + d;
        i = i + 1;
    }
    proof {
        assert(body.take(body.len() as int) =~= body);
    }
    Some(value)
}

pub fn parse_usize(s: &[char]) -> (r: Option<usize>)
    ensures
        match r {
            Some(v) => parse_unsigned(s@, usize::MAX as nat) == Some(v as nat),
            None => parse_unsigned(s@, usize::MAX as nat) is None,
        },
{
    match parse_u64(s) {
        Some(v) => if v <= usize::MAX as u64 {
            Some(v as usize)
        } else {
            None
        },
        None => None,
    }
}

/// The upper-case hexadecimal digit of `n`.
pub open spec fn hex_upper(n: nat) -> char {
    if n % 16 < 10 {
        (48 + n % 16) as char
    } else {
        (55 + n % 16) as char
    }
}

pub open spec fn hex_lower(n: nat) -> char {
    if n % 16 < 10 {
        (48 + n % 16) as char
    } else {
        (87 + n % 16) as char
    }
}

pub fn upper_digit(n: u8) -> (r: char)
    requires
        n < 16,
    ensures
        r == hex_upper(n as nat),
{
    if n < 10 {
        (48 + n) as char
    } else {
        (55 + n) as char
    }
}

pub fn lower_digit(n: u8) -> (r: char)
    requires
        n < 16,
    ensures
        r == hex_lower(n as nat),
{
    if n < 10 {
        (48 + n) as char
    } else {
        (87 + n) as char
    }
}

/// Two upper-case hexadecimal digits.
pub open spec fn hex2_upper(b: u8) -> Seq<char> {
    seq![hex_upper((b / 16) as nat), hex_upper((b % 16) as nat)]
}

/// Two lower-case hexadecimal digits.
pub open spec fn hex2_lower(b: u8) -> Seq<char> {
    seq![hex_lower((b / 16) as nat), hex_lower((b % 16) as nat)]
}

pub fn append_hex2_upper(out: &mut String, b: u8)
    ensures
        final(out)@ == old(out)@ + hex2_upper(b),
{
    out.push(upper_digit(b / 16));
    out.push(upper_digit(b % 16));
    proof {
        assert(out@ =~= old(out)@ + hex2_upper(b));
    }
}

pub fn append_hex2_lower(out: &mut String, b: u8)
    ensures
        final(out)@ == old(out)@ + hex2_lower(b),
{
    out.push(lower_digit(b / 16));
    out.push(lower_digit(b % 16));
    proof {
        assert(out@ =~= old(out)@ + hex2_lower(b));
    }
}

/// The upper-case hexadecimal digits of `n`, without leading zeros.
pub open spec fn hex_digits(n: nat) -> Seq<char>
    decreases n,
{
    if n < 16 {
        seq![hex_upper(n)]
    } else {
        hex_digits(n / 16).push(hex_upper(n % 16))
    }
}

fn append_hex_digits(out: &mut String, n: u64)
    ensures
        final(out)@ == old(out)@ + hex_digits(n as nat),
    decreases n,
{
    if n >= 16 {
        append_hex_digits(out, n / 16);
    }
    let ghost before = out@;
    let d: char = upper_digit((n % 16) as u8);
    out.push(d);
    proof {
        if n >= 16 {
            assert(before.push(d) =~= old(out)@ + hex_digits((n / 16) as nat).push(d));
        } else {
            assert(before.push(d) =~= old(out)@ + seq![d]);
        }
    }
}

/// `n` zeros.
pub open spec fn zeros(n: int) -> Seq<char> {
    Seq::new(if n > 0 { n as nat } else { 0 }, |i: int| '0')
}

/// The upper-case hexadecimal digits of `n`, eight at least.
pub open spec fn hex8(n: nat) -> Seq<char> {
    zeros(8 - hex_digits(n).len()) + hex_digits(n)
}

pub fn append_hex8(out: &mut String, n: u64)
    ensures
        final(out)@ == old(out)@ + hex8(n as nat),
{
    let mut digits = String::new();
    append_hex_digits(&mut digits, n);
    proof {
        assert(digits@ =~= hex_digits(n as nat));
    }
    let count: usize = crate::text::chars_of(digits.as_str()).len();
    let ghost d = hex_digits(n as nat);
    let mut k: usize = count;
    proof {
        assert(out@ =~= old(out)@ + zeros(0));
    }
    while k < 8
        invariant
            count <= k,
            k <= 8 || k == count,
            out@ == old(out)@ + zeros(k - count),
        decreases 8 - k,
    {
        out.push('0');
        k = k + 1;
        proof {
            assert(out@ =~= old(out)@ + zeros(k - count));
        }
    }
    out.append(digits.as_str());
    proof {
        assert(zeros(k - count) =~= zeros(8 - d.len()));
        assert(out@ =~= old(out)@ + hex8(n as nat));
    }
}

pub proof fn lemma_dec_digits(n: nat)
    ensures
        dec(n).len() > 0,
        all_digits(dec(n)),
        digits_value(dec(n)) == n,
    decreases n,
{
    assert(48 <= digit(n) as int <= 57 && digit(n) as int == 48 + n % 10);
    if n < 10 {
        assert(dec(n).drop_last() =~= seq![]);
        assert(digits_value(seq![]) == 0);
        assert(dec(n).last() == digit(n));
    } else {
        let head = dec(n / 10);
        lemma_dec_digits(n / 10);
        assert(digit(n % 10) as int == 48 + n % 10);
        assert(dec(n).drop_last() =~= head);
        assert(dec(n).last() == digit(n % 10));
        assert(digits_value(dec(n)) == (n / 10) * 10 + n % 10);
        assert forall|i: int| 0 <= i < dec(n).len() implies is_digit(#[trigger] dec(n)[i]) by {
            if i < head.len() {
                assert(dec(n)[i] == head[i]);
            }
        }
    }
}

/// A number that was written in digits reads back as itself.
pub proof fn lemma_dec_reads_back(n: nat, max: nat)
    requires
        n <= max,
    ensures
        parse_unsigned(dec(n), max) == Some(n),
{
    lemma_dec_digits(n);
    assert(is_digit(dec(n)[0]));
}

} // verus!
