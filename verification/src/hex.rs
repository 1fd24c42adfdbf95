//! Bytes written as hexadecimal digits by people.

use crate::bytes::utf8_of;
use crate::error::Error;
use crate::text::number::{append_dec, append_hex2_upper, dec, hex2_upper, hex_upper};
use crate::text::split::{after_prefix, starts};
use crate::text::{append_chars, hex_digit_value, hex_value, is_space, owned, whitespace};
use vstd::prelude::*;
use vstd::slice::slice_subrange;
use vstd::utf8::{encode_scalar, encode_utf8};

verus! {

/// What may stand between the digits of two bytes.
pub open spec fn is_gap(c: char) -> bool {
    is_space(c) || c == ',' || c == '_'
}

/// The index of the first gap, or the length where there is none.
pub open spec fn gap_index(s: Seq<char>) -> int
    decreases s.len(),
{
    if s.len() == 0 || is_gap(s[0]) {
        0
    } else {
        1 + gap_index(s.drop_first())
    }
}

pub open spec fn without_0x(s: Seq<char>) -> Seq<char> {
    if starts(s, "0x"@) {
        s.skip("0x"@.len() as int)
    } else if starts(s, "0X"@) {
        s.skip("0X"@.len() as int)
    } else {
        s
    }
}

/// The digits of `s`: its runs between gaps, each without a `0x` in front.
pub open spec fn compact(s: Seq<char>) -> Seq<char>
    decreases s.len(),
{
    let k = gap_index(s);
    if 0 <= k < s.len() {
        without_0x(s.take(k)) + compact(s.skip(k + 1))
    } else {
        without_0x(s)
    }
}

fn find_gap(s: &[char]) -> (r: usize)
    ensures
        r == gap_index(s@),
        r <= s@.len(),
{
    let mut i: usize = 0;
    proof {
        assert(s@.skip(0) =~= s@);
    }
    while i < s.len() && !(whitespace(s[i]) || s[i] == ',' || s[i] == '_')
        invariant
            i <= s@.len(),
            gap_index(s@) == i + gap_index(s@.skip(i as int)),
        decreases s@.len() - i,
    {
        proof {
            assert(s@.skip(i as int).drop_first() =~= s@.skip(i + 1));
        }
        i = i + 1;
    }
    i
}

fn strip_0x(s: &[char]) -> (r: &[char])
    ensures
        r@ == without_0x(s@),
{
    match after_prefix(s, "0x") {
        Some(rest) => rest,
        None => match after_prefix(s, "0X") {
            Some(rest) => rest,
            None => s,
        },
    }
}

fn compacted(s: &[char]) -> (r: String)
    ensures
        r@ == compact(s@),
{
    let mut out = String::new();
    let mut rest: &[char] = s;
    proof {
        assert(out@ + compact(s@) =~= compact(s@));
    }
    loop
        invariant
            out@ + compact(rest@) == compact(s@),
        decreases rest@.len(),
    {
        let k: usize = find_gap(rest);
        let ghost before = out@;
        if k < rest.len() {
            append_chars(&mut out, strip_0x(slice_subrange(rest, 0, k)));
            let tail = slice_subrange(rest, k + 1, rest.len());
            proof {
                let head = without_0x(rest@.take(k as int));
                assert(before + head + compact(tail@) =~= before + (head + compact(tail@)));
            }
            rest = tail;
        } else {
            append_chars(&mut out, strip_0x(rest));
            return out;
        }
    }
}

/// The byte that two digits write. A `+` may take the place of the first.
pub open spec fn pair_value(a: u8, b: u8) -> Option<u8> {
    match hex_value(b as char) {
        None => None,
        Some(low) => if a == 43 {
            Some(low as u8)
        } else {
            match hex_value(a as char) {
                None => None,
                Some(high) => Some((high * 16 + low) as u8),
            }
        },
    }
}

fn read_pair(a: u8, b: u8) -> (r: Option<u8>)
    ensures
        r == pair_value(a, b),
{
    match hex_digit_value(b as char) {
        None => None,
        Some(low) => if a == 43 {
            Some(low)
        } else {
            match hex_digit_value(a as char) {
                None => None,
                Some(high) => Some(high * 16 + low),
            }
        },
    }
}

/// The bytes that the digits from `i` on write, or the first pair that writes none.
pub open spec fn pair_bytes(b: Seq<u8>, i: int) -> Result<Seq<u8>, Seq<char>>
    decreases b.len() - i,
{
    if i + 1 >= b.len() {
        Ok(seq![])
    } else {
        match pair_value(b[i], b[i + 1]) {
            None => Err(
                "invalid hex byte at digit "@ + dec(i as nat) + ": invalid digit found in string"@,
            ),
            Some(v) => match pair_bytes(b, i + 2) {
                Err(m) => Err(m),
                Ok(rest) => Ok(seq![v] + rest),
            },
        }
    }
}

/// The bytes that a text writes.
pub open spec fn hex_bytes(text: Seq<char>) -> Result<Seq<u8>, Seq<char>> {
    let digits = encode_utf8(compact(text));
    if digits.len() % 2 != 0 {
        Err("hex byte content must contain an even number of digits"@)
    } else {
        pair_bytes(digits, 0)
    }
}

/// Reads bytes written as pairs of hexadecimal digits. White space, `,` and `_`
/// may stand between them, and each run of digits may start with `0x`.
pub fn decode_hex(text: &[char]) -> (r: Result<Vec<u8>, Error>)
    ensures
        match r {
            Ok(out) => hex_bytes(text@) == Ok::<Seq<u8>, Seq<char>>(out@),
            Err(e) => hex_bytes(text@) == Err::<Seq<u8>, Seq<char>>(e@),
        },
{
    let digits_text = compacted(text);
    let digits = utf8_of(digits_text.as_str());
    let n: usize = digits.len();
    if n % 2 != 0 {
        return Err(Error::of("hex byte content must contain an even number of digits"));
    }
    let mut out: Vec<u8> = Vec::new();
    let mut i: usize = 0;
    proof {
        match pair_bytes(digits@, 0) {
            Ok(rest) => {
                assert(out@ + rest =~= rest);
            },
            Err(_) => {},
        }
    }
    while i < n
        invariant
            i <= n,
            i % 2 == 0,
            n % 2 == 0,
            n == digits@.len(),
            digits@ == encode_utf8(compact(text@)),
            pair_bytes(digits@, 0) == match pair_bytes(digits@, i as int) {
                Ok(rest) => Ok(out@ + rest),
                Err(m) => Err::<Seq<u8>, Seq<char>>(m),
            },
        decreases n - i,
    {
        match read_pair(digits[i], digits[i + 1]) {
            None => {
                let mut m = owned("invalid hex byte at digit ");
                append_dec(&mut m, i as u64);
                m.append(": invalid digit found in string");
                return Err(Error::new(m));
            },
            Some(v) => {
                proof {
                    match pair_bytes(digits@, i + 2) {
                        Ok(rest) => {
                            assert(out@.push(v) + rest =~= out@ + (seq![v] + rest));
                        },
                        Err(_) => {},
                    }
                }
                out.push(v);
            },
        }
        i = i + 2;
    }
    proof {
        assert(out@ + seq![] =~= out@);
    }
    Ok(out)
}

/// Two upper-case digits for each byte, with blanks between the bytes.
pub open spec fn spaced_hex(b: Seq<u8>) -> Seq<char>
    decreases b.len(),
{
    if b.len() == 0 {
        seq![]
    } else if b.len() == 1 {
        hex2_upper(b[0])
    } else {
        spaced_hex(b.drop_last()) + " "@ + hex2_upper(b.last())
    }
}

pub fn append_spaced_hex(out: &mut String, b: &[u8])
    ensures
        final(out)@ == old(out)@ + spaced_hex(b@),
{
    let mut i: usize = 0;
    proof {
        assert(b@.take(0) =~= seq![]);
        assert(out@ + spaced_hex(b@.take(0)) =~= out@);
    }
    while i < b.len()
        invariant
            i <= b@.len(),
            out@ == old(out)@ + spaced_hex(b@.take(i as int)),
        decreases b@.len() - i,
    {
        let ghost now = b@.take(i + 1);
        let ghost head = spaced_hex(b@.take(i as int));
        proof {
            assert(now.drop_last() =~= b@.take(i as int));
        }
        if i > 0 {
            out.append(" ");
        }
        append_hex2_upper(out, b[i]);
        proof {
            if i > 0 {
                assert(out@ =~= old(out)@ + (head + " "@ + hex2_upper(b@[i as int])));
            } else {
                assert(out@ =~= old(out)@ + hex2_upper(b@[i as int]));
            }
        }
        i = i + 1;
    }
    proof {
        assert(b@.take(b@.len() as int) =~= b@);
    }
}

/// How many bytes a summary of a file shows.
pub const SHOWN_BYTES: usize = 128;

/// The first bytes of a file, and an ellipsis where there are more.
pub open spec fn hex_summary(b: Seq<u8>) -> Seq<char> {
    if b.len() > SHOWN_BYTES {
        spaced_hex(b.take(SHOWN_BYTES as int)) + " ..."@
    } else {
        spaced_hex(b)
    }
}

pub fn bytes_hex(b: &[u8]) -> (r: String)
    ensures
        r@ == hex_summary(b@),
{
    let mut out = String::new();
    if b.len() > SHOWN_BYTES {
        append_spaced_hex(&mut out, slice_subrange(b, 0, SHOWN_BYTES));
        out.append(" ...");
        proof {
            assert(out@ =~= hex_summary(b@));
        }
    } else {
        append_spaced_hex(&mut out, b);
        proof {
            assert(out@ =~= spaced_hex(b@));
        }
    }
    out
}

// ---------------------------------------------------------------------------
// Reading back what was written
// ---------------------------------------------------------------------------
/// Two upper-case digits for each byte, with nothing between the bytes.
spec fn tight_hex(b: Seq<u8>) -> Seq<char>
    decreases b.len(),
{
    if b.len() == 0 {
        seq![]
    } else {
        hex2_upper(b[0]) + tight_hex(b.drop_first())
    }
}

proof fn lemma_hex_pair(v: u8)
    ensures
        ({
            let a = hex_upper((v / 16) as nat);
            let b = hex_upper((v % 16) as nat);
            &&& pair_value(a as u8, b as u8) == Some(v)
            &&& !is_gap(a) && !is_gap(b)
            &&& a as u32 <= 0x7F && b as u32 <= 0x7F
            &&& b != 'x' && b != 'X'
        }),
{
    let high = (v / 16) as nat;
    let low = (v % 16) as nat;
    let a = hex_upper(high);
    let b = hex_upper(low);
    assert(high < 16 && low < 16 && high * 16 + low == v);
    assert(high < 10 ==> a as int == 48 + high);
    assert(high >= 10 ==> a as int == 55 + high);
    assert(low < 10 ==> b as int == 48 + low);
    assert(low >= 10 ==> b as int == 55 + low);
    assert((a as u8) as char == a && (b as u8) as char == b);
    assert(hex_value(a) == Some(high) && hex_value(b) == Some(low));
}

proof fn lemma_gap_behind_pair(s: Seq<char>)
    requires
        s.len() >= 2,
        !is_gap(s[0]),
        !is_gap(s[1]),
        s.len() == 2 || is_gap(s[2]),
    ensures
        gap_index(s) == 2,
{
    let one = s.drop_first();
    let two = one.drop_first();
    assert(one[0] == s[1]);
    assert(gap_index(two) == 0) by {
        if s.len() > 2 {
            assert(two[0] == s[2]);
        }
    }
    assert(gap_index(one) == 1);
}

proof fn lemma_spaced_front(b: Seq<u8>)
    requires
        b.len() >= 2,
    ensures
        spaced_hex(b) == hex2_upper(b[0]) + " "@ + spaced_hex(b.drop_first()),
    decreases b.len(),
{
    let init = b.drop_last();
    let tail = b.drop_first();
    if b.len() == 2 {
        assert(init[0] == b[0] && tail[0] == b.last());
        assert(spaced_hex(init) == hex2_upper(b[0]));
        assert(spaced_hex(tail) == hex2_upper(b.last()));
    } else {
        lemma_spaced_front(init);
        assert(init.drop_first() =~= tail.drop_last());
        assert(tail.last() == b.last());
        assert(spaced_hex(b) =~= hex2_upper(b[0]) + " "@ + spaced_hex(tail));
    }
}

proof fn lemma_compact_spaced(b: Seq<u8>)
    ensures
        compact(spaced_hex(b)) == tight_hex(b),
    decreases b.len(),
{
    reveal_strlit("0x");
    reveal_strlit("0X");
    reveal_strlit(" ");
    let s = spaced_hex(b);
    if b.len() > 0 {
        let pair = hex2_upper(b[0]);
        lemma_hex_pair(b[0]);
        assert("0x"@[1] == 'x' && "0X"@[1] == 'X');
        assert(pair.take(2) =~= pair);
        assert(without_0x(pair) == pair);
        if b.len() == 1 {
            lemma_gap_behind_pair(s);
            assert(tight_hex(b.drop_first()) =~= seq![]);
        } else {
            lemma_spaced_front(b);
            let rest = spaced_hex(b.drop_first());
            assert(s[0] == pair[0] && s[1] == pair[1] && s[2] == ' ');
            lemma_gap_behind_pair(s);
            assert(s.take(2) =~= pair);
            assert(s.skip(3) =~= rest);
            lemma_compact_spaced(b.drop_first());
        }
    }
}

proof fn lemma_encoded_pair(a: char, b: char, rest: Seq<char>)
    requires
        a as u32 <= 0x7F,
        b as u32 <= 0x7F,
    ensures
        encode_utf8(seq![a, b] + rest) == seq![a as u8, b as u8] + encode_utf8(rest),
{
    let s = seq![a, b] + rest;
    assert(s.drop_first() =~= seq![b] + rest);
    assert((seq![b] + rest).drop_first() =~= rest);
    let x = a as u32;
    let y = b as u32;
    assert((x & 0x7F) as u8 == x as u8) by (bit_vector)
        requires
            x <= 0x7F,
    ;
    assert((y & 0x7F) as u8 == y as u8) by (bit_vector)
        requires
            y <= 0x7F,
    ;
    assert(encode_utf8(seq![b] + rest) == encode_scalar(y) + encode_utf8(rest));
    assert(encode_utf8(s) == encode_scalar(x) + encode_utf8(seq![b] + rest));
    assert(encode_utf8(s) =~= seq![a as u8, b as u8] + encode_utf8(rest));
}

proof fn lemma_tight_bytes(b: Seq<u8>)
    ensures
        encode_utf8(tight_hex(b)).len() == 2 * b.len(),
        forall|k: int|
            #![trigger b[k]]
            0 <= k < b.len() ==> pair_value(
                encode_utf8(tight_hex(b))[2 * k],
                encode_utf8(tight_hex(b))[2 * k + 1],
            ) == Some(b[k]),
    decreases b.len(),
{
    if b.len() > 0 {
        let rest = b.drop_first();
        let one = hex_upper((b[0] / 16) as nat);
        let two = hex_upper((b[0] % 16) as nat);
        lemma_hex_pair(b[0]);
        lemma_tight_bytes(rest);
        lemma_encoded_pair(one, two, tight_hex(rest));
        assert(hex2_upper(b[0]) =~= seq![one, two]);
        let d = encode_utf8(tight_hex(b));
        let e = encode_utf8(tight_hex(rest));
        assert(d =~= seq![one as u8, two as u8] + e);
        assert forall|k: int| #![trigger b[k]] 0 <= k < b.len() implies pair_value(
            d[2 * k],
            d[2 * k + 1],
        ) == Some(b[k]) by {
            if k > 0 {
                assert(rest[k - 1] == b[k]);
                assert(d[2 * k] == e[2 * (k - 1)] && d[2 * k + 1] == e[2 * (k - 1) + 1]);
            }
        }
    }
}

proof fn lemma_pairs_read(b: Seq<u8>, d: Seq<u8>, k: int)
    requires
        0 <= k <= b.len(),
        d.len() == 2 * b.len(),
        forall|k: int|
            #![trigger b[k]]
            0 <= k < b.len() ==> pair_value(d[2 * k], d[2 * k + 1]) == Some(b[k]),
    ensures
        pair_bytes(d, 2 * k) == Ok::<Seq<u8>, Seq<char>>(b.skip(k)),
    decreases b.len() - k,
{
    if k < b.len() {
        lemma_pairs_read(b, d, k + 1);
        assert(pair_value(d[2 * k], d[2 * k + 1]) == Some(b[k]));
        assert(seq![b[k]] + b.skip(k + 1) =~= b.skip(k));
    } else {
        assert(b.skip(k) =~= seq![]);
    }
}

/// Bytes that were written as pairs of digits read back as themselves.
pub proof fn lemma_hex_reads_back(b: Seq<u8>)
    ensures
        hex_bytes(spaced_hex(b)) == Ok::<Seq<u8>, Seq<char>>(b),
{
    lemma_compact_spaced(b);
    lemma_tight_bytes(b);
    lemma_pairs_read(b, encode_utf8(tight_hex(b)), 0);
    assert(b.skip(0) =~= b);
}

proof fn lemma_gap_in_front(a: Seq<char>, rest: Seq<char>)
    ensures
        0 <= gap_index(a) <= a.len(),
        gap_index(a) < a.len() ==> gap_index(a + rest) == gap_index(a),
        gap_index(a) == a.len() && rest.len() > 0 && is_gap(rest[0]) ==> gap_index(a + rest)
            == a.len(),
        gap_index(a) == a.len() && rest.len() == 0 ==> gap_index(a + rest) == a.len(),
    decreases a.len(),
{
    if a.len() == 0 {
        assert(a + rest =~= rest);
    } else {
        lemma_gap_in_front(a.drop_first(), rest);
        assert((a + rest).drop_first() =~= a.drop_first() + rest);
    }
}

proof fn lemma_compact_by_parts(a: Seq<char>, gap: char, b: Seq<char>)
    requires
        is_gap(gap),
    ensures
        compact(a + seq![gap] + b) == compact(a) + compact(b),
    decreases a.len(),
{
    let rest = seq![gap] + b;
    let s = a + seq![gap] + b;
    assert(s =~= a + rest);
    lemma_gap_in_front(a, rest);
    let k = gap_index(a);
    if k < a.len() {
        lemma_compact_by_parts(a.skip(k + 1), gap, b);
        assert(s.take(k) =~= a.take(k));
        assert(s.skip(k + 1) =~= a.skip(k + 1) + seq![gap] + b);
        assert(compact(s) =~= compact(a) + compact(b));
    } else {
        assert(s.take(k) =~= a);
        assert(s.skip(k + 1) =~= b);
    }
}

proof fn lemma_encoded_by_parts(a: Seq<char>, b: Seq<char>)
    ensures
        encode_utf8(a + b) == encode_utf8(a) + encode_utf8(b),
    decreases a.len(),
{
    if a.len() == 0 {
        assert(a + b =~= b);
        assert(encode_utf8(a) + encode_utf8(b) =~= encode_utf8(b));
    } else {
        lemma_encoded_by_parts(a.drop_first(), b);
        assert((a + b).drop_first() =~= a.drop_first() + b);
        assert(encode_utf8(a + b) =~= encode_utf8(a) + encode_utf8(b));
    }
}

proof fn lemma_pairs_behind(d: Seq<u8>, e: Seq<u8>, j: int)
    requires
        0 <= j,
        pair_bytes(e, j) is Ok,
    ensures
        pair_bytes(d + e, d.len() + j) == pair_bytes(e, j),
    decreases e.len() - j,
{
    if j + 1 < e.len() {
        lemma_pairs_behind(d, e, j + 2);
    }
}

proof fn lemma_pairs_by_parts(d: Seq<u8>, e: Seq<u8>, i: int)
    requires
        0 <= i <= d.len(),
        (d.len() - i) % 2 == 0,
        pair_bytes(d, i) is Ok,
        pair_bytes(e, 0) is Ok,
    ensures
        pair_bytes(d + e, i) == Ok::<Seq<u8>, Seq<char>>(
            pair_bytes(d, i)->Ok_0 + pair_bytes(e, 0)->Ok_0,
        ),
    decreases d.len() - i,
{
    if i + 1 < d.len() {
        lemma_pairs_by_parts(d, e, i + 2);
        assert(pair_bytes(d + e, i)->Ok_0 =~= pair_bytes(d, i)->Ok_0 + pair_bytes(e, 0)->Ok_0);
    } else {
        lemma_pairs_behind(d, e, 0);
        assert(pair_bytes(d, i)->Ok_0 + pair_bytes(e, 0)->Ok_0 =~= pair_bytes(e, 0)->Ok_0);
    }
}

/// Digits with a gap between them are the bytes of those before it and then the bytes of
/// those behind it.
pub proof fn lemma_bytes_by_parts(a: Seq<char>, gap: char, b: Seq<char>)
    requires
        is_space(gap) || gap == ',' || gap == '_',
        hex_bytes(a) is Ok,
        hex_bytes(b) is Ok,
    ensures
        hex_bytes(a + seq![gap] + b) == Ok::<Seq<u8>, Seq<char>>(
            hex_bytes(a)->Ok_0 + hex_bytes(b)->Ok_0,
        ),
{
    lemma_compact_by_parts(a, gap, b);
    lemma_encoded_by_parts(compact(a), compact(b));
    lemma_pairs_by_parts(encode_utf8(compact(a)), encode_utf8(compact(b)), 0);
}

/// Two digits of either case are one byte, whether `0x` stands before them or not.
pub proof fn lemma_two_digits_are_a_byte(v: u8, high: char, low: char)
    requires
        hex_value(high) == Some((v / 16) as nat),
        hex_value(low) == Some((v % 16) as nat),
    ensures
        hex_bytes(seq![high, low]) == Ok::<Seq<u8>, Seq<char>>(seq![v]),
        hex_bytes(seq!['0', 'x', high, low]) == Ok::<Seq<u8>, Seq<char>>(seq![v]),
        hex_bytes(seq!['0', 'X', high, low]) == Ok::<Seq<u8>, Seq<char>>(seq![v]),
{
    lemma_lone_pair(high, low);
    assert(hex_bytes(seq![high, low])->Ok_0 =~= seq![v]);
    lemma_marked_pair('x', high, low);
    lemma_marked_pair('X', high, low);
}

proof fn lemma_no_gap(s: Seq<char>)
    requires
        forall|i: int| 0 <= i < s.len() ==> !is_gap(#[trigger] s[i]),
    ensures
        gap_index(s) == s.len(),
    decreases s.len(),
{
    if s.len() > 0 {
        lemma_no_gap(s.drop_first());
    }
}

proof fn lemma_lone_pair(high: char, low: char)
    requires
        high as u32 <= 0x7F,
        low as u32 <= 0x7F,
        !is_gap(high),
        !is_gap(low),
        low != 'x',
        low != 'X',
    ensures
        compact(seq![high, low]) == seq![high, low],
        hex_bytes(seq![high, low]) is Ok <==> pair_value(high as u8, low as u8) is Some,
        pair_value(high as u8, low as u8) matches Some(v) ==> hex_bytes(seq![high, low]) == Ok::<
            Seq<u8>,
            Seq<char>,
        >(seq![v]),
{
    reveal_strlit("0x");
    reveal_strlit("0X");
    let s = seq![high, low];
    let no = Seq::<char>::empty();
    lemma_no_gap(s);
    assert(s.take(2) =~= s);
    assert(s[1] == low && "0x"@[1] == 'x' && "0X"@[1] == 'X');
    lemma_encoded_pair(high, low, no);
    assert(s + no =~= s);
    assert(encode_utf8(no) =~= seq![]);
    let d = encode_utf8(s);
    assert(d =~= seq![high as u8, low as u8]);
    assert(pair_bytes(d, 2) == Ok::<Seq<u8>, Seq<char>>(seq![]));
    if let Some(v) = pair_value(high as u8, low as u8) {
        assert(seq![v] + Seq::<u8>::empty() =~= seq![v]);
    }
}

proof fn lemma_marked_pair(mark: char, high: char, low: char)
    requires
        mark == 'x' || mark == 'X',
        hex_value(high) is Some,
        hex_value(low) is Some,
    ensures
        hex_bytes(seq!['0', mark, high, low]) == hex_bytes(seq![high, low]),
{
    reveal_strlit("0x");
    reveal_strlit("0X");
    let s = seq!['0', mark, high, low];
    lemma_no_gap(s);
    assert(s.take(2) =~= seq!['0', mark]);
    assert("0x"@ =~= seq!['0', 'x']);
    assert("0X"@ =~= seq!['0', 'X']);
    assert(s.skip(2) =~= seq![high, low]);
    lemma_lone_pair(high, low);
}

/// Two characters are no byte unless both are digits, or a `+` stands before the second.
pub proof fn lemma_no_digits_no_byte(high: char, low: char)
    requires
        high as u32 <= 0x7F,
        low as u32 <= 0x7F,
        !is_gap(high),
        !is_gap(low),
        low != 'x',
        low != 'X',
        hex_value(low) is None || (hex_value(high) is None && high != '+'),
    ensures
        hex_bytes(seq![high, low]) is Err,
{
    lemma_lone_pair(high, low);
}

} // verus!
