//! Bytes and the text that they encode.

use crate::text::number::{append_hex2_lower, hex2_lower};
use vstd::prelude::*;
use vstd::utf8::{decode_utf8, encode_utf8, valid_utf8};

verus! {

/// `String::from_utf8`: bytes that are valid UTF-8 become the text that they
/// encode, other bytes are refused.
#[verifier::external_body]
pub(crate) fn text_from_utf8(bytes: Vec<u8>) -> (r: Option<String>)
    ensures
        match r {
            Some(s) => valid_utf8(bytes@) && s@ == decode_utf8(bytes@),
            None => !valid_utf8(bytes@),
        },
{
    String::from_utf8(bytes).ok()
}

/// The text that bytes show, with the replacement character for what is not
/// UTF-8.
pub uninterp spec fn lossy_text(bytes: Seq<u8>) -> Seq<char>;

/// `String::from_utf8_lossy`: valid UTF-8 becomes the text that it encodes; in
/// other bytes each invalid part becomes a replacement character. It is a
/// function of the bytes.
#[verifier::external_body]
pub(crate) fn lossy(bytes: &[u8]) -> (r: String)
    ensures
        r@ == lossy_text(bytes@),
        valid_utf8(bytes@) ==> r@ == decode_utf8(bytes@),
{
    String::from_utf8_lossy(bytes).into_owned()
}

/// What is wrong with bytes that are no UTF-8.
pub uninterp spec fn utf8_complaint(bytes: Seq<u8>) -> Option<Seq<char>>;

/// `std::str::from_utf8`: nothing is wrong with valid UTF-8, and of other bytes
/// the error says in words what is. It is a function of the bytes.
#[verifier::external_body]
pub(crate) fn find_utf8_fault(bytes: &[u8]) -> (r: Option<String>)
    ensures
        (match r {
            Some(s) => Some(s@),
            None => None,
        }) == utf8_complaint(bytes@),
        r is None <==> valid_utf8(bytes@),
{
    std::str::from_utf8(bytes).err().map(|err| err.to_string())
}

/// The UTF-8 encoding of `s`.
pub fn utf8_of(s: &str) -> (r: Vec<u8>)
    ensures
        r@ == encode_utf8(s@),
{
    copied(s.as_bytes())
}

/// A copy of a run of bytes.
pub fn copied(b: &[u8]) -> (r: Vec<u8>)
    ensures
        r@ == b@,
{
    let mut out: Vec<u8> = Vec::new();
    let mut i: usize = 0;
    while i < b.len()
        invariant
            i <= b@.len(),
            out@ == b@.take(i as int),
        decreases b@.len() - i,
    {
        out.push(b[i]);
        i = i + 1;
        proof {
            assert(out@ =~= b@.take(i as int));
        }
    }
    proof {
        assert(b@.take(b@.len() as int) =~= b@);
    }
    out
}

/// Whether `p` stands in `b` at index `i`.
pub open spec fn stands_at(b: Seq<u8>, p: Seq<u8>, i: int) -> bool {
    0 <= i && i + p.len() <= b.len() && b.subrange(i, i + p.len()) == p
}

/// The index of the first place at or behind `i` where `p` stands in `b`.
pub open spec fn find_bytes(b: Seq<u8>, p: Seq<u8>, i: int) -> Option<int>
    decreases b.len() + 1 - i,
{
    if i < 0 || i > b.len() {
        None
    } else if stands_at(b, p, i) {
        Some(i)
    } else {
        find_bytes(b, p, i + 1)
    }
}

/// What stands first stands there, and nowhere before.
pub proof fn lemma_find_bytes(b: Seq<u8>, p: Seq<u8>, i: int)
    requires
        0 <= i,
    ensures
        match find_bytes(b, p, i) {
            Some(k) => i <= k && stands_at(b, p, k) && forall|j: int|
                i <= j < k ==> !#[trigger] stands_at(b, p, j),
            None => forall|j: int| i <= j ==> !#[trigger] stands_at(b, p, j),
        },
    decreases b.len() + 1 - i,
{
    if i <= b.len() && !stands_at(b, p, i) {
        lemma_find_bytes(b, p, i + 1);
    }
}

/// The first place where `p` stands in `b`.
pub fn position_of_bytes(b: &[u8], p: &[u8]) -> (r: Option<usize>)
    ensures
        match r {
            Some(k) => find_bytes(b@, p@, 0) == Some(k as int) && k + p@.len() <= b@.len(),
            None => find_bytes(b@, p@, 0) is None,
        },
{
    let n: usize = b.len();
    let m: usize = p.len();
    let mut i: usize = 0;
    while i < n && m <= n - i
        invariant
            i <= n,
            n == b@.len(),
            m == p@.len(),
            find_bytes(b@, p@, 0) == find_bytes(b@, p@, i as int),
        decreases n - i,
    {
        if same_bytes(vstd::slice::slice_subrange(b, i, i + m), p) {
            return Some(i);
        }
        i = i + 1;
    }
    if i == n && m == 0 {
        proof {
            assert(b@.subrange(n as int, n as int) =~= p@);
        }
        return Some(n);
    }
    proof {
        lemma_find_bytes(b@, p@, i as int);
        if find_bytes(b@, p@, i as int) is Some {
            let k = find_bytes(b@, p@, i as int)->Some_0;
            assert(stands_at(b@, p@, k));
        }
    }
    None
}

/// Whether two runs of bytes are the same.
pub fn same_bytes(a: &[u8], b: &[u8]) -> (r: bool)
    ensures
        r == (a@ == b@),
{
    if a.len() != b.len() {
        return false;
    }
    let mut i: usize = 0;
    while i < a.len()
        invariant
            i <= a@.len(),
            a@.len() == b@.len(),
            forall|k: int| 0 <= k < i ==> a@[k] == b@[k],
        decreases a@.len() - i,
    {
        if a[i] != b[i] {
            assert(a@[i as int] != b@[i as int]);
            return false;
        }
        i = i + 1;
    }
    proof {
        assert(a@ =~= b@);
    }
    true
}

/// Whether `b` starts with `p`.
pub open spec fn starts_bytes(b: Seq<u8>, p: Seq<u8>) -> bool {
    p.len() <= b.len() && b.take(p.len() as int) == p
}

pub fn starts_with_bytes(b: &[u8], p: &[u8]) -> (r: bool)
    ensures
        r == starts_bytes(b@, p@),
{
    if p.len() > b.len() {
        return false;
    }
    let head = vstd::slice::slice_subrange(b, 0, p.len());
    proof {
        assert(head@ =~= b@.take(p@.len() as int));
    }
    same_bytes(head, p)
}

/// The index of the first zero byte, or the length where there is none.
pub open spec fn zero_index(b: Seq<u8>) -> int
    decreases b.len(),
{
    if b.len() == 0 || b[0] == 0 {
        0
    } else {
        1 + zero_index(b.drop_first())
    }
}

/// How far into a file a zero byte marks it as binary.
pub const SNIFFED_BYTES: usize = 4096;

pub open spec fn sniffed(b: Seq<u8>) -> Seq<u8> {
    if b.len() > SNIFFED_BYTES {
        b.take(SNIFFED_BYTES as int)
    } else {
        b
    }
}

/// The offset of the zero byte by which a file counts as binary.
pub open spec fn binary_offset(b: Seq<u8>) -> Option<int> {
    let k = zero_index(sniffed(b));
    if k < sniffed(b).len() {
        Some(k)
    } else {
        None
    }
}

/// The first zero byte among the first bytes of a file, with its offset.
pub fn binary_byte(b: &[u8]) -> (r: Option<(usize, u8)>)
    ensures
        match r {
            Some((k, v)) => binary_offset(b@) == Some(k as int) && v == 0,
            None => binary_offset(b@) is None,
        },
{
    let n: usize = if b.len() > SNIFFED_BYTES {
        SNIFFED_BYTES
    } else {
        b.len()
    };
    let ghost head = sniffed(b@);
    proof {
        assert(head =~= b@.take(n as int));
        assert(head.skip(0) =~= head);
    }
    let mut i: usize = 0;
    while i < n
        invariant
            i <= n <= b@.len(),
            head == b@.take(n as int),
            head == sniffed(b@),
            zero_index(head) == i + zero_index(head.skip(i as int)),
        decreases n - i,
    {
        if b[i] == 0 {
            return Some((i, 0));
        }
        proof {
            assert(head.skip(i as int)[0] == b@[i as int]);
            assert(head.skip(i as int).drop_first() =~= head.skip(i + 1));
        }
        i = i + 1;
    }
    None
}

/// Two lower-case hexadecimal digits for each byte.
pub open spec fn hex_text(b: Seq<u8>) -> Seq<char>
    decreases b.len(),
{
    if b.len() == 0 {
        seq![]
    } else {
        hex_text(b.drop_last()) + hex2_lower(b.last())
    }
}

pub fn append_hex(out: &mut String, b: &[u8])
    ensures
        final(out)@ == old(out)@ + hex_text(b@),
{
    let mut i: usize = 0;
    proof {
        assert(b@.take(0) =~= seq![]);
        assert(out@ + hex_text(b@.take(0)) =~= out@);
    }
    while i < b.len()
        invariant
            i <= b@.len(),
            out@ == old(out)@ + hex_text(b@.take(i as int)),
        decreases b@.len() - i,
    {
        append_hex2_lower(out, b[i]);
        proof {
            let now = b@.take(i + 1);
            assert(now.drop_last() =~= b@.take(i as int));
            assert(out@ =~= old(out)@ + (hex_text(b@.take(i as int)) + hex2_lower(b@[i as int])));
        }
        i = i + 1;
    }
    proof {
        assert(b@.take(b@.len() as int) =~= b@);
    }
}

proof fn lemma_zero_index(b: Seq<u8>)
    ensures
        0 <= zero_index(b) <= b.len(),
        zero_index(b) < b.len() ==> b[zero_index(b)] == 0,
        forall|i: int| 0 <= i < zero_index(b) ==> #[trigger] b[i] != 0,
    decreases b.len(),
{
    if b.len() > 0 && b[0] != 0 {
        let rest = b.drop_first();
        lemma_zero_index(rest);
        assert forall|i: int| 0 <= i < zero_index(b) implies #[trigger] b[i] != 0 by {
            if i > 0 {
                assert(rest[i - 1] == b[i]);
            }
        }
    }
}

/// A file counts as binary if and only if one of its first bytes is zero, and then by
/// the first of them that is.
pub proof fn lemma_binary_by_first_zero(b: Seq<u8>)
    ensures
        match binary_offset(b) {
            Some(k) => 0 <= k < b.len() && k < 4096 && b[k] == 0 && forall|i: int|
                0 <= i < k ==> #[trigger] b[i] != 0,
            None => forall|i: int| 0 <= i < b.len() && i < 4096 ==> #[trigger] b[i] != 0,
        },
{
    let s = sniffed(b);
    lemma_zero_index(s);
    assert forall|i: int| 0 <= i < s.len() implies s[i] == #[trigger] b[i] by {}
}

} // verus!
