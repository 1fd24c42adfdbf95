//! File hashes and how callers may write them.

use crate::bytes::{append_hex, hex_text};
use crate::error::Error;
use crate::text::laws::{has_bare_ends, is_all_blank, lemma_trim_takes};
use crate::text::split::{after_prefix, starts, trim, trimmed};
use crate::text::number::{hex2_lower, hex_lower};
use crate::text::{
    append_chars, chars_of, hex_digit_value, hex_value, is_space, lower, lower_char, lowered, owned,
};
use vstd::prelude::*;

verus! {

/// The SHA-256 digest of a run of bytes.
pub uninterp spec fn sha256(bytes: Seq<u8>) -> Seq<u8>;

/// `sha2::Sha256::digest`: the digest of the whole input, always 32 bytes.
#[verifier::external_body]
fn sha256_digest(bytes: &[u8]) -> (r: Vec<u8>)
    ensures
        r@ == sha256(bytes@),
        r@.len() == 32,
{
    <sha2::Sha256 as sha2::Digest>::digest(bytes).to_vec()
}

/// A digest of bytes that come bit by bit, kept by `sha2`.
#[verifier::external_body]
pub struct Hasher {
    inner: sha2::Sha256,
}

/// The bytes that a hasher has taken in.
pub uninterp spec fn taken_in(hasher: Hasher) -> Seq<u8>;

/// `sha2::Sha256::new`: a hasher that has taken in nothing.
#[verifier::external_body]
fn new_hasher() -> (r: Hasher)
    ensures
        taken_in(r) == Seq::<u8>::empty(),
{
    Hasher { inner: <sha2::Sha256 as sha2::Digest>::new() }
}

/// `sha2::Sha256::update`: the bytes go behind those that were taken in before.
#[verifier::external_body]
fn update_hasher(hasher: &mut Hasher, bytes: &[u8])
    ensures
        taken_in(*final(hasher)) == taken_in(*old(hasher)) + bytes@,
{
    sha2::Digest::update(&mut hasher.inner, bytes)
}

/// `sha2::Sha256::finalize`: the digest of what was taken in, as `digest` gives it of the
/// whole.
#[verifier::external_body]
fn finish_hasher(hasher: Hasher) -> (r: Vec<u8>)
    ensures
        r@ == sha256(taken_in(hasher)),
        r@.len() == 32,
{
    sha2::Digest::finalize(hasher.inner).to_vec()
}

impl Hasher {
    /// A hasher that has taken in nothing.
    pub fn new() -> (r: Hasher)
        ensures
            taken_in(r) == Seq::<u8>::empty(),
    {
        new_hasher()
    }

    /// Takes in more bytes.
    pub fn add(&mut self, bytes: &[u8])
        ensures
            taken_in(*final(self)) == taken_in(*old(self)) + bytes@,
    {
        update_hasher(self, bytes)
    }

    /// The hash code of what was taken in.
    pub fn hash_code(self) -> (r: String)
        ensures
            r@ == hash_code(taken_in(self)),
            normal_hash(r@) == Some(r@),
    {
        let digest = finish_hasher(self);
        proof {
            lemma_digest_code_is_normal(digest@);
        }
        format_digest(digest.as_slice())
    }
}

/// The hash code of a digest: `sha256:` and its lower-case digits.
pub open spec fn code_of_digest(digest: Seq<u8>) -> Seq<char> {
    "sha256:"@ + hex_text(digest)
}

/// The hash code of a file with these bytes.
pub open spec fn hash_code(bytes: Seq<u8>) -> Seq<char> {
    code_of_digest(sha256(bytes))
}

/// Writes a digest as a hash code.
pub fn format_digest(digest: &[u8]) -> (r: String)
    ensures
        r@ == code_of_digest(digest@),
{
    let mut out = owned("sha256:");
    append_hex(&mut out, digest);
    out
}

/// The hash code of a file with these bytes.
pub fn hash_bytes(bytes: &[u8]) -> (r: String)
    ensures
        r@ == hash_code(bytes@),
        normal_hash(r@) == Some(r@),
{
    let digest = sha256_digest(bytes);
    proof {
        lemma_digest_code_is_normal(digest@);
    }
    format_digest(digest.as_slice())
}

pub open spec fn all_hex(s: Seq<char>) -> bool {
    forall|i: int| 0 <= i < s.len() ==> hex_value(#[trigger] s[i]) is Some
}

/// The digest part of a hash code as a caller wrote it.
pub open spec fn digest_part(value: Seq<char>) -> Seq<char> {
    let t = trim(value);
    if starts(t, "sha256:"@) {
        t.skip("sha256:"@.len() as int)
    } else {
        t
    }
}

/// A hash code in its normal form, where the caller gave all 64 digits of it.
pub open spec fn normal_hash(value: Seq<char>) -> Option<Seq<char>> {
    let digest = digest_part(value);
    if digest.len() == 64 && all_hex(digest) {
        Some("sha256:"@ + lower(digest))
    } else {
        None
    }
}

fn is_all_hex(s: &[char]) -> (r: bool)
    ensures
        r == all_hex(s@),
{
    let mut i: usize = 0;
    while i < s.len()
        invariant
            i <= s@.len(),
            forall|j: int| 0 <= j < i ==> hex_value(#[trigger] s@[j]) is Some,
        decreases s@.len() - i,
    {
        if hex_digit_value(s[i]).is_none() {
            return false;
        }
        i = i + 1;
    }
    true
}

/// Reads a hash code: a full SHA-256 digest of either case, with or without
/// the prefix `sha256:`, with white space round it.
pub fn normalize_hash_code(value: &str) -> (r: Result<String, Error>)
    ensures
        match r {
            Ok(code) => normal_hash(value@) == Some(code@),
            Err(e) => normal_hash(value@) is None && e@
                == "hashCode must be a full SHA-256 digest, optionally prefixed with sha256:"@,
        },
{
    let all = chars_of(value);
    let t = trimmed(all.as_slice());
    let digest = match after_prefix(t, "sha256:") {
        Some(rest) => rest,
        None => t,
    };
    if digest.len() != 64 || !is_all_hex(digest) {
        return Err(
            Error::of("hashCode must be a full SHA-256 digest, optionally prefixed with sha256:"),
        );
    }
    let mut out = owned("sha256:");
    let low = lowered(digest);
    append_chars(&mut out, low.as_slice());
    Ok(out)
}

proof fn lemma_lower_hex(n: nat)
    ensures
        hex_value(hex_lower(n)) is Some,
        lower_char(hex_lower(n)) == hex_lower(n),
        !is_space(hex_lower(n)),
{
    let v = n % 16;
    assert(0 <= v < 16);
    let c = hex_lower(n);
    assert(v < 10 ==> c as int == 48 + v);
    assert(v >= 10 ==> c as int == 87 + v);
}

proof fn lemma_hex_text(b: Seq<u8>)
    ensures
        hex_text(b).len() == 2 * b.len(),
        all_hex(hex_text(b)),
        lower(hex_text(b)) == hex_text(b),
        b.len() > 0 ==> !is_space(hex_text(b).last()),
    decreases b.len(),
{
    if b.len() > 0 {
        lemma_hex_text(b.drop_last());
        let head = hex_text(b.drop_last());
        let tail = hex2_lower(b.last());
        lemma_lower_hex((b.last() / 16) as nat);
        lemma_lower_hex((b.last() % 16) as nat);
        let whole = head + tail;
        assert forall|i: int| 0 <= i < whole.len() implies hex_value(#[trigger] whole[i]) is Some
            && lower_char(whole[i]) == whole[i] by {
            if i < head.len() {
                assert(whole[i] == head[i]);
                assert(lower(head)[i] == head[i]);
            }
        }
        assert(lower(whole) =~= whole);
    }
}

/// Trimming keeps a text that neither starts nor ends with white space.
pub proof fn lemma_trim_kept(s: Seq<char>)
    requires
        s.len() > 0,
        !is_space(s[0]),
        !is_space(s.last()),
    ensures
        trim(s) == s,
{
}

/// The hash code that a digest is written as reads back as itself.
pub proof fn lemma_digest_code_is_normal(digest: Seq<u8>)
    requires
        digest.len() == 32,
    ensures
        normal_hash(code_of_digest(digest)) == Some(code_of_digest(digest)),
{
    reveal_strlit("sha256:");
    lemma_hex_text(digest);
    let code = code_of_digest(digest);
    let prefix = "sha256:"@;
    lemma_trim_kept(code);
    assert(code.take(7) =~= prefix);
    assert(code.skip(7) =~= hex_text(digest));
}

/// Reading a hash code a second time changes nothing.
pub proof fn lemma_normal_hash_idempotent(value: Seq<char>)
    ensures
        match normal_hash(value) {
            Some(code) => normal_hash(code) == Some(code),
            None => true,
        },
{
    reveal_strlit("sha256:");
    let digest = digest_part(value);
    if digest.len() == 64 && all_hex(digest) {
        let low = lower(digest);
        let code = "sha256:"@ + low;
        assert forall|i: int| 0 <= i < low.len() implies hex_value(#[trigger] low[i]) is Some
            && lower_char(low[i]) == low[i] && !is_space(low[i]) by {
            assert(hex_value(digest[i]) is Some);
        }
        lemma_trim_kept(code);
        assert(code.take(7) =~= "sha256:"@);
        assert(code.skip(7) =~= low);
        assert(lower(low) =~= low);
    }
}

/// A hash code is known by its digits: blanks around it, the name before it and the case
/// of its letters do not count. What does not have 64 digits is none.
pub proof fn lemma_hash_is_its_digits(front: Seq<char>, digits: Seq<char>, back: Seq<char>)
    requires
        is_all_blank(front),
        is_all_blank(back),
        digits.len() > 0,
        forall|i: int| 0 <= i < digits.len() ==> hex_value(#[trigger] digits[i]) is Some,
    ensures
        digits.len() == 64 ==> normal_hash(front + digits + back) == Some("sha256:"@ + lower(digits)),
        digits.len() == 64 ==> normal_hash(front + ("sha256:"@ + digits) + back) == Some(
            "sha256:"@ + lower(digits),
        ),
        digits.len() != 64 ==> normal_hash(front + digits + back) is None,
        digits.len() != 64 ==> normal_hash(front + ("sha256:"@ + digits) + back) is None,
{
    reveal_strlit("sha256:");
    let n = digits.len() as int;
    assert(hex_value(digits[0]) is Some);
    assert(hex_value(digits[n - 1]) is Some);
    assert(has_bare_ends(digits));
    lemma_trim_takes(front, digits, back);
    if starts(digits, "sha256:"@) {
        assert(digits.take(7)[0] == digits[0]);
    }
    let named = "sha256:"@ + digits;
    assert(named.last() == digits[n - 1]);
    assert(has_bare_ends(named));
    lemma_trim_takes(front, named, back);
    assert(named.take(7) =~= "sha256:"@);
    assert(named.skip(7) =~= digits);
}

/// What has a character that is no digit is no hash code.
pub proof fn lemma_hash_has_only_digits(value: Seq<char>, i: int)
    requires
        has_bare_ends(value),
        value.len() == 64,
        0 <= i < 64,
        hex_value(value[i]) is None,
    ensures
        normal_hash(value) is None,
        normal_hash("sha256:"@ + value) is None,
{
    reveal_strlit("sha256:");
    let no = Seq::<char>::empty();
    assert(no + value + no =~= value);
    lemma_trim_takes(no, value, no);
    let named = "sha256:"@ + value;
    assert(named.last() == value[63]);
    assert(no + named + no =~= named);
    lemma_trim_takes(no, named, no);
    assert(named.take(7) =~= "sha256:"@);
    assert(named.skip(7) =~= value);
    assert(named.skip(7)[i] == value[i]);
}

/// The digits of a digest: two for each byte, in their order, that write the byte.
pub proof fn lemma_digest_digits(digest: Seq<u8>, i: int)
    requires
        0 <= i < digest.len(),
    ensures
        code_of_digest(digest).len() == 7 + 2 * digest.len(),
        hex_value(code_of_digest(digest)[7 + 2 * i]) == Some((digest[i] / 16) as nat),
        hex_value(code_of_digest(digest)[7 + 2 * i + 1]) == Some((digest[i] % 16) as nat),
    decreases digest.len(),
{
    reveal_strlit("sha256:");
    lemma_hex_text(digest);
    lemma_hex_text(digest.drop_last());
    lemma_hex2_reads(digest[i]);
    if i < digest.len() - 1 {
        lemma_digest_digits(digest.drop_last(), i);
        let before = digest.drop_last();
        assert(code_of_digest(before)[7 + 2 * i] == code_of_digest(digest)[7 + 2 * i]);
        assert(code_of_digest(before)[7 + 2 * i + 1] == code_of_digest(digest)[7 + 2 * i + 1]);
    } else {
        assert(code_of_digest(digest)[7 + 2 * i] == hex2_lower(digest[i])[0]);
        assert(code_of_digest(digest)[7 + 2 * i + 1] == hex2_lower(digest[i])[1]);
    }
}

proof fn lemma_hex2_reads(b: u8)
    ensures
        hex2_lower(b).len() == 2,
        hex_value(hex2_lower(b)[0]) == Some((b / 16) as nat),
        hex_value(hex2_lower(b)[1]) == Some((b % 16) as nat),
{
}

} // verus!
