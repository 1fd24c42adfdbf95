//! What cutting, trimming and joining texts undo of each other.

use crate::shape::{lines_text, terminated_lines, text_lines};
use crate::text::number::{
    all_digits, dec, digit, digits_value, hex2_lower, hex2_upper, hex8, hex_digits, hex_lower,
    hex_upper, zeros,
};
use crate::text::split::{
    join, lemma_find_char_is, lines, split, strip_cr, strip_crs, trim, trim_end, trim_start,
};
use crate::text::{hex_value, is_digit, is_space};
use vstd::prelude::*;

verus! {

/// Whether a text is made of white space alone.
pub open spec fn is_all_blank(s: Seq<char>) -> bool {
    forall|i: int| 0 <= i < s.len() ==> is_space(#[trigger] s[i])
}

/// Whether a text has white space at neither end.
pub open spec fn has_bare_ends(s: Seq<char>) -> bool {
    s.len() > 0 ==> !is_space(s[0]) && !is_space(s.last())
}

/// Blanks in front of a text that starts with none are what trimming its start takes.
pub proof fn lemma_trim_start_takes(blanks: Seq<char>, s: Seq<char>)
    requires
        is_all_blank(blanks),
        s.len() > 0 ==> !is_space(s[0]),
    ensures
        trim_start(blanks + s) == s,
    decreases blanks.len(),
{
    if blanks.len() > 0 {
        assert(is_space(blanks[0]));
        assert((blanks + s).drop_first() =~= blanks.drop_first() + s);
        assert forall|i: int| 0 <= i < blanks.drop_first().len() implies is_space(
            #[trigger] blanks.drop_first()[i],
        ) by {
            assert(is_space(blanks[i + 1]));
        }
        lemma_trim_start_takes(blanks.drop_first(), s);
    } else {
        assert(blanks + s =~= s);
    }
}

/// Blanks behind a text that ends with none are what trimming its end takes.
pub proof fn lemma_trim_end_takes(s: Seq<char>, blanks: Seq<char>)
    requires
        is_all_blank(blanks),
        s.len() > 0 ==> !is_space(s.last()),
    ensures
        trim_end(s + blanks) == s,
    decreases blanks.len(),
{
    if blanks.len() > 0 {
        assert(is_space(blanks[blanks.len() - 1]));
        assert((s + blanks).drop_last() =~= s + blanks.drop_last());
        assert forall|i: int| 0 <= i < blanks.drop_last().len() implies is_space(
            #[trigger] blanks.drop_last()[i],
        ) by {
            assert(is_space(blanks[i]));
        }
        lemma_trim_end_takes(s, blanks.drop_last());
    } else {
        assert(s + blanks =~= s);
    }
}

/// Trimming takes the blanks at both ends and nothing else.
pub proof fn lemma_trim_takes(front: Seq<char>, s: Seq<char>, back: Seq<char>)
    requires
        is_all_blank(front),
        is_all_blank(back),
        has_bare_ends(s),
    ensures
        trim(front + s + back) == s,
{
    if s.len() > 0 {
        assert(front + s + back =~= front + (s + back));
        lemma_trim_start_takes(front, s + back);
        lemma_trim_end_takes(s, back);
    } else {
        let all = front + back;
        assert forall|i: int| 0 <= i < all.len() implies is_space(#[trigger] all[i]) by {
            if i < front.len() {
                assert(is_space(front[i]));
            } else {
                assert(is_space(back[i - front.len()]));
            }
        }
        assert(front + s + back =~= all + s);
        lemma_trim_start_takes(all, s);
        lemma_trim_end_takes(s, seq![]);
        assert(s + Seq::<char>::empty() =~= s);
    }
}

/// A text that does not start with a blank starts as it did once its end is trimmed.
pub proof fn lemma_trim_end_keeps_first(s: Seq<char>)
    requires
        s.len() > 0,
        !is_space(s[0]),
    ensures
        trim_end(s).len() > 0,
        trim_end(s)[0] == s[0],
    decreases s.len(),
{
    if is_space(s.last()) {
        lemma_trim_end_keeps_first(s.drop_last());
    }
}

/// A text in decimal digits has no blank and no sign in it.
pub proof fn lemma_dec_is_digits(n: nat)
    ensures
        dec(n).len() > 0,
        all_digits(dec(n)),
        digits_value(dec(n)) == n,
        has_bare_ends(dec(n)),
        forall|i: int|
            0 <= i < dec(n).len() ==> (#[trigger] dec(n)[i]) != '-' && dec(n)[i] != ',' && dec(n)[i]
                != ':' && dec(n)[i] != '*' && dec(n)[i] != '\n' && dec(n)[i] != '\r'
                && !is_space(dec(n)[i]),
{
    crate::text::number::lemma_dec_reads_back(n, n);
    crate::text::number::lemma_dec_digits(n);
    assert forall|i: int| 0 <= i < dec(n).len() implies (#[trigger] dec(n)[i]) != '-' && dec(n)[i]
        != ',' && dec(n)[i] != ':' && dec(n)[i] != '*' && dec(n)[i] != '\n' && dec(n)[i] != '\r'
        && !is_space(dec(n)[i]) by {
        assert(is_digit(dec(n)[i]));
    }
}

/// Whether a text is one line as files and patches have them: there is no line end in it
/// and no carriage return at its end.
pub open spec fn is_line(s: Seq<char>) -> bool {
    !s.contains('\n') && (s.len() > 0 ==> s.last() != '\r')
}

pub open spec fn are_lines(parts: Seq<Seq<char>>) -> bool {
    forall|i: int| 0 <= i < parts.len() ==> is_line(#[trigger] parts[i])
}

pub open spec fn have_no_line_end(parts: Seq<Seq<char>>) -> bool {
    forall|i: int| 0 <= i < parts.len() ==> !(#[trigger] parts[i]).contains('\n')
}

/// A text that is joined of parts starts with the first of them.
pub proof fn lemma_join_from_front(parts: Seq<Seq<char>>, sep: Seq<char>)
    requires
        parts.len() > 1,
    ensures
        join(parts, sep) == parts[0] + sep + join(parts.drop_first(), sep),
{
    crate::shape::lemma_join_first(parts[0], parts.drop_first(), sep);
    assert(seq![parts[0]] + parts.drop_first() =~= parts);
}

/// Joining is undone by cutting: what was joined with line ends is cut at them.
pub proof fn lemma_split_undoes_join(parts: Seq<Seq<char>>)
    requires
        parts.len() > 0,
        have_no_line_end(parts),
    ensures
        split(join(parts, "\n"@), '\n') == parts,
    decreases parts.len(),
{
    reveal_strlit("\n");
    let s = join(parts, "\n"@);
    let first = parts[0];
    assert(!first.contains('\n'));
    assert forall|i: int| 0 <= i < first.len() implies first[i] != '\n' by {
        assert(first.contains(first[i]));
    }
    if parts.len() == 1 {
        lemma_find_char_is(s, '\n', s.len() as int);
        assert(seq![s] =~= parts);
    } else {
        let rest = parts.drop_first();
        lemma_join_from_front(parts, "\n"@);
        assert forall|i: int| 0 <= i < rest.len() implies !(#[trigger] rest[i]).contains('\n') by {
            assert(rest[i] == parts[i + 1]);
        }
        lemma_split_undoes_join(rest);
        let k = first.len() as int;
        assert(s[k] == '\n');
        lemma_find_char_is(s, '\n', k);
        assert(s.take(k) =~= first);
        assert(s.skip(k + 1) =~= join(rest, "\n"@));
        assert(seq![first] + rest =~= parts);
    }
}

/// The lines of a text are those that it was joined of.
pub proof fn lemma_lines_undo_join(parts: Seq<Seq<char>>)
    requires
        parts.len() > 0,
        are_lines(parts),
        parts.last().len() > 0,
    ensures
        lines(join(parts, "\n"@)) == parts,
    decreases parts.len(),
{
    reveal_strlit("\n");
    let s = join(parts, "\n"@);
    let first = parts[0];
    assert(is_line(first));
    assert forall|i: int| 0 <= i < first.len() implies first[i] != '\n' by {
        assert(first.contains(first[i]));
    }
    if parts.len() == 1 {
        lemma_find_char_is(s, '\n', s.len() as int);
        assert(seq![s] =~= parts);
    } else {
        let rest = parts.drop_first();
        lemma_join_from_front(parts, "\n"@);
        assert forall|i: int| 0 <= i < rest.len() implies is_line(#[trigger] rest[i]) by {
            assert(rest[i] == parts[i + 1]);
        }
        lemma_lines_undo_join(rest);
        let k = first.len() as int;
        assert(s[k] == '\n');
        lemma_find_char_is(s, '\n', k);
        assert(s.take(k) =~= first);
        assert(s.skip(k + 1) =~= join(rest, "\n"@));
        assert(strip_cr(first) == first);
        assert(seq![first] + rest =~= parts);
    }
}

/// The lines of a text that closes each with a line end are those that it was made of.
pub proof fn lemma_lines_undo_closed(parts: Seq<Seq<char>>)
    requires
        parts.len() > 0,
        are_lines(parts),
    ensures
        lines(join(parts, "\n"@) + "\n"@) == parts,
    decreases parts.len(),
{
    reveal_strlit("\n");
    let s = join(parts, "\n"@) + "\n"@;
    let first = parts[0];
    let k = first.len() as int;
    assert(is_line(first));
    assert forall|i: int| 0 <= i < first.len() implies first[i] != '\n' by {
        assert(first.contains(first[i]));
    }
    assert(strip_cr(first) == first);
    if parts.len() == 1 {
        lemma_find_char_is(s, '\n', k);
        assert(s.take(k) =~= first);
        let nothing = s.skip(k + 1);
        assert(nothing.len() == 0);
        assert(lines(nothing) =~= seq![]);
        assert(seq![first] + Seq::<Seq<char>>::empty() =~= parts);
    } else {
        let rest = parts.drop_first();
        lemma_join_from_front(parts, "\n"@);
        assert forall|i: int| 0 <= i < rest.len() implies is_line(#[trigger] rest[i]) by {
            assert(rest[i] == parts[i + 1]);
        }
        lemma_lines_undo_closed(rest);
        assert(s[k] == '\n');
        lemma_find_char_is(s, '\n', k);
        assert(s.take(k) =~= first);
        assert(s.skip(k + 1) =~= join(rest, "\n"@) + "\n"@);
        assert(seq![first] + rest =~= parts);
    }
}

/// The lines of a file are those that it was made of, whether or not a line end closes
/// the last of them.
pub proof fn lemma_file_lines(rows: Seq<Seq<char>>, closed: bool)
    requires
        rows.len() > 0,
        have_no_line_end(rows),
        closed || rows.last().len() > 0,
    ensures
        terminated_lines(lines_text(rows, closed)) == rows,
        rows.len() > 1 || rows[0].len() > 0 ==> text_lines(lines_text(rows, closed)) == rows,
{
    reveal_strlit("\n");
    reveal_strlit("");
    let text = lines_text(rows, closed);
    lemma_split_undoes_join(rows);
    if closed {
        let more = rows.push(seq![]);
        assert(more.drop_last() =~= rows);
        assert(join(more, "\n"@) =~= text);
        assert forall|i: int| 0 <= i < more.len() implies !(#[trigger] more[i]).contains('\n') by {
            if i < rows.len() {
                assert(more[i] == rows[i]);
            }
        }
        lemma_split_undoes_join(more);
        assert(text.drop_last() =~= join(rows, "\n"@));
    } else {
        assert(text =~= join(rows, "\n"@));
        let last = rows.last();
        assert(!rows[rows.len() - 1].contains('\n'));
        assert(last[last.len() - 1] != '\n') by {
            assert(last.contains(last[last.len() - 1]));
        }
        assert(text.last() == last.last());
    }
    if rows.len() > 1 {
        lemma_join_from_front(rows, "\n"@);
    }
}

/// A line that does not end in a carriage return keeps all of itself.
pub proof fn lemma_strip_crs_keeps(s: Seq<char>)
    requires
        s.len() > 0 ==> s.last() != '\r',
    ensures
        strip_crs(s) == s,
{
}

/// The number that hexadecimal digits write.
pub open spec fn hex_number(s: Seq<char>) -> nat
    decreases s.len(),
{
    if s.len() == 0 {
        0
    } else {
        hex_number(s.drop_last()) * 16 + (match hex_value(s.last()) {
            Some(v) => v,
            None => 0,
        })
    }
}

/// The digits of every number stand in the order in which they are counted, and each is
/// read as its place.
pub proof fn lemma_digits_count(n: nat)
    ensures
        n < 10 ==> digit(n) == "0123456789"@[n as int],
        n < 16 ==> hex_upper(n) == "0123456789ABCDEF"@[n as int] && hex_lower(n)
            == "0123456789abcdef"@[n as int],
        n < 16 ==> hex_value("0123456789ABCDEF"@[n as int]) == Some(n) && hex_value(
            "0123456789abcdef"@[n as int],
        ) == Some(n),
{
    reveal_strlit("0123456789");
    reveal_strlit("0123456789ABCDEF");
    reveal_strlit("0123456789abcdef");
}

proof fn lemma_hex_upper_reads(n: nat)
    ensures
        hex_value(hex_upper(n)) == Some(n % 16),
        !is_space(hex_upper(n)),
        hex_upper(n) != '\n',
{
}

/// Two digits write a byte, the higher one first.
pub proof fn lemma_hex2_writes(b: u8)
    ensures
        hex2_upper(b).len() == 2,
        hex_number(hex2_upper(b)) == b,
        hex_value(hex2_upper(b)[0]) == Some((b / 16) as nat),
        hex_value(hex2_upper(b)[1]) == Some((b % 16) as nat),
        hex2_lower(b).len() == 2,
        hex_number(hex2_lower(b)) == b,
{
    lemma_hex_upper_reads((b / 16) as nat);
    lemma_hex_upper_reads((b % 16) as nat);
    assert((b / 16) as nat % 16 == b / 16);
    assert((b % 16) as nat % 16 == b % 16);
    reveal_with_fuel(hex_number, 3);
    let s = hex2_upper(b);
    assert(s.drop_last().drop_last() =~= seq![]);
    assert(s.drop_last().last() == s[0]);
    let t = hex2_lower(b);
    assert(t.drop_last().drop_last() =~= seq![]);
    assert(t.drop_last().last() == t[0]);
    assert(hex_value(t[0]) == Some((b / 16) as nat));
    assert(hex_value(t[1]) == Some((b % 16) as nat));
}

proof fn lemma_hex_digits_write(n: nat)
    ensures
        hex_number(hex_digits(n)) == n,
        hex_digits(n).len() > 0,
        forall|i: int|
            0 <= i < hex_digits(n).len() ==> !is_space(#[trigger] hex_digits(n)[i])
                && hex_digits(n)[i] != '\n',
    decreases n,
{
    lemma_hex_upper_reads(n);
    if n < 16 {
        reveal_with_fuel(hex_number, 2);
        assert(hex_digits(n).drop_last() =~= seq![]);
    } else {
        lemma_hex_digits_write(n / 16);
        lemma_hex_upper_reads(n % 16);
        let front = hex_digits(n / 16);
        assert(hex_digits(n).drop_last() =~= front);
        assert(hex_digits(n).last() == hex_upper(n % 16));
        assert(n == (n / 16) * 16 + n % 16);
        assert forall|i: int| 0 <= i < hex_digits(n).len() implies !is_space(
            #[trigger] hex_digits(n)[i],
        ) && hex_digits(n)[i] != '\n' by {
            if i < front.len() {
                assert(hex_digits(n)[i] == front[i]);
            }
        }
    }
}

proof fn lemma_zeros_in_front(k: int, s: Seq<char>)
    requires
        s.len() > 0,
    ensures
        hex_number(zeros(k) + s) == hex_number(s),
    decreases s.len(),
{
    let whole = zeros(k) + s;
    assert(whole.drop_last() =~= zeros(k) + s.drop_last());
    assert(whole.last() == s.last());
    if s.len() > 1 {
        lemma_zeros_in_front(k, s.drop_last());
    } else {
        assert(s.drop_last() =~= seq![]);
        assert(whole.drop_last() =~= zeros(k));
        lemma_zeros_are_nothing(k);
    }
}

proof fn lemma_zeros_are_nothing(k: int)
    ensures
        hex_number(zeros(k)) == 0,
    decreases k,
{
    if k > 0 {
        lemma_zeros_are_nothing(k - 1);
        assert(zeros(k).drop_last() =~= zeros(k - 1));
        assert(zeros(k).last() == '0');
    }
}

/// The label of an offset is read as the offset, and has eight digits at least.
pub proof fn lemma_hex8_writes(n: nat)
    ensures
        hex_number(hex8(n)) == n,
        hex8(n).len() >= 8,
        forall|i: int|
            0 <= i < hex8(n).len() ==> !is_space(#[trigger] hex8(n)[i]) && hex8(n)[i] != '\n',
{
    lemma_hex_digits_write(n);
    let k = 8 - hex_digits(n).len();
    lemma_zeros_in_front(k, hex_digits(n));
    assert forall|i: int| 0 <= i < hex8(n).len() implies !is_space(#[trigger] hex8(n)[i])
        && hex8(n)[i] != '\n' by {
        if i < zeros(k).len() {
            assert(hex8(n)[i] == '0');
        } else {
            assert(hex8(n)[i] == hex_digits(n)[i - zeros(k).len()]);
        }
    }
}

/// Numbers that are written alike are the same.
pub proof fn lemma_dec_tells_apart(a: nat, b: nat)
    requires
        dec(a) == dec(b),
    ensures
        a == b,
{
    lemma_dec_is_digits(a);
    lemma_dec_is_digits(b);
}

/// A text that is cut at the first place of a character is two texts that are told apart.
pub proof fn lemma_cut_at(a: Seq<char>, c: char, x: Seq<char>, b: Seq<char>, y: Seq<char>)
    requires
        !a.contains(c),
        !b.contains(c),
        a + seq![c] + x == b + seq![c] + y,
    ensures
        a == b,
        x == y,
{
    let (s, t) = (a + seq![c] + x, b + seq![c] + y);
    assert forall|i: int| 0 <= i < a.len() implies s[i] != c by {
        assert(a.contains(a[i]));
    }
    assert forall|i: int| 0 <= i < b.len() implies t[i] != c by {
        assert(b.contains(b[i]));
    }
    lemma_find_char_is(s, c, a.len() as int);
    lemma_find_char_is(t, c, b.len() as int);
    assert(s.take(a.len() as int) =~= a);
    assert(t.take(b.len() as int) =~= b);
    assert(s.skip(a.len() as int + 1) =~= x);
    assert(t.skip(b.len() as int + 1) =~= y);
}

/// Every text has lines but the empty one.
pub proof fn lemma_text_has_lines(s: Seq<char>)
    ensures
        s.len() == 0 ==> lines(s) == Seq::<Seq<char>>::empty(),
        s.len() > 0 ==> lines(s).len() > 0,
{
}

} // verus!
