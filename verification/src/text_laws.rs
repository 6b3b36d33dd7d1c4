//! What holds of splitting, trimming and rendering text.

use crate::text;
use vstd::prelude::*;

verus! {

/// Parts with a separator between each two.
pub open spec fn joined<A>(parts: Seq<Seq<A>>, sep: A) -> Seq<A>
    decreases parts.len(),
{
    if parts.len() == 0 {
        Seq::empty()
    } else if parts.len() == 1 {
        parts[0]
    } else {
        joined(parts.drop_last(), sep).push(sep) + parts.last()
    }
}

/// Splitting undoes joining: whatever parts are put together, as long as none of them holds the
/// separator, come apart again as they were.
pub proof fn law_split_undoes_join<A>(parts: Seq<Seq<A>>, sep: A)
    requires
        parts.len() > 0,
        forall|i: int| 0 <= i < parts.len() ==> !(#[trigger] parts[i]).contains(sep),
    ensures
        text::split(joined(parts, sep), sep) == parts,
    decreases parts.len(),
{
    if parts.len() == 1 {
        lemma_one_piece(parts[0], sep);
        assert(parts =~= seq![parts[0]]);
    } else {
        let front = parts.drop_last();
        assert forall|i: int| 0 <= i < front.len() implies !(#[trigger] front[i]).contains(
            sep,
        ) by {
            assert(front[i] == parts[i]);
        }
        law_split_undoes_join(front, sep);
        assert(!parts[parts.len() - 1].contains(sep));
        lemma_one_piece(parts.last(), sep);
        text::lemma_split_concat(joined(front, sep), sep, parts.last());
        assert(front + seq![parts.last()] =~= parts);
    }
}

/// Joining undoes splitting, and no piece holds the separator.
pub proof fn law_join_undoes_split<A>(s: Seq<A>, sep: A)
    ensures
        text::split(s, sep).len() > 0,
        joined(text::split(s, sep), sep) == s,
        forall|i: int|
            0 <= i < text::split(s, sep).len() ==> !(#[trigger] text::split(s, sep)[i]).contains(
                sep,
            ),
    decreases s.len(),
{
    let pieces = text::split(s, sep);
    if s.len() == 0 {
        assert(pieces =~= seq![Seq::empty()]);
        assert(joined(pieces, sep) =~= s);
    } else {
        let front = s.drop_last();
        let before = text::split(front, sep);
        law_join_undoes_split(front, sep);
        assert(front.push(s.last()) =~= s);
        if s.last() == sep {
            assert(pieces.drop_last() =~= before);
            assert(joined(pieces, sep) =~= s);
            assert forall|i: int| 0 <= i < pieces.len() implies !(#[trigger] pieces[i]).contains(
                sep,
            ) by {
                if i < before.len() {
                    assert(pieces[i] == before[i]);
                }
            }
        } else {
            assert(pieces.drop_last() =~= before.drop_last());
            assert(joined(pieces, sep) =~= s) by {
                if before.len() > 1 {
                    assert(joined(before, sep) =~= joined(before.drop_last(), sep).push(sep)
                        + before.last());
                }
            }
            assert forall|i: int| 0 <= i < pieces.len() implies !(#[trigger] pieces[i]).contains(
                sep,
            ) by {
                assert(!before[i].contains(sep));
                if i == pieces.len() - 1 {
                    assert(pieces[i] == before[i].push(s.last()));
                    if pieces[i].contains(sep) {
                        let k = choose|k: int| 0 <= k < pieces[i].len() && pieces[i][k] == sep;
                        assert(before[i][k] == sep);
                    }
                }
            }
        }
    }
}

pub proof fn lemma_one_piece<A>(s: Seq<A>, sep: A)
    requires
        !s.contains(sep),
    ensures
        text::split(s, sep) == seq![s],
{
    let none = Seq::<A>::empty();
    assert(text::split(none, sep) =~= seq![none]);
    text::lemma_split_extend(none, s, sep);
    assert(none + s =~= s);
    assert(text::split(s, sep) =~= seq![s]);
}

/// The first separator divides a text into what was put on its two sides; without one there is
/// nothing to divide.
pub proof fn law_split_once_divides_at_the_first<A>(left: Seq<A>, sep: A, right: Seq<A>)
    requires
        !left.contains(sep),
    ensures
        text::split_once(left.push(sep) + right, sep) == Some((left, right)),
        text::split_once(left, sep) is None,
{
    let whole = left.push(sep) + right;
    assert forall|j: int| 0 <= j < left.len() implies whole[j] != sep by {
        assert(left.contains(left[j]));
    }
    assert(text::is_first(whole, sep, left.len() as int));
    let i = choose|i: int| text::is_first(whole, sep, i);
    text::lemma_first_unique(whole, sep, i, left.len() as int);
    assert(whole.take(i) =~= left);
    assert(whole.skip(i + 1) =~= right);
    assert forall|j: int| !text::is_first(left, sep, j) by {
        if text::is_first(left, sep, j) {
            assert(left.contains(left[j]));
        }
    }
}

/// Of ASCII, white space is the space and the five controls from tab to carriage return; beyond
/// ASCII it is the Unicode characters of that kind. Nothing else is.
pub proof fn law_white_space(c: char)
    ensures
        (c as int) < 0x80 ==> (text::is_white_space(c) <==> (c as int == 32 || 9 <= c as int
            <= 13)),
        text::is_white_space(c) <==> seq![
            9int, 10, 11, 12, 13, 32, 0x85, 0xa0, 0x1680, 0x2000, 0x2001, 0x2002, 0x2003, 0x2004,
            0x2005, 0x2006, 0x2007, 0x2008, 0x2009, 0x200a, 0x2028, 0x2029, 0x202f, 0x205f, 0x3000,
        ].contains(c as int),
{
    let all = seq![
        9int, 10, 11, 12, 13, 32, 0x85, 0xa0, 0x1680, 0x2000, 0x2001, 0x2002, 0x2003, 0x2004,
        0x2005, 0x2006, 0x2007, 0x2008, 0x2009, 0x200a, 0x2028, 0x2029, 0x202f, 0x205f, 0x3000,
    ];
    assert(all[0] == 9 && all[1] == 10 && all[2] == 11 && all[3] == 12 && all[4] == 13 && all[5]
        == 32 && all[6] == 0x85 && all[7] == 0xa0 && all[8] == 0x1680 && all[9] == 0x2000
        && all[10] == 0x2001 && all[11] == 0x2002 && all[12] == 0x2003 && all[13] == 0x2004
        && all[14] == 0x2005 && all[15] == 0x2006 && all[16] == 0x2007 && all[17] == 0x2008
        && all[18] == 0x2009 && all[19] == 0x200a && all[20] == 0x2028 && all[21] == 0x2029
        && all[22] == 0x202f && all[23] == 0x205f && all[24] == 0x3000);
}

/// Every character is white space.
pub open spec fn all_white(s: Seq<char>) -> bool {
    forall|i: int| 0 <= i < s.len() ==> text::is_white_space(#[trigger] s[i])
}

/// No white space stands at either end.
pub open spec fn no_white_ends(s: Seq<char>) -> bool {
    s.len() > 0 ==> !text::is_white_space(s[0]) && !text::is_white_space(s.last())
}

/// Trimming takes away white space at both ends, all of it and nothing else: whatever white space
/// is put around a text that has none at its ends is gone again.
pub proof fn law_trim_takes_white_ends_only(left: Seq<char>, s: Seq<char>, right: Seq<char>)
    requires
        all_white(left),
        all_white(right),
        no_white_ends(s),
    ensures
        text::trim(left + s + right) == s,
        text::trim(s) == s,
    decreases left.len() + right.len(),
{
    let whole = left + s + right;
    if left.len() > 0 {
        assert(whole[0] == left[0]);
        assert(whole.drop_first() =~= left.drop_first() + s + right);
        assert forall|i: int| 0 <= i < left.drop_first().len() implies text::is_white_space(
            #[trigger] left.drop_first()[i],
        ) by {
            assert(left.drop_first()[i] == left[i + 1]);
        }
        law_trim_takes_white_ends_only(left.drop_first(), s, right);
    } else {
        assert(whole =~= s + right);
        lemma_trim_end(s, right);
        if s.len() == 0 {
            assert(s =~= Seq::empty());
            assert(whole =~= right);
            lemma_trim_start_white(right);
            assert(text::trim(whole) =~= s);
        } else {
            assert(whole[0] == s[0]);
            assert(text::trim_start(whole) == whole);
        }
    }
}

proof fn lemma_trim_end(s: Seq<char>, right: Seq<char>)
    requires
        all_white(right),
        no_white_ends(s),
    ensures
        text::trim_end(s + right) == s,
        text::trim_end(s) == s,
    decreases right.len(),
{
    if right.len() == 0 {
        assert(s + right =~= s);
    } else {
        let front = right.drop_last();
        assert((s + right).last() == right.last());
        assert(text::is_white_space(right[right.len() - 1]));
        assert((s + right).drop_last() =~= s + front);
        assert forall|i: int| 0 <= i < front.len() implies text::is_white_space(
            #[trigger] front[i],
        ) by {
            assert(front[i] == right[i]);
        }
        lemma_trim_end(s, front);
    }
}

proof fn lemma_trim_start_white(s: Seq<char>)
    requires
        all_white(s),
    ensures
        text::trim_start(s).len() == 0,
    decreases s.len(),
{
    if s.len() > 0 {
        let rest = s.drop_first();
        assert forall|i: int| 0 <= i < rest.len() implies text::is_white_space(
            #[trigger] rest[i],
        ) by {
            assert(rest[i] == s[i + 1]);
        }
        lemma_trim_start_white(rest);
    }
}

/// A text is what trimming leaves of it with white space around: nothing is invented or changed.
pub proof fn law_trim_leaves_the_middle(s: Seq<char>) -> (ends: (Seq<char>, Seq<char>))
    ensures
        s == ends.0 + text::trim(s) + ends.1,
        all_white(ends.0),
        all_white(ends.1),
        no_white_ends(text::trim(s)),
    decreases s.len(),
{
    if s.len() > 0 && text::is_white_space(s[0]) {
        let (left, right) = law_trim_leaves_the_middle(s.drop_first());
        let all = seq![s[0]] + left;
        let middle = text::trim(s);
        assert(middle == text::trim(s.drop_first()));
        assert(s =~= seq![s[0]] + (left + middle + right));
        assert(s =~= all + text::trim(s) + right);
        (all, right)
    } else if s.len() > 0 && text::is_white_space(s.last()) {
        let front = s.drop_last();
        let (left, right) = law_trim_leaves_the_middle(front);
        if front.len() > 0 {
            assert(front[0] == s[0]);
            assert(text::trim_start(front) == front);
        } else {
            assert(s[0] == s.last());
        }
        let all = right.push(s.last());
        let middle = text::trim(s);
        assert(text::trim_start(s) == s);
        assert(middle == text::trim(front));
        assert(s =~= (left + middle + right).push(s.last()));
        assert(s =~= left + text::trim(s) + all);
        (left, all)
    } else {
        assert(text::trim(s) == s);
        let none = Seq::<char>::empty();
        assert(s =~= none + s + none);
        (none, none)
    }
}

/// Bytes are read as text exactly where each is a printable ASCII character or a tab, and then as
/// the characters with these codes, however many there are.
pub proof fn law_visible_bytes_are_their_text(bytes: Seq<u8>)
    ensures
        text::visible_text(bytes) is Some <==> forall|i: int|
            0 <= i < bytes.len() ==> 0x20 <= #[trigger] bytes[i] <= 0x7e || bytes[i] == 0x09,
        text::visible_text(bytes) matches Some(t) ==> t.len() == bytes.len() && forall|i: int|
            0 <= i < bytes.len() ==> (#[trigger] t[i]) as int == bytes[i],
{
    if forall|i: int|
        0 <= i < bytes.len() ==> 0x20 <= #[trigger] bytes[i] <= 0x7e || bytes[i] == 0x09 {
        assert(forall|i: int| 0 <= i < bytes.len() ==> text::is_visible(#[trigger] bytes[i]));
    }
    if text::visible_text(bytes) is Some {
        assert forall|i: int| 0 <= i < bytes.len() implies 0x20 <= #[trigger] bytes[i] <= 0x7e
            || bytes[i] == 0x09 by {
            assert(text::is_visible(bytes[i]));
        }
    }
}

/// The number that decimal digits write.
pub open spec fn read_back(digits: Seq<char>) -> int
    decreases digits.len(),
{
    if digits.len() == 0 {
        0
    } else {
        read_back(digits.drop_last()) * 10 + (digits.last() as int - 0x30)
    }
}

/// A number in decimal is digits only, without a leading zero, and reads back as the number.
pub proof fn law_decimal_reads_back(n: nat)
    ensures
        read_back(text::decimal(n)) == n,
        text::decimal(n).len() > 0,
        forall|i: int|
            0 <= i < text::decimal(n).len() ==> 0x30 <= (#[trigger] text::decimal(n)[i]) as int
                <= 0x39,
        text::decimal(n).len() > 1 ==> text::decimal(n)[0] as int != 0x30,
        n < 10 <==> text::decimal(n).len() == 1,
    decreases n,
{
    let digits = text::decimal(n);
    if n >= 10 {
        let front = text::decimal(n / 10);
        law_decimal_reads_back(n / 10);
        assert(digits.drop_last() =~= front);
        assert(digits[0] == front[0]);
        if front.len() == 1 {
            reveal_with_fuel(read_back, 2);
            assert(front.drop_last().len() == 0);
        }
    } else {
        reveal_with_fuel(read_back, 2);
        assert(digits.drop_last().len() == 0);
    }
}

/// A negative number is the minus sign and the decimal of its magnitude; any other is its decimal.
pub proof fn law_signed_decimal_reads_back(n: int)
    ensures
        n >= 0 ==> read_back(text::signed_decimal(n)) == n && text::signed_decimal(n)[0] != '-',
        n < 0 ==> text::signed_decimal(n).len() > 1 && text::signed_decimal(n)[0] == '-'
            && read_back(text::signed_decimal(n).drop_first()) == -n,
{
    if n >= 0 {
        law_decimal_reads_back(n as nat);
    } else {
        law_decimal_reads_back((-n) as nat);
        assert(text::signed_decimal(n).drop_first() =~= text::decimal((-n) as nat));
    }
}

} // verus!
