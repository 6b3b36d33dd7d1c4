//! Plain text: splitting, trimming, decimal rendering and the visible-ASCII rule of header values.

use vstd::prelude::*;
use vstd::slice::slice_subrange;

verus! {

/// The pieces of `s` between occurrences of `sep`. There is always at least one piece, and the
/// pieces joined by `sep` give `s` back.
pub open spec fn split<A>(s: Seq<A>, sep: A) -> Seq<Seq<A>>
    decreases s.len(),
{
    if s.len() == 0 {
        seq![Seq::empty()]
    } else {
        let init = split(s.drop_last(), sep);
        if s.last() == sep {
            init.push(Seq::empty())
        } else {
            init.drop_last().push(init.last().push(s.last()))
        }
    }
}

/// The texts that a list of character vectors holds.
pub open spec fn texts(pieces: Seq<Vec<char>>) -> Seq<Seq<char>> {
    pieces.map_values(|piece: Vec<char>| piece@)
}

/// `i` is where `x` stands first in `s`.
pub open spec fn is_first<A>(s: Seq<A>, x: A, i: int) -> bool {
    &&& 0 <= i < s.len()
    &&& s[i] == x
    &&& forall|j: int| 0 <= j < i ==> s[j] != x
}

/// What stands before and after the first `x` of `s`; `None` where `s` holds no `x`.
pub open spec fn split_once<A>(s: Seq<A>, x: A) -> Option<(Seq<A>, Seq<A>)> {
    if exists|i: int| is_first(s, x, i) {
        let i = choose|i: int| is_first(s, x, i);
        Some((s.take(i), s.skip(i + 1)))
    } else {
        None
    }
}

/// The Unicode property `White_Space`, which decides what trimming removes.
pub open spec fn is_white_space(c: char) -> bool {
    ||| '\u{9}' <= c <= '\u{d}'
    ||| c == ' '
    ||| c == '\u{85}'
    ||| c == '\u{a0}'
    ||| c == '\u{1680}'
    ||| '\u{2000}' <= c <= '\u{200a}'
    ||| c == '\u{2028}'
    ||| c == '\u{2029}'
    ||| c == '\u{202f}'
    ||| c == '\u{205f}'
    ||| c == '\u{3000}'
}

/// `s` without its leading white space.
pub open spec fn trim_start(s: Seq<char>) -> Seq<char>
    decreases s.len(),
{
    if s.len() > 0 && is_white_space(s[0]) {
        trim_start(s.drop_first())
    } else {
        s
    }
}

/// `s` without its trailing white space.
pub open spec fn trim_end(s: Seq<char>) -> Seq<char>
    decreases s.len(),
{
    if s.len() > 0 && is_white_space(s.last()) {
        trim_end(s.drop_last())
    } else {
        s
    }
}

/// `s` without leading and trailing white space.
pub open spec fn trim(s: Seq<char>) -> Seq<char> {
    trim_end(trim_start(s))
}

/// A byte that a header value may hold and still be read as text: printable ASCII or a tab.
pub open spec fn is_visible(b: u8) -> bool {
    32 <= b < 127 || b == 9
}

/// The text of a header value; `None` where a byte of it is not visible ASCII.
pub open spec fn visible_text(bytes: Seq<u8>) -> Option<Seq<char>> {
    if forall|i: int| 0 <= i < bytes.len() ==> is_visible(#[trigger] bytes[i]) {
        Some(bytes.map_values(|b: u8| b as char))
    } else {
        None
    }
}

/// The decimal digit `d`.
pub open spec fn digit_char(d: int) -> char {
    (d + 48) as char
}

/// `n` in decimal, without leading zeros.
pub open spec fn decimal(n: nat) -> Seq<char>
    decreases n,
{
    if n < 10 {
        seq![digit_char(n as int)]
    } else {
        decimal(n / 10).push(digit_char((n % 10) as int))
    }
}

/// `n` in decimal, with a minus sign where it is negative.
pub open spec fn signed_decimal(n: int) -> Seq<char> {
    if n < 0 {
        seq!['-'] + decimal((-n) as nat)
    } else {
        decimal(n as nat)
    }
}

/// A separator splits its two sides apart: the pieces are those of the left side followed by
/// those of the right side.
pub proof fn lemma_split_concat<A>(a: Seq<A>, sep: A, b: Seq<A>)
    ensures
        split(a.push(sep) + b, sep) == split(a, sep) + split(b, sep),
    decreases b.len(),
{
    lemma_split_nonempty(a, sep);
    if b.len() == 0 {
        assert(a.push(sep) + b =~= a.push(sep));
        assert(a.push(sep).drop_last() =~= a);
        assert(split(a.push(sep), sep) =~= split(a, sep).push(Seq::empty()));
        assert(split(a, sep) + split(b, sep) =~= split(a, sep).push(Seq::empty()));
    } else {
        let whole = a.push(sep) + b;
        assert(whole.drop_last() =~= a.push(sep) + b.drop_last());
        lemma_split_concat(a, sep, b.drop_last());
        lemma_split_nonempty(b.drop_last(), sep);
        assert(split(whole, sep) =~= split(a, sep) + split(b, sep));
    }
}

pub proof fn lemma_split_nonempty<A>(s: Seq<A>, sep: A)
    ensures
        split(s, sep).len() > 0,
    decreases s.len(),
{
    if s.len() > 0 {
        lemma_split_nonempty(s.drop_last(), sep);
    }
}

/// Text without a separator goes to the last piece.
pub proof fn lemma_split_extend<A>(s: Seq<A>, t: Seq<A>, sep: A)
    requires
        !t.contains(sep),
    ensures
        split(s + t, sep) == split(s, sep).drop_last().push(
            split(s, sep).last() + t,
        ),
    decreases t.len(),
{
    lemma_split_nonempty(s, sep);
    if t.len() == 0 {
        assert(s + t =~= s);
        assert(split(s, sep).last() + t =~= split(s, sep).last());
        assert(split(s, sep) =~= split(s, sep).drop_last().push(
            split(s, sep).last(),
        ));
    } else {
        let front = t.drop_last();
        assert forall|x: A| front.contains(x) implies t.contains(x) by {
            let i = choose|i: int| 0 <= i < front.len() && front[i] == x;
            assert(t[i] == x);
        }
        lemma_split_extend(s, front, sep);
        assert((s + t).drop_last() =~= s + front);
        assert(t.contains(t.last()));
        assert(split(s, sep).last() + t =~= (split(s, sep).last() + front).push(
            t.last(),
        ));
        assert(split(s + t, sep) =~= split(s, sep).drop_last().push(
            split(s, sep).last() + t,
        ));
    }
}

/// A separator completes the last piece.
pub proof fn lemma_split_complete<A>(s: Seq<A>, sep: A)
    ensures
        split(s.push(sep), sep) == split(s, sep).push(Seq::empty()),
{
    assert(s.push(sep).drop_last() =~= s);
}

/// There is one first place at most.
pub proof fn lemma_first_unique<A>(s: Seq<A>, x: A, i: int, j: int)
    requires
        is_first(s, x, i),
        is_first(s, x, j),
    ensures
        i == j,
{
}

/// The characters of `s`.
pub fn chars_of(s: &str) -> (chars: Vec<char>)
    ensures
        chars@ == s@,
{
    let mut chars: Vec<char> = Vec::new();
    for c in it: s.chars()
        invariant
            it.seq() == s@,
            chars@ == s@.take(it.index() as int),
    {
        chars.push(c);
        assert(s@.take(it.index() + 1) =~= s@.take(it.index() as int).push(c));
    }
    assert(s@.take(s@.len() as int) =~= s@);
    chars
}

/// Whether two texts are the same.
pub fn same_text(a: &str, b: &str) -> (same: bool)
    ensures
        same == (a@ == b@),
{
    a.to_string() == b.to_string()
}

/// Where `x` stands first in `s`.
pub fn find_char(s: &[char], x: char) -> (found: Option<usize>)
    ensures
        match found {
            Some(i) => is_first(s@, x, i as int),
            None => !s@.contains(x),
        },
        found is None ==> split_once(s@, x) is None,
        found matches Some(i) ==> split_once(s@, x) == Some((s@.take(i as int), s@.skip(i + 1))),
{
    for i in 0..s.len()
        invariant
            forall|j: int| 0 <= j < i ==> s@[j] != x,
    {
        if s[i] == x {
            assert(is_first(s@, x, i as int));
            proof {
                let k = choose|k: int| is_first(s@, x, k);
                lemma_first_unique(s@, x, k, i as int);
            }
            return Some(i);
        }
    }
    None
}

/// The pieces of `s` between occurrences of `sep`.
pub fn split_chars(s: &[char], sep: char) -> (pieces: Vec<Vec<char>>)
    ensures
        texts(pieces@) == split(s@, sep),
{
    let mut pieces: Vec<Vec<char>> = Vec::new();
    let mut piece: Vec<char> = Vec::new();
    assert(texts(pieces@).push(piece@) =~= split(s@.take(0), sep));
    for i in 0..s.len()
        invariant
            texts(pieces@).push(piece@) == split(s@.take(i as int), sep),
    {
        let ghost before = texts(pieces@);
        assert(s@.take(i + 1).drop_last() =~= s@.take(i as int));
        if s[i] == sep {
            pieces.push(piece);
            piece = Vec::new();
            assert(texts(pieces@) =~= before.push(pieces@.last()@));
        } else {
            piece.push(s[i]);
            assert(split(s@.take(i as int), sep).drop_last() =~= before);
        }
        assert(texts(pieces@).push(piece@) =~= split(s@.take(i + 1), sep));
    }
    assert(s@.take(s@.len() as int) =~= s@);
    let ghost before = texts(pieces@);
    pieces.push(piece);
    assert(texts(pieces@) =~= before.push(pieces@.last()@));
    pieces
}

/// Whether `c` has the Unicode property `White_Space`.
pub fn white_space(c: char) -> (r: bool)
    ensures
        r == is_white_space(c),
{
    ('\u{9}' <= c && c <= '\u{d}') || c == ' ' || c == '\u{85}' || c == '\u{a0}' || c == '\u{1680}'
        || ('\u{2000}' <= c && c <= '\u{200a}') || c == '\u{2028}' || c == '\u{2029}'
        || c == '\u{202f}' || c == '\u{205f}' || c == '\u{3000}'
}

/// The range that trimming leaves of `s`.
pub fn trim_range(s: &[char]) -> (range: (usize, usize))
    ensures
        range.0 <= range.1 <= s@.len(),
        s@.subrange(range.0 as int, range.1 as int) == trim(s@),
{
    let mut from: usize = 0;
    assert(s@.skip(0) =~= s@);
    while from < s.len() && white_space(s[from])
        invariant
            from <= s@.len(),
            trim_start(s@.skip(from as int)) == trim_start(s@),
        decreases s@.len() - from,
    {
        assert(s@.skip(from as int).drop_first() =~= s@.skip(from + 1));
        from = from + 1;
    }
    let ghost left = s@.skip(from as int);
    assert(trim_start(s@) == left);
    let mut to: usize = s.len();
    assert(s@.subrange(from as int, to as int) =~= left);
    while to > from && white_space(s[to - 1])
        invariant
            from <= to <= s@.len(),
            trim_end(s@.subrange(from as int, to as int)) == trim_end(left),
        decreases to - from,
    {
        assert(s@.subrange(from as int, to as int).drop_last() =~= s@.subrange(
            from as int,
            to - 1,
        ));
        to = to - 1;
    }
    (from, to)
}

/// `s` without leading and trailing white space.
pub fn trim_chars(s: &[char]) -> (trimmed: &[char])
    ensures
        trimmed@ == trim(s@),
{
    let (from, to) = trim_range(s);
    slice_subrange(s, from, to)
}

/// Calls `String::from_utf8`: a string whose UTF-8 encoding is `bytes`, which exists exactly
/// where `bytes` is valid UTF-8.
#[verifier::external_body]
pub(crate) fn string_from_utf8(bytes: Vec<u8>) -> (text: Option<String>)
    ensures
        text is Some == vstd::utf8::valid_utf8(bytes@),
        text matches Some(s) ==> vstd::utf8::encode_utf8(s@) == bytes@,
{
    String::from_utf8(bytes).ok()
}

/// The text of a header value, where all its bytes are visible ASCII.
pub fn text_of_visible(bytes: Vec<u8>) -> (text: Option<String>)
    ensures
        text is Some == (visible_text(bytes@) is Some),
        text matches Some(s) ==> visible_text(bytes@) == Some(s@),
{
    for i in 0..bytes.len()
        invariant
            forall|j: int| 0 <= j < i ==> is_visible(#[trigger] bytes@[j]),
    {
        if !((32 <= bytes[i] && bytes[i] < 127) || bytes[i] == 9) {
            assert(!is_visible(bytes@[i as int]));
            return None;
        }
    }
    proof {
        let chars = bytes@.map_values(|b: u8| b as char);
        assert(vstd::utf8::is_ascii_chars(chars));
        vstd::utf8::is_ascii_chars_encode_utf8(chars);
        assert(vstd::utf8::encode_utf8(chars) =~= bytes@);
        vstd::utf8::encode_utf8_valid_utf8(chars);
        vstd::utf8::encode_utf8_decode_utf8(chars);
        assert forall|s: Seq<char>| vstd::utf8::encode_utf8(s) == bytes@ implies s == chars by {
            vstd::utf8::encode_utf8_decode_utf8(s);
        }
    }
    string_from_utf8(bytes)
}

/// Appends the decimal digit `d`.
fn push_digit(text: &mut String, d: u8)
    requires
        d < 10,
    ensures
        final(text)@ == old(text)@.push(digit_char(d as int)),
{
    let digits = "0123456789";
    proof {
        reveal_strlit("0123456789");
    }
    let one = digits.substring_char(d as usize, d as usize + 1);
    assert(one@ =~= seq![digit_char(d as int)]);
    text.append(one);
    assert(text@ =~= old(text)@.push(digit_char(d as int)));
}

/// `n` in decimal.
pub fn decimal_text(n: u64) -> (text: String)
    ensures
        text@ == decimal(n as nat),
    decreases n,
{
    if n < 10 {
        let mut text = String::new();
        push_digit(&mut text, n as u8);
        assert(text@ =~= seq![digit_char(n as int)]);
        text
    } else {
        let mut text = decimal_text(n / 10);
        push_digit(&mut text, (n % 10) as u8);
        text
    }
}

/// `n` in decimal, with a minus sign where it is negative.
pub fn signed_decimal_text(n: i32) -> (text: String)
    ensures
        text@ == signed_decimal(n as int),
{
    if n < 0 {
        let mut text = "-".to_string();
        proof {
            reveal_strlit("-");
        }
        let magnitude = decimal_text((-(n as i64)) as u64);
        text.append(magnitude.as_str());
        assert(text@ =~= signed_decimal(n as int));
        text
    } else {
        decimal_text(n as u64)
    }
}

} // verus!
