//! What holds of the streamed output as a whole.

use crate::lines;
use crate::lines::{OutputLine, NEWLINE};
use crate::text;
use vstd::prelude::*;

verus! {

/// The lines of two parts are streamed apart where a newline stands between them: a line that is
/// too long or no text costs itself only, and what follows it arrives.
pub proof fn law_lines_stand_alone(a: Seq<u8>, b: Seq<u8>, max: nat)
    ensures
        lines::streamed(a.push(NEWLINE) + b, max) == lines::line_texts(
            text::split(a, NEWLINE),
            max,
        ) + lines::streamed(b, max),
        lines::streamed_to_end(a.push(NEWLINE) + b, max) == lines::line_texts(
            text::split(a, NEWLINE),
            max,
        ) + lines::streamed_to_end(b, max),
{
    text::lemma_split_concat(a, NEWLINE, b);
    text::lemma_split_nonempty(b, NEWLINE);
    let left = text::split(a, NEWLINE);
    let right = text::split(b, NEWLINE);
    assert((left + right).last() == right.last());
    assert((left + right).drop_last() =~= left + right.drop_last());
    assert(lines::line_texts(left + right.drop_last(), max) =~= lines::line_texts(left, max)
        + lines::line_texts(right.drop_last(), max));
    assert(lines::streamed(a.push(NEWLINE) + b, max) =~= lines::line_texts(left, max)
        + lines::streamed(b, max));
    assert(lines::streamed_to_end(a.push(NEWLINE) + b, max) =~= lines::line_texts(left, max)
        + lines::streamed_to_end(b, max));
}

proof fn lemma_one_more_byte(bytes: Seq<u8>, byte: u8, max: nat)
    ensures
        lines::streamed(bytes, max).len() <= lines::streamed(bytes.push(byte), max).len(),
        lines::streamed(bytes.push(byte), max).take(lines::streamed(bytes, max).len() as int)
            == lines::streamed(bytes, max),
{
    let before = text::split(bytes, NEWLINE);
    let after = text::split(bytes.push(byte), NEWLINE);
    text::lemma_split_nonempty(bytes, NEWLINE);
    assert(bytes.push(byte).drop_last() =~= bytes);
    if byte != NEWLINE && before.last().len() > max {
        lines::lemma_long_line_text(before.last(), seq![byte], max);
        assert(before.last() + seq![byte] =~= before.last().push(byte));
    }
    if byte == NEWLINE {
        assert(after.drop_last() =~= before);
        assert(lines::line_texts(before, max) =~= lines::line_texts(before.drop_last(), max).push(
            lines::line_text(before.last(), max),
        ));
    } else {
        assert(after.drop_last() =~= before.drop_last());
    }
    assert(lines::streamed(bytes.push(byte), max).take(lines::streamed(bytes, max).len() as int)
        =~= lines::streamed(bytes, max));
}

/// What has been streamed is never taken back: what a process writes later only adds to it. So it
/// does not matter in which portions its output arrives.
pub proof fn law_streamed_only_grows(bytes: Seq<u8>, more: Seq<u8>, max: nat)
    ensures
        lines::streamed(bytes, max).len() <= lines::streamed(bytes + more, max).len(),
        lines::streamed(bytes + more, max).take(lines::streamed(bytes, max).len() as int)
            == lines::streamed(bytes, max),
    decreases more.len(),
{
    let sent = lines::streamed(bytes, max);
    if more.len() == 0 {
        assert(bytes + more =~= bytes);
        assert(sent.take(sent.len() as int) =~= sent);
    } else {
        let front = bytes + more.drop_last();
        law_streamed_only_grows(bytes, more.drop_last(), max);
        lemma_one_more_byte(front, more.last(), max);
        assert(front.push(more.last()) =~= bytes + more);
        let middle = lines::streamed(front, max);
        let all = lines::streamed(bytes + more, max);
        assert(all.take(sent.len() as int) =~= all.take(middle.len() as int).take(
            sent.len() as int,
        ));
    }
}

/// The UTF-8 of a text is no longer than a line may be, or the text stands for bytes that are none.
pub open spec fn is_capped(text: Seq<char>, max: nat) -> bool {
    ||| vstd::utf8::encode_utf8(text).len() <= max
    ||| text == lines::marker("Unable to decode input as UTF8"@)
}

proof fn lemma_line_is_capped(line: Seq<u8>, max: nat)
    ensures
        is_capped(lines::line_text(line, max), max),
{
    let bytes = if line.len() > max {
        lines::whole_chars(line.take(max as int))
    } else {
        lines::chopped(line)
    };
    if vstd::utf8::valid_utf8(bytes) {
        vstd::utf8::decode_utf8_encode_utf8(bytes);
    }
}

/// The last byte before `end` that does not go on with a character.
proof fn lemma_last_start(line: Seq<u8>, end: int) -> (n: int)
    requires
        vstd::utf8::valid_utf8(line),
        0 < end <= line.len(),
    ensures
        0 <= n < end,
        !vstd::utf8::is_continuation_byte(line[n]),
        forall|i: int| n < i < end ==> vstd::utf8::is_continuation_byte(#[trigger] line[i]),
    decreases end,
{
    if vstd::utf8::is_continuation_byte(line[end - 1]) {
        if end == 1 {
            vstd::utf8::is_char_boundary_start_end_of_seq(line);
            vstd::utf8::is_char_boundary_iff_not_is_continuation_byte(line, 0);
        }
        lemma_last_start(line, end - 1)
    } else {
        end - 1
    }
}

/// A character of a text takes as many bytes as its first one says, and a character follows it.
proof fn lemma_char_at(line: Seq<u8>, n: int)
    requires
        vstd::utf8::valid_utf8(line),
        0 <= n < line.len(),
        !vstd::utf8::is_continuation_byte(line[n]),
    ensures
        vstd::utf8::is_char_boundary(line, n),
        1 <= lines::char_width(line[n]) <= line.len() - n,
        forall|i: int|
            n < i < n + lines::char_width(line[n]) ==> vstd::utf8::is_continuation_byte(
                #[trigger] line[i],
            ),
        n + lines::char_width(line[n]) < line.len() ==> !vstd::utf8::is_continuation_byte(
            line[n + lines::char_width(line[n])],
        ),
{
    vstd::utf8::is_char_boundary_iff_not_is_continuation_byte(line, n);
    vstd::utf8::valid_utf8_split(line, n);
    let tail = line.subrange(n, line.len() as int);
    assert(vstd::utf8::valid_utf8(tail));
    assert(vstd::utf8::valid_first_scalar(tail));
    let width = lines::char_width(line[n]);
    assert(tail[0] == line[n]);
    assert forall|i: int| n < i < n + width implies vstd::utf8::is_continuation_byte(
        #[trigger] line[i],
    ) by {
        assert(tail[i - n] == line[i]);
    }
    if n + width < line.len() {
        let rest = vstd::utf8::pop_first_scalar(tail);
        assert(vstd::utf8::valid_utf8(rest));
        assert(rest[0] == line[n + width]);
        vstd::utf8::is_char_boundary_start_end_of_seq(rest);
        vstd::utf8::is_char_boundary_iff_not_is_continuation_byte(rest, 0);
    }
}

/// Truncating a text leaves out less than a character, and ends between two characters.
proof fn lemma_truncated(line: Seq<u8>, max: nat)
    requires
        vstd::utf8::valid_utf8(line),
        line.len() > max,
    ensures
        ({
            let whole = lines::whole_chars(line.take(max as int));
            &&& max - 3 <= whole.len() <= max
            &&& whole == line.take(whole.len() as int)
            &&& vstd::utf8::is_char_boundary(line, whole.len() as int)
        }),
{
    let head = line.take(max as int);
    if exists|n: int| lines::cuts_at(head, n) {
        let n = choose|n: int| lines::cuts_at(head, n);
        assert(head.skip(n)[0] == line[n]);
        vstd::utf8::is_char_boundary_iff_is_leading_byte(line, n);
        assert(head.take(n) =~= line.take(n));
    } else {
        if max > 0 && vstd::utf8::is_continuation_byte(line[max as int]) {
            let n = lemma_last_start(line, max as int);
            lemma_char_at(line, n);
            let width = lines::char_width(line[n]);
            if n + width <= max {
                assert(!vstd::utf8::is_continuation_byte(line[n + width]));
            }
            let tail = head.skip(n);
            assert(tail[0] == line[n]);
            assert forall|i: int| 1 <= i < tail.len() implies vstd::utf8::is_continuation_byte(
                #[trigger] tail[i],
            ) by {
                assert(tail[i] == line[n + i]);
            }
            assert(lines::cuts_at(head, n));
        } else if max > 0 {
            vstd::utf8::is_char_boundary_iff_not_is_continuation_byte(line, max as int);
        } else {
            vstd::utf8::is_char_boundary_start_end_of_seq(line);
        }
    }
}

/// A line of text that is too long is truncated: what is streamed of it is the beginning of its
/// text, as much as fits the maximum length in whole characters.
pub proof fn law_long_line_is_truncated(line: Seq<u8>, max: nat)
    requires
        vstd::utf8::valid_utf8(line),
        line.len() > max,
    ensures
        ({
            let all = vstd::utf8::decode_utf8(line);
            let cut = lines::line_text(line, max);
            &&& cut.len() <= all.len()
            &&& cut == all.take(cut.len() as int)
            &&& max - 3 <= vstd::utf8::encode_utf8(cut).len() <= max
        }),
{
    let whole = lines::whole_chars(line.take(max as int));
    let n = whole.len() as int;
    lemma_truncated(line, max);
    assert(line.subrange(0, n) =~= whole);
    vstd::utf8::valid_utf8_split(line, n);
    vstd::utf8::decode_utf8_split(line, n);
    vstd::utf8::decode_utf8_encode_utf8(whole);
    let cut = lines::line_text(line, max);
    assert(vstd::utf8::decode_utf8(line).take(cut.len() as int) =~= cut);
}

/// No text longer than a line may be is ever streamed; only the marker for bytes that are no text
/// may be longer.
pub proof fn law_streamed_lines_are_capped(bytes: Seq<u8>, max: nat, i: int)
    requires
        0 <= i < lines::streamed_to_end(bytes, max).len(),
    ensures
        is_capped(lines::streamed_to_end(bytes, max)[i], max),
{
    let all = text::split(bytes, NEWLINE);
    text::lemma_split_nonempty(bytes, NEWLINE);
    lemma_line_is_capped(all[i], max);
}

/// The bytes that a process writes to print texts as lines.
pub open spec fn printed(texts: Seq<Seq<char>>) -> Seq<u8>
    decreases texts.len(),
{
    if texts.len() == 0 {
        Seq::empty()
    } else {
        (printed(texts.drop_last()) + vstd::utf8::encode_utf8(texts.last())).push(10u8)
    }
}

/// A text that is one line of no more than the maximum length: its bytes hold no newline, and no
/// carriage return ends them.
pub open spec fn is_short_line(text: Seq<char>, max: nat) -> bool {
    let bytes = vstd::utf8::encode_utf8(text);
    &&& bytes.len() <= max
    &&& !bytes.contains(10u8)
    &&& bytes.len() > 0 ==> bytes.last() != 13
}

/// What a process prints in lines that are not too long is streamed as it was printed, line by
/// line and in order.
pub proof fn law_short_lines_arrive_as_printed(texts: Seq<Seq<char>>, max: nat)
    requires
        forall|i: int| 0 <= i < texts.len() ==> is_short_line(#[trigger] texts[i], max),
    ensures
        lines::streamed(printed(texts), max) == texts,
        lines::streamed_to_end(printed(texts), max) == texts,
    decreases texts.len(),
{
    if texts.len() == 0 {
        assert(text::split(printed(texts), NEWLINE) =~= seq![Seq::empty()]);
        assert(lines::streamed(printed(texts), max) =~= texts);
    } else {
        let front = texts.drop_last();
        assert forall|i: int| 0 <= i < front.len() implies is_short_line(
            #[trigger] front[i],
            max,
        ) by {
            assert(front[i] == texts[i]);
        }
        law_short_lines_arrive_as_printed(front, max);
        let before = printed(front);
        let bytes = vstd::utf8::encode_utf8(texts.last());
        assert(is_short_line(texts[texts.len() - 1], max));
        lemma_printed_ends_line(front);
        let rest = bytes.push(NEWLINE);
        assert(before + rest =~= printed(texts));
        lemma_bytes_are_one_line(bytes);
        vstd::utf8::encode_utf8_valid_utf8(texts.last());
        vstd::utf8::encode_utf8_decode_utf8(texts.last());
        assert(rest =~= bytes.push(NEWLINE) + Seq::<u8>::empty());
        let none = Seq::<u8>::empty();
        assert(text::split(none, NEWLINE) =~= seq![none]);
        assert(lines::streamed(none, max) =~= Seq::empty());
        law_lines_stand_alone(bytes, none, max);
        assert(lines::streamed(rest, max) =~= seq![texts.last()]);
        if front.len() > 0 {
            let head = before.drop_last();
            assert(before =~= head.push(NEWLINE));
            law_lines_stand_alone(head, rest, max);
            law_lines_stand_alone(head, none, max);
            assert(head.push(NEWLINE) + none =~= before);
            assert(lines::line_texts(text::split(head, NEWLINE), max)
                + lines::streamed(none, max) =~= lines::line_texts(
                text::split(head, NEWLINE),
                max,
            ));
        } else {
            assert(before + rest =~= rest);
        }
        assert(lines::streamed(printed(texts), max) =~= front.push(texts.last()));
        assert(front.push(texts.last()) =~= texts);
        assert(text::split(printed(texts), NEWLINE).last().len() == 0) by {
            assert(printed(texts).drop_last() =~= before + bytes);
        }
    }
}

/// What a process has printed in lines that are not too long, and a last one that it has begun.
proof fn lemma_after_printed(texts: Seq<Seq<char>>, rest: Seq<u8>, max: nat)
    requires
        forall|i: int| 0 <= i < texts.len() ==> is_short_line(#[trigger] texts[i], max),
    ensures
        lines::streamed(printed(texts) + rest, max) == texts + lines::streamed(rest, max),
        lines::streamed_to_end(printed(texts) + rest, max) == texts + lines::streamed_to_end(
            rest,
            max,
        ),
{
    let before = printed(texts);
    if texts.len() == 0 {
        assert(before + rest =~= rest);
        assert(texts + lines::streamed(rest, max) =~= lines::streamed(rest, max));
        assert(texts + lines::streamed_to_end(rest, max) =~= lines::streamed_to_end(rest, max));
    } else {
        law_short_lines_arrive_as_printed(texts, max);
        lemma_printed_ends_line(texts);
        let head = before.drop_last();
        let none = Seq::<u8>::empty();
        assert(before =~= head.push(NEWLINE));
        assert(before =~= head.push(NEWLINE) + none);
        law_lines_stand_alone(head, none, max);
        law_lines_stand_alone(head, rest, max);
        assert(text::split(none, NEWLINE) =~= seq![none]);
        assert(lines::streamed(none, max) =~= Seq::empty());
        assert(lines::line_texts(text::split(head, NEWLINE), max) =~= texts);
    }
}

/// A last line that the process has not ended arrives when the output is closed, as it was
/// printed: whatever its text is, and however long, as long as a line may be.
pub proof fn law_unterminated_last_line_arrives(
    texts: Seq<Seq<char>>,
    last: Seq<char>,
    max: nat,
)
    requires
        forall|i: int| 0 <= i < texts.len() ==> is_short_line(#[trigger] texts[i], max),
        is_short_line(last, max),
        last.len() > 0,
    ensures
        lines::streamed(printed(texts) + vstd::utf8::encode_utf8(last), max) == texts,
        lines::streamed_to_end(printed(texts) + vstd::utf8::encode_utf8(last), max) == texts.push(
            last,
        ),
{
    let bytes = vstd::utf8::encode_utf8(last);
    lemma_after_printed(texts, bytes, max);
    lemma_bytes_are_one_line(bytes);
    vstd::utf8::encode_utf8_valid_utf8(last);
    vstd::utf8::encode_utf8_decode_utf8(last);
    if bytes.len() == 0 {
        assert(vstd::utf8::decode_utf8(bytes).len() == 0);
    }
    assert(lines::streamed(bytes, max) =~= Seq::empty());
    assert(texts + lines::streamed(bytes, max) =~= texts);
    if bytes == seq![13u8] {
        assert(bytes.last() == 13);
    }
    assert(lines::streamed_to_end(bytes, max) =~= seq![last]);
    assert(texts + seq![last] =~= texts.push(last));
}

/// Closing the output ends the line that has begun, as a newline would; where none has begun, or
/// only a carriage return has come, it adds nothing.
pub proof fn law_closing_ends_the_last_line(before: Seq<u8>, rest: Seq<u8>, max: nat)
    requires
        before.len() > 0 ==> before.last() == 10,
        !rest.contains(10u8),
    ensures
        rest.len() > 0 && rest != seq![13u8] ==> lines::streamed_to_end(before + rest, max)
            == lines::streamed((before + rest).push(10u8), max),
        rest.len() == 0 || rest == seq![13u8] ==> lines::streamed_to_end(before + rest, max)
            == lines::streamed(before + rest, max),
{
    let whole = before + rest;
    let lines_of = text::split(whole, NEWLINE);
    text::lemma_split_nonempty(before, NEWLINE);
    text::lemma_split_extend(before, rest, NEWLINE);
    if before.len() > 0 {
        assert(before.drop_last().push(NEWLINE) =~= before);
        text::lemma_split_complete(before.drop_last(), NEWLINE);
    }
    assert(text::split(before, NEWLINE).last() =~= Seq::empty());
    assert(lines_of.last() =~= rest);
    text::lemma_split_complete(whole, NEWLINE);
    let ended = text::split(whole.push(NEWLINE), NEWLINE);
    assert(ended.drop_last() =~= lines_of);
    assert(lines::line_texts(lines_of, max) =~= lines::line_texts(lines_of.drop_last(), max).push(
        lines::line_text(rest, max),
    ));
}

/// A line goes out when it is ended, and before that only where it is already too long.
pub proof fn law_line_goes_out_when_it_is_ended(line: Seq<u8>, max: nat)
    requires
        !line.contains(10u8),
    ensures
        lines::streamed(line.push(10u8), max).len() == 1,
        line.len() <= max ==> lines::streamed(line, max).len() == 0,
        line.len() > max ==> lines::streamed(line, max) == lines::streamed(line.push(10u8), max),
{
    lemma_bytes_are_one_line(line);
    lemma_one_ended_line(line, max);
    assert(lines::line_texts(seq![line].drop_last(), max) =~= Seq::empty());
}

proof fn lemma_one_ended_line(line: Seq<u8>, max: nat)
    requires
        !line.contains(10u8),
    ensures
        lines::streamed(line.push(10u8), max) == seq![lines::line_text(line, max)],
{
    lemma_bytes_are_one_line(line);
    text::lemma_split_complete(line, NEWLINE);
    assert(text::split(line.push(NEWLINE), NEWLINE).drop_last() =~= seq![line]);
    assert(lines::line_texts(seq![line], max) =~= seq![lines::line_text(line, max)]);
}

/// A carriage return before the newline belongs to the end of the line and not to its text.
pub proof fn law_carriage_return_is_not_text(line: Seq<char>, max: nat)
    requires
        is_short_line(line, max),
        vstd::utf8::encode_utf8(line).len() < max,
    ensures
        lines::streamed(vstd::utf8::encode_utf8(line).push(13u8).push(10u8), max) == seq![line],
{
    let bytes = vstd::utf8::encode_utf8(line);
    assert(!bytes.push(13u8).contains(10u8)) by {
        assert forall|i: int| 0 <= i < bytes.len() + 1 implies bytes.push(13u8)[i] != 10 by {
            if i < bytes.len() {
                assert(bytes.contains(bytes[i]));
            }
        }
    }
    lemma_one_ended_line(bytes.push(13u8), max);
    assert(bytes.push(13u8).drop_last() =~= bytes);
    vstd::utf8::encode_utf8_valid_utf8(line);
    vstd::utf8::encode_utf8_decode_utf8(line);
}

/// A line that is no text is streamed as a marker that says so, and only then.
pub proof fn law_line_that_is_no_text_is_marked(line: Seq<u8>, max: nat)
    requires
        !line.contains(10u8),
        line.len() <= max,
        line.len() > 0 ==> line.last() != 13,
    ensures
        !vstd::utf8::valid_utf8(line) ==> lines::streamed(line.push(10u8), max) == seq![
            "[stream truncated: Unable to decode input as UTF8]"@,
        ],
        vstd::utf8::valid_utf8(line) ==> lines::streamed(line.push(10u8), max) == seq![
            vstd::utf8::decode_utf8(line),
        ],
{
    lemma_one_ended_line(line, max);
    law_marker_frames_its_reason("Unable to decode input as UTF8"@);
    reveal_strlit("[stream truncated: Unable to decode input as UTF8]");
    reveal_strlit("[stream truncated: ");
    reveal_strlit("Unable to decode input as UTF8");
    reveal_strlit("]");
    assert(lines::marker("Unable to decode input as UTF8"@)
        =~= "[stream truncated: Unable to decode input as UTF8]"@);
}

/// A marker gives its reason as it is, between brackets and after the words that announce it.
pub proof fn law_marker_frames_its_reason(reason: Seq<char>)
    ensures
        lines::marker(reason).len() == reason.len() + 20,
        lines::marker(reason).take(19) == "[stream truncated: "@,
        lines::marker(reason).subrange(19, reason.len() as int + 19) == reason,
        lines::marker(reason).last() == ']',
{
    reveal_strlit("[stream truncated: ");
    reveal_strlit("]");
    assert(lines::marker(reason).take(19) =~= "[stream truncated: "@);
    assert(lines::marker(reason).subrange(19, reason.len() as int + 19) =~= reason);
}

/// Of a line that is too long, the bytes up to the maximum length are streamed as their text where
/// they are text as they stand. Where they are none, not even without as many as three bytes at
/// their end, a marker says so.
pub proof fn law_head_of_a_long_line(line: Seq<u8>, max: nat)
    requires
        !line.contains(10u8),
        line.len() > max,
    ensures
        vstd::utf8::valid_utf8(line.take(max as int)) ==> lines::streamed(line, max) == seq![
            vstd::utf8::decode_utf8(line.take(max as int)),
        ],
        (forall|k: int|
            0 <= k <= 3 && k <= max ==> !vstd::utf8::valid_utf8(#[trigger] line.take(max - k)))
            ==> lines::streamed(line, max) == seq![
            "[stream truncated: Unable to decode input as UTF8]"@,
        ],
{
    let head = line.take(max as int);
    let whole = lines::whole_chars(head);
    law_line_goes_out_when_it_is_ended(line, max);
    lemma_one_ended_line(line, max);
    if vstd::utf8::valid_utf8(head) {
        assert forall|n: int| !lines::cuts_at(head, n) by {
            if lines::cuts_at(head, n) {
                assert(head.skip(n)[0] == head[n]);
                assert(head.skip(n).len() == head.len() - n);
                lemma_char_at(head, n);
            }
        }
    }
    if forall|k: int|
        0 <= k <= 3 && k <= max ==> !vstd::utf8::valid_utf8(#[trigger] line.take(max - k)) {
        if exists|n: int| lines::cuts_at(head, n) {
            let n = choose|n: int| lines::cuts_at(head, n);
            assert(whole =~= line.take(max - (max - n)));
        } else {
            assert(whole =~= line.take(max - 0));
        }
        reveal_strlit("[stream truncated: Unable to decode input as UTF8]");
        reveal_strlit("[stream truncated: ");
        reveal_strlit("Unable to decode input as UTF8");
        reveal_strlit("]");
        assert(lines::marker("Unable to decode input as UTF8"@)
            =~= "[stream truncated: Unable to decode input as UTF8]"@);
    }
}

proof fn lemma_encode_concat(a: Seq<char>, b: Seq<char>)
    ensures
        vstd::utf8::encode_utf8(a + b) == vstd::utf8::encode_utf8(a) + vstd::utf8::encode_utf8(b),
    decreases a.len(),
{
    let whole = vstd::utf8::encode_utf8(a + b);
    if a.len() == 0 {
        assert(a + b =~= b);
        assert(vstd::utf8::encode_utf8(a) + vstd::utf8::encode_utf8(b) =~= whole);
    } else {
        assert((a + b).drop_first() =~= a.drop_first() + b);
        lemma_encode_concat(a.drop_first(), b);
        assert(whole =~= vstd::utf8::encode_utf8(a) + vstd::utf8::encode_utf8(b));
    }
}

/// A text that is too long for a line arrives as its beginning: as many whole characters as the
/// maximum length has room for, and not one fewer.
pub proof fn law_long_text_keeps_what_fits(all: Seq<char>, max: nat)
    requires
        !vstd::utf8::encode_utf8(all).contains(10u8),
        vstd::utf8::encode_utf8(all).len() > max,
    ensures
        ({
            let arrived = lines::streamed(vstd::utf8::encode_utf8(all).push(10u8), max);
            let cut = arrived[0];
            &&& arrived.len() == 1
            &&& cut.len() < all.len()
            &&& cut == all.take(cut.len() as int)
            &&& vstd::utf8::encode_utf8(cut).len() <= max
            &&& vstd::utf8::encode_utf8(all.take(cut.len() as int + 1)).len() > max
        }),
{
    let line = vstd::utf8::encode_utf8(all);
    let head = line.take(max as int);
    let whole = lines::whole_chars(head);
    lemma_one_ended_line(line, max);
    vstd::utf8::encode_utf8_valid_utf8(all);
    vstd::utf8::encode_utf8_decode_utf8(all);
    law_long_line_is_truncated(line, max);
    let cut = lines::line_text(line, max);
    let k = cut.len() as int;
    if k == all.len() {
        assert(cut =~= all);
    }
    let rest = all.skip(k);
    let tail = vstd::utf8::encode_utf8(rest);
    assert(all =~= cut + rest);
    lemma_encode_concat(cut, rest);
    vstd::utf8::encode_utf8_first_scalar(rest);
    let first = vstd::utf8::encode_scalar(rest[0] as u32);
    assert(lines::char_width(tail[0]) == first.len());
    assert(all.take(k + 1) =~= cut + seq![rest[0]]);
    lemma_encode_concat(cut, seq![rest[0]]);
    reveal_with_fuel(vstd::utf8::encode_utf8, 2);
    assert(seq![rest[0]].drop_first().len() == 0);
    assert(vstd::utf8::encode_utf8(seq![rest[0]]) =~= first);
    lemma_truncated(line, max);
    assert(line.subrange(0, whole.len() as int) =~= whole);
    vstd::utf8::valid_utf8_split(line, whole.len() as int);
    vstd::utf8::decode_utf8_encode_utf8(whole);
    assert(vstd::utf8::encode_utf8(cut) == whole);
    assert(line[whole.len() as int] == tail[0]);
    if exists|n: int| lines::cuts_at(head, n) {
        let n = choose|n: int| lines::cuts_at(head, n);
        assert(head.skip(n)[0] == line[n]);
        assert(head.skip(n).len() == max - n);
    }
}

proof fn lemma_printed_ends_line(texts: Seq<Seq<char>>)
    ensures
        texts.len() > 0 ==> printed(texts).len() > 0 && printed(texts).last() == NEWLINE,
{
}

proof fn lemma_bytes_are_one_line(bytes: Seq<u8>)
    requires
        !bytes.contains(NEWLINE),
    ensures
        text::split(bytes, NEWLINE) == seq![bytes],
    decreases bytes.len(),
{
    if bytes.len() == 0 {
        assert(bytes =~= Seq::empty());
        assert(text::split(bytes, NEWLINE) =~= seq![bytes]);
    } else {
        let front = bytes.drop_last();
        assert forall|x: u8| front.contains(x) implies bytes.contains(x) by {
            let i = choose|i: int| 0 <= i < front.len() && front[i] == x;
            assert(bytes[i] == x);
        }
        lemma_bytes_are_one_line(front);
        assert(bytes.contains(bytes.last()));
        assert(text::split(bytes, NEWLINE) =~= seq![bytes]) by {
            assert(front.push(bytes.last()) =~= bytes);
        }
    }
}

/// The texts that go out are those of the lines, each in its place.
pub proof fn law_texts_that_go_out(out: Seq<OutputLine>)
    ensures
        lines::output_texts(out).len() == out.len(),
        forall|i: int|
            0 <= i < out.len() ==> #[trigger] lines::output_texts(out)[i] == out[i].line@,
{
}

} // verus!
