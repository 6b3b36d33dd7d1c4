//! The output of a triggered process, cut into lines of bounded length.

use crate::text;
use crate::text::string_from_utf8;
use tokio_util::bytes::BytesMut;
use tokio_util::codec::{Decoder, LinesCodec, LinesCodecError};
use vstd::prelude::*;
use vstd::slice::{slice_subrange, slice_to_vec};

verus! {

/// The byte that ends a line.
pub const NEWLINE: u8 = 10;

/// The byte that may stand before the end of a line.
pub const CARRIAGE_RETURN: u8 = 13;

/// One line that goes to whoever triggered the process.
#[derive(Debug)]
pub struct OutputLine {
    /// What the line is: `stdout`, `stderr` or `exit`.
    pub kind: &'static str,
    pub line: String,
}

/// A line without the carriage return at its end.
pub open spec fn chopped(line: Seq<u8>) -> Seq<u8> {
    if line.len() > 0 && line.last() == CARRIAGE_RETURN {
        line.drop_last()
    } else {
        line
    }
}

/// What stands in the stream in place of what could not be streamed.
pub open spec fn marker(reason: Seq<char>) -> Seq<char> {
    "[stream truncated: "@ + reason + "]"@
}

/// How many bytes the UTF-8 of a character takes that begins with this byte; none where no
/// character does.
pub open spec fn char_width(byte: u8) -> int {
    if vstd::utf8::is_leading_byte_width_1(byte) {
        1
    } else if vstd::utf8::is_leading_byte_width_2(byte) {
        2
    } else if vstd::utf8::is_leading_byte_width_3(byte) {
        3
    } else if vstd::utf8::is_leading_byte_width_4(byte) {
        4
    } else {
        0
    }
}

/// The bytes are the beginning of a character, of which some are missing.
pub open spec fn is_cut_char(bytes: Seq<u8>) -> bool {
    &&& 0 < bytes.len() < char_width(bytes[0])
    &&& forall|i: int|
        1 <= i < bytes.len() ==> vstd::utf8::is_continuation_byte(#[trigger] bytes[i])
}

/// The bytes from `n` on are the beginning of a character that the end cuts in two.
pub open spec fn cuts_at(bytes: Seq<u8>, n: int) -> bool {
    0 <= n < bytes.len() && is_cut_char(bytes.skip(n))
}

/// The bytes without the beginning of a character that their end cuts in two.
pub open spec fn whole_chars(bytes: Seq<u8>) -> Seq<u8> {
    if exists|n: int| cuts_at(bytes, n) {
        bytes.take(choose|n: int| cuts_at(bytes, n))
    } else {
        bytes
    }
}

/// The text that bytes encode, or a marker where they encode none.
pub open spec fn text_or_marker(bytes: Seq<u8>) -> Seq<char> {
    if vstd::utf8::valid_utf8(bytes) {
        vstd::utf8::decode_utf8(bytes)
    } else {
        marker("Unable to decode input as UTF8"@)
    }
}

/// What is streamed of a line: its text, or a marker where it is no text. A line that is too long
/// is truncated to the maximum length, and a character that this would cut in two is left out.
pub open spec fn line_text(line: Seq<u8>, max: nat) -> Seq<char> {
    if line.len() > max {
        text_or_marker(whole_chars(line.take(max as int)))
    } else {
        text_or_marker(chopped(line))
    }
}

/// What is streamed of lines that are complete.
pub open spec fn line_texts(lines: Seq<Seq<u8>>, max: nat) -> Seq<Seq<char>> {
    lines.map_values(|line: Seq<u8>| line_text(line, max))
}

/// What has been streamed once a process has written `bytes`: its complete lines, and what is left
/// of an incomplete one that is already too long.
pub open spec fn streamed(bytes: Seq<u8>, max: nat) -> Seq<Seq<char>> {
    let lines = text::split(bytes, NEWLINE);
    let complete = line_texts(lines.drop_last(), max);
    if lines.last().len() > max {
        complete.push(line_text(lines.last(), max))
    } else {
        complete
    }
}

/// What has been streamed once a process has written `bytes` and closed its output: an incomplete
/// line counts as a line, unless nothing or only a carriage return stands in it.
pub open spec fn streamed_to_end(bytes: Seq<u8>, max: nat) -> Seq<Seq<char>> {
    let rest = text::split(bytes, NEWLINE).last();
    if rest.len() > max || rest.len() == 0 || rest == seq![CARRIAGE_RETURN] {
        streamed(bytes, max)
    } else {
        streamed(bytes, max).push(line_text(rest, max))
    }
}

/// The texts of lines that go out.
pub open spec fn output_texts(lines: Seq<OutputLine>) -> Seq<Seq<char>> {
    lines.map_values(|line: OutputLine| line.line@)
}

/// Why a line is not streamed as text.
#[derive(Debug)]
pub enum LineError {
    TooLong,
    NotText(String),
}

/// Calls `LinesCodec::decode` on a new codec with this maximum length and a buffer of these bytes,
/// and returns with its result what it leaves in the buffer. Where a newline stands among the
/// first `max_length + 1` bytes, the line before it is taken out of the buffer, and comes back as
/// text without a carriage return at its end, or as an error where it is not UTF-8. Otherwise the
/// buffer stays as it is, and a line that is already longer than the maximum is an error.
#[verifier::external_body]
fn decode(max_length: usize, bytes: &[u8]) -> (r: (Result<Option<String>, LineError>, Vec<u8>))
    ensures
        match r.0 {
            Ok(Some(line)) => exists|i: int|
                {
                    &&& #[trigger] text::is_first(bytes@, NEWLINE, i)
                    &&& i <= max_length
                    &&& r.1@ == bytes@.skip(i + 1)
                    &&& vstd::utf8::encode_utf8(line@) == chopped(bytes@.take(i))
                },
            Err(LineError::NotText(reason)) => exists|i: int|
                {
                    &&& #[trigger] text::is_first(bytes@, NEWLINE, i)
                    &&& i <= max_length
                    &&& r.1@ == bytes@.skip(i + 1)
                    &&& !vstd::utf8::valid_utf8(chopped(bytes@.take(i)))
                    &&& reason@ == "Unable to decode input as UTF8"@
                },
            Err(LineError::TooLong) => {
                &&& bytes@.len() > max_length
                &&& !bytes@.take(max_length + 1).contains(NEWLINE)
                &&& r.1@ == bytes@
            },
            Ok(None) => {
                &&& bytes@.len() <= max_length
                &&& !bytes@.contains(NEWLINE)
                &&& r.1@ == bytes@
            },
        },
{
    let mut buf = BytesMut::from(bytes);
    let line = match LinesCodec::new_with_max_length(max_length).decode(&mut buf) {
        Ok(line) => Ok(line),
        Err(LinesCodecError::Io(e)) => Err(LineError::NotText(e.to_string())),
        Err(LinesCodecError::MaxLineLengthExceeded) => Err(LineError::TooLong),
    };
    (line, buf.to_vec())
}

/// Calls `LinesCodec::decode_eof` on a new codec with this maximum length and a buffer of these
/// bytes, which are those of an incomplete line: the line as text without a carriage return at
/// its end, or an error where it is not UTF-8. Nothing, and a carriage return alone, are no line.
#[verifier::external_body]
fn decode_eof(max_length: usize, bytes: &[u8]) -> (r: Result<Option<String>, String>)
    requires
        bytes@.len() <= max_length,
        !bytes@.contains(NEWLINE),
    ensures
        match r {
            Ok(Some(line)) => {
                &&& bytes@.len() > 0 && bytes@ != seq![CARRIAGE_RETURN]
                &&& vstd::utf8::encode_utf8(line@) == chopped(bytes@)
            },
            Err(reason) => {
                &&& bytes@.len() > 0 && bytes@ != seq![CARRIAGE_RETURN]
                &&& !vstd::utf8::valid_utf8(chopped(bytes@))
                &&& reason@ == "Unable to decode input as UTF8"@
            },
            Ok(None) => bytes@.len() == 0 || bytes@ == seq![CARRIAGE_RETURN],
        },
{
    let mut buf = BytesMut::from(bytes);
    LinesCodec::new_with_max_length(max_length).decode_eof(&mut buf).map_err(|e| e.to_string())
}

/// The marker that stands in place of what could not be streamed.
fn truncated(reason: &str) -> (text: String)
    ensures
        text@ == marker(reason@),
{
    let mut text = "[stream truncated: ".to_string();
    text.append(reason);
    text.append("]");
    text
}

/// How many bytes the UTF-8 of a character takes that begins with this byte.
fn width_of(byte: u8) -> (width: usize)
    ensures
        width == char_width(byte),
{
    if byte <= 0x7f {
        1
    } else if 0xc0 <= byte && byte <= 0xdf {
        2
    } else if 0xe0 <= byte && byte <= 0xef {
        3
    } else if 0xf0 <= byte && byte <= 0xf7 {
        4
    } else {
        0
    }
}

/// A character that is cut in two begins at one place at most: no byte that begins a character
/// follows it.
pub proof fn lemma_cut_unique(bytes: Seq<u8>, n: int, m: int)
    requires
        cuts_at(bytes, n),
        cuts_at(bytes, m),
    ensures
        n == m,
{
    if n < m {
        assert(bytes.skip(n)[m - n] == bytes.skip(m)[0]);
    } else if m < n {
        assert(bytes.skip(m)[n - m] == bytes.skip(n)[0]);
    }
}

/// How much is left of bytes without the beginning of a character that their end cuts in two.
fn whole_len(bytes: &[u8]) -> (len: usize)
    ensures
        len <= bytes@.len(),
        bytes@.take(len as int) == whole_chars(bytes@),
{
    let len = bytes.len();
    let mut back: usize = 0;
    assert(bytes@.take(len as int) =~= bytes@);
    while back < len && back < 3
        invariant
            len == bytes@.len(),
            back <= len,
            back <= 3,
            bytes@.take(len as int) == bytes@,
            forall|i: int|
                len - back <= i < len ==> vstd::utf8::is_continuation_byte(#[trigger] bytes@[i]),
        decreases len - back,
    {
        let at = len - back - 1;
        let width = width_of(bytes[at]);
        let ghost tail = bytes@.skip(at as int);
        assert(tail[0] == bytes@[at as int]);
        if width > back + 1 {
            assert(cuts_at(bytes@, at as int)) by {
                assert forall|i: int| 1 <= i < tail.len() implies vstd::utf8::is_continuation_byte(
                    #[trigger] tail[i],
                ) by {
                    assert(tail[i] == bytes@[at + i]);
                }
            }
            proof {
                let n = choose|n: int| cuts_at(bytes@, n);
                lemma_cut_unique(bytes@, n, at as int);
            }
            return at;
        }
        if !(0x80 <= bytes[at] && bytes[at] <= 0xbf) {
            assert forall|n: int| !cuts_at(bytes@, n) by {
                if cuts_at(bytes@, n) {
                    if n < at {
                        assert(bytes@.skip(n)[at - n] == bytes@[at as int]);
                    } else if n > at {
                        assert(bytes@.skip(n)[0] == bytes@[n]);
                    }
                }
            }
            return len;
        }
        back = back + 1;
    }
    assert forall|n: int| !cuts_at(bytes@, n) by {
        if cuts_at(bytes@, n) {
            assert(bytes@.skip(n)[0] == bytes@[n]);
            assert(bytes@.skip(n).len() == len - n);
        }
    }
    len
}

/// The text of a line that is too long, truncated, or a marker where it is no text.
fn truncated_text(line: &[u8], max_length: usize) -> (text: String)
    requires
        line@.len() > max_length,
    ensures
        text@ == line_text(line@, max_length as nat),
{
    let head = slice_subrange(line, 0, max_length);
    assert(head@ =~= line@.take(max_length as int));
    let len = whole_len(head);
    let whole = slice_to_vec(slice_subrange(head, 0, len));
    assert(whole@ =~= whole_chars(head@));
    match string_from_utf8(whole) {
        Some(text) => {
            proof {
                vstd::utf8::encode_utf8_decode_utf8(text@);
            }
            text
        },
        None => truncated("Unable to decode input as UTF8"),
    }
}

/// What follows in a line that is already too long does not change what is streamed of it.
pub proof fn lemma_long_line_text(line: Seq<u8>, more: Seq<u8>, max: nat)
    requires
        line.len() > max,
    ensures
        line_text(line + more, max) == line_text(line, max),
{
    assert((line + more).take(max as int) =~= line.take(max as int));
}

/// Cuts the output of a process into lines of bounded length.
pub struct LineStream {
    kind: &'static str,
    max_line_length: usize,
    /// What has come of the line that is not complete yet.
    pending: Vec<u8>,
    /// The line that is not complete yet is already too long; the rest of it is dropped.
    discarding: bool,
    /// All that the process has written.
    seen: Ghost<Seq<u8>>,
}

/// `before` ends with a line, and the bytes after it begin one.
spec fn ends_line(before: Seq<u8>) -> bool {
    text::split(before, NEWLINE).last() == Seq::<u8>::empty()
}

impl LineStream {
    /// All that the process has written.
    pub closed spec fn seen(&self) -> Seq<u8> {
        self.seen@
    }

    /// What kind of lines these are.
    pub closed spec fn kind(&self) -> Seq<char> {
        self.kind@
    }

    /// How long a line may be.
    pub closed spec fn max(&self) -> nat {
        self.max_line_length as nat
    }

    /// What is kept of the line that is not complete yet belongs to what was seen.
    pub closed spec fn wf(&self) -> bool {
        if self.discarding {
            &&& text::split(self.seen@, NEWLINE).last().len() > self.max_line_length
            &&& self.pending@.len() == 0
        } else {
            let start = self.seen@.len() - self.pending@.len();
            &&& start >= 0
            &&& self.seen@.skip(start) == self.pending@
            &&& ends_line(self.seen@.take(start))
            &&& self.pending@.len() <= self.max_line_length
            &&& !self.pending@.contains(NEWLINE)
        }
    }

    /// Streams the lines of a process that has not written anything yet.
    pub fn new(kind: &'static str, max_line_length: usize) -> (stream: Self)
        ensures
            stream.wf(),
            stream.seen() == Seq::<u8>::empty(),
            stream.kind() == kind@,
            stream.max() == max_line_length,
    {
        let stream = LineStream {
            kind,
            max_line_length,
            pending: Vec::new(),
            discarding: false,
            seen: Ghost(Seq::empty()),
        };
        assert(stream.seen@.take(0) =~= Seq::empty());
        assert(stream.seen@.skip(0) =~= stream.pending@);
        stream
    }

    /// Drops what belongs to a line that is too long, up to and with its newline. `before` is
    /// what stands before `bytes`.
    fn discard(&mut self, Ghost(before): Ghost<Seq<u8>>, bytes: Vec<u8>) -> (r: (
        Vec<u8>,
        Ghost<Seq<u8>>,
    ))
        requires
            old(self).discarding,
            text::split(before, NEWLINE).last().len() > old(self).max_line_length,
        ensures
            r.1@ + r.0@ == before + bytes@,
            streamed(r.1@, old(self).max()) == streamed(before, old(self).max()),
            *final(self) == (LineStream { discarding: final(self).discarding, ..*old(self) }),
            if final(self).discarding {
                r.0@.len() == 0 && text::split(r.1@, NEWLINE).last().len()
                    > old(self).max_line_length
            } else {
                ends_line(r.1@) && r.0@.len() < bytes@.len()
            },
    {
        let ghost max = self.max();
        let len = bytes.len();
        proof {
            text::lemma_split_nonempty(before, NEWLINE);
        }
        for i in 0..len
            invariant
                len == bytes@.len(),
                self.discarding,
                *self == *old(self),
                forall|j: int| 0 <= j < i ==> bytes@[j] != NEWLINE,
                text::split(before, NEWLINE).len() > 0,
                text::split(before, NEWLINE).last().len() > max,
                max == old(self).max(),
        {
            if bytes[i] == NEWLINE {
                let rest = slice_to_vec(slice_subrange(bytes.as_slice(), i + 1, len));
                let ghost head = bytes@.take(i as int);
                let ghost after = (before + head).push(NEWLINE);
                proof {
                    text::lemma_split_extend(before, head, NEWLINE);
                    text::lemma_split_complete(before + head, NEWLINE);
                    lemma_discarded(before, head, max);
                    assert(after + rest@ =~= before + bytes@);
                }
                self.discarding = false;
                return (rest, Ghost(after));
            }
        }
        proof {
            text::lemma_split_extend(before, bytes@, NEWLINE);
            lemma_discarded(before, bytes@, max);
            assert((before + bytes@) + Seq::<u8>::empty() =~= before + bytes@);
        }
        (Vec::new(), Ghost(before + bytes@))
    }

    /// Takes in what the process has written next, and returns the lines that go out for it.
    pub fn feed(&mut self, chunk: &[u8]) -> (out: Vec<OutputLine>)
        requires
            old(self).wf(),
        ensures
            final(self).wf(),
            final(self).seen() == old(self).seen() + chunk@,
            final(self).kind() == old(self).kind(),
            final(self).max() == old(self).max(),
            streamed(final(self).seen(), final(self).max()) == streamed(
                old(self).seen(),
                old(self).max(),
            ) + output_texts(out@),
            forall|i: int| 0 <= i < out@.len() ==> (#[trigger] out@[i]).kind@ == old(self).kind(),
    {
        let ghost max = self.max();
        let ghost was_seen = self.seen@;
        let ghost total = was_seen + chunk@;
        let mut out: Vec<OutputLine> = Vec::new();
        let mut bytes: Vec<u8> = Vec::new();
        let ghost mut before = was_seen;
        proof {
            if !self.discarding {
                let start = was_seen.len() - self.pending@.len();
                before = was_seen.take(start);
                assert(before + self.pending@ =~= was_seen);
                lemma_pending(before, self.pending@, max);
            }
        }
        bytes.append(&mut self.pending);
        bytes.extend_from_slice(chunk);
        assert(before + bytes@ =~= total);
        assert(streamed(was_seen, max) + output_texts(out@) =~= streamed(was_seen, max));
        loop
            invariant
                max == old(self).max(),
                self.max_line_length == max,
                self.kind == old(self).kind,
                self.pending@.len() == 0,
                was_seen == old(self).seen(),
                before + bytes@ == total,
                if self.discarding {
                    text::split(before, NEWLINE).last().len() > max
                } else {
                    ends_line(before)
                },
                streamed(before, max) == streamed(was_seen, max) + output_texts(out@),
                forall|i: int| 0 <= i < out@.len() ==> (#[trigger] out@[i]).kind@ == self.kind@,
            ensures
                if self.discarding {
                    text::split(before, NEWLINE).last().len() > max && bytes@.len() == 0
                } else {
                    &&& ends_line(before)
                    &&& bytes@.len() <= max
                    &&& !bytes@.contains(NEWLINE)
                },
            decreases bytes@.len(),
        {
            if self.discarding {
                let (rest, Ghost(after)) = self.discard(Ghost(before), bytes);
                bytes = rest;
                proof {
                    before = after;
                }
                if self.discarding {
                    break;
                }
                continue;
            }
            let ghost sent = output_texts(out@);
            let (decoded, rest) = decode(self.max_line_length, bytes.as_slice());
            match decoded {
                Ok(Some(line)) => {
                    let ghost i = choose|i: int|
                        {
                            &&& #[trigger] text::is_first(bytes@, NEWLINE, i)
                            &&& i <= max
                            &&& rest@ == bytes@.skip(i + 1)
                            &&& vstd::utf8::encode_utf8(line@) == chopped(bytes@.take(i))
                        };
                    proof {
                        vstd::utf8::encode_utf8_valid_utf8(line@);
                        vstd::utf8::encode_utf8_decode_utf8(line@);
                        lemma_line_taken(before, bytes@, i, max);
                        before = (before + bytes@.take(i)).push(NEWLINE);
                    }
                    out.push(OutputLine { kind: self.kind, line });
                    assert(output_texts(out@) =~= sent.push(line@));
                    bytes = rest;
                },
                Err(LineError::NotText(reason)) => {
                    let ghost i = choose|i: int|
                        {
                            &&& #[trigger] text::is_first(bytes@, NEWLINE, i)
                            &&& i <= max
                            &&& rest@ == bytes@.skip(i + 1)
                            &&& !vstd::utf8::valid_utf8(chopped(bytes@.take(i)))
                        };
                    proof {
                        lemma_line_taken(before, bytes@, i, max);
                        before = (before + bytes@.take(i)).push(NEWLINE);
                    }
                    out.push(OutputLine { kind: self.kind, line: truncated(reason.as_str()) });
                    assert(output_texts(out@) =~= sent.push(out@.last().line@));
                    bytes = rest;
                },
                Err(LineError::TooLong) => {
                    let line = truncated_text(bytes.as_slice(), self.max_line_length);
                    proof {
                        let head = bytes@.take(max as int + 1);
                        lemma_too_long(before, head, max);
                        lemma_long_line_text(head, bytes@.skip(max as int + 1), max);
                        assert(head + bytes@.skip(max as int + 1) =~= bytes@);
                        before = before + head;
                    }
                    out.push(OutputLine { kind: self.kind, line });
                    assert(output_texts(out@) =~= sent.push(out@.last().line@));
                    let len = bytes.len();
                    bytes =
                    slice_to_vec(
                        slice_subrange(bytes.as_slice(), self.max_line_length + 1, len),
                    );
                    self.discarding = true;
                },
                Ok(None) => {
                    break;
                },
            }
            assert(before + bytes@ =~= total);
        }
        self.pending = bytes;
        self.seen = Ghost(total);
        proof {
            if self.discarding {
                assert(before =~= total);
            } else {
                let start = total.len() - bytes@.len();
                assert(total.take(start) =~= before);
                assert(total.skip(start) =~= bytes@);
                lemma_pending(before, bytes@, max);
            }
        }
        out
    }

    /// Ends the stream where the process has closed its output.
    pub fn end(self) -> (out: Option<OutputLine>)
        requires
            self.wf(),
        ensures
            match out {
                Some(line) => {
                    &&& line.kind@ == self.kind()
                    &&& streamed_to_end(self.seen(), self.max()) == streamed(
                        self.seen(),
                        self.max(),
                    ).push(line.line@)
                },
                None => streamed_to_end(self.seen(), self.max()) == streamed(
                    self.seen(),
                    self.max(),
                ),
            },
    {
        let ghost rest = text::split(self.seen@, NEWLINE).last();
        if self.discarding {
            return None;
        }
        proof {
            let start = self.seen@.len() - self.pending@.len();
            assert(self.seen@.take(start) + self.pending@ =~= self.seen@);
            text::lemma_split_extend(self.seen@.take(start), self.pending@, NEWLINE);
            assert(Seq::<u8>::empty() + self.pending@ =~= self.pending@);
            assert(rest == self.pending@);
        }
        match decode_eof(self.max_line_length, self.pending.as_slice()) {
            Ok(Some(line)) => {
                proof {
                    vstd::utf8::encode_utf8_valid_utf8(line@);
                    vstd::utf8::encode_utf8_decode_utf8(line@);
                }
                Some(OutputLine { kind: self.kind, line })
            },
            Ok(None) => None,
            Err(reason) => Some(
                OutputLine { kind: self.kind, line: truncated(reason.as_str()) },
            ),
        }
    }

    /// Ends the stream where the process's output cannot be read on.
    pub fn fail(self, reason: &str) -> (out: OutputLine)
        ensures
            out.kind@ == self.kind(),
            out.line@ == marker(reason@),
    {
        OutputLine { kind: self.kind, line: truncated(reason) }
    }
}

/// The beginning of a line changes nothing of what is streamed.
proof fn lemma_pending(before: Seq<u8>, rest: Seq<u8>, max: nat)
    requires
        ends_line(before),
        rest.len() <= max,
        !rest.contains(NEWLINE),
    ensures
        streamed(before + rest, max) == streamed(before, max),
{
    text::lemma_split_nonempty(before, NEWLINE);
    text::lemma_split_extend(before, rest, NEWLINE);
    assert(text::split(before + rest, NEWLINE).drop_last() =~= text::split(
        before,
        NEWLINE,
    ).drop_last());
}

/// The first line of what follows is streamed next.
proof fn lemma_line_taken(before: Seq<u8>, bytes: Seq<u8>, i: int, max: nat)
    requires
        ends_line(before),
        text::is_first(bytes, NEWLINE, i),
        i <= max,
    ensures
        ({
            let after = (before + bytes.take(i)).push(NEWLINE);
            &&& ends_line(after)
            &&& after + bytes.skip(i + 1) == before + bytes
            &&& streamed(after, max) == streamed(before, max).push(line_text(bytes.take(i), max))
        }),
{
    let line = bytes.take(i);
    let after = (before + line).push(NEWLINE);
    let lines = text::split(before, NEWLINE);
    assert(!line.contains(NEWLINE));
    text::lemma_split_nonempty(before, NEWLINE);
    text::lemma_split_extend(before, line, NEWLINE);
    text::lemma_split_complete(before + line, NEWLINE);
    assert(Seq::<u8>::empty() + line =~= line);
    assert(text::split(after, NEWLINE).drop_last() =~= lines.drop_last().push(line));
    assert(line_texts(lines.drop_last().push(line), max) =~= line_texts(
        lines.drop_last(),
        max,
    ).push(line_text(line, max)));
    assert(after + bytes.skip(i + 1) =~= before + bytes);
}

/// The beginning of a line that is too long is streamed at once.
proof fn lemma_too_long(before: Seq<u8>, head: Seq<u8>, max: nat)
    requires
        ends_line(before),
        head.len() > max,
        !head.contains(NEWLINE),
    ensures
        text::split(before + head, NEWLINE).last().len() > max,
        streamed(before + head, max) == streamed(before, max).push(line_text(head, max)),
{
    text::lemma_split_nonempty(before, NEWLINE);
    text::lemma_split_extend(before, head, NEWLINE);
    assert(Seq::<u8>::empty() + head =~= head);
    assert(text::split(before + head, NEWLINE).drop_last() =~= text::split(
        before,
        NEWLINE,
    ).drop_last());
}

/// What follows in a line that is already too long changes nothing of what is streamed, nor does
/// its newline.
proof fn lemma_discarded(before: Seq<u8>, more: Seq<u8>, max: nat)
    requires
        text::split(before, NEWLINE).last().len() > max,
        !more.contains(NEWLINE),
    ensures
        streamed(before + more, max) == streamed(before, max),
        streamed((before + more).push(NEWLINE), max) == streamed(before, max),
{
    text::lemma_split_nonempty(before, NEWLINE);
    text::lemma_split_extend(before, more, NEWLINE);
    text::lemma_split_complete(before + more, NEWLINE);
    let lines = text::split(before, NEWLINE);
    let longer = text::split(before + more, NEWLINE);
    assert(longer.drop_last() =~= lines.drop_last());
    lemma_long_line_text(lines.last(), more, max);
    assert(text::split((before + more).push(NEWLINE), NEWLINE).drop_last() =~= longer);
    assert(line_texts(longer, max) =~= line_texts(lines.drop_last(), max).push(
        line_text(longer.last(), max),
    ));
}

} // verus!
