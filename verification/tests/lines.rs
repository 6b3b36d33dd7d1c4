use cause::lines::{LineStream, OutputLine};
use tokio_util::bytes::BytesMut;
use tokio_util::codec::{Decoder, LinesCodec, LinesCodecError};

fn texts(lines: Vec<OutputLine>) -> Vec<String> {
    lines.into_iter().map(|line| line.line).collect()
}

/// Streams the portions and the end.
fn stream(portions: &[&[u8]], max: usize) -> Vec<String> {
    let mut stream = LineStream::new("stdout", max);
    let mut out = vec![];
    for portion in portions {
        out.extend(texts(stream.feed(portion)));
    }
    out.extend(stream.end().map(|line| line.line));
    out
}

/// The text of bytes that may end within a character.
fn cut(bytes: &[u8]) -> String {
    match core::str::from_utf8(bytes) {
        Ok(text) => text.to_string(),
        Err(e) if e.error_len().is_none() => {
            String::from_utf8(bytes[..e.valid_up_to()].to_vec()).unwrap()
        }
        Err(_) => NO_TEXT.to_string(),
    }
}

/// What a codec says that is handed everything at once.
fn codec_lines(bytes: &[u8], max: usize) -> Vec<String> {
    let mut codec = LinesCodec::new_with_max_length(max);
    let mut buf = BytesMut::from(bytes);
    let mut out = vec![];
    loop {
        match codec.decode_eof(&mut buf) {
            Ok(Some(line)) => out.push(line),
            Ok(None) => return out,
            Err(LinesCodecError::MaxLineLengthExceeded) => out.push(cut(&buf[..max])),
            Err(e) => out.push(format!("[stream truncated: {}]", e)),
        }
    }
}

const NO_TEXT: &str = "[stream truncated: Unable to decode input as UTF8]";

#[test]
fn lines_come_out_as_they_are_completed() {
    let mut stream = LineStream::new("stderr", 100);
    assert_eq!(texts(stream.feed(b"ab")), Vec::<String>::new());
    let lines = stream.feed(b"c\nd\r\n\ne");
    assert!(lines.iter().all(|line| line.kind == "stderr"));
    assert_eq!(texts(lines), vec!["abc", "d", ""]);
    let last = stream.end().unwrap();
    assert_eq!((last.kind, last.line.as_str()), ("stderr", "e"));
}

#[test]
fn nothing_and_a_carriage_return_are_no_last_line() {
    assert_eq!(stream(&[b""], 10), Vec::<String>::new());
    assert_eq!(stream(&[b"a\n"], 10), vec!["a"]);
    assert_eq!(stream(&[b"a\n\r"], 10), vec!["a"]);
    assert_eq!(stream(&[b"a\nb\r"], 10), vec!["a", "b"]);
}

#[test]
fn a_line_may_have_the_maximum_length() {
    assert_eq!(stream(&[b"abcd\n"], 4), vec!["abcd"]);
    assert_eq!(stream(&[b"abcde\n"], 4), vec!["abcd"]);
    assert_eq!(stream(&[b"abcd"], 4), vec!["abcd"]);
    assert_eq!(stream(&[b"abcde"], 4), vec!["abcd"]);
}

#[test]
fn a_line_that_is_too_long_is_truncated() {
    assert_eq!(stream(&[b"aaaaaa\nbb\n"], 4), vec!["aaaa", "bb"]);
    assert_eq!(stream(&[b"one\ntoo long\ntwo\nthree"], 5), vec!["one", "too l", "two", "three"]);
    assert_eq!(stream(&[b"one\ntoo", b" lo", b"ng\ntw", b"o\n"], 5), vec!["one", "too l", "two"]);
    assert_eq!(stream(&[b"too long", b" and on", b" and on"], 5), vec!["too l"]);
    assert_eq!(stream(&[b"abc\r\n"], 3), vec!["abc"]);
    assert_eq!(stream(&[b"abcd\n"], 0), vec![""]);
}

#[test]
fn a_character_is_not_cut_in_two() {
    // Two, three and four bytes long.
    for (character, width) in [("\u{e9}", 2), ("\u{20ac}", 3), ("\u{1f600}", 4)] {
        let line = format!("ab{}cd\n", character);
        for max in 2..2 + width {
            assert_eq!(stream(&[line.as_bytes()], max), vec!["ab"], "{} {}", character, max);
        }
        let whole = format!("ab{}", character);
        assert_eq!(stream(&[line.as_bytes()], 2 + width), vec![whole.as_str()]);
    }
}

#[test]
fn a_truncated_line_that_is_no_text_is_marked() {
    assert_eq!(stream(&[b"a\xffbcd\n"], 3), vec![NO_TEXT]);
    assert_eq!(stream(&[b"ab\xffcd\n"], 3), vec![NO_TEXT]);
    assert_eq!(stream(&[b"ab\x80cd\n"], 3), vec![NO_TEXT]);
    assert_eq!(stream(&[b"\x80\x80\x80\x80\x80\n"], 4), vec![NO_TEXT]);
}

#[test]
fn a_line_goes_out_as_soon_as_it_is_too_long() {
    let mut stream = LineStream::new("stdout", 3);
    assert_eq!(texts(stream.feed(b"abcd")), vec!["abc"]);
    assert_eq!(texts(stream.feed(b"efgh\nij\n")), vec!["ij"]);
    assert!(stream.end().is_none());
}

#[test]
fn a_line_that_is_no_text_costs_itself_only() {
    assert_eq!(stream(&[b"a\n\xff\xfe\nb\n\xc3"], 10), vec!["a", NO_TEXT, "b", NO_TEXT]);
}

#[test]
fn text_may_be_cut_anywhere() {
    let bytes = "h\u{e9}llo\nw\u{f6}rld \u{1f600}\n".as_bytes();
    for cut in 0..bytes.len() {
        let (left, right) = bytes.split_at(cut);
        assert_eq!(stream(&[left, right], 100), vec!["h\u{e9}llo", "w\u{f6}rld \u{1f600}"]);
    }
}

#[test]
fn portions_do_not_matter() {
    let bytes = b"one\r\ntwo\n\nsomewhat too long\n\xff\r\n\xf0\x9f\x98\x80\xf0\x9f\x98\x80\nlast".as_slice();
    for max in [0, 1, 3, 4, 5, 8, 17, 100] {
        let whole = stream(&[bytes], max);
        assert_eq!(whole, codec_lines(bytes, max), "max {}", max);
        for size in 1..8 {
            let portions: Vec<&[u8]> = bytes.chunks(size).collect();
            assert_eq!(stream(&portions, max), whole, "max {} size {}", max, size);
        }
    }
}

#[test]
fn failed_reading_is_marked() {
    let mut stream = LineStream::new("stdout", 10);
    stream.feed(b"half a ");
    let line = stream.fail("broken pipe");
    assert_eq!((line.kind, line.line.as_str()), ("stdout", "[stream truncated: broken pipe]"));
}
