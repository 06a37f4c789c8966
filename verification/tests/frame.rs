use telemetry_session::frame::{classify_line, Frame, FrameReader, Line, NEWLINE};

fn records(reader: &mut FrameReader) -> Vec<String> {
    let mut found = Vec::new();
    loop {
        match reader.next_record().frame {
            Frame::Record(text) => found.push(text),
            Frame::NeedInput | Frame::EndOfStream => return found,
        }
    }
}

#[test]
fn newline_is_the_line_feed() {
    assert_eq!(NEWLINE, b'\n');
}

#[test]
fn a_plain_line_is_a_candidate() {
    assert_eq!(classify_line(b"{\"CPU\": 1.0}\n"), Line::Candidate("{\"CPU\": 1.0}".to_string()));
}

#[test]
fn surrounding_whitespace_is_trimmed() {
    assert_eq!(
        classify_line(b" \t{\"CPU\": 1.0} \r\n"),
        Line::Candidate("{\"CPU\": 1.0}".to_string())
    );
}

#[test]
fn inner_whitespace_is_kept() {
    assert_eq!(classify_line(b"a  b\n"), Line::Candidate("a  b".to_string()));
}

#[test]
fn whitespace_alone_is_blank() {
    assert_eq!(classify_line(b""), Line::Blank);
    assert_eq!(classify_line(b"\n"), Line::Blank);
    assert_eq!(classify_line(b" \t\r\n"), Line::Blank);
    assert_eq!(classify_line(b"\x0b\x0c\n"), Line::Blank);
}

#[test]
fn unicode_whitespace_is_blank_too() {
    let line = "\u{0085}\u{00A0}\u{1680}\u{2000}\u{200A}\u{2028}\u{2029}\u{202F}\u{205F}\u{3000}\n";
    assert_eq!(classify_line(line.as_bytes()), Line::Blank);
}

#[test]
fn characters_next_to_the_whitespace_ranges_are_kept() {
    for text in ["\u{0008}", "\u{000E}", "\u{001F}", "\u{200B}", "\u{180E}", "\u{FEFF}"] {
        assert_eq!(classify_line(text.as_bytes()), Line::Candidate(text.to_string()));
    }
}

#[test]
fn ill_formed_utf8_is_undecodable() {
    assert_eq!(classify_line(b"\xff\xfe\n"), Line::Undecodable);
    assert_eq!(classify_line(b"{\"CPU\": \xc3}\n"), Line::Undecodable);
    assert_eq!(classify_line(b"\xed\xa0\x80\n"), Line::Undecodable);
    assert_eq!(classify_line(b"\xc0\xaf\n"), Line::Undecodable);
}

#[test]
fn well_formed_multibyte_text_is_decoded() {
    assert_eq!(classify_line("caf\u{e9} \u{1F600}\n".as_bytes()),
        Line::Candidate("caf\u{e9} \u{1F600}".to_string()));
}

#[test]
fn a_new_reader_needs_input() {
    let mut reader = FrameReader::new();
    let polled = reader.next_record();
    assert_eq!(polled.frame, Frame::NeedInput);
    assert_eq!(polled.undecodable, 0);
    assert_eq!(reader.take_line(), None);
}

#[test]
fn lines_are_taken_with_their_terminator() {
    let mut reader = FrameReader::new();
    reader.feed(b"one\ntwo\nthr");
    assert_eq!(reader.take_line(), Some(b"one\n".to_vec()));
    assert_eq!(reader.take_line(), Some(b"two\n".to_vec()));
    assert_eq!(reader.take_line(), None);
    reader.feed(b"ee\n");
    assert_eq!(reader.take_line(), Some(b"three\n".to_vec()));
    assert_eq!(reader.take_line(), None);
}

#[test]
fn blank_lines_leave_no_trace() {
    let mut reader = FrameReader::new();
    reader.feed(b"\n{\"CPU\": 1.0}\n\n{\"MEM\": 2.0}\n");
    assert_eq!(records(&mut reader), vec!["{\"CPU\": 1.0}", "{\"MEM\": 2.0}"]);
    assert_eq!(reader.next_record().frame, Frame::NeedInput);
}

#[test]
fn records_come_in_stream_order() {
    let mut reader = FrameReader::new();
    reader.feed(b"c\na\nb\n");
    assert_eq!(records(&mut reader), vec!["c", "a", "b"]);
}

#[test]
fn an_unfinished_line_waits_for_its_end() {
    let mut reader = FrameReader::new();
    reader.feed(b"{\"CPU\"");
    assert_eq!(reader.next_record().frame, Frame::NeedInput);
    reader.feed(b": 1.0}");
    assert_eq!(reader.next_record().frame, Frame::NeedInput);
    reader.feed(b"\n");
    assert_eq!(reader.next_record().frame, Frame::Record("{\"CPU\": 1.0}".to_string()));
    assert_eq!(reader.next_record().frame, Frame::NeedInput);
}

#[test]
fn asking_early_gives_what_asking_late_gives() {
    let stream = b"\n \nfirst\n\xff\nsecond\n\nthird";
    let mut whole = FrameReader::new();
    whole.feed(stream);
    whole.close();
    let expected = records(&mut whole);
    assert_eq!(expected, vec!["first", "second", "third"]);
    for size in 1..stream.len() {
        let mut pieces = FrameReader::new();
        let mut found = Vec::new();
        for chunk in stream.chunks(size) {
            pieces.feed(chunk);
            found.extend(records(&mut pieces));
        }
        pieces.close();
        found.extend(records(&mut pieces));
        assert_eq!(found, expected, "chunks of {}", size);
    }
}

#[test]
fn undecodable_lines_are_counted_and_passed_over() {
    let mut reader = FrameReader::new();
    reader.feed(b"\xff\xfe\n\n\x80\n{\"CPU\": 1}\n\xff\n");
    let polled = reader.next_record();
    assert_eq!(polled.frame, Frame::Record("{\"CPU\": 1}".to_string()));
    assert_eq!(polled.undecodable, 2);
    let polled = reader.next_record();
    assert_eq!(polled.frame, Frame::NeedInput);
    assert_eq!(polled.undecodable, 1);
}

#[test]
fn closing_hands_out_the_unterminated_rest() {
    let mut reader = FrameReader::new();
    reader.feed(b"{\"CPU\": 1}\n{\"MEM\": 2}");
    assert_eq!(reader.next_record().frame, Frame::Record("{\"CPU\": 1}".to_string()));
    assert_eq!(reader.next_record().frame, Frame::NeedInput);
    reader.close();
    assert_eq!(reader.next_record().frame, Frame::Record("{\"MEM\": 2}".to_string()));
    assert_eq!(reader.next_record().frame, Frame::EndOfStream);
    assert_eq!(reader.next_record().frame, Frame::EndOfStream);
}

#[test]
fn a_closed_empty_stream_ends_at_once() {
    let mut reader = FrameReader::new();
    reader.close();
    let polled = reader.next_record();
    assert_eq!(polled.frame, Frame::EndOfStream);
    assert_eq!(polled.undecodable, 0);
    assert_eq!(reader.take_line(), None);
}

#[test]
fn a_blank_rest_ends_the_stream_without_a_record() {
    let mut reader = FrameReader::new();
    reader.feed(b"  \t");
    reader.close();
    assert_eq!(reader.next_record().frame, Frame::EndOfStream);
}

#[test]
fn bytes_offered_after_the_close_are_dropped() {
    let mut reader = FrameReader::new();
    reader.feed(b"kept\n");
    reader.close();
    reader.feed(b"dropped\n");
    assert_eq!(records(&mut reader), vec!["kept"]);
    assert_eq!(reader.next_record().frame, Frame::EndOfStream);
}
