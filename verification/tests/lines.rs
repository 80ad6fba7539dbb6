use rustchat::connection::Inbound;
use rustchat::lines::{LineReader, CARRIAGE_RETURN, LINE_BREAK};

/// The lines as text, with `None` for a garbled one.
fn texts(found: Vec<Inbound>) -> Vec<Option<String>> {
    let mut out = Vec::new();
    for got in found {
        match got {
            Inbound::Line(text) => out.push(Some(text)),
            Inbound::Garbled => out.push(None),
            _ => panic!("framing yields lines only"),
        }
    }
    out
}

fn line(text: &str) -> Option<String> {
    Some(String::from(text))
}

#[test]
fn line_bytes_are_the_usual_ones() {
    assert_eq!(LINE_BREAK, b'\n');
    assert_eq!(CARRIAGE_RETURN, b'\r');
}

#[test]
fn one_piece_with_one_line() {
    let mut reader = LineReader::new();
    assert_eq!(texts(reader.feed(b"hello\n")), vec![line("hello")]);
    assert!(reader.finish().is_none());
}

#[test]
fn one_piece_with_several_lines_and_a_rest() {
    let mut reader = LineReader::new();
    assert_eq!(
        texts(reader.feed(b"one\ntwo\nthr")),
        vec![line("one"), line("two")]
    );
    assert_eq!(texts(reader.feed(b"ee\n")), vec![line("three")]);
}

#[test]
fn a_piece_without_a_break_completes_nothing() {
    let mut reader = LineReader::new();
    assert_eq!(texts(reader.feed(b"abc")), Vec::<Option<String>>::new());
    assert_eq!(texts(reader.feed(b"")), Vec::<Option<String>>::new());
    assert_eq!(texts(reader.feed(b"def")), Vec::<Option<String>>::new());
    assert_eq!(texts(reader.feed(b"\n")), vec![line("abcdef")]);
}

#[test]
fn pieces_cut_anywhere_give_the_same_lines() {
    let stream = "alpha\nbeta\n\ngamma n°3\nrest".as_bytes();
    let mut whole = LineReader::new();
    let expected = texts(whole.feed(stream));
    assert_eq!(
        expected,
        vec![line("alpha"), line("beta"), line(""), line("gamma n°3")]
    );
    for cut in 0..=stream.len() {
        let mut reader = LineReader::new();
        let mut got = texts(reader.feed(&stream[..cut]));
        got.extend(texts(reader.feed(&stream[cut..])));
        assert_eq!(got, expected);
        assert_eq!(texts(reader.finish().into_iter().collect()), vec![line("rest")]);
    }
}

#[test]
fn byte_by_byte_gives_the_same_lines() {
    let mut reader = LineReader::new();
    let mut got = Vec::new();
    for byte in "n°1\r\nsecond\n".as_bytes() {
        got.extend(texts(reader.feed(&[*byte])));
    }
    assert_eq!(got, vec![line("n°1"), line("second")]);
}

#[test]
fn empty_lines_are_lines() {
    let mut reader = LineReader::new();
    assert_eq!(
        texts(reader.feed(b"\n\na\n\n")),
        vec![line(""), line(""), line("a"), line("")]
    );
}

#[test]
fn carriage_return_before_the_break_is_dropped() {
    let mut reader = LineReader::new();
    assert_eq!(
        texts(reader.feed(b"dos\r\n\r\nmid\rdle\ntwice\r\r\n")),
        vec![line("dos"), line(""), line("mid\rdle"), line("twice\r")]
    );
}

#[test]
fn a_garbled_line_is_marked_and_the_next_is_read() {
    let mut reader = LineReader::new();
    assert_eq!(
        texts(reader.feed(b"ok\n\xff\xfe\nfine\n\xc3\nlast\n")),
        vec![line("ok"), None, line("fine"), None, line("last")]
    );
}

#[test]
fn text_beyond_ascii_is_decoded() {
    let mut reader = LineReader::new();
    assert_eq!(
        texts(reader.feed(&[0xc3, 0xa9, 0x74, 0xc3, 0xa9, 0x0a, 0xe2, 0x82, 0xac, 0x0a])),
        vec![line("été"), line("€")]
    );
}

#[test]
fn finish_hands_out_an_unended_line_as_it_is() {
    let mut reader = LineReader::new();
    assert_eq!(texts(reader.feed(b"done\npart\r")), vec![line("done")]);
    assert_eq!(texts(reader.finish().into_iter().collect()), vec![line("part\r")]);
    assert!(reader.finish().is_none());
    assert_eq!(texts(reader.feed(b"x\n")), vec![line("x")]);
}

#[test]
fn finish_marks_a_garbled_rest() {
    let mut reader = LineReader::new();
    assert_eq!(texts(reader.feed(b"\xe2\x82")), Vec::<Option<String>>::new());
    assert_eq!(texts(reader.finish().into_iter().collect()), vec![None]);
}
