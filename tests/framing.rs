use chatbot::framing::{decode_line, encode_line, LineBuffer};

fn feed(buf: &mut LineBuffer, chunk: &[u8]) -> Vec<Vec<u8>> {
    buf.receive(chunk)
}

#[test]
fn split_reads_frame_like_one_read() {
    let text = b"hello\nwide world\n\nlast";
    let mut whole = LineBuffer::new();
    let all_at_once = feed(&mut whole, text);

    for cut in 0..=text.len() {
        let mut parts = LineBuffer::new();
        let mut lines = feed(&mut parts, &text[..cut]);
        lines.extend(feed(&mut parts, &text[cut..]));
        assert_eq!(lines, all_at_once, "cut at {}", cut);
    }
    assert_eq!(
        all_at_once,
        vec![b"hello".to_vec(), b"wide world".to_vec(), b"".to_vec()]
    );
}

#[test]
fn byte_by_byte_reads_frame_like_one_read() {
    let text = b"a\nbc\ndef";
    let mut buf = LineBuffer::new();
    let mut lines = Vec::new();
    for b in text.iter() {
        lines.extend(feed(&mut buf, &[*b]));
    }
    assert_eq!(lines, vec![b"a".to_vec(), b"bc".to_vec()]);
    let rest = feed(&mut buf, b"\n");
    assert_eq!(rest, vec![b"def".to_vec()]);
}

#[test]
fn partial_line_waits_for_terminator() {
    let mut buf = LineBuffer::new();
    assert!(feed(&mut buf, b"no end yet").is_empty());
    assert!(feed(&mut buf, b"").is_empty());
    assert_eq!(feed(&mut buf, b"\n"), vec![b"no end yet".to_vec()]);
}

#[test]
fn encode_line_appends_terminator() {
    assert_eq!(encode_line("hi"), b"hi\n".to_vec());
    assert_eq!(encode_line(""), b"\n".to_vec());
    assert_eq!(encode_line("héllo"), "héllo\n".as_bytes().to_vec());
}

#[test]
fn decode_line_accepts_utf8_only() {
    assert_eq!(decode_line(b"abc".to_vec()), Some("abc".to_string()));
    assert_eq!(decode_line("héllo".as_bytes().to_vec()), Some("héllo".to_string()));
    assert_eq!(decode_line(vec![0xff, 0x41]), None);
}

#[test]
fn encoded_line_frames_back_to_text() {
    let mut buf = LineBuffer::new();
    let lines = feed(&mut buf, &encode_line("ünïcode text"));
    assert_eq!(lines.len(), 1);
    assert_eq!(decode_line(lines[0].clone()), Some("ünïcode text".to_string()));
}
