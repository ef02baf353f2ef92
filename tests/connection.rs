use chatbot::connection::{Connection, ReadEvent};
use chatbot::session::{Event, KeyPress, Session, Step};

#[test]
fn reads_become_messages_for_the_responders() {
    let mut c = Connection::new();
    assert!(c.on_read(ReadEvent::Data(b"I want to ".to_vec())).is_empty());
    assert!(c.on_read(ReadEvent::NoData).is_empty());
    let msgs = c.on_read(ReadEvent::Data(b"eat\nand sleep\n".to_vec()));
    assert_eq!(msgs, vec!["I want to eat".to_string(), "and sleep".to_string()]);
    assert!(c.is_active());
}

#[test]
fn invalid_utf8_lines_are_dropped() {
    let mut c = Connection::new();
    let msgs = c.on_read(ReadEvent::Data(vec![0xc3, b'\n', b'o', b'k', b'\n']));
    assert_eq!(msgs, vec!["ok".to_string()]);
}

#[test]
fn end_of_stream_and_failures_close_the_connection() {
    let mut c = Connection::new();
    c.on_read(ReadEvent::EndOfStream);
    assert!(!c.is_active());
    assert!(c.on_read(ReadEvent::Data(b"late\n".to_vec())).is_empty());
    assert_eq!(c.forward_reply("Alice:hi"), None);

    let mut d = Connection::new();
    d.on_read(ReadEvent::Failed);
    assert!(!d.is_active());

    let mut e = Connection::new();
    e.on_write(true);
    assert!(e.is_active());
    e.on_write(false);
    assert!(!e.is_active());

    let mut f = Connection::new();
    f.on_responder_gone();
    assert!(!f.is_active());
}

#[test]
fn replies_are_framed_for_the_wire() {
    let c = Connection::new();
    assert_eq!(c.forward_reply("Eudora:One thing? Try harder."), Some(b"Eudora:One thing? Try harder.\n".to_vec()));
}

#[test]
fn failure_on_one_connection_leaves_another_relaying() {
    let mut a = Connection::new();
    let mut b = Connection::new();
    a.on_read(ReadEvent::Failed);
    assert!(!a.is_active());
    assert!(b.is_active());
    let msgs = b.on_read(ReadEvent::Data(b"still here\n".to_vec()));
    assert_eq!(msgs, vec!["still here".to_string()]);
    assert_eq!(b.forward_reply("Divya:<3"), Some(b"Divya:<3\n".to_vec()));
}

#[test]
fn submitted_text_reaches_the_server_and_echoes_back_unchanged() {
    let text = "I want to eat: and sleep ✓";
    let mut client = Session::new();
    for ch in text.chars() {
        client.apply_event(Event::Key(KeyPress::Char(ch)), "t".to_string());
    }
    let bytes = match client.apply_event(Event::Key(KeyPress::Char('\n')), "t".to_string()) {
        Step::Send(b) => b,
        _ => panic!("expected a line to send"),
    };
    let mut server = Connection::new();
    let received = server.on_read(ReadEvent::Data(bytes));
    assert_eq!(received, vec![text.to_string()]);

    let echo = server.forward_reply(&format!("Echo:{}", received[0])).unwrap();
    client.apply_event(Event::Data(echo), "t2".to_string());
    let last = client.log().last().unwrap();
    assert_eq!(last.author, "Echo");
    assert_eq!(last.body, text);
}
