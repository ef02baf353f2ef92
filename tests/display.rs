use chatbot::display::{split_and_push, visible_rows, Row};
use chatbot::session::{Event, KeyPress, Session};

#[test]
fn split_and_push_wraps_at_width() {
    let mut rows = vec!["header".to_string()];
    split_and_push("abcdefg".to_string(), &mut rows, 3);
    assert_eq!(rows, vec!["header", "abc", "def", "g"]);
}

#[test]
fn split_and_push_edge_cases() {
    let mut rows = Vec::new();
    split_and_push(String::new(), &mut rows, 4);
    assert_eq!(rows, vec![""]);
    let mut rows = Vec::new();
    split_and_push("abcdef".to_string(), &mut rows, 3);
    assert_eq!(rows, vec!["abc", "def"]);
    let mut rows = Vec::new();
    split_and_push("ab".to_string(), &mut rows, 80);
    assert_eq!(rows, vec!["ab"]);
    let mut rows = Vec::new();
    split_and_push("çàéü".to_string(), &mut rows, 1);
    assert_eq!(rows, vec!["ç", "à", "é", "ü"]);
}

fn describe(rows: &[Row]) -> Vec<String> {
    rows.iter()
        .map(|r| match r {
            Row::Header { time, author } => format!("[{} {}]", time, author),
            Row::Text(t) => t.clone(),
            Row::Divider => "---".to_string(),
            Row::Prompt => ">".to_string(),
        })
        .collect()
}

fn sample_session() -> Session {
    let mut s = Session::new();
    s.receive_text("Alice:hello world", "10:00:00".to_string());
    s.receive_text("Beate:hi", "10:00:05".to_string());
    for c in "typing".chars() {
        s.apply_event(Event::Key(KeyPress::Char(c)), "t".to_string());
    }
    s
}

#[test]
fn window_shows_log_divider_prompt_and_input() {
    let s = sample_session();
    let rows = visible_rows(&s, 5, 100);
    assert_eq!(
        describe(&rows),
        vec![
            "[10:00:00 Alice]", "hello", " worl", "d", "[10:00:05 Beate]", "hi", "---", ">",
            "typin", "g",
        ]
    );
}

#[test]
fn window_drops_rows_that_scroll_past_the_top() {
    let s = sample_session();
    let rows = visible_rows(&s, 5, 4);
    assert_eq!(describe(&rows), vec!["---", ">", "typin", "g"]);
    assert!(visible_rows(&s, 5, 0).is_empty());
}

#[test]
fn empty_session_window() {
    let s = Session::new();
    assert_eq!(describe(&visible_rows(&s, 80, 24)), vec!["---", ">", ""]);
}
