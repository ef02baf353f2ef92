//! The layout of the chat window: the log, newest at the bottom, and the
//! line being typed, wrapped to the terminal's width and cut to its height.

use vstd::prelude::*;
use crate::actions::string_views;
use crate::session::{Message, MessageView, Session, message_view};

verus! {

/// `s` cut into rows of `width` characters, the last row holding what is
/// left (an empty text gives one empty row).
pub open spec fn wrap(s: Seq<char>, width: nat) -> Seq<Seq<char>>
    recommends
        width > 0,
    decreases s.len(),
    when width > 0
{
    if s.len() <= width {
        seq![s]
    } else {
        seq![s.subrange(0, width as int)] + wrap(s.subrange(width as int, s.len() as int), width)
    }
}

/// Appends `src` to `dst`, cut into rows of `width` characters.
pub fn split_and_push(src: String, dst: &mut Vec<String>, width: usize)
    requires
        width > 0,
    ensures
        string_views(final(dst)@) == string_views(old(dst)@) + wrap(src@, width as nat),
{
    let n = src.as_str().unicode_len();
    let mut start: usize = 0;
    assert(src@.subrange(0, n as int) =~= src@);
    while n - start > width
        invariant
            n == src@.len(),
            start <= n,
            width > 0,
            string_views(dst@) + wrap(src@.subrange(start as int, n as int), width as nat) == string_views(old(dst)@)
                + wrap(src@, width as nat),
        decreases n - start,
    {
        let row = src.as_str().substring_char(start, start + width).to_owned();
        let ghost rest = src@.subrange(start as int, n as int);
        let ghost before = string_views(dst@);
        dst.push(row);
        assert(string_views(dst@) =~= before.push(row@));
        assert(row@ =~= rest.subrange(0, width as int));
        assert(rest.subrange(width as int, rest.len() as int) =~= src@.subrange(
            start + width,
            n as int,
        ));
        assert(before.push(row@) + wrap(src@.subrange(start + width, n as int), width as nat)
            =~= before + wrap(rest, width as nat));
        start = start + width;
    }
    let last = src.as_str().substring_char(start, n).to_owned();
    let ghost before = string_views(dst@);
    dst.push(last);
    assert(string_views(dst@) =~= before.push(last@));
    assert(before.push(last@) =~= before + wrap(src@.subrange(start as int, n as int), width as nat));
    assert(src@.subrange(0, n as int) =~= src@);
}

/// A row of the chat window.
pub enum Row {
    /// The first row of a message: when it came and who wrote it.
    Header { time: String, author: String },
    /// A row of a message's text, or of the line being typed.
    Text(String),
    /// The rule between the log and the line being typed.
    Divider,
    /// The invitation to type.
    Prompt,
}

/// A row as plain values.
pub enum RowView {
    Header(Seq<char>, Seq<char>),
    Text(Seq<char>),
    Divider,
    Prompt,
}

pub open spec fn row_view(r: Row) -> RowView {
    match r {
        Row::Header { time, author } => RowView::Header(time@, author@),
        Row::Text(t) => RowView::Text(t@),
        Row::Divider => RowView::Divider,
        Row::Prompt => RowView::Prompt,
    }
}

pub open spec fn row_views(v: Seq<Row>) -> Seq<RowView> {
    v.map_values(|r: Row| row_view(r))
}

/// Text rows holding each of `t`.
pub open spec fn text_rows(t: Seq<Seq<char>>) -> Seq<RowView> {
    t.map_values(|x: Seq<char>| RowView::Text(x))
}

/// The rows of a log: for each message in order, its header and then its
/// text wrapped to `width`.
pub open spec fn log_rows(log: Seq<MessageView>, width: nat) -> Seq<RowView>
    decreases log.len(),
{
    if log.len() == 0 {
        Seq::empty()
    } else {
        let m = log.last();
        log_rows(log.drop_last(), width) + seq![RowView::Header(m.1, m.0)] + text_rows(
            wrap(m.2, width),
        )
    }
}

/// Every row of the window, top to bottom: the log, the rule, the prompt and
/// the line being typed.
pub open spec fn screen_rows(log: Seq<MessageView>, input: Seq<char>, width: nat) -> Seq<RowView> {
    log_rows(log, width) + seq![RowView::Divider, RowView::Prompt] + text_rows(wrap(input, width))
}

/// The last `height` of `rows`: those that scrolled past the top are gone.
pub open spec fn last_rows(rows: Seq<RowView>, height: nat) -> Seq<RowView> {
    if rows.len() <= height {
        rows
    } else {
        rows.subrange(rows.len() - height, rows.len() as int)
    }
}

fn copy_row(r: &Row) -> (c: Row)
    ensures
        row_view(c) == row_view(*r),
{
    match r {
        Row::Header { time, author } => Row::Header { time: time.clone(), author: author.clone() },
        Row::Text(t) => Row::Text(t.clone()),
        Row::Divider => Row::Divider,
        Row::Prompt => Row::Prompt,
    }
}

fn push_text_rows(text: String, dst: &mut Vec<Row>, width: usize)
    requires
        width > 0,
    ensures
        row_views(final(dst)@) == row_views(old(dst)@) + text_rows(wrap(text@, width as nat)),
{
    let mut parts: Vec<String> = Vec::new();
    split_and_push(text, &mut parts, width);
    assert(string_views(parts@) =~= wrap(text@, width as nat));
    let ghost start = row_views(dst@);
    let mut i: usize = 0;
    while i < parts.len()
        invariant
            0 <= i <= parts@.len(),
            string_views(parts@) == wrap(text@, width as nat),
            row_views(dst@) == start + text_rows(string_views(parts@).subrange(0, i as int)),
        decreases parts@.len() - i,
    {
        let part = parts[i].clone();
        let ghost before = row_views(dst@);
        dst.push(Row::Text(part));
        assert(row_views(dst@) =~= before.push(RowView::Text(parts@[i as int]@)));
        assert(text_rows(string_views(parts@).subrange(0, i as int + 1)) =~= text_rows(
            string_views(parts@).subrange(0, i as int),
        ).push(RowView::Text(parts@[i as int]@)));
        i = i + 1;
    }
    assert(string_views(parts@).subrange(0, parts@.len() as int) =~= string_views(parts@));
}

/// The rows that a window of `width` columns and `height` rows shows of a
/// session, top to bottom.
pub fn visible_rows(session: &Session, width: usize, height: usize) -> (r: Vec<Row>)
    requires
        width > 0,
    ensures
        row_views(r@) == last_rows(
            screen_rows(session@.log, session@.input.0, width as nat),
            height as nat,
        ),
{
    let log = session.log();
    let ghost views = log@.map_values(|m: Message| message_view(m));
    let mut all: Vec<Row> = Vec::new();
    let mut i: usize = 0;
    while i < log.len()
        invariant
            width > 0,
            0 <= i <= log@.len(),
            views == session@.log,
            views == log@.map_values(|m: Message| message_view(m)),
            row_views(all@) == log_rows(views.subrange(0, i as int), width as nat),
        decreases log@.len() - i,
    {
        let msg = &log[i];
        let ghost before = row_views(all@);
        all.push(Row::Header { time: msg.time.clone(), author: msg.author.clone() });
        assert(row_views(all@) =~= before.push(RowView::Header(views[i as int].1, views[i as int].0)));
        push_text_rows(msg.body.clone(), &mut all, width);
        assert(views.subrange(0, i as int + 1).drop_last() =~= views.subrange(0, i as int));
        assert(before.push(RowView::Header(views[i as int].1, views[i as int].0)) =~= before + seq![
            RowView::Header(views[i as int].1, views[i as int].0),
        ]);
        i = i + 1;
    }
    assert(views.subrange(0, log@.len() as int) =~= views);
    let ghost logged = row_views(all@);
    all.push(Row::Divider);
    all.push(Row::Prompt);
    assert(row_views(all@) =~= logged + seq![RowView::Divider, RowView::Prompt]);
    push_text_rows(session.input().contents(), &mut all, width);
    let ghost rows = row_views(all@);
    if all.len() <= height {
        return all;
    }
    let skip = all.len() - height;
    let mut shown: Vec<Row> = Vec::new();
    let mut j: usize = skip;
    while j < all.len()
        invariant
            skip <= j <= all@.len(),
            rows == row_views(all@),
            row_views(shown@) == rows.subrange(skip as int, j as int),
        decreases all@.len() - j,
    {
        let ghost before = row_views(shown@);
        let row = copy_row(&all[j]);
        shown.push(row);
        assert(row_views(shown@) =~= before.push(row_view(all@[j as int])));
        assert(rows[j as int] == row_view(all@[j as int]));
        assert(row_views(shown@) =~= rows.subrange(skip as int, j as int + 1));
        j = j + 1;
    }
    shown
}

} // verus!
