//! The state of an interactive chat session on the client: the line being
//! typed, the log of messages shown, and the colour given to each author.

use vstd::prelude::*;
use vstd::utf8::{decode_utf8, encode_utf8, valid_utf8};
use crate::framing::{byte_views, decode_line, encode_line, lines_of, rest_of, LineBuffer, NEWLINE};

verus! {

/// The most characters that the line being typed can hold.
pub const INPUT_CAPACITY: usize = 1024;

/// The line being typed, as its characters and the cursor's position.
pub type InputView = (Seq<char>, nat);

/// The line after typing `c` at the cursor.
pub open spec fn insert_spec(s: InputView, c: char) -> InputView {
    (s.0.insert(s.1 as int, c), s.1 + 1)
}

/// The line after a backspace: the character before the cursor goes, and
/// nothing happens at the start of the line.
pub open spec fn backspace_spec(s: InputView) -> InputView {
    if s.1 == 0 {
        s
    } else {
        (s.0.remove(s.1 - 1), (s.1 - 1) as nat)
    }
}

/// The line after moving the cursor one character to the left, if it can.
pub open spec fn left_spec(s: InputView) -> InputView {
    if s.1 == 0 {
        s
    } else {
        (s.0, (s.1 - 1) as nat)
    }
}

/// The line after moving the cursor one character to the right, if it can.
pub open spec fn right_spec(s: InputView) -> InputView {
    if s.1 >= s.0.len() {
        s
    } else {
        (s.0, s.1 + 1)
    }
}

/// Why a keystroke was not taken into the line being typed.
#[derive(Debug, PartialEq, Eq, Clone, Copy)]
pub enum InputError {
    /// The line already holds `INPUT_CAPACITY` characters.
    Full,
}

/// Relies on `FromIterator<char>` for `String`: the characters, in order.
#[verifier::external_body]
fn string_from_chars(chars: &Vec<char>) -> (r: String)
    ensures
        r@ == chars@,
{
    String::from_iter(chars)
}

/// The line being typed, with an insertion cursor.
pub struct InputBuffer {
    chars: Vec<char>,
    cursor: usize,
}

impl View for InputBuffer {
    type V = InputView;

    closed spec fn view(&self) -> InputView {
        (self.chars@, self.cursor as nat)
    }
}

impl InputBuffer {
    pub open spec fn wf(&self) -> bool {
        &&& self@.1 <= self@.0.len() <= INPUT_CAPACITY
        &&& !self@.0.contains('\n')
    }

    pub fn new() -> (r: InputBuffer)
        ensures
            r.wf(),
            r@ == (Seq::<char>::empty(), 0nat),
    {
        InputBuffer { chars: Vec::new(), cursor: 0 }
    }

    /// The characters typed so far.
    pub fn contents(&self) -> (r: String)
        ensures
            r@ == self@.0,
    {
        string_from_chars(&self.chars)
    }

    pub fn cursor(&self) -> (r: usize)
        ensures
            r == self@.1,
    {
        self.cursor
    }

    /// Types `c` at the cursor, unless the line is full.
    pub fn insert(&mut self, c: char) -> (r: Result<(), InputError>)
        requires
            old(self).wf(),
            c != '\n',
        ensures
            final(self).wf(),
            r is Ok <==> old(self)@.0.len() < INPUT_CAPACITY,
            r is Ok ==> final(self)@ == insert_spec(old(self)@, c),
            r is Err ==> final(self)@ == old(self)@ && r == Err::<(), InputError>(InputError::Full),
    {
        if self.chars.len() >= INPUT_CAPACITY {
            return Err(InputError::Full);
        }
        self.chars.insert(self.cursor, c);
        self.cursor = self.cursor + 1;
        assert(!self@.0.contains('\n')) by {
            assert forall|k: int| 0 <= k < self@.0.len() implies self@.0[k] != '\n' by {
                if k < old(self)@.1 {
                    assert(self@.0[k] == old(self)@.0[k]);
                } else if k > old(self)@.1 {
                    assert(self@.0[k] == old(self)@.0[k - 1]);
                }
            }
        }
        Ok(())
    }

    /// Removes the character before the cursor, if there is one.
    pub fn backspace(&mut self)
        requires
            old(self).wf(),
        ensures
            final(self).wf(),
            final(self)@ == backspace_spec(old(self)@),
    {
        if self.cursor > 0 {
            self.cursor = self.cursor - 1;
            self.chars.remove(self.cursor);
            assert(!self@.0.contains('\n')) by {
                assert forall|k: int| 0 <= k < self@.0.len() implies self@.0[k] != '\n' by {
                    if k < self@.1 {
                        assert(self@.0[k] == old(self)@.0[k]);
                    } else {
                        assert(self@.0[k] == old(self)@.0[k + 1]);
                    }
                }
            }
        }
    }

    /// Moves the cursor one character to the left, if it can.
    pub fn move_left(&mut self)
        requires
            old(self).wf(),
        ensures
            final(self).wf(),
            final(self)@ == left_spec(old(self)@),
    {
        if self.cursor > 0 {
            self.cursor = self.cursor - 1;
        }
    }

    /// Moves the cursor one character to the right, if it can.
    pub fn move_right(&mut self)
        requires
            old(self).wf(),
        ensures
            final(self).wf(),
            final(self)@ == right_spec(old(self)@),
    {
        if self.cursor < self.chars.len() {
            self.cursor = self.cursor + 1;
        }
    }

    /// Hands out the line typed so far and leaves the buffer empty.
    pub fn take(&mut self) -> (r: String)
        requires
            old(self).wf(),
        ensures
            final(self).wf(),
            r@ == old(self)@.0,
            final(self)@ == (Seq::<char>::empty(), 0nat),
    {
        let r = string_from_chars(&self.chars);
        self.chars.clear();
        self.cursor = 0;
        r
    }
}

/// The line after typing each of `cs` in turn.
pub open spec fn insert_all(s: InputView, cs: Seq<char>) -> InputView
    decreases cs.len(),
{
    if cs.len() == 0 {
        s
    } else {
        insert_spec(insert_all(s, cs.drop_last()), cs.last())
    }
}

/// The line after `n` backspaces.
pub open spec fn backspace_n(s: InputView, n: nat) -> InputView
    decreases n,
{
    if n == 0 {
        s
    } else {
        backspace_spec(backspace_n(s, (n - 1) as nat))
    }
}

proof fn lemma_backspace_n_after_insert(s: InputView, c: char, n: nat)
    requires
        s.1 <= s.0.len(),
    ensures
        backspace_n(insert_spec(s, c), n + 1) == backspace_n(s, n),
    decreases n,
{
    let t = insert_spec(s, c);
    if n == 0 {
        assert(backspace_n(t, 0) == t);
        assert(s.0.insert(s.1 as int, c).remove(s.1 as int) =~= s.0);
        assert(backspace_spec(t) == s);
    } else {
        lemma_backspace_n_after_insert(s, c, (n - 1) as nat);
        assert(backspace_n(t, n + 1) == backspace_spec(backspace_n(t, n)));
    }
}

/// Typing some characters and then as many backspaces leaves the line as it
/// was, cursor included.
pub proof fn lemma_insert_then_backspace(s: InputView, cs: Seq<char>)
    requires
        s.1 <= s.0.len(),
    ensures
        backspace_n(insert_all(s, cs), cs.len()) == s,
    decreases cs.len(),
{
    if cs.len() > 0 {
        let t = insert_all(s, cs.drop_last());
        lemma_insert_all_wf(s, cs.drop_last());
        lemma_backspace_n_after_insert(t, cs.last(), (cs.len() - 1) as nat);
        lemma_insert_then_backspace(s, cs.drop_last());
    }
}

proof fn lemma_insert_all_wf(s: InputView, cs: Seq<char>)
    requires
        s.1 <= s.0.len(),
    ensures
        insert_all(s, cs).1 <= insert_all(s, cs).0.len(),
        insert_all(s, cs).0.len() == s.0.len() + cs.len(),
    decreases cs.len(),
{
    if cs.len() > 0 {
        lemma_insert_all_wf(s, cs.drop_last());
    }
}

/// A backspace on an empty line changes nothing.
pub proof fn lemma_backspace_empty()
    ensures
        backspace_spec((Seq::<char>::empty(), 0nat)) == (Seq::<char>::empty(), 0nat),
{
}

/// A message in the log: who wrote it, when it was received, and its text.
pub struct Message {
    pub author: String,
    pub time: String,
    pub body: String,
}

/// A message as author, time and text.
pub type MessageView = (Seq<char>, Seq<char>, Seq<char>);

pub open spec fn message_view(m: Message) -> MessageView {
    (m.author@, m.time@, m.body@)
}

/// The author name given to the messages typed in this session.
pub open spec fn own_name() -> Seq<char> {
    "You"@
}

/// The colours that authors are given, in order of assignment.
#[derive(Debug, PartialEq, Eq, Clone, Copy)]
pub enum Colour {
    Red,
    Green,
    Yellow,
    Blue,
    Magenta,
    Cyan,
}

/// The colour of the author who was assigned `i`-th.
pub open spec fn palette(i: int) -> Colour {
    let k = i % 6;
    if k == 0 {
        Colour::Red
    } else if k == 1 {
        Colour::Green
    } else if k == 2 {
        Colour::Yellow
    } else if k == 3 {
        Colour::Blue
    } else if k == 4 {
        Colour::Magenta
    } else {
        Colour::Cyan
    }
}

/// The authors after `author` is seen: appended at its first sighting.
pub open spec fn assign_spec(authors: Seq<Seq<char>>, author: Seq<char>) -> Seq<Seq<char>> {
    if authors.contains(author) {
        authors
    } else {
        authors.push(author)
    }
}

/// Colours given to authors on first sight, stable for the session and cycling
/// through the palette in order of assignment.
pub struct ColourMap {
    authors: Vec<String>,
}

impl View for ColourMap {
    type V = Seq<Seq<char>>;

    closed spec fn view(&self) -> Seq<Seq<char>> {
        self.authors@.map_values(|a: String| a@)
    }
}

impl ColourMap {
    pub open spec fn wf(&self) -> bool {
        self@.no_duplicates()
    }

    /// A map in which the session's own messages already have their colour.
    pub fn new() -> (r: ColourMap)
        ensures
            r.wf(),
            r@ == seq![own_name()],
    {
        let mut authors: Vec<String> = Vec::new();
        authors.push("You".to_owned());
        let r = ColourMap { authors };
        assert(r@ =~= seq![own_name()]);
        r
    }

    fn position(&self, author: &String) -> (r: Option<usize>)
        ensures
            r matches Some(i) ==> i < self@.len() && self@[i as int] == author@,
            r is None ==> !self@.contains(author@),
    {
        let mut i: usize = 0;
        while i < self.authors.len()
            invariant
                0 <= i <= self@.len(),
                self@.len() == self.authors@.len(),
                forall|k: int| 0 <= k < i ==> self@[k] != author@,
            decreases self.authors@.len() - i,
        {
            if self.authors[i] == *author {
                return Some(i);
            }
            i = i + 1;
        }
        None
    }

    /// Gives `author` the next colour of the palette unless it already has one.
    pub fn colour_author(&mut self, author: String)
        requires
            old(self).wf(),
        ensures
            final(self).wf(),
            final(self)@ == assign_spec(old(self)@, author@),
    {
        if self.position(&author).is_none() {
            let ghost a = author@;
            self.authors.push(author);
            assert(self@ =~= old(self)@.push(a));
            assert(self@.no_duplicates()) by {
                assert forall|x: int, y: int| 0 <= x < y < self@.len() implies self@[x] != self@[y] by {
                    if y == old(self)@.len() {
                        assert(old(self)@.contains(old(self)@[x]));
                    } else {
                        assert(old(self)@[x] != old(self)@[y]);
                    }
                }
            }
        }
    }

    /// The colour of `author`, where it has one.
    pub fn colour_of(&self, author: &String) -> (r: Option<Colour>)
        requires
            self.wf(),
        ensures
            r is None <==> !self@.contains(author@),
            forall|i: int|
                0 <= i < self@.len() && self@[i] == author@ ==> r == Some(palette(i)),
    {
        match self.position(author) {
            None => None,
            Some(i) => {
                assert forall|j: int| 0 <= j < self@.len() && self@[j] == author@ implies j == i by {
                    if j != i {
                        assert(self@[j] != self@[i as int]);
                    }
                }
                let k = i % 6;
                let c = if k == 0 {
                    Colour::Red
                } else if k == 1 {
                    Colour::Green
                } else if k == 2 {
                    Colour::Yellow
                } else if k == 3 {
                    Colour::Blue
                } else if k == 4 {
                    Colour::Magenta
                } else {
                    Colour::Cyan
                };
                Some(c)
            },
        }
    }
}

/// Whether `i` is the position of the first `:` in `t`.
pub open spec fn first_colon_at(t: Seq<char>, i: int) -> bool {
    &&& 0 <= i < t.len()
    &&& t[i] == ':'
    &&& forall|k: int| 0 <= k < i ==> t[k] != ':'
}

/// A line from the server read as `author:body`, split at its first `:`;
/// `None` where it holds none.
pub open spec fn split_author(t: Seq<char>) -> Option<(Seq<char>, Seq<char>)> {
    if exists|i: int| first_colon_at(t, i) {
        let i = choose|i: int| first_colon_at(t, i);
        Some((t.subrange(0, i), t.subrange(i + 1, t.len() as int)))
    } else {
        None
    }
}

proof fn lemma_first_colon_unique(t: Seq<char>, i: int, j: int)
    requires
        first_colon_at(t, i),
        first_colon_at(t, j),
    ensures
        i == j,
{
    if i < j {
        assert(t[i] != ':');
    } else if j < i {
        assert(t[j] != ':');
    }
}

/// Splits a line from the server into its author and its body, at the first
/// `:`; `None` where the line holds no `:`.
pub fn split_line(raw: &str) -> (r: Option<(String, String)>)
    ensures
        r is None <==> split_author(raw@) is None,
        r matches Some(p) ==> split_author(raw@) == Some((p.0@, p.1@)),
{
    let n = raw.unicode_len();
    let mut i: usize = 0;
    while i < n
        invariant
            n == raw@.len(),
            0 <= i <= n,
            forall|k: int| 0 <= k < i ==> raw@[k] != ':',
        decreases n - i,
    {
        if raw.get_char(i) == ':' {
            let author = raw.substring_char(0, i).to_owned();
            let body = raw.substring_char(i + 1, n).to_owned();
            proof {
                assert(first_colon_at(raw@, i as int));
                let j = choose|j: int| first_colon_at(raw@, j);
                lemma_first_colon_unique(raw@, i as int, j);
            }
            return Some((author, body));
        }
        i = i + 1;
    }
    assert(!exists|j: int| first_colon_at(raw@, j));
    None
}

/// A key pressed on the client's terminal.
#[derive(Debug, PartialEq, Eq, Clone, Copy)]
pub enum KeyPress {
    Char(char),
    Ctrl(char),
    Backspace,
    Left,
    Right,
    Other,
}

/// What a key asks of the session beyond editing the line being typed.
#[derive(Debug, PartialEq, Eq, Clone, Copy)]
pub enum KeyAction {
    /// Leave the session.
    Quit,
    /// Send the line typed so far and start a new one.
    Clear,
    /// The key was refused: the line is full.
    Full,
}

/// The line being typed after a key, and what the key asks beyond that.
pub open spec fn key_spec(s: InputView, key: KeyPress) -> (InputView, Option<KeyAction>) {
    match key {
        KeyPress::Ctrl(c) => if c == 'c' {
            (s, Some(KeyAction::Quit))
        } else {
            (s, None)
        },
        KeyPress::Char(c) => if c == '\n' {
            (s, Some(KeyAction::Clear))
        } else if s.0.len() < INPUT_CAPACITY {
            (insert_spec(s, c), None)
        } else {
            (s, Some(KeyAction::Full))
        },
        KeyPress::Backspace => (backspace_spec(s), None),
        KeyPress::Left => (left_spec(s), None),
        KeyPress::Right => (right_spec(s), None),
        KeyPress::Other => (s, None),
    }
}

/// Applies a key to the line being typed: Ctrl-C quits, Enter asks for the
/// line to be sent, other characters are typed at the cursor.
pub fn process_key(key: KeyPress, msg_buf: &mut InputBuffer) -> (r: Option<KeyAction>)
    requires
        old(msg_buf).wf(),
    ensures
        final(msg_buf).wf(),
        (final(msg_buf)@, r) == key_spec(old(msg_buf)@, key),
{
    match key {
        KeyPress::Ctrl(c) => {
            if c == 'c' {
                Some(KeyAction::Quit)
            } else {
                None
            }
        },
        KeyPress::Char(c) => {
            if c == '\n' {
                Some(KeyAction::Clear)
            } else {
                match msg_buf.insert(c) {
                    Ok(()) => None,
                    Err(_) => Some(KeyAction::Full),
                }
            }
        },
        KeyPress::Backspace => {
            msg_buf.backspace();
            None
        },
        KeyPress::Left => {
            msg_buf.move_left();
            None
        },
        KeyPress::Right => {
            msg_buf.move_right();
            None
        },
        KeyPress::Other => None,
    }
}

/// Relies on chrono's `Utc::now`, formatted with `%T`: the time of day as
/// the clock gives it, which nothing here can predict.
#[verifier::external_body]
fn timestamp() -> String {
    chrono::Utc::now().format("%T").to_string()
}

/// Something that happened to a session: a key was pressed, bytes came from
/// the server, or the connection ended.
pub enum Event {
    Key(KeyPress),
    Data(Vec<u8>),
    Closed,
    Failed,
}

/// What the session asks of its surroundings after an event.
pub enum Step {
    /// Nothing beyond a redraw.
    Continue,
    /// Write these bytes to the server.
    Send(Vec<u8>),
    /// The key was refused: the line being typed is full.
    Rejected,
    /// The user asked to leave.
    Quit,
    /// The connection to the server is gone.
    Disconnected,
}

/// A session as its line being typed, its log, its authors in order of
/// colour assignment, and the bytes of a line from the server not yet complete.
pub struct SessionView {
    pub input: InputView,
    pub log: Seq<MessageView>,
    pub authors: Seq<Seq<char>>,
    pub pending: Seq<u8>,
}

/// Log and authors after a line of text from the server: a well-formed
/// `author:body` line is logged and its author coloured; any other is dropped.
pub open spec fn accept_text(
    st: (Seq<MessageView>, Seq<Seq<char>>),
    t: Seq<char>,
    time: Seq<char>,
) -> (Seq<MessageView>, Seq<Seq<char>>) {
    match split_author(t) {
        Some(p) => (st.0.push((p.0, time, p.1)), assign_spec(st.1, p.0)),
        None => st,
    }
}

/// Log and authors after a framed line: one that is not UTF-8 is dropped.
pub open spec fn accept_line(
    st: (Seq<MessageView>, Seq<Seq<char>>),
    line: Seq<u8>,
    time: Seq<char>,
) -> (Seq<MessageView>, Seq<Seq<char>>) {
    if valid_utf8(line) {
        accept_text(st, decode_utf8(line), time)
    } else {
        st
    }
}

/// Log and authors after each of `lines` in turn.
pub open spec fn accept_lines(
    st: (Seq<MessageView>, Seq<Seq<char>>),
    lines: Seq<Seq<u8>>,
    time: Seq<char>,
) -> (Seq<MessageView>, Seq<Seq<char>>)
    decreases lines.len(),
{
    if lines.len() == 0 {
        st
    } else {
        accept_line(accept_lines(st, lines.drop_last(), time), lines.last(), time)
    }
}

/// How a session goes from `s` to `t`, answering `step`, on `ev` received at
/// `time`.
pub open spec fn stepped(s: SessionView, ev: Event, time: Seq<char>, t: SessionView, step: Step) -> bool {
    match ev {
        Event::Key(k) => {
            let (input, action) = key_spec(s.input, k);
            &&& t.authors == s.authors
            &&& t.pending == s.pending
            &&& match action {
                None => t.input == input && t.log == s.log && step is Continue,
                Some(KeyAction::Quit) => t == s && step is Quit,
                Some(KeyAction::Full) => t == s && step is Rejected,
                Some(KeyAction::Clear) => {
                    &&& t.input == (Seq::<char>::empty(), 0nat)
                    &&& t.log == s.log.push((own_name(), time, s.input.0))
                    &&& step matches Step::Send(b) && b@ == encode_utf8(s.input.0).push(NEWLINE)
                },
            }
        },
        Event::Data(b) => {
            let (log, authors) = accept_lines((s.log, s.authors), lines_of(s.pending + b@), time);
            &&& t.input == s.input
            &&& t.log == log
            &&& t.authors == authors
            &&& t.pending == rest_of(s.pending + b@)
            &&& step is Continue
        },
        _ => t == s && step is Disconnected,
    }
}

/// A chat session: the line being typed, the append-only log of messages,
/// the authors' colours, and the framing of what the server sends.
pub struct Session {
    input: InputBuffer,
    log: Vec<Message>,
    colours: ColourMap,
    incoming: LineBuffer,
}

impl View for Session {
    type V = SessionView;

    closed spec fn view(&self) -> SessionView {
        SessionView {
            input: self.input@,
            log: self.log@.map_values(|m: Message| message_view(m)),
            authors: self.colours@,
            pending: self.incoming@,
        }
    }
}

impl Session {
    pub closed spec fn wf(&self) -> bool {
        &&& self.input.wf()
        &&& self.colours.wf()
        &&& self.incoming.wf()
    }

    pub fn new() -> (r: Session)
        ensures
            r.wf(),
            r@ == (SessionView {
                input: (Seq::<char>::empty(), 0nat),
                log: Seq::empty(),
                authors: seq![own_name()],
                pending: Seq::empty(),
            }),
    {
        let r = Session {
            input: InputBuffer::new(),
            log: Vec::new(),
            colours: ColourMap::new(),
            incoming: LineBuffer::new(),
        };
        assert(r@.log =~= Seq::<MessageView>::empty());
        r
    }

    /// The line being typed.
    pub fn input(&self) -> (r: &InputBuffer)
        ensures
            r@ == self@.input,
    {
        &self.input
    }

    /// The messages logged so far, oldest first.
    pub fn log(&self) -> (r: &Vec<Message>)
        ensures
            r@.map_values(|m: Message| message_view(m)) == self@.log,
    {
        &self.log
    }

    /// The colour of `author`, where it has one.
    pub fn colour_of(&self, author: &String) -> (r: Option<Colour>)
        requires
            self.wf(),
        ensures
            r is None <==> !self@.authors.contains(author@),
            forall|i: int|
                0 <= i < self@.authors.len() && self@.authors[i] == author@ ==> r == Some(
                    palette(i),
                ),
    {
        self.colours.colour_of(author)
    }

    fn push_message(&mut self, author: String, time: String, body: String)
        ensures
            final(self)@.log == old(self)@.log.push((author@, time@, body@)),
            final(self).input == old(self).input,
            final(self).colours == old(self).colours,
            final(self).incoming == old(self).incoming,
    {
        self.log.push(Message { author, time, body });
        assert(self@.log =~= old(self)@.log.push((author@, time@, body@)));
    }

    /// Logs the line typed so far as the session's own message, clears it, and
    /// returns the bytes that carry it to the server.
    pub fn submit(&mut self, time: String) -> (r: Vec<u8>)
        requires
            old(self).wf(),
        ensures
            final(self).wf(),
            r@ == encode_utf8(old(self)@.input.0).push(NEWLINE),
            final(self)@ == (SessionView {
                input: (Seq::<char>::empty(), 0nat),
                log: old(self)@.log.push((own_name(), time@, old(self)@.input.0)),
                ..old(self)@
            }),
    {
        let body = self.input.take();
        let line = encode_line(body.as_str());
        self.push_message("You".to_owned(), time, body);
        line
    }

    /// Logs a line of text from the server, read as `author:body`; returns
    /// whether it was well-formed (a malformed line is dropped).
    pub fn receive_text(&mut self, raw: &str, time: String) -> (r: bool)
        requires
            old(self).wf(),
        ensures
            final(self).wf(),
            r == split_author(raw@) is Some,
            final(self)@.input == old(self)@.input,
            final(self)@.pending == old(self)@.pending,
            (final(self)@.log, final(self)@.authors) == accept_text(
                (old(self)@.log, old(self)@.authors),
                raw@,
                time@,
            ),
    {
        match split_line(raw) {
            None => false,
            Some((author, body)) => {
                self.colours.colour_author(author.clone());
                self.push_message(author, time, body);
                true
            },
        }
    }

    /// Logs a line of text from the server, stamped with the time of receipt.
    pub fn process_msg(&mut self, raw: &str) -> (r: bool)
        requires
            old(self).wf(),
        ensures
            final(self).wf(),
            r == split_author(raw@) is Some,
            final(self)@.input == old(self)@.input,
            final(self)@.pending == old(self)@.pending,
            exists|time: Seq<char>|
                (final(self)@.log, final(self)@.authors) == accept_text(
                    (old(self)@.log, old(self)@.authors),
                    raw@,
                    time,
                ),
    {
        let time = timestamp();
        self.receive_text(raw, time)
    }

    /// Takes in bytes from the server and logs every line that they complete.
    pub fn receive_bytes(&mut self, chunk: &[u8], time: String)
        requires
            old(self).wf(),
        ensures
            final(self).wf(),
            final(self)@.input == old(self)@.input,
            final(self)@.pending == rest_of(old(self)@.pending + chunk@),
            (final(self)@.log, final(self)@.authors) == accept_lines(
                (old(self)@.log, old(self)@.authors),
                lines_of(old(self)@.pending + chunk@),
                time@,
            ),
    {
        let lines = self.incoming.receive(chunk);
        let ghost start = (old(self)@.log, old(self)@.authors);
        let mut i: usize = 0;
        while i < lines.len()
            invariant
                self.wf(),
                0 <= i <= lines@.len(),
                self@.input == old(self)@.input,
                self@.pending == rest_of(old(self)@.pending + chunk@),
                byte_views(lines@) == lines_of(old(self)@.pending + chunk@),
                (self@.log, self@.authors) == accept_lines(
                    start,
                    byte_views(lines@).subrange(0, i as int),
                    time@,
                ),
            decreases lines@.len() - i,
        {
            let line = lines[i].clone();
            assert(line@ == byte_views(lines@)[i as int]);
            assert(byte_views(lines@).subrange(0, i as int + 1).drop_last() =~= byte_views(
                lines@,
            ).subrange(0, i as int));
            match decode_line(line) {
                None => {},
                Some(text) => {
                    self.receive_text(text.as_str(), time.clone());
                },
            }
            i = i + 1;
        }
        assert(byte_views(lines@).subrange(0, lines@.len() as int) =~= byte_views(lines@));
    }

    /// Applies one event, received at `time`, and says what is to be done.
    pub fn apply_event(&mut self, ev: Event, time: String) -> (r: Step)
        requires
            old(self).wf(),
        ensures
            final(self).wf(),
            stepped(old(self)@, ev, time@, final(self)@, r),
    {
        match ev {
            Event::Key(k) => match process_key(k, &mut self.input) {
                None => Step::Continue,
                Some(KeyAction::Quit) => Step::Quit,
                Some(KeyAction::Full) => Step::Rejected,
                Some(KeyAction::Clear) => Step::Send(self.submit(time)),
            },
            Event::Data(bytes) => {
                self.receive_bytes(bytes.as_slice(), time);
                Step::Continue
            },
            Event::Closed => Step::Disconnected,
            Event::Failed => Step::Disconnected,
        }
    }

    /// Applies one event, stamped with the time at which it is handled.
    pub fn handle_event(&mut self, ev: Event) -> (r: Step)
        requires
            old(self).wf(),
        ensures
            final(self).wf(),
            exists|time: Seq<char>| stepped(old(self)@, ev, time, final(self)@, r),
    {
        let time = timestamp();
        self.apply_event(ev, time)
    }
}

} // verus!
