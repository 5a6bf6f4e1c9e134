use vstd::prelude::*;

verus! {

// ── Keys ──────────────────────────────────────────────────────────────────

/// A key press as the screens read it.
#[derive(Debug, Clone, Copy, PartialEq, Eq, Structural)]
pub enum Key {
    Up,
    Down,
    Left,
    Right,
    Enter,
    Esc,
    Tab,
    BackTab,
    PageUp,
    PageDown,
    Home,
    End,
    Backspace,
    Delete,
    Char(char),
    F(u8),
    Other,
}

/// Converts a digit key `'1'..='8'` to a navigation index `0..=7`.
pub fn char_to_view_index(c: char) -> (r: Option<usize>)
    ensures
        '1' <= c <= '8' ==> r == Some((c as int - '1' as int) as usize),
        !('1' <= c <= '8') ==> r is None,
{
    match c {
        '1' => Some(0),
        '2' => Some(1),
        '3' => Some(2),
        '4' => Some(3),
        '5' => Some(4),
        '6' => Some(5),
        '7' => Some(6),
        '8' => Some(7),
        _ => None,
    }
}

// ── The terminal log ──────────────────────────────────────────────────────

/// The log's scroll offset after a key on the terminal view: Up scrolls back
/// one line (not past the top), Down one line forward.
pub open spec fn scrolled(scroll: int, key: Key) -> int {
    match key {
        Key::Up => if scroll > 0 {
            scroll - 1
        } else {
            scroll
        },
        Key::Down => scroll + 1,
        _ => scroll,
    }
}

/// Scrolls the terminal log.
pub fn scroll_log(scroll: usize, key: Key) -> (r: usize)
    requires
        key is Down ==> scroll < usize::MAX,
    ensures
        r == scrolled(scroll as int, key),
{
    match key {
        Key::Up => if scroll > 0 {
            scroll - 1
        } else {
            scroll
        },
        Key::Down => scroll + 1,
        _ => scroll,
    }
}

// ── Two-by-two card grids ─────────────────────────────────────────────────

/// The selected card of a two-column, two-row grid after an arrow key.
pub open spec fn grid_moved(cur: int, key: Key) -> int {
    match key {
        Key::Left => if cur % 2 == 1 {
            cur - 1
        } else {
            cur
        },
        Key::Right => if cur % 2 == 0 && cur + 1 < 4 {
            cur + 1
        } else {
            cur
        },
        Key::Up => if cur >= 2 {
            cur - 2
        } else {
            cur
        },
        Key::Down => if cur + 2 < 4 {
            cur + 2
        } else {
            cur
        },
        _ => cur,
    }
}

/// Moves the selection in a two-by-two grid of cards.
pub fn grid_move(cur: usize, key: Key) -> (r: usize)
    ensures
        r == grid_moved(cur as int, key),
{
    match key {
        Key::Left => if cur % 2 == 1 {
            cur - 1
        } else {
            cur
        },
        Key::Right => if cur % 2 == 0 && cur < 3 {
            cur + 1
        } else {
            cur
        },
        Key::Up => if cur >= 2 {
            cur - 2
        } else {
            cur
        },
        Key::Down => if cur < 2 {
            cur + 2
        } else {
            cur
        },
        _ => cur,
    }
}

// ── The text input bar ────────────────────────────────────────────────────

/// A line being typed, with a cursor counted in characters.
pub struct TextInput {
    pub text: Vec<char>,
    pub cursor: usize,
}

/// What an edit key does to a line and its cursor; the third part is the
/// line handed over when Enter submits it.
pub open spec fn edited(text: Seq<char>, cursor: int, key: Key) -> (Seq<char>, int, Option<Seq<char>>) {
    match key {
        Key::Char(c) => (text.insert(cursor, c), cursor + 1, None),
        Key::Backspace => if cursor > 0 {
            (text.remove(cursor - 1), cursor - 1, None)
        } else {
            (text, cursor, None)
        },
        Key::Delete => if cursor < text.len() {
            (text.remove(cursor), cursor, None)
        } else {
            (text, cursor, None)
        },
        Key::Left => if cursor > 0 {
            (text, cursor - 1, None)
        } else {
            (text, cursor, None)
        },
        Key::Right => if cursor < text.len() {
            (text, cursor + 1, None)
        } else {
            (text, cursor, None)
        },
        Key::Home => (text, 0, None),
        Key::End => (text, text.len() as int, None),
        Key::Enter => if text.len() > 0 {
            (Seq::empty(), 0, Some(text))
        } else {
            (text, cursor, None)
        },
        _ => (text, cursor, None),
    }
}

impl TextInput {
    /// The cursor stands within the line, which has room for one more character.
    pub open spec fn wf(&self) -> bool {
        &&& self.cursor <= self.text.len()
        &&& self.text.len() < usize::MAX
    }

    /// Whether the line can take an edit key (`wf`).
    pub fn can_edit(&self) -> (b: bool)
        ensures
            b == self.wf(),
    {
        self.cursor <= self.text.len() && self.text.len() < usize::MAX
    }

    pub fn new() -> (t: Self)
        ensures
            t.text@ == Seq::<char>::empty(),
            t.cursor == 0,
    {
        TextInput { text: Vec::new(), cursor: 0 }
    }

    /// Applies an edit key. Characters are inserted at the cursor; Enter
    /// submits a non-empty line, clears it and returns it.
    pub fn handle_key(&mut self, key: Key) -> (submitted: Option<Vec<char>>)
        requires
            old(self).wf(),
        ensures
            (final(self).text@, final(self).cursor as int, match submitted {
                Some(v) => Some(v@),
                None => None,
            }) == edited(old(self).text@, old(self).cursor as int, key),
            final(self).cursor <= final(self).text.len(),
    {
        match key {
            Key::Char(c) => {
                self.text.insert(self.cursor, c);
                self.cursor = self.cursor + 1;
                None
            },
            Key::Backspace => {
                if self.cursor > 0 {
                    self.cursor = self.cursor - 1;
                    self.text.remove(self.cursor);
                }
                None
            },
            Key::Delete => {
                if self.cursor < self.text.len() {
                    self.text.remove(self.cursor);
                }
                None
            },
            Key::Left => {
                if self.cursor > 0 {
                    self.cursor = self.cursor - 1;
                }
                None
            },
            Key::Right => {
                if self.cursor < self.text.len() {
                    self.cursor = self.cursor + 1;
                }
                None
            },
            Key::Home => {
                self.cursor = 0;
                None
            },
            Key::End => {
                self.cursor = self.text.len();
                None
            },
            Key::Enter => {
                if self.text.len() > 0 {
                    let mut line: Vec<char> = Vec::new();
                    std::mem::swap(&mut line, &mut self.text);
                    self.cursor = 0;
                    Some(line)
                } else {
                    None
                }
            },
            _ => None,
        }
    }
}

/// A grid move keeps the selection on one of the four cards.
pub proof fn lemma_grid_stays_inside(cur: int, key: Key)
    requires
        0 <= cur < 4,
    ensures
        0 <= grid_moved(cur, key) < 4,
{
}

/// Backspace right after typing a character gives back the line and cursor
/// as they were.
pub proof fn lemma_backspace_undoes_typing(text: Seq<char>, cursor: int, c: char)
    requires
        0 <= cursor <= text.len(),
    ensures
        ({
            let typed = edited(text, cursor, Key::Char(c));
            edited(typed.0, typed.1, Key::Backspace) == (text, cursor, None::<Seq<char>>)
        }),
{
    assert(text.insert(cursor, c).remove(cursor) =~= text);
}

/// Every edit keeps the cursor within the line.
pub proof fn lemma_cursor_stays_inside(text: Seq<char>, cursor: int, key: Key)
    requires
        0 <= cursor <= text.len(),
    ensures
        0 <= edited(text, cursor, key).1 <= edited(text, cursor, key).0.len(),
{
}

} // verus!
