//! Keys, and lines of text that are edited with them.
use vstd::prelude::*;

use crate::commands::view::text::{
    char_count, delete_char_at, delete_char_before, insert_char_at, smaller, with_char,
    without_char,
};
use crate::text::strings::{chars_of, string_between};

verus! {

/// A key.
#[derive(Debug, Clone, Copy, PartialEq, Eq, Structural)]
pub enum KeyCode {
    Esc,
    Enter,
    Tab,
    Backspace,
    Delete,
    Up,
    Down,
    Left,
    Right,
    PageUp,
    PageDown,
    Home,
    End,
    Char(char),
    Other,
}

/// A key and what is held down with it.
#[derive(Debug, Clone, Copy, PartialEq, Eq, Structural)]
pub struct KeyPress {
    pub code: KeyCode,
    pub control: bool,
    pub alt: bool,
}

/// A key for this letter, small or capital.
#[verifier::allow_in_spec]
pub fn is_letter(code: KeyCode, small: char, capital: char) -> bool
    returns
        (code == KeyCode::Char(small) || code == KeyCode::Char(capital)),
{
    match code {
        KeyCode::Char(c) => c == small || c == capital,
        _ => false,
    }
}

/// The character that a key types; none with the control or the alt key.
#[verifier::allow_in_spec]
pub fn typed_char(k: KeyPress) -> Option<char>
    returns
        (match k.code {
            KeyCode::Char(c) => if k.control || k.alt {
                None
            } else {
                Some(c)
            },
            _ => None,
        }),
{
    match k.code {
        KeyCode::Char(c) => if k.control || k.alt {
            None
        } else {
            Some(c)
        },
        _ => None,
    }
}

/// A text without its last character.
pub open spec fn popped(s: Seq<char>) -> Seq<char> {
    if s.len() == 0 {
        s
    } else {
        s.drop_last()
    }
}

/// Removes the last character of a text.
pub fn pop_char(text: &mut String)
    ensures
        final(text)@ == popped(old(text)@),
{
    let ghost before = text@;
    let chars = chars_of(text.as_str());
    if chars.len() > 0 {
        *text = string_between(&chars, 0, chars.len() - 1);
        assert(text@ =~= before.drop_last());
    }
}

/// A line of text with a cursor.
#[derive(Debug)]
pub struct LineEdit {
    pub text: String,
    pub cursor: usize,
}

/// What a [`LineEdit`] holds.
pub struct LineModel {
    pub text: Seq<char>,
    pub cursor: nat,
}

impl View for LineEdit {
    type V = LineModel;

    open spec fn view(&self) -> LineModel {
        LineModel { text: self.text@, cursor: self.cursor as nat }
    }
}

/// A line with the cursor at its end.
pub open spec fn line_with(text: Seq<char>) -> LineModel {
    LineModel { text, cursor: text.len() }
}

/// The cursor is in the line.
pub open spec fn line_ok(l: LineModel) -> bool {
    l.cursor <= l.text.len()
}

/// The line after a key. A cursor as far right as can be counted takes no
/// character.
pub open spec fn edited(l: LineModel, k: KeyPress) -> LineModel {
    match k.code {
        KeyCode::Backspace => LineModel {
            text: without_char(l.text, l.cursor - 1),
            cursor: if l.cursor == 0 {
                0
            } else {
                (l.cursor - 1) as nat
            },
        },
        KeyCode::Delete => LineModel { text: without_char(l.text, l.cursor as int), ..l },
        KeyCode::Left => LineModel {
            cursor: if l.cursor == 0 {
                0
            } else {
                (l.cursor - 1) as nat
            },
            ..l
        },
        KeyCode::Right => LineModel {
            cursor: smaller(l.cursor as int + 1, l.text.len() as int) as nat,
            ..l
        },
        KeyCode::Home => LineModel { cursor: 0, ..l },
        KeyCode::End => LineModel { cursor: l.text.len(), ..l },
        KeyCode::Char(c) => if c == 'u' && k.control {
            line_with(Seq::empty())
        } else {
            match typed_char(k) {
                Some(ch) => if l.cursor < usize::MAX {
                    LineModel {
                        text: with_char(l.text, l.cursor as int, ch),
                        cursor: l.cursor + 1,
                    }
                } else {
                    l
                },
                None => l,
            }
        },
        _ => l,
    }
}

/// The cursor stays in the line.
pub proof fn law_cursor_stays_in_line(l: LineModel, k: KeyPress)
    requires
        line_ok(l),
    ensures
        line_ok(edited(l, k)),
{
}

/// A character that is typed is removed by the key that deletes backwards.
pub proof fn law_backspace_undoes_typing(l: LineModel, c: char)
    requires
        line_ok(l),
        l.cursor < usize::MAX,
    ensures
        ({
            let typed = edited(l, KeyPress { code: KeyCode::Char(c), control: false, alt: false });
            edited(typed, KeyPress { code: KeyCode::Backspace, control: false, alt: false }) == l
        }),
{
    crate::commands::view::text::law_delete_undoes_insert(l.text, l.cursor as int, c);
}

impl LineEdit {
    /// A line with the cursor at its end.
    pub fn with_text(text: &str) -> (r: Self)
        ensures
            r@ == line_with(text@),
    {
        LineEdit { text: text.to_owned(), cursor: char_count(text) }
    }

    /// An empty line.
    pub fn empty() -> (r: Self)
        ensures
            r@ == line_with(Seq::empty()),
    {
        let r = LineEdit { text: String::new(), cursor: 0 };
        assert(r@.text =~= Seq::empty());
        r
    }

    /// Edits the line with a key.
    pub fn edit(&mut self, k: KeyPress)
        ensures
            final(self)@ == edited(old(self)@, k),
    {
        let n = char_count(self.text.as_str());
        match k.code {
            KeyCode::Backspace => {
                delete_char_before(&mut self.text, &mut self.cursor);
            },
            KeyCode::Delete => {
                delete_char_at(&mut self.text, self.cursor);
            },
            KeyCode::Left => {
                if self.cursor > 0 {
                    self.cursor = self.cursor - 1;
                }
            },
            KeyCode::Right => {
                if self.cursor < n {
                    self.cursor = self.cursor + 1;
                } else {
                    self.cursor = n;
                }
            },
            KeyCode::Home => {
                self.cursor = 0;
            },
            KeyCode::End => {
                self.cursor = n;
            },
            KeyCode::Char(c) => {
                if c == 'u' && k.control {
                    self.text = String::new();
                    self.cursor = 0;
                    assert(self.text@ =~= Seq::empty());
                } else if let Some(ch) = typed_char(k) {
                    if self.cursor < usize::MAX {
                        insert_char_at(&mut self.text, &mut self.cursor, ch);
                    }
                }
            },
            _ => {},
        }
    }
}

} // verus!
