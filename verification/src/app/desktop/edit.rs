//! Editing a typed line, and recalling the lines before it.
use vstd::prelude::*;
use vstd::string::*;
use crate::app::desktop::mouse::one_off;
use crate::cmd::{entries, CommandEntry, EntryModel};
use crate::input::{
    backspace_input_char, delete_input_char, history_down, history_up, input_char_len,
    insert_input_char, move_input_cursor_left, move_input_cursor_right, older, place,
    reset_history_navigation, stepped,
};
use crate::os::Key;

verus! {

/// A line being edited, with its place in the history.
#[verifier::ext_equal]
pub struct LineModel {
    pub input: Seq<char>,
    pub cursor: usize,
    pub index: Option<usize>,
    pub draft: Option<Seq<char>>,
}

impl LineModel {
    /// The line with nothing recalled.
    pub open spec fn fresh(self) -> LineModel {
        LineModel { index: None, draft: None, ..self }
    }

    /// The line with the cursor at its end.
    pub open spec fn at_end(self) -> LineModel {
        LineModel { cursor: self.input.len() as usize, ..self }
    }

    /// An older line of the history.
    pub open spec fn recalled_up(self, commands: Seq<EntryModel>) -> (LineModel, bool) {
        if commands.len() == 0 {
            (self, false)
        } else {
            let next = older(commands.len(), self.index);
            (
                LineModel {
                    input: commands[next].command,
                    index: Some(next as usize),
                    draft: if self.index is None {
                        Some(self.input)
                    } else {
                        self.draft
                    },
                    ..self
                }.at_end(),
                true,
            )
        }
    }

    /// A newer line of the history, the draft behind the last.
    pub open spec fn recalled_down(self, commands: Seq<EntryModel>) -> (LineModel, bool) {
        match self.index {
            None => (self, false),
            Some(i) => if i + 1 < commands.len() {
                (
                    LineModel {
                        input: commands[i + 1].command,
                        index: Some((i + 1) as usize),
                        ..self
                    }.at_end(),
                    true,
                )
            } else {
                (
                    LineModel {
                        input: match self.draft {
                            Some(d) => d,
                            None => Seq::empty(),
                        },
                        ..self.fresh()
                    }.at_end(),
                    true,
                )
            },
        }
    }

    /// A key that edits the line, where it is one, and whether it changed it.
    pub open spec fn edited(self, commands: Seq<EntryModel>, key: Key) -> Option<(LineModel, bool)> {
        let n = self.input.len();
        match key {
            Key::Char(c) => Some(
                (
                    LineModel {
                        input: self.input.insert(place(self.cursor, n), c),
                        cursor: stepped(self.cursor),
                        ..self.fresh()
                    },
                    true,
                ),
            ),
            Key::Backspace => Some(
                (
                    LineModel {
                        input: if 0 < self.cursor <= n {
                            self.input.remove(self.cursor - 1)
                        } else {
                            self.input
                        },
                        cursor: one_off(self.cursor, false),
                        ..self.fresh()
                    },
                    self.cursor > 0,
                ),
            ),
            Key::Delete => Some(
                (
                    LineModel {
                        input: if self.cursor < n {
                            self.input.remove(self.cursor as int)
                        } else {
                            self.input
                        },
                        ..self.fresh()
                    },
                    self.cursor < n,
                ),
            ),
            Key::Left => Some(
                (LineModel { cursor: one_off(self.cursor, false), ..self }, self.cursor > 0),
            ),
            Key::Right => Some(
                (
                    LineModel {
                        cursor: if self.cursor < n {
                            stepped(self.cursor)
                        } else {
                            self.cursor
                        },
                        ..self
                    },
                    self.cursor < n,
                ),
            ),
            Key::Up => Some(self.recalled_up(commands)),
            Key::Down => Some(self.recalled_down(commands)),
            _ => None,
        }
    }
}

/// A typed character and Backspace leave the line as it was, where the cursor was in
/// it.
pub proof fn lemma_type_and_erase(l: LineModel, commands: Seq<EntryModel>, c: char)
    requires
        l.cursor <= l.input.len(),
        l.cursor < usize::MAX,
    ensures
        ({
            let typed = (l.edited(commands, Key::Char(c))->0).0;
            (typed.edited(commands, Key::Backspace)->0).0 == l.fresh()
        }),
{
    let typed = (l.edited(commands, Key::Char(c))->0).0;
    crate::input::lemma_insert_backspace(l.input, l.cursor as int, c);
    assert((typed.edited(commands, Key::Backspace)->0).0 =~= l.fresh());
}

/// A step up in the history and the step down give the typed line back.
pub proof fn lemma_recall_and_return(l: LineModel, commands: Seq<EntryModel>)
    requires
        l.index is None,
        l.input.len() <= usize::MAX,
        0 < commands.len() <= usize::MAX,
    ensures
        ({
            let up = (l.edited(commands, Key::Up)->0).0;
            let down = (up.edited(commands, Key::Down)->0).0;
            down == l.fresh().at_end() && up.input == commands.last().command
        }),
{
    let up = (l.edited(commands, Key::Up)->0).0;
    assert((up.edited(commands, Key::Down)->0).0 =~= l.fresh().at_end());
}

/// The view of a line in the fields that hold it.
pub open spec fn line_view(
    input: String,
    cursor: usize,
    index: Option<usize>,
    draft: Option<String>,
) -> LineModel {
    LineModel {
        input: input@,
        cursor,
        index,
        draft: match draft {
            Some(s) => Some(s@),
            None => None,
        },
    }
}

/// Takes a key that edits a line. Says nothing where it is none.
pub(crate) fn edit_line(
    commands: &[CommandEntry],
    input: &mut String,
    cursor: &mut usize,
    index: &mut Option<usize>,
    draft: &mut Option<String>,
    key: Key,
) -> (r: Option<bool>)
    ensures
        match line_view(*old(input), *old(cursor), *old(index), *old(draft)).edited(
            entries(commands@),
            key,
        ) {
            Some((l, b)) => r == Some(b) && line_view(
                *final(input),
                *final(cursor),
                *final(index),
                *final(draft),
            ) == l,
            None => r is None && line_view(
                *final(input),
                *final(cursor),
                *final(index),
                *final(draft),
            ) == line_view(*old(input), *old(cursor), *old(index), *old(draft)),
        },
{
    let ghost all = entries(commands@);
    assert(forall|k: int| 0 <= k < all.len() ==> #[trigger] all[k] == commands@[k]@);
    match key {
        Key::Char(c) => {
            reset_history_navigation(index, draft);
            insert_input_char(input, cursor, c);
            Some(true)
        },
        Key::Backspace => {
            reset_history_navigation(index, draft);
            Some(backspace_input_char(input, cursor))
        },
        Key::Delete => {
            reset_history_navigation(index, draft);
            Some(delete_input_char(input, cursor))
        },
        Key::Left => Some(move_input_cursor_left(cursor)),
        Key::Right => Some(move_input_cursor_right(input.as_str(), cursor)),
        Key::Up => {
            let b = history_up(commands, input, index, draft);
            if b {
                *cursor = input_char_len(input.as_str());
            }
            Some(b)
        },
        Key::Down => {
            let b = history_down(commands, input, index, draft);
            if b {
                *cursor = input_char_len(input.as_str());
            }
            Some(b)
        },
        _ => None,
    }
}

} // verus!
