//! The decisions of the prompt's line editor: what each key does to the
//! line being edited and to the place in the history, and what the terminal
//! side has to do next.
use vstd::prelude::*;
use crate::string_index::{
    StringIndex, SpecLine, byte_len, spec_insert, spec_insert_str, spec_remove, spec_move_left,
    spec_move_right, spec_complete,
};
use crate::text::{strings_view, push_char};

verus! {

/// A key press, as the terminal reports it.
#[derive(Clone, Copy, Debug, PartialEq, Eq, Structural)]
pub enum EditKey {
    Char(char),
    CtrlC,
    CtrlD,
    Enter,
    Backspace,
    Up,
    Down,
    Left,
    Right,
    Tab,
    Other,
}

/// What the terminal side does after a key.
#[derive(Clone, Copy, Debug, PartialEq, Eq, Structural)]
pub enum EditAction {
    /// Nothing to show.
    Nothing,
    /// Show the line again.
    Redraw,
    /// The line is complete (Enter): print a newline and run it.
    Submit,
    /// The line is interrupted (Ctrl-C): print `^C` and run it.
    Interrupt,
    /// Ctrl-D on an empty line: leave the shell.
    Exit,
    /// Tab: look up the completions of the word before the cursor.
    Complete,
}

/// The mathematical value of the editor.
#[verifier::ext_equal]
pub struct SpecEditor {
    pub line: SpecLine,
    /// What was typed while not browsing the history.
    pub new_command: Seq<char>,
    /// The history, most recent first.
    pub history: Seq<Seq<char>>,
    /// 0 while not browsing; `k` while showing the `k`-th most recent line.
    pub history_index: int,
}

/// The line set to `t`, with the cursor after its last byte.
pub open spec fn show(t: Seq<char>) -> SpecLine {
    SpecLine { text: t, index: byte_len(t) as int }
}

/// Whether a key can be handled: typing a character or `^C` needs the
/// cursor at the start of a character, and Backspace needs the byte before
/// it to start one.
pub open spec fn key_ok(e: SpecEditor, k: EditKey) -> bool {
    match k {
        EditKey::Char(c) => spec_insert(e.line, c) is Some,
        EditKey::CtrlC => spec_insert_str(e.line, "^C"@) is Some,
        EditKey::Backspace => spec_remove(e.line) is Some,
        _ => true,
    }
}

/// What a key does to the editor, and what the terminal side does next.
pub open spec fn spec_handle_key(e: SpecEditor, k: EditKey) -> (SpecEditor, EditAction) {
    match k {
        EditKey::CtrlD => if e.line.text.len() == 0 {
            (e, EditAction::Exit)
        } else {
            (e, EditAction::Nothing)
        },
        EditKey::CtrlC => (SpecEditor { line: spec_insert_str(e.line, "^C"@)->0, ..e }, EditAction::Interrupt),
        EditKey::Char(c) => (
            SpecEditor {
                line: spec_insert(e.line, c)->0,
                new_command: if e.history_index == 0 {
                    e.new_command.push(c)
                } else {
                    e.new_command
                },
                ..e
            },
            EditAction::Redraw,
        ),
        EditKey::Enter => (
            SpecEditor { line: SpecLine { text: e.line.text + seq!['\n'], ..e.line }, ..e },
            EditAction::Submit,
        ),
        EditKey::Backspace => (SpecEditor { line: spec_remove(e.line)->0, ..e }, EditAction::Redraw),
        EditKey::Up => if 0 <= e.history_index < e.history.len() {
            let k = e.history_index + 1;
            (SpecEditor { line: show(e.history[k - 1]), history_index: k, ..e }, EditAction::Redraw)
        } else {
            (e, EditAction::Redraw)
        },
        EditKey::Down => if e.history_index > 0 {
            let k = e.history_index - 1;
            let t = if k == 0 {
                e.new_command
            } else {
                e.history[k - 1]
            };
            (SpecEditor { line: show(t), history_index: k, ..e }, EditAction::Redraw)
        } else {
            (e, EditAction::Nothing)
        },
        EditKey::Left => (SpecEditor { line: spec_move_left(e.line), ..e }, EditAction::Redraw),
        EditKey::Right => (SpecEditor { line: spec_move_right(e.line), ..e }, EditAction::Redraw),
        EditKey::Tab => (e, EditAction::Complete),
        EditKey::Other => (e, EditAction::Nothing),
    }
}

/// The line editor of the prompt.
pub struct LineEditor {
    current_command: StringIndex,
    new_command: String,
    history: Vec<String>,
    history_index: usize,
}

impl View for LineEditor {
    type V = SpecEditor;

    closed spec fn view(&self) -> SpecEditor {
        SpecEditor {
            line: self.current_command@,
            new_command: self.new_command@,
            history: strings_view(self.history@),
            history_index: self.history_index as int,
        }
    }
}

impl LineEditor {
    #[verifier::type_invariant]
    spec fn inv(self) -> bool {
        self.history_index <= self.history@.len()
    }

    /// An editor with an empty line over the given history (most recent
    /// first).
    pub fn new(history: Vec<String>) -> (res: Self)
        ensures
            res@ == (SpecEditor {
                line: SpecLine { text: Seq::empty(), index: 0 },
                new_command: Seq::empty(),
                history: strings_view(history@),
                history_index: 0,
            }),
    {
        LineEditor { current_command: StringIndex::new(), new_command: String::new(), history, history_index: 0 }
    }

    /// The line being edited.
    pub fn line(&self) -> (res: &StringIndex)
        ensures
            res@ == self@.line,
    {
        &self.current_command
    }

    /// Whether `handle_key` can handle `key` here, as `key_ok` says.
    pub fn can_handle_key(&self, key: EditKey) -> (b: bool)
        ensures
            b == key_ok(self@, key),
    {
        proof {
            reveal_strlit("^C");
        }
        match key {
            EditKey::Char(_) => self.current_command.can_insert(),
            EditKey::CtrlC => self.current_command.can_insert_str("^C"),
            EditKey::Backspace => self.current_command.can_remove(),
            _ => true,
        }
    }

    /// Handles a key, as `spec_handle_key` says.
    pub fn handle_key(&mut self, key: EditKey) -> (action: EditAction)
        requires
            key_ok(old(self)@, key),
        ensures
            (final(self)@, action) == spec_handle_key(old(self)@, key),
    {
        proof {
            use_type_invariant(&*self);
        }
        match key {
            EditKey::CtrlD => {
                if self.current_command.is_empty() {
                    EditAction::Exit
                } else {
                    EditAction::Nothing
                }
            },
            EditKey::CtrlC => {
                proof {
                    reveal_strlit("^C");
                }
                let mut line = self.take_line();
                line.insert_str("^C");
                self.current_command = line;
                EditAction::Interrupt
            },
            EditKey::Char(c) => {
                let mut line = self.take_line();
                line.insert(c);
                self.current_command = line;
                if self.history_index == 0 {
                    let mut n = self.new_command.clone();
                    push_char(&mut n, c);
                    self.new_command = n;
                }
                EditAction::Redraw
            },
            EditKey::Enter => {
                proof {
                    reveal_strlit("\n");
                }
                let mut line = self.take_line();
                line.push_str("\n");
                self.current_command = line;
                EditAction::Submit
            },
            EditKey::Backspace => {
                let mut line = self.take_line();
                line.remove();
                self.current_command = line;
                EditAction::Redraw
            },
            EditKey::Up => {
                if self.history_index < self.history.len() {
                    let k = self.history_index + 1;
                    let t = self.history[k - 1].clone();
                    proof {
                        assert(strings_view(self.history@)[k - 1] == t@);
                    }
                    self.show(t);
                    self.history_index = k;
                }
                EditAction::Redraw
            },
            EditKey::Down => {
                if self.history_index > 0 {
                    let k = self.history_index - 1;
                    let t = if k == 0 {
                        self.new_command.clone()
                    } else {
                        self.history[k - 1].clone()
                    };
                    proof {
                        if k > 0 {
                            assert(strings_view(self.history@)[k - 1] == t@);
                        }
                    }
                    self.show(t);
                    self.history_index = k;
                    EditAction::Redraw
                } else {
                    EditAction::Nothing
                }
            },
            EditKey::Left => {
                let mut line = self.take_line();
                line.move_left();
                self.current_command = line;
                EditAction::Redraw
            },
            EditKey::Right => {
                let mut line = self.take_line();
                line.move_right();
                self.current_command = line;
                EditAction::Redraw
            },
            EditKey::Tab => EditAction::Complete,
            EditKey::Other => EditAction::Nothing,
        }
    }

    /// Moves the line out, leaving an empty one.
    fn take_line(&mut self) -> (res: StringIndex)
        ensures
            res@ == old(self)@.line,
            final(self)@ == (SpecEditor { line: SpecLine { text: Seq::empty(), index: 0 }, ..old(self)@ }),
            final(self).history@ == old(self).history@,
            final(self).history_index == old(self).history_index,
    {
        proof {
            use_type_invariant(&*self);
        }
        let mut line = StringIndex::new();
        std::mem::swap(&mut line, &mut self.current_command);
        line
    }

    /// Shows `t`, with the cursor at its end.
    fn show(&mut self, t: String)
        ensures
            final(self)@ == (SpecEditor { line: show(t@), ..old(self)@ }),
            final(self).history@ == old(self).history@,
            final(self).history_index == old(self).history_index,
    {
        proof {
            use_type_invariant(&*self);
        }
        let mut line = self.take_line();
        line.set(t);
        self.current_command = line;
    }

    /// Whether `complete` can complete with these candidates: with exactly
    /// one, as `spec_complete` says; with any other number, always.
    pub fn can_complete(&self, start: usize, candidates: &Vec<String>) -> (b: bool)
        requires
            start <= self@.line.index,
        ensures
            b == (candidates@.len() == 1 ==> spec_complete(self@.line, start as int, candidates@[0]@) is Some),
    {
        if candidates.len() == 1 {
            self.current_command.can_complete(start, candidates[0].as_str())
        } else {
            true
        }
    }

    /// Completes the word `[start, cursor)` with the candidates of a lookup,
    /// as `StringIndex::predict` says.
    pub fn complete(&mut self, start: usize, candidates: &Vec<String>)
        requires
            start <= old(self)@.line.index,
            candidates@.len() == 1 ==> spec_complete(old(self)@.line, start as int, candidates@[0]@) is Some,
        ensures
            candidates@.len() == 1 ==> final(self)@ == (SpecEditor {
                line: spec_complete(old(self)@.line, start as int, candidates@[0]@)->0,
                ..old(self)@
            }),
            candidates@.len() != 1 ==> final(self)@ == old(self)@,
    {
        proof {
            use_type_invariant(&*self);
        }
        let mut line = self.take_line();
        line.predict(start, candidates);
        self.current_command = line;
    }
}

} // verus!
