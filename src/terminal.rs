//! The in-game terminal: its command language, and how the keys typed while
//! the player uses it change what the screen shows.

use vstd::prelude::*;
use crate::text::{
    ascii_lowercase, begins_last_line, chars_of, count_newlines, drop_lines, find_last_line_start,
    last_line_start, lemma_last_line_start, lemma_newline_count_add, lemma_newline_count_pos,
    line_count, lowercase_ascii, newline_count, push_str, same_chars, slice_from, trim, trim_chars,
    trim_end, trim_end_chars,
};

verus! {

/// Adds the terminal to the game.
pub struct TerminalPlugin;

/// A command that the player can give at the terminal's prompt.
#[derive(Debug, Clone, Copy, PartialEq, Eq, Structural, PartialOrd)]
pub enum TerminalCommand {
    Restart,
    ShowCode,
    Send,
    Exit,
}

/// The command that `s` names, ASCII letters compared without case.
pub open spec fn command_of(s: Seq<char>) -> Option<TerminalCommand> {
    let l = ascii_lowercase(s);
    if l == "r"@ || l == "restart"@ {
        Some(TerminalCommand::Restart)
    } else if l == "c"@ || l == "show"@ || l == "code"@ || l == "show code"@ {
        Some(TerminalCommand::ShowCode)
    } else if l == "s"@ || l == "send"@ {
        Some(TerminalCommand::Send)
    } else if l == "e"@ || l == "exit"@ {
        Some(TerminalCommand::Exit)
    } else {
        None
    }
}

impl TerminalCommand {
    /// Parses a command already split into characters.
    pub fn from_chars(s: &[char]) -> (r: Option<TerminalCommand>)
        ensures
            r == command_of(s@),
    {
        let l = lowercase_ascii(s);
        let ls = l.as_slice();
        if same_chars(ls, "r") || same_chars(ls, "restart") {
            Some(TerminalCommand::Restart)
        } else if same_chars(ls, "c") || same_chars(ls, "show") || same_chars(ls, "code")
            || same_chars(ls, "show code") {
            Some(TerminalCommand::ShowCode)
        } else if same_chars(ls, "s") || same_chars(ls, "send") {
            Some(TerminalCommand::Send)
        } else if same_chars(ls, "e") || same_chars(ls, "exit") {
            Some(TerminalCommand::Exit)
        } else {
            None
        }
    }

    /// Parses the text typed at the prompt; `None` where it names no command.
    pub fn from_str(s: &str) -> (r: Option<TerminalCommand>)
        ensures
            r == command_of(s@),
    {
        let cs = chars_of(s);
        TerminalCommand::from_chars(cs.as_slice())
    }

    /// Of the commands given during one frame, whether any asks to restart:
    /// then the level `current` is to be started anew, which is returned.
    pub fn reset(term_cmds: &[TerminalCommand], current: usize) -> (r: Option<usize>)
        ensures
            r == (if exists|i: int| 0 <= i < term_cmds@.len() && term_cmds@[i] == TerminalCommand::Restart {
                Some(current)
            } else {
                None::<usize>
            }),
    {
        let mut i: usize = 0;
        while i < term_cmds.len()
            invariant
                i <= term_cmds@.len(),
                forall|j: int| 0 <= j < i ==> term_cmds@[j] != TerminalCommand::Restart,
            decreases term_cmds@.len() - i,
        {
            if term_cmds[i] == TerminalCommand::Restart {
                return Some(current);
            }
            i = i + 1;
        }
        None
    }
}

/// What the terminal shows after each answer: the commands, then the
/// prompt at which the player types.
pub const PROMPT: &'static str = "[r]estart | [s]end | [c]ode | [e]xit\n>>";

/// The terminal's last line begins with the prompt's `>>`.
pub open spec fn shows_prompt(t: Seq<char>) -> bool {
    let l = last_line_start(t);
    &&& l + 2 <= t.len()
    &&& t[l] == '>'
    &&& t[l + 1] == '>'
}

/// The screen after the typed characters are added, and the last character
/// taken back by a backspace where it lies after `start`.
pub open spec fn keyed(t: Seq<char>, start: int, typed: Seq<char>, backspace: bool) -> Seq<char> {
    let t1 = t + typed;
    if backspace && t1.len() > start {
        t1.drop_last()
    } else {
        t1
    }
}

/// The text entered at the prompt: the last line after its `>>`, trimmed.
pub open spec fn entered_line(t: Seq<char>) -> Seq<char> {
    trim(t.subrange(last_line_start(t) + 2, t.len() as int))
}

/// The terminal's answer to `cmd`, typed as `line`, on a level whose source is `code`.
pub open spec fn response(cmd: Option<TerminalCommand>, line: Seq<char>, code: Seq<char>) -> Seq<char> {
    match cmd {
        Some(TerminalCommand::Restart) => "restarting..."@,
        Some(TerminalCommand::ShowCode) => "code: \n"@ + trim_end(code),
        Some(TerminalCommand::Send) => "sending off completed code"@,
        Some(TerminalCommand::Exit) => "goodbye git"@,
        None => "command "@ + line + " not recognised"@,
    }
}

/// What is written after a line is entered: the answer on a line of its own,
/// then the prompt again.
pub open spec fn reply(cmd: Option<TerminalCommand>, line: Seq<char>, code: Seq<char>) -> Seq<char> {
    "\n"@ + response(cmd, line, code) + "\n"@ + PROMPT@
}

/// `t` after its top lines leave, so that at most `max` lines remain.
pub open spec fn scrolled(t: Seq<char>, max: nat) -> Seq<char> {
    if line_count(t) > max {
        drop_lines(t, (line_count(t) - max) as nat)
    } else {
        t
    }
}

/// Builds the text written after a line is entered.
fn make_reply(cmd: Option<TerminalCommand>, line: &[char], code: &[char]) -> (r: Vec<char>)
    ensures
        r@ == reply(cmd, line@, code@),
        r@.len() >= 3,
        r@[r@.len() - 3] == '\n',
        r@[r@.len() - 2] == '>',
        r@[r@.len() - 1] == '>',
{
    let mut r: Vec<char> = Vec::new();
    push_str(&mut r, "\n");
    match cmd {
        Some(TerminalCommand::Restart) => push_str(&mut r, "restarting..."),
        Some(TerminalCommand::ShowCode) => {
            push_str(&mut r, "code: \n");
            let mut c = trim_end_chars(code);
            r.append(&mut c);
        },
        Some(TerminalCommand::Send) => push_str(&mut r, "sending off completed code"),
        Some(TerminalCommand::Exit) => push_str(&mut r, "goodbye git"),
        None => {
            push_str(&mut r, "command ");
            let mut l = slice_from(line, 0);
            assert(l@ =~= line@);
            r.append(&mut l);
            push_str(&mut r, " not recognised");
        },
    }
    push_str(&mut r, "\n");
    push_str(&mut r, PROMPT);
    proof {
        reveal_strlit("[r]estart | [s]end | [c]ode | [e]xit\n>>");
    }
    assert(r@ =~= reply(cmd, line@, code@));
    r
}

/// Removes the first `k` lines of the screen, each with its line break.
fn remove_top_lines(text: &mut Vec<char>, k: usize)
    requires
        k <= newline_count(old(text)@),
        shows_prompt(old(text)@),
    ensures
        final(text)@ == drop_lines(old(text)@, k as nat),
        shows_prompt(final(text)@),
{
    let ghost t = text@;
    let ghost l = last_line_start(t);
    proof {
        lemma_last_line_start(t);
        assert(t.subrange(0, t.len() as int) =~= t);
    }
    let mut i: usize = 0;
    let mut rem: usize = k;
    while rem > 0
        invariant
            text@ == t,
            0 <= i <= l,
            l <= t.len(),
            begins_last_line(t, l),
            rem <= newline_count(t.subrange(i as int, t.len() as int)),
            drop_lines(t, k as nat) == drop_lines(t.subrange(i as int, t.len() as int), rem as nat),
        decreases t.len() - i,
    {
        let ghost s = t.subrange(i as int, t.len() as int);
        if i >= text.len() {
            assert(s.len() == 0);
            assert(false);
        }
        proof {
            let rest = t.subrange(i + 1, t.len() as int);
            assert(s =~= seq![t[i as int]] + rest);
            lemma_newline_count_add(seq![t[i as int]], rest);
            assert(seq![t[i as int]].drop_last() =~= Seq::<char>::empty());
            assert(newline_count(Seq::<char>::empty()) == 0);
            assert(newline_count(seq![t[i as int]])
                == if t[i as int] == '\n' { 1nat } else { 0nat });
            assert(s.drop_first() =~= rest);
            if t[i as int] != '\n' {
                lemma_newline_count_pos(rest);
                let j = choose|j: int| 0 <= j < rest.len() && rest[j] == '\n';
                assert(t[i + 1 + j] == '\n');
            }
        }
        if text[i] == '\n' {
            rem = rem - 1;
        }
        i = i + 1;
    }
    let rest = text.split_off(i);
    *text = rest;
    proof {
        let f = text@;
        assert(begins_last_line(f, l - i)) by {
            if l - i > 0 {
                assert(f[l - i - 1] == t[l - 1]);
            }
            assert forall|j: int| l - i <= j < f.len() implies f[j] != '\n' by {
                assert(f[j] == t[i + j]);
            }
        }
        lemma_last_line_start(f);
        assert(f[l - i] == t[l]);
        assert(f[l - i + 1] == t[l + 1]);
    }
}

/// Where the player's own input begins on the terminal's screen: a backspace
/// never takes back a character before it.
pub struct TerminalInput {
    pub user_inp_start: usize,
}

impl TerminalInput {
    /// The screen `t` and this input agree: the last line begins with `>>`,
    /// and the input begins after it.
    pub open spec fn wf(&self, t: Seq<char>) -> bool {
        &&& shows_prompt(t)
        &&& last_line_start(t) + 2 <= self.user_inp_start <= t.len()
    }

    /// Writes the prompt on the screen `text`; the player's input begins after it.
    pub fn spawn(text: &mut Vec<char>) -> (r: TerminalInput)
        ensures
            final(text)@ == old(text)@ + PROMPT@,
            r.user_inp_start == final(text)@.len(),
            r.wf(final(text)@),
    {
        let ghost t0 = text@;
        push_str(text, PROMPT);
        proof {
            reveal_strlit("[r]estart | [s]end | [c]ode | [e]xit\n>>");
            let t = text@;
            assert(begins_last_line(t, t.len() - 2)) by {
                assert(t[t.len() - 3] == '\n');
                assert(t[t.len() - 2] == '>');
                assert(t[t.len() - 1] == '>');
            }
            lemma_last_line_start(t);
        }
        TerminalInput { user_inp_start: text.len() }
    }

    /// One frame of the player's work at the terminal. The characters typed
    /// are added to the screen `text`, then a backspace takes back the last
    /// one if it lies after the start of the input. On enter the last line,
    /// after its `>>` and trimmed, is read as a command: the answer and a new
    /// prompt are written, and the command is returned. `code` is the source
    /// of the current level, shown on request. Last, the top lines leave so
    /// that at most `max_lines` remain; the input then begins at the end.
    pub fn take_input(
        &mut self,
        text: &mut Vec<char>,
        typed: &[char],
        backspace: bool,
        enter: bool,
        code: &[char],
        max_lines: usize,
    ) -> (r: Option<TerminalCommand>)
        requires
            old(self).wf(old(text)@),
            max_lines >= 1,
            forall|i: int| 0 <= i < typed@.len() ==> typed@[i] != '\n',
        ensures
            ({
                let t2 = keyed(old(text)@, old(self).user_inp_start as int, typed@, backspace);
                let line = entered_line(t2);
                let t3 = if enter { t2 + reply(command_of(line), line, code@) } else { t2 };
                &&& final(text)@ == scrolled(t3, max_lines as nat)
                &&& r == (if enter { command_of(line) } else { None })
                &&& final(self).user_inp_start == (if enter || line_count(t3) > max_lines {
                    final(text)@.len()
                } else {
                    old(self).user_inp_start as nat
                })
            }),
            final(self).wf(final(text)@),
    {
        let ghost t0 = text@;
        let ghost start = self.user_inp_start as int;
        let ghost l0 = last_line_start(t0);
        proof {
            lemma_last_line_start(t0);
        }
        let mut i: usize = 0;
        while i < typed.len()
            invariant
                i <= typed@.len(),
                text@ == t0 + typed@.subrange(0, i as int),
                forall|j: int| 0 <= j < typed@.len() ==> typed@[j] != '\n',
            decreases typed@.len() - i,
        {
            text.push(typed[i]);
            i = i + 1;
            assert(text@ =~= t0 + typed@.subrange(0, i as int));
        }
        assert(typed@.subrange(0, typed@.len() as int) =~= typed@);
        if backspace && text.len() > self.user_inp_start {
            text.pop();
        }
        let ghost t2 = text@;
        proof {
            assert(t2 == keyed(t0, start, typed@, backspace));
            assert(begins_last_line(t2, l0)) by {
                if l0 > 0 {
                    assert(t2[l0 - 1] == t0[l0 - 1]);
                }
                assert forall|j: int| l0 <= j < t2.len() implies t2[j] != '\n' by {
                    if j >= t0.len() {
                        assert(t2[j] == typed@[j - t0.len()]);
                    } else {
                        assert(t2[j] == t0[j]);
                    }
                }
            }
            lemma_last_line_start(t2);
            assert(t2[l0] == t0[l0]);
            assert(t2[l0 + 1] == t0[l0 + 1]);
        }
        let mut cmd: Option<TerminalCommand> = None;
        if enter {
            let l = find_last_line_start(text.as_slice());
            let after = slice_from(text.as_slice(), l + 2);
            let line = trim_chars(after.as_slice());
            cmd = TerminalCommand::from_chars(line.as_slice());
            let mut msg = make_reply(cmd, line.as_slice(), code);
            let ghost m = msg@;
            text.append(&mut msg);
            self.user_inp_start = text.len();
            proof {
                let t = text@;
                assert(t[t.len() - 3] == m[m.len() - 3]);
                assert(t[t.len() - 2] == m[m.len() - 2]);
                assert(t[t.len() - 1] == m[m.len() - 1]);
                assert(begins_last_line(t, t.len() - 2));
                lemma_last_line_start(t);
            }
        }
        let ghost t3 = text@;
        proof {
            lemma_last_line_start(t3);
            assert(t3[t3.len() - 1] != '\n');
        }
        let breaks = count_newlines(text.as_slice());
        assert(breaks + 1 == line_count(t3));
        if breaks >= max_lines {
            remove_top_lines(text, breaks - (max_lines - 1));
            self.user_inp_start = text.len();
        }
        proof {
            lemma_last_line_start(text@);
        }
        cmd
    }
}

} // verus!
