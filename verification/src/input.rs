//! The keystroke state machine: one key event per frame mutates the
//! query text, the caret and the suggestion selection, and decides
//! whether the interaction continues, exits, or launches a command.

use vstd::prelude::*;

use crate::applications::Registry;
use crate::launch::{wrap_terminal, wrap_terminal_spec};
use crate::text::clone_bytes;

verus! {

/// What the interactive loop does after a frame: keep running or stop.
#[derive(Clone, Copy, Debug, PartialEq, Eq, Structural)]
pub enum Action {
    Run,
    Stop,
}

/// One recognized keystroke; the key-code mapping turns the backend's
/// raw codes into these before the state machine sees them.
#[derive(Clone, Copy, Debug, PartialEq, Eq, Structural)]
pub enum Key {
    Escape,
    Left,
    Right,
    Up,
    Down,
    Backspace,
    KillToStart,
    KillToEnd,
    Enter,
    Tab,
    Char(u8),
}

/// Key code of Escape.
pub const KEY_ESCAPE: u32 = 9;

/// Key code of the left arrow.
pub const KEY_LEFT: u32 = 113;

/// Key code of the right arrow.
pub const KEY_RIGHT: u32 = 114;

/// Key code of the up arrow.
pub const KEY_UP: u32 = 111;

/// Key code of the down arrow.
pub const KEY_DOWN: u32 = 116;

/// Key code of Backspace.
pub const KEY_BACKSPACE: u32 = 22;

/// Key code of Enter.
pub const KEY_ENTER: u32 = 36;

/// Key code of Tab.
pub const KEY_TAB: u32 = 23;

/// Key code of the letter K; with Control it kills to the end.
pub const KEY_K: u32 = 45;

/// Key code of the letter U; with Control it kills to the start.
pub const KEY_U: u32 = 30;

/// The command a key code triggers; `None` for codes that may still
/// produce a printable character.
pub open spec fn translate_keycode_spec(keycode: u32, ctrl: bool) -> Option<Key> {
    if keycode == KEY_ESCAPE {
        Some(Key::Escape)
    } else if keycode == KEY_LEFT {
        Some(Key::Left)
    } else if keycode == KEY_RIGHT {
        Some(Key::Right)
    } else if keycode == KEY_UP {
        Some(Key::Up)
    } else if keycode == KEY_DOWN {
        Some(Key::Down)
    } else if keycode == KEY_BACKSPACE {
        Some(Key::Backspace)
    } else if keycode == KEY_ENTER {
        Some(Key::Enter)
    } else if keycode == KEY_TAB {
        Some(Key::Tab)
    } else if keycode == KEY_U && ctrl {
        Some(Key::KillToStart)
    } else if keycode == KEY_K && ctrl {
        Some(Key::KillToEnd)
    } else {
        None
    }
}

/// Translates a raw key code and the Control-modifier state into the
/// command it triggers. A code this function does not recognize may
/// still insert a character: the caller turns it into [`Key::Char`]
/// through the backend's key-to-character lookup.
pub fn translate_keycode(keycode: u32, ctrl: bool) -> (r: Option<Key>)
    ensures
        r == translate_keycode_spec(keycode, ctrl),
{
    if keycode == KEY_ESCAPE {
        Some(Key::Escape)
    } else if keycode == KEY_LEFT {
        Some(Key::Left)
    } else if keycode == KEY_RIGHT {
        Some(Key::Right)
    } else if keycode == KEY_UP {
        Some(Key::Up)
    } else if keycode == KEY_DOWN {
        Some(Key::Down)
    } else if keycode == KEY_BACKSPACE {
        Some(Key::Backspace)
    } else if keycode == KEY_ENTER {
        Some(Key::Enter)
    } else if keycode == KEY_TAB {
        Some(Key::Tab)
    } else if keycode == KEY_U && ctrl {
        Some(Key::KillToStart)
    } else if keycode == KEY_K && ctrl {
        Some(Key::KillToEnd)
    } else {
        None
    }
}

/// The query line: its text, the caret position (a byte index into the
/// text) and the selected suggestion.
pub struct QueryState {
    pub text: Vec<u8>,
    pub caret: usize,
    pub selected: usize,
}

/// Two query states hold the same text, caret and selection.
pub open spec fn same_state(a: QueryState, b: QueryState) -> bool {
    a.text@ == b.text@ && a.caret == b.caret && a.selected == b.selected
}

/// What a keystroke asks the surrounding loop to do: keep going, exit
/// without launching, or launch this command and then exit.
pub enum Effect {
    Continue,
    Exit,
    Launch(Vec<u8>),
}

/// The selection one step later, clamped to the suggestion list: with
/// no suggestions it stays at zero rather than underflowing.
pub open spec fn next_selection(selected: int, count: int) -> int {
    if count == 0 {
        0
    } else if selected >= count - 1 {
        count - 1
    } else {
        selected + 1
    }
}

fn step_selection(selected: usize, count: usize) -> (r: usize)
    ensures
        r as int == next_selection(selected as int, count as int),
{
    if count == 0 {
        0
    } else if selected >= count - 1 {
        count - 1
    } else {
        selected + 1
    }
}

/// An ASCII control character, which inserting ignores.
pub open spec fn is_control(c: u8) -> bool {
    c < 32 || c == 127
}

impl QueryState {
    /// A caret inside the text and a selection inside the suggestion
    /// list (or at zero when the list is empty).
    pub open spec fn wf(self, sug_count: int) -> bool {
        &&& self.caret <= self.text@.len()
        &&& (self.selected == 0 || self.selected < sug_count)
    }

    /// The initial state: empty text, caret and selection at zero.
    pub fn new() -> (s: QueryState)
        ensures
            s.text@ == Seq::<u8>::empty(),
            s.caret == 0,
            s.selected == 0,
    {
        QueryState { text: Vec::new(), caret: 0, selected: 0 }
    }

    /// Clamps the selection back into the suggestion list after the
    /// list may have shrunk; applied once per frame so that the
    /// selection can never point past the list.
    pub fn clamp_selection(&mut self, sug_count: usize)
        ensures
            final(self).text@ == old(self).text@,
            final(self).caret == old(self).caret,
            final(self).selected == if old(self).selected == 0 || old(self).selected
                < sug_count {
                old(self).selected as int
            } else if sug_count == 0 {
                0
            } else {
                sug_count - 1
            },
            old(self).caret <= old(self).text@.len() ==> final(self).wf(sug_count as int),
    {
        if self.selected != 0 && self.selected >= sug_count {
            if sug_count == 0 {
                self.selected = 0;
            } else {
                self.selected = sug_count - 1;
            }
        }
    }
}

/// Feeds one keystroke to the state machine. The suggestion list is the
/// one currently shown; on Enter the selected entry is resolved against
/// the registry and wrapped for the terminal when it asks for one.
pub fn handle_key(
    state: &mut QueryState,
    key: Key,
    suggestions: &Vec<(i64, Vec<u8>)>,
    reg: &Registry,
    terminal: &Vec<u8>,
) -> (eff: Effect)
    requires
        old(state).wf(suggestions@.len() as int),
        reg.inv(),
    ensures
        final(state).wf(suggestions@.len() as int),
        match key {
            Key::Escape => eff is Exit && same_state(*final(state), *old(state)),
            Key::Left => eff is Continue && final(state).text@ == old(state).text@
                && if old(state).selected == 0 {
                final(state).selected == 0 && final(state).caret == if old(state).caret > 0 {
                    old(state).caret - 1
                } else {
                    0
                }
            } else {
                final(state).caret == old(state).caret && final(state).selected == old(state).selected - 1
            },
            Key::Up => eff is Continue && final(state).text@ == old(state).text@ && final(state).caret == old(state).caret && final(state).selected == if old(state).selected > 0 {
                old(state).selected - 1
            } else {
                0
            },
            Key::Down => eff is Continue && final(state).text@ == old(state).text@ && final(state).caret == old(state).caret && final(state).selected == next_selection(
                old(state).selected as int,
                suggestions@.len() as int,
            ),
            Key::Right => eff is Continue && final(state).text@ == old(state).text@
                && if old(state).caret == old(state).text@.len() {
                final(state).caret == old(state).caret && final(state).selected == next_selection(
                    old(state).selected as int,
                    suggestions@.len() as int,
                )
            } else {
                final(state).caret == old(state).caret + 1 && final(state).selected == old(state).selected
            },
            Key::Backspace => eff is Continue && if old(state).caret > 0 {
                final(state).text@ == old(state).text@.remove(old(state).caret - 1) && final(state).caret == old(state).caret - 1 && final(state).selected == 0
            } else {
                same_state(*final(state), *old(state))
            },
            Key::KillToStart => eff is Continue && final(state).text@ == old(state).text@.skip(
                old(state).caret as int,
            ) && final(state).caret == 0 && final(state).selected == old(state).selected,
            Key::KillToEnd => eff is Continue && final(state).text@ == old(state).text@.take(
                old(state).caret as int,
            ) && final(state).caret == old(state).caret && final(state).selected == 0,
            Key::Tab => eff is Continue && if suggestions@.len() > 0 {
                final(state).text@ == suggestions@[old(state).selected as int].1@ && final(state).caret == final(state).text@.len() && final(state).selected == 0
            } else {
                same_state(*final(state), *old(state))
            },
            Key::Enter => same_state(*final(state), *old(state)) && (eff matches Effect::Launch(cmd) && cmd@ == enter_command(
                *old(state),
                suggestions@,
                reg@,
                terminal@,
            )),
            Key::Char(c) => eff is Continue && if !is_control(c) {
                final(state).text@ == old(state).text@.insert(old(state).caret as int, c) && final(state).caret == old(state).caret + 1 && final(state).selected == 0
            } else {
                same_state(*final(state), *old(state))
            },
        },
{
    match key {
        Key::Escape => Effect::Exit,
        Key::Left => {
            if state.selected == 0 {
                if state.caret > 0 {
                    state.caret = state.caret - 1;
                }
            } else {
                state.selected = state.selected - 1;
            }
            Effect::Continue
        },
        Key::Up => {
            if state.selected > 0 {
                state.selected = state.selected - 1;
            }
            Effect::Continue
        },
        Key::Down => {
            state.selected = step_selection(state.selected, suggestions.len());
            Effect::Continue
        },
        Key::Right => {
            let n = state.text.len();
            if state.caret == n {
                state.selected = step_selection(state.selected, suggestions.len());
            } else {
                state.caret = state.caret + 1;
            }
            Effect::Continue
        },
        Key::Backspace => {
            if state.caret > 0 {
                state.text.remove(state.caret - 1);
                state.caret = state.caret - 1;
                state.selected = 0;
            }
            Effect::Continue
        },
        Key::KillToStart => {
            let tail = state.text.split_off(state.caret);
            state.text = tail;
            state.caret = 0;
            Effect::Continue
        },
        Key::KillToEnd => {
            state.text.truncate(state.caret);
            state.selected = 0;
            Effect::Continue
        },
        Key::Tab => {
            if suggestions.len() > 0 {
                state.text = clone_bytes(&suggestions[state.selected].1);
                state.caret = state.text.len();
                state.selected = 0;
            }
            Effect::Continue
        },
        Key::Enter => {
            if suggestions.len() == 0 {
                Effect::Launch(clone_bytes(&state.text))
            } else {
                let name = &suggestions[state.selected].1;
                match reg.get(name) {
                    Some(app) => {
                        if app.show_terminal {
                            Effect::Launch(wrap_terminal(terminal, &app.exec_command))
                        } else {
                            Effect::Launch(clone_bytes(&app.exec_command))
                        }
                    },
                    None => Effect::Launch(clone_bytes(name)),
                }
            }
        },
        Key::Char(c) => {
            if !(c < 32 || c == 127) {
                state.text.insert(state.caret, c);
                let grown: usize = state.text.len();
                proof {
                    assert(state.caret < grown);
                }
                state.caret = state.caret + 1;
                state.selected = 0;
            }
            Effect::Continue
        },
    }
}

/// The command Enter launches: the raw query text when no suggestion is
/// shown; otherwise the selected entry's command, wrapped for the
/// terminal when the entry asks for one, or the bare display name if
/// the registry no longer knows it.
pub open spec fn enter_command(
    state: QueryState,
    suggestions: Seq<(i64, Vec<u8>)>,
    reg: Map<Seq<u8>, crate::applications::AppView>,
    terminal: Seq<u8>,
) -> Seq<u8> {
    if suggestions.len() == 0 {
        state.text@
    } else {
        let name = suggestions[state.selected as int].1@;
        if reg.contains_key(name) {
            let app = reg[name];
            if app.show_terminal {
                wrap_terminal_spec(terminal, app.exec_command)
            } else {
                app.exec_command
            }
        } else {
            name
        }
    }
}

} // verus!
