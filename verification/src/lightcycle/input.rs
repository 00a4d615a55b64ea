//! Keyboard state between frames: the last steering key and the actions
//! of the frame.

use vstd::prelude::*;
use super::sim::Dir;

verus! {

/// An action the player asked for.
#[derive(Debug, Clone, Copy, PartialEq, Eq, Structural)]
pub enum InputAction {
    Quit,
    Restart,
    PauseToggle,
    ToggleWalls,
    DropWall,
}

/// A key, as far as the controls tell keys apart.
#[derive(Debug, Clone, Copy, PartialEq, Eq, Structural)]
pub enum Key {
    Char(char),
    Up,
    Down,
    Left,
    Right,
    Other,
}

/// A terminal event, as far as the controls tell events apart.
#[derive(Debug, Clone, Copy, PartialEq, Eq, Structural)]
pub enum InputEvent {
    Resize,
    /// A key event: the key, whether Control was held, and whether it is a press.
    Key { key: Key, ctrl: bool, press: bool },
    Other,
}

#[derive(Debug)]
pub struct InputState {
    pub buffered_dir: Option<Dir>,
    pub actions: Vec<InputAction>,
    pub resized: bool,
}

impl Default for InputState {
    fn default() -> (s: InputState)
        ensures
            s.buffered_dir is None,
            s.actions@.len() == 0,
            !s.resized,
    {
        InputState { buffered_dir: None, actions: Vec::new(), resized: false }
    }
}

/// The steering heading a key stands for: WASD and the arrow keys.
pub open spec fn steer_key(key: Key) -> Option<Dir> {
    match key {
        Key::Char('w') | Key::Up => Some(Dir::Up),
        Key::Char('s') | Key::Down => Some(Dir::Down),
        Key::Char('a') | Key::Left => Some(Dir::Left),
        Key::Char('d') | Key::Right => Some(Dir::Right),
        _ => None,
    }
}

/// The action a key stands for: q quits, r restarts, v shows or hides the
/// walls, e drops a wall, space pauses.
pub open spec fn action_key(key: Key) -> Option<InputAction> {
    match key {
        Key::Char('q') => Some(InputAction::Quit),
        Key::Char('r') => Some(InputAction::Restart),
        Key::Char('v') => Some(InputAction::ToggleWalls),
        Key::Char('e') => Some(InputAction::DropWall),
        Key::Char(' ') => Some(InputAction::PauseToggle),
        _ => None,
    }
}

impl InputState {
    pub fn clear_frame_flags(&mut self)
        ensures
            final(self).actions@.len() == 0,
            !final(self).resized,
            final(self).buffered_dir == old(self).buffered_dir,
    {
        self.actions.clear();
        self.resized = false;
    }

    pub fn take_buffered_dir(&mut self) -> (d: Option<Dir>)
        ensures
            d == old(self).buffered_dir,
            final(self).buffered_dir is None,
            final(self).actions@ == old(self).actions@,
            final(self).resized == old(self).resized,
    {
        let d = self.buffered_dir;
        self.buffered_dir = None;
        d
    }

    /// Records one terminal event: a resize sets the flag; Ctrl+C quits;
    /// a key press is an action or a steering key (the latest wins);
    /// everything else is ignored.
    pub fn handle_event(&mut self, ev: InputEvent)
        ensures
            match ev {
                InputEvent::Resize => {
                    &&& final(self).resized
                    &&& final(self).actions@ == old(self).actions@
                    &&& final(self).buffered_dir == old(self).buffered_dir
                },
                InputEvent::Key { key, ctrl, press } => {
                    &&& final(self).resized == old(self).resized
                    &&& if !press {
                        final(self).actions@ == old(self).actions@ && final(self).buffered_dir == old(self).buffered_dir
                    } else if ctrl && key == Key::Char('c') {
                        final(self).actions@ == old(self).actions@.push(InputAction::Quit)
                            && final(self).buffered_dir == old(self).buffered_dir
                    } else if action_key(key) is Some {
                        final(self).actions@ == old(self).actions@.push(action_key(key)->0)
                            && final(self).buffered_dir == old(self).buffered_dir
                    } else if steer_key(key) is Some {
                        final(self).actions@ == old(self).actions@ && final(self).buffered_dir == steer_key(key)
                    } else {
                        final(self).actions@ == old(self).actions@ && final(self).buffered_dir == old(self).buffered_dir
                    }
                },
                InputEvent::Other => {
                    &&& final(self).resized == old(self).resized
                    &&& final(self).actions@ == old(self).actions@
                    &&& final(self).buffered_dir == old(self).buffered_dir
                },
            },
    {
        match ev {
            InputEvent::Resize => {
                self.resized = true;
            },
            InputEvent::Key { key, ctrl, press } => {
                if !press {
                    return;
                }
                if ctrl && key == Key::Char('c') {
                    self.actions.push(InputAction::Quit);
                    return;
                }
                match key {
                    Key::Char('q') => self.actions.push(InputAction::Quit),
                    Key::Char('r') => self.actions.push(InputAction::Restart),
                    Key::Char('v') => self.actions.push(InputAction::ToggleWalls),
                    Key::Char('e') => self.actions.push(InputAction::DropWall),
                    Key::Char(' ') => self.actions.push(InputAction::PauseToggle),
                    Key::Char('w') | Key::Up => self.buffered_dir = Some(Dir::Up),
                    Key::Char('s') | Key::Down => self.buffered_dir = Some(Dir::Down),
                    Key::Char('a') | Key::Left => self.buffered_dir = Some(Dir::Left),
                    Key::Char('d') | Key::Right => self.buffered_dir = Some(Dir::Right),
                    _ => {},
                }
            },
            InputEvent::Other => {},
        }
    }
}

} // verus!
