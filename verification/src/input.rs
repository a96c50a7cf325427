//! The menu controls of one frame, gathered from the keyboard and from a
//! gamepad's buttons and left stick.
use vstd::prelude::*;

verus! {

/// The keyboard keys that the menus listen to.
#[derive(Debug, PartialEq, Eq, Structural, Clone, Copy)]
pub enum Key {
    Up,
    Down,
    Left,
    Right,
    Enter,
    Space,
    Escape,
    Backspace,
    X,
    F2,
    Y,
    Tab,
    Insert,
    Delete,
}

/// The gamepad buttons that the menus listen to; `Other` for the rest.
#[derive(Debug, PartialEq, Eq, Structural, Clone, Copy)]
pub enum PadButton {
    DPadUp,
    DPadDown,
    DPadLeft,
    DPadRight,
    South,
    East,
    West,
    North,
    Start,
    Select,
    Other,
}

/// A direction the left stick points in.
#[derive(Debug, PartialEq, Eq, Structural, Clone, Copy)]
pub enum StickDirection {
    Up,
    Down,
    Left,
    Right,
}

/// Where the left stick of the first deflected gamepad stands: at rest, or
/// pushed past the dead zone, pointing clearly in a direction or not.
#[derive(Debug, PartialEq, Eq, Structural, Clone, Copy)]
pub enum Stick {
    Neutral,
    Deflected(Option<StickDirection>),
}

/// What the gamepads reported in one frame: the buttons pressed, in order, and
/// the left stick.
pub struct PadFrame {
    pub buttons: Vec<PadButton>,
    pub stick: Stick,
}

/// The controls of one frame. `stick_neutral` remembers whether the stick was
/// at rest in the previous frame, so that holding it moves only once.
pub struct Input {
    pub up: bool,
    pub down: bool,
    pub left: bool,
    pub right: bool,
    pub accept: bool,
    pub back: bool,
    pub rename: bool,
    pub avatar: bool,
    pub add: bool,
    pub delete: bool,
    pub stick_neutral: bool,
}

/// Whether `k` is among the keys pressed.
pub open spec fn key_down(keys: Seq<Key>, k: Key) -> bool {
    keys.contains(k)
}

/// Whether a gamepad frame has button `b` pressed.
pub open spec fn button_down(pad: Option<&PadFrame>, b: PadButton) -> bool {
    match pad {
        Some(p) => p.buttons@.contains(b),
        None => false,
    }
}

/// Whether the stick moves the selection in direction `d` this frame: it is
/// pushed that way now and was at rest before.
pub open spec fn stick_moves(pad: Option<&PadFrame>, was_neutral: bool, d: StickDirection) -> bool {
    match pad {
        Some(p) => was_neutral && p.stick == Stick::Deflected(Some(d)),
        None => false,
    }
}

/// Whether `k` is among `keys`.
fn has_key(keys: &Vec<Key>, k: Key) -> (b: bool)
    ensures
        b == key_down(keys@, k),
{
    let mut i: usize = 0;
    while i < keys.len()
        invariant
            i <= keys.len(),
            forall|j: int| 0 <= j < i ==> keys@[j] != k,
        decreases keys.len() - i,
    {
        if keys[i] == k {
            assert(keys@[i as int] == k);
            return true;
        }
        i = i + 1;
    }
    false
}

/// Whether the pad frame has `b` pressed.
fn has_button(pad: Option<&PadFrame>, b: PadButton) -> (res: bool)
    ensures
        res == button_down(pad, b),
{
    match pad {
        None => false,
        Some(p) => {
            let mut i: usize = 0;
            while i < p.buttons.len()
                invariant
                    i <= p.buttons.len(),
                    pad == Some(p),
                    forall|j: int| 0 <= j < i ==> p.buttons@[j] != b,
                decreases p.buttons.len() - i,
            {
                if p.buttons[i] == b {
                    assert(p.buttons@[i as int] == b);
                    assert(p.buttons@.contains(b));
                    return true;
                }
                i = i + 1;
            }
            false
        },
    }
}

/// Whether the stick moves the selection in direction `d`.
fn stick_moved(pad: Option<&PadFrame>, was_neutral: bool, d: StickDirection) -> (res: bool)
    ensures
        res == stick_moves(pad, was_neutral, d),
{
    match pad {
        None => false,
        Some(p) => was_neutral && p.stick == Stick::Deflected(Some(d)),
    }
}

impl Input {
    /// The controls before the first frame: nothing pressed, the stick at rest.
    pub fn new() -> (i: Input)
        ensures
            !i.up && !i.down && !i.left && !i.right && !i.accept && !i.back,
            !i.rename && !i.avatar && !i.add && !i.delete,
            i.stick_neutral,
    {
        Input {
            up: false,
            down: false,
            left: false,
            right: false,
            accept: false,
            back: false,
            rename: false,
            avatar: false,
            add: false,
            delete: false,
            stick_neutral: true,
        }
    }

    /// Takes in one frame: the keys pressed and, when gamepads are available,
    /// what they reported. Each control is set when one of its keys or
    /// buttons was pressed, or, for the four directions, when the stick was
    /// pushed that way after resting; the stick's rest is remembered for the
    /// next frame (and kept as it was when there are no gamepads).
    pub fn poll(&mut self, keys: &Vec<Key>, pad: Option<&PadFrame>)
        ensures
            final(self).up == (key_down(keys@, Key::Up) || button_down(pad, PadButton::DPadUp)
                || stick_moves(pad, old(self).stick_neutral, StickDirection::Up)),
            final(self).down == (key_down(keys@, Key::Down) || button_down(
                pad,
                PadButton::DPadDown,
            ) || stick_moves(pad, old(self).stick_neutral, StickDirection::Down)),
            final(self).left == (key_down(keys@, Key::Left) || button_down(
                pad,
                PadButton::DPadLeft,
            ) || stick_moves(pad, old(self).stick_neutral, StickDirection::Left)),
            final(self).right == (key_down(keys@, Key::Right) || button_down(
                pad,
                PadButton::DPadRight,
            ) || stick_moves(pad, old(self).stick_neutral, StickDirection::Right)),
            final(self).accept == (key_down(keys@, Key::Enter) || key_down(keys@, Key::Space)
                || button_down(pad, PadButton::South)),
            final(self).back == (key_down(keys@, Key::Escape) || key_down(keys@, Key::Backspace)
                || button_down(pad, PadButton::East)),
            final(self).rename == (key_down(keys@, Key::X) || key_down(keys@, Key::F2)
                || button_down(pad, PadButton::West)),
            final(self).avatar == (key_down(keys@, Key::Y) || key_down(keys@, Key::Tab)
                || button_down(pad, PadButton::North)),
            final(self).add == (key_down(keys@, Key::Insert) || button_down(
                pad,
                PadButton::Start,
            )),
            final(self).delete == (key_down(keys@, Key::Delete) || button_down(
                pad,
                PadButton::Select,
            )),
            final(self).stick_neutral == match pad {
                Some(p) => p.stick == Stick::Neutral,
                None => old(self).stick_neutral,
            },
    {
        let was = self.stick_neutral;
        self.up = has_key(keys, Key::Up) || has_button(pad, PadButton::DPadUp) || stick_moved(
            pad,
            was,
            StickDirection::Up,
        );
        self.down = has_key(keys, Key::Down) || has_button(pad, PadButton::DPadDown)
            || stick_moved(pad, was, StickDirection::Down);
        self.left = has_key(keys, Key::Left) || has_button(pad, PadButton::DPadLeft)
            || stick_moved(pad, was, StickDirection::Left);
        self.right = has_key(keys, Key::Right) || has_button(pad, PadButton::DPadRight)
            || stick_moved(pad, was, StickDirection::Right);
        self.accept = has_key(keys, Key::Enter) || has_key(keys, Key::Space) || has_button(
            pad,
            PadButton::South,
        );
        self.back = has_key(keys, Key::Escape) || has_key(keys, Key::Backspace) || has_button(
            pad,
            PadButton::East,
        );
        self.rename = has_key(keys, Key::X) || has_key(keys, Key::F2) || has_button(
            pad,
            PadButton::West,
        );
        self.avatar = has_key(keys, Key::Y) || has_key(keys, Key::Tab) || has_button(
            pad,
            PadButton::North,
        );
        self.add = has_key(keys, Key::Insert) || has_button(pad, PadButton::Start);
        self.delete = has_key(keys, Key::Delete) || has_button(pad, PadButton::Select);
        match pad {
            Some(p) => {
                self.stick_neutral = p.stick == Stick::Neutral;
            },
            None => {},
        }
    }
}

/// `i` with, of the direction and add controls, only left kept.
pub open spec fn just_left(i: Input) -> Input {
    Input { right: false, up: false, down: false, add: false, ..i }
}

/// `i` with, of the direction and add controls, only right kept.
pub open spec fn just_right(i: Input) -> Input {
    Input { left: false, up: false, down: false, add: false, ..i }
}

/// `i` with, of the direction and add controls, only up kept.
pub open spec fn just_up(i: Input) -> Input {
    Input { left: false, right: false, down: false, add: false, ..i }
}

/// `i` with, of the direction and add controls, only down kept.
pub open spec fn just_down(i: Input) -> Input {
    Input { left: false, right: false, up: false, add: false, ..i }
}

/// `i` with, of the direction and add controls, only add kept.
pub open spec fn just_add(i: Input) -> Input {
    Input { left: false, right: false, up: false, down: false, ..i }
}

} // verus!
