//! The heads-up display: its marker components, and the hint line that says
//! what the mouse buttons do.

use vstd::prelude::*;

verus! {

/// Adds the heads-up display to the game.
pub struct UiPlugin;

/// Marks the hint line of the heads-up display.
pub struct InteractText;

/// Marks the countdown shown at the top right.
pub struct TimerText;

/// Marks the crosshair at the centre of the screen.
pub struct Crosshair;

/// What kind of thing an interactable entity is.
#[derive(Debug, Clone, Copy, PartialEq, Eq, Structural)]
pub enum InteractableType {
    Hammer,
    LineOfCode,
    LineOfCodeGlobule,
    Terminal,
}

/// What the player holds in hand.
#[derive(Debug, Clone, Copy, PartialEq, Eq, Structural)]
pub enum ViewModelHold {
    Empty,
    Hammer,
    LoC,
    LoCBundle,
}

/// What the player looks at, as the hint line tells it apart.
#[derive(Debug, Clone, Copy, PartialEq, Eq, Structural)]
enum UiInteractable {
    Hammer,
    LineOfCode,
    LineOfCodeGlobule,
    Terminal,
    Nothing,
}

impl From<InteractableType> for UiInteractable {
    fn from(i: InteractableType) -> (r: UiInteractable) {
        match i {
            InteractableType::Hammer => UiInteractable::Hammer,
            InteractableType::LineOfCode => UiInteractable::LineOfCode,
            InteractableType::LineOfCodeGlobule => UiInteractable::LineOfCodeGlobule,
            InteractableType::Terminal => UiInteractable::Terminal,
        }
    }
}

impl vstd::std_specs::convert::FromSpecImpl<InteractableType> for UiInteractable {
    open spec fn obeys_from_spec() -> bool {
        true
    }

    closed spec fn from_spec(i: InteractableType) -> UiInteractable {
        match i {
            InteractableType::Hammer => UiInteractable::Hammer,
            InteractableType::LineOfCode => UiInteractable::LineOfCode,
            InteractableType::LineOfCodeGlobule => UiInteractable::LineOfCodeGlobule,
            InteractableType::Terminal => UiInteractable::Terminal,
        }
    }
}

/// Whether `t` is a line of code, alone or in a globule.
pub open spec fn is_code(t: Option<InteractableType>) -> bool {
    t == Some(InteractableType::LineOfCode) || t == Some(InteractableType::LineOfCodeGlobule)
}

/// The hint for a player who holds `holding` and looks at `looking_at`:
/// `None` where the player looks at nothing, `Some(None)` at an entity that
/// cannot be interacted with, `Some(Some(t))` at one of kind `t`. The result
/// is `None` where the hint stays as it was.
pub open spec fn hint_for(looking_at: Option<Option<InteractableType>>, holding: ViewModelHold) -> Option<Seq<char>> {
    match looking_at {
        Some(t) => if t == Some(InteractableType::Terminal) {
            Some("[MOUSE1] Interact"@)
        } else if holding == ViewModelHold::Empty {
            if t.is_none() {
                Some(Seq::empty())
            } else {
                Some("[MOUSE1] Pickup"@)
            }
        } else if holding == ViewModelHold::Hammer && t.is_none() {
            Some("[MOUSE1] Swing"@)
        } else if holding == ViewModelHold::Hammer && is_code(t) {
            Some("[MOUSE1] Swing\n[MOUSE2] Swap"@)
        } else if (holding == ViewModelHold::LoC || holding == ViewModelHold::LoCBundle) && is_code(t) {
            Some("[MOUSE1] Attach\n[MOUSE2] Swap"@)
        } else {
            None
        },
        None => if holding == ViewModelHold::Empty {
            Some(Seq::empty())
        } else {
            Some("[MOUSE1] Swing\n[MOUSE2] Throw"@)
        },
    }
}

/// Sets the hint line `text` for a player who holds `holding` and looks at
/// `looking_at` (as in `hint_for`). While the player uses the terminal
/// (`interacting`) a hint that would stay is cleared instead.
pub fn update_interact_text(
    interacting: bool,
    looking_at: Option<Option<InteractableType>>,
    holding: ViewModelHold,
    text: &mut String,
)
    ensures
        final(text)@ == (match hint_for(looking_at, holding) {
            Some(h) => h,
            None => if interacting { Seq::empty() } else { old(text)@ },
        }),
{
    if interacting {
        *text = String::new();
    }
    match looking_at {
        Some(t) => {
            let interactable = match t {
                Some(v) => UiInteractable::from(v),
                None => UiInteractable::Nothing,
            };
            match (holding, interactable) {
                (_, UiInteractable::Terminal) => {
                    *text = "[MOUSE1] Interact".to_owned();
                },
                (ViewModelHold::Empty, UiInteractable::Nothing) => {
                    *text = String::new();
                },
                (ViewModelHold::Empty, _) => {
                    *text = "[MOUSE1] Pickup".to_owned();
                },
                (ViewModelHold::Hammer, UiInteractable::Nothing) => {
                    *text = "[MOUSE1] Swing".to_owned();
                },
                (
                    ViewModelHold::Hammer,
                    UiInteractable::LineOfCodeGlobule | UiInteractable::LineOfCode,
                ) => {
                    *text = "[MOUSE1] Swing\n[MOUSE2] Swap".to_owned();
                },
                (
                    ViewModelHold::LoC | ViewModelHold::LoCBundle,
                    UiInteractable::LineOfCode | UiInteractable::LineOfCodeGlobule,
                ) => {
                    *text = "[MOUSE1] Attach\n[MOUSE2] Swap".to_owned();
                },
                (_, _) => {},
            }
        },
        None => match holding {
            ViewModelHold::Empty => {
                *text = String::new();
            },
            _ => {
                *text = "[MOUSE1] Swing\n[MOUSE2] Throw".to_owned();
            },
        },
    }
}

} // verus!
