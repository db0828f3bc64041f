//! When to color the output.
use vstd::prelude::*;

verus! {

/// When to use colors.
#[derive(Debug, Clone, Copy, PartialEq, Eq)]
pub enum Color {
    Never,
    Auto,
    Always,
}

/// Calls `colored::control::set_override`, which stores `on` in the global
/// switch of the `colored` crate so that colors are forced on or off whatever
/// the environment says. That global state is not part of any value here, so
/// nothing is stated of it.
#[verifier::external_body]
fn set_colored_override(on: bool) {
    colored::control::set_override(on);
}

impl Color {
    /// The override for colored output that this choice stands for:
    /// forced off, left to the environment, or forced on.
    pub open spec fn spec_override(self) -> Option<bool> {
        match self {
            Color::Never => Some(false),
            Color::Auto => None,
            Color::Always => Some(true),
        }
    }

    /// The override for colored output that this choice stands for.
    pub fn color_override(&self) -> (r: Option<bool>)
        ensures
            r == self.spec_override(),
    {
        match self {
            Color::Never => Some(false),
            Color::Auto => None,
            Color::Always => Some(true),
        }
    }

    /// Forces colors off (`Never`) or on (`Always`); `Auto` leaves the
    /// decision to the environment. Returns the override that was handed
    /// to `colored` (`None` when nothing was handed over).
    pub fn set_color(&self) -> (applied: Option<bool>)
        ensures
            applied == self.spec_override(),
    {
        let applied = self.color_override();
        match applied {
            Some(on) => set_colored_override(on),
            None => (),
        }
        applied
    }
}

} // verus!
