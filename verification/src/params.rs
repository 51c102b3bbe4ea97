//! Brightness and contrast, and the commands that change them.

use vstd::prelude::*;

verus! {

/// Brightness right after start-up or a reset, in half steps: 0.0.
pub const DEFAULT_BRIGHTNESS_HALVES: u64 = 0;

/// Contrast right after start-up or a reset, in eighths: 1.0.
pub const DEFAULT_CONTRAST_EIGHTHS: u64 = 8;

/// The two viewing parameters, each held as a whole number of its step.
///
/// Brightness moves in steps of one half and contrast in steps of one
/// eighth, so brightness is `brightness_halves / 2` and contrast is
/// `contrast_eighths / 8`. Neither goes below zero.
#[derive(Clone, Copy, Debug, PartialEq, Eq, Structural)]
pub struct ViewParameters {
    pub brightness_halves: u64,
    pub contrast_eighths: u64,
}

/// A request to change the viewing parameters.
#[derive(Clone, Copy, Debug, PartialEq, Eq, Structural)]
pub enum Command {
    IncreaseBrightness,
    DecreaseBrightness,
    IncreaseContrast,
    DecreaseContrast,
    Reset,
}

/// One step up, stopping at the largest number the counter can hold.
pub open spec fn step_up(steps: u64) -> u64 {
    if steps < u64::MAX {
        (steps + 1) as u64
    } else {
        steps
    }
}

/// One step down, stopping at zero.
pub open spec fn step_down(steps: u64) -> u64 {
    if steps > 0 {
        (steps - 1) as u64
    } else {
        0
    }
}

impl ViewParameters {
    /// Brightness 0.0 and contrast 1.0.
    pub open spec fn initial() -> ViewParameters {
        ViewParameters {
            brightness_halves: DEFAULT_BRIGHTNESS_HALVES,
            contrast_eighths: DEFAULT_CONTRAST_EIGHTHS,
        }
    }

    /// The parameters after `command`.
    pub open spec fn after(self, command: Command) -> ViewParameters {
        match command {
            Command::IncreaseBrightness => ViewParameters {
                brightness_halves: step_up(self.brightness_halves),
                ..self
            },
            Command::DecreaseBrightness => ViewParameters {
                brightness_halves: step_down(self.brightness_halves),
                ..self
            },
            Command::IncreaseContrast => ViewParameters {
                contrast_eighths: step_up(self.contrast_eighths),
                ..self
            },
            Command::DecreaseContrast => ViewParameters {
                contrast_eighths: step_down(self.contrast_eighths),
                ..self
            },
            Command::Reset => ViewParameters::initial(),
        }
    }

    /// The parameters after `count` repetitions of `command`.
    pub open spec fn after_repeated(self, command: Command, count: nat) -> ViewParameters
        decreases count,
    {
        if count == 0 {
            self
        } else {
            self.after(command).after_repeated(command, (count - 1) as nat)
        }
    }

    /// The parameters after the commands of `commands`, in order.
    pub open spec fn after_all(self, commands: Seq<Command>) -> ViewParameters
        decreases commands.len(),
    {
        if commands.len() == 0 {
            self
        } else {
            self.after_all(commands.drop_last()).after(commands.last())
        }
    }

    /// The parameters at start-up: brightness 0.0, contrast 1.0.
    pub fn new() -> (p: ViewParameters)
        ensures
            p == ViewParameters::initial(),
    {
        ViewParameters {
            brightness_halves: DEFAULT_BRIGHTNESS_HALVES,
            contrast_eighths: DEFAULT_CONTRAST_EIGHTHS,
        }
    }

    /// Carries out `command`.
    pub fn apply(&mut self, command: Command)
        ensures
            *final(self) == old(self).after(command),
    {
        match command {
            Command::IncreaseBrightness => {
                if self.brightness_halves < u64::MAX {
                    self.brightness_halves = self.brightness_halves + 1;
                }
            },
            Command::DecreaseBrightness => {
                if self.brightness_halves > 0 {
                    self.brightness_halves = self.brightness_halves - 1;
                }
            },
            Command::IncreaseContrast => {
                if self.contrast_eighths < u64::MAX {
                    self.contrast_eighths = self.contrast_eighths + 1;
                }
            },
            Command::DecreaseContrast => {
                if self.contrast_eighths > 0 {
                    self.contrast_eighths = self.contrast_eighths - 1;
                }
            },
            Command::Reset => {
                self.brightness_halves = DEFAULT_BRIGHTNESS_HALVES;
                self.contrast_eighths = DEFAULT_CONTRAST_EIGHTHS;
            },
        }
    }
}

/// Lowering the brightness `count` times takes `count` half steps off it,
/// or as many as there are: the brightness ends at zero and never below,
/// and the contrast is untouched.
pub proof fn lemma_brightness_floor(p: ViewParameters, count: nat)
    ensures
        p.after_repeated(Command::DecreaseBrightness, count).brightness_halves == if count
            <= p.brightness_halves {
            p.brightness_halves - count
        } else {
            0
        },
        p.after_repeated(Command::DecreaseBrightness, count).brightness_halves >= 0,
        p.after_repeated(Command::DecreaseBrightness, count).contrast_eighths
            == p.contrast_eighths,
    decreases count,
{
    if count > 0 {
        lemma_brightness_floor(p.after(Command::DecreaseBrightness), (count - 1) as nat);
    }
}

/// Lowering the contrast `count` times takes `count` eighths off it, or as
/// many as there are: the contrast ends at zero and never below, and the
/// brightness is untouched.
pub proof fn lemma_contrast_floor(p: ViewParameters, count: nat)
    ensures
        p.after_repeated(Command::DecreaseContrast, count).contrast_eighths == if count
            <= p.contrast_eighths {
            p.contrast_eighths - count
        } else {
            0
        },
        p.after_repeated(Command::DecreaseContrast, count).contrast_eighths >= 0,
        p.after_repeated(Command::DecreaseContrast, count).brightness_halves
            == p.brightness_halves,
    decreases count,
{
    if count > 0 {
        lemma_contrast_floor(p.after(Command::DecreaseContrast), (count - 1) as nat);
    }
}

/// Whatever came before, a reset leaves brightness 0.0 and contrast 1.0.
pub proof fn lemma_reset_restores_defaults(p: ViewParameters, commands: Seq<Command>)
    ensures
        p.after_all(commands.push(Command::Reset)) == ViewParameters::initial(),
{
    assert(commands.push(Command::Reset).drop_last() =~= commands);
}

} // verus!
