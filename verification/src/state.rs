//! The viewer's state: the parameters, the loaded frequencies and the
//! picture, changed only by commands and by loading data.

use vstd::prelude::*;
use crate::canvas::{blank, rendering, update_canvas, Canvas};
use crate::digraph::{digraphs, vec_u8_to_u16};
use crate::frequency::{compute_freqs, frequencies, FrequencyTable, Ratio};
use crate::params::{Command, ViewParameters};

verus! {

/// The mathematical value of a viewer state.
pub struct ViewModel {
    pub parameters: ViewParameters,
    pub frequencies: Seq<Ratio>,
    pub picture: Seq<u8>,
}

impl ViewModel {
    /// The state at start-up: default parameters, no data, a black picture.
    pub open spec fn initial() -> ViewModel {
        ViewModel {
            parameters: ViewParameters::initial(),
            frequencies: Seq::empty(),
            picture: blank(),
        }
    }

    /// The state after `command`: the parameters change as the command
    /// says, the frequencies stay, and the picture is regenerated.
    pub open spec fn after_command(self, command: Command) -> ViewModel {
        ViewModel {
            parameters: self.parameters.after(command),
            frequencies: self.frequencies,
            picture: rendering(self.picture, self.frequencies, self.parameters.after(command)),
        }
    }

    /// The state after loading `bytes`: the frequencies are those of the
    /// digraphs of `bytes`, the parameters are back at their defaults, and
    /// the picture is regenerated.
    pub open spec fn after_load(self, bytes: Seq<u8>) -> ViewModel {
        ViewModel {
            parameters: ViewParameters::initial(),
            frequencies: frequencies(digraphs(bytes)),
            picture: rendering(
                self.picture,
                frequencies(digraphs(bytes)),
                ViewParameters::initial(),
            ),
        }
    }

    /// The state after the commands of `commands`, in order.
    pub open spec fn after_commands(self, commands: Seq<Command>) -> ViewModel
        decreases commands.len(),
    {
        if commands.len() == 0 {
            self
        } else {
            self.after_commands(commands.drop_last()).after_command(commands.last())
        }
    }
}

/// The viewer's state.
pub struct ViewState {
    params: ViewParameters,
    table: FrequencyTable,
    canvas: Canvas,
}

impl View for ViewState {
    type V = ViewModel;

    /// The parameters, the frequencies and the picture.
    closed spec fn view(&self) -> ViewModel {
        ViewModel { parameters: self.params, frequencies: self.table@, picture: self.canvas@ }
    }
}

impl ViewState {
    /// The state at start-up.
    pub fn new() -> (s: ViewState)
        ensures
            s@ == ViewModel::initial(),
    {
        let table = compute_freqs(Vec::new());
        ViewState { params: ViewParameters::new(), table, canvas: Canvas::new() }
    }

    /// Carries out `command` and regenerates the picture.
    pub fn command(&mut self, command: Command)
        ensures
            final(self)@ == old(self)@.after_command(command),
    {
        self.params.apply(command);
        update_canvas(&mut self.canvas, &self.table, &self.params);
    }

    /// Loads the content of a file: its frequencies replace the ones held,
    /// the parameters return to their defaults, and the picture is
    /// regenerated. Empty content leaves the picture as it was.
    pub fn load_file(&mut self, bytes: Vec<u8>)
        ensures
            final(self)@ == old(self)@.after_load(bytes@),
    {
        self.table = compute_freqs(vec_u8_to_u16(bytes));
        self.params = ViewParameters::new();
        update_canvas(&mut self.canvas, &self.table, &self.params);
    }

    /// The current parameters.
    pub fn parameters(&self) -> (p: ViewParameters)
        ensures
            p == self@.parameters,
    {
        self.params
    }

    /// The frequencies of the data last loaded.
    pub fn frequencies(&self) -> (t: &FrequencyTable)
        ensures
            t@ == self@.frequencies,
    {
        &self.table
    }

    /// The picture.
    pub fn canvas(&self) -> (c: &Canvas)
        ensures
            c@ == self@.picture,
    {
        &self.canvas
    }
}

/// While no data is held, commands change the parameters and nothing else.
pub proof fn lemma_commands_without_data(s: ViewModel, commands: Seq<Command>)
    requires
        s.frequencies.len() == 0,
    ensures
        s.after_commands(commands).parameters == s.parameters.after_all(commands),
        s.after_commands(commands).frequencies == s.frequencies,
        s.after_commands(commands).picture == s.picture,
    decreases commands.len(),
{
    if commands.len() > 0 {
        lemma_commands_without_data(s, commands.drop_last());
    }
}

/// A reset, after any commands, brings back the state that the last load
/// left: the default parameters, the same frequencies and the same picture.
pub proof fn lemma_reset_returns_to_load(before: ViewModel, bytes: Seq<u8>, commands: Seq<Command>)
    ensures
        before.after_load(bytes).after_commands(commands).after_command(Command::Reset)
            == before.after_load(bytes),
{
    let loaded = before.after_load(bytes);
    lemma_commands_keep_data(loaded, commands);
    let adjusted = loaded.after_commands(commands);
    if loaded.frequencies.len() == 0 {
        lemma_commands_without_data(loaded, commands);
    }
    assert(adjusted.after_command(Command::Reset).picture =~= loaded.picture);
}

/// Commands never change the frequencies.
pub proof fn lemma_commands_keep_data(s: ViewModel, commands: Seq<Command>)
    ensures
        s.after_commands(commands).frequencies == s.frequencies,
    decreases commands.len(),
{
    if commands.len() > 0 {
        lemma_commands_keep_data(s, commands.drop_last());
    }
}

} // verus!
