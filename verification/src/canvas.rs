//! The picture: one grey level for each digraph, laid out as a square.
//!
//! The pixel that shows a digraph has the digraph's low byte as its `x` and
//! the digraph's high byte as its `y`.

use vstd::prelude::*;
use crate::frequency::{FrequencyTable, Ratio};
use crate::histogram::DIGRAPH_KINDS;
use crate::params::ViewParameters;
use crate::tone::{intensity, lemma_intensity_is_floor, tone_map};

verus! {

/// The width and the height of the picture, in pixels.
pub const CANVAS_SIDE: usize = 256;

/// The picture in which nothing has been drawn: every pixel black.
pub open spec fn blank() -> Seq<u8> {
    Seq::new(DIGRAPH_KINDS as nat, |i: int| 0u8)
}

/// The `x` of the pixel that shows `digraph`: the digraph's low byte.
pub open spec fn x_of(digraph: u16) -> int {
    digraph as int % 256
}

/// The `y` of the pixel that shows `digraph`: the digraph's high byte.
pub open spec fn y_of(digraph: u16) -> int {
    digraph as int / 256
}

/// The picture that regeneration leaves behind.
///
/// With an empty table nothing is drawn and the picture stays as it was.
/// Otherwise every pixel gets the grey level of the table entry at its
/// index.
pub open spec fn rendering(before: Seq<u8>, table: Seq<Ratio>, p: ViewParameters) -> Seq<u8> {
    if table.len() == 0 {
        before
    } else {
        Seq::new(table.len(), |i: int| intensity(table[i], p) as u8)
    }
}

/// A square picture of grey levels, with one pixel for each digraph.
pub struct Canvas {
    levels: Vec<u8>,
}

impl View for Canvas {
    type V = Seq<u8>;

    /// The grey levels, indexed by digraph.
    closed spec fn view(&self) -> Seq<u8> {
        self.levels@
    }
}

impl Canvas {
    #[verifier::type_invariant]
    closed spec fn inv(self) -> bool {
        self.levels@.len() == DIGRAPH_KINDS
    }

    /// A black picture.
    pub fn new() -> (c: Canvas)
        ensures
            c@ == blank(),
    {
        let levels: Vec<u8> = vec![0u8; DIGRAPH_KINDS];
        assert(levels@ =~= blank());
        Canvas { levels }
    }

    /// The grey levels, indexed by digraph.
    pub fn levels(&self) -> (l: &Vec<u8>)
        ensures
            l@ == self@,
            l@.len() == DIGRAPH_KINDS,
    {
        proof {
            use_type_invariant(self);
        }
        &self.levels
    }

    /// The grey level of the pixel that shows `digraph`.
    pub fn level_of(&self, digraph: u16) -> (l: u8)
        ensures
            self@.len() == DIGRAPH_KINDS,
            l == self@[digraph as int],
    {
        proof {
            use_type_invariant(self);
        }
        self.levels[digraph as usize]
    }

    /// The grey level of the pixel at `x` and `y`.
    pub fn level_at(&self, x: u8, y: u8) -> (l: u8)
        ensures
            self@.len() == DIGRAPH_KINDS,
            l == self@[y as int * 256 + x as int],
    {
        proof {
            use_type_invariant(self);
        }
        self.levels[y as usize * CANVAS_SIDE + x as usize]
    }
}

/// Where the pixel that shows `digraph` lies: its `x`, then its `y`.
pub fn pixel_position(digraph: u16) -> (at: (u8, u8))
    ensures
        at.0 == x_of(digraph),
        at.1 == y_of(digraph),
        at.1 as int * 256 + at.0 as int == digraph,
{
    ((digraph % 256) as u8, (digraph / 256) as u8)
}

/// Draws the frequencies of `freqs` into `canvas` under parameters `params`.
///
/// With an empty table this does nothing. Otherwise every pixel is set to
/// the grey level of the table entry at its index.
pub fn update_canvas(canvas: &mut Canvas, freqs: &FrequencyTable, params: &ViewParameters)
    ensures
        final(canvas)@ == rendering(old(canvas)@, freqs@, *params),
        final(canvas)@.len() == DIGRAPH_KINDS,
{
    proof {
        use_type_invariant(&*canvas);
    }
    let count: usize = freqs.len();
    if count == 0 {
        return ;
    }
    let mut levels: Vec<u8> = Vec::new();
    let mut i: usize = 0;
    while i < count
        invariant
            i <= count,
            count == freqs@.len(),
            levels.len() == i,
            forall|j: int| 0 <= j < i ==> levels[j] == intensity(freqs@[j], *params),
        decreases count - i,
    {
        levels.push(tone_map(freqs.entry(i), params));
        i += 1;
    }
    proof {
        assert forall|j: int| 0 <= j < count implies levels[j] == intensity(
            freqs@[j],
            *params,
        ) as u8 by {
            lemma_intensity_is_floor(freqs@[j], *params);
        }
        assert(levels@ =~= rendering(old(canvas)@, freqs@, *params));
    }
    canvas.levels = levels;
}

} // verus!
