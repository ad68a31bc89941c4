//! Colors: the palette that the lines cycle through, and the shading of a
//! line of text.

use crate::text::single_line;
use vstd::prelude::*;

verus! {

/// A display color of the palette.
#[derive(Clone, Copy, PartialEq, Eq, Debug, Structural)]
pub enum Color {
    Purple4b,
    Cyan,
    DodgerBlue1,
    Green3b,
    Yellow,
    OrangeRed1,
    PaleVioletRed1,
}

/// The colors that the lines take in turn.
pub open spec fn color_variants() -> Seq<Color> {
    seq![
        Color::Purple4b,
        Color::Cyan,
        Color::DodgerBlue1,
        Color::Green3b,
        Color::Yellow,
        Color::OrangeRed1,
        Color::PaleVioletRed1,
    ]
}

/// Builds the standard palette.
pub fn get_color_variants() -> (palette: Vec<Color>)
    ensures
        palette@ == color_variants(),
{
    let mut palette: Vec<Color> = Vec::new();
    palette.push(Color::Purple4b);
    palette.push(Color::Cyan);
    palette.push(Color::DodgerBlue1);
    palette.push(Color::Green3b);
    palette.push(Color::Yellow);
    palette.push(Color::OrangeRed1);
    palette.push(Color::PaleVioletRed1);
    palette
}

/// The color that a palette gives to a counter: the palette is walked
/// again from its start whenever the counter runs past its end.
pub open spec fn color_at(palette: Seq<Color>, counter: nat) -> Color
    recommends
        palette.len() > 0,
{
    palette[(counter % palette.len()) as int]
}

/// A fixed, ordered palette with at least one color.
pub struct ColorCycle {
    palette: Vec<Color>,
}

impl View for ColorCycle {
    type V = Seq<Color>;

    closed spec fn view(&self) -> Seq<Color> {
        self.palette@
    }
}

impl ColorCycle {
    /// A cycle is valid when it has a color to give.
    pub open spec fn wf(&self) -> bool {
        self@.len() > 0
    }

    /// Makes a cycle of the given palette, unless the palette is empty.
    pub fn new(palette: Vec<Color>) -> (cycle: Option<ColorCycle>)
        ensures
            cycle is None <==> palette@.len() == 0,
            cycle matches Some(c) ==> c.wf() && c@ == palette@,
    {
        if palette.len() == 0 {
            None
        } else {
            Some(ColorCycle { palette })
        }
    }

    /// The cycle of the standard palette.
    pub fn standard() -> (cycle: ColorCycle)
        ensures
            cycle.wf(),
            cycle@ == color_variants(),
    {
        ColorCycle { palette: get_color_variants() }
    }

    /// The number of colors in the palette.
    pub fn len(&self) -> (n: usize)
        ensures
            n == self@.len(),
    {
        self.palette.len()
    }

    /// The color for a counter.
    pub fn color_for(&self, counter: u128) -> (color: Color)
        requires
            self.wf(),
        ensures
            color == color_at(self@, counter as nat),
    {
        let n: u128 = self.palette.len() as u128;
        let slot: usize = (counter % n) as usize;
        self.palette[slot]
    }
}

/// A counter and the counter one palette length further on get the same
/// color.
pub proof fn lemma_color_wraps_around(cycle: ColorCycle, n: nat)
    requires
        cycle.wf(),
    ensures
        color_at(cycle@, n) == color_at(cycle@, n + cycle@.len()),
{
    let m = cycle@.len();
    assert((n + m) % m == n % m) by (nonlinear_arith)
        requires
            m > 0,
    ;
}

/// The text that `colorful`'s gradient makes of a line of text and a starting
/// color. Of a line with characters it is each character behind a color
/// escape, the hue moving on from one to the next, and a reset at the end.
pub uninterp spec fn gradient_of(text: Seq<char>, color: Color) -> Seq<char>;

/// Calls `colorful::Colorful::gradient` on the text, with the color of the same
/// name, and renders what it returns. The result depends on the text and the
/// color alone. The text must run on one line: the outside function splits
/// its input into lines and cannot take an empty one among them.
#[verifier::external_body]
fn gradient(text: &str, color: Color) -> (shaded: String)
    requires
        single_line(text@),
    ensures
        shaded@ == gradient_of(text@, color),
{
    let tint = match color {
        Color::Purple4b => colorful::Color::Purple4b,
        Color::Cyan => colorful::Color::Cyan,
        Color::DodgerBlue1 => colorful::Color::DodgerBlue1,
        Color::Green3b => colorful::Color::Green3b,
        Color::Yellow => colorful::Color::Yellow,
        Color::OrangeRed1 => colorful::Color::OrangeRed1,
        Color::PaleVioletRed1 => colorful::Color::PaleVioletRed1,
    };
    colorful::Colorful::gradient(text, tint).to_string()
}

/// What is written for a chunk of a line: the chunk itself, or its gradient
/// where the line has a color.
pub open spec fn rendered(chunk: Seq<char>, color: Option<Color>) -> Seq<char> {
    match color {
        Some(c) => gradient_of(chunk, c),
        None => chunk,
    }
}

/// Renders a chunk of a line in its color, if it has one.
pub fn render(chunk: String, color: Option<Color>) -> (text: String)
    requires
        color is Some ==> single_line(chunk@),
    ensures
        text@ == rendered(chunk@, color),
{
    match color {
        Some(c) => gradient(chunk.as_str(), c),
        None => chunk,
    }
}

} // verus!
