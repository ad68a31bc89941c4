//! The configuration of a run: what is typed, how fast, how often and how it
//! is shown.

use crate::text::{lines_of, single_line, split_lines, views};
use vstd::prelude::*;

verus! {

/// How the display is treated between reveal steps and passes.
#[derive(Clone, Copy, PartialEq, Eq, Debug, Structural)]
pub enum RedrawMode {
    /// Nothing is cleared and the cursor is never moved: the output scrolls.
    RepeatInPlace,
    /// Each chunk is written over the one before it, and the screen is
    /// cleared after each pass.
    ClearAndRewrite,
}

/// The resolved options of a run. They do not change once made.
pub struct Config {
    lines: Vec<String>,
    delay_ms: u64,
    max_iterations: u64,
    redraw_mode: RedrawMode,
    color_enabled: bool,
}

/// A configuration as plain values.
pub struct ConfigView {
    /// The lines to type, in order.
    pub text: Seq<Seq<char>>,
    /// The pause after each reveal step, in milliseconds.
    pub delay_ms: u64,
    /// The number of passes over the lines.
    pub max_iterations: u64,
    /// Whether the output scrolls or is written over.
    pub redraw_mode: RedrawMode,
    /// Whether the lines are written in color.
    pub color_enabled: bool,
}

impl View for Config {
    type V = ConfigView;

    closed spec fn view(&self) -> ConfigView {
        ConfigView {
            text: views(self.lines@),
            delay_ms: self.delay_ms,
            max_iterations: self.max_iterations,
            redraw_mode: self.redraw_mode,
            color_enabled: self.color_enabled,
        }
    }
}

impl ConfigView {
    /// Each line runs on one line.
    pub open spec fn wf(self) -> bool {
        forall|i: int| 0 <= i < self.text.len() ==> single_line(#[trigger] self.text[i])
    }
}

impl Config {
    /// A configuration is valid when its view is.
    pub open spec fn wf(&self) -> bool {
        self@.wf()
    }

    /// Makes the configuration that types the lines of `text`.
    pub fn new(
        text: &str,
        delay_ms: u64,
        max_iterations: u64,
        redraw_mode: RedrawMode,
        color_enabled: bool,
    ) -> (config: Config)
        ensures
            config.wf(),
            config@ == (ConfigView {
                text: lines_of(text@),
                delay_ms,
                max_iterations,
                redraw_mode,
                color_enabled,
            }),
    {
        let lines = split_lines(text);
        Config { lines, delay_ms, max_iterations, redraw_mode, color_enabled }
    }

    /// The lines to type.
    pub fn lines(&self) -> (lines: &Vec<String>)
        ensures
            views(lines@) == self@.text,
    {
        &self.lines
    }

    /// The pause after each reveal step, in milliseconds.
    pub fn delay_ms(&self) -> (delay_ms: u64)
        ensures
            delay_ms == self@.delay_ms,
    {
        self.delay_ms
    }

    /// The number of passes over the lines.
    pub fn max_iterations(&self) -> (max_iterations: u64)
        ensures
            max_iterations == self@.max_iterations,
    {
        self.max_iterations
    }

    /// Whether the output scrolls or is written over.
    pub fn redraw_mode(&self) -> (redraw_mode: RedrawMode)
        ensures
            redraw_mode == self@.redraw_mode,
    {
        self.redraw_mode
    }

    /// Whether the lines are written in color.
    pub fn color_enabled(&self) -> (color_enabled: bool)
        ensures
            color_enabled == self@.color_enabled,
    {
        self.color_enabled
    }
}

} // verus!
