//! The typing engine: a state machine that hands out, one at a time, the
//! actions of a run.
//!
//! The engine does not write and does not wait. Its driver calls
//! [`Engine::step`], carries out the [`Action`] that comes back, and calls
//! again with what happened. The run is over when `step` returns
//! [`Step::Finished`].

use crate::color::{render, Color, ColorCycle};
use crate::config::{Config, ConfigView, RedrawMode};
use crate::script::{
    lemma_colorless_run_ignores_palette, lemma_line_script_grows, lemma_line_script_len,
    lemma_no_pass_shows_nothing, lemma_pass_script_grows, lemma_pass_script_len,
    lemma_rows_before_bound, lemma_run_script_grows, lemma_silent_run_is_empty, line_script,
    pass_script, reveal_step, rows_before, run_script, silent, step_width, whole_run, Effect,
};
use crate::text::{prefix, single_line, views};
use vstd::prelude::*;
use vstd::string::*;

verus! {

/// What the driver is to do next.
#[derive(PartialEq, Eq, Debug)]
pub enum Action {
    /// Move the cursor to a row and a column, both counted from 1.
    MoveCursor { row: usize, col: usize },
    /// Write the text as one line.
    Write { text: String },
    /// Pause for a number of milliseconds.
    Sleep { millis: u64 },
    /// Clear the screen and put the cursor at row 1, column 1.
    ClearAndHome,
}

impl View for Action {
    type V = Effect;

    open spec fn view(&self) -> Effect {
        match self {
            Action::MoveCursor { row, col } => Effect::MoveCursor {
                row: *row as nat,
                col: *col as nat,
            },
            Action::Write { text } => Effect::Write { text: text@ },
            Action::Sleep { millis } => Effect::Sleep { millis: *millis as nat },
            Action::ClearAndHome => Effect::ClearAndHome,
        }
    }
}

/// What the driver reports when it asks for the next action.
#[derive(Clone, Copy, PartialEq, Eq, Debug, Structural)]
pub enum Event {
    /// Nothing was asked yet, or the last action was carried out.
    Ready,
    /// The last action could not be written: the output is closed.
    WriteFailed,
}

/// How a run ended.
#[derive(Clone, Copy, PartialEq, Eq, Debug, Structural)]
pub enum Outcome {
    /// Every pass was made.
    Completed,
    /// A request to stop was seen between two reveal steps.
    Interrupted,
    /// An action could not be written.
    WriteFailed,
}

impl Outcome {
    /// A run that was completed or interrupted ended well; one whose output
    /// failed did not.
    pub open spec fn is_success(self) -> bool {
        self != Outcome::WriteFailed
    }

    /// Whether the run ended well.
    pub fn succeeded(&self) -> (ok: bool)
        ensures
            ok == self.is_success(),
    {
        match self {
            Outcome::WriteFailed => false,
            _ => true,
        }
    }
}

/// The answer of the engine to its driver.
#[derive(PartialEq, Eq, Debug)]
pub enum Step {
    /// The run goes on with this action.
    Perform(Action),
    /// The run is over.
    Finished(Outcome),
}

/// Where the engine stands within a reveal step.
#[derive(Clone, Copy, PartialEq, Eq, Debug, Structural)]
enum Phase {
    /// Between two reveal steps.
    Boundary,
    /// The cursor was placed; the chunk is to be written.
    Positioned,
    /// The chunk was written; the pause is to be made.
    Written,
}

/// The typing engine with its runtime state.
pub struct Engine {
    config: Config,
    cycle: ColorCycle,
    /// The run shows nothing at all, so its passes need not be walked.
    silent: bool,
    /// The number of passes made in full.
    iteration: u64,
    /// The number of lines gone through, over all passes.
    color_index: u128,
    /// The row of the line being revealed; 0 at the start of a pass. Only
    /// kept in `ClearAndRewrite` mode.
    line_break: usize,
    /// The line being revealed.
    line: usize,
    /// The number of its characters.
    length: usize,
    /// The number of its characters shown by the reveal steps made in full.
    shown: usize,
    phase: Phase,
    outcome: Option<Outcome>,
}

impl Engine {
    /// The configuration of the run.
    pub closed spec fn config(&self) -> ConfigView {
        self.config@
    }

    /// The palette of the run.
    pub closed spec fn palette(&self) -> Seq<Color> {
        self.cycle@
    }

    /// How the run ended, once it has.
    pub closed spec fn outcome(&self) -> Option<Outcome> {
        self.outcome
    }

    /// The number of passes made in full.
    pub closed spec fn iteration_count(&self) -> nat {
        self.iteration as nat
    }

    /// The engine stands between two reveal steps. Only there does it heed a
    /// request to stop.
    pub closed spec fn at_boundary(&self) -> bool {
        self.phase == Phase::Boundary
    }

    /// The number of effects of the current reveal step that were handed out.
    spec fn emitted_in_step(&self) -> nat {
        match self.phase {
            Phase::Boundary => 0,
            Phase::Positioned => 1,
            Phase::Written => (step_width(self.config@) - 1) as nat,
        }
    }

    /// All the effects handed out so far, in order.
    pub closed spec fn history(&self) -> Seq<Effect> {
        let cfg = self.config@;
        let palette = self.cycle@;
        let pass = self.iteration as nat;
        let line = self.line as nat;
        run_script(cfg, palette, pass) + pass_script(cfg, palette, pass, line) + line_script(
            cfg,
            palette,
            pass,
            line,
            self.shown as nat,
        ) + reveal_step(cfg, palette, pass, line, (self.shown + 1) as nat).take(
            self.emitted_in_step() as int,
        )
    }

    /// The counters agree with one another and with a place in the run.
    spec fn consistent(&self) -> bool {
        let cfg = self.config@;
        let n = cfg.text.len();
        &&& self.config.wf()
        &&& self.cycle.wf()
        &&& self.silent == silent(cfg)
        &&& self.iteration <= cfg.max_iterations
        &&& self.line <= n
        &&& self.color_index == self.iteration * n + self.line
        &&& self.line < n ==> self.length == cfg.text[self.line as int].len()
        &&& self.line < n ==> self.shown <= self.length
        &&& self.line == n ==> self.shown == 0
        &&& self.phase != Phase::Boundary ==> self.line < n && self.shown < self.length
        &&& self.phase == Phase::Positioned ==> cfg.redraw_mode == RedrawMode::ClearAndRewrite
        &&& self.iteration == cfg.max_iterations ==> self.line == 0 && self.shown == 0 && self.phase
            == Phase::Boundary
        &&& self.line_break == if cfg.redraw_mode == RedrawMode::ClearAndRewrite {
            rows_before(cfg.text, self.line as nat) + if self.shown > 0 || self.phase
                != Phase::Boundary {
                1nat
            } else {
                0nat
            }
        } else {
            0nat
        }
        &&& self.outcome == Some(Outcome::Completed) ==> self.iteration == cfg.max_iterations
    }

    /// The engine stands at the end of the run or before an effect: it has
    /// gone past every line that has nothing left to show and every end of a
    /// pass that clears nothing.
    spec fn settled(&self) -> bool {
        let cfg = self.config@;
        let n = cfg.text.len();
        ||| self.iteration == cfg.max_iterations
        ||| self.line < n && self.shown < self.length
        ||| self.line == n && cfg.redraw_mode == RedrawMode::ClearAndRewrite
    }

    /// The state of a valid engine.
    pub closed spec fn wf(&self) -> bool {
        self.consistent() && self.settled()
    }

    /// An engine at the start of the run of a configuration.
    pub fn new(config: Config, cycle: ColorCycle) -> (engine: Engine)
        requires
            config.wf(),
            cycle.wf(),
        ensures
            engine.wf(),
            engine.config() == config@,
            engine.palette() == cycle@,
            engine.outcome() is None,
            engine.at_boundary(),
            engine.history() == Seq::<Effect>::empty(),
            engine.iteration_count() == if silent(config@) {
                config@.max_iterations as nat
            } else {
                0nat
            },
    {
        let quiet = is_silent(&config);
        let length = line_length(&config, 0);
        let mut engine = Engine {
            config,
            cycle,
            silent: quiet,
            iteration: 0,
            color_index: 0,
            line_break: 0,
            line: 0,
            length,
            shown: 0,
            phase: Phase::Boundary,
            outcome: None,
        };
        assert(engine.history() == Seq::<Effect>::empty());
        assert(engine.consistent());
        engine.settle();
        engine
    }

    /// The number of passes of which every effect was handed out. Where a
    /// pass has no effect at all, every pass counts as made.
    pub fn iterations(&self) -> (count: u64)
        requires
            self.wf(),
        ensures
            count == self.iteration_count(),
            count <= self.config().max_iterations,
    {
        self.iteration
    }

    /// How the run ended, or `None` while it goes on.
    pub fn ended(&self) -> (outcome: Option<Outcome>)
        ensures
            outcome == self.outcome(),
    {
        self.outcome
    }

    /// Takes the run one action further.
    ///
    /// A run that has ended stays ended, with the same outcome. A failed
    /// write ends the run at once. A request to stop ends it when the engine
    /// stands between two reveal steps. Otherwise the engine hands out the
    /// next effect of the whole run, or ends the run when none is left.
    pub fn step(&mut self, event: Event, interrupted: bool) -> (step: Step)
        requires
            old(self).wf(),
        ensures
            final(self).wf(),
            final(self).config() == old(self).config(),
            final(self).palette() == old(self).palette(),
            final(self).history().is_prefix_of(whole_run(old(self).config(), old(self).palette())),
            match old(self).outcome() {
                Some(outcome) => step == Step::Finished(outcome) && *final(self) == *old(self),
                None => match event {
                    Event::WriteFailed => {
                        &&& step == Step::Finished(Outcome::WriteFailed)
                        &&& final(self).outcome() == Some(Outcome::WriteFailed)
                        &&& final(self).history() == old(self).history()
                    },
                    Event::Ready => if old(self).at_boundary() && interrupted {
                        &&& step == Step::Finished(Outcome::Interrupted)
                        &&& final(self).outcome() == Some(Outcome::Interrupted)
                        &&& final(self).history() == old(self).history()
                    } else if old(self).history() == whole_run(
                        old(self).config(),
                        old(self).palette(),
                    ) {
                        &&& step == Step::Finished(Outcome::Completed)
                        &&& final(self).outcome() == Some(Outcome::Completed)
                        &&& final(self).history() == old(self).history()
                    } else {
                        &&& step matches Step::Perform(action)
                        &&& action@ == whole_run(
                            old(self).config(),
                            old(self).palette(),
                        )[old(self).history().len() as int]
                        &&& final(self).history() == old(self).history().push(action@)
                        &&& final(self).outcome() is None
                        &&& final(self).at_boundary() == (action@ is Sleep || action@
                            is ClearAndHome)
                    },
                },
            },
    {
        proof {
            self.lemma_history_in_run();
        }
        if let Some(outcome) = self.outcome {
            return Step::Finished(outcome);
        }
        match event {
            Event::WriteFailed => {
                self.outcome = Some(Outcome::WriteFailed);
                Step::Finished(Outcome::WriteFailed)
            },
            Event::Ready => {
                let step = match self.phase {
                    Phase::Boundary => {
                        if interrupted {
                            self.outcome = Some(Outcome::Interrupted);
                            Step::Finished(Outcome::Interrupted)
                        } else {
                            self.advance()
                        }
                    },
                    Phase::Positioned => self.write_chunk(),
                    Phase::Written => self.pause(),
                };
                proof {
                    self.lemma_history_in_run();
                    if step is Perform {
                        let whole = whole_run(self.config@, self.cycle@);
                        let last = self.history().len() - 1;
                        assert(self.history()[last] == whole.subrange(
                            0,
                            self.history().len() as int,
                        )[last]);
                    }
                }
                step
            },
        }
    }

    /// From between two reveal steps, ends the run if every pass is made,
    /// clears the screen at the end of a pass, or begins the next reveal step.
    fn advance(&mut self) -> (step: Step)
        requires
            old(self).wf(),
            old(self).outcome is None,
            old(self).phase == Phase::Boundary,
        ensures
            final(self).wf(),
            final(self).config@ == old(self).config@,
            final(self).cycle@ == old(self).cycle@,
            match step {
                Step::Finished(outcome) => {
                    &&& outcome == Outcome::Completed
                    &&& final(self).outcome == Some(Outcome::Completed)
                    &&& final(self).history() == old(self).history()
                    &&& old(self).history() == whole_run(old(self).config@, old(self).cycle@)
                },
                Step::Perform(action) => {
                    &&& final(self).history() == old(self).history().push(action@)
                    &&& final(self).outcome is None
                    &&& final(self).at_boundary() == (action@ is ClearAndHome)
                    &&& !(action@ is Sleep)
                },
            },
    {
        let ghost before = self.history();
        if self.iteration >= self.config.max_iterations() {
            self.outcome = Some(Outcome::Completed);
            return Step::Finished(Outcome::Completed);
        }
        if self.line == self.config.lines().len() {
            proof {
                lemma_next_pass(self.iteration as nat, self.line as nat);
            }
            self.line_break = 0;
            self.iteration = self.iteration + 1;
            self.line = 0;
            self.length = line_length(&self.config, 0);
            assert(self.history() == before.push(Effect::ClearAndHome));
            self.settle();
            return Step::Perform(Action::ClearAndHome);
        }
        match self.config.redraw_mode() {
            RedrawMode::ClearAndRewrite => {
                proof {
                    lemma_rows_before_bound(self.config@.text, self.line as nat);
                }
                if self.shown == 0 {
                    self.line_break = self.line_break + 1;
                }
                self.phase = Phase::Positioned;
                let action = Action::MoveCursor { row: self.line_break, col: 1 };
                assert(self.history() == before.push(action@));
                Step::Perform(action)
            },
            RedrawMode::RepeatInPlace => self.write_chunk(),
        }
    }

    /// Hands out the chunk of the reveal step that has begun.
    fn write_chunk(&mut self) -> (step: Step)
        requires
            old(self).wf(),
            old(self).outcome is None,
            old(self).line < old(self).config@.text.len(),
            old(self).shown < old(self).length,
            old(self).iteration < old(self).config@.max_iterations,
            old(self).phase == Phase::Positioned || (old(self).phase == Phase::Boundary
                && old(self).config@.redraw_mode == RedrawMode::RepeatInPlace),
        ensures
            final(self).wf(),
            final(self).config@ == old(self).config@,
            final(self).cycle@ == old(self).cycle@,
            final(self).outcome is None,
            !final(self).at_boundary(),
            step matches Step::Perform(action) && action@ is Write && final(self).history()
                == old(self).history().push(action@),
    {
        let ghost cfg = self.config@;
        let enabled = self.config.color_enabled();
        let color = if enabled {
            Some(self.cycle.color_for(self.color_index))
        } else {
            None
        };
        let line = &self.config.lines()[self.line];
        assert(line@ == cfg.text[self.line as int]);
        let chunk = prefix(line.as_str(), self.shown + 1);
        assert(single_line(chunk@)) by {
            assert(single_line(cfg.text[self.line as int]));
        }
        let text = render(chunk, color);
        let ghost before = self.history();
        self.phase = Phase::Written;
        let action = Action::Write { text };
        assert(self.history() == before.push(action@));
        Step::Perform(action)
    }

    /// Hands out the pause that ends a reveal step.
    fn pause(&mut self) -> (step: Step)
        requires
            old(self).wf(),
            old(self).outcome is None,
            old(self).phase == Phase::Written,
        ensures
            final(self).wf(),
            final(self).config@ == old(self).config@,
            final(self).cycle@ == old(self).cycle@,
            final(self).outcome is None,
            final(self).at_boundary(),
            step matches Step::Perform(action) && action@ is Sleep && final(self).history()
                == old(self).history().push(action@),
    {
        let ghost before = self.history();
        let millis = self.config.delay_ms();
        self.phase = Phase::Boundary;
        self.shown = self.shown + 1;
        let action = Action::Sleep { millis };
        assert(self.history() == before.push(action@));
        self.settle();
        Step::Perform(action)
    }

    /// Goes past the lines that have nothing left to show, and from the end
    /// of a pass that clears nothing to the start of the next, until an
    /// effect is due or the run is over. Nothing is handed out on the way.
    fn settle(&mut self)
        requires
            old(self).consistent(),
            old(self).outcome is None,
            old(self).phase == Phase::Boundary,
        ensures
            final(self).wf(),
            final(self).outcome is None,
            final(self).phase == Phase::Boundary,
            final(self).config@ == old(self).config@,
            final(self).cycle@ == old(self).cycle@,
            final(self).history() == old(self).history(),
            old(self).iteration == 0 && old(self).line == 0 && old(self).shown == 0
                ==> final(self).iteration == if old(self).silent {
                old(self).config@.max_iterations
            } else {
                0
            },
    {
        let ghost cfg = self.config@;
        let ghost palette = self.cycle@;
        let ghost before = self.history();
        let max = self.config.max_iterations();
        let mode = self.config.redraw_mode();
        let n = self.config.lines().len();
        loop
            invariant
                self.consistent(),
                self.outcome is None,
                self.phase == Phase::Boundary,
                self.config@ == cfg,
                self.cycle@ == palette,
                self.history() == before,
                self.silent == old(self).silent,
                cfg == old(self).config@,
                palette == old(self).cycle@,
                before == old(self).history(),
                max == cfg.max_iterations,
                mode == cfg.redraw_mode,
                n == cfg.text.len(),
                old(self).iteration == 0 && old(self).line == 0 && old(self).shown == 0 ==> {
                    &&& self.iteration == 0
                    &&& self.shown == 0
                    &&& self.silent ==> self.line == 0
                    &&& forall|j: int| 0 <= j < self.line ==> (#[trigger] cfg.text[j]).len() == 0
                },
            decreases max - self.iteration, n - self.line,
        {
            if self.iteration >= max {
                return;
            }
            if self.silent && self.line == 0 && self.shown == 0 {
                proof {
                    lemma_silent_run_is_empty(cfg, palette, self.iteration as nat);
                    lemma_silent_run_is_empty(cfg, palette, max as nat);
                    lemma_counter_fits(max as nat, n as nat, 0);
                }
                self.iteration = max;
                self.color_index = (max as u128) * (n as u128);
                assert(self.history() == before);
                return;
            }
            if self.line == n {
                match mode {
                    RedrawMode::ClearAndRewrite => {
                        return;
                    },
                    RedrawMode::RepeatInPlace => {
                        proof {
                            lemma_next_pass(self.iteration as nat, n as nat);
                        }
                        self.iteration = self.iteration + 1;
                        self.line = 0;
                        self.length = line_length(&self.config, 0);
                        assert(self.history() == before);
                    },
                }
            } else if self.shown == self.length {
                proof {
                    lemma_counter_fits(self.iteration as nat, n as nat, self.line as nat + 1);
                }
                self.color_index = self.color_index + 1;
                self.line = self.line + 1;
                self.length = line_length(&self.config, self.line);
                self.shown = 0;
                assert(self.history() == before);
            } else {
                return;
            }
        }
    }

    /// The engine counts the passes of which it has handed out every effect:
    /// the passes counted are the beginning of what was handed out, and the
    /// next pass is not yet among it in full. The count never exceeds the
    /// number of passes asked for; where it reaches that number, the whole
    /// run was handed out.
    pub proof fn lemma_passes_made(&self)
        requires
            self.wf(),
        ensures
            self.iteration_count() <= self.config().max_iterations,
            run_script(self.config(), self.palette(), self.iteration_count()).is_prefix_of(
                self.history(),
            ),
            self.history().is_prefix_of(
                run_script(self.config(), self.palette(), self.iteration_count() + 1),
            ),
            self.iteration_count() < self.config().max_iterations ==> self.history().len()
                < run_script(self.config(), self.palette(), self.iteration_count() + 1).len(),
            self.iteration_count() == self.config().max_iterations ==> self.history() == whole_run(
                self.config(),
                self.palette(),
            ),
            self.outcome() == Some(Outcome::Completed) ==> self.iteration_count()
                == self.config().max_iterations,
    {
        let cfg = self.config@;
        let palette = self.cycle@;
        let pass = self.iteration as nat;
        let line = self.line as nat;
        let shown = self.shown as nat;
        let n = cfg.text.len();
        let w = step_width(cfg);
        let before = run_script(cfg, palette, pass);
        let lines = pass_script(cfg, palette, pass, line);
        let steps = line_script(cfg, palette, pass, line, shown);
        let part = reveal_step(cfg, palette, pass, line, shown + 1).take(
            self.emitted_in_step() as int,
        );
        let pass_all = pass_script(cfg, palette, pass, n);
        assert(self.history() == before + (lines + (steps + part)));
        self.lemma_pass_so_far();
        lemma_begins_after(before, lines + (steps + part), pass_all);
        assert((before + pass_all).is_prefix_of(run_script(cfg, palette, pass + 1)));
        lemma_begins(self.history(), before + pass_all, run_script(cfg, palette, pass + 1));
        if pass < cfg.max_iterations {
            if line < n {
                // The reveal step that is due has not been handed out in full.
                lemma_pass_script_len(cfg, palette, pass, line);
                lemma_pass_script_len(cfg, palette, pass, line + 1);
                lemma_pass_script_len(cfg, palette, pass, n);
                lemma_pass_script_grows(cfg, palette, pass, line + 1, n);
                lemma_line_script_len(cfg, palette, pass, line, shown);
                lemma_line_script_len(cfg, palette, pass, line, self.length as nat);
                assert(w * shown + w <= w * self.length) by (nonlinear_arith)
                    requires
                        shown < self.length,
                        w >= 0,
                ;
            }
        }
    }

    /// What the current pass has shown begins the lines of the pass.
    proof fn lemma_pass_so_far(&self)
        requires
            self.consistent(),
        ensures
            ({
                let cfg = self.config@;
                let palette = self.cycle@;
                let pass = self.iteration as nat;
                let line = self.line as nat;
                let shown = self.shown as nat;
                (pass_script(cfg, palette, pass, line) + (line_script(
                    cfg,
                    palette,
                    pass,
                    line,
                    shown,
                ) + reveal_step(cfg, palette, pass, line, shown + 1).take(
                    self.emitted_in_step() as int,
                ))).is_prefix_of(pass_script(cfg, palette, pass, cfg.text.len()))
            }),
    {
        let cfg = self.config@;
        let palette = self.cycle@;
        let pass = self.iteration as nat;
        let line = self.line as nat;
        let shown = self.shown as nat;
        let n = cfg.text.len();
        let lines = pass_script(cfg, palette, pass, line);
        let steps = line_script(cfg, palette, pass, line, shown);
        let part = reveal_step(cfg, palette, pass, line, shown + 1).take(
            self.emitted_in_step() as int,
        );
        // What the current line has shown begins the line in full.
        let line_all = if line < n {
            line_script(cfg, palette, pass, line, cfg.text[line as int].len())
        } else {
            Seq::empty()
        };
        assert((steps + part).is_prefix_of(line_all)) by {
            if line < n && shown < self.length {
                lemma_line_script_grows(cfg, palette, pass, line, shown + 1, self.length as nat);
                lemma_begins(
                    steps + part,
                    line_script(cfg, palette, pass, line, shown + 1),
                    line_all,
                );
            } else {
                assert(steps + part == line_all);
            }
        }
        let pass_all = pass_script(cfg, palette, pass, n);
        lemma_begins_after(lines, steps + part, line_all);
        if line < n {
            lemma_pass_script_grows(cfg, palette, pass, line + 1, n);
            lemma_begins(lines + (steps + part), lines + line_all, pass_all);
        } else {
            assert(lines + line_all == pass_all);
        }
    }

    /// What a valid engine has handed out is the beginning of the whole run.
    pub proof fn lemma_history_in_run(&self)
        requires
            self.wf(),
        ensures
            self.history().is_prefix_of(whole_run(self.config(), self.palette())),
    {
        let cfg = self.config@;
        let palette = self.cycle@;
        let pass = self.iteration as nat;
        let max = cfg.max_iterations as nat;
        self.lemma_passes_made();
        if pass < max {
            lemma_run_script_grows(cfg, palette, pass + 1, max);
            lemma_begins(
                self.history(),
                run_script(cfg, palette, pass + 1),
                whole_run(cfg, palette),
            );
        }
    }
}

/// Two runs of one configuration that were both completed have shown the
/// same, effect for effect. Without colors this holds whatever the two
/// palettes are.
pub proof fn lemma_runs_agree(first: Engine, second: Engine)
    requires
        first.wf(),
        second.wf(),
        first.config() == second.config(),
        first.palette() == second.palette() || !first.config().color_enabled,
        first.outcome() == Some(Outcome::Completed),
        second.outcome() == Some(Outcome::Completed),
    ensures
        first.history() == second.history(),
        first.history() == whole_run(first.config(), first.palette()),
{
    first.lemma_passes_made();
    second.lemma_passes_made();
    if !first.config().color_enabled {
        lemma_colorless_run_ignores_palette(
            first.config(),
            first.palette(),
            second.palette(),
            first.config().max_iterations as nat,
        );
    }
}

/// A run that is asked for no pass hands out nothing and makes no pass: it
/// is over as it starts.
pub proof fn lemma_no_pass_run_is_over(engine: Engine)
    requires
        engine.wf(),
        engine.config().max_iterations == 0,
    ensures
        engine.iteration_count() == 0,
        engine.history() == Seq::<Effect>::empty(),
        engine.history() == whole_run(engine.config(), engine.palette()),
{
    engine.lemma_passes_made();
    lemma_no_pass_shows_nothing(engine.config(), engine.palette());
}

/// The beginning of a beginning of a sequence begins that sequence.
proof fn lemma_begins<A>(short: Seq<A>, middle: Seq<A>, long: Seq<A>)
    requires
        short.is_prefix_of(middle),
        middle.is_prefix_of(long),
    ensures
        short.is_prefix_of(long),
{
}

/// Behind a common start, a beginning stays a beginning.
proof fn lemma_begins_after<A>(start: Seq<A>, short: Seq<A>, long: Seq<A>)
    requires
        short.is_prefix_of(long),
    ensures
        (start + short).is_prefix_of(start + long),
{
}

/// Whether a run of the configuration shows nothing at all.
fn is_silent(config: &Config) -> (quiet: bool)
    ensures
        quiet == silent(config@),
{
    match config.redraw_mode() {
        RedrawMode::ClearAndRewrite => false,
        RedrawMode::RepeatInPlace => {
            let lines = config.lines();
            let mut i: usize = 0;
            while i < lines.len()
                invariant
                    i <= lines.len(),
                    views(lines@) == config@.text,
                    forall|j: int| 0 <= j < i ==> (#[trigger] lines[j])@.len() == 0,
                decreases lines.len() - i,
            {
                if !lines[i].as_str().is_empty() {
                    assert(config@.text[i as int] == lines[i as int]@);
                    return false;
                }
                i = i + 1;
            }
            assert forall|j: int| 0 <= j < config@.text.len() implies (
            #[trigger] config@.text[j]).len() == 0 by {
                assert(config@.text[j] == lines[j]@);
            }
            true
        },
    }
}

/// The number of characters of a line of the configuration, or 0 where the
/// configuration has no such line.
fn line_length(config: &Config, line: usize) -> (length: usize)
    ensures
        line < config@.text.len() ==> length == config@.text[line as int].len(),
        line >= config@.text.len() ==> length == 0,
{
    let lines = config.lines();
    if line < lines.len() {
        assert(config@.text[line as int] == lines[line as int]@);
        lines[line].as_str().unicode_len()
    } else {
        0
    }
}

/// The count of the lines gone through fits its counter, whatever the
/// number of passes and of lines.
proof fn lemma_counter_fits(pass: nat, lines: nat, line: nat)
    requires
        pass <= u64::MAX,
        lines <= usize::MAX,
        line <= lines,
    ensures
        pass * lines + line <= u128::MAX,
{
    assert(pass * lines <= 0xffff_ffff_ffff_ffff * 0xffff_ffff_ffff_ffff) by (nonlinear_arith)
        requires
            pass <= 0xffff_ffff_ffff_ffff,
            lines <= 0xffff_ffff_ffff_ffff,
    ;
}

/// Going on to the next pass adds the number of lines to the count.
proof fn lemma_next_pass(pass: nat, lines: nat)
    ensures
        (pass + 1) * lines == pass * lines + lines,
{
    assert((pass + 1) * lines == pass * lines + lines) by (nonlinear_arith);
}

} // verus!
