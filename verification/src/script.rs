//! What a run shows, as a mathematical sequence of effects.
//!
//! A run is a number of passes over the lines. A pass reveals each line in
//! turn, one character more at each reveal step, and in
//! [`RedrawMode::ClearAndRewrite`] ends by clearing the screen. A reveal step
//! places the cursor (in that mode only), writes the chunk and pauses.

use crate::color::{color_at, rendered, Color};
use crate::config::{ConfigView, RedrawMode};
use vstd::prelude::*;

verus! {

/// One thing that a run does to the terminal or to the clock.
pub enum Effect {
    /// The cursor goes to a row and a column, both counted from 1.
    MoveCursor { row: nat, col: nat },
    /// A line of text is written.
    Write { text: Seq<char> },
    /// The run pauses for a number of milliseconds.
    Sleep { millis: nat },
    /// The screen is cleared and the cursor goes to row 1, column 1.
    ClearAndHome,
}

/// The number of lines before `line` that have a character to show. Only
/// those take a row of the screen.
pub open spec fn rows_before(text: Seq<Seq<char>>, line: nat) -> nat
    decreases line,
{
    if line == 0 {
        0
    } else {
        rows_before(text, (line - 1) as nat) + if text[line - 1].len() > 0 {
            1nat
        } else {
            0nat
        }
    }
}

/// The color of a line in a pass, if colors are on. The color moves on by
/// one with each line, from pass to pass.
pub open spec fn line_color(cfg: ConfigView, palette: Seq<Color>, pass: nat, line: nat) -> Option<
    Color,
> {
    if cfg.color_enabled {
        Some(color_at(palette, pass * cfg.text.len() + line))
    } else {
        None
    }
}

/// The number of effects of one reveal step.
pub open spec fn step_width(cfg: ConfigView) -> nat {
    if cfg.redraw_mode == RedrawMode::ClearAndRewrite {
        3
    } else {
        2
    }
}

/// The reveal step that shows the first `k` characters of a line.
pub open spec fn reveal_step(
    cfg: ConfigView,
    palette: Seq<Color>,
    pass: nat,
    line: nat,
    k: nat,
) -> Seq<Effect> {
    let write = Effect::Write {
        text: rendered(cfg.text[line as int].take(k as int), line_color(cfg, palette, pass, line)),
    };
    let sleep = Effect::Sleep { millis: cfg.delay_ms as nat };
    if cfg.redraw_mode == RedrawMode::ClearAndRewrite {
        seq![Effect::MoveCursor { row: rows_before(cfg.text, line) + 1, col: 1 }, write, sleep]
    } else {
        seq![write, sleep]
    }
}

/// The first `shown` reveal steps of a line.
pub open spec fn line_script(
    cfg: ConfigView,
    palette: Seq<Color>,
    pass: nat,
    line: nat,
    shown: nat,
) -> Seq<Effect>
    decreases shown,
{
    if shown == 0 {
        Seq::empty()
    } else {
        line_script(cfg, palette, pass, line, (shown - 1) as nat) + reveal_step(
            cfg,
            palette,
            pass,
            line,
            shown,
        )
    }
}

/// The first `lines` lines of a pass, each revealed in full.
pub open spec fn pass_script(cfg: ConfigView, palette: Seq<Color>, pass: nat, lines: nat) -> Seq<
    Effect,
>
    decreases lines,
{
    if lines == 0 {
        Seq::empty()
    } else {
        pass_script(cfg, palette, pass, (lines - 1) as nat) + line_script(
            cfg,
            palette,
            pass,
            (lines - 1) as nat,
            cfg.text[lines - 1].len(),
        )
    }
}

/// What ends a pass: the screen is cleared, in `ClearAndRewrite` mode only.
pub open spec fn pass_end(cfg: ConfigView) -> Seq<Effect> {
    if cfg.redraw_mode == RedrawMode::ClearAndRewrite {
        seq![Effect::ClearAndHome]
    } else {
        Seq::empty()
    }
}

/// One whole pass: every line in order, then the end of the pass.
pub open spec fn full_pass(cfg: ConfigView, palette: Seq<Color>, pass: nat) -> Seq<Effect> {
    pass_script(cfg, palette, pass, cfg.text.len()) + pass_end(cfg)
}

/// The first `passes` passes of a run.
pub open spec fn run_script(cfg: ConfigView, palette: Seq<Color>, passes: nat) -> Seq<Effect>
    decreases passes,
{
    if passes == 0 {
        Seq::empty()
    } else {
        run_script(cfg, palette, (passes - 1) as nat) + full_pass(
            cfg,
            palette,
            (passes - 1) as nat,
        )
    }
}

/// All that a run shows when nothing stops it: as many passes as the
/// configuration asks for.
pub open spec fn whole_run(cfg: ConfigView, palette: Seq<Color>) -> Seq<Effect> {
    run_script(cfg, palette, cfg.max_iterations as nat)
}

/// No line has a character to show.
pub open spec fn blank(text: Seq<Seq<char>>) -> bool {
    forall|i: int| 0 <= i < text.len() ==> (#[trigger] text[i]).len() == 0
}

/// A run of this configuration shows nothing, however many passes it makes.
pub open spec fn silent(cfg: ConfigView) -> bool {
    cfg.redraw_mode == RedrawMode::RepeatInPlace && blank(cfg.text)
}

/// No more lines take a row than there are lines.
pub proof fn lemma_rows_before_bound(text: Seq<Seq<char>>, line: nat)
    ensures
        rows_before(text, line) <= line,
    decreases line,
{
    if line > 0 {
        lemma_rows_before_bound(text, (line - 1) as nat);
    }
}

/// The reveal steps of a line follow one another: fewer of them are the
/// beginning of more of them.
pub proof fn lemma_line_script_grows(
    cfg: ConfigView,
    palette: Seq<Color>,
    pass: nat,
    line: nat,
    fewer: nat,
    more: nat,
)
    requires
        fewer <= more,
    ensures
        line_script(cfg, palette, pass, line, fewer).is_prefix_of(
            line_script(cfg, palette, pass, line, more),
        ),
    decreases more,
{
    if fewer < more {
        lemma_line_script_grows(cfg, palette, pass, line, fewer, (more - 1) as nat);
    }
}

/// The lines of a pass follow one another.
pub proof fn lemma_pass_script_grows(
    cfg: ConfigView,
    palette: Seq<Color>,
    pass: nat,
    fewer: nat,
    more: nat,
)
    requires
        fewer <= more,
    ensures
        pass_script(cfg, palette, pass, fewer).is_prefix_of(pass_script(cfg, palette, pass, more)),
    decreases more,
{
    if fewer < more {
        lemma_pass_script_grows(cfg, palette, pass, fewer, (more - 1) as nat);
    }
}

/// The passes of a run follow one another.
pub proof fn lemma_run_script_grows(cfg: ConfigView, palette: Seq<Color>, fewer: nat, more: nat)
    requires
        fewer <= more,
    ensures
        run_script(cfg, palette, fewer).is_prefix_of(run_script(cfg, palette, more)),
    decreases more,
{
    if fewer < more {
        lemma_run_script_grows(cfg, palette, fewer, (more - 1) as nat);
    }
}

/// Where no line has a character and nothing is cleared, no number of
/// passes shows anything.
pub proof fn lemma_silent_run_is_empty(cfg: ConfigView, palette: Seq<Color>, passes: nat)
    requires
        silent(cfg),
    ensures
        run_script(cfg, palette, passes) == Seq::<Effect>::empty(),
    decreases passes,
{
    if passes > 0 {
        lemma_silent_run_is_empty(cfg, palette, (passes - 1) as nat);
        lemma_blank_pass_is_empty(cfg, palette, (passes - 1) as nat, cfg.text.len());
    }
}

proof fn lemma_blank_pass_is_empty(cfg: ConfigView, palette: Seq<Color>, pass: nat, lines: nat)
    requires
        blank(cfg.text),
        lines <= cfg.text.len(),
    ensures
        pass_script(cfg, palette, pass, lines) == Seq::<Effect>::empty(),
    decreases lines,
{
    if lines > 0 {
        lemma_blank_pass_is_empty(cfg, palette, pass, (lines - 1) as nat);
        assert(cfg.text[lines - 1].len() == 0);
    }
}

/// The number of characters of the lines before `line`.
pub open spec fn chars_before(text: Seq<Seq<char>>, line: nat) -> nat
    decreases line,
{
    if line == 0 {
        0
    } else {
        chars_before(text, (line - 1) as nat) + text[line - 1].len()
    }
}

/// The number of effects of one whole pass.
pub open spec fn pass_length(cfg: ConfigView) -> nat {
    step_width(cfg) * chars_before(cfg.text, cfg.text.len()) + pass_end(cfg).len()
}

/// Each reveal step has as many effects as the redraw mode gives it.
pub proof fn lemma_line_script_len(
    cfg: ConfigView,
    palette: Seq<Color>,
    pass: nat,
    line: nat,
    shown: nat,
)
    ensures
        line_script(cfg, palette, pass, line, shown).len() == step_width(cfg) * shown,
    decreases shown,
{
    if shown > 0 {
        lemma_line_script_len(cfg, palette, pass, line, (shown - 1) as nat);
        assert(step_width(cfg) * shown == step_width(cfg) * (shown - 1) + step_width(cfg))
            by (nonlinear_arith);
    } else {
        assert(step_width(cfg) * shown == 0) by (nonlinear_arith)
            requires
                shown == 0,
        ;
    }
}

/// The lines of a pass take one reveal step for each of their characters.
pub proof fn lemma_pass_script_len(cfg: ConfigView, palette: Seq<Color>, pass: nat, lines: nat)
    ensures
        pass_script(cfg, palette, pass, lines).len() == step_width(cfg) * chars_before(
            cfg.text,
            lines,
        ),
    decreases lines,
{
    let w = step_width(cfg);
    if lines > 0 {
        let before = chars_before(cfg.text, (lines - 1) as nat);
        let here = cfg.text[lines - 1].len();
        lemma_pass_script_len(cfg, palette, pass, (lines - 1) as nat);
        lemma_line_script_len(cfg, palette, pass, (lines - 1) as nat, here);
        assert(w * (before + here) == w * before + w * here) by (nonlinear_arith);
    } else {
        assert(w * 0 == 0) by (nonlinear_arith);
    }
}

/// Every pass has the same number of effects.
pub proof fn lemma_run_script_len(cfg: ConfigView, palette: Seq<Color>, passes: nat)
    ensures
        run_script(cfg, palette, passes).len() == passes * pass_length(cfg),
    decreases passes,
{
    let length = pass_length(cfg);
    if passes > 0 {
        lemma_run_script_len(cfg, palette, (passes - 1) as nat);
        lemma_pass_script_len(cfg, palette, (passes - 1) as nat, cfg.text.len());
        assert(passes * length == (passes - 1) * length + length) by (nonlinear_arith);
    } else {
        assert(0 * length == 0) by (nonlinear_arith);
    }
}

/// A line is revealed in as many reveal steps as it has characters, no step
/// left out and none made twice: the `k`-th of them writes the first `k`
/// characters of the line, in the color of the line if it has one, and
/// pauses.
pub proof fn lemma_line_is_revealed_by_prefixes(
    cfg: ConfigView,
    palette: Seq<Color>,
    pass: nat,
    line: nat,
    k: nat,
)
    requires
        line < cfg.text.len(),
        1 <= k <= cfg.text[line as int].len(),
    ensures
        ({
            let whole = line_script(cfg, palette, pass, line, cfg.text[line as int].len());
            let w = step_width(cfg) as int;
            &&& whole.len() == w * cfg.text[line as int].len()
            &&& (k - 1) * w + w == k * w <= whole.len()
            &&& whole.subrange((k - 1) * w, k * w) == reveal_step(cfg, palette, pass, line, k)
            &&& whole[k * w - 2] == Effect::Write {
                text: rendered(
                    cfg.text[line as int].take(k as int),
                    line_color(cfg, palette, pass, line),
                ),
            }
            &&& !cfg.color_enabled ==> whole[k * w - 2] == Effect::Write {
                text: cfg.text[line as int].take(k as int),
            }
            &&& whole[k * w - 1] == Effect::Sleep { millis: cfg.delay_ms as nat }
        }),
{
    let length = cfg.text[line as int].len();
    let whole = line_script(cfg, palette, pass, line, length);
    let upto = line_script(cfg, palette, pass, line, k);
    let w = step_width(cfg) as int;
    lemma_line_script_len(cfg, palette, pass, line, length);
    lemma_line_script_len(cfg, palette, pass, line, k);
    lemma_line_script_len(cfg, palette, pass, line, (k - 1) as nat);
    lemma_line_script_grows(cfg, palette, pass, line, k, length);
    assert((k - 1) * w + w == k * w) by (nonlinear_arith);
    assert(k * w <= length * w) by (nonlinear_arith)
        requires
            k <= length,
            w >= 0,
    ;
    assert(w * k == k * w && w * length == length * w && w * (k - 1) == (k - 1) * w)
        by (nonlinear_arith);
    let step = reveal_step(cfg, palette, pass, line, k);
    assert(upto.subrange((k - 1) * w, k * w) == step);
    assert(whole.subrange((k - 1) * w, k * w) == upto.subrange((k - 1) * w, k * w));
    assert(whole[k * w - 2] == step[w - 2]);
    assert(whole[k * w - 1] == step[w - 1]);
}

/// A run that is asked for no pass shows nothing.
pub proof fn lemma_no_pass_shows_nothing(cfg: ConfigView, palette: Seq<Color>)
    requires
        cfg.max_iterations == 0,
    ensures
        whole_run(cfg, palette) == Seq::<Effect>::empty(),
{
}

/// A run is made of exactly as many passes as the configuration asks for,
/// one after another.
pub proof fn lemma_run_is_made_of_passes(cfg: ConfigView, palette: Seq<Color>, pass: nat)
    requires
        pass < cfg.max_iterations,
    ensures
        ({
            let length = pass_length(cfg) as int;
            &&& whole_run(cfg, palette).len() == cfg.max_iterations * length
            &&& pass * length + length == (pass + 1) * length <= whole_run(cfg, palette).len()
            &&& whole_run(cfg, palette).subrange(pass * length, (pass + 1) * length) == full_pass(
                cfg,
                palette,
                pass,
            )
        }),
{
    let length = pass_length(cfg) as int;
    let max = cfg.max_iterations as nat;
    let whole = whole_run(cfg, palette);
    let upto = run_script(cfg, palette, pass + 1);
    lemma_run_script_len(cfg, palette, max);
    lemma_run_script_len(cfg, palette, pass + 1);
    lemma_run_script_len(cfg, palette, pass);
    lemma_run_script_grows(cfg, palette, pass + 1, max);
    assert(pass * length + length == (pass + 1) * length) by (nonlinear_arith);
    assert((pass + 1) * length <= max * length) by (nonlinear_arith)
        requires
            pass + 1 <= max,
            length >= 0,
    ;
    assert(upto.subrange(pass * length, (pass + 1) * length) == full_pass(cfg, palette, pass));
    assert(whole.subrange(pass * length, (pass + 1) * length) == upto.subrange(
        pass * length,
        (pass + 1) * length,
    ));
}

/// A pass reveals each line in full, once, in the order of the lines, and
/// then ends.
pub proof fn lemma_pass_is_made_of_lines(cfg: ConfigView, palette: Seq<Color>, pass: nat, line: nat)
    requires
        line < cfg.text.len(),
    ensures
        ({
            let w = step_width(cfg);
            let from = w * chars_before(cfg.text, line);
            let to = w * chars_before(cfg.text, line + 1);
            let whole = full_pass(cfg, palette, pass);
            &&& whole.len() == pass_length(cfg)
            &&& from <= to <= whole.len()
            &&& whole.subrange(from as int, to as int) == line_script(
                cfg,
                palette,
                pass,
                line,
                cfg.text[line as int].len(),
            )
            &&& whole.subrange(
                (w * chars_before(cfg.text, cfg.text.len())) as int,
                whole.len() as int,
            ) == pass_end(cfg)
        }),
{
    let w = step_width(cfg);
    let n = cfg.text.len();
    let whole = full_pass(cfg, palette, pass);
    let lines = pass_script(cfg, palette, pass, n);
    let upto = pass_script(cfg, palette, pass, line + 1);
    lemma_pass_script_len(cfg, palette, pass, n);
    lemma_pass_script_len(cfg, palette, pass, line + 1);
    lemma_pass_script_len(cfg, palette, pass, line);
    lemma_pass_script_grows(cfg, palette, pass, line + 1, n);
    let from = w * chars_before(cfg.text, line);
    let to = w * chars_before(cfg.text, line + 1);
    assert(from <= to) by (nonlinear_arith)
        requires
            from == w * chars_before(cfg.text, line),
            to == w * chars_before(cfg.text, line + 1),
            chars_before(cfg.text, line) <= chars_before(cfg.text, line + 1),
    ;
    assert(upto.subrange(from as int, to as int) == line_script(
        cfg,
        palette,
        pass,
        line,
        cfg.text[line as int].len(),
    ));
    assert(lines.subrange(from as int, to as int) == upto.subrange(from as int, to as int));
    assert(whole.subrange(from as int, to as int) == lines.subrange(from as int, to as int));
    assert(whole.subrange(lines.len() as int, whole.len() as int) == pass_end(cfg));
}

/// Without colors the palette does not matter to what a run shows.
pub proof fn lemma_colorless_run_ignores_palette(
    cfg: ConfigView,
    palette: Seq<Color>,
    other: Seq<Color>,
    passes: nat,
)
    requires
        !cfg.color_enabled,
    ensures
        run_script(cfg, palette, passes) == run_script(cfg, other, passes),
    decreases passes,
{
    if passes > 0 {
        lemma_colorless_run_ignores_palette(cfg, palette, other, (passes - 1) as nat);
        lemma_colorless_pass_ignores_palette(
            cfg,
            palette,
            other,
            (passes - 1) as nat,
            cfg.text.len(),
        );
    }
}

proof fn lemma_colorless_pass_ignores_palette(
    cfg: ConfigView,
    palette: Seq<Color>,
    other: Seq<Color>,
    pass: nat,
    lines: nat,
)
    requires
        !cfg.color_enabled,
    ensures
        pass_script(cfg, palette, pass, lines) == pass_script(cfg, other, pass, lines),
    decreases lines,
{
    if lines > 0 {
        lemma_colorless_pass_ignores_palette(cfg, palette, other, pass, (lines - 1) as nat);
        lemma_colorless_line_ignores_palette(
            cfg,
            palette,
            other,
            pass,
            (lines - 1) as nat,
            cfg.text[lines - 1].len(),
        );
    }
}

proof fn lemma_colorless_line_ignores_palette(
    cfg: ConfigView,
    palette: Seq<Color>,
    other: Seq<Color>,
    pass: nat,
    line: nat,
    shown: nat,
)
    requires
        !cfg.color_enabled,
    ensures
        line_script(cfg, palette, pass, line, shown) == line_script(cfg, other, pass, line, shown),
    decreases shown,
{
    if shown > 0 {
        lemma_colorless_line_ignores_palette(cfg, palette, other, pass, line, (shown - 1) as nat);
    }
}

} // verus!
