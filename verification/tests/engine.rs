use colorful::Colorful;
use infinityper::color::{Color, ColorCycle};
use infinityper::config::{Config, RedrawMode};
use infinityper::engine::{Action, Engine, Event, Outcome, Step};

fn engine_for(text: &str, delay_ms: u64, passes: u64, mode: RedrawMode, color: bool) -> Engine {
    Engine::new(
        Config::new(text, delay_ms, passes, mode, color),
        ColorCycle::standard(),
    )
}

/// Carries a run through, every action succeeding, and collects its actions.
fn run(engine: &mut Engine) -> (Vec<Action>, Outcome) {
    let mut actions = Vec::new();
    loop {
        match engine.step(Event::Ready, false) {
            Step::Perform(action) => actions.push(action),
            Step::Finished(outcome) => return (actions, outcome),
        }
    }
}

fn write(text: &str) -> Action {
    Action::Write { text: text.to_string() }
}

fn sleep(millis: u64) -> Action {
    Action::Sleep { millis }
}

fn cursor(row: usize) -> Action {
    Action::MoveCursor { row, col: 1 }
}

fn written(actions: &[Action]) -> Vec<String> {
    let mut texts = Vec::new();
    for action in actions {
        if let Action::Write { text } = action {
            texts.push(text.clone());
        }
    }
    texts
}

fn rows(actions: &[Action]) -> Vec<usize> {
    let mut rows = Vec::new();
    for action in actions {
        if let Action::MoveCursor { row, col } = action {
            assert_eq!(*col, 1);
            rows.push(*row);
        }
    }
    rows
}

/// The run as nested loops over passes, lines and characters.
fn plain_run(text: &str, delay_ms: u64, passes: u64, mode: RedrawMode, color: bool) -> Vec<Action> {
    let palette = [
        colorful::Color::Purple4b,
        colorful::Color::Cyan,
        colorful::Color::DodgerBlue1,
        colorful::Color::Green3b,
        colorful::Color::Yellow,
        colorful::Color::OrangeRed1,
        colorful::Color::PaleVioletRed1,
    ];
    let mut actions = Vec::new();
    let mut color_index = 0;
    let mut iteration = 0;
    loop {
        if iteration >= passes {
            return actions;
        }
        let mut line_break = 0;
        for line in text.lines() {
            let characters: Vec<char> = line.chars().collect();
            for k in 1..=characters.len() {
                if mode == RedrawMode::ClearAndRewrite {
                    if k == 1 {
                        line_break += 1;
                    }
                    actions.push(cursor(line_break));
                }
                let chunk: String = characters[..k].iter().collect();
                if color {
                    let shade = palette[color_index % palette.len()];
                    actions.push(write(&chunk.gradient(shade).to_string()));
                } else {
                    actions.push(write(&chunk));
                }
                actions.push(sleep(delay_ms));
            }
            color_index += 1;
        }
        if mode == RedrawMode::ClearAndRewrite {
            actions.push(Action::ClearAndHome);
        }
        iteration += 1;
    }
}

#[test]
fn engine_agrees_with_the_plain_loops() {
    let texts = [
        "",
        "a",
        "ab\nc",
        "\n",
        "\nab\n\n\ncd\n",
        "a\r\nb\r",
        "héllo wörld\n日本語\n😀",
        "The heart can think of no devotion\nGreater than being shore to the ocean–\nHolding the curve of one position,\nCounting an endless repetition.",
        "one\ntwo\nthree\nfour\nfive\nsix\nseven\neight\nnine",
    ];
    for text in texts {
        for passes in [0u64, 1, 2, 3] {
            for mode in [RedrawMode::RepeatInPlace, RedrawMode::ClearAndRewrite] {
                for color in [false, true] {
                    let mut engine = engine_for(text, 7, passes, mode, color);
                    let (actions, outcome) = run(&mut engine);
                    assert_eq!(outcome, Outcome::Completed);
                    assert_eq!(
                        actions,
                        plain_run(text, 7, passes, mode, color),
                        "for {:?}, {} passes, {:?}, color {}",
                        text,
                        passes,
                        mode,
                        color
                    );
                    assert_eq!(engine.iterations(), passes);
                }
            }
        }
    }
}

#[test]
fn each_reveal_step_shows_one_more_character() {
    let mut engine = engine_for("hello", 150, 1, RedrawMode::RepeatInPlace, false);
    let (actions, outcome) = run(&mut engine);
    assert_eq!(outcome, Outcome::Completed);
    assert_eq!(
        actions,
        vec![
            write("h"),
            sleep(150),
            write("he"),
            sleep(150),
            write("hel"),
            sleep(150),
            write("hell"),
            sleep(150),
            write("hello"),
            sleep(150),
        ]
    );
}

#[test]
fn reveal_steps_count_characters_not_bytes() {
    let mut engine = engine_for("日本語", 1, 1, RedrawMode::RepeatInPlace, false);
    let (actions, _) = run(&mut engine);
    assert_eq!(written(&actions), vec!["日", "日本", "日本語"]);
    let mut engine = engine_for("a😀é", 1, 1, RedrawMode::RepeatInPlace, false);
    let (actions, _) = run(&mut engine);
    assert_eq!(written(&actions), vec!["a", "a😀", "a😀é"]);
}

#[test]
fn every_prefix_of_every_line_is_written_once() {
    let text = "The heart can think of no devotion\nGreater than being shore to the ocean–";
    let mut engine = engine_for(text, 0, 1, RedrawMode::RepeatInPlace, false);
    let (actions, _) = run(&mut engine);
    let mut expected = Vec::new();
    for line in text.lines() {
        let characters: Vec<char> = line.chars().collect();
        for k in 1..=characters.len() {
            expected.push(characters[..k].iter().collect::<String>());
        }
    }
    assert_eq!(written(&actions), expected);
    assert_eq!(actions.len(), 2 * expected.len());
}

#[test]
fn no_iterations_no_actions() {
    for mode in [RedrawMode::RepeatInPlace, RedrawMode::ClearAndRewrite] {
        let mut engine = engine_for("ab\nc", 150, 0, mode, true);
        assert_eq!(
            engine.step(Event::Ready, false),
            Step::Finished(Outcome::Completed)
        );
        assert_eq!(engine.iterations(), 0);
        assert_eq!(engine.ended(), Some(Outcome::Completed));
    }
}

#[test]
fn makes_exactly_the_passes_asked_for() {
    let mut engine = engine_for("ab\nc", 20, 3, RedrawMode::RepeatInPlace, false);
    assert_eq!(engine.iterations(), 0);
    let (actions, outcome) = run(&mut engine);
    assert_eq!(outcome, Outcome::Completed);
    assert_eq!(engine.iterations(), 3);
    let one_pass = ["a", "ab", "c"];
    let mut expected = Vec::new();
    for _ in 0..3 {
        expected.extend(one_pass.iter().map(|s| s.to_string()));
    }
    assert_eq!(written(&actions), expected);
    assert_eq!(actions.len(), 3 * 6);
}

#[test]
fn a_pass_counts_once_its_last_effect_is_handed_out() {
    let mut engine = engine_for("a\n\n", 20, 2, RedrawMode::RepeatInPlace, false);
    assert_eq!(engine.iterations(), 0);
    assert_eq!(engine.step(Event::Ready, false), Step::Perform(write("a")));
    assert_eq!(engine.iterations(), 0);
    assert_eq!(engine.step(Event::Ready, false), Step::Perform(sleep(20)));
    assert_eq!(engine.iterations(), 1);
    assert_eq!(engine.step(Event::Ready, false), Step::Perform(write("a")));
    assert_eq!(engine.iterations(), 1);
    assert_eq!(engine.step(Event::Ready, false), Step::Perform(sleep(20)));
    assert_eq!(engine.iterations(), 2);
    assert_eq!(engine.ended(), None);
    assert_eq!(engine.step(Event::Ready, false), Step::Finished(Outcome::Completed));
    assert_eq!(engine.iterations(), 2);

    let mut engine = engine_for("a", 20, 1, RedrawMode::ClearAndRewrite, false);
    assert_eq!(engine.step(Event::Ready, false), Step::Perform(cursor(1)));
    assert_eq!(engine.step(Event::Ready, false), Step::Perform(write("a")));
    assert_eq!(engine.step(Event::Ready, false), Step::Perform(sleep(20)));
    assert_eq!(engine.iterations(), 0);
    assert_eq!(engine.step(Event::Ready, false), Step::Perform(Action::ClearAndHome));
    assert_eq!(engine.iterations(), 1);
}

#[test]
fn one_pass_in_repeat_mode() {
    let mut engine = engine_for("ab\nc", 20, 1, RedrawMode::RepeatInPlace, false);
    let (actions, outcome) = run(&mut engine);
    assert_eq!(outcome, Outcome::Completed);
    assert_eq!(
        actions,
        vec![write("a"), sleep(20), write("ab"), sleep(20), write("c"), sleep(20)]
    );
}

#[test]
fn repeat_mode_never_moves_or_clears() {
    let mut engine = engine_for("ab\nc\n\nlast", 5, 4, RedrawMode::RepeatInPlace, true);
    let (actions, _) = run(&mut engine);
    for action in &actions {
        assert!(matches!(action, Action::Write { .. } | Action::Sleep { .. }));
    }
}

#[test]
fn cursor_row_moves_on_once_per_line() {
    let mut engine = engine_for("ab\nc", 150, 1, RedrawMode::ClearAndRewrite, false);
    let (actions, outcome) = run(&mut engine);
    assert_eq!(outcome, Outcome::Completed);
    assert_eq!(rows(&actions), vec![1, 1, 2]);
    assert_eq!(
        actions,
        vec![
            cursor(1),
            write("a"),
            sleep(150),
            cursor(1),
            write("ab"),
            sleep(150),
            cursor(2),
            write("c"),
            sleep(150),
            Action::ClearAndHome,
        ]
    );
}

#[test]
fn cursor_row_starts_again_in_each_pass() {
    let mut engine = engine_for("ab\nc", 150, 2, RedrawMode::ClearAndRewrite, false);
    let (actions, _) = run(&mut engine);
    assert_eq!(rows(&actions), vec![1, 1, 2, 1, 1, 2]);
    assert_eq!(actions.len(), 20);
    assert_eq!(actions[9], Action::ClearAndHome);
    assert_eq!(actions[19], Action::ClearAndHome);
}

#[test]
fn empty_lines_take_no_step_and_no_row() {
    let mut engine = engine_for("a\n\nb", 1, 1, RedrawMode::ClearAndRewrite, false);
    let (actions, _) = run(&mut engine);
    assert_eq!(
        actions,
        vec![
            cursor(1),
            write("a"),
            sleep(1),
            cursor(2),
            write("b"),
            sleep(1),
            Action::ClearAndHome,
        ]
    );
}

#[test]
fn pause_is_made_for_every_step_even_of_no_length() {
    let mut engine = engine_for("ab", 0, 1, RedrawMode::RepeatInPlace, false);
    let (actions, _) = run(&mut engine);
    assert_eq!(actions, vec![write("a"), sleep(0), write("ab"), sleep(0)]);
}

#[test]
fn failed_write_ends_the_run_at_once() {
    let mut engine = engine_for("abcd\nef", 150, 5, RedrawMode::RepeatInPlace, false);
    let mut performed = Vec::new();
    let mut event = Event::Ready;
    let outcome = loop {
        match engine.step(event, false) {
            Step::Perform(action) => {
                let third_write = action == write("abc");
                performed.push(action);
                event = if third_write { Event::WriteFailed } else { Event::Ready };
            }
            Step::Finished(outcome) => break outcome,
        }
    };
    assert_eq!(outcome, Outcome::WriteFailed);
    assert!(!outcome.succeeded());
    assert_eq!(
        performed,
        vec![write("a"), sleep(150), write("ab"), sleep(150), write("abc")]
    );
    assert_eq!(engine.ended(), Some(Outcome::WriteFailed));
    // Nothing brings the run back.
    assert_eq!(engine.step(Event::Ready, false), Step::Finished(Outcome::WriteFailed));
    assert_eq!(engine.step(Event::Ready, true), Step::Finished(Outcome::WriteFailed));
    assert_eq!(engine.step(Event::WriteFailed, false), Step::Finished(Outcome::WriteFailed));
}

#[test]
fn failed_cursor_move_ends_the_run() {
    let mut engine = engine_for("ab", 150, 1, RedrawMode::ClearAndRewrite, false);
    assert_eq!(engine.step(Event::Ready, false), Step::Perform(cursor(1)));
    assert_eq!(
        engine.step(Event::WriteFailed, false),
        Step::Finished(Outcome::WriteFailed)
    );
}

#[test]
fn failure_before_the_first_action_ends_the_run() {
    let mut engine = engine_for("ab", 150, 1, RedrawMode::RepeatInPlace, false);
    assert_eq!(
        engine.step(Event::WriteFailed, false),
        Step::Finished(Outcome::WriteFailed)
    );
}

#[test]
fn same_input_same_output() {
    let text = "Holding the curve of one position,\nCounting an endless repetition.";
    let mut first = engine_for(text, 150, 2, RedrawMode::RepeatInPlace, false);
    let mut second = engine_for(text, 150, 2, RedrawMode::RepeatInPlace, false);
    let (first_actions, first_outcome) = run(&mut first);
    let (second_actions, second_outcome) = run(&mut second);
    assert_eq!(first_actions, second_actions);
    assert_eq!(first_outcome, second_outcome);
    let bytes = |texts: Vec<String>| texts.join("\n").into_bytes();
    assert_eq!(bytes(written(&first_actions)), bytes(written(&second_actions)));
}

#[test]
fn same_input_same_output_in_color() {
    let mut first = engine_for("ab\nc", 150, 2, RedrawMode::ClearAndRewrite, true);
    let mut second = engine_for("ab\nc", 150, 2, RedrawMode::ClearAndRewrite, true);
    assert_eq!(run(&mut first), run(&mut second));
}

#[test]
fn interrupt_is_heeded_between_reveal_steps() {
    let mut engine = engine_for("ab", 150, 1, RedrawMode::ClearAndRewrite, false);
    assert_eq!(engine.step(Event::Ready, false), Step::Perform(cursor(1)));
    // In the middle of a reveal step the request waits.
    assert_eq!(engine.step(Event::Ready, true), Step::Perform(write("a")));
    assert_eq!(engine.step(Event::Ready, true), Step::Perform(sleep(150)));
    assert_eq!(engine.ended(), None);
    assert_eq!(
        engine.step(Event::Ready, true),
        Step::Finished(Outcome::Interrupted)
    );
    assert_eq!(engine.ended(), Some(Outcome::Interrupted));
    assert!(Outcome::Interrupted.succeeded());
    assert_eq!(
        engine.step(Event::Ready, false),
        Step::Finished(Outcome::Interrupted)
    );
}

#[test]
fn interrupt_before_the_first_step() {
    let mut engine = engine_for("ab", 150, u64::MAX, RedrawMode::RepeatInPlace, false);
    assert_eq!(
        engine.step(Event::Ready, true),
        Step::Finished(Outcome::Interrupted)
    );
}

#[test]
fn interrupt_ends_an_endless_run_within_one_step() {
    let mut engine = engine_for("ab\nc", 1, u64::MAX, RedrawMode::RepeatInPlace, false);
    let mut performed = 0;
    let outcome = loop {
        match engine.step(Event::Ready, performed >= 99) {
            Step::Perform(_) => performed += 1,
            Step::Finished(outcome) => break outcome,
        }
    };
    assert_eq!(outcome, Outcome::Interrupted);
    // The 99th action is a write; its pause is still made.
    assert_eq!(performed, 100);
}

#[test]
fn completed_and_interrupted_are_successes() {
    assert!(Outcome::Completed.succeeded());
    assert!(Outcome::Interrupted.succeeded());
    assert!(!Outcome::WriteFailed.succeeded());
}

#[test]
fn endless_run_goes_on_past_many_passes() {
    let mut engine = engine_for("ab", 1, u64::MAX, RedrawMode::ClearAndRewrite, false);
    for pass in 0..1000u64 {
        assert_eq!(engine.iterations(), pass);
        assert_eq!(engine.step(Event::Ready, false), Step::Perform(cursor(1)));
        assert_eq!(engine.step(Event::Ready, false), Step::Perform(write("a")));
        assert_eq!(engine.step(Event::Ready, false), Step::Perform(sleep(1)));
        assert_eq!(engine.step(Event::Ready, false), Step::Perform(cursor(1)));
        assert_eq!(engine.step(Event::Ready, false), Step::Perform(write("ab")));
        assert_eq!(engine.step(Event::Ready, false), Step::Perform(sleep(1)));
        assert_eq!(engine.step(Event::Ready, false), Step::Perform(Action::ClearAndHome));
    }
    assert_eq!(engine.iterations(), 1000);
    assert_eq!(engine.ended(), None);
}

#[test]
fn text_without_characters_ends_at_once_in_repeat_mode() {
    for text in ["", "\n", "\n\n\n"] {
        let mut engine = engine_for(text, 150, u64::MAX, RedrawMode::RepeatInPlace, true);
        assert_eq!(engine.iterations(), u64::MAX);
        assert_eq!(
            engine.step(Event::Ready, false),
            Step::Finished(Outcome::Completed)
        );
        assert_eq!(engine.iterations(), u64::MAX);
    }
}

#[test]
fn text_without_characters_still_clears_after_each_pass() {
    for text in ["", "\n\n"] {
        let mut engine = engine_for(text, 150, 3, RedrawMode::ClearAndRewrite, false);
        let (actions, outcome) = run(&mut engine);
        assert_eq!(outcome, Outcome::Completed);
        assert_eq!(
            actions,
            vec![Action::ClearAndHome, Action::ClearAndHome, Action::ClearAndHome]
        );
        assert_eq!(engine.iterations(), 3);
    }
}

#[test]
fn colored_chunks_are_gradients() {
    let mut engine = engine_for("a", 150, 1, RedrawMode::RepeatInPlace, true);
    let (actions, _) = run(&mut engine);
    assert_eq!(
        actions,
        vec![write("\u{1b}[38;2;138;0;255ma\u{1b}[0m"), sleep(150)]
    );
}

#[test]
fn color_moves_on_once_per_line() {
    let mut engine = engine_for("ab\nc", 150, 1, RedrawMode::RepeatInPlace, true);
    let (actions, _) = run(&mut engine);
    let texts = written(&actions);
    assert_eq!(texts.len(), 3);
    // Both chunks of the first line start in the first color of the palette.
    assert!(texts[0].starts_with("\u{1b}[38;2;138;0;255ma"));
    assert!(texts[1].starts_with("\u{1b}[38;2;138;0;255ma"));
    // The second line starts in the second.
    assert_eq!(texts[2], "\u{1b}[38;2;0;255;255mc\u{1b}[0m");
}

#[test]
fn color_goes_on_from_pass_to_pass_and_wraps() {
    let cycle = ColorCycle::new(vec![Color::Purple4b, Color::Cyan, Color::Yellow]).unwrap();
    let config = Config::new("a\nb", 1, 3, RedrawMode::RepeatInPlace, true);
    let mut engine = Engine::new(config, cycle);
    let (actions, _) = run(&mut engine);
    let purple = "\u{1b}[38;2;138;0;255m";
    let cyan = "\u{1b}[38;2;0;255;255m";
    let yellow = "\u{1b}[38;2;255;255;0m";
    let reset = "\u{1b}[0m";
    assert_eq!(
        written(&actions),
        vec![
            format!("{}a{}", purple, reset),
            format!("{}b{}", cyan, reset),
            format!("{}a{}", yellow, reset),
            format!("{}b{}", purple, reset),
            format!("{}a{}", cyan, reset),
            format!("{}b{}", yellow, reset),
        ]
    );
}

#[test]
fn empty_lines_still_take_a_color() {
    let cycle = ColorCycle::new(vec![Color::Purple4b, Color::Cyan, Color::Yellow]).unwrap();
    let config = Config::new("a\n\nb", 1, 1, RedrawMode::RepeatInPlace, true);
    let mut engine = Engine::new(config, cycle);
    let (actions, _) = run(&mut engine);
    assert_eq!(
        written(&actions),
        vec![
            "\u{1b}[38;2;138;0;255ma\u{1b}[0m".to_string(),
            "\u{1b}[38;2;255;255;0mb\u{1b}[0m".to_string(),
        ]
    );
}

#[test]
fn config_keeps_what_it_was_given() {
    let config = Config::new("ab\r\nc\n", 150, 7, RedrawMode::ClearAndRewrite, true);
    assert_eq!(config.lines(), &vec!["ab".to_string(), "c".to_string()]);
    assert_eq!(config.delay_ms(), 150);
    assert_eq!(config.max_iterations(), 7);
    assert_eq!(config.redraw_mode(), RedrawMode::ClearAndRewrite);
    assert!(config.color_enabled());
}
